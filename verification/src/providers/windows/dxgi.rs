//! The adapters that DXGI lists.
use crate::error::{ErrorModel, GpuError};
use crate::json::Json;
use crate::merge::text_view;
use crate::model::{
    pci_vendor, pci_view, DeviceObservation, GpuKind, GpuVendor, MemoryTopology, MetricKey,
    PciIdentity, PciModel, ProviderDiagnostic, StaticMemoryInfo, UnavailableReason, WindowsIdentity,
};
use crate::provider::ProviderMetadata;
use crate::text::{
    chars_of, decimal, decimal_text, extend, extend_text, joined, owned, padded_digits,
    padded_digits_of, string_of, trim, trimmed, CharClass,
};
use vstd::prelude::*;

verus! {

/// The flag of an adapter that is no hardware.
pub const SOFTWARE_FLAG: u32 = 2;

/// The name of the provider.
pub open spec fn dxgi_name() -> Seq<char> {
    "windows-dxgi"@
}

/// A signed word by its bits.
pub open spec fn unsigned_word(value: i32) -> nat {
    if value < 0 {
        (value + 0x1_0000_0000) as nat
    } else {
        value as nat
    }
}

/// A locally unique identifier in hexadecimal: the high word, then the low one.
pub open spec fn luid_text(high: i32, low: u32) -> Seq<char> {
    padded_digits(unsigned_word(high), 16, 8) + ":"@ + padded_digits(low as nat, 16, 8)
}

pub fn canonical_luid(high: i32, low: u32) -> (text: String)
    ensures
        text@ == luid_text(high, low),
{
    let word: u64 = if high < 0 {
        (high as i64 + 0x1_0000_0000) as u64
    } else {
        high as u64
    };
    luid_of_words(word, low as u64)
}

/// Two words in hexadecimal.
pub fn luid_of_words(high: u64, low: u64) -> (text: String)
    ensures
        text@ == padded_digits(high as nat, 16, 8) + ":"@ + padded_digits(low as nat, 16, 8),
{
    let mut text = padded_digits_of(high, 16, 8);
    extend_text(&mut text, ":");
    let rest = padded_digits_of(low, 16, 8);
    extend(&mut text, &rest);
    string_of(&text)
}

/// The text that UTF-16 units encode: a surrogate without its partner stands for the replacement
/// character.
pub open spec fn utf16_text(units: Seq<u16>) -> Seq<char>
    decreases units.len(),
{
    if units.len() == 0 {
        Seq::empty()
    } else if units[0] < 0xd800 || units[0] > 0xdfff {
        seq![units[0] as char] + utf16_text(units.skip(1))
    } else if units[0] <= 0xdbff && units.len() > 1 && 0xdc00 <= units[1] <= 0xdfff {
        seq![(0x1_0000 + (units[0] - 0xd800) * 0x400 + (units[1] - 0xdc00)) as char] + utf16_text(
            units.skip(2),
        )
    } else {
        seq!['\u{fffd}'] + utf16_text(units.skip(1))
    }
}

/// `String::from_utf16_lossy` of std: the text that the units encode, with the replacement
/// character for each surrogate that has no partner.
#[verifier::external_body]
pub(crate) fn utf16_lossy(units: &Vec<u16>) -> (text: String)
    ensures
        text@ == utf16_text(units@),
{
    String::from_utf16_lossy(units)
}

/// The units up to the first zero.
pub open spec fn before_zero(units: Seq<u16>) -> Seq<u16>
    decreases units.len(),
{
    if units.len() == 0 || units[0] == 0 {
        Seq::empty()
    } else {
        seq![units[0]] + before_zero(units.skip(1))
    }
}

/// The name that the units hold.
pub open spec fn adapter_name(units: Seq<u16>) -> Seq<char> {
    let name = trim(CharClass::White, utf16_text(before_zero(units)));
    if name.len() == 0 {
        "Unknown GPU"@
    } else {
        name
    }
}

proof fn lemma_before_zero(units: Seq<u16>, end: int)
    requires
        0 <= end <= units.len(),
        forall|i: int| 0 <= i < end ==> units[i] != 0,
        end < units.len() ==> units[end] == 0,
    ensures
        before_zero(units) == units.take(end),
    decreases units.len(),
{
    if units.len() > 0 && units[0] != 0 {
        let rest = units.skip(1);
        assert forall|i: int| 0 <= i < end - 1 implies rest[i] != 0 by {
            assert(rest[i] == units[i + 1]);
        }
        lemma_before_zero(rest, end - 1);
        assert(seq![units[0]] + rest.take(end - 1) == units.take(end));
    } else {
        assert(units.take(end) == Seq::<u16>::empty());
    }
}

pub fn utf16_name(value: &Vec<u16>) -> (name: String)
    ensures
        name@ == adapter_name(value@),
{
    let mut units: Vec<u16> = Vec::new();
    let mut end: usize = 0;
    while end < value.len() && value[end] != 0
        invariant
            end <= value.len(),
            units@ == value@.take(end as int),
            forall|i: int| 0 <= i < end ==> value@[i] != 0,
        decreases value.len() - end,
    {
        units.push(value[end]);
        end = end + 1;
        assert(units@ == value@.take(end as int));
    }
    proof {
        lemma_before_zero(value@, end as int);
    }
    let text = utf16_lossy(&units);
    let chars = chars_of(text.as_str());
    let inner = trimmed(CharClass::White, &chars);
    if inner.len() == 0 {
        return owned("Unknown GPU");
    }
    string_of(&inner)
}

/// The part that an adapter plays in a hybrid system.
#[derive(Clone, Copy, Debug, PartialEq, Eq, Structural)]
pub enum HybridRole {
    Alone,
    Integrated,
    Discrete,
}

/// The flags of the type of an adapter that name the parts of a hybrid system.
pub const HYBRID_DISCRETE_FLAG: u32 = 0x10;

pub const HYBRID_INTEGRATED_FLAG: u32 = 0x20;

/// The part that the type of an adapter names.
pub open spec fn role_of(adapter_type: u32) -> HybridRole {
    if adapter_type & HYBRID_INTEGRATED_FLAG != 0 {
        HybridRole::Integrated
    } else if adapter_type & HYBRID_DISCRETE_FLAG != 0 {
        HybridRole::Discrete
    } else {
        HybridRole::Alone
    }
}

pub fn hybrid_role(adapter_type: u32) -> (role: HybridRole)
    ensures
        role == role_of(adapter_type),
{
    if adapter_type & HYBRID_INTEGRATED_FLAG != 0 {
        HybridRole::Integrated
    } else if adapter_type & HYBRID_DISCRETE_FLAG != 0 {
        HybridRole::Discrete
    } else {
        HybridRole::Alone
    }
}

/// What the kernel knows of an adapter.
#[derive(Clone, Copy, Debug, PartialEq, Eq, Structural)]
pub struct KernelFacts {
    pub bus: u32,
    pub device: u32,
    pub function: u32,
    pub role: HybridRole,
}

impl KernelFacts {
    /// The numbers name a place on the bus; those of a path that is no device do not.
    pub open spec fn is_placed(self) -> bool {
        self.bus <= 0xff && self.device <= 0x1f && self.function <= 7
    }

    fn names_place(&self) -> (placed: bool)
        ensures
            placed == self.is_placed(),
    {
        self.bus <= 0xff && self.device <= 0x1f && self.function <= 7
    }
}

/// What DXGI and the kernel say of an adapter.
#[derive(Debug)]
pub struct AdapterDescription {
    pub name: Vec<u16>,
    pub vendor_id: u32,
    pub device_id: u32,
    pub subsystem_id: u32,
    pub flags: u32,
    pub dedicated_bytes: u64,
    pub shared_bytes: u64,
    pub luid_high: i32,
    pub luid_low: u32,
    pub kernel: Option<KernelFacts>,
}

/// The adapters that DXGI lists.
#[derive(Debug)]
pub struct AdapterListing {
    /// What each adapter says of itself, or why it says nothing.
    pub adapters: Vec<Result<AdapterDescription, String>>,
    /// Why the list broke off before its end.
    pub broken: Option<String>,
}

/// An adapter that is no hardware.
pub open spec fn is_software(adapter: AdapterDescription) -> bool {
    adapter.flags & SOFTWARE_FLAG != 0
}

/// An adapter that only presents for another one: it plays a part, and sits nowhere.
pub open spec fn is_presentation_path(adapter: AdapterDescription) -> bool {
    match adapter.kernel {
        Some(facts) => facts.role != HybridRole::Alone && !facts.is_placed(),
        None => false,
    }
}

/// The adapter is a device.
pub open spec fn is_kept(adapter: AdapterDescription, include_software: bool) -> bool {
    (include_software || !is_software(adapter)) && !is_presentation_path(adapter)
}

/// The address of an adapter on the bus.
pub open spec fn adapter_address(adapter: AdapterDescription) -> Option<Seq<char>> {
    match adapter.kernel {
        Some(facts) => if facts.is_placed() {
            Some(
                "0000:"@ + padded_digits(facts.bus as nat, 16, 2) + ":"@ + padded_digits(
                    facts.device as nat,
                    16,
                    2,
                ) + "."@ + padded_digits(facts.function as nat, 16, 1),
            )
        } else {
            None
        },
        None => None,
    }
}

fn address_of(adapter: &AdapterDescription) -> (address: Option<String>)
    ensures
        text_view(address) == adapter_address(*adapter),
{
    match &adapter.kernel {
        Some(facts) => if facts.names_place() {
            let mut text = chars_of("0000:");
            let bus = padded_digits_of(facts.bus as u64, 16, 2);
            extend(&mut text, &bus);
            extend_text(&mut text, ":");
            let device = padded_digits_of(facts.device as u64, 16, 2);
            extend(&mut text, &device);
            extend_text(&mut text, ".");
            let function = padded_digits_of(facts.function as u64, 16, 1);
            extend(&mut text, &function);
            Some(string_of(&text))
        } else {
            None
        },
        None => None,
    }
}

/// The identity of an adapter on the bus.
pub open spec fn adapter_pci(adapter: AdapterDescription) -> PciModel {
    PciModel {
        address: adapter_address(adapter),
        vendor_id: adapter.vendor_id,
        device_id: adapter.device_id,
        subsystem_vendor_id: if adapter.subsystem_id != 0 {
            Some((adapter.subsystem_id as int % 0x1_0000) as u32)
        } else {
            None
        },
        subsystem_device_id: if adapter.subsystem_id != 0 {
            Some((adapter.subsystem_id as int / 0x1_0000) as u32)
        } else {
            None
        },
    }
}

pub open spec fn adapter_kind(adapter: AdapterDescription) -> GpuKind {
    if is_software(adapter) {
        GpuKind::Virtual
    } else {
        match adapter.kernel {
            Some(facts) => match facts.role {
                HybridRole::Alone => GpuKind::Unknown,
                HybridRole::Integrated => GpuKind::Integrated,
                HybridRole::Discrete => GpuKind::Discrete,
            },
            None => GpuKind::Unknown,
        }
    }
}

/// A capacity, unless it is zero.
pub open spec fn capacity(bytes: u64) -> Option<u64> {
    if bytes > 0 {
        Some(bytes)
    } else {
        None
    }
}

pub open spec fn adapter_memory(adapter: AdapterDescription) -> StaticMemoryInfo {
    StaticMemoryInfo {
        topology: match (adapter.dedicated_bytes > 0, adapter.shared_bytes > 0) {
            (true, true) => MemoryTopology::Mixed,
            (true, false) => MemoryTopology::Dedicated,
            (false, true) => MemoryTopology::Shared,
            (false, false) => MemoryTopology::Unknown,
        },
        dedicated_total_bytes: capacity(adapter.dedicated_bytes),
        shared_total_bytes: capacity(adapter.shared_bytes),
        unified_total_bytes: None,
    }
}

/// What is observed of an adapter that is the device with the given number.
pub open spec fn is_dxgi_observation(
    o: DeviceObservation,
    adapter: AdapterDescription,
    ordinal: int,
) -> bool {
    let luid = luid_text(adapter.luid_high, adapter.luid_low);
    &&& o.provider@ == dxgi_name()
    &&& o.provider_device_id@ == luid
    &&& o.vendor == pci_vendor(adapter.vendor_id)
    &&& o.name@ == adapter_name(adapter.name@)
    &&& o.architecture is None
    &&& o.driver_version is None
    &&& o.firmware_version is None
    &&& o.kind == adapter_kind(adapter)
    &&& o.uuid is None
    &&& o.pci matches Some(pci) && pci_view(pci) == adapter_pci(adapter)
    &&& o.windows matches Some(identity) && text_view(identity.luid) == Some(luid)
        && identity.pnp_device_id is None
    &&& o.macos is None
    &&& o.parent_provider_device_id is None
    &&& o.partition is None
    &&& o.memory == adapter_memory(adapter)
    &&& o.capabilities.metric_set() == Set::<MetricKey>::empty()
    &&& o.capabilities.vendor_extensions@ == Set::<Seq<char>>::empty()
    &&& o.identity_priority == 80
    &&& o.enumeration_ordinal == if ordinal <= u32::MAX {
        Some(ordinal as u32)
    } else {
        None
    }
    &&& o.vendor_info@ == Map::<Seq<char>, Json>::empty()
}

/// What is observed of an adapter.
pub fn observe_adapter(adapter: &AdapterDescription, ordinal: usize) -> (o: DeviceObservation)
    ensures
        is_dxgi_observation(o, *adapter, ordinal as int),
{
    let luid = canonical_luid(adapter.luid_high, adapter.luid_low);
    let name = utf16_name(&adapter.name);
    let vendor = GpuVendor::from_pci_vendor_id(adapter.vendor_id);
    let mut o = DeviceObservation::new(
        "windows-dxgi",
        luid.as_str(),
        vendor,
        name.as_str(),
    );
    o.enumeration_ordinal =
    if ordinal as u64 <= u32::MAX as u64 {
        Some(ordinal as u32)
    } else {
        None
    };
    o.identity_priority = 80;
    o.kind =
    if adapter.flags & SOFTWARE_FLAG != 0 {
        GpuKind::Virtual
    } else {
        match &adapter.kernel {
            Some(facts) => match facts.role {
                HybridRole::Alone => GpuKind::Unknown,
                HybridRole::Integrated => GpuKind::Integrated,
                HybridRole::Discrete => GpuKind::Discrete,
            },
            None => GpuKind::Unknown,
        }
    };
    o.windows = Some(WindowsIdentity { luid: Some(luid), pnp_device_id: None });
    let (subsystem_vendor_id, subsystem_device_id): (Option<u32>, Option<u32>) =
        if adapter.subsystem_id != 0 {
        (Some(adapter.subsystem_id % 0x1_0000), Some(adapter.subsystem_id / 0x1_0000))
    } else {
        (None, None)
    };
    o.pci =
    Some(
        PciIdentity {
            address: address_of(adapter),
            vendor_id: adapter.vendor_id,
            device_id: adapter.device_id,
            subsystem_vendor_id,
            subsystem_device_id,
        },
    );
    o.memory =
    StaticMemoryInfo {
        topology: match (adapter.dedicated_bytes > 0, adapter.shared_bytes > 0) {
            (true, true) => MemoryTopology::Mixed,
            (true, false) => MemoryTopology::Dedicated,
            (false, true) => MemoryTopology::Shared,
            (false, false) => MemoryTopology::Unknown,
        },
        dedicated_total_bytes: if adapter.dedicated_bytes > 0 {
            Some(adapter.dedicated_bytes)
        } else {
            None
        },
        shared_total_bytes: if adapter.shared_bytes > 0 {
            Some(adapter.shared_bytes)
        } else {
            None
        },
        unified_total_bytes: None,
    };
    o
}

/// The places of the adapters that are devices, among the first `n`.
pub open spec fn kept_places(
    adapters: Seq<Result<AdapterDescription, String>>,
    include_software: bool,
    n: int,
) -> Seq<int>
    decreases n,
{
    if n <= 0 {
        Seq::empty()
    } else {
        let before = kept_places(adapters, include_software, n - 1);
        if adapters[n - 1] matches Ok(adapter) && is_kept(
            adapter,
            include_software,
        ) {
            before.push(n - 1)
        } else {
            before
        }
    }
}

/// What the last failure among the first `n` adapters was.
pub open spec fn last_fault(
    adapters: Seq<Result<AdapterDescription, String>>,
    n: int,
) -> Option<Seq<char>>
    decreases n,
{
    if n <= 0 {
        None
    } else {
        match adapters[n - 1] {
            Ok(adapter) => last_fault(adapters, n - 1),
            Err(words) => Some(
                "adapter "@ + decimal((n - 1) as nat) + " description: "@ + words@,
            ),
        }
    }
}

/// What the last failure of a listing was.
pub open spec fn listing_fault(listing: AdapterListing) -> Option<Seq<char>> {
    let n = listing.adapters@.len() as int;
    match listing.broken {
        Some(words) => Some("adapter "@ + decimal(n as nat) + ": "@ + words@),
        None => last_fault(listing.adapters@, n),
    }
}

fn fault_words(index: usize, middle: &str, words: &str) -> (text: String)
    ensures
        text@ == "adapter "@ + decimal(index as nat) + middle@ + words@,
{
    let mut text = chars_of("adapter ");
    let number = decimal_text(index as u64);
    extend_text(&mut text, number.as_str());
    extend_text(&mut text, middle);
    extend_text(&mut text, words);
    string_of(&text)
}

pub struct DxgiProvider {
    pub include_software_adapters: bool,
    pub last_failure: Option<String>,
}

impl DxgiProvider {
    pub fn new(include_software_adapters: bool) -> (provider: Self)
        ensures
            provider.include_software_adapters == include_software_adapters,
            provider.last_failure is None,
    {
        DxgiProvider { include_software_adapters, last_failure: None }
    }

    /// Notes that there is no list of adapters, and gives the error to answer with.
    pub fn factory_failed(&mut self, words: &str) -> (error: GpuError)
        ensures
            final(self).include_software_adapters == old(self).include_software_adapters,
            text_view(final(self).last_failure) == Some("CreateDXGIFactory1 failed: "@ + words@),
            error@ == (ErrorModel::Provider {
                provider: dxgi_name(),
                reason: UnavailableReason::ProviderError,
                message: "CreateDXGIFactory1 failed: "@ + words@,
            }),
    {
        let message = joined("CreateDXGIFactory1 failed: ", words);
        let error = GpuError::provider(
            "windows-dxgi",
            UnavailableReason::ProviderError,
            message.as_str(),
        );
        self.last_failure = Some(message);
        error
    }

    /// The devices among the listed adapters.
    pub fn observe(&mut self, listing: &AdapterListing) -> (observations: Vec<DeviceObservation>)
        ensures
            final(self).include_software_adapters == old(self).include_software_adapters,
            text_view(final(self).last_failure) == listing_fault(*listing),
            ({
                let places = kept_places(
                    listing.adapters@,
                    old(self).include_software_adapters,
                    listing.adapters@.len() as int,
                );
                &&& observations@.len() == places.len()
                &&& forall|k: int|
                    0 <= k < observations@.len() ==> is_dxgi_observation(
                        #[trigger] observations@[k],
                        listing.adapters@[places[k]]->Ok_0,
                        k,
                    )
            }),
    {
        let mut observations: Vec<DeviceObservation> = Vec::new();
        self.last_failure = None;
        let ghost software_too = self.include_software_adapters;
        let mut i: usize = 0;
        while i < listing.adapters.len()
            invariant
                i <= listing.adapters.len(),
                self.include_software_adapters == software_too,
                text_view(self.last_failure) == last_fault(listing.adapters@, i as int),
                observations.len() == kept_places(listing.adapters@, software_too, i as int).len(),
                forall|k: int|
                    0 <= k < observations@.len() ==> is_dxgi_observation(
                        #[trigger] observations@[k],
                        listing.adapters@[kept_places(listing.adapters@, software_too, i as int)[k]]->Ok_0,
                        k,
                    ),
            decreases listing.adapters.len() - i,
        {
            let ghost before = kept_places(listing.adapters@, software_too, i as int);
            match &listing.adapters[i] {
                Ok(adapter) => {
                    let software = adapter.flags & SOFTWARE_FLAG != 0;
                    let presenting = match &adapter.kernel {
                        Some(facts) => facts.role != HybridRole::Alone && !facts.names_place(),
                        None => false,
                    };
                    if (self.include_software_adapters || !software) && !presenting {
                        let count: usize = observations.len();
                        observations.push(observe_adapter(adapter, count));
                        assert(kept_places(listing.adapters@, software_too, i + 1) == before.push(i as int));
                    }
                },
                Err(words) => {
                    self.last_failure = Some(fault_words(i, " description: ", words.as_str()));
                },
            }
            i = i + 1;
        }
        if let Some(words) = &listing.broken {
            self.last_failure = Some(fault_words(i, ": ", words.as_str()));
        }
        observations
    }

    pub fn diagnostic(&self) -> (diagnostic: ProviderDiagnostic)
        ensures
            diagnostic.id@ == dxgi_name(),
            diagnostic.loaded == (self.last_failure is None),
            diagnostic.version is None,
            diagnostic.devices_matched == 0,
            diagnostic.reason == if self.last_failure is Some {
                Some(UnavailableReason::ProviderError)
            } else {
                None
            },
            diagnostic.message == self.last_failure,
    {
        ProviderDiagnostic {
            id: owned("windows-dxgi"),
            loaded: self.last_failure.is_none(),
            version: None,
            devices_matched: 0,
            reason: if self.last_failure.is_some() {
                Some(UnavailableReason::ProviderError)
            } else {
                None
            },
            message: self.last_failure.clone(),
        }
    }

    pub fn metadata() -> (metadata: ProviderMetadata)
        ensures
            metadata.id@ == dxgi_name(),
            metadata.specificity == 60,
            metadata.reliability == 100,
            forall|key: MetricKey| metadata.priority(key) == 0,
    {
        ProviderMetadata::new("windows-dxgi", 60, 100)
    }
}

} // verus!
