//! Which adapters are devices, and how their names are read.
use crate::error::ErrorModel;
use crate::model::{GpuKind, UnavailableReason};
use crate::providers::windows::dxgi::{
    adapter_kind, adapter_name, before_zero, is_kept, kept_places, last_fault, listing_fault,
    role_of, utf16_text, AdapterDescription, AdapterListing, HybridRole,
};
use crate::providers::windows::nvml_loader::{location_name, TrustedLocation};
use crate::providers::windows::pdh_array::{
    is_utf16, little_endian, malformed_error, name_text, oversized_error, status_error, units_at,
};
use crate::text::{decimal, in_class, padded_digits, CharClass};
use crate::text_laws::{all_in, law_trimming_takes_the_ends};
use vstd::prelude::*;

verus! {

/// An adapter is a device unless it is software that was not asked for, or plays a part for
/// another adapter without a place of its own on the bus.
pub proof fn law_adapters_with_a_place_are_devices(
    adapter: AdapterDescription,
    include_software: bool,
)
    ensures
        is_kept(adapter, include_software) <==> {
            &&& include_software || adapter.flags & 2 == 0
            &&& adapter.kernel is Some ==> adapter.kernel->0.role == HybridRole::Alone || (
            adapter.kernel->0.bus <= 255 && adapter.kernel->0.device <= 31
                && adapter.kernel->0.function <= 7)
        },
{
}

/// The bits of an adapter's type name the part that it plays; that of the integrated one counts
/// first.
pub proof fn law_types_name_the_part(adapter_type: u32)
    ensures
        role_of(adapter_type) == HybridRole::Integrated <==> adapter_type & 0x20 != 0,
        role_of(adapter_type) == HybridRole::Discrete <==> adapter_type & 0x20 == 0 && adapter_type
            & 0x10 != 0,
        role_of(adapter_type) == HybridRole::Alone <==> adapter_type & 0x20 == 0 && adapter_type
            & 0x10 == 0,
{
}

/// An adapter of hardware that plays no part is of no known kind.
pub proof fn law_kinds_follow_the_part(adapter: AdapterDescription)
    ensures
        adapter.flags & 2 != 0 <==> adapter_kind(adapter) == GpuKind::Virtual,
        adapter.flags & 2 == 0 && (adapter.kernel is None || adapter.kernel->0.role
            == HybridRole::Alone) <==> adapter_kind(adapter) == GpuKind::Unknown,
{
}

/// A name in a buffer ends before the first zero.
pub proof fn law_names_end_at_the_first_zero(name: Seq<u16>, rest: Seq<u16>)
    requires
        forall|i: int| 0 <= i < name.len() ==> #[trigger] name[i] != 0,
    ensures
        before_zero(name + seq![0u16] + rest) == name,
        before_zero(name) == name,
    decreases name.len(),
{
    let whole = name + seq![0u16] + rest;
    if name.len() == 0 {
        assert(whole[0] == 0);
        assert(before_zero(whole) =~= name);
    } else {
        let shorter = name.skip(1);
        assert(name[0] != 0);
        assert(whole[0] == name[0]);
        assert(whole.skip(1) =~= shorter + seq![0u16] + rest);
        assert forall|i: int| 0 <= i < shorter.len() implies #[trigger] shorter[i] != 0 by {
            assert(name[i + 1] != 0);
        }
        law_names_end_at_the_first_zero(shorter, rest);
        assert(seq![name[0]] + shorter =~= name);
    }
}

/// The characters that the units stand for one by one.
pub open spec fn as_chars(units: Seq<u16>) -> Seq<char> {
    units.map_values(|unit: u16| unit as char)
}

proof fn lemma_plain_units(units: Seq<u16>)
    requires
        forall|i: int| 0 <= i < units.len() ==> #[trigger] units[i] < 0xd800,
    ensures
        utf16_text(units) == as_chars(units),
        is_utf16(units),
    decreases units.len(),
{
    if units.len() > 0 {
        let rest = units.skip(1);
        assert(units[0] < 0xd800);
        assert forall|i: int| 0 <= i < rest.len() implies #[trigger] rest[i] < 0xd800 by {
            assert(units[i + 1] < 0xd800);
        }
        lemma_plain_units(rest);
        assert(seq![units[0] as char] + as_chars(rest) =~= as_chars(units));
    } else {
        assert(as_chars(units) =~= Seq::<char>::empty());
    }
}

/// An adapter has the name that stands in its buffer, without white space around it; one without
/// a name is called `Unknown GPU`.
pub proof fn law_adapters_have_the_name_in_their_buffer(
    before: Seq<u16>,
    name: Seq<u16>,
    after: Seq<u16>,
    rest: Seq<u16>,
)
    requires
        forall|i: int| 0 <= i < before.len() ==> #[trigger] before[i] == 0x20,
        forall|i: int| 0 <= i < after.len() ==> #[trigger] after[i] == 0x20,
        forall|i: int| 0 <= i < name.len() ==> 0x20 <= #[trigger] name[i] < 0x7f,
        name.len() > 0 ==> name[0] != 0x20 && name.last() != 0x20,
    ensures
        name.len() > 0 ==> adapter_name(before + name + after + seq![0u16] + rest) == as_chars(
            name,
        ),
        name.len() == 0 ==> adapter_name(before + name + after + seq![0u16] + rest)
            == "Unknown GPU"@,
{
    let units = before + name + after;
    assert forall|i: int| 0 <= i < units.len() implies 0x20 <= #[trigger] units[i] < 0x7f by {
        if i < before.len() {
            assert(units[i] == before[i]);
        } else if i < before.len() + name.len() {
            assert(units[i] == name[i - before.len()]);
        } else {
            assert(units[i] == after[i - before.len() - name.len()]);
        }
    }
    law_names_end_at_the_first_zero(units, rest);
    lemma_plain_units(units);
    let inner = as_chars(name);
    assert(as_chars(units) =~= as_chars(before) + inner + as_chars(after));
    assert forall|i: int| 0 <= i < as_chars(before).len() implies in_class(
        CharClass::White,
        #[trigger] as_chars(before)[i],
    ) by {
        assert(before[i] == 0x20);
    }
    assert forall|i: int| 0 <= i < as_chars(after).len() implies in_class(
        CharClass::White,
        #[trigger] as_chars(after)[i],
    ) by {
        assert(after[i] == 0x20);
    }
    assert(all_in(CharClass::White, as_chars(before)));
    assert(all_in(CharClass::White, as_chars(after)));
    if name.len() > 0 {
        assert(0x20 < name[0] < 0x7f);
        assert(0x20 < name[name.len() - 1] < 0x7f);
        assert(inner[0] == name[0] as char);
        assert(inner.last() == name[name.len() - 1] as char);
    }
    law_trimming_takes_the_ends(
        CharClass::White,
        as_chars(before),
        inner,
        as_chars(after),
    );
}

/// The devices are the adapters that are kept, in the order of the listing, each once.
pub proof fn law_devices_keep_the_order_of_the_adapters(
    adapters: Seq<Result<AdapterDescription, String>>,
    include_software: bool,
    n: int,
    i: int,
)
    requires
        0 <= n <= adapters.len(),
    ensures
        kept_places(adapters, include_software, n).contains(i) <==> 0 <= i < n && adapters[i] is Ok
            && is_kept(adapters[i]->Ok_0, include_software),
        forall|a: int, b: int|
            0 <= a < b < kept_places(adapters, include_software, n).len() ==> (
            #[trigger] kept_places(adapters, include_software, n)[a]) < (#[trigger] kept_places(
                adapters,
                include_software,
                n,
            )[b]),
        forall|a: int|
            0 <= a < kept_places(adapters, include_software, n).len() ==> 0 <= (
            #[trigger] kept_places(adapters, include_software, n)[a]) < n,
    decreases n,
{
    if n > 0 {
        law_devices_keep_the_order_of_the_adapters(adapters, include_software, n - 1, i);
        let before = kept_places(adapters, include_software, n - 1);
        let now = kept_places(adapters, include_software, n);
        if before.contains(i) {
            let k = choose|k: int| 0 <= k < before.len() && before[k] == i;
            assert(now[k] == i);
        }
        if now.contains(i) && !before.contains(i) {
            let k = choose|k: int| 0 <= k < now.len() && now[k] == i;
            if k < before.len() {
                assert(before[k] == i);
            }
        }
        if i == n - 1 && adapters[i] is Ok && is_kept(adapters[i]->Ok_0, include_software) {
            assert(now[now.len() - 1] == i);
        }
    }
}

/// The last failure of a listing is told, with the number of the adapter.
pub proof fn law_the_last_failure_is_told(listing: AdapterListing, i: int)
    requires
        0 <= i < listing.adapters@.len(),
        listing.adapters@[i] is Err,
        forall|j: int| i < j < listing.adapters@.len() ==> (#[trigger] listing.adapters@[j]) is Ok,
    ensures
        listing.broken is None ==> listing_fault(listing) == Some(
            "adapter "@ + decimal(i as nat) + " description: "@ + listing.adapters@[i]->Err_0@,
        ),
        listing.broken is Some ==> listing_fault(listing) == Some(
            "adapter "@ + decimal(listing.adapters@.len() as nat) + ": "@ + listing.broken->0@,
        ),
{
    lemma_last_fault(listing.adapters@, i, listing.adapters@.len() as int);
}

proof fn lemma_last_fault(adapters: Seq<Result<AdapterDescription, String>>, i: int, n: int)
    requires
        0 <= i < n <= adapters.len(),
        adapters[i] is Err,
        forall|j: int| i < j < n ==> (#[trigger] adapters[j]) is Ok,
    ensures
        last_fault(adapters, n) == Some(
            "adapter "@ + decimal(i as nat) + " description: "@ + adapters[i]->Err_0@,
        ),
    decreases n,
{
    if i < n - 1 {
        assert(adapters[n - 1] is Ok);
        lemma_last_fault(adapters, i, n - 1);
    }
}

/// A listing without failures tells of none.
pub proof fn law_sound_listings_tell_no_failure(listing: AdapterListing)
    requires
        listing.broken is None,
        forall|j: int| 0 <= j < listing.adapters@.len() ==> (#[trigger] listing.adapters@[j]) is Ok,
    ensures
        listing_fault(listing) is None,
{
    lemma_no_fault(listing.adapters@, listing.adapters@.len() as int);
}

proof fn lemma_no_fault(adapters: Seq<Result<AdapterDescription, String>>, n: int)
    requires
        n <= adapters.len(),
        forall|j: int| 0 <= j < n ==> (#[trigger] adapters[j]) is Ok,
    ensures
        last_fault(adapters, n) is None,
    decreases n,
{
    if n > 0 {
        assert(adapters[n - 1] is Ok);
        lemma_no_fault(adapters, n - 1);
    }
}

/// A name in a counter array is read as it was written: two bytes for each unit, the lower one
/// first, up to a zero.
pub proof fn law_counter_names_are_read_as_written(
    bytes: Seq<u8>,
    at: int,
    end: int,
    units: Seq<u16>,
)
    requires
        0 <= at,
        at + 2 * units.len() + 2 <= end <= bytes.len(),
        forall|k: int|
            0 <= k < units.len() ==> (#[trigger] units[k]) == bytes[at + 2 * k] + 256 * bytes[at + 2
                * k + 1],
        forall|k: int| 0 <= k < units.len() ==> #[trigger] units[k] != 0,
        bytes[at + 2 * units.len()] == 0,
        bytes[at + 2 * units.len() + 1] == 0,
    ensures
        units_at(bytes, at, end) == Some(units),
    decreases units.len(),
{
    reveal_with_fuel(little_endian, 3);
    assert(little_endian(bytes, at, 2) == bytes[at] + 256 * bytes[at + 1]);
    if units.len() > 0 {
        assert(units[0] == bytes[at + 2 * 0] + 256 * bytes[at + 2 * 0 + 1]);
        assert(units[0] != 0);
        let rest = units.skip(1);
        assert forall|k: int| 0 <= k < rest.len() implies (#[trigger] rest[k]) == bytes[at + 2 + 2
            * k] + 256 * bytes[at + 2 + 2 * k + 1] by {
            assert(units[k + 1] == bytes[at + 2 * (k + 1)] + 256 * bytes[at + 2 * (k + 1) + 1]);
        }
        assert forall|k: int| 0 <= k < rest.len() implies #[trigger] rest[k] != 0 by {
            assert(units[k + 1] != 0);
        }
        law_counter_names_are_read_as_written(bytes, at + 2, end, rest);
        assert(seq![units[0]] + rest =~= units);
    } else {
        assert(units =~= Seq::<u16>::empty());
    }
}

/// A counter's name is the text of its units; a surrogate without its partner makes it empty.
pub proof fn law_counter_names_are_whole(units: Seq<u16>, lone: u16, rest: Seq<u16>)
    requires
        forall|i: int| 0 <= i < units.len() ==> #[trigger] units[i] < 0xd800,
        0xdc00 <= lone <= 0xdfff,
    ensures
        name_text(units) == as_chars(units),
        name_text(units + seq![lone] + rest).len() == 0,
{
    lemma_plain_units(units);
    lemma_lone(units, lone, rest);
}

proof fn lemma_lone(units: Seq<u16>, lone: u16, rest: Seq<u16>)
    requires
        forall|i: int| 0 <= i < units.len() ==> #[trigger] units[i] < 0xd800,
        0xdc00 <= lone <= 0xdfff,
    ensures
        !is_utf16(units + seq![lone] + rest),
    decreases units.len(),
{
    let whole = units + seq![lone] + rest;
    if units.len() == 0 {
        assert(whole[0] == lone);
    } else {
        assert(units[0] < 0xd800);
        let shorter = units.skip(1);
        assert(whole.skip(1) =~= shorter + seq![lone] + rest);
        assert forall|i: int| 0 <= i < shorter.len() implies #[trigger] shorter[i] < 0xd800 by {
            assert(units[i + 1] < 0xd800);
        }
        lemma_lone(shorter, lone, rest);
    }
}

/// What PDH answers is told as "windows-pdh", the status in eight hexadecimal digits: a refused
/// call is a matter of time, an array that cannot be is a failure.
pub proof fn law_refusals_of_counters_are_told(words: Seq<char>, status: u32, bytes: u32, items: u32)
    ensures
        status_error(words, status) == (ErrorModel::Provider {
            provider: "windows-pdh"@,
            reason: UnavailableReason::TemporarilyUnavailable,
            message: words + "0x"@ + padded_digits(status as nat, 16, 8),
        }),
        oversized_error(bytes, items) == (ErrorModel::Provider {
            provider: "windows-pdh"@,
            reason: UnavailableReason::ProviderError,
            message: "PDH reported an oversized counter array ("@ + decimal(bytes as nat)
                + " bytes, "@ + decimal(items as nat) + " items)"@,
        }),
        malformed_error() == (ErrorModel::Provider {
            provider: "windows-pdh"@,
            reason: UnavailableReason::ProviderError,
            message: "PDH returned a malformed counter array"@,
        }),
{
}

/// The places that the library is loaded from are told by what they are.
pub proof fn law_trusted_places_are_told(location: TrustedLocation)
    ensures
        location == TrustedLocation::SystemDirectory ==> location_name(location)
            == "the Windows system directory"@,
        location == TrustedLocation::LegacyNvsmi ==> location_name(location)
            == "the NVIDIA NVSMI directory under Program Files"@,
{
}

} // verus!
