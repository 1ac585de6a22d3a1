//! Which directories of sysfs are devices.
use crate::ordered::{Ordered, Relation};
use crate::providers::linux::parse::{attribute_number, drm_node_name, is_numbered, parse_u64};
use crate::providers::linux::roots::LinuxRoots;
use crate::sorted_map::{lists_keys, SortedMap, SortedSet};
use crate::text::{chars_of, extend_text, owned, relate_text, string_of, text_less};
use vstd::prelude::*;

verus! {

pub const MAX_PCI_DEVICE_ENTRIES: usize = 512;

pub const MAX_DRM_NODE_ENTRIES: usize = 512;

pub const MAX_CHILD_DEVICE_ENTRIES: usize = 64;

/// A function on the PCI bus.
#[derive(Debug)]
pub struct PciEntry {
    pub name: String,
    /// The directory that it stands for, below the root of sysfs.
    pub device_path: Option<String>,
    /// The text of its class, where it could be read.
    pub class: Option<String>,
}

/// A node of the display subsystem.
#[derive(Debug)]
pub struct DrmEntry {
    pub node: String,
    /// The directory of its device, below the root of sysfs.
    pub device_path: Option<String>,
}

/// What the listing of a directory gave.
#[derive(Debug)]
pub enum Listing<T> {
    Entries { entries: Vec<T>, truncated: bool },
    /// The directory is not there.
    Missing,
    Failed { words: String },
}

/// The entries among the first `limit` attempts that could be had.
pub open spec fn bounded_entries<T>(attempts: Seq<Option<T>>, limit: int) -> Seq<T>
    decreases limit,
{
    if limit <= 0 {
        Seq::empty()
    } else {
        let before = bounded_entries(attempts, limit - 1);
        if limit <= attempts.len() && attempts[limit - 1] is Some {
            before.push(attempts[limit - 1]->0)
        } else {
            before
        }
    }
}

/// At most `limit` attempts to read an entry count; says whether there were more.
pub fn bound_entries<T>(attempts: Vec<Option<T>>, limit: usize) -> (result: (Vec<T>, bool))
    ensures
        result.0@ == bounded_entries(attempts@, limit as int),
        result.1 == (attempts@.len() > limit),
{
    let ghost all = attempts@;
    let total: usize = attempts.len();
    let mut rest = attempts;
    let mut entries: Vec<T> = Vec::new();
    let mut i: usize = 0;
    assert(all.skip(0) == all);
    while i < limit && rest.len() > 0
        invariant
            i <= limit,
            i + rest.len() == all.len(),
            rest@ == all.skip(i as int),
            entries@ == bounded_entries(all, i as int),
        decreases rest.len(),
    {
        let next = rest.remove(0);
        assert(next == all[i as int]);
        if let Some(entry) = next {
            entries.push(entry);
        }
        i = i + 1;
        assert(rest@ == all.skip(i as int));
    }
    proof {
        lemma_no_more_entries(all, i as int, limit as int);
    }
    (entries, total > limit)
}

proof fn lemma_no_more_entries<T>(attempts: Seq<Option<T>>, from: int, limit: int)
    requires
        0 <= from <= limit,
        from == limit || from >= attempts.len(),
    ensures
        bounded_entries(attempts, limit) == bounded_entries(attempts, from),
    decreases limit - from,
{
    if from < limit {
        lemma_no_more_entries(attempts, from, limit - 1);
    }
}

/// A path, ordered by its components.
#[derive(Debug)]
pub struct PathKey {
    pub path: String,
}

/// A path with a character for the slashes that comes before all others.
pub open spec fn path_rank(path: Seq<char>) -> Seq<char> {
    path.map_values(|c: char| slash_first(c))
}

/// A slash as the first of all characters; paths hold no NUL of their own.
pub open spec fn slash_first(c: char) -> char {
    if c == '/' {
        '\u{0}'
    } else {
        c
    }
}

/// The path `a` comes before the path `b`, component by component.
pub open spec fn path_less(a: Seq<char>, b: Seq<char>) -> bool {
    text_less(path_rank(a), path_rank(b)) || (path_rank(a) == path_rank(b) && text_less(a, b))
}

fn ranked_path(path: &str) -> (text: String)
    ensures
        text@ == path_rank(path@),
{
    let chars = chars_of(path);
    let mut out: Vec<char> = Vec::new();
    let mut i: usize = 0;
    while i < chars.len()
        invariant
            i <= chars.len(),
            out.len() == i,
            forall|k: int| 0 <= k < i ==> #[trigger] out@[k] == slash_first(chars@[k]),
        decreases chars.len() - i,
    {
        out.push(
            if chars[i] == '/' {
                '\u{0}'
            } else {
                chars[i]
            },
        );
        i = i + 1;
    }
    assert(out@ == path_rank(path@));
    string_of(&out)
}

impl Ordered for PathKey {
    type Model = Seq<char>;

    open spec fn model(&self) -> Seq<char> {
        self.path@
    }

    open spec fn less(a: Seq<char>, b: Seq<char>) -> bool {
        path_less(a, b)
    }

    proof fn less_irreflexive(a: Seq<char>) {
        String::less_irreflexive(path_rank(a));
        String::less_irreflexive(a);
    }

    proof fn less_transitive(a: Seq<char>, b: Seq<char>, c: Seq<char>) {
        if text_less(path_rank(a), path_rank(b)) && text_less(path_rank(b), path_rank(c)) {
            String::less_transitive(path_rank(a), path_rank(b), path_rank(c));
        }
        if text_less(a, b) && text_less(b, c) {
            String::less_transitive(a, b, c);
        }
    }

    proof fn less_total(a: Seq<char>, b: Seq<char>) {
        String::less_total(path_rank(a), path_rank(b));
        String::less_total(a, b);
    }

    fn relation(&self, other: &Self) -> (relation: Relation) {
        let a = ranked_path(self.path.as_str());
        let b = ranked_path(other.path.as_str());
        match relate_text(a.as_str(), b.as_str()) {
            Relation::Before => Relation::Before,
            Relation::After => Relation::After,
            Relation::Same => relate_text(self.path.as_str(), other.path.as_str()),
        }
    }
}

/// A device as the listings show it.
pub struct DeviceBuilder {
    pub device_path: String,
    pub pci_address: Option<String>,
    pub drm_nodes: SortedSet<String>,
}

/// A listed device by its contents.
#[verifier::ext_equal]
pub struct BuilderModel {
    pub device_path: Seq<char>,
    pub pci_address: Option<Seq<char>>,
    pub drm_nodes: Set<Seq<char>>,
}

impl View for DeviceBuilder {
    type V = BuilderModel;

    open spec fn view(&self) -> BuilderModel {
        BuilderModel {
            device_path: self.device_path@,
            pci_address: match self.pci_address {
                Some(address) => Some(address@),
                None => None,
            },
            drm_nodes: self.drm_nodes@,
        }
    }
}

/// The listed device at a path, a new one where there is none yet.
pub open spec fn builder_at(devices: Map<Seq<char>, BuilderModel>, path: Seq<char>) -> BuilderModel {
    if devices.contains_key(path) {
        devices[path]
    } else {
        BuilderModel { device_path: path, pci_address: None, drm_nodes: Set::empty() }
    }
}

/// A PCI function is a display device by its class.
pub open spec fn is_display(class: Option<String>) -> bool {
    match class {
        None => false,
        Some(text) => match attribute_number(text@) {
            Ok(n) => n / 0x1_0000 == 3,
            Err(fault) => false,
        },
    }
}

/// The devices after one more PCI function.
pub open spec fn with_pci(devices: Map<Seq<char>, BuilderModel>, entry: PciEntry) -> Map<
    Seq<char>,
    BuilderModel,
> {
    match entry.device_path {
        None => devices,
        Some(path) => if is_display(entry.class) {
            devices.insert(
                path@,
                (BuilderModel {
                    pci_address: Some(entry.name@),
                    ..builder_at(devices, path@)
                }),
            )
        } else {
            devices
        },
    }
}

/// The devices after one more node of the display subsystem.
pub open spec fn with_drm(devices: Map<Seq<char>, BuilderModel>, entry: DrmEntry) -> Map<
    Seq<char>,
    BuilderModel,
> {
    match entry.device_path {
        None => devices,
        Some(path) => if is_numbered(entry.node@, "card"@) || is_numbered(
            entry.node@,
            "renderD"@,
        ) {
            let builder = builder_at(devices, path@);
            devices.insert(
                path@,
                (BuilderModel { drm_nodes: builder.drm_nodes.insert(entry.node@), ..builder }),
            )
        } else {
            devices
        },
    }
}

pub open spec fn with_all_pci(devices: Map<Seq<char>, BuilderModel>, entries: Seq<PciEntry>) -> Map<
    Seq<char>,
    BuilderModel,
>
    decreases entries.len(),
{
    if entries.len() == 0 {
        devices
    } else {
        with_pci(with_all_pci(devices, entries.drop_last()), entries.last())
    }
}

pub open spec fn with_all_drm(devices: Map<Seq<char>, BuilderModel>, entries: Seq<DrmEntry>) -> Map<
    Seq<char>,
    BuilderModel,
>
    decreases entries.len(),
{
    if entries.len() == 0 {
        devices
    } else {
        with_drm(with_all_drm(devices, entries.drop_last()), entries.last())
    }
}

/// The entries of a listing, none where it failed.
pub open spec fn entries_of<T>(listing: Listing<T>) -> Seq<T> {
    match listing {
        Listing::Entries { entries, truncated } => entries@,
        _ => Seq::empty(),
    }
}

/// What is noted of a listing.
pub open spec fn listing_warnings<T>(
    listing: Listing<T>,
    limit: Seq<char>,
    path: Seq<char>,
) -> Seq<Seq<char>> {
    match listing {
        Listing::Entries { entries, truncated } => if truncated {
            seq![limit]
        } else {
            Seq::empty()
        },
        Listing::Missing => Seq::empty(),
        Listing::Failed { words } => seq!["could not enumerate "@ + path + ": "@ + words@],
    }
}

/// The contents of the map of devices.
pub open spec fn builder_models(devices: Map<Seq<char>, DeviceBuilder>) -> Map<
    Seq<char>,
    BuilderModel,
> {
    devices.map_values(|builder: DeviceBuilder| builder@)
}

/// What the listings show.
pub struct Discovery {
    /// The devices in ascending order of their paths.
    pub devices: Vec<DeviceBuilder>,
    pub warnings: Vec<String>,
    pub sysfs_available: bool,
}

/// The contents of a list of devices.
pub open spec fn builder_list(devices: Seq<DeviceBuilder>) -> Seq<BuilderModel> {
    devices.map_values(|builder: DeviceBuilder| builder@)
}

/// The devices of a map, in ascending order of their paths.
pub open spec fn lists_builders(
    list: Seq<BuilderModel>,
    devices: Map<Seq<char>, BuilderModel>,
) -> bool {
    &&& lists_keys::<PathKey>(
        list.map_values(|builder: BuilderModel| builder.device_path),
        devices.dom(),
    )
    &&& forall|i: int|
        0 <= i < list.len() ==> #[trigger] list[i] == devices[list[i].device_path]
}

/// Every device of the map stands under its own path.
pub open spec fn self_keyed(devices: Map<Seq<char>, BuilderModel>) -> bool {
    forall|path: Seq<char>| #[trigger]
        devices.contains_key(path) ==> devices[path].device_path == path
}

fn take_builder(devices: &mut SortedMap<PathKey, DeviceBuilder>, path: &String) -> (builder:
    DeviceBuilder)
    ensures
        builder@ == builder_at(builder_models(old(devices)@), path@),
        builder_models(final(devices)@) == builder_models(old(devices)@).remove(path@),
{
    let ghost before = devices@;
    let key = PathKey { path: path.clone() };
    let found = devices.remove(&key);
    assert(builder_models(devices@) == builder_models(before).remove(path@));
    match found {
        Some(builder) => builder,
        None => DeviceBuilder {
            device_path: path.clone(),
            pci_address: None,
            drm_nodes: SortedSet::new(),
        },
    }
}

fn put_builder(devices: &mut SortedMap<PathKey, DeviceBuilder>, path: &String, builder: DeviceBuilder)
    ensures
        builder_models(final(devices)@) == builder_models(old(devices)@).insert(path@, builder@),
{
    let ghost before = devices@;
    devices.insert(PathKey { path: path.clone() }, builder);
    assert(builder_models(devices@) == builder_models(before).insert(path@, builder@));
}

fn shows_display(class: &Option<String>) -> (display: bool)
    ensures
        display == is_display(*class),
{
    match class {
        None => false,
        Some(text) => match parse_u64(text.as_str()) {
            Ok(n) => n / 0x1_0000 == 3,
            Err(words) => false,
        },
    }
}

fn add_pci(devices: &mut SortedMap<PathKey, DeviceBuilder>, entries: &Vec<PciEntry>)
    requires
        self_keyed(builder_models(old(devices)@)),
    ensures
        builder_models(final(devices)@) == with_all_pci(builder_models(old(devices)@), entries@),
        self_keyed(builder_models(final(devices)@)),
{
    let ghost before = builder_models(devices@);
    let mut i: usize = 0;
    while i < entries.len()
        invariant
            i <= entries.len(),
            builder_models(devices@) == with_all_pci(before, entries@.take(i as int)),
            self_keyed(builder_models(devices@)),
        decreases entries.len() - i,
    {
        assert(entries@.take(i + 1).drop_last() == entries@.take(i as int));
        let entry = &entries[i];
        let ghost held = builder_models(devices@);
        if let Some(path) = &entry.device_path {
            if shows_display(&entry.class) {
                let mut builder = take_builder(devices, path);
                builder.pci_address = Some(entry.name.clone());
                put_builder(devices, path, builder);
                assert(held.remove(path@).insert(path@, builder@) == held.insert(path@, builder@));
            }
        }
        i = i + 1;
    }
    assert(entries@.take(i as int) == entries@);
}

fn add_drm(devices: &mut SortedMap<PathKey, DeviceBuilder>, entries: &Vec<DrmEntry>)
    requires
        self_keyed(builder_models(old(devices)@)),
    ensures
        builder_models(final(devices)@) == with_all_drm(builder_models(old(devices)@), entries@),
        self_keyed(builder_models(final(devices)@)),
{
    let ghost before = builder_models(devices@);
    let mut i: usize = 0;
    while i < entries.len()
        invariant
            i <= entries.len(),
            builder_models(devices@) == with_all_drm(before, entries@.take(i as int)),
            self_keyed(builder_models(devices@)),
        decreases entries.len() - i,
    {
        assert(entries@.take(i + 1).drop_last() == entries@.take(i as int));
        let entry = &entries[i];
        let ghost held = builder_models(devices@);
        if let Some(path) = &entry.device_path {
            if drm_node_name(entry.node.as_str()) {
                let mut builder = take_builder(devices, path);
                builder.drm_nodes.insert(entry.node.clone());
                put_builder(devices, path, builder);
                assert(held.remove(path@).insert(path@, builder@) == held.insert(path@, builder@));
            }
        }
        i = i + 1;
    }
    assert(entries@.take(i as int) == entries@);
}

fn note_listing<T>(listing: &Listing<T>, limit: &str, path: &str, warnings: &mut Vec<String>) -> (available:
    bool)
    ensures
        available == (listing is Entries),
        final(warnings)@.map_values(|w: String| w@) == old(warnings)@.map_values(|w: String| w@)
            + listing_warnings(*listing, limit@, path@),
{
    let ghost before = warnings@.map_values(|w: String| w@);
    let available = match listing {
        Listing::Entries { entries, truncated } => {
            if *truncated {
                warnings.push(owned(limit));
            }
            true
        },
        Listing::Missing => false,
        Listing::Failed { words } => {
            let mut text = chars_of("could not enumerate ");
            extend_text(&mut text, path);
            extend_text(&mut text, ": ");
            extend_text(&mut text, words.as_str());
            warnings.push(string_of(&text));
            false
        },
    };
    assert(warnings@.map_values(|w: String| w@) == before + listing_warnings(
        *listing,
        limit@,
        path@,
    ));
    available
}

/// The devices that the listings show: display functions on the PCI bus, and the devices of the
/// nodes of the display subsystem.
pub fn collect_devices(
    roots: &LinuxRoots,
    pci: &Listing<PciEntry>,
    drm: &Listing<DrmEntry>,
) -> (discovery: Discovery)
    ensures
        discovery.sysfs_available == (pci is Entries || drm is Entries),
        discovery.warnings@.map_values(|w: String| w@) == listing_warnings(
            *pci,
            "PCI sysfs entry limit (512) reached; additional entries were skipped"@,
            crate::providers::linux::hwmon::path_below(roots.sys@, "bus/pci/devices"@),
        ) + listing_warnings(
            *drm,
            "DRM sysfs entry limit (512) reached; additional entries were skipped"@,
            crate::providers::linux::hwmon::path_below(roots.sys@, "class/drm"@),
        ),
        lists_builders(
            builder_list(discovery.devices@),
            with_all_drm(
                with_all_pci(Map::<Seq<char>, BuilderModel>::empty(), entries_of(*pci)),
                entries_of(*drm),
            ),
        ),
{
    let mut warnings: Vec<String> = Vec::new();
    assert(warnings@.map_values(|w: String| w@) == Seq::<Seq<char>>::empty());
    let pci_path = roots.pci_devices();
    let drm_path = roots.drm_class();
    let first = note_listing(
        pci,
        "PCI sysfs entry limit (512) reached; additional entries were skipped",
        pci_path.as_str(),
        &mut warnings,
    );
    let second = note_listing(
        drm,
        "DRM sysfs entry limit (512) reached; additional entries were skipped",
        drm_path.as_str(),
        &mut warnings,
    );
    let mut map: SortedMap<PathKey, DeviceBuilder> = SortedMap::new();
    assert(builder_models(map@) == Map::<Seq<char>, BuilderModel>::empty());
    if let Listing::Entries { entries, truncated } = pci {
        add_pci(&mut map, entries);
    }
    if let Listing::Entries { entries, truncated } = drm {
        add_drm(&mut map, entries);
    }
    let ghost all = builder_models(map@);
    assert(all == with_all_drm(
        with_all_pci(Map::<Seq<char>, BuilderModel>::empty(), entries_of(*pci)),
        entries_of(*drm),
    ));
    let mut devices: Vec<DeviceBuilder> = Vec::new();
    let n: usize = map.len();
    let ghost keys = map.keys();
    let mut i: usize = 0;
    while i < n
        invariant
            i <= n == keys.len(),
            keys == map.keys(),
            all == builder_models(map@),
            devices.len() == i,
            forall|k: int|
                0 <= k < i ==> all.contains_key(#[trigger] keys[k]) && devices@[k]@ == all[keys[k]],
        decreases n - i,
    {
        let builder = map.value_at(i);
        let copy = DeviceBuilder {
            device_path: builder.device_path.clone(),
            pci_address: builder.pci_address.clone(),
            drm_nodes: builder.drm_nodes.duplicate(),
        };
        assert(copy@ == builder@);
        devices.push(copy);
        i = i + 1;
    }
    proof {
        let list = builder_list(devices@);
        assert(all.dom() == map@.dom());
        assert forall|k: int| 0 <= k < n implies (#[trigger] list[k]).device_path == keys[k]
            && list[k] == all[list[k].device_path] by {
            assert(all.contains_key(keys[k]));
        }
        assert(list.map_values(|builder: BuilderModel| builder.device_path) == keys);
    }
    Discovery { devices, warnings, sysfs_available: first || second }
}

/// An entry below a device.
#[derive(Debug)]
pub struct ChildEntry {
    pub name: String,
    /// The directory that it stands for, below the device.
    pub directory: Option<String>,
}

/// The directories below a device whose names are a prefix and digits.
pub open spec fn numbered_children(entries: Seq<ChildEntry>, prefix: Seq<char>) -> Seq<Seq<char>>
    decreases entries.len(),
{
    if entries.len() == 0 {
        Seq::empty()
    } else {
        let before = numbered_children(entries.drop_last(), prefix);
        match entries.last().directory {
            Some(path) => if is_numbered(entries.last().name@, prefix) {
                before.push(path@)
            } else {
                before
            },
            None => before,
        }
    }
}

/// The directories below a device whose names are a prefix and digits.
pub fn child_directories(entries: &Vec<ChildEntry>, prefix: &str) -> (paths: Vec<String>)
    ensures
        paths@.map_values(|p: String| p@) == numbered_children(entries@, prefix@),
{
    let mut paths: Vec<String> = Vec::new();
    let mut i: usize = 0;
    assert(paths@.map_values(|p: String| p@) == Seq::<Seq<char>>::empty());
    while i < entries.len()
        invariant
            i <= entries.len(),
            paths@.map_values(|p: String| p@) == numbered_children(
                entries@.take(i as int),
                prefix@,
            ),
        decreases entries.len() - i,
    {
        assert(entries@.take(i + 1).drop_last() == entries@.take(i as int));
        let ghost held = paths@.map_values(|p: String| p@);
        if let Some(path) = &entries[i].directory {
            let name = chars_of(entries[i].name.as_str());
            if crate::providers::linux::parse::has_number(&name, prefix) {
                paths.push(path.clone());
                assert(paths@.map_values(|p: String| p@) == held.push(path@));
            }
        }
        i = i + 1;
    }
    assert(entries@.take(i as int) == entries@);
    paths
}

} // verus!
