//! What the files and directories of sysfs tell, stated on their names and contents.
use crate::binary64::Binary64;
use crate::json::{JsonModel, JsonNumber};
use crate::model::{GpuVendor, MetricKey, StaticMemoryInfo};
use crate::providers::linux::inventory::{
    base_name, driver_kind, driver_of, fits_address, group_works, is_device_info, is_linux_info, is_pci_address, is_record_of, is_software,
    readings_of, text_array, with_memory_info, working_metrics, DeviceFacts, LinuxDeviceRecord, SourceGroup,
};
use crate::providers::linux::listing::{
    bounded_entries, is_display, listing_warnings, numbered_children, with_drm, with_pci, BuilderModel, ChildEntry,
    DrmEntry, Listing, PciEntry,
};
use crate::providers::linux::metric::SourceReading;
use crate::providers::linux::parse::{
    active_clocks, attribute_index, attribute_number, between, clock_text, highest_clock,
    is_number_char, is_numbered, trailing_number, uevent_field,
};
use crate::sorted_map::lists_keys;
use crate::text::{
    all_digits, contains, decimal, digit_char, digits, first_at, in_class, index_of, is_first_at,
    lower, occurs_at, padded_digits, starts_with, trim, trim_end, CharClass, NumberFault,
};
use crate::text_laws::{
    all_in, law_characters_are_found_where_they_first_stand, law_trimming_takes_the_ends,
    law_written_numbers_are_read_back, lemma_trim_end_with,
};
use vstd::prelude::*;

verus! {

proof fn lemma_digits_are_digits(value: nat, radix: nat)
    requires
        2 <= radix <= 16,
    ensures
        digits(value, radix).len() > 0,
        forall|i: int|
            0 <= i < digits(value, radix).len() ==> {
                let c = #[trigger] digits(value, radix)[i];
                '0' <= c <= '9' || (radix > 10 && 'a' <= c <= 'f')
            },
    decreases value,
{
    let text = digits(value, radix);
    if value < radix {
        assert(text[0] == digit_char(value as int));
        assert(('0' as u8) + value <= 255);
    } else {
        assert(value / radix < value) by (nonlinear_arith)
            requires
                value >= radix,
                radix >= 2,
        ;
        lemma_digits_are_digits(value / radix, radix);
        let before = digits(value / radix, radix);
        assert forall|i: int| 0 <= i < text.len() implies {
            let c = #[trigger] text[i];
            '0' <= c <= '9' || (radix > 10 && 'a' <= c <= 'f')
        } by {
            if i < before.len() {
                assert(text[i] == before[i]);
            } else {
                assert(text[i] == digit_char((value % radix) as int));
            }
        }
    }
}

/// An attribute holds the number that is written in it, in decimal digits, or in hexadecimal ones
/// behind `0x`, with any white space around it.
pub proof fn law_attributes_hold_the_number_that_is_written(
    before: Seq<char>,
    n: u64,
    after: Seq<char>,
)
    requires
        all_in(CharClass::White, before),
        all_in(CharClass::White, after),
    ensures
        attribute_number(before + decimal(n as nat) + after) == Ok::<nat, NumberFault>(n as nat),
        attribute_number(before + ("0x"@ + digits(n as nat, 16)) + after) == Ok::<
            nat,
            NumberFault,
        >(n as nat),
{
    reveal_strlit("0x");
    reveal_strlit("0X");
    let plain = decimal(n as nat);
    lemma_digits_are_digits(n as nat, 10);
    assert('0' <= plain[0] <= '9');
    assert('0' <= plain[plain.len() - 1] <= '9');
    law_trimming_takes_the_ends(CharClass::White, before, plain, after);
    if occurs_at(plain, "0x"@, 0) {
        assert(plain.subrange(0, 2)[1] == plain[1]);
        assert("0x"@[1] == 'x');
        assert('0' <= plain[1] <= '9');
    }
    if occurs_at(plain, "0X"@, 0) {
        assert(plain.subrange(0, 2)[1] == plain[1]);
        assert("0X"@[1] == 'X');
        assert('0' <= plain[1] <= '9');
    }
    law_written_numbers_are_read_back(n as nat, 10, u64::MAX as nat);
    let digits = digits(n as nat, 16);
    lemma_digits_are_digits(n as nat, 16);
    let marked = "0x"@ + digits;
    assert(marked[0] == '0');
    assert(marked.last() == digits[digits.len() - 1]);
    law_trimming_takes_the_ends(CharClass::White, before, marked, after);
    assert(marked.subrange(0, 2) =~= "0x"@);
    assert(marked.skip(2) =~= digits);
    law_written_numbers_are_read_back(n as nat, 16, u64::MAX as nat);
}

/// The number before the first `MHz` of a line, in any case and with any blanks between, is that
/// of the clock.
pub proof fn law_clocks_stand_before_their_unit(
    before: Seq<char>,
    number: Seq<char>,
    blanks: Seq<char>,
    rest: Seq<char>,
)
    requires
        number.len() > 0,
        forall|i: int|
            0 <= i < number.len() ==> '0' <= #[trigger] number[i] <= '9' || number[i] == '.',
        before.len() > 0 ==> !('0' <= before.last() <= '9') && before.last() != '.',
        forall|i: int| 0 <= i < blanks.len() ==> #[trigger] blanks[i] == ' ',
        is_first_at(
            lower(before + number + blanks + rest),
            "mhz"@,
            (before + number + blanks).len() as int,
        ),
    ensures
        clock_text(before + number + blanks + rest) == Some(number),
{
    let head = before + number + blanks;
    let line = head + rest;
    let at = head.len() as int;
    assert(occurs_at(lower(line), "mhz"@, at));
    let chosen = first_at(lower(line), "mhz"@);
    assert(is_first_at(lower(line), "mhz"@, at));
    assert(chosen == at) by {
        assert(is_first_at(lower(line), "mhz"@, chosen));
        if chosen < at {
            assert(!occurs_at(lower(line), "mhz"@, chosen));
        }
        if at < chosen {
            assert(!occurs_at(lower(line), "mhz"@, at));
        }
    }
    assert(line.take(at) =~= head);
    let white = CharClass::AsciiWhite;
    assert forall|i: int| 0 <= i < blanks.len() implies in_class(white, #[trigger] blanks[i]) by {
        assert(blanks[i] == ' ');
    }
    assert(all_in(white, blanks));
    lemma_trim_end_with(white, before + number, blanks);
    let stem = before + number;
    assert(stem.last() == number[number.len() - 1]);
    assert(trim_end(white, stem) == stem);
    lemma_trailing_number(before, number);
}

proof fn lemma_trailing_number(before: Seq<char>, number: Seq<char>)
    requires
        forall|i: int|
            0 <= i < number.len() ==> '0' <= #[trigger] number[i] <= '9' || number[i] == '.',
        before.len() > 0 ==> !('0' <= before.last() <= '9') && before.last() != '.',
    ensures
        trailing_number(before + number) == number,
    decreases number.len(),
{
    let whole = before + number;
    if number.len() == 0 {
        assert(whole == before);
        assert(trailing_number(before) =~= number);
    } else {
        let shorter = number.drop_last();
        assert(whole.drop_last() == before + shorter);
        assert forall|i: int| 0 <= i < shorter.len() implies '0' <= #[trigger] shorter[i] <= '9'
            || shorter[i] == '.' by {
            assert(shorter[i] == number[i]);
        }
        lemma_trailing_number(before, shorter);
        assert(is_number_char(number[number.len() - 1]));
        assert(shorter.push(number.last()) =~= number);
    }
}

/// The active clocks are those of the lines with an asterisk, in their order.
pub proof fn law_active_clocks_are_marked(lines: Seq<Seq<char>>, line: Seq<char>)
    ensures
        line.contains('*') && clock_text(line) is Some ==> active_clocks(lines.push(line))
            == active_clocks(lines).push(clock_text(line)->0),
        !line.contains('*') || clock_text(line) is None ==> active_clocks(lines.push(line))
            == active_clocks(lines),
        active_clocks(Seq::empty()).len() == 0,
{
    assert(lines.push(line).drop_last() == lines);
}

/// The highest clock is one of the clocks, and none of those that are numbers of at least zero is
/// higher.
pub proof fn law_the_highest_clock_is_taken(values: Seq<Option<Binary64>>, k: int)
    ensures
        highest_clock(values) is Some ==> exists|i: int|
            0 <= i < values.len() && #[trigger] values[i] == highest_clock(values),
        0 <= k < values.len() && values[k] is Some && values[k]->0.bits < 0x7ff0_0000_0000_0000
            ==> highest_clock(values) is Some && highest_clock(values)->0.bits
            >= values[k]->0.bits && highest_clock(values)->0.bits < 0x7ff0_0000_0000_0000,
        highest_clock(values) is Some ==> highest_clock(values)->0.bits < 0x7ff0_0000_0000_0000
            || highest_clock(values)->0.bits == 0x8000_0000_0000_0000,
    decreases values.len(),
{
    if values.len() > 0 {
        let n = values.len();
        let rest = values.drop_last();
        law_the_highest_clock_is_taken(rest, k);
        assert(values[n - 1] == values.last());
        if 0 <= k < n - 1 {
            assert(rest[k] == values[k]);
        }
        if highest_clock(rest) is Some {
            let i = choose|i: int|
                0 <= i < rest.len() && #[trigger] rest[i] == highest_clock(rest);
            assert(values[i] == rest[i]);
        }
    }
}

/// A name is numbered by a prefix where the prefix and some digits make it up.
pub proof fn law_numbered_names_end_in_digits(prefix: Seq<char>, name: Seq<char>)
    ensures
        is_numbered(name, prefix) <==> exists|number: Seq<char>|
            number.len() > 0 && name == #[trigger] (prefix + number) && forall|i: int|
                0 <= i < number.len() ==> '0' <= #[trigger] number[i] <= '9',
{
    if is_numbered(name, prefix) {
        let number = name.skip(prefix.len() as int);
        assert(name.subrange(0, prefix.len() as int) == prefix);
        assert(name =~= prefix + number);
    }
    if exists|number: Seq<char>|
        number.len() > 0 && name == #[trigger] (prefix + number) && forall|i: int|
            0 <= i < number.len() ==> '0' <= #[trigger] number[i] <= '9' {
        let number = choose|number: Seq<char>|
            number.len() > 0 && name == #[trigger] (prefix + number) && forall|i: int|
                0 <= i < number.len() ==> '0' <= #[trigger] number[i] <= '9';
        assert(name.subrange(0, prefix.len() as int) =~= prefix);
        assert(name.skip(prefix.len() as int) =~= number);
    }
}

/// The number of an attribute is what stands between its prefix and its suffix.
pub proof fn law_attributes_are_numbered(prefix: Seq<char>, n: u32, suffix: Seq<char>)
    ensures
        attribute_index(prefix + decimal(n as nat) + suffix, prefix, suffix) == Some(n as nat),
{
    let number = decimal(n as nat);
    let name = prefix + number + suffix;
    lemma_digits_are_digits(n as nat, 10);
    law_written_numbers_are_read_back(n as nat, 10, u32::MAX as nat);
    assert(name.subrange(0, prefix.len() as int) =~= prefix);
    let rest = name.skip(prefix.len() as int);
    assert(rest =~= number + suffix);
    assert(rest.subrange(rest.len() - suffix.len(), rest.len() as int) =~= suffix);
    assert(between(name, prefix, suffix) =~= number);
    assert(all_digits(number));
}

/// A field is what stands behind its name and an equals sign in the first line that has them.
pub proof fn law_fields_stand_behind_their_names(
    lines: Seq<Seq<char>>,
    i: int,
    key: Seq<char>,
    value: Seq<char>,
)
    requires
        0 <= i < lines.len(),
        lines[i] == key + seq!['='] + value,
        forall|k: int| 0 <= k < key.len() ==> #[trigger] key[k] != '=',
        forall|j: int| 0 <= j < i ==> !starts_with(#[trigger] lines[j], key + seq!['=']),
    ensures
        uevent_field(lines, key) == Some(trim(CharClass::White, value)),
    decreases lines.len(),
{
    let n = key.len() as int;
    if i == 0 {
        let line = lines[0];
        assert(line[n] == '=');
        assert forall|j: int| 0 <= j < n implies #[trigger] line[j] != '=' by {
            assert(line[j] == key[j]);
        }
        law_characters_are_found_where_they_first_stand(line, '=', n);
        assert(line.take(n) =~= key);
        assert(line.skip(n + 1) =~= value);
    } else {
        let line = lines[0];
        let at = index_of(line, '=');
        crate::text::lemma_index_of(line, '=');
        if at < line.len() && line.take(at) == key {
            assert(line.subrange(0, n + 1) =~= key + seq!['=']);
            assert(starts_with(lines[0], key + seq!['=']));
        }
        let rest = lines.skip(1);
        assert(rest[i - 1] == lines[i]);
        assert forall|j: int| 0 <= j < i - 1 implies !starts_with(
            #[trigger] rest[j],
            key + seq!['='],
        ) by {
            assert(rest[j] == lines[j + 1]);
        }
        law_fields_stand_behind_their_names(rest, i - 1, key, value);
    }
}

/// A hexadecimal digit in either case.
pub open spec fn is_hex_digit(c: char) -> bool {
    '0' <= c <= '9' || 'a' <= c <= 'f' || 'A' <= c <= 'F'
}

/// A PCI address has twelve characters: digits, but a mark behind the domain, the bus and the
/// device.
pub proof fn law_pci_addresses_have_their_form(text: Seq<char>)
    ensures
        is_pci_address(text) <==> {
            &&& text.len() == 12
            &&& is_hex_digit(text[0]) && is_hex_digit(text[1]) && is_hex_digit(text[2])
                && is_hex_digit(text[3])
            &&& text[4] == ':' || text[4] == '.'
            &&& is_hex_digit(text[5]) && is_hex_digit(text[6])
            &&& text[7] == ':' || text[7] == '.'
            &&& is_hex_digit(text[8]) && is_hex_digit(text[9])
            &&& text[10] == ':' || text[10] == '.'
            &&& is_hex_digit(text[11])
        },
{
    if is_pci_address(text) {
        assert(fits_address(text, 0) && fits_address(text, 1) && fits_address(text, 2)
            && fits_address(text, 3) && fits_address(text, 4) && fits_address(text, 5)
            && fits_address(text, 6) && fits_address(text, 7) && fits_address(text, 8)
            && fits_address(text, 9) && fits_address(text, 10) && fits_address(text, 11));
    }
}

/// The last part of a path is what follows its last slash.
pub proof fn law_names_follow_the_last_slash(directory: Seq<char>, name: Seq<char>)
    requires
        forall|i: int| 0 <= i < name.len() ==> #[trigger] name[i] != '/',
    ensures
        base_name(directory + seq!['/'] + name) == name,
        base_name(name) == name,
    decreases name.len(),
{
    let path = directory + seq!['/'] + name;
    if name.len() == 0 {
        assert(path.last() == '/');
        assert(base_name(path) =~= name);
        assert(base_name(name) =~= name);
    } else {
        let shorter = name.drop_last();
        assert forall|i: int| 0 <= i < shorter.len() implies #[trigger] shorter[i] != '/' by {
            assert(name[i] != '/');
        }
        law_names_follow_the_last_slash(directory, shorter);
        assert(path.drop_last() == directory + seq!['/'] + shorter);
        assert(name[name.len() - 1] != '/');
        assert(shorter.push(name.last()) =~= name);
    }
}

/// A function is a display device exactly where its class lies between 0x030000 and 0x03ffff.
pub proof fn law_display_devices_are_told_by_class(class: String, n: nat)
    requires
        attribute_number(class@) == Ok::<nat, NumberFault>(n),
    ensures
        is_display(Some(class)) <==> 0x03_0000 <= n <= 0x03_ffff,
        !is_display(None),
{
}

/// A display device of the PCI bus is listed at its own path under its own address, and no other
/// device changes.
pub proof fn law_pci_devices_are_listed(
    devices: Map<Seq<char>, BuilderModel>,
    entry: PciEntry,
    path: Seq<char>,
)
    ensures
        ({
            let after = with_pci(devices, entry);
            &&& entry.device_path is Some && is_display(entry.class) ==> {
                &&& after.contains_key(entry.device_path->0@)
                &&& after[entry.device_path->0@].pci_address == Some(entry.name@)
                &&& devices.contains_key(entry.device_path->0@)
                    ==> after[entry.device_path->0@].drm_nodes
                    == devices[entry.device_path->0@].drm_nodes
                    && after[entry.device_path->0@].device_path
                    == devices[entry.device_path->0@].device_path
                &&& !devices.contains_key(entry.device_path->0@)
                    ==> after[entry.device_path->0@].device_path == entry.device_path->0@
            }
            &&& entry.device_path is None || !is_display(entry.class) ==> after == devices
            &&& entry.device_path is Some && path != entry.device_path->0@ ==> (
            after.contains_key(path) <==> devices.contains_key(path)) && (devices.contains_key(
                path,
            ) ==> after[path] == devices[path])
        }),
{
}

/// A card or a render node is listed with the device that it belongs to, and no other device
/// changes.
pub proof fn law_nodes_are_listed_with_their_device(
    devices: Map<Seq<char>, BuilderModel>,
    entry: DrmEntry,
    path: Seq<char>,
)
    ensures
        ({
            let after = with_drm(devices, entry);
            let counts = entry.device_path is Some && (is_numbered(entry.node@, "card"@)
                || is_numbered(entry.node@, "renderD"@));
            &&& counts ==> {
                &&& after.contains_key(entry.device_path->0@)
                &&& after[entry.device_path->0@].drm_nodes.contains(entry.node@)
                &&& devices.contains_key(entry.device_path->0@)
                    ==> after[entry.device_path->0@].pci_address
                    == devices[entry.device_path->0@].pci_address
                    && after[entry.device_path->0@].drm_nodes
                    == devices[entry.device_path->0@].drm_nodes.insert(entry.node@)
                &&& !devices.contains_key(entry.device_path->0@)
                    ==> after[entry.device_path->0@].pci_address is None
                    && after[entry.device_path->0@].device_path == entry.device_path->0@
            }
            &&& !counts ==> after == devices
            &&& entry.device_path is Some && path != entry.device_path->0@ ==> (
            after.contains_key(path) <==> devices.contains_key(path)) && (devices.contains_key(
                path,
            ) ==> after[path] == devices[path])
        }),
{
}

/// Of the directories below a device those with the prefix and a number count, in their order.
pub proof fn law_numbered_directories_count(
    entries: Seq<ChildEntry>,
    entry: ChildEntry,
    prefix: Seq<char>,
)
    ensures
        numbered_children(entries.push(entry), prefix) == if entry.directory is Some
            && is_numbered(entry.name@, prefix) {
            numbered_children(entries, prefix).push(entry.directory->0@)
        } else {
            numbered_children(entries, prefix)
        },
        numbered_children(Seq::empty(), prefix).len() == 0,
{
    assert(entries.push(entry).drop_last() == entries);
}

/// Of a long listing the first entries count, as many as are allowed.
pub proof fn law_only_the_first_entries_count(
    attempts: Seq<Option<Seq<char>>>,
    limit: int,
    entry: Seq<char>,
)
    ensures
        bounded_entries(attempts, limit).contains(entry) <==> exists|i: int|
            0 <= i < limit && i < attempts.len() && #[trigger] attempts[i] == Some(entry),
    decreases limit,
{
    if limit > 0 {
        law_only_the_first_entries_count(attempts, limit - 1, entry);
        let before = bounded_entries(attempts, limit - 1);
        let after = bounded_entries(attempts, limit);
        if before.contains(entry) {
            let k = choose|k: int| 0 <= k < before.len() && before[k] == entry;
            assert(after[k] == entry);
        }
        if limit <= attempts.len() && attempts[limit - 1] == Some(entry) {
            assert(after[after.len() - 1] == entry);
        }
        if after.contains(entry) && !before.contains(entry) {
            let k = choose|k: int| 0 <= k < after.len() && after[k] == entry;
            if k < before.len() {
                assert(before[k] == entry);
            }
            assert(attempts[limit - 1] == Some(entry));
        }
    }
}

/// A device without a name of its own is called by its vendor and its number in hexadecimal.
pub proof fn law_nameless_devices_are_called_by_number(
    record: LinuxDeviceRecord,
    facts: DeviceFacts,
    groups: Seq<SourceGroup>,
    readings: Seq<Vec<SourceReading>>,
)
    requires
        is_record_of(record, facts, groups, readings),
        !facts.attributes@.contains_key("product_name"@)
            || facts.attributes@["product_name"@]@.len() == 0,
    ensures
        ({
            let o = record.observation;
            let title = if o.vendor == GpuVendor::Nvidia {
                "NVIDIA"@
            } else if o.vendor == GpuVendor::Amd {
                "AMD"@
            } else if o.vendor == GpuVendor::Intel {
                "Intel"@
            } else if o.vendor == GpuVendor::Apple {
                "Apple"@
            } else {
                "Unknown"@
            };
            &&& o.pci is Some ==> o.name@ == title + " GPU 0x"@ + padded_digits(
                o.pci->0.device_id as nat,
                16,
                4,
            )
            &&& o.pci is None ==> o.name@ == title + " GPU"@
        }),
{
}

/// A device without a PCI address is known by its path.
pub proof fn law_devices_without_an_address_are_known_by_path(
    record: LinuxDeviceRecord,
    facts: DeviceFacts,
    groups: Seq<SourceGroup>,
    readings: Seq<Vec<SourceReading>>,
)
    requires
        is_record_of(record, facts, groups, readings),
    ensures
        ({
            let o = record.observation;
            &&& o.pci is Some && o.pci->0.address is Some ==> record.provider_device_id@
                == o.pci->0.address->0@
            &&& o.pci is None || o.pci->0.address is None ==> record.provider_device_id@
                == "platform:"@ + facts.relative_path@
            &&& o.pci is Some && facts.pci_address is None && o.pci->0.address is Some
                ==> o.pci->0.address->0@ == base_name(facts.device_path@) && is_pci_address(
                base_name(facts.device_path@),
            )
            &&& o.pci is Some && facts.pci_address is None && is_pci_address(
                base_name(facts.device_path@),
            ) ==> o.pci->0.address is Some
            &&& o.provider_device_id@ == record.provider_device_id@
            &&& o.identity_priority == 60
            &&& o.uuid is None
            &&& o.windows is None
            &&& o.macos is None
        }),
{
}

/// A virtual function is a part of the function whose address is given for it.
pub proof fn law_virtual_functions_have_their_parent(
    record: LinuxDeviceRecord,
    facts: DeviceFacts,
    groups: Seq<SourceGroup>,
    readings: Seq<Vec<SourceReading>>,
)
    requires
        is_record_of(record, facts, groups, readings),
    ensures
        record.observation.partition is Some <==> facts.physical_function is Some
            && is_pci_address(facts.physical_function->0@),
        record.observation.partition is Some ==> record.observation.parent_provider_device_id is Some
            && record.observation.parent_provider_device_id->0@ == facts.physical_function->0@
            && record.observation.partition->0.id@ == record.provider_device_id@,
        record.observation.partition is None ==> record.observation.parent_provider_device_id
            is None,
{
}

/// A driver stands for a virtual or an integrated device, or for none that is told apart.
pub proof fn law_drivers_tell_the_kind(driver: Option<Seq<char>>)
    ensures
        driver_kind(driver) == crate::model::GpuKind::Virtual <==> driver == Some("virtio_gpu"@)
            || driver == Some("qxl"@) || driver == Some("vmwgfx"@) || driver == Some("bochs"@),
        driver_kind(driver) == crate::model::GpuKind::Integrated <==> driver == Some("asahi"@),
        is_software(driver) <==> driver == Some("simpledrm"@) || driver == Some(
            "simple-framebuffer"@,
        ) || driver == Some("efi-framebuffer"@) || driver == Some("vkms"@) || driver == Some(
            "vgem"@,
        ),
{
    reveal_strlit("virtio_gpu");
    reveal_strlit("qxl");
    reveal_strlit("vmwgfx");
    reveal_strlit("bochs");
    reveal_strlit("asahi");
    assert("bochs"@[0] == 'b' && "asahi"@[0] == 'a');
}

/// A device offers a metric exactly where one of the groups of sources for it gives a value.
pub proof fn law_working_sources_are_offered(
    groups: Seq<SourceGroup>,
    readings: Seq<Vec<SourceReading>>,
    device: Seq<char>,
    key: MetricKey,
)
    ensures
        working_metrics(groups, readings, device).contains(key) <==> exists|g: int|
            0 <= g < groups.len() && (#[trigger] groups[g]).key == key && group_works(
                groups[g],
                readings_of(readings, g),
                device,
            ),
    decreases groups.len(),
{
    if groups.len() > 0 {
        let n = groups.len();
        let rest = groups.drop_last();
        law_working_sources_are_offered(rest, readings, device, key);
        assert(groups[n - 1] == groups.last());
        if exists|g: int|
            0 <= g < rest.len() && (#[trigger] rest[g]).key == key && group_works(
                rest[g],
                readings_of(readings, g),
                device,
            ) {
            let g = choose|g: int|
                0 <= g < rest.len() && (#[trigger] rest[g]).key == key && group_works(
                    rest[g],
                    readings_of(readings, g),
                    device,
                );
            assert(groups[g].key == key);
        }
        if exists|g: int|
            0 <= g < groups.len() && (#[trigger] groups[g]).key == key && group_works(
                groups[g],
                readings_of(readings, g),
                device,
            ) {
            let g = choose|g: int|
                0 <= g < groups.len() && (#[trigger] groups[g]).key == key && group_works(
                    groups[g],
                    readings_of(readings, g),
                    device,
                );
            if g < n - 1 {
                assert(rest[g].key == key);
            }
        }
    }
}

/// The vendor data of an AMD device holds the sizes of its memories by name; that of another
/// device does not.
pub proof fn law_amd_devices_tell_their_memory_by_name(
    info: Map<Seq<char>, JsonModel>,
    vendor: GpuVendor,
    memory: StaticMemoryInfo,
)
    ensures
        ({
            let after = with_memory_info(info, vendor, memory);
            &&& vendor != GpuVendor::Amd ==> after == info
            &&& vendor == GpuVendor::Amd && memory.dedicated_total_bytes is Some
                ==> after.contains_key("vramTotalBytes"@) && after["vramTotalBytes"@]
                == JsonModel::Number(JsonNumber::Unsigned(memory.dedicated_total_bytes->0))
            &&& vendor == GpuVendor::Amd && memory.shared_total_bytes is Some
                ==> after.contains_key("gttTotalBytes"@) && after["gttTotalBytes"@]
                == JsonModel::Number(JsonNumber::Unsigned(memory.shared_total_bytes->0))
        }),
{
    reveal_strlit("vramTotalBytes");
    reveal_strlit("gttTotalBytes");
    assert("vramTotalBytes"@[0] == 'v' && "gttTotalBytes"@[0] == 'g');
}

/// The vendor data of a device tells its driver, each of its nodes, and its path, by name.
pub proof fn law_linux_data_is_told_by_name(info: Map<Seq<char>, JsonModel>, facts: DeviceFacts)
    requires
        is_device_info(info, facts),
    ensures
        info.contains_key("linux"@),
        info["linux"@] matches JsonModel::Object(fields) && {
            &&& fields.len() == 3
            &&& fields[0].0 == "driver"@
            &&& fields[0].1 == match driver_of(facts) {
                Some(driver) => JsonModel::Text(driver),
                None => JsonModel::Null,
            }
            &&& fields[1].0 == "drmNodes"@
            &&& fields[1].1 matches JsonModel::Array(nodes) && forall|node: Seq<char>|
                nodes.contains(JsonModel::Text(node)) <==> #[trigger] facts.drm_nodes@.contains(
                    node,
                )
            &&& fields[2] == ("sysfsPath"@, JsonModel::Text(facts.relative_path@))
        },
{
    reveal_strlit("vramTotalBytes");
    reveal_strlit("gttTotalBytes");
    reveal_strlit("linux");
    assert("vramTotalBytes"@.len() == 14 && "gttTotalBytes"@.len() == 13 && "linux"@.len() == 5);
    let linux = info["linux"@];
    assert(is_linux_info(linux, facts));
    let listed = choose|nodes: Seq<Seq<char>>| #[trigger]
        lists_keys::<String>(nodes, facts.drm_nodes@) && linux == JsonModel::Object(
            seq![
                (
                    "driver"@,
                    match driver_of(facts) {
                        Some(driver) => JsonModel::Text(driver),
                        None => JsonModel::Null,
                    },
                ),
                ("drmNodes"@, text_array(nodes)),
                ("sysfsPath"@, JsonModel::Text(facts.relative_path@)),
            ],
        );
    let fields = linux->Object_0;
    let nodes = fields[1].1->Array_0;
    assert(nodes == listed.map_values(|text: Seq<char>| JsonModel::Text(text)));
    assert forall|node: Seq<char>|
        nodes.contains(JsonModel::Text(node)) <==> #[trigger] facts.drm_nodes@.contains(node) by {
        if facts.drm_nodes@.contains(node) {
            assert(listed.contains(node));
            let k = choose|k: int| 0 <= k < listed.len() && listed[k] == node;
            assert(nodes[k] == JsonModel::Text(node));
        }
        if nodes.contains(JsonModel::Text(node)) {
            let k = choose|k: int| 0 <= k < nodes.len() && nodes[k] == JsonModel::Text(node);
            assert(listed[k] == node);
            assert(listed.contains(node));
        }
    }
}

/// A directory that is not there is passed over in silence, as is one that was listed whole. One
/// that could not be listed is told with its path and its failure, one that is too long once.
pub proof fn law_troubled_listings_are_told<T>(
    listing: Listing<T>,
    limit: Seq<char>,
    path: Seq<char>,
)
    ensures
        listing is Missing ==> listing_warnings(listing, limit, path).len() == 0,
        listing matches Listing::Entries { entries, truncated } ==> listing_warnings(
            listing,
            limit,
            path,
        ).len() == (if truncated {
            1int
        } else {
            0
        }) && (truncated ==> listing_warnings(listing, limit, path)[0] == limit),
        listing matches Listing::Failed { words } ==> listing_warnings(listing, limit, path).len()
            == 1 && listing_warnings(listing, limit, path)[0] == "could not enumerate "@ + path
            + ": "@ + words@,
{
}

} // verus!
