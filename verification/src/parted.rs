//! The partitions in a listing that `parted` prints as JSON, in bytes.

use crate::guid::{uuid_of_text, Uuid};
use crate::json::{json_of_text, json_views, parse_json, Json, JsonView};
use crate::part::{part_views, Part, PartView};
use crate::text::{bytes_str_to_num, has_unit_suffix, quantity, same_text};
use vstd::prelude::*;
use vstd::std_specs::iter::IteratorSpec;
use vstd::string::*;

verus! {

/// The number of a partition: the lowest eight bits of the listed number.
pub open spec fn entry_number(m: JsonView) -> Option<u8> {
    match m.u64_field("number"@) {
        Some(n) => Some((n % 256) as u8),
        None => None,
    }
}

/// The quantity in the field `key`, without its unit.
pub open spec fn entry_quantity(m: JsonView, key: Seq<char>) -> Option<u64> {
    match m.text_field(key) {
        Some(s) => quantity(s),
        None => None,
    }
}

/// The identifier in the field `key`; only a GPT holds identifiers.
pub open spec fn entry_uuid(m: JsonView, key: Seq<char>, is_gpt: bool) -> Option<Uuid> {
    if is_gpt {
        match m.text_field(key) {
            Some(s) => uuid_of_text(s),
            None => None,
        }
    } else {
        Some(Uuid { value: 0 })
    }
}

/// The name of a partition; only a GPT holds names.
pub open spec fn entry_name(m: JsonView, is_gpt: bool) -> Option<Seq<char>> {
    if is_gpt {
        m.text_field("name"@)
    } else {
        Some(Seq::empty())
    }
}

/// Whether a text is among the flags.
pub open spec fn has_flag(flags: Seq<JsonView>, flag: Seq<char>) -> bool {
    exists|i: int| 0 <= i < flags.len() && #[trigger] flags[i] == JsonView::Text(flag)
}

/// The partition in one entry of a listing, if the entry holds all it needs.
pub open spec fn entry_part(m: JsonView, is_gpt: bool) -> Option<PartView> {
    match (
        entry_number(m),
        entry_quantity(m, "size"@),
        entry_quantity(m, "start"@),
        entry_uuid(m, "type-uuid"@, is_gpt),
        entry_uuid(m, "uuid"@, is_gpt),
        entry_name(m, is_gpt),
        m.array_field("flags"@),
    ) {
        (
            Some(number),
            Some(size),
            Some(start),
            Some(type_uuid),
            Some(part_uuid),
            Some(name),
            Some(flags),
        ) => Some(
            PartView {
                number,
                start,
                size,
                type_uuid,
                part_uuid,
                name,
                flag_boot: has_flag(flags, "boot"@),
                flag_esp: has_flag(flags, "esp"@),
            },
        ),
        _ => None,
    }
}

/// Whether the quantities of an entry that are looked at end in a unit. They
/// are looked at in turn: the size if there is a number, the start if the size
/// is a number too.
pub open spec fn entry_has_units(m: JsonView) -> bool {
    entry_number(m) is Some ==> {
        &&& m.text_field("size"@) matches Some(size) ==> has_unit_suffix(size)
        &&& entry_quantity(m, "size"@) is Some ==> (m.text_field("start"@) matches Some(start)
            ==> has_unit_suffix(start))
    }
}

/// All values of a list, if each is there.
pub open spec fn all_some<T>(list: Seq<Option<T>>) -> Option<Seq<T>> {
    if forall|i: int| 0 <= i < list.len() ==> #[trigger] list[i] is Some {
        Some(Seq::new(list.len(), |i: int| list[i]->0))
    } else {
        None
    }
}

/// What the entries of a listing hold, one by one.
pub open spec fn entry_parts(entries: Seq<JsonView>, is_gpt: bool) -> Seq<Option<PartView>> {
    Seq::new(entries.len(), |i: int| entry_part(entries[i], is_gpt))
}

/// Whether the entries that are looked at have units: each one up to the first
/// that holds no partition.
pub open spec fn entries_have_units(entries: Seq<JsonView>, is_gpt: bool) -> bool {
    forall|i: int|
        0 <= i < entries.len() && (forall|k: int|
            0 <= k < i ==> (#[trigger] entry_part(entries[k], is_gpt)) is Some)
            ==> #[trigger] entry_has_units(entries[i])
}

/// The label of the disk in a listing.
pub open spec fn disk_label(doc: JsonView) -> Option<Seq<char>> {
    match doc.field("disk"@) {
        Some(disk) => disk.text_field("label"@),
        None => None,
    }
}

/// The entries of the disk in a listing.
pub open spec fn disk_entries(doc: JsonView) -> Option<Seq<JsonView>> {
    match doc.field("disk"@) {
        Some(disk) => disk.array_field("partitions"@),
        None => None,
    }
}

/// Whether the label is of a kind of partition table that can be read.
pub open spec fn is_known_label(label: Seq<char>) -> bool {
    label == "gpt"@ || label == "msdos"@
}

/// The partitions in a listing, or what is wrong with it.
pub open spec fn listing_parts(doc: JsonView) -> Result<Seq<PartView>, Seq<char>> {
    match disk_label(doc) {
        None => Err("JSON incorrectly formatted"@),
        Some(label) => if !is_known_label(label) {
            Err("Disk isn't formatted as gpt or msdos"@)
        } else {
            match disk_entries(doc) {
                None => Err("Error processing partition json"@),
                Some(entries) => match all_some(entry_parts(entries, label == "gpt"@)) {
                    None => Err("Error processing partition json"@),
                    Some(parts) => Ok(parts),
                },
            }
        },
    }
}

/// Whether every quantity in a listing that is looked at ends in a unit.
pub open spec fn listing_has_units(doc: JsonView) -> bool {
    match (disk_label(doc), disk_entries(doc)) {
        (Some(label), Some(entries)) => is_known_label(label) ==> entries_have_units(
            entries,
            label == "gpt"@,
        ),
        _ => true,
    }
}

/// The partitions in the text of a listing, or what is wrong with it.
pub open spec fn listing_text_parts(text: Seq<char>) -> Result<Seq<PartView>, Seq<char>> {
    match json_of_text(text) {
        None => Err("Json incorrectly formatted"@),
        Some(doc) => listing_parts(doc),
    }
}

/// Whether every quantity in the text of a listing that is looked at ends in a
/// unit.
pub open spec fn listing_text_has_units(text: Seq<char>) -> bool {
    json_of_text(text) matches Some(doc) ==> listing_has_units(doc)
}

/// Whether what was read is what should have been read.
pub open spec fn same_outcome(
    r: Result<Vec<Part>, &'static str>,
    expected: Result<Seq<PartView>, Seq<char>>,
) -> bool {
    match r {
        Ok(parts) => expected == Ok::<Seq<PartView>, Seq<char>>(part_views(parts@)),
        Err(e) => expected == Err::<Seq<PartView>, Seq<char>>(e@),
    }
}

/// How many items of a list are looked at: those up to the first that is not
/// there.
pub open spec fn looked_at<T>(list: Seq<Option<T>>) -> nat
    decreases list.len(),
{
    if list.len() == 0 {
        0
    } else if list[0] is None {
        1
    } else {
        1 + looked_at(list.skip(1))
    }
}

/// All values that an iterator yields, if each is there. Nothing is drawn behind
/// the first that is not.
pub fn sequence<T, I: Iterator<Item = Option<T>>>(list: &mut I) -> (r: Option<Vec<T>>)
    requires
        <I as IteratorSpec>::obeys_prophetic_iter_laws(old(list)),
        <I as IteratorSpec>::decrease(old(list)) is Some,
    ensures
        <I as IteratorSpec>::obeys_prophetic_iter_laws(final(list)),
        <I as IteratorSpec>::decrease(final(list)) is Some,
        match r {
            Some(values) => all_some(<I as IteratorSpec>::remaining(old(list))) == Some(values@),
            None => all_some(<I as IteratorSpec>::remaining(old(list))) is None,
        },
        <I as IteratorSpec>::remaining(final(list)) == <I as IteratorSpec>::remaining(
            old(list),
        ).skip(looked_at(<I as IteratorSpec>::remaining(old(list))) as int),
{
    let ghost all = <I as IteratorSpec>::remaining(list);
    let mut ret: Vec<T> = Vec::new();
    assert(all.skip(0) =~= all);
    loop
        invariant
            <I as IteratorSpec>::obeys_prophetic_iter_laws(list),
            <I as IteratorSpec>::decrease(list) is Some,
            all == <I as IteratorSpec>::remaining(old(list)),
            ret@.len() <= all.len(),
            <I as IteratorSpec>::remaining(list) == all.skip(ret@.len() as int),
            forall|k: int| 0 <= k < ret@.len() ==> #[trigger] all[k] == Some(ret@[k]),
            looked_at(all) == ret@.len() + looked_at(all.skip(ret@.len() as int)),
        decreases <I as IteratorSpec>::decrease(list)->0,
    {
        let ghost n: int = ret@.len() as int;
        let ghost rest = all.skip(n);
        match list.next() {
            None => {
                assert(rest.len() == 0);
                assert(all_some(all)->0 =~= ret@);
                assert(rest =~= all.skip(looked_at(all) as int));
                return Some(ret);
            },
            Some(item) => {
                assert(rest[0] == all[n]);
                assert(rest.drop_first() =~= all.skip(n + 1));
                assert(rest.skip(1) =~= all.skip(n + 1));
                match item {
                    None => {
                        assert(all[n] is None);
                        return None;
                    },
                    Some(value) => ret.push(value),
                }
            },
        }
    }
}

/// Whether a text is among the flags.
fn contains_flag(flags: &Vec<Json>, flag: &str) -> (r: bool)
    ensures
        r == has_flag(json_views(flags@), flag@),
{
    for i in 0..flags.len()
        invariant
            forall|k: int| 0 <= k < i ==> flags@[k]@ != JsonView::Text(flag@),
    {
        match &flags[i] {
            Json::Text(s) => {
                if same_text(s, flag) {
                    assert(json_views(flags@)[i as int] == JsonView::Text(flag@));
                    return true;
                }
            },
            _ => {},
        }
    }
    false
}

/// Whether the quantities of an entry that are looked at end in a unit.
fn check_units(entry: &Json) -> (r: bool)
    ensures
        r == entry_has_units(entry@),
{
    if entry.u64_field("number").is_none() {
        return true;
    }
    match entry.text_field("size") {
        None => true,
        Some(size) => {
            if !ends_in_unit(size) {
                return false;
            }
            if bytes_str_to_num(size).is_none() {
                return true;
            }
            match entry.text_field("start") {
                None => true,
                Some(start) => ends_in_unit(start),
            }
        },
    }
}

/// Whether a text can lose its last byte and stay a text.
pub fn ends_in_unit(text: &str) -> (r: bool)
    ensures
        r == has_unit_suffix(text@),
{
    let n: usize = text.unicode_len();
    n > 0 && (text.get_char(n - 1) as u32) < 128
}

/// The identifier in the field `key`; only a GPT holds identifiers.
fn read_uuid(entry: &Json, key: &str, is_gpt: bool) -> (r: Option<Uuid>)
    ensures
        r == entry_uuid(entry@, key@, is_gpt),
{
    if is_gpt {
        match entry.text_field(key) {
            Some(s) => Uuid::try_parse(s),
            None => None,
        }
    } else {
        Some(Uuid::nil())
    }
}

/// The quantity in the field `key`, without its unit.
fn read_quantity(entry: &Json, key: &str) -> (r: Option<u64>)
    requires
        entry@.text_field(key@) matches Some(s) ==> has_unit_suffix(s),
    ensures
        r == entry_quantity(entry@, key@),
{
    match entry.text_field(key) {
        Some(s) => bytes_str_to_num(s),
        None => None,
    }
}

/// The partition in one entry of a listing, if the entry holds all it needs.
pub fn read_entry(entry: &Json, is_gpt: bool) -> (r: Option<Part>)
    requires
        entry_has_units(entry@),
    ensures
        match r {
            Some(part) => entry_part(entry@, is_gpt) == Some(part@),
            None => entry_part(entry@, is_gpt) is None,
        },
{
    let listed: u64 = entry.u64_field("number")?;
    let number: u8 = #[verifier::truncate] (listed as u8);
    assert(listed as u8 == listed % 256) by (bit_vector);
    let size: u64 = read_quantity(entry, "size")?;
    let start: u64 = read_quantity(entry, "start")?;
    let type_uuid: Uuid = read_uuid(entry, "type-uuid", is_gpt)?;
    let part_uuid: Uuid = read_uuid(entry, "uuid", is_gpt)?;
    let name: String = if is_gpt {
        entry.text_field("name")?.clone()
    } else {
        String::new()
    };
    let flags: &Vec<Json> = entry.array_field("flags")?;
    let flag_boot: bool = contains_flag(flags, "boot");
    let flag_esp: bool = contains_flag(flags, "esp");
    Some(Part { number, start, size, type_uuid, part_uuid, name, flag_boot, flag_esp })
}

/// The partitions in the entries of a listing, if each entry holds one; `None`
/// where a quantity that is looked at has no unit.
fn checked_read_entries(entries: &Vec<Json>, is_gpt: bool) -> (r: Option<Option<Vec<Part>>>)
    ensures
        r is Some <==> entries_have_units(json_views(entries@), is_gpt),
        r matches Some(found) ==> match found {
            Some(parts) => all_some(entry_parts(json_views(entries@), is_gpt)) == Some(
                part_views(parts@),
            ),
            None => all_some(entry_parts(json_views(entries@), is_gpt)) is None,
        },
{
    let ghost views = json_views(entries@);
    let mut list: Vec<Option<Part>> = Vec::new();
    let mut i: usize = 0;
    let mut complete: bool = true;
    while i < entries.len() && complete
        invariant
            views == json_views(entries@),
            i <= entries@.len(),
            list@.len() == i,
            forall|k: int|
                0 <= k < i ==> match #[trigger] list@[k] {
                    Some(part) => entry_part(views[k], is_gpt) == Some(part@),
                    None => entry_part(views[k], is_gpt) is None,
                },
            forall|k: int| 0 <= k < i ==> #[trigger] entry_has_units(views[k]),
            complete ==> forall|k: int| 0 <= k < i ==> #[trigger] list@[k] is Some,
            !complete ==> i > 0 && list@[i - 1] is None,
        decreases entries@.len() - i,
    {
        if !check_units(&entries[i]) {
            proof {
                assert forall|k: int| 0 <= k < i implies (#[trigger] entry_part(
                    views[k],
                    is_gpt,
                )) is Some by {
                    assert(list@[k] is Some);
                }
                assert(!entry_has_units(views[i as int]));
            }
            return None;
        }
        let part: Option<Part> = read_entry(&entries[i], is_gpt);
        complete = part.is_some();
        list.push(part);
        i = i + 1;
    }
    let ghost options = list@;
    proof {
        assert forall|k: int|
            0 <= k < views.len() && (forall|j: int|
                0 <= j < k ==> (#[trigger] entry_part(views[j], is_gpt)) is Some)
            implies #[trigger] entry_has_units(views[k]) by {
            if k >= i {
                assert(options[i - 1] is None);
                assert(entry_part(views[i - 1], is_gpt) is Some);
            }
        }
    }
    let found: Option<Vec<Part>> = sequence(&mut list.into_iter());
    proof {
        let parts = entry_parts(views, is_gpt);
        if complete {
            assert forall|k: int| 0 <= k < parts.len() implies #[trigger] parts[k] is Some by {
                assert(options[k] is Some);
            }
            let values = found->0@;
            assert forall|k: int| 0 <= k < parts.len() implies parts[k]->0 == part_views(
                values,
            )[k] by {
                assert(options[k] is Some);
            }
            assert(all_some(parts)->0 =~= part_views(values));
        } else {
            assert(options[i - 1] is None);
            assert(parts[i - 1] is None);
        }
    }
    Some(found)
}

/// The partitions in a listing, or what is wrong with it; `None` where a
/// quantity that is looked at has no unit.
pub fn checked_read_listing(doc: &Json) -> (r: Option<Result<Vec<Part>, &'static str>>)
    ensures
        r is Some <==> listing_has_units(doc@),
        r matches Some(outcome) ==> same_outcome(outcome, listing_parts(doc@)),
{
    let disk: &Json = match doc.field("disk") {
        None => {
            return Some(Err("JSON incorrectly formatted"));
        },
        Some(disk) => disk,
    };
    let label: &String = match disk.text_field("label") {
        None => {
            return Some(Err("JSON incorrectly formatted"));
        },
        Some(label) => label,
    };
    let is_gpt: bool = same_text(label, "gpt");
    if !is_gpt && !same_text(label, "msdos") {
        return Some(Err("Disk isn't formatted as gpt or msdos"));
    }
    let entries: &Vec<Json> = match disk.array_field("partitions") {
        None => {
            return Some(Err("Error processing partition json"));
        },
        Some(entries) => entries,
    };
    match checked_read_entries(entries, is_gpt) {
        None => None,
        Some(None) => Some(Err("Error processing partition json")),
        Some(Some(parts)) => Some(Ok(parts)),
    }
}

/// The partitions in a listing, or what is wrong with it.
pub fn read_listing(doc: &Json) -> (r: Result<Vec<Part>, &'static str>)
    requires
        listing_has_units(doc@),
    ensures
        same_outcome(r, listing_parts(doc@)),
{
    match checked_read_listing(doc) {
        Some(outcome) => outcome,
        None => Err("Error processing partition json"),
    }
}

/// The partitions in the text of a listing, or what is wrong with it.
pub fn read_parted_json(json: &str) -> (r: Result<Vec<Part>, &'static str>)
    requires
        listing_text_has_units(json@),
    ensures
        same_outcome(r, listing_text_parts(json@)),
{
    match parse_json(json) {
        None => Err("Json incorrectly formatted"),
        Some(doc) => read_listing(&doc),
    }
}

/// The partitions in the text of a listing, or what is wrong with it; `None`
/// where a quantity that is looked at has no unit.
pub fn checked_read_parted_json(json: &str) -> (r: Option<Result<Vec<Part>, &'static str>>)
    ensures
        r is Some <==> listing_text_has_units(json@),
        r matches Some(outcome) ==> same_outcome(outcome, listing_text_parts(json@)),
{
    let has_units: bool = match parse_json(json) {
        None => true,
        Some(doc) => checked_read_listing(&doc).is_some(),
    };
    if has_units {
        Some(read_parted_json(json))
    } else {
        None
    }
}

// Laws.

/// What is read from a listing is one partition for each of its entries, in
/// their order.
pub proof fn law_listing_keeps_entries(doc: JsonView)
    ensures
        listing_parts(doc) matches Ok(parts) ==> {
            &&& disk_entries(doc) matches Some(entries)
            &&& parts.len() == entries.len()
            &&& forall|i: int|
                0 <= i < parts.len() ==> entry_part(
                    entries[i],
                    disk_label(doc) == Some("gpt"@),
                ) == Some(#[trigger] parts[i])
        },
{
    if let Ok(parts) = listing_parts(doc) {
        let entries = disk_entries(doc)->0;
        let options = entry_parts(entries, disk_label(doc)->0 == "gpt"@);
        assert forall|i: int| 0 <= i < parts.len() implies entry_part(
            entries[i],
            disk_label(doc) == Some("gpt"@),
        ) == Some(#[trigger] parts[i]) by {
            assert(options[i] is Some);
        }
    }
}

/// The partitions of a disk without a GPT have no identifiers, no types and no
/// names.
pub proof fn law_msdos_has_no_identifiers(doc: JsonView)
    requires
        disk_label(doc) == Some("msdos"@),
    ensures
        listing_parts(doc) matches Ok(parts) ==> forall|i: int|
            0 <= i < parts.len() ==> {
                &&& (#[trigger] parts[i]).type_uuid.value == 0
                &&& parts[i].part_uuid.value == 0
                &&& parts[i].name.len() == 0
            },
{
    reveal_strlit("msdos");
    reveal_strlit("gpt");
    assert("msdos"@.len() != "gpt"@.len());
    law_listing_keeps_entries(doc);
}

} // verus!
