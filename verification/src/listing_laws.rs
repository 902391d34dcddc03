//! What holds of every listing that is read, said of the fields of its objects.

use crate::guid::uuid_of_text;
use crate::json::{find_field, json_of_text, JsonView};
use crate::part::{part_views, Part, PartView};
use crate::parted::{
    all_some, disk_entries, disk_label, entry_has_units, entry_part, entry_parts, entry_quantity,
    has_flag, law_listing_keeps_entries, listing_has_units, listing_parts, listing_text_has_units,
    listing_text_parts, looked_at, same_outcome,
};
use crate::text_laws::{is_numeral, law_quantities, law_units};
use vstd::prelude::*;

verus! {

/// Whether `v` is the value of the first field of this name in an object.
pub open spec fn has_field(doc: JsonView, name: Seq<char>, v: JsonView) -> bool {
    doc matches JsonView::Object(fields) && exists|i: int|
        0 <= i < fields.len() && #[trigger] fields[i] == (name, v) && forall|j: int|
            0 <= j < i ==> (#[trigger] fields[j]).0 != name
}

proof fn lemma_find_field(fields: Seq<(Seq<char>, JsonView)>, name: Seq<char>, v: JsonView)
    ensures
        find_field(fields, name) == Some(v) <==> exists|i: int|
            0 <= i < fields.len() && #[trigger] fields[i] == (name, v) && forall|j: int|
                0 <= j < i ==> (#[trigger] fields[j]).0 != name,
    decreases fields.len(),
{
    if fields.len() > 0 {
        let rest = fields.skip(1);
        lemma_find_field(rest, name, v);
        if fields[0].0 == name {
            if find_field(fields, name) == Some(v) {
                assert(fields[0] == (name, v));
            }
            if exists|i: int|
                0 <= i < fields.len() && #[trigger] fields[i] == (name, v) && forall|j: int|
                    0 <= j < i ==> (#[trigger] fields[j]).0 != name {
                let i = choose|i: int|
                    0 <= i < fields.len() && #[trigger] fields[i] == (name, v) && forall|j: int|
                        0 <= j < i ==> (#[trigger] fields[j]).0 != name;
                assert(i == 0);
            }
        } else {
            if find_field(rest, name) == Some(v) {
                let i = choose|i: int|
                    0 <= i < rest.len() && #[trigger] rest[i] == (name, v) && forall|j: int|
                        0 <= j < i ==> (#[trigger] rest[j]).0 != name;
                assert(fields[i + 1] == (name, v));
                assert forall|j: int| 0 <= j < i + 1 implies (#[trigger] fields[j]).0 != name by {
                    if j > 0 {
                        assert(rest[j - 1] == fields[j]);
                    }
                }
            }
            if exists|i: int|
                0 <= i < fields.len() && #[trigger] fields[i] == (name, v) && forall|j: int|
                    0 <= j < i ==> (#[trigger] fields[j]).0 != name {
                let i = choose|i: int|
                    0 <= i < fields.len() && #[trigger] fields[i] == (name, v) && forall|j: int|
                        0 <= j < i ==> (#[trigger] fields[j]).0 != name;
                assert(rest[i - 1] == (name, v));
                assert forall|j: int| 0 <= j < i - 1 implies (#[trigger] rest[j]).0 != name by {
                    assert(rest[j] == fields[j + 1]);
                }
            }
        }
    }
}

/// The field of a name is the value of the first field of that name.
pub proof fn law_fields(doc: JsonView, name: Seq<char>, v: JsonView)
    ensures
        doc.field(name) == Some(v) <==> has_field(doc, name, v),
{
    if let JsonView::Object(fields) = doc {
        lemma_find_field(fields, name, v);
    }
}

/// A field is found as a number, a text or an array exactly if it is one.
pub proof fn law_typed_fields(
    doc: JsonView,
    name: Seq<char>,
    n: u64,
    s: Seq<char>,
    items: Seq<JsonView>,
)
    ensures
        doc.u64_field(name) == Some(n) <==> has_field(doc, name, JsonView::Number(Some(n))),
        doc.text_field(name) == Some(s) <==> has_field(doc, name, JsonView::Text(s)),
        doc.array_field(name) == Some(items) <==> has_field(doc, name, JsonView::Array(items)),
{
    law_fields(doc, name, JsonView::Number(Some(n)));
    law_fields(doc, name, JsonView::Text(s));
    law_fields(doc, name, JsonView::Array(items));
}

/// Whether a field is a text that holds a number of bytes and a unit of one
/// character behind it.
pub open spec fn has_bytes(entry: JsonView, name: Seq<char>, n: u64) -> bool {
    exists|s: Seq<char>|
        #![trigger has_field(entry, name, JsonView::Text(s))]
        has_field(entry, name, JsonView::Text(s)) && s.len() > 0 && is_numeral(
            s.take(s.len() - 1),
            n as nat,
        )
}

/// Whether a text is among the items of an array.
pub open spec fn lists_text(items: Seq<JsonView>, text: Seq<char>) -> bool {
    exists|i: int| 0 <= i < items.len() && #[trigger] items[i] == JsonView::Text(text)
}

/// Whether an entry of a listing describes a partition: its number in the lowest
/// eight bits, its size and its start in bytes; in a GPT its type, its identifier
/// and its name; and whether its flags hold `boot` and `esp`, each for itself.
pub open spec fn describes(entry: JsonView, gpt: bool, p: PartView) -> bool {
    &&& exists|n: u64|
        #![trigger has_field(entry, "number"@, JsonView::Number(Some(n)))]
        has_field(entry, "number"@, JsonView::Number(Some(n))) && p.number == n % 256
    &&& has_bytes(entry, "size"@, p.size)
    &&& has_bytes(entry, "start"@, p.start)
    &&& gpt ==> exists|s: Seq<char>|
        #![trigger has_field(entry, "type-uuid"@, JsonView::Text(s))]
        has_field(entry, "type-uuid"@, JsonView::Text(s)) && uuid_of_text(s) == Some(p.type_uuid)
    &&& gpt ==> exists|s: Seq<char>|
        #![trigger has_field(entry, "uuid"@, JsonView::Text(s))]
        has_field(entry, "uuid"@, JsonView::Text(s)) && uuid_of_text(s) == Some(p.part_uuid)
    &&& gpt ==> has_field(entry, "name"@, JsonView::Text(p.name))
    &&& !gpt ==> p.type_uuid.value == 0 && p.part_uuid.value == 0 && p.name.len() == 0
    &&& exists|flags: Seq<JsonView>|
        #![trigger has_field(entry, "flags"@, JsonView::Array(flags))]
        has_field(entry, "flags"@, JsonView::Array(flags)) && (p.flag_boot <==> lists_text(
            flags,
            "boot"@,
        )) && (p.flag_esp <==> lists_text(flags, "esp"@))
}

proof fn lemma_one_field(doc: JsonView, name: Seq<char>, a: JsonView, b: JsonView)
    requires
        has_field(doc, name, a),
        has_field(doc, name, b),
    ensures
        a == b,
{
    law_fields(doc, name, a);
    law_fields(doc, name, b);
}

proof fn lemma_text_field(doc: JsonView, name: Seq<char>)
    ensures
        doc.text_field(name) matches Some(s) ==> has_field(doc, name, JsonView::Text(s)),
        doc.text_field(name) is None ==> forall|s: Seq<char>| !#[trigger] has_field(
            doc,
            name,
            JsonView::Text(s),
        ),
{
    if let Some(s) = doc.text_field(name) {
        law_fields(doc, name, JsonView::Text(s));
    } else {
        assert forall|s: Seq<char>| !#[trigger] has_field(doc, name, JsonView::Text(s)) by {
            law_fields(doc, name, JsonView::Text(s));
        }
    }
}

proof fn lemma_number_field(doc: JsonView, name: Seq<char>)
    ensures
        doc.u64_field(name) matches Some(n) ==> has_field(doc, name, JsonView::Number(Some(n))),
        doc.u64_field(name) is None ==> forall|n: u64| !#[trigger] has_field(
            doc,
            name,
            JsonView::Number(Some(n)),
        ),
{
    if let Some(n) = doc.u64_field(name) {
        law_fields(doc, name, JsonView::Number(Some(n)));
    } else {
        assert forall|n: u64| !#[trigger] has_field(doc, name, JsonView::Number(Some(n))) by {
            law_fields(doc, name, JsonView::Number(Some(n)));
        }
    }
}

proof fn lemma_array_field(doc: JsonView, name: Seq<char>)
    ensures
        doc.array_field(name) matches Some(items) ==> has_field(doc, name, JsonView::Array(items)),
        doc.array_field(name) is None ==> forall|items: Seq<JsonView>| !#[trigger] has_field(
            doc,
            name,
            JsonView::Array(items),
        ),
{
    if let Some(items) = doc.array_field(name) {
        law_fields(doc, name, JsonView::Array(items));
    } else {
        assert forall|items: Seq<JsonView>| !#[trigger] has_field(
            doc,
            name,
            JsonView::Array(items),
        ) by {
            law_fields(doc, name, JsonView::Array(items));
        }
    }
}

proof fn lemma_bytes_field(entry: JsonView, name: Seq<char>, n: u64)
    requires
        entry.text_field(name) matches Some(s) ==> s.len() > 0,
    ensures
        entry_quantity(entry, name) == Some(n) <==> has_bytes(entry, name, n),
{
    lemma_text_field(entry, name);
    if let Some(s) = entry.text_field(name) {
        law_quantities(s, n);
        if has_bytes(entry, name, n) {
            let other = choose|other: Seq<char>|
                #![trigger has_field(entry, name, JsonView::Text(other))]
                has_field(entry, name, JsonView::Text(other)) && other.len() > 0 && is_numeral(
                    other.take(other.len() - 1),
                    n as nat,
                );
            lemma_one_field(entry, name, JsonView::Text(s), JsonView::Text(other));
        }
    }
}

/// A partition is read from an entry exactly if the entry describes it.
#[verifier::spinoff_prover]
pub proof fn law_entries(entry: JsonView, gpt: bool, p: PartView)
    requires
        entry_has_units(entry),
    ensures
        entry_part(entry, gpt) == Some(p) <==> describes(entry, gpt, p),
{
    lemma_number_field(entry, "number"@);
    lemma_text_field(entry, "size"@);
    lemma_text_field(entry, "start"@);
    lemma_text_field(entry, "type-uuid"@);
    lemma_text_field(entry, "uuid"@);
    lemma_text_field(entry, "name"@);
    lemma_array_field(entry, "flags"@);
    if entry_part(entry, gpt) == Some(p) {
        lemma_bytes_field(entry, "size"@, p.size);
        lemma_bytes_field(entry, "start"@, p.start);
        let flags = entry.array_field("flags"@)->0;
        assert(has_flag(flags, "boot"@) <==> lists_text(flags, "boot"@));
        assert(has_flag(flags, "esp"@) <==> lists_text(flags, "esp"@));
        assert(has_field(entry, "flags"@, JsonView::Array(flags)));
    }
    if describes(entry, gpt, p) {
        let n = choose|n: u64|
            #![trigger has_field(entry, "number"@, JsonView::Number(Some(n)))]
            has_field(entry, "number"@, JsonView::Number(Some(n))) && p.number == n % 256;
        law_fields(entry, "number"@, JsonView::Number(Some(n)));
        lemma_bytes_field(entry, "size"@, p.size);
        lemma_bytes_field(entry, "start"@, p.start);
        if gpt {
            let s = choose|s: Seq<char>|
                #![trigger has_field(entry, "type-uuid"@, JsonView::Text(s))]
                has_field(entry, "type-uuid"@, JsonView::Text(s)) && uuid_of_text(s) == Some(
                    p.type_uuid,
                );
            law_fields(entry, "type-uuid"@, JsonView::Text(s));
            let s = choose|s: Seq<char>|
                #![trigger has_field(entry, "uuid"@, JsonView::Text(s))]
                has_field(entry, "uuid"@, JsonView::Text(s)) && uuid_of_text(s) == Some(
                    p.part_uuid,
                );
            law_fields(entry, "uuid"@, JsonView::Text(s));
            law_fields(entry, "name"@, JsonView::Text(p.name));
        } else {
            assert(p.name =~= Seq::empty());
        }
        let flags = choose|flags: Seq<JsonView>|
            #![trigger has_field(entry, "flags"@, JsonView::Array(flags))]
            has_field(entry, "flags"@, JsonView::Array(flags)) && (p.flag_boot <==> lists_text(
                flags,
                "boot"@,
            )) && (p.flag_esp <==> lists_text(flags, "esp"@));
        law_fields(entry, "flags"@, JsonView::Array(flags));
        assert(has_flag(flags, "boot"@) <==> lists_text(flags, "boot"@));
        assert(has_flag(flags, "esp"@) <==> lists_text(flags, "esp"@));
    }
}

/// Whether a field is a text that does not end in a unit.
pub open spec fn lacks_unit(entry: JsonView, name: Seq<char>) -> bool {
    exists|s: Seq<char>|
        #![trigger has_field(entry, name, JsonView::Text(s))]
        has_field(entry, name, JsonView::Text(s)) && (s.len() == 0 || (s[s.len() - 1] as u32)
            >= 128)
}

proof fn lemma_lacks_unit(entry: JsonView, name: Seq<char>)
    ensures
        lacks_unit(entry, name) <==> (entry.text_field(name) matches Some(s)
            && !crate::text::has_unit_suffix(s)),
{
    lemma_text_field(entry, name);
    if let Some(s) = entry.text_field(name) {
        law_units(s);
        if lacks_unit(entry, name) {
            let other = choose|other: Seq<char>|
                #![trigger has_field(entry, name, JsonView::Text(other))]
                has_field(entry, name, JsonView::Text(other)) && (other.len() == 0 || (other[
                other.len() - 1] as u32) >= 128);
            lemma_one_field(entry, name, JsonView::Text(s), JsonView::Text(other));
        }
    }
}

/// An entry cannot be worked with exactly if it has a number and its size lacks a
/// unit, or its size is a number of bytes and its start lacks a unit.
pub proof fn law_entries_without_units(entry: JsonView)
    ensures
        !entry_has_units(entry) <==> (exists|n: u64| #[trigger]
            has_field(entry, "number"@, JsonView::Number(Some(n)))) && (lacks_unit(
            entry,
            "size"@,
        ) || ((exists|size: u64| #[trigger] has_bytes(entry, "size"@, size)) && lacks_unit(
            entry,
            "start"@,
        ))),
{
    lemma_number_field(entry, "number"@);
    lemma_lacks_unit(entry, "size"@);
    lemma_lacks_unit(entry, "start"@);
    if !lacks_unit(entry, "size"@) {
        if let Some(size) = entry_quantity(entry, "size"@) {
            lemma_bytes_field(entry, "size"@, size);
        }
        assert forall|size: u64| has_bytes(entry, "size"@, size) implies entry_quantity(
            entry,
            "size"@,
        ) == Some(size) by {
            lemma_bytes_field(entry, "size"@, size);
        }
    }
}

/// Whether a document lists these partitions: it has a disk whose label is `gpt`
/// or `msdos`, and whose partitions are described one by one, in order.
pub open spec fn lists_parts(doc: JsonView, parts: Seq<PartView>) -> bool {
    exists|disk: JsonView, label: Seq<char>, entries: Seq<JsonView>|
        #![trigger has_field(doc, "disk"@, disk), has_field(disk, "label"@, JsonView::Text(label)), has_field(disk, "partitions"@, JsonView::Array(entries))]
        {
            &&& has_field(doc, "disk"@, disk)
            &&& has_field(disk, "label"@, JsonView::Text(label))
            &&& has_field(disk, "partitions"@, JsonView::Array(entries))
            &&& label == "gpt"@ || label == "msdos"@
            &&& parts.len() == entries.len()
            &&& forall|i: int|
                0 <= i < parts.len() ==> describes(entries[i], label == "gpt"@, #[trigger] parts[i])
        }
}

/// Every entry of a list that describes partitions up to one has units up to
/// there.
proof fn lemma_described_has_units(
    entries: Seq<JsonView>,
    gpt: bool,
    parts: Seq<PartView>,
    i: int,
)
    requires
        crate::parted::entries_have_units(entries, gpt),
        parts.len() == entries.len(),
        forall|k: int| 0 <= k < parts.len() ==> describes(entries[k], gpt, #[trigger] parts[k]),
        0 <= i <= entries.len(),
    ensures
        forall|k: int| 0 <= k < i ==> entry_part(#[trigger] entries[k], gpt) == Some(parts[k]),
    decreases i,
{
    if i > 0 {
        lemma_described_has_units(entries, gpt, parts, i - 1);
        assert(entry_has_units(entries[i - 1])) by {
            assert forall|k: int| 0 <= k < i - 1 implies (#[trigger] entry_part(
                entries[k],
                gpt,
            )) is Some by {
                assert(entry_part(entries[k], gpt) == Some(parts[k]));
            }
        }
        assert(describes(entries[i - 1], gpt, parts[i - 1]));
        law_entries(entries[i - 1], gpt, parts[i - 1]);
        assert forall|k: int| 0 <= k < i implies entry_part(#[trigger] entries[k], gpt) == Some(
            parts[k],
        ) by {
            if k < i - 1 {
                assert(entry_part(entries[k], gpt) == Some(parts[k]));
            }
        }
    }
}

/// Partitions are read from a document exactly if it lists them.
#[verifier::spinoff_prover]
pub proof fn law_listings(doc: JsonView, parts: Seq<PartView>)
    requires
        listing_has_units(doc),
    ensures
        listing_parts(doc) == Ok::<Seq<PartView>, Seq<char>>(parts) <==> lists_parts(doc, parts),
{
    if listing_parts(doc) == Ok::<Seq<PartView>, Seq<char>>(parts) {
        law_listing_keeps_entries(doc);
        let disk = doc.field("disk"@)->0;
        let label = disk_label(doc)->0;
        let entries = disk_entries(doc)->0;
        law_fields(doc, "disk"@, disk);
        law_fields(disk, "label"@, JsonView::Text(label));
        law_fields(disk, "partitions"@, JsonView::Array(entries));
        let gpt = label == "gpt"@;
        assert forall|i: int| 0 <= i < parts.len() implies describes(
            entries[i],
            gpt,
            #[trigger] parts[i],
        ) by {
            assert forall|k: int| 0 <= k < i implies (#[trigger] entry_part(
                entries[k],
                gpt,
            )) is Some by {
                assert(entry_part(entries[k], gpt) == Some(parts[k]));
            }
            assert(entry_has_units(entries[i]));
            law_entries(entries[i], gpt, parts[i]);
        }
    }
    if lists_parts(doc, parts) {
        let (disk, label, entries) = choose|
            disk: JsonView,
            label: Seq<char>,
            entries: Seq<JsonView>,
        |
            #![trigger has_field(doc, "disk"@, disk), has_field(disk, "label"@, JsonView::Text(label)), has_field(disk, "partitions"@, JsonView::Array(entries))]
            {
                &&& has_field(doc, "disk"@, disk)
                &&& has_field(disk, "label"@, JsonView::Text(label))
                &&& has_field(disk, "partitions"@, JsonView::Array(entries))
                &&& label == "gpt"@ || label == "msdos"@
                &&& parts.len() == entries.len()
                &&& forall|i: int|
                    0 <= i < parts.len() ==> describes(
                        entries[i],
                        label == "gpt"@,
                        #[trigger] parts[i],
                    )
            };
        law_fields(doc, "disk"@, disk);
        law_fields(disk, "label"@, JsonView::Text(label));
        law_fields(disk, "partitions"@, JsonView::Array(entries));
        lemma_described_has_units(entries, label == "gpt"@, parts, entries.len() as int);
        let options = entry_parts(entries, label == "gpt"@);
        assert forall|i: int| 0 <= i < options.len() implies #[trigger] options[i] == Some(
            parts[i],
        ) by {
            assert(entry_part(entries[i], label == "gpt"@) == Some(parts[i]));
        }
        assert(all_some(options)->0 =~= parts);
    }
}

/// Whether the disk of a document has this label.
pub open spec fn has_label(doc: JsonView, label: Seq<char>) -> bool {
    exists|disk: JsonView|
        #![trigger has_field(doc, "disk"@, disk)]
        has_field(doc, "disk"@, disk) && has_field(disk, "label"@, JsonView::Text(label))
}

proof fn lemma_label(doc: JsonView)
    ensures
        disk_label(doc) matches Some(label) ==> has_label(doc, label),
        forall|label: Seq<char>| #[trigger] has_label(doc, label) ==> disk_label(doc) == Some(label),
{
    if let Some(label) = disk_label(doc) {
        let disk = doc.field("disk"@)->0;
        law_fields(doc, "disk"@, disk);
        law_fields(disk, "label"@, JsonView::Text(label));
    }
    assert forall|label: Seq<char>| #[trigger] has_label(doc, label) implies disk_label(doc) == Some(
        label,
    ) by {
        let disk = choose|disk: JsonView|
            #![trigger has_field(doc, "disk"@, disk)]
            has_field(doc, "disk"@, disk) && has_field(disk, "label"@, JsonView::Text(label));
        law_fields(doc, "disk"@, disk);
        law_fields(disk, "label"@, JsonView::Text(label));
    }
}

/// A document without a label is said to be formatted incorrectly; one with a
/// label that is neither `gpt` nor `msdos`, that its disk is not formatted as one
/// of these; and one with such a label that lists no partitions, that its
/// partitions cannot be processed.
pub proof fn law_listing_errors(doc: JsonView)
    requires
        listing_has_units(doc),
    ensures
        (forall|label: Seq<char>| !#[trigger] has_label(doc, label)) ==> listing_parts(doc) == Err::<
            Seq<PartView>,
            Seq<char>,
        >("JSON incorrectly formatted"@),
        forall|label: Seq<char>| #[trigger]
            has_label(doc, label) && label != "gpt"@ && label != "msdos"@ ==> listing_parts(doc)
                == Err::<Seq<PartView>, Seq<char>>("Disk isn't formatted as gpt or msdos"@),
        (has_label(doc, "gpt"@) || has_label(doc, "msdos"@)) && (forall|parts: Seq<PartView>|
            !#[trigger] lists_parts(doc, parts)) ==> listing_parts(doc) == Err::<
            Seq<PartView>,
            Seq<char>,
        >("Error processing partition json"@),
{
    lemma_label(doc);
    if let Ok(parts) = listing_parts(doc) {
        law_listings(doc, parts);
    }
}

/// What is read from a text is what is read from the document in it; a text that
/// holds none is said to be formatted incorrectly.
pub proof fn law_listing_texts(text: Seq<char>)
    ensures
        json_of_text(text) is None ==> listing_text_parts(text) == Err::<Seq<PartView>, Seq<char>>(
            "Json incorrectly formatted"@,
        ) && listing_text_has_units(text),
        json_of_text(text) matches Some(doc) ==> listing_text_parts(text) == listing_parts(doc)
            && listing_text_has_units(text) == listing_has_units(doc),
{
}

/// Whether the disk of a document has these entries.
pub open spec fn has_entries(doc: JsonView, entries: Seq<JsonView>) -> bool {
    exists|disk: JsonView|
        #![trigger has_field(doc, "disk"@, disk)]
        has_field(doc, "disk"@, disk) && has_field(disk, "partitions"@, JsonView::Array(entries))
}

/// Whether an entry describes some partition.
pub open spec fn is_described(entry: JsonView, gpt: bool) -> bool {
    exists|p: PartView| #[trigger] describes(entry, gpt, p)
}

/// Whether the entry at `i` of a document cannot be worked with, while each one
/// before it describes a partition.
pub open spec fn lacks_units_at(
    doc: JsonView,
    gpt: bool,
    entries: Seq<JsonView>,
    i: int,
) -> bool {
    &&& has_label(
        doc,
        if gpt {
            "gpt"@
        } else {
            "msdos"@
        },
    )
    &&& has_entries(doc, entries)
    &&& 0 <= i < entries.len()
    &&& !entry_has_units(entries[i])
    &&& forall|k: int| 0 <= k < i ==> is_described(#[trigger] entries[k], gpt)
}

proof fn lemma_first_without_units(entries: Seq<JsonView>, i: int) -> (first: int)
    requires
        0 <= i < entries.len(),
        !entry_has_units(entries[i]),
    ensures
        0 <= first <= i,
        !entry_has_units(entries[first]),
        forall|k: int| 0 <= k < first ==> entry_has_units(#[trigger] entries[k]),
    decreases i,
{
    if exists|k: int| 0 <= k < i && !entry_has_units(#[trigger] entries[k]) {
        let k = choose|k: int| 0 <= k < i && !entry_has_units(#[trigger] entries[k]);
        lemma_first_without_units(entries, k)
    } else {
        i
    }
}

proof fn lemma_entries(doc: JsonView)
    ensures
        disk_entries(doc) matches Some(entries) ==> has_entries(doc, entries),
        forall|entries: Seq<JsonView>| #[trigger]
            has_entries(doc, entries) ==> disk_entries(doc) == Some(entries),
{
    if let Some(entries) = disk_entries(doc) {
        let disk = doc.field("disk"@)->0;
        law_fields(doc, "disk"@, disk);
        law_fields(disk, "partitions"@, JsonView::Array(entries));
    }
    assert forall|entries: Seq<JsonView>| #[trigger] has_entries(doc, entries) implies disk_entries(
        doc,
    ) == Some(entries) by {
        let disk = choose|disk: JsonView|
            #![trigger has_field(doc, "disk"@, disk)]
            has_field(doc, "disk"@, disk) && has_field(
                disk,
                "partitions"@,
                JsonView::Array(entries),
            );
        law_fields(doc, "disk"@, disk);
        law_fields(disk, "partitions"@, JsonView::Array(entries));
    }
}

/// A listing cannot be worked with exactly if its label is `gpt` or `msdos` and one
/// of its entries cannot be worked with, while each one before that describes a
/// partition.
#[verifier::spinoff_prover]
pub proof fn law_listings_without_units(doc: JsonView)
    ensures
        !listing_has_units(doc) <==> exists|gpt: bool, entries: Seq<JsonView>, i: int| #[trigger]
            lacks_units_at(doc, gpt, entries, i),
{
    lemma_label(doc);
    lemma_entries(doc);
    reveal_strlit("gpt");
    reveal_strlit("msdos");
    assert("gpt"@.len() != "msdos"@.len());
    if !listing_has_units(doc) {
        let label = disk_label(doc)->0;
        let entries = disk_entries(doc)->0;
        let gpt = label == "gpt"@;
        let i = choose|i: int|
            0 <= i < entries.len() && (forall|k: int|
                0 <= k < i ==> (#[trigger] entry_part(entries[k], gpt)) is Some)
                && !#[trigger] entry_has_units(entries[i]);
        let first = lemma_first_without_units(entries, i);
        assert forall|k: int| 0 <= k < first implies is_described(#[trigger] entries[k], gpt) by {
            assert(entry_part(entries[k], gpt) is Some);
            law_entries(entries[k], gpt, entry_part(entries[k], gpt)->0);
        }
        assert(lacks_units_at(doc, gpt, entries, first));
    }
    if exists|gpt: bool, entries: Seq<JsonView>, i: int| #[trigger]
        lacks_units_at(doc, gpt, entries, i) {
        let (gpt, entries, i) = choose|gpt: bool, entries: Seq<JsonView>, i: int| #[trigger]
            lacks_units_at(doc, gpt, entries, i);
        let first = lemma_first_without_units(entries, i);
        assert forall|k: int| 0 <= k < first implies (#[trigger] entry_part(
            entries[k],
            gpt,
        )) is Some by {
            assert(is_described(entries[k], gpt));
            let p = choose|p: PartView| #[trigger] describes(entries[k], gpt, p);
            assert(entry_has_units(entries[k]));
            law_entries(entries[k], gpt, p);
        }
        assert(!entry_has_units(entries[first]));
        assert(gpt == (disk_label(doc)->0 == "gpt"@));
    }
}

/// What was read is right exactly if it is the very partitions, or the very message,
/// that should have been read.
pub proof fn law_outcomes(
    r: Result<Vec<Part>, &'static str>,
    expected: Result<Seq<PartView>, Seq<char>>,
)
    ensures
        same_outcome(r, expected) <==> match (r, expected) {
            (Ok(parts), Ok(views)) => parts@.len() == views.len() && forall|i: int|
                0 <= i < views.len() ==> parts@[i]@ == #[trigger] views[i],
            (Err(e), Err(text)) => e@ == text,
            _ => false,
        },
{
    if let (Ok(parts), Ok(views)) = (r, expected) {
        if parts@.len() == views.len() && forall|i: int|
            0 <= i < views.len() ==> parts@[i]@ == #[trigger] views[i] {
            assert(part_views(parts@) =~= views);
        }
    }
}

/// The values of a list are all there exactly if each is, in the same order.
pub proof fn law_all_values<T>(list: Seq<Option<T>>, values: Seq<T>)
    ensures
        all_some(list) == Some(values) <==> values.len() == list.len() && forall|i: int|
            0 <= i < list.len() ==> #[trigger] list[i] == Some(values[i]),
{
    if all_some(list) == Some(values) {
        assert forall|i: int| 0 <= i < list.len() implies #[trigger] list[i] == Some(values[i]) by {
            assert(list[i] is Some);
        }
    }
    if values.len() == list.len() && forall|i: int|
        0 <= i < list.len() ==> #[trigger] list[i] == Some(values[i]) {
        assert(all_some(list)->0 =~= values);
    }
}

/// Of a list of values nothing is looked at behind the first that is missing: the
/// values before it are there, and it is missing, if anything is.
pub proof fn law_looked_at<T>(list: Seq<Option<T>>)
    ensures
        looked_at(list) <= list.len(),
        forall|i: int| 0 <= i < looked_at(list) - 1 ==> #[trigger] list[i] is Some,
        looked_at(list) < list.len() ==> looked_at(list) > 0 && list[looked_at(list) - 1] is None,
        (exists|i: int| 0 <= i < list.len() && #[trigger] list[i] is None) ==> looked_at(list) > 0
            && list[looked_at(list) - 1] is None,
    decreases list.len(),
{
    if list.len() > 0 && list[0] is Some {
        let rest = list.skip(1);
        law_looked_at(rest);
        assert forall|i: int| 0 <= i < looked_at(list) - 1 implies #[trigger] list[i] is Some by {
            if i > 0 {
                assert(rest[i - 1] == list[i]);
            }
        }
        if exists|i: int| 0 <= i < list.len() && #[trigger] list[i] is None {
            let i = choose|i: int| 0 <= i < list.len() && #[trigger] list[i] is None;
            assert(rest[i - 1] is None);
        }
    }
}

} // verus!
