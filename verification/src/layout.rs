//! The partitions that a drive gets, as the scripts that create them and the
//! menu that boots them.

use crate::guid::{is_random_uuid, uuid_text, Uuid};
use crate::part::{part_views, Part, PartView, ESP_UUID, MS_BASIC_TYPE};
use crate::text::{decimal, push_decimal, same_text};
use vstd::prelude::*;
use vstd::string::*;

verus! {

/// The number of bytes in a mebibyte.
pub const MIB: u64 = 1024 * 1024;

/// The size in mebibytes that is asked for to hold a number of bytes.
pub open spec fn size_in_mib(size: u64) -> nat {
    size as nat / MIB as nat + 1
}

/// The line of a script for `sfdisk` that creates a partition.
pub open spec fn sfd_line(p: PartView) -> Seq<char> {
    "size="@ + decimal(size_in_mib(p.size)) + "MiB, "@ + (if p.flag_esp {
        "bootable, "@
    } else {
        Seq::empty()
    }) + "uuid="@ + uuid_text(p.part_uuid) + ", type="@ + uuid_text(p.type_uuid) + ", name=\""@
        + p.name + "\"\n"@
}

/// The lines of a script for `sfdisk` that create partitions.
pub open spec fn sfd_lines(parts: Seq<PartView>) -> Seq<char>
    decreases parts.len(),
{
    if parts.len() == 0 {
        Seq::empty()
    } else {
        sfd_lines(parts.drop_last()) + sfd_line(parts.last())
    }
}

/// The script for `sfdisk` that creates partitions in a GPT.
pub open spec fn sfd_script(parts: Seq<PartView>) -> Seq<char> {
    "label: gpt\n"@ + sfd_lines(parts)
}

/// The name that a partition gets: its own, or one made of its number.
pub open spec fn disk_name(p: PartView) -> Seq<char> {
    if p.name.len() > 0 {
        p.name
    } else {
        "part"@ + decimal(p.number as nat)
    }
}

/// The type that a partition gets: its own, or one chosen by its flag.
pub open spec fn disk_type(p: PartView) -> Uuid {
    if p.type_uuid.value != 0 {
        p.type_uuid
    } else if p.flag_esp {
        Uuid { value: ESP_UUID }
    } else {
        Uuid { value: MS_BASIC_TYPE }
    }
}

/// The partition that is created for a partition of a disk image, under a new
/// identifier. It has no place yet and is not for legacy boot.
pub open spec fn disk_part(p: PartView, part_uuid: Uuid) -> PartView {
    PartView {
        number: 0,
        start: 0,
        size: p.size,
        type_uuid: disk_type(p),
        part_uuid,
        name: disk_name(p),
        flag_boot: false,
        flag_esp: p.flag_esp,
    }
}

/// The entry of the boot menu for an EFI system partition.
pub open spec fn menu_entry(display_name: Seq<char>, part_uuid: Uuid) -> Seq<char> {
    "menuentry \""@ + display_name + "\" {\n    volume "@ + uuid_text(part_uuid)
        + "\n    loader /EFI/BOOT/bootx64.efi\n}\n"@
}

/// Appends the line of a script for `sfdisk` that creates a partition.
fn push_sfd_line(out: &mut String, part: &Part)
    ensures
        final(out)@ == old(out)@ + sfd_line(part@),
{
    let ghost before = out@;
    out.append("size=");
    push_decimal(out, part.size / MIB + 1);
    out.append("MiB, ");
    if part.flag_esp {
        out.append("bootable, ");
    }
    out.append("uuid=");
    out.append(&part.part_uuid.hyphenated());
    out.append(", type=");
    out.append(&part.type_uuid.hyphenated());
    out.append(", name=\"");
    out.append(&part.name);
    out.append("\"\n");
    assert(out@ =~= before + sfd_line(part@));
}

/// The script for `sfdisk` that creates partitions in a GPT.
pub fn parts_to_sfd_script(parts: &[Part]) -> (r: String)
    ensures
        r@ == sfd_script(part_views(parts@)),
{
    let mut ret: String = String::new();
    ret.append("label: gpt\n");
    let ghost views = part_views(parts@);
    assert(ret@ =~= "label: gpt\n"@ + sfd_lines(views.take(0)));
    for i in 0..parts.len()
        invariant
            views == part_views(parts@),
            ret@ == "label: gpt\n"@ + sfd_lines(views.take(i as int)),
    {
        push_sfd_line(&mut ret, &parts[i]);
        proof {
            assert(views.take(i + 1).drop_last() =~= views.take(i as int));
            assert(ret@ =~= "label: gpt\n"@ + sfd_lines(views.take(i + 1)));
        }
    }
    assert(views.take(parts@.len() as int) =~= views);
    ret
}

/// The partition that is created for a partition of a disk image, under the
/// identifier given.
pub fn disk_part_with_uuid(p: &Part, part_uuid: Uuid) -> (r: Part)
    ensures
        r@ == disk_part(p@, part_uuid),
{
    let type_uuid: Uuid = if p.type_uuid == Uuid::nil() {
        if p.flag_esp {
            Uuid { value: ESP_UUID }
        } else {
            Uuid { value: MS_BASIC_TYPE }
        }
    } else {
        p.type_uuid
    };
    let name: String = if !same_text(&p.name, "") {
        p.name.clone()
    } else {
        let mut name: String = String::new();
        name.append("part");
        push_decimal(&mut name, p.number as u64);
        name
    };
    proof {
        reveal_strlit("");
        assert(p.name@.len() == 0 ==> p.name@ =~= ""@);
        assert(Seq::<char>::empty() + "part"@ =~= "part"@);
    }
    Part {
        number: 0,
        start: 0,
        size: p.size,
        type_uuid,
        part_uuid,
        name,
        flag_boot: false,
        flag_esp: p.flag_esp,
    }
}

/// The partition that is created for a partition of a disk image, under a new
/// random identifier.
pub fn iso_part_to_disk(p: &Part) -> (r: Part)
    ensures
        is_random_uuid(r.part_uuid),
        r@ == disk_part(p@, r.part_uuid),
{
    disk_part_with_uuid(p, Uuid::new_v4())
}

/// The entry of the boot menu for an EFI system partition.
pub fn write_menuentry(display_name: &str, part_uuid: &Uuid) -> (r: String)
    ensures
        r@ == menu_entry(display_name@, *part_uuid),
{
    let mut entry: String = String::new();
    entry.append("menuentry \"");
    entry.append(display_name);
    entry.append("\" {\n    volume ");
    entry.append(&part_uuid.hyphenated());
    entry.append("\n    loader /EFI/BOOT/bootx64.efi\n}\n");
    assert(entry@ =~= menu_entry(display_name@, *part_uuid));
    entry
}

// Laws.

/// A partition gets at least the size that it needs, and at most a mebibyte
/// more.
pub proof fn law_partition_is_large_enough(size: u64)
    ensures
        size < size_in_mib(size) * MIB <= size + MIB,
{
}

proof fn lemma_sfd_lines_concat(a: Seq<PartView>, b: Seq<PartView>)
    ensures
        sfd_lines(a + b) == sfd_lines(a) + sfd_lines(b),
    decreases b.len(),
{
    if b.len() == 0 {
        assert(a + b =~= a);
        assert(sfd_lines(a) + sfd_lines(b) =~= sfd_lines(a));
    } else {
        lemma_sfd_lines_concat(a, b.drop_last());
        assert((a + b).drop_last() =~= a + b.drop_last());
        assert(sfd_lines(a + b) =~= sfd_lines(a) + sfd_lines(b));
    }
}

/// A script lists its partitions in order, so that the script for more
/// partitions goes on where the script for fewer ends.
pub proof fn law_sfd_script_grows(a: Seq<PartView>, b: Seq<PartView>)
    ensures
        sfd_script(a + b) == sfd_script(a) + sfd_lines(b),
{
    lemma_sfd_lines_concat(a, b);
    assert(sfd_script(a + b) =~= sfd_script(a) + sfd_lines(b));
}

/// A created partition is as large as the one it is for, has a type and a name,
/// and is never for legacy boot. Where a partition of a disk image has no type
/// of its own, the created one is an EFI system partition exactly if the flag
/// says so.
pub proof fn law_disk_part(p: PartView, part_uuid: Uuid)
    ensures
        disk_part(p, part_uuid).size == p.size,
        disk_part(p, part_uuid).type_uuid.value != 0,
        disk_part(p, part_uuid).name.len() > 0,
        !disk_part(p, part_uuid).flag_boot,
        p.type_uuid.value == 0 ==> (disk_part(p, part_uuid).type_uuid.value == ESP_UUID
            <==> p.flag_esp),
{
    crate::text::law_decimal_reads_back(p.number as nat);
}

} // verus!
