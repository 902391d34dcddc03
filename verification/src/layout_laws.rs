//! What holds of every script, every planned partition and every entry of the
//! menu.

use crate::guid::{hex_char, hex_digits, law_uuid_text_round_trip, uuid_text, Uuid};
use crate::layout::{
    disk_part, law_partition_is_large_enough, menu_entry, sfd_line, sfd_lines, sfd_script,
    size_in_mib,
};
use crate::part::PartView;
use crate::text::decimal;
use vstd::prelude::*;

verus! {

/// Whether a text is a line of a script that asks for `mib` mebibytes for a
/// partition.
pub open spec fn asks_for(line: Seq<char>, mib: nat, p: PartView) -> bool {
    line == "size="@ + decimal(mib) + "MiB, "@ + (if p.flag_esp {
        "bootable, "@
    } else {
        Seq::empty()
    }) + "uuid="@ + uuid_text(p.part_uuid) + ", type="@ + uuid_text(p.type_uuid) + ", name=\""@
        + p.name + "\"\n"@
}

/// A script begins with the kind of the table. Each partition adds one line, which
/// asks for more bytes than the partition has, by at most a mebibyte, and carries
/// its identifier, its type and its name, and the mark of a bootable partition
/// exactly if it has the flag of an EFI system partition.
pub proof fn law_script_lines(parts: Seq<PartView>, p: PartView)
    ensures
        sfd_script(Seq::empty()) == "label: gpt\n"@,
        exists|line: Seq<char>, mib: nat|
            sfd_script(parts.push(p)) == sfd_script(parts) + line && #[trigger] asks_for(
                line,
                mib,
                p,
            ) && p.size < mib * 0x10_0000 <= p.size + 0x10_0000,
{
    assert("label: gpt\n"@ + Seq::<char>::empty() =~= "label: gpt\n"@);
    let line = sfd_line(p);
    let mib = size_in_mib(p.size);
    law_partition_is_large_enough(p.size);
    assert(parts.push(p).drop_last() =~= parts);
    assert(sfd_lines(parts.push(p)) == sfd_lines(parts) + line);
    assert(sfd_script(parts.push(p)) =~= sfd_script(parts) + line);
    assert(asks_for(line, mib, p));
}

/// The partition that is planned for one of an image has its size, and its type and
/// its name where it has these. Without a type it becomes an EFI system partition
/// exactly if it has the flag of one, and holds basic data otherwise; without a
/// name it is named after its number.
pub proof fn law_planned_partition(p: PartView, part_uuid: Uuid)
    ensures
        disk_part(p, part_uuid).part_uuid == part_uuid,
        disk_part(p, part_uuid).size == p.size,
        disk_part(p, part_uuid).flag_esp == p.flag_esp,
        !disk_part(p, part_uuid).flag_boot,
        disk_part(p, part_uuid).number == 0,
        disk_part(p, part_uuid).start == 0,
        p.type_uuid.value != 0 ==> disk_part(p, part_uuid).type_uuid == p.type_uuid,
        p.type_uuid.value == 0 && p.flag_esp ==> disk_part(p, part_uuid).type_uuid.value
            == 0xC12A7328_F81F_11D2_BA4B_00A0C93EC93B,
        p.type_uuid.value == 0 && !p.flag_esp ==> disk_part(p, part_uuid).type_uuid.value
            == 0xEBD0A0A2_B9E5_4433_87C0_68B6B72699C7,
        p.name.len() > 0 ==> disk_part(p, part_uuid).name == p.name,
        p.name.len() == 0 ==> disk_part(p, part_uuid).name == "part"@ + decimal(p.number as nat),
{
}

/// An entry of the menu shows the name that it is given, names the volume by the
/// identifier that it is given, and boots the loader for removable media.
pub proof fn law_menu_entry(display_name: Seq<char>, part_uuid: Uuid)
    ensures
        menu_entry(display_name, part_uuid) == "menuentry \""@ + display_name
            + "\" {\n    volume "@ + uuid_text(part_uuid)
            + "\n    loader /EFI/BOOT/bootx64.efi\n}\n"@,
{
}

proof fn lemma_hex_shape(v: nat, n: nat, i: int)
    requires
        0 <= i < n,
    ensures
        hex_digits(v, n).len() == n,
        '0' <= hex_digits(v, n)[i] <= '9' || 'a' <= hex_digits(v, n)[i] <= 'f',
    decreases n,
{
    assert('0' <= hex_char(v % 16) <= '9' || 'a' <= hex_char(v % 16) <= 'f');
    lemma_hex_len(v / 16, (n - 1) as nat);
    if i < n - 1 {
        lemma_hex_shape(v / 16, (n - 1) as nat, i);
    }
}

proof fn lemma_hex_len(v: nat, n: nat)
    ensures
        hex_digits(v, n).len() == n,
    decreases n,
{
    if n > 0 {
        lemma_hex_len(v / 16, (n - 1) as nat);
    }
}

/// An identifier is written in five groups of eight, four, four, four and twelve
/// hexadecimal digits, in lower case, with hyphens between them.
pub proof fn law_uuid_text_shape(u: Uuid, i: int)
    requires
        0 <= i < 36,
    ensures
        uuid_text(u).len() == 36,
        i == 8 || i == 13 || i == 18 || i == 23 ==> uuid_text(u)[i] == '-',
        !(i == 8 || i == 13 || i == 18 || i == 23) ==> '0' <= uuid_text(u)[i] <= '9' || 'a'
            <= uuid_text(u)[i] <= 'f',
{
    law_uuid_text_round_trip(u);
    lemma_hex_len(u.value as nat, 32);
    let k = if i < 8 {
        i
    } else if i < 13 {
        i - 1
    } else if i < 18 {
        i - 2
    } else if i < 23 {
        i - 3
    } else {
        i - 4
    };
    if !(i == 8 || i == 13 || i == 18 || i == 23) {
        lemma_hex_shape(u.value as nat, 32, k);
        assert(uuid_text(u)[i] == hex_digits(u.value as nat, 32)[k]);
    }
}

} // verus!
