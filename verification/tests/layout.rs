use multiiso::guid::Uuid;
use multiiso::layout::{
    disk_part_with_uuid, iso_part_to_disk, parts_to_sfd_script, write_menuentry, MIB,
};
use multiiso::part::{Part, ESP_UUID, MS_BASIC_TYPE};

fn part(number: u8, size: u64, type_value: u128, name: &str, flag_esp: bool) -> Part {
    Part {
        number,
        start: 32768,
        size,
        type_uuid: Uuid { value: type_value },
        part_uuid: Uuid { value: 0x1 },
        name: String::from(name),
        flag_boot: true,
        flag_esp,
    }
}

#[test]
fn a_script_has_a_line_for_each_partition() {
    assert_eq!(parts_to_sfd_script(&[]), "label: gpt\n");
    assert_eq!(
        parts_to_sfd_script(&[
            part(1, 4 * MIB, ESP_UUID, "EFI", true),
            part(2, 4 * MIB - 1, MS_BASIC_TYPE, "a\"b", false),
        ]),
        "label: gpt\n\
         size=5MiB, bootable, uuid=00000000-0000-0000-0000-000000000001, \
         type=c12a7328-f81f-11d2-ba4b-00a0c93ec93b, name=\"EFI\"\n\
         size=4MiB, uuid=00000000-0000-0000-0000-000000000001, \
         type=ebd0a0a2-b9e5-4433-87c0-68b6b72699c7, name=\"a\"b\"\n"
    );
}

#[test]
fn a_script_asks_for_enough() {
    for (size, asked) in [
        (0, "size=1MiB, "),
        (1, "size=1MiB, "),
        (MIB - 1, "size=1MiB, "),
        (MIB, "size=2MiB, "),
        (u64::MAX, "size=17592186044416MiB, "),
    ] {
        let script = parts_to_sfd_script(&[part(1, size, ESP_UUID, "", false)]);
        assert!(script.starts_with(&format!("label: gpt\n{}", asked)), "{}", script);
    }
}

#[test]
fn a_longer_script_goes_on_where_a_shorter_ends() {
    let a = part(1, 1, ESP_UUID, "a", true);
    let b = part(2, 2, ESP_UUID, "b", false);
    let both = parts_to_sfd_script(&[a.clone(), b.clone()]);
    let first = parts_to_sfd_script(&[a]);
    let second = parts_to_sfd_script(&[b]);
    assert_eq!(both, format!("{}{}", first, &second["label: gpt\n".len()..]));
}

#[test]
fn a_created_partition_keeps_size_type_and_name() {
    let id = Uuid { value: 77 };
    assert_eq!(
        disk_part_with_uuid(&part(3, 5, 9, "data", true), id),
        Part {
            number: 0,
            start: 0,
            size: 5,
            type_uuid: Uuid { value: 9 },
            part_uuid: id,
            name: String::from("data"),
            flag_boot: false,
            flag_esp: true,
        }
    );
}

#[test]
fn a_created_partition_always_has_a_type_and_a_name() {
    let id = Uuid { value: 77 };
    let esp = disk_part_with_uuid(&part(203, 5, 0, "", true), id);
    assert_eq!((esp.type_uuid.value, esp.name.as_str()), (ESP_UUID, "part203"));
    let other = disk_part_with_uuid(&part(0, 5, 0, "", false), id);
    assert_eq!((other.type_uuid.value, other.name.as_str()), (MS_BASIC_TYPE, "part0"));
}

#[test]
fn created_partitions_have_random_identifiers() {
    let p = part(1, 5, 9, "data", false);
    let a = iso_part_to_disk(&p);
    let b = iso_part_to_disk(&p);
    assert_ne!(a.part_uuid, b.part_uuid);
    assert_ne!(a.part_uuid, p.part_uuid);
    for d in [&a, &b] {
        assert_eq!((d.part_uuid.value >> 76) & 0xf, 4);
        assert_eq!((d.part_uuid.value >> 62) & 0x3, 2);
        assert_eq!(*d, disk_part_with_uuid(&p, d.part_uuid));
    }
}

#[test]
fn a_menu_entry_names_the_volume() {
    assert_eq!(
        write_menuentry("Fedora.iso", &Uuid { value: 0xC12A7328_F81F_11D2_BA4B_00A0C93EC93B }),
        "menuentry \"Fedora.iso\" {\n    volume c12a7328-f81f-11d2-ba4b-00a0c93ec93b\n    \
         loader /EFI/BOOT/bootx64.efi\n}\n"
    );
}

#[test]
fn identifiers_are_told_apart_by_their_notation() {
    let entries: Vec<String> =
        [0, 1, 1 << 127, u128::MAX].iter().map(|v| write_menuentry("", &Uuid { value: *v })).collect();
    for i in 0..entries.len() {
        for j in 0..i {
            assert_ne!(entries[i], entries[j]);
        }
    }
}
