use multiiso::command::{dd_copy_data, Root};
use multiiso::copy::{
    copy_partitions, find_created, CopyAction, CopyEvent, CopyNext, CopyPhase, CopyRun,
};
use multiiso::guid::Uuid;
use multiiso::layout::disk_part_with_uuid;
use multiiso::part::{Part, ESP_UUID};

const BASIC: &str = "ebd0a0a2-b9e5-4433-87c0-68b6b72699c7";
const ESP: &str = "c12a7328-f81f-11d2-ba4b-00a0c93ec93b";

fn s(text: &str) -> String {
    String::from(text)
}

fn entry(number: u64, start: u64, size: u64, types: &str, id: &str) -> String {
    format!(
        r#"{{"number": {}, "start": "{}B", "size": "{}B", "type-uuid": "{}", "uuid": "{}",
            "name": "n", "flags": []}}"#,
        number, start, size, types, id
    )
}

fn listing(entries: &[String]) -> String {
    format!(r#"{{"disk": {{"label": "gpt", "partitions": [{}]}}}}"#, entries.join(","))
}

/// The identifiers that a script asks for, in order.
fn asked_ids(script: &str) -> Vec<String> {
    script
        .lines()
        .filter_map(|line| line.split("uuid=").nth(1))
        .map(|rest| s(&rest[..36]))
        .collect()
}

fn go(next: CopyNext) -> (CopyRun, CopyAction) {
    match next {
        CopyNext::Go(run, action) => (run, action),
        other => panic!("{:?}", other),
    }
}

/// A run up to the listing of the drive, with the identifiers it asked for.
fn up_to_device(names: Vec<Option<String>>, image: &str) -> (CopyRun, Vec<String>) {
    let (run, action) = go(copy_partitions(names));
    assert_eq!(action, CopyAction::List(Root::Image(0)));
    let (run, action) = go(run.resume(CopyEvent::Listed(s(image))));
    let ids = match &action {
        CopyAction::Create { wipe: false, device: Root::Device, script } => asked_ids(script),
        other => panic!("{:?}", other),
    };
    assert_eq!(
        action.announcement("x.iso"),
        Some(s("Creating partitions on destination device"))
    );
    let (run, action) = go(run.resume(CopyEvent::Done));
    assert_eq!(action, CopyAction::List(Root::Device));
    assert_eq!(action.announcement("x.iso"), None);
    (run, ids)
}

fn part(number: u8, part_uuid: u128) -> Part {
    Part {
        number,
        start: 0,
        size: 10,
        type_uuid: Uuid { value: ESP_UUID },
        part_uuid: Uuid { value: part_uuid },
        name: s(""),
        flag_boot: false,
        flag_esp: false,
    }
}

#[test]
fn without_images_the_menu_is_empty() {
    assert_eq!(copy_partitions(vec![]), CopyNext::Finish(s("\ntimeout 30\nscanfor manual\n")));
}

#[test]
fn images_are_copied_one_after_the_other() {
    let old = "00000000-0000-0000-0000-000000000001";
    let image =
        listing(&[entry(2, 100, 1000, BASIC, old), entry(1, 1100, 2000, ESP, old)]);
    let (run, ids) = up_to_device(vec![Some(s("a.iso")), None], &image);
    assert_eq!(ids.len(), 2);
    assert_ne!(ids[0], ids[1]);
    // The drive lists other partitions too, and in another order.
    let drive = listing(&[
        entry(1, 1, 1, ESP, old),
        entry(7, 7000000, 2000, ESP, &ids[1]),
        entry(6, 6000000, 1048576, BASIC, &ids[0].to_uppercase()),
    ]);
    let (run, action) = go(run.resume(CopyEvent::Listed(drive)));
    assert_eq!(
        action,
        CopyAction::Copy {
            command: dd_copy_data(Root::Image(0), Root::Device, 100, 6000000, 1000),
            from: 2,
            to: 6,
        }
    );
    assert_eq!(
        action.announcement("dir/a.iso"),
        Some(s("Copying ISO dir/a.iso partition 2 to device partition 6"))
    );
    let (run, action) = go(run.resume(CopyEvent::Done));
    assert_eq!(
        action,
        CopyAction::Copy {
            command: dd_copy_data(Root::Image(0), Root::Device, 1100, 7000000, 2000),
            from: 1,
            to: 7,
        }
    );
    let (run, action) = go(run.resume(CopyEvent::Done));
    assert_eq!(action, CopyAction::List(Root::Image(1)));
    let first = format!(
        "menuentry \"a.iso\" {{\n    volume {}\n    loader /EFI/BOOT/bootx64.efi\n}}\n",
        ids[1]
    );
    assert_eq!(run.config, first);

    // The second image has no name, and a partition table of the older kind.
    let image = s(r#"{"disk": {"label": "msdos", "partitions": [
        {"number": 1, "start": "0B", "size": "5B", "flags": ["boot", "esp"]}]}}"#);
    let (run, action) = go(run.resume(CopyEvent::Listed(image)));
    let ids = match &action {
        CopyAction::Create { wipe: false, device: Root::Device, script } => {
            let ids = asked_ids(script);
            assert_eq!(
                *script,
                format!(
                    "label: gpt\nsize=1MiB, bootable, uuid={}, type={}, name=\"part1\"\n",
                    ids[0], ESP
                )
            );
            ids
        }
        other => panic!("{:?}", other),
    };
    let (run, _) = go(run.resume(CopyEvent::Done));
    let drive = listing(&[entry(8, 8000000, 1048576, ESP, &ids[0])]);
    let (run, action) = go(run.resume(CopyEvent::Listed(drive)));
    assert_eq!(
        action,
        CopyAction::Copy {
            command: dd_copy_data(Root::Image(1), Root::Device, 0, 8000000, 5),
            from: 1,
            to: 8,
        }
    );
    assert_eq!(
        run.resume(CopyEvent::Done),
        CopyNext::Finish(format!(
            "{}menuentry \"ISO\" {{\n    volume {}\n    loader /EFI/BOOT/bootx64.efi\n}}\n\
             \ntimeout 30\nscanfor manual\n",
            first, ids[0]
        ))
    );
}

#[test]
fn an_image_without_partitions_is_passed_over() {
    let (run, ids) = up_to_device(vec![Some(s("a.iso"))], &listing(&[]));
    assert_eq!(ids, Vec::<String>::new());
    assert_eq!(
        run.resume(CopyEvent::Listed(listing(&[]))),
        CopyNext::Finish(s("\ntimeout 30\nscanfor manual\n"))
    );
}

#[test]
fn a_partition_that_does_not_fit_is_not_copied() {
    let old = "00000000-0000-0000-0000-00000000000a";
    let image = listing(&[entry(3, 0, 1000, BASIC, old)]);
    let (run, ids) = up_to_device(vec![None], &image);
    let drive = listing(&[entry(4, 0, 999, BASIC, &ids[0])]);
    assert_eq!(
        run.resume(CopyEvent::Listed(drive)),
        CopyNext::Fail(format!(
            "Partition 3 on ISO {} is larger than destination partition {}",
            old, ids[0]
        ))
    );
}

#[test]
fn a_partition_that_was_not_created_is_named() {
    let old = "00000000-0000-0000-0000-00000000000a";
    let image = listing(&[entry(1, 0, 1, BASIC, old), entry(2, 1, 1, BASIC, old)]);
    let (run, ids) = up_to_device(vec![None], &image);
    let drive = listing(&[entry(4, 0, 999, BASIC, &ids[0])]);
    assert_eq!(
        run.resume(CopyEvent::Listed(drive)),
        CopyNext::Fail(format!("sfdisk did not create any partition with guid {}", ids[1]))
    );
}

#[test]
fn two_partitions_of_one_number_are_not_taken() {
    let old = "00000000-0000-0000-0000-00000000000a";
    let (run, _) = go(copy_partitions(vec![None]));
    let image = listing(&[entry(1, 0, 1, BASIC, old), entry(257, 1, 1, BASIC, old)]);
    assert_eq!(run.resume(CopyEvent::Listed(image)), CopyNext::Abort);
}

#[test]
fn a_listing_without_units_is_not_taken() {
    let bare = r#"{"disk": {"label": "msdos", "partitions": [{"number": 1, "size": ""}]}}"#;
    let (run, _) = go(copy_partitions(vec![None]));
    assert_eq!(run.resume(CopyEvent::Listed(s(bare))), CopyNext::Abort);
    let (run, _) = up_to_device(vec![None], &listing(&[]));
    assert_eq!(run.resume(CopyEvent::Listed(s(bare))), CopyNext::Abort);
}

#[test]
fn a_listing_that_cannot_be_read_ends_a_run() {
    let (run, _) = go(copy_partitions(vec![None]));
    assert_eq!(
        run.resume(CopyEvent::Listed(s("?"))),
        CopyNext::Fail(s("Json incorrectly formatted"))
    );
    let (run, _) = up_to_device(vec![None], &listing(&[]));
    assert_eq!(
        run.resume(CopyEvent::Listed(s("{}"))),
        CopyNext::Fail(s("JSON incorrectly formatted"))
    );
}

#[test]
fn a_failed_action_ends_a_run() {
    let failed = || CopyEvent::Failed(s("why"));
    let expected = CopyNext::Fail(s("why"));
    let (run, _) = go(copy_partitions(vec![None]));
    assert_eq!(run.resume(failed()), expected);
    let old = "00000000-0000-0000-0000-00000000000a";
    let image = listing(&[entry(1, 0, 1, BASIC, old)]);
    let (run, _) = go(copy_partitions(vec![None]));
    let (run, _) = go(run.resume(CopyEvent::Listed(image.clone())));
    assert_eq!(run.resume(failed()), expected);
    let (run, _) = up_to_device(vec![None], &image);
    assert_eq!(run.resume(failed()), expected);
    let (run, ids) = up_to_device(vec![None], &image);
    let drive = listing(&[entry(1, 0, 1, BASIC, &ids[0])]);
    let (run, _) = go(run.resume(CopyEvent::Listed(drive)));
    assert_eq!(run.resume(failed()), expected);
}

#[test]
fn created_partitions_are_found_by_identifier() {
    let disk = vec![part(0, 1), part(0, 2)];
    let drive = vec![part(1, 2), part(2, 1), part(3, 2)];
    assert_eq!(find_created(&disk, &drive), Ok(vec![part(2, 1), part(1, 2)]));
    assert_eq!(find_created(&disk, &vec![part(1, 2)]), Err(Uuid { value: 1 }));
    assert_eq!(find_created(&disk, &vec![]), Err(Uuid { value: 1 }));
    assert_eq!(find_created(&vec![], &drive), Ok(vec![]));
}

#[test]
fn known_partitions_take_a_run_on() {
    let id = Uuid { value: 0x12345678_9abc_4def_8123_456789abcdef };
    let iso = vec![part(1, 5)];
    let disk = vec![disk_part_with_uuid(&iso[0], id)];
    let (run, _) = go(copy_partitions(vec![Some(s("a"))]));
    let (run, action) = go(run.image_listed(iso.clone(), disk.clone()));
    assert_eq!(
        action,
        CopyAction::Create {
            wipe: false,
            device: Root::Device,
            script: format!(
                "label: gpt\nsize=1MiB, uuid=12345678-9abc-4def-8123-456789abcdef, type={}, \
                 name=\"part1\"\n",
                ESP
            ),
        }
    );
    assert_eq!(
        run.phase,
        CopyPhase::Create { iso_parts: iso.clone(), disk_parts: disk.clone() }
    );
    let mut on_drive = part(9, id.value);
    on_drive.start = 4096;
    let (_, action) = go(run.device_listed(iso, disk, &vec![on_drive]));
    assert_eq!(
        action,
        CopyAction::Copy {
            command: dd_copy_data(Root::Image(0), Root::Device, 0, 4096, 10),
            from: 1,
            to: 9,
        }
    );
}
