use multiiso::gpt::{checked_gpt_data, get_gpt_data, GptReader};
use multiiso::guid::Uuid;
use multiiso::mbr::{get_mbr_data, MbrReader};
use multiiso::part::{Part, ESP_UUID, LINUX_DATA_TYPE, MS_BASIC_TYPE};
use multiiso::partition_reader::{checked_device_parts, get_device_parts, DeviceReader};
use multiiso::table::{Progress, Request, TableError};

fn mbr_record(device: &mut [u8], i: usize, flag: u8, os_type: u8, start: u32, size: u32) {
    let at = 446 + 16 * i;
    device[at] = flag;
    device[at + 4] = os_type;
    device[at + 8..at + 12].copy_from_slice(&start.to_le_bytes());
    device[at + 12..at + 16].copy_from_slice(&size.to_le_bytes());
}

const ESP_BYTES: [u8; 16] = [
    0x28, 0x73, 0x2A, 0xC1, 0x1F, 0xF8, 0xD2, 0x11, 0xBA, 0x4B, 0x00, 0xA0, 0xC9, 0x3E, 0xC9, 0x3B,
];

fn gpt_device(table_lba: u64, count: u32, entry_size: u32, len: usize) -> Vec<u8> {
    let mut device = vec![0u8; len];
    device[0x200..0x208].copy_from_slice(b"EFI PART");
    device[0x248..0x250].copy_from_slice(&table_lba.to_le_bytes());
    device[0x250..0x254].copy_from_slice(&count.to_le_bytes());
    device[0x254..0x258].copy_from_slice(&entry_size.to_le_bytes());
    device
}

fn gpt_entry(device: &mut [u8], at: usize, types: &[u8; 16], first: u64, last: u64, name: &[u16]) {
    device[at..at + 16].copy_from_slice(types);
    device[at + 16..at + 32].copy_from_slice(&[
        1, 2, 3, 4, 5, 6, 7, 8, 9, 10, 11, 12, 13, 14, 15, 16,
    ]);
    device[at + 32..at + 40].copy_from_slice(&first.to_le_bytes());
    device[at + 40..at + 48].copy_from_slice(&last.to_le_bytes());
    device[at + 48..at + 56].copy_from_slice(&[0xff; 8]);
    for (i, unit) in name.iter().enumerate() {
        device[at + 56 + 2 * i..at + 58 + 2 * i].copy_from_slice(&unit.to_le_bytes());
    }
}

fn units(s: &str) -> Vec<u16> {
    s.encode_utf16().collect()
}

#[test]
fn a_master_boot_record_is_read() {
    let mut device = vec![0u8; 512];
    mbr_record(&mut device, 0, 0x80, 0xEF, 64, 8);
    mbr_record(&mut device, 1, 0x00, 0x83, 100, 0);
    mbr_record(&mut device, 2, 0x7f, 0x82, u32::MAX, u32::MAX);
    mbr_record(&mut device, 3, 0xff, 0x00, 0, 1);
    let part = |number, start, size, value: u128, flag_boot, flag_esp| Part {
        number,
        start,
        size,
        type_uuid: Uuid { value },
        part_uuid: Uuid { value: 0 },
        name: String::new(),
        flag_boot,
        flag_esp,
    };
    let expected = vec![
        part(1, 64 * 512, 8 * 512, ESP_UUID, true, true),
        part(3, 4294967295 * 512, 4294967295 * 512, LINUX_DATA_TYPE, false, false),
        part(4, 0, 512, MS_BASIC_TYPE, true, false),
    ];
    assert_eq!(get_mbr_data(&device), Ok(Some(expected.clone())));
    assert_eq!(get_mbr_data(&device[..510]), Ok(Some(expected.clone())));
    assert_eq!(get_device_parts(&device), Ok(expected));
}

#[test]
fn system_identifiers_have_types() {
    for (os_type, value) in [
        (0x07u8, MS_BASIC_TYPE),
        (0x0F, MS_BASIC_TYPE),
        (0x27, MS_BASIC_TYPE),
        (0x82, LINUX_DATA_TYPE),
        (0x84, LINUX_DATA_TYPE),
        (0xEF, ESP_UUID),
        (0x83, MS_BASIC_TYPE),
        (0x00, MS_BASIC_TYPE),
    ] {
        let mut device = vec![0u8; 512];
        mbr_record(&mut device, 0, 0, os_type, 1, 1);
        let parts = get_mbr_data(&device).unwrap().unwrap();
        assert_eq!(parts[0].type_uuid.value, value);
        assert_eq!(parts[0].flag_esp, value == ESP_UUID);
    }
}

#[test]
fn a_protective_record_yields_nothing() {
    let mut device = vec![0u8; 512];
    mbr_record(&mut device, 0, 0, 0x83, 1, 1);
    mbr_record(&mut device, 3, 0, 0xEE, 1, 1);
    assert_eq!(get_mbr_data(&device), Ok(None));
    // The type is enough to know it.
    assert_eq!(get_mbr_data(&device[..446 + 48 + 5]), Ok(None));
    assert_eq!(get_mbr_data(&device[..446 + 48 + 4]), Err(TableError::Unreadable));
}

#[test]
fn a_short_device_has_no_master_boot_record() {
    let device = vec![0u8; 512];
    assert_eq!(get_mbr_data(&device), Ok(Some(vec![])));
    assert_eq!(get_mbr_data(&device[..509]), Err(TableError::Unreadable));
    assert_eq!(get_mbr_data(&[]), Err(TableError::Unreadable));
    assert_eq!(get_device_parts(&[]), Err(TableError::Unreadable));
}

#[test]
fn a_gpt_is_read() {
    let mut device = gpt_device(2, 2, 128, 2048);
    gpt_entry(&mut device, 1024, &ESP_BYTES, 64, 71, &units("EFI \u{1f4be}"));
    let mut other = [0u8; 16];
    other[0] = 1;
    gpt_entry(&mut device, 1152, &other, 72, 72, &[0x41, 0, 0x42]);
    let part_uuid = Uuid { value: 0x04030201_0605_0807_090a_0b0c0d0e0f10 };
    let expected = vec![
        Part {
            number: 1,
            start: 64 * 512,
            size: 8 * 512,
            type_uuid: Uuid { value: ESP_UUID },
            part_uuid,
            name: String::from("EFI \u{1f4be}"),
            flag_boot: false,
            flag_esp: true,
        },
        Part {
            number: 2,
            start: 72 * 512,
            size: 512,
            type_uuid: Uuid { value: 0x00000001_0000_0000_0000_000000000000 },
            part_uuid,
            name: String::from("AB"),
            flag_boot: false,
            flag_esp: false,
        },
    ];
    assert_eq!(get_gpt_data(&device), Ok(expected.clone()));
    assert_eq!(get_gpt_data(&device[..1280]), Ok(expected.clone()));
    assert_eq!(get_gpt_data(&device[..1279]), Err(TableError::Unreadable));
    assert_eq!(get_device_parts(&device), Ok(vec![]));
    mbr_record(&mut device, 0, 0, 0xEE, 1, 1);
    assert_eq!(get_device_parts(&device), Ok(expected));
}

#[test]
fn a_name_that_is_no_utf16_is_empty() {
    let mut device = gpt_device(2, 1, 128, 2048);
    gpt_entry(&mut device, 1024, &ESP_BYTES, 1, 1, &[0x41, 0xD800, 0x42]);
    assert_eq!(get_gpt_data(&device).unwrap()[0].name, "");
    gpt_entry(&mut device, 1024, &ESP_BYTES, 1, 1, &[0xDC00, 0xD800, 0x42]);
    assert_eq!(get_gpt_data(&device).unwrap()[0].name, "");
    gpt_entry(&mut device, 1024, &ESP_BYTES, 1, 1, &[0x7a; 36]);
    assert_eq!(get_gpt_data(&device).unwrap()[0].name, "z".repeat(36));
}

#[test]
fn an_entry_without_a_type_is_passed_over_by_its_type_alone() {
    let mut device = gpt_device(2, 20, 128, 2048);
    gpt_entry(&mut device, 1024, &ESP_BYTES, 1, 1, &[]);
    gpt_entry(&mut device, 1024 + 256, &ESP_BYTES, 2, 2, &[]);
    let numbers: Vec<u8> = get_gpt_data(&device).unwrap().iter().map(|p| p.number).collect();
    assert_eq!(numbers, vec![1, 10]);
}

#[test]
fn numbers_are_kept_in_eight_bits() {
    let mut device = gpt_device(2, 300, 128, 8192);
    gpt_entry(&mut device, 1024 + 16 * 255, &ESP_BYTES, 1, 1, &[]);
    assert_eq!(get_gpt_data(&device).unwrap()[0].number, 0);
}

#[test]
fn small_entries_are_stepped_over_by_more() {
    let mut device = gpt_device(2, 2, 96, 2048);
    gpt_entry(&mut device, 1024, &ESP_BYTES, 1, 1, &[]);
    gpt_entry(&mut device, 1024 + 160, &ESP_BYTES, 5, 5, &[]);
    let starts: Vec<u64> = get_gpt_data(&device).unwrap().iter().map(|p| p.start).collect();
    assert_eq!(starts, vec![512, 5 * 512]);
}

#[test]
fn a_device_without_a_signature_has_no_gpt() {
    let mut device = gpt_device(2, 0, 128, 1024);
    assert_eq!(get_gpt_data(&device), Ok(vec![]));
    assert_eq!(get_gpt_data(&device[..0x207]), Err(TableError::NotGpt));
    assert_eq!(get_gpt_data(&device[..0x257]), Err(TableError::Unreadable));
    device[0x207] = b'U';
    assert_eq!(get_gpt_data(&device), Err(TableError::NotGpt));
    assert_eq!(get_gpt_data(&[]), Err(TableError::NotGpt));
}

#[test]
fn what_cannot_be_computed_is_told_apart() {
    let overflow = |first: u64, last: u64, entry_size: u32| {
        let mut device = gpt_device(2, 1, entry_size, 2048);
        gpt_entry(&mut device, 1024, &ESP_BYTES, first, last, &[]);
        checked_gpt_data(&device).is_none()
    };
    assert!(!overflow(1, 1, 128));
    assert!(overflow(2, 1, 128));
    assert!(overflow(0, u64::MAX, 128));
    assert!(overflow(u64::MAX / 512 + 1, u64::MAX / 512 + 1, 128));
    assert!(!overflow(u64::MAX / 512, u64::MAX / 512, 128));
    assert!(!overflow(0, u64::MAX / 512 - 1, 128));
    assert!(overflow(0, u64::MAX / 512, 128));
    assert!(overflow(1, 1, 129));
    let far = gpt_device(u64::MAX / 512 + 1, 0, 128, 1024);
    assert_eq!(checked_gpt_data(&far), None);
    let mut far = gpt_device(u64::MAX / 512, 1, 128, 1024);
    assert_eq!(checked_gpt_data(&far), Some(Err(TableError::Unreadable)));
    assert_eq!(checked_device_parts(&far), Some(Ok(vec![])));
    mbr_record(&mut far, 0, 0, 0xEE, 1, 1);
    assert_eq!(checked_device_parts(&far), Some(Err(TableError::Unreadable)));
    // A size of the entries that is too large matters only where one is used.
    let unused = gpt_device(2, 4, 256, 2048);
    assert_eq!(checked_gpt_data(&unused), Some(Ok(vec![])));
}

#[test]
fn readers_ask_for_what_they_need() {
    let reader = MbrReader::start();
    assert_eq!(reader.request(), Request { offset: 446, len: 5 });
    let reader = match reader.resume(Some(&[0x80, 0, 0, 0, 0xEF])) {
        Progress::More(next) => next,
        other => panic!("{:?}", other),
    };
    assert_eq!(reader.request(), Request { offset: 454, len: 8 });
    assert!(matches!(reader.resume(None), Progress::Failed(TableError::Unreadable)));

    let reader = GptReader::start();
    assert_eq!(reader.request(), Request { offset: 0x200, len: 8 });
    assert!(matches!(reader.resume(None), Progress::Failed(TableError::NotGpt)));
    let reader = match GptReader::start().resume(Some(b"EFI PART")) {
        Progress::More(next) => next,
        other => panic!("{:?}", other),
    };
    assert_eq!(reader.request(), Request { offset: 0x248, len: 16 });
    let header = [2, 0, 0, 0, 0, 0, 0, 0, 1, 0, 0, 0, 128, 0, 0, 0];
    let reader = match reader.resume(Some(&header)) {
        Progress::More(next) => next,
        other => panic!("{:?}", other),
    };
    assert_eq!(reader.request(), Request { offset: 1024, len: 0 });
    let reader = match reader.resume(Some(&[])) {
        Progress::More(next) => next,
        other => panic!("{:?}", other),
    };
    assert_eq!(reader.request(), Request { offset: 1024, len: 16 });
    let reader = match reader.resume(Some(&ESP_BYTES)) {
        Progress::More(next) => next,
        other => panic!("{:?}", other),
    };
    assert_eq!(reader.request(), Request { offset: 1040, len: 112 });
}

#[test]
fn a_reader_of_a_device_goes_on_to_the_gpt() {
    let mut device = gpt_device(2, 1, 128, 2048);
    gpt_entry(&mut device, 1024, &ESP_BYTES, 1, 1, &units("x"));
    mbr_record(&mut device, 1, 0, 0xEE, 1, 1);
    let mut reader = DeviceReader::start();
    let mut offsets = Vec::new();
    let parts = loop {
        let request = reader.request();
        offsets.push(request.offset);
        let at = request.offset as usize;
        match reader.resume(Some(&device[at..at + request.len])) {
            Progress::More(next) => reader = next,
            Progress::Done(parts) => break parts,
            other => panic!("{:?}", other),
        }
    };
    assert_eq!(offsets, vec![446, 454, 462, 0x200, 0x248, 1024, 1024, 1040]);
    assert_eq!(Ok(parts), get_device_parts(&device));
}
