use multiiso::guid::Uuid;
use multiiso::json::{parse_json, Json};
use multiiso::part::{Part, ESP_UUID};
use multiiso::parted::{
    checked_read_listing, checked_read_parted_json, ends_in_unit, read_entry, read_listing,
    read_parted_json, sequence,
};

const GPT: &str = r#"{
   "disk": {
      "path": "/tmp/a.iso", "size": "1000B", "label": "gpt",
      "partitions": [
         { "number": 1, "start": "32768B", "end": "1B", "size": "4096B",
           "type": "primary", "type-uuid": "ebd0a0a2-b9e5-4433-87c0-68b6b72699c7",
           "uuid": "A0891D7E-B930-4513-94D8-F629DBD637B2", "name": "ISO9660", "flags": ["hidden"] },
         { "number": 258, "start": "36864B", "size": "+512B",
           "type-uuid": "C12A7328-F81F-11D2-BA4B-00A0C93EC93B",
           "uuid": "{a0891d7e-b930-4513-94d8-f629dbd637b3}", "name": "",
           "flags": ["boot", 7, "esp"] }
      ]
   }
}"#;

fn text(s: &str) -> Json {
    Json::Text(String::from(s))
}

fn object(fields: Vec<(&str, Json)>) -> Json {
    Json::Object(fields.into_iter().map(|(k, v)| (String::from(k), v)).collect())
}

fn entry(size: Json, start: Json) -> Json {
    object(vec![
        ("number", Json::Number(Some(3))),
        ("size", size),
        ("start", start),
        ("flags", Json::Array(vec![text("esp")])),
    ])
}

fn disk(label: &str, entries: Vec<Json>) -> Json {
    object(vec![(
        "disk",
        object(vec![("label", text(label)), ("partitions", Json::Array(entries))]),
    )])
}

#[test]
fn a_gpt_listing_is_read() {
    let parts = read_parted_json(GPT).unwrap();
    assert_eq!(
        parts,
        vec![
            Part {
                number: 1,
                start: 32768,
                size: 4096,
                type_uuid: Uuid { value: 0xebd0a0a2_b9e5_4433_87c0_68b6b72699c7 },
                part_uuid: Uuid { value: 0xa0891d7e_b930_4513_94d8_f629dbd637b2 },
                name: String::from("ISO9660"),
                flag_boot: false,
                flag_esp: false,
            },
            Part {
                number: 2,
                start: 36864,
                size: 512,
                type_uuid: Uuid { value: ESP_UUID },
                part_uuid: Uuid { value: 0xa0891d7e_b930_4513_94d8_f629dbd637b3 },
                name: String::new(),
                flag_boot: true,
                flag_esp: true,
            },
        ]
    );
    assert_eq!(checked_read_parted_json(GPT), Some(Ok(parts)));
}

#[test]
fn an_msdos_listing_has_no_identifiers() {
    let doc = disk("msdos", vec![entry(text("10B"), text("20B"))]);
    let parts = read_listing(&doc).unwrap();
    assert_eq!(parts.len(), 1);
    assert_eq!(parts[0].type_uuid, Uuid { value: 0 });
    assert_eq!(parts[0].part_uuid, Uuid { value: 0 });
    assert_eq!(parts[0].name, "");
    assert_eq!((parts[0].number, parts[0].size, parts[0].start), (3, 10, 20));
    assert!(parts[0].flag_esp && !parts[0].flag_boot);
}

#[test]
fn a_text_that_is_no_json_is_refused() {
    assert_eq!(read_parted_json("{"), Err("Json incorrectly formatted"));
    assert_eq!(read_parted_json(""), Err("Json incorrectly formatted"));
    assert_eq!(read_parted_json("{} {}"), Err("Json incorrectly formatted"));
}

#[test]
fn a_listing_without_a_label_is_refused() {
    for json in [
        "1",
        "[]",
        "{}",
        r#"{"disk": 1}"#,
        r#"{"disk": {}}"#,
        r#"{"disk": {"label": 1, "partitions": []}}"#,
    ] {
        assert_eq!(read_parted_json(json), Err("JSON incorrectly formatted"), "{}", json);
    }
}

#[test]
fn other_labels_are_refused() {
    for label in ["loop", "GPT", ""] {
        assert_eq!(
            read_listing(&disk(label, vec![])),
            Err("Disk isn't formatted as gpt or msdos")
        );
    }
}

#[test]
fn a_listing_without_partitions_is_refused() {
    for json in [
        r#"{"disk": {"label": "gpt"}}"#,
        r#"{"disk": {"label": "gpt", "partitions": {}}}"#,
        r#"{"disk": {"label": "msdos", "partitions": [1]}}"#,
        r#"{"disk": {"label": "msdos", "partitions": [{}]}}"#,
    ] {
        assert_eq!(read_parted_json(json), Err("Error processing partition json"), "{}", json);
    }
    assert_eq!(read_parted_json(r#"{"disk": {"label": "gpt", "partitions": []}}"#), Ok(vec![]));
}

#[test]
fn an_entry_needs_all_its_fields() {
    let fields = [
        r#""number": 1"#,
        r#""size": "1B""#,
        r#""start": "1B""#,
        r#""type-uuid": "ebd0a0a2b9e5443387c068b6b72699c7""#,
        r#""uuid": "urn:uuid:ebd0a0a2-b9e5-4433-87c0-68b6b72699c7""#,
        r#""name": "n""#,
        r#""flags": []"#,
    ];
    let listing = |skip: usize| {
        let kept: Vec<&str> =
            fields.iter().enumerate().filter(|(i, _)| *i != skip).map(|(_, f)| *f).collect();
        format!(r#"{{"disk": {{"label": "gpt", "partitions": [{{{}}}]}}}}"#, kept.join(", "))
    };
    assert_eq!(read_parted_json(&listing(fields.len())).unwrap().len(), 1);
    for skip in 0..fields.len() {
        assert_eq!(read_parted_json(&listing(skip)), Err("Error processing partition json"));
    }
}

#[test]
fn numbers_must_be_unsigned_integers() {
    for number in ["-1", "1.5", "\"1\"", "18446744073709551616"] {
        let json = format!(
            r#"{{"disk": {{"label": "msdos", "partitions": [
                {{"number": {}, "size": "1B", "start": "1B", "flags": []}}]}}}}"#,
            number
        );
        assert_eq!(read_parted_json(&json), Err("Error processing partition json"), "{}", number);
    }
}

#[test]
fn identifiers_are_read_in_every_notation() {
    let expected = Uuid { value: 0x67e55044_10b1_426f_9247_bb680e5fe0c8 };
    let read = |s: &str| {
        let e = object(vec![
            ("number", Json::Number(Some(1))),
            ("size", text("1B")),
            ("start", text("1B")),
            ("type-uuid", text(s)),
            ("uuid", text("00000000000000000000000000000001")),
            ("name", text("")),
            ("flags", Json::Array(vec![])),
        ]);
        read_entry(&e, true).map(|p| p.type_uuid)
    };
    for s in [
        "67e5504410b1426f9247bb680e5fe0c8",
        "67E55044-10B1-426F-9247-BB680E5FE0C8",
        "{67e55044-10b1-426f-9247-bb680e5fe0c8}",
        "urn:uuid:67e55044-10b1-426f-9247-bb680e5fe0c8",
        "URN:UUID:67e55044-10b1-426f-9247-bb680e5fe0c8",
    ] {
        assert_eq!(read(s), Some(expected), "{}", s);
    }
    for s in [
        "",
        "67e5504410b1426f9247bb680e5fe0c",
        "67e5504410b1426f9247bb680e5fe0cg",
        "67e55044-10b1-426f-9247+bb680e5fe0c8",
        "67e550-4410b1-426f-9247-bb680e5fe0c8",
        "{67e5504410b1426f9247bb680e5fe0c8}",
        "(67e55044-10b1-426f-9247-bb680e5fe0c8)",
        "urn:uuid;67e55044-10b1-426f-9247-bb680e5fe0c8",
        "\u{e9}7e5504410b1426f9247bb680e5fe0",
        "\u{e9}7e5504410b1426f9247bb680e5fe0c8",
    ] {
        assert_eq!(read(s), None, "{}", s);
    }
}

#[test]
fn quantities_without_a_unit_are_not_taken() {
    let unit_less = |size: Json, start: Json| {
        checked_read_listing(&disk("msdos", vec![entry(size, start)])).is_none()
    };
    assert!(unit_less(text(""), text("1B")));
    assert!(unit_less(text("1B"), text("")));
    assert!(unit_less(text("1\u{b5}"), text("1B")));
    // The start is not looked at where the size is no number.
    assert!(!unit_less(text("xB"), text("")));
    assert!(!unit_less(Json::Null, text("")));
    assert!(!unit_less(text("1B"), Json::Null));
    // Nor is an entry behind one that holds no partition.
    let doc = disk("msdos", vec![Json::Null, entry(text(""), text(""))]);
    assert_eq!(checked_read_listing(&doc), Some(Err("Error processing partition json")));
    let doc = disk("msdos", vec![entry(text("1B"), text("1B")), entry(text(""), text(""))]);
    assert_eq!(checked_read_listing(&doc), None);
    assert_eq!(checked_read_parted_json(r#"{"disk": {"label": "msdos", "partitions":
        [{"number": 1, "size": ""}]}}"#), None);
    assert!(ends_in_unit("1B") && !ends_in_unit("") && !ends_in_unit("1\u{e9}"));
}

#[test]
fn a_sequence_needs_every_value() {
    assert_eq!(sequence(&mut vec![Some(1), Some(2)].into_iter()), Some(vec![1, 2]));
    assert_eq!(sequence(&mut vec![Some(1), None, Some(3)].into_iter()), None);
    assert_eq!(sequence(&mut Vec::<Option<u8>>::new().into_iter()), Some(vec![]));
}

#[test]
fn a_sequence_draws_nothing_behind_a_missing_value() {
    let mut it = vec![Some(1), None, Some(3)].into_iter();
    assert_eq!(sequence(it.by_ref()), None);
    assert_eq!(it.next(), Some(Some(3)));
    assert_eq!(it.next(), None);
    let mut it = vec![Some(1), Some(2)].into_iter();
    assert_eq!(sequence(it.by_ref()), Some(vec![1, 2]));
    assert_eq!(it.next(), None);
}

#[test]
fn documents_are_read() {
    let doc = parse_json(r#"{"b": [null, true, 1, -1, 1.5, "x"], "a": {}}"#).unwrap();
    assert_eq!(
        doc,
        object(vec![
            ("a", object(vec![])),
            (
                "b",
                Json::Array(vec![
                    Json::Null,
                    Json::Bool(true),
                    Json::Number(Some(1)),
                    Json::Number(None),
                    Json::Number(None),
                    text("x"),
                ])
            ),
        ])
    );
    assert_eq!(parse_json("nul"), None);
    // The last of two fields of one name counts.
    assert_eq!(parse_json(r#"{"a": 1, "a": 2}"#).unwrap().u64_field("a"), Some(2));
}

#[test]
fn fields_are_found_by_name() {
    let doc = object(vec![("n", Json::Number(Some(1))), ("n", Json::Null), ("t", text("x"))]);
    assert_eq!(doc.u64_field("n"), Some(1));
    assert_eq!(doc.u64_field("t"), None);
    assert_eq!(doc.text_field("t"), Some(&String::from("x")));
    assert_eq!(doc.text_field("n"), None);
    assert_eq!(doc.array_field("t"), None);
    assert_eq!(doc.field("x"), None);
    assert_eq!(text("n").field("n"), None);
}
