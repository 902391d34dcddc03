use multiiso::buffer::temp_buf as filled_buf;
use multiiso::bytes::{collect_to_array, read_le, read_padded_text};
use multiiso::partition_reader::temp_buf as array_buf;

#[test]
fn a_buffer_is_filled_by_one_call() {
    let (buf, n) = filled_buf(|b: &mut String| {
        b.push_str("abc");
        b.len()
    });
    assert_eq!((buf.as_str(), n), ("abc", 3));
    let (buf, empty) = filled_buf(|b: &mut Vec<u8>| b.is_empty());
    assert_eq!((buf, empty), (vec![], true));
}

#[test]
fn an_array_of_defaults_is_handed_on() {
    let sum = array_buf(|b: [u8; 4]| {
        assert_eq!(b, [0; 4]);
        b.len()
    });
    assert_eq!(sum, 4);
    assert_eq!(array_buf(|b: [bool; 0]| b.len()), 0);
}

#[test]
fn the_first_items_are_collected() {
    let mut it = vec![7u16, 8, 9].into_iter();
    assert_eq!(collect_to_array::<2, _, _>(it.by_ref()), [7, 8]);
    assert_eq!(it.next(), Some(9));
    let mut it = vec![7u16, 8, 9].into_iter();
    assert_eq!(collect_to_array::<3, _, _>(it.by_ref()), [7, 8, 9]);
    assert_eq!(it.next(), None);
    let empty: [u16; 0] = collect_to_array(&mut vec![].into_iter());
    assert_eq!(empty.len(), 0);
}

#[test]
fn numbers_are_little_endian() {
    let bytes = [0xff, 0x01, 0x02, 0x03, 0x04, 0x05, 0x06, 0x07, 0x08];
    assert_eq!(read_le(&bytes, 1, 8), 0x0807060504030201);
    assert_eq!(read_le(&bytes, 0, 2), 0x01ff);
    assert_eq!(read_le(&bytes, 9, 0), 0);
    assert_eq!(read_le(&[0xff; 8], 0, 8), u64::MAX);
}

#[test]
fn padding_is_dropped_wherever_it_stands() {
    let mut field = [0u8; 72];
    field[2] = b'a';
    field[70] = 0xe9;
    assert_eq!(read_padded_text(&field), "a\u{e9}");
    // The halves of a pair may be apart.
    field[2..4].copy_from_slice(&[0x3d, 0xd8]);
    field[70..72].copy_from_slice(&[0xbe, 0xdc]);
    assert_eq!(read_padded_text(&field), "\u{1f4be}");
}
