use infotrash::record::{DecodeError, Record};

fn record_bytes(header: u64, size: u64, ticks: u64, name_len: u32, name: &[u8]) -> Vec<u8> {
    let mut v = Vec::new();
    v.extend_from_slice(&header.to_le_bytes());
    v.extend_from_slice(&size.to_le_bytes());
    let low = (ticks & 0xFFFF_FFFF) as u32;
    let high = (ticks >> 32) as u32;
    v.extend_from_slice(&low.to_le_bytes());
    v.extend_from_slice(&high.to_le_bytes());
    v.extend_from_slice(&name_len.to_le_bytes());
    v.extend_from_slice(name);
    v
}

#[test]
fn decodes_fixed_fields() {
    let b = record_bytes(
        0x0000000200000001,
        4096,
        116444736000000000,
        12,
        b"f\0o\0o\0\0\0",
    );
    let rec = Record::from_bytes(&b).unwrap();
    assert_eq!(rec.header, 0x0000000200000001);
    assert_eq!(rec.file_size, 4096);
    assert_eq!(rec.deletion_time, 116444736000000000);
    assert_eq!(rec.name_length, 12);
    assert_eq!(rec.file_name, "foo\0");
}

#[test]
fn insufficient_data_on_short_buffer() {
    assert_eq!(Record::from_bytes(&[]).unwrap_err(), DecodeError::InsufficientData);
    let short = vec![0u8; 27];
    assert_eq!(Record::from_bytes(&short).unwrap_err(), DecodeError::InsufficientData);
}

#[test]
fn exactly_fixed_fields_gives_empty_name() {
    let b = vec![0u8; 28];
    let rec = Record::from_bytes(&b).unwrap();
    assert_eq!(rec.file_name, "");
    assert_eq!(rec.name_length, 0);
}

#[test]
fn fields_read_little_endian() {
    // A two-byte pattern in the size field: little-endian gives 0x0201.
    let mut b = vec![0u8; 28];
    b[8] = 0x01;
    b[9] = 0x02;
    let rec = Record::from_bytes(&b).unwrap();
    assert_eq!(rec.file_size, 0x0201);

    // Swapping the bytes of the field changes the decoded value.
    let mut swapped = vec![0u8; 28];
    swapped[8] = 0x02;
    swapped[9] = 0x01;
    let rec2 = Record::from_bytes(&swapped).unwrap();
    assert_eq!(rec2.file_size, 0x0102);
    assert_ne!(rec.file_size, rec2.file_size);
}

#[test]
fn deletion_time_low_then_high() {
    // The 32-bit half at offset 16 is the low word, the one at 20 the high.
    let mut b = vec![0u8; 28];
    b[16] = 1;
    let rec = Record::from_bytes(&b).unwrap();
    assert_eq!(rec.deletion_time, 1);

    let mut b2 = vec![0u8; 28];
    b2[20] = 1;
    let rec2 = Record::from_bytes(&b2).unwrap();
    assert_eq!(rec2.deletion_time, 1u64 << 32);
}

#[test]
fn odd_trailing_name_byte_is_dropped() {
    let b = record_bytes(0, 0, 0, 6, b"a\0b\0X");
    let rec = Record::from_bytes(&b).unwrap();
    assert_eq!(rec.file_name, "ab");
}

#[test]
fn lone_surrogate_becomes_replacement_character() {
    // Units: 'a', an unpaired high surrogate, 'b'.
    let name: &[u8] = &[0x61, 0x00, 0x00, 0xD8, 0x62, 0x00];
    let b = record_bytes(0, 0, 0, 6, name);
    let rec = Record::from_bytes(&b).unwrap();
    assert_eq!(rec.file_name, "a\u{FFFD}b");
}

#[test]
fn lone_low_surrogate_becomes_replacement_character() {
    // Units: a low surrogate with no opening high surrogate, then 'x'.
    let name: &[u8] = &[0x37, 0xDC, 0x78, 0x00];
    let b = record_bytes(0, 0, 0, 4, name);
    let rec = Record::from_bytes(&b).unwrap();
    assert_eq!(rec.file_name, "\u{FFFD}x");
}

#[test]
fn valid_surrogate_pair_decodes_to_supplementary_character() {
    // Units 0xD801, 0xDC37 encode U+10437.
    let name: &[u8] = &[0x01, 0xD8, 0x37, 0xDC];
    let b = record_bytes(0, 0, 0, 4, name);
    let rec = Record::from_bytes(&b).unwrap();
    assert_eq!(rec.file_name, "\u{10437}");
}

#[test]
fn name_length_is_reproduced_not_recomputed() {
    // The stored length disagrees with the name region on purpose; the
    // decoder must hand the stored value through unchanged.
    let b = record_bytes(0, 0, 0, 1000, b"a\0");
    let rec = Record::from_bytes(&b).unwrap();
    assert_eq!(rec.name_length, 1000);
    assert_eq!(rec.file_name, "a");
}
