use chaudloader::mpak::{Mpak, MpakError};

#[test]
fn insert_keeps_first_position_and_returns_old_value() {
    let mut m = Mpak::new();
    assert_eq!(m.insert(0x20, b"a".to_vec()), None);
    assert_eq!(m.insert(0x10, b"bb".to_vec()), None);
    assert_eq!(m.insert(0x20, b"ccc".to_vec()), Some(b"a".to_vec()));
    assert_eq!(m.len(), 2);
    assert_eq!(m.get(0x20), Some(&b"ccc"[..]));
    assert_eq!(m.get(0x30), None);
}

#[test]
fn write_then_read_back() {
    let mut m = Mpak::new();
    m.insert(0x20, b"ccc".to_vec());
    m.insert(0x10, b"bb".to_vec());
    let (map, data) = m.write_into();
    let mut expected_map = Vec::new();
    for v in [2u32, 0x10, 0x20, 0x20, 0, 3, 0x10, 3, 2] {
        expected_map.extend_from_slice(&v.to_le_bytes());
    }
    assert_eq!(map, expected_map);
    assert_eq!(data, b"cccbb".to_vec());
    let back = Mpak::read_from(&map, &data).unwrap();
    assert_eq!(back.len(), 2);
    assert_eq!(back.get(0x10), Some(&b"bb"[..]));
    assert_eq!(back.get(0x20), Some(&b"ccc"[..]));
}

#[test]
fn empty_pack() {
    let (map, data) = Mpak::new().write_into();
    assert_eq!(map, vec![0u8; 12]);
    assert!(data.is_empty());
    assert_eq!(Mpak::read_from(&map, &data).unwrap().len(), 0);
}

#[test]
fn truncated_inputs_are_refused() {
    assert!(matches!(Mpak::read_from(&[0u8; 8], &[]), Err(MpakError::UnexpectedEof)));
    let mut map = Vec::new();
    for v in [1u32, 0, 0] {
        map.extend_from_slice(&v.to_le_bytes());
    }
    assert!(matches!(Mpak::read_from(&map, &[]), Err(MpakError::UnexpectedEof)));
    for v in [7u32, 2, 5] {
        map.extend_from_slice(&v.to_le_bytes());
    }
    assert!(matches!(Mpak::read_from(&map, b"abcd"), Err(MpakError::UnexpectedEof)));
    let m = Mpak::read_from(&map, b"abcdefg").unwrap();
    assert_eq!(m.get(7), Some(&b"cdefg"[..]));
}
