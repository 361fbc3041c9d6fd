use chaudloader::textarchive::{pack, unpack, TextArchiveError};

#[test]
fn test_pack_unpack_roundtrip() {
    let buf = pack(&vec![b"hello".to_vec(), b"world".to_vec()]);
    assert_eq!(buf, b"\x04\x00\x09\x00helloworld".to_vec());
    assert_eq!(
        unpack(&buf).unwrap(),
        vec![b"hello".to_vec(), b"world".to_vec()]
    );
}

#[test]
fn unpack_offsets_going_backwards() {
    let buf = b"\x04\x00\x03\x00uhoh";
    assert_eq!(unpack(buf), Err(TextArchiveError::OffsetWentBackwards(0)));
}

// The first offset, 0x0304, announces 386 entries, so the table runs past
// the six bytes there are: the data ends before the table does, which is an
// end-of-data error rather than an invalid-data one.
#[test]
fn test_pack_unpack_bad_offsets() {
    let buf = b"\x04\x03uhoh";
    assert_eq!(unpack(buf), Err(TextArchiveError::UnexpectedEof));
}

#[test]
fn unpack_entry_past_end() {
    let buf = b"\x04\x00\x20\x00ab";
    assert_eq!(unpack(buf), Err(TextArchiveError::UnexpectedEof));
}

#[test]
fn unpack_too_short_for_header() {
    assert_eq!(unpack(b"\x04"), Err(TextArchiveError::UnexpectedEof));
    assert_eq!(unpack(b""), Err(TextArchiveError::UnexpectedEof));
}

#[test]
fn pack_empty_and_single() {
    assert_eq!(pack(&vec![]), Vec::<u8>::new());
    let one = pack(&vec![b"abc".to_vec()]);
    assert_eq!(one, b"\x02\x00abc".to_vec());
    assert_eq!(unpack(&one).unwrap(), vec![b"abc".to_vec()]);
}

#[test]
fn unpack_small_first_offset_reads_one_entry() {
    assert_eq!(unpack(b"\x00\x00xyz").unwrap(), vec![b"xyz".to_vec()]);
}

#[test]
fn pack_offsets_wrap_at_sixteen_bits() {
    let big = vec![0u8; 70000];
    let buf = pack(&vec![big, b"z".to_vec()]);
    let second = 4 + 70000usize;
    assert_eq!(buf[0], 4);
    assert_eq!(buf[1], 0);
    assert_eq!(buf[2] as usize + 256 * buf[3] as usize, second % 65536);
}
