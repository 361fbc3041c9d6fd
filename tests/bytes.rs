use chaudloader::bytes::{Builder, ByteArray, IQ16_16, OutOfBounds, UQ16_16};

#[test]
fn builder_writes_little_endian() {
    let mut b = Builder::new();
    b.write_u8(1);
    b.write_u16_le(0x0302);
    b.write_u32_le(0x07060504);
    b.write_i8(-1);
    b.write_i16_le(-2);
    b.write_i32_le(-3);
    b.write(b"xy");
    assert_eq!(b.tell(), 16);
    assert_eq!(
        b.build(),
        vec![1, 2, 3, 4, 5, 6, 7, 0xff, 0xfe, 0xff, 0xfd, 0xff, 0xff, 0xff, b'x', b'y']
    );
}

#[test]
fn byte_array_get_and_set() {
    let mut a = ByteArray::new(b"hello".to_vec());
    assert_eq!(a.get(1, 3), Ok(b"ell".to_vec()));
    assert_eq!(a.get(3, 3), Err(OutOfBounds));
    a.set(1, b"w").unwrap();
    assert_eq!(a.to_vec(), b"hwllo".to_vec());
    assert_eq!(a.set(4, b"ab"), Err(OutOfBounds));
    assert_eq!(a.to_vec(), b"hwllo".to_vec());
}

#[test]
fn byte_array_integers() {
    let mut a = ByteArray::new(vec![0; 6]);
    a.set_u32_le(1, 0xdeadbeef).unwrap();
    assert_eq!(a.to_vec(), vec![0, 0xef, 0xbe, 0xad, 0xde, 0]);
    assert_eq!(a.get_u32_le(1), Ok(0xdeadbeef));
    assert_eq!(a.get_u16_le(4), Ok(0x00de));
    assert_eq!(a.get_u16_le(5), Err(OutOfBounds));
    a.set_i16_le(0, -2).unwrap();
    assert_eq!(a.get_i16_le(0), Ok(-2));
    a.set_i32_le(2, -5).unwrap();
    assert_eq!(a.get_i32_le(2), Ok(-5));
    a.set_i8(5, -1).unwrap();
    assert_eq!(a.get_i8(5), Ok(-1));
    assert_eq!(a.get_u8(5), Ok(0xff));
    assert_eq!(a.set_u8(6, 1), Err(OutOfBounds));
    assert_eq!(a.concat(&ByteArray::new(vec![9])).len(), 7);
}

#[test]
fn fixed_point_raw_bits() {
    assert_eq!(UQ16_16::from_u32(0x18000).into_u32(), 0x18000);
    assert_eq!(IQ16_16::from_i32(-0x8000).into_i32(), -0x8000);
}
