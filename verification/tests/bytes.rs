use jbmf_parser::bytes::{
    read_bytes, read_i16, read_i32, read_i64, read_u16, read_u32, read_u64, read_u8, write_i16, write_i32, write_i64,
    write_u16, write_u32, write_u64, write_u8,
};
use jbmf_parser::{Error, JavaVersion};

const DATA: [u8; 9] = [0x80, 0x01, 0x02, 0x03, 0x04, 0x05, 0x06, 0x07, 0xFF];

#[test]
fn reads_are_big_endian() {
    assert_eq!(Ok((0x80, 1)), read_u8(&DATA, 0));
    assert_eq!(Ok((0x8001, 2)), read_u16(&DATA, 0));
    assert_eq!(Ok((0x0102, 3)), read_u16(&DATA, 1));
    assert_eq!(Ok((0x8001_0203, 4)), read_u32(&DATA, 0));
    assert_eq!(Ok((0x8001_0203_0405_0607, 8)), read_u64(&DATA, 0));
    assert_eq!(Ok((0x0102_0304_0506_07FF, 9)), read_u64(&DATA, 1));
}

#[test]
fn signed_reads_are_twos_complement() {
    assert_eq!(Ok((-32767, 2)), read_i16(&DATA, 0));
    assert_eq!(Ok((0x07FF, 9)), read_i16(&DATA, 7));
    assert_eq!(Ok((-2147417597, 4)), read_i32(&DATA, 0));
    assert_eq!(Ok((-9223088349902469625, 8)), read_i64(&DATA, 0));
    assert_eq!(Ok((-1, 2)), read_i16(&[0xFF, 0xFF], 0));
    assert_eq!(Ok((i32::MIN, 4)), read_i32(&[0x80, 0, 0, 0], 0));
    assert_eq!(Ok((i64::MIN, 8)), read_i64(&[0x80, 0, 0, 0, 0, 0, 0, 0], 0));
}

#[test]
fn reads_stop_at_the_end() {
    assert_eq!(Err(Error::UnexpectedEof), read_u8(&DATA, 9));
    assert_eq!(Err(Error::UnexpectedEof), read_u16(&DATA, 8));
    assert_eq!(Err(Error::UnexpectedEof), read_u32(&DATA, 6));
    assert_eq!(Err(Error::UnexpectedEof), read_u64(&DATA, 2));
    assert_eq!(Err(Error::UnexpectedEof), read_u16(&DATA, usize::MAX));
    assert_eq!(Ok((vec![0x02, 0x03], 4)), read_bytes(&DATA, 2, 2));
    assert_eq!(Ok((Vec::new(), 9)), read_bytes(&DATA, 9, 0));
    assert_eq!(Err(Error::UnexpectedEof), read_bytes(&DATA, 2, 8));
}

#[test]
fn writes_are_big_endian() {
    let mut out = vec![9];
    write_u8(&mut out, 0xAB);
    write_u16(&mut out, 0x0102);
    write_u32(&mut out, 0xCAFEBABE);
    write_u64(&mut out, 0x0102_0304_0506_0708);
    assert_eq!(vec![9, 0xAB, 1, 2, 0xCA, 0xFE, 0xBA, 0xBE, 1, 2, 3, 4, 5, 6, 7, 8], out);
}

#[test]
fn signed_writes_are_twos_complement() {
    let mut out = Vec::new();
    write_i16(&mut out, -2);
    write_i32(&mut out, -1_000_000);
    write_i64(&mut out, i64::MIN + 1);
    write_i16(&mut out, 258);
    assert_eq!(vec![0xFF, 0xFE, 0xFF, 0xF0, 0xBD, 0xC0, 0x80, 0, 0, 0, 0, 0, 0, 1, 1, 2], out);
    assert_eq!(Ok((-1_000_000, 6)), read_i32(&out, 2));
}

#[test]
fn versions_compare_major_then_minor() {
    let v = JavaVersion { major: 49, minor: 0 };
    assert!(v.supports(45, 3));
    assert!(v.supports(49, 0));
    assert!(!v.supports(49, 1));
    assert!(!v.supports(50, 0));
    assert!(v.supports_version(&JavaVersion { major: 48, minor: 65535 }));
    assert!(!JavaVersion { major: 45, minor: 2 }.supports(45, 3));
}
