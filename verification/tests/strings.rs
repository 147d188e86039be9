use jbmf_parser::attribute::CustomAttribute;
use jbmf_parser::io::{AttributeLocation, ReadContext};
use jbmf_parser::java_utf8::{read_string, write_string};
use jbmf_parser::{ConstantPool, ConstantPoolIndex, Error, JavaVersion, UtfConversionError};

#[test]
fn strings_are_length_prefixed() {
    let mut out = vec![7];
    write_string(&"a\0\u{10000}".to_string(), &mut out);
    assert_eq!(vec![7, 0, 9, b'a', 0xC0, 0x80, 0xED, 0xA0, 0x80, 0xED, 0xB0, 0x80], out);
    assert_eq!(Ok(("a\0\u{10000}".to_string(), 12)), read_string(&out, 1));
    assert_eq!(Ok((String::new(), 2)), read_string(&[0, 0], 0));
    assert_eq!(Err(Error::UnexpectedEof), read_string(&[0, 3, b'a'], 0));
    assert_eq!(Err(Error::UnexpectedEof), read_string(&[0], 0));
    assert_eq!(
        Err(Error::UtfConversionError(UtfConversionError::UnexpectedEndOfData)),
        read_string(&[0, 1, 0xC3], 0)
    );
    assert_eq!(
        Err(Error::UtfConversionError(UtfConversionError::InvalidJavaUtf8(vec![0]))),
        read_string(&[0, 1, 0], 0)
    );
}

#[test]
fn custom_attribute_takes_name_and_length_from_the_context() {
    let pool = ConstantPool(Vec::new());
    let ctx =
        ReadContext::new(JavaVersion { major: 52, minor: 0 }, &pool, AttributeLocation::ClassFile).inside(ConstantPoolIndex(6), 3);
    let (custom, end) = CustomAttribute::read(&[9, 1, 2, 3, 4], 1, &ctx).unwrap();
    assert_eq!(4, end);
    assert_eq!(CustomAttribute { name: ConstantPoolIndex(6), length: 3, info: vec![1, 2, 3] }, custom);
    assert_eq!(Err(Error::UnexpectedEof), CustomAttribute::read(&[1, 2], 0, &ctx));
    let mut out = Vec::new();
    custom.write(&mut out);
    assert_eq!(vec![0, 6, 0, 0, 0, 3, 1, 2, 3], out);
}
