use jbmf_parser::java_utf8::{decode_from_java_utf8, is_valid_java_utf8, to_java_utf8, utf8_char_width};
use jbmf_parser::{Constant, Error, FromJavaUtf8Ext, JavaVersion, ToJavaUtf8Ext, UtfConversionError};

#[test]
fn char_widths() {
    assert_eq!(1, utf8_char_width(0x00));
    assert_eq!(1, utf8_char_width(0x7F));
    assert_eq!(0, utf8_char_width(0x80));
    assert_eq!(0, utf8_char_width(0xC1));
    assert_eq!(2, utf8_char_width(0xC2));
    assert_eq!(2, utf8_char_width(0xDF));
    assert_eq!(3, utf8_char_width(0xE0));
    assert_eq!(3, utf8_char_width(0xEF));
    assert_eq!(4, utf8_char_width(0xF0));
    assert_eq!(4, utf8_char_width(0xF4));
    assert_eq!(0, utf8_char_width(0xF5));
    assert_eq!(0, utf8_char_width(0xFF));
}

#[test]
fn plain_text_is_unchanged() {
    let text = "java/lang/Object".to_string();
    assert_eq!(Ok(b"java/lang/Object".to_vec()), text.to_java_utf8());
    assert_eq!(Ok(text), String::from_java_utf8(b"java/lang/Object"));
    let text = "gr\u{00FC}\u{00DF}e \u{20AC}".to_string();
    assert_eq!(Ok(text.as_bytes().to_vec()), text.to_java_utf8());
    assert_eq!(Ok(text.clone()), String::from_java_utf8(text.as_bytes()));
}

#[test]
fn nul_takes_two_bytes() {
    let text = "a\0b".to_string();
    assert_eq!(Ok(vec![b'a', 0xC0, 0x80, b'b']), text.to_java_utf8());
    assert_eq!(Ok(text), String::from_java_utf8(&[b'a', 0xC0, 0x80, b'b']));
    assert_eq!(Ok(vec![b'a', 0, b'b']), decode_from_java_utf8(&[b'a', 0xC0, 0x80, b'b']));
}

#[test]
fn supplementary_code_points_are_surrogate_pairs() {
    let text = "\u{10000}".to_string();
    assert_eq!(Ok(vec![0xED, 0xA0, 0x80, 0xED, 0xB0, 0x80]), text.to_java_utf8());
    assert_eq!(Ok(text), String::from_java_utf8(&[0xED, 0xA0, 0x80, 0xED, 0xB0, 0x80]));

    let text = "\u{1F600}".to_string();
    assert_eq!(vec![0xF0, 0x9F, 0x98, 0x80], text.as_bytes().to_vec());
    assert_eq!(Ok(vec![0xED, 0xA0, 0xBD, 0xED, 0xB8, 0x80]), text.to_java_utf8());
    assert_eq!(Ok(vec![0xF0, 0x9F, 0x98, 0x80]), decode_from_java_utf8(&[0xED, 0xA0, 0xBD, 0xED, 0xB8, 0x80]));
    assert_eq!(Ok(text), String::from_java_utf8(&[0xED, 0xA0, 0xBD, 0xED, 0xB8, 0x80]));

    let text = "x\u{10FFFF}\0y".to_string();
    let encoded = text.to_java_utf8().unwrap();
    assert_eq!(vec![b'x', 0xED, 0xAF, 0xBF, 0xED, 0xBF, 0xBF, 0xC0, 0x80, b'y'], encoded);
    assert_eq!(Ok(text), String::from_java_utf8(&encoded));
    assert_eq!(vec![0xED, 0xA0, 0x80, 0xED, 0xB0, 0x80], to_java_utf8("\u{10000}".as_bytes()));
}

#[test]
fn validity_of_bytes() {
    assert!(is_valid_java_utf8(b"abc"));
    assert!(is_valid_java_utf8(&[0xC0, 0x80]));
    assert!(is_valid_java_utf8(&[0xED, 0xA0, 0x80]));
    assert!(!is_valid_java_utf8(&[b'a', 0]));
    assert!(!is_valid_java_utf8(&[0xF0, 0x90, 0x80, 0x80]));
    assert!(is_valid_java_utf8(&[]));
}

fn utf_error(e: UtfConversionError) -> Error {
    Error::UtfConversionError(e)
}

#[test]
fn unexpected_end_of_data() {
    assert_eq!(Err(utf_error(UtfConversionError::UnexpectedEndOfData)), decode_from_java_utf8(&[0xC3]));
    assert_eq!(Err(utf_error(UtfConversionError::UnexpectedEndOfData)), decode_from_java_utf8(&[0xC0]));
    assert_eq!(Err(utf_error(UtfConversionError::UnexpectedEndOfData)), decode_from_java_utf8(&[0xE2, 0x82]));
    assert_eq!(Err(utf_error(UtfConversionError::UnexpectedEndOfData)), decode_from_java_utf8(&[0xED, 0xA0, 0x80]));
    assert_eq!(
        Err(utf_error(UtfConversionError::UnexpectedEndOfData)),
        decode_from_java_utf8(&[0xED, 0xA0, 0x80, 0xED, 0xB0])
    );
    assert_eq!(Err(utf_error(UtfConversionError::UnexpectedEndOfData)), String::from_java_utf8(&[b'a', 0xC3]));
}

#[test]
fn unexpected_continuation() {
    assert_eq!(Err(utf_error(UtfConversionError::UnexpectedContinuation(b'a'))), decode_from_java_utf8(&[0xC3, b'a']));
    assert_eq!(Err(utf_error(UtfConversionError::UnexpectedContinuation(0x81))), decode_from_java_utf8(&[0xC0, 0x81]));
    assert_eq!(Err(utf_error(UtfConversionError::UnexpectedContinuation(0x80))), decode_from_java_utf8(&[0x80, 0x80]));
    assert_eq!(
        Err(utf_error(UtfConversionError::UnexpectedContinuation(0x80))),
        decode_from_java_utf8(&[0xE0, 0x80, 0x80])
    );
    assert_eq!(
        Err(utf_error(UtfConversionError::UnexpectedContinuation(0xB0))),
        decode_from_java_utf8(&[0xED, 0xB0, 0x80])
    );
    assert_eq!(
        Err(utf_error(UtfConversionError::UnexpectedContinuation(b'x'))),
        decode_from_java_utf8(&[0xED, 0xA0, 0x80, b'x', 0xB0, 0x80])
    );
    assert_eq!(
        Err(utf_error(UtfConversionError::UnexpectedContinuation(0xA0))),
        decode_from_java_utf8(&[0xED, 0xA0, 0x80, 0xED, 0xA0, 0x80])
    );
    assert_eq!(
        Err(utf_error(UtfConversionError::UnexpectedContinuation(0xF8))),
        decode_from_java_utf8(&[0xF8, 0x80])
    );
}

#[test]
fn a_byte_that_leads_nothing_is_an_unexpected_continuation() {
    assert_eq!(Err(utf_error(UtfConversionError::UnexpectedContinuation(0x80))), String::from_java_utf8(&[0x80]));
    assert_eq!(Err(utf_error(UtfConversionError::UnexpectedContinuation(0x80))), decode_from_java_utf8(&[0x80]));
    assert_eq!(Err(utf_error(UtfConversionError::UnexpectedContinuation(0x80))), String::from_java_utf8(&[0x80, b'A']));
    assert_eq!(Err(utf_error(UtfConversionError::UnexpectedContinuation(0x80))), decode_from_java_utf8(&[0x80, b'A']));
    assert_eq!(Err(utf_error(UtfConversionError::UnexpectedContinuation(0xBF))), String::from_java_utf8(&[b'a', 0xBF]));
    assert_eq!(Err(utf_error(UtfConversionError::UnexpectedContinuation(0xC1))), String::from_java_utf8(&[0xC1]));
    assert_eq!(Err(utf_error(UtfConversionError::UnexpectedContinuation(0xC1))), decode_from_java_utf8(&[0xC1, 0x80]));
    assert_eq!(Err(utf_error(UtfConversionError::UnexpectedContinuation(0xF0))), decode_from_java_utf8(&[0xF0]));
    assert_eq!(Err(utf_error(UtfConversionError::UnexpectedContinuation(0xFF))), decode_from_java_utf8(&[0xFF, b'a']));
}

#[test]
fn null_byte_found() {
    assert_eq!(Err(utf_error(UtfConversionError::NullByteFound)), decode_from_java_utf8(&[b'a', 0, b'b']));
}

#[test]
fn invalid_java_utf8() {
    assert_eq!(
        Err(utf_error(UtfConversionError::InvalidJavaUtf8(vec![b'a', 0]))),
        String::from_java_utf8(&[b'a', 0])
    );
    assert_eq!(
        Err(utf_error(UtfConversionError::InvalidJavaUtf8(vec![0xF0, 0x90, 0x80, 0x80]))),
        String::from_java_utf8(&[0xF0, 0x90, 0x80, 0x80])
    );
}

#[test]
fn malformed_string_constant_keeps_its_payload() {
    let bytes: Vec<u8> = vec![1, 0, 2, 0xC3, b'a'];
    let version = JavaVersion { major: 52, minor: 0 };
    let (entries, end) = Constant::read(&bytes, 0, &version).unwrap();
    assert_eq!(5, end);
    assert_eq!(vec![Constant::InvalidUtf8(vec![0xC3, b'a'])], entries);
    let mut written = Vec::new();
    entries[0].write(&mut written);
    assert_eq!(bytes, written);

    let (entries, _) = Constant::read(&[1, 0, 3, b'a', 0xC0, 0x80], 0, &version).unwrap();
    assert_eq!(vec![Constant::Utf8("a\0".to_string())], entries);
    let mut written = Vec::new();
    entries[0].write(&mut written);
    assert_eq!(vec![1, 0, 3, b'a', 0xC0, 0x80], written);
}
