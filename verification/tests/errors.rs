use jbmf_parser::attribute::annotation::ElementValue;
use jbmf_parser::attribute::code::{AlwaysZero, ArrayType, Instruction};
use jbmf_parser::attribute::stack_map::{StackMapFrame, VerificationTypeInfo};
use jbmf_parser::attribute::type_annotation::Target;
use jbmf_parser::io::{AttributeLocation, ReadContext};
use jbmf_parser::{AccessFlags, Attribute, Constant, ConstantPool, ConstantPoolIndex, Error, JavaClass, JavaVersion};

fn version() -> JavaVersion {
    JavaVersion { major: 55, minor: 0 }
}

#[test]
fn end_of_input() {
    assert_eq!(Err(Error::UnexpectedEof), JavaClass::read(&[], 0));
    assert_eq!(Err(Error::UnexpectedEof), JavaClass::read(&[0xCA, 0xFE, 0xBA, 0xBE, 0, 0, 0], 0));
    assert_eq!(Err(Error::UnexpectedEof), ConstantPool::read(&[0, 2, 3, 0, 0], 0, &version()));
    assert_eq!(Err(Error::UnexpectedEof), ConstantPool::read(&[0, 2], 7, &version()));
}

#[test]
fn unknown_constant_tag() {
    assert_eq!(Err(Error::UnknownTag(2)), Constant::read(&[2, 0, 0], 0, &version()));
    assert_eq!(Err(Error::UnknownTag(13)), ConstantPool::read(&[0, 3, 3, 0, 0, 0, 1, 13], 0, &version()));
    assert_eq!(Err(Error::UnknownTag(21)), Constant::read(&[21], 0, &version()));
}

#[test]
fn unknown_target_type() {
    assert_eq!(Err(Error::UnknownTargetType(0x02)), Target::read(&[0x02, 0], 0));
    assert_eq!(Ok((Target::Offset { target_type: 0x44, offset: 0x0102 }, 3)), Target::read(&[0x44, 1, 2], 0));
}

#[test]
fn unknown_verification_type() {
    assert_eq!(Err(Error::UnknownVerificationType(9)), VerificationTypeInfo::read(&[9], 0));
    assert_eq!(Ok((VerificationTypeInfo::Double, 1)), VerificationTypeInfo::read(&[3], 0));
    assert_eq!(Ok((VerificationTypeInfo::Long, 1)), VerificationTypeInfo::read(&[4], 0));
}

#[test]
fn unknown_stack_map_frame_type() {
    assert_eq!(Err(Error::UnknownStackMapFrameType(128)), StackMapFrame::read(&[128], 0));
    assert_eq!(Err(Error::UnknownStackMapFrameType(246)), StackMapFrame::read(&[246], 0));
    assert_eq!(
        Ok((
            StackMapFrame::Append {
                frame_type: 253,
                offset_delta: 5,
                locals: vec![VerificationTypeInfo::Integer, VerificationTypeInfo::Object { index: ConstantPoolIndex(3) }],
            },
            7
        )),
        StackMapFrame::read(&[253, 0, 5, 1, 7, 0, 3], 0)
    );
}

#[test]
fn stack_map_offset_delta() {
    assert_eq!(17, StackMapFrame::Same { frame_type: 17 }.offset_delta());
    assert_eq!(
        6,
        StackMapFrame::SameLocals1StackItem { frame_type: 70, stack: VerificationTypeInfo::Top }.offset_delta()
    );
    assert_eq!(300, StackMapFrame::Chop { frame_type: 249, offset_delta: 300 }.offset_delta());
}

#[test]
fn invalid_element_value_tag() {
    assert_eq!(Err(Error::InvalidElementValueTag('x')), ElementValue::read(&[b'x', 0, 0], 0));
    assert_eq!(
        Ok((ElementValue::ConstValue { tag: 's', index: ConstantPoolIndex(2) }, 3)),
        ElementValue::read(&[b's', 0, 2], 0)
    );
    assert_eq!(
        Ok((
            ElementValue::ArrayValue(vec![
                ElementValue::Class(ConstantPoolIndex(1)),
                ElementValue::EnumConstValue {
                    type_name_index: ConstantPoolIndex(2),
                    const_name: ConstantPoolIndex(3)
                },
            ]),
            11
        )),
        ElementValue::read(&[b'[', 0, 2, b'c', 0, 1, b'e', 0, 2, 0, 3], 0)
    );
}

#[test]
fn invalid_access_flags() {
    assert_eq!(Err(Error::InvalidAccessFlags(0x0040)), AccessFlags::read(&[0x00, 0x40], 0));
    assert_eq!(None, AccessFlags::from_bits(0x0100));
    assert_eq!(Some(0x0011), AccessFlags::from_bits(AccessFlags::PUBLIC | AccessFlags::FINAL).map(|f| f.bits()));
    let mut class: Vec<u8> = vec![0xCA, 0xFE, 0xBA, 0xBE, 0, 0, 0, 52, 0, 1];
    class.extend([0x08, 0x00]);
    assert_eq!(Err(Error::InvalidAccessFlags(0x0800)), JavaClass::read(&class, 0));
}

#[test]
fn unexpected_operand_value() {
    assert_eq!(Err(Error::UnexpectedOpCodeValue { expected: (0, 0), found: 1 }), AlwaysZero::read(&[1], 0));
    assert_eq!(Err(Error::UnexpectedOpCodeValue { expected: (4, 11), found: 12 }), ArrayType::read(&[12], 0));
    assert_eq!(Ok((ArrayType::Long, 1)), ArrayType::read(&[11], 0));
    let pool = ConstantPool(Vec::new());
    let ctx = ReadContext::new(version(), &pool, AttributeLocation::Code);
    assert_eq!(
        Err(Error::UnexpectedOpCodeValue { expected: (0, 0), found: 9 }),
        Instruction::read(&[0xB9, 0, 1, 2, 9], 0, &ctx)
    );
    assert_eq!(
        Err(Error::UnexpectedOpCodeValue { expected: (4, 11), found: 3 }),
        Instruction::read(&[0xBC, 3], 0, &ctx)
    );
}

#[test]
fn unknown_opcode() {
    let pool = ConstantPool(Vec::new());
    let ctx = ReadContext::new(version(), &pool, AttributeLocation::Code);
    assert_eq!(Err(Error::UnknownOpCode(0xCA)), Instruction::read(&[0xCA], 0, &ctx));
    assert_eq!(Err(Error::UnknownOpCode(0xFF)), Instruction::read(&[0xFF], 0, &ctx));
    assert_eq!(Ok((Instruction::JSRW { offset: 0x01020304 }, 5)), Instruction::read(&[0xC9, 1, 2, 3, 4], 0, &ctx));
}

#[test]
fn failure_in_an_attribute_body_aborts() {
    let pool = ConstantPool(vec![Constant::Utf8("Code".to_string()), Constant::Utf8("ConstantValue".to_string())]);
    let ctx = ReadContext::new(JavaVersion { major: 52, minor: 0 }, &pool, AttributeLocation::Method);
    let code: Vec<u8> = vec![0, 1, 0, 0, 0, 13, 0, 0, 0, 0, 0, 0, 0, 1, 0xCB, 0, 0, 0, 0];
    assert_eq!(Err(Error::UnknownOpCode(0xCB)), Attribute::read(&code, 0, &ctx));
    assert_eq!(Err(Error::UnexpectedEof), Attribute::read(&[0, 2, 0, 0, 0, 1, 7], 0, &ctx));
    assert_eq!(Err(Error::UnexpectedEof), Attribute::read(&[0, 2, 0, 0, 0, 9, 7], 0, &ctx));
}
