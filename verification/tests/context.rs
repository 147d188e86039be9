use jbmf_parser::attribute::code::{Instruction, SmallIndex, WideIndex};
use jbmf_parser::attribute::{Attribute, CodeIO};
use jbmf_parser::io::{AttributeLocation, ClassFilePartSize, Compatibility, ReadContext};
use jbmf_parser::{Constant, ConstantPool, ConstantPoolIndex, JavaVersion};

#[test]
fn lengths_as_integers() {
    assert_eq!(200, 200u8.to_usize());
    assert_eq!(0x34, <u8 as ClassFilePartSize>::from_usize(0x1234));
    assert_eq!(0xFFFF, 0xFFFFu16.to_usize());
    assert_eq!(0x0001, <u16 as ClassFilePartSize>::from_usize(0x1_0001));
    assert_eq!(70_000, 70_000u32.to_usize());
    assert_eq!(70_000, <u32 as ClassFilePartSize>::from_usize(70_000));
    assert_eq!(5, 5i32.to_usize());
    assert_eq!(usize::MAX, (-1i32).to_usize());
    assert_eq!(usize::MAX - 9, (-10i32).to_usize());
    assert_eq!(-1, <i32 as ClassFilePartSize>::from_usize(0xFFFF_FFFF));
    assert_eq!(7, <i32 as ClassFilePartSize>::from_usize(7));
    assert_eq!(9, 9usize.to_usize());
    assert_eq!(9, <usize as ClassFilePartSize>::from_usize(9));
}

#[test]
fn framing_follows_the_version() {
    let pool = ConstantPool(Vec::new());
    let current = ReadContext::new(JavaVersion { major: 45, minor: 3 }, &pool, AttributeLocation::Code);
    let old = ReadContext::new(JavaVersion { major: 45, minor: 2 }, &pool, AttributeLocation::Code);
    assert_eq!(Compatibility::Current(vec![1u8, 2]), Compatibility::from(vec![1u8, 2], &current));
    assert_eq!(Compatibility::PreJava1(vec![1u8, 2]), Compatibility::from(vec![1u8, 2], &old));
}

#[test]
fn contexts_are_changed_by_copy() {
    let pool = ConstantPool(vec![Constant::Integer(1)]);
    let ctx = ReadContext::new(JavaVersion { major: 52, minor: 0 }, &pool, AttributeLocation::Method);
    assert_eq!(AttributeLocation::Method, ctx.location);
    assert_eq!(None, ctx.name);
    assert!(!ctx.wide);
    let inner = ctx.inside(ConstantPoolIndex(4), 12).at(AttributeLocation::Code).instruction(8, true);
    assert_eq!(Some(ConstantPoolIndex(4)), inner.name);
    assert_eq!(Some(12), inner.length);
    assert_eq!(AttributeLocation::Code, inner.location);
    assert_eq!(8, inner.position);
    assert!(inner.wide);
    assert_eq!(AttributeLocation::Method, ctx.location);
}

#[test]
fn code_body_reader_and_writer() {
    let pool = ConstantPool(Vec::new());
    let ctx = ReadContext::new(JavaVersion { major: 52, minor: 0 }, &pool, AttributeLocation::Method)
        .inside(ConstantPoolIndex(9), 13);
    let body: Vec<u8> = vec![0, 1, 0, 2, 0, 0, 0, 1, 0xB1, 0, 0, 0, 0];
    let code = CodeIO::read(&body, &ctx).unwrap();
    assert_eq!(
        Attribute::Code {
            name: ConstantPoolIndex(9),
            max_stack: Compatibility::Current(1),
            max_locals: Compatibility::Current(2),
            code: Compatibility::Current(vec![Instruction::Return]),
            exception_table: Vec::new(),
            attributes: Vec::new(),
        },
        code
    );
    let mut written = Vec::new();
    CodeIO::write(&code, &mut written);
    assert_eq!(body, written);
}

#[test]
fn versions_locations_and_indices_are_ordered() {
    let old = JavaVersion { major: 45, minor: 3 };
    let new = JavaVersion { major: 52, minor: 0 };
    assert!(old < new);
    assert!(JavaVersion { major: 45, minor: 2 } < old);
    assert!(JavaVersion { major: 44, minor: 65535 } < old);
    assert_eq!(new, old.max(new));
    for a in [old, new, JavaVersion { major: 45, minor: 65535 }] {
        for b in [old, new, JavaVersion { major: 46, minor: 0 }] {
            assert_eq!(a >= b, a.supports_version(&b));
        }
    }
    assert!(AttributeLocation::ClassFile < AttributeLocation::Field);
    assert!(AttributeLocation::Field < AttributeLocation::Method);
    assert!(AttributeLocation::Method < AttributeLocation::Code);
    assert!(SmallIndex(3) < SmallIndex(200));
    assert!(WideIndex(255) < WideIndex(256));
    assert_eq!(WideIndex(7), WideIndex(7).min(WideIndex(9)));
}
