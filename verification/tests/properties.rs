use jbmf_parser::attribute::code::{
    padding, read_code, write_code, Instruction, MatchOffsetPair, SizedIndex, SmallIndex, WideIndex,
};
use jbmf_parser::io::{AttributeLocation, Compatibility, ReadContext, WriteContext};
use jbmf_parser::{
    AccessFlags, Attribute, Constant, ConstantPool, ConstantPoolIndex, Error, JavaClass, JavaVersion, MagicNumber,
    Method,
};

fn utf8(text: &str) -> Constant {
    Constant::Utf8(text.to_string())
}

fn empty_class() -> JavaClass {
    JavaClass {
        magic: MagicNumber::Cafebabe,
        version: JavaVersion { major: 45, minor: 3 },
        constant_pool: ConstantPool(vec![
            Constant::Class(ConstantPoolIndex(3)),
            Constant::Class(ConstantPoolIndex(4)),
            utf8("Foo"),
            utf8("java/lang/Object"),
        ]),
        access_flags: AccessFlags::from_bits(AccessFlags::NONE).unwrap(),
        this_class: ConstantPoolIndex(1),
        super_class: ConstantPoolIndex(2),
        interfaces: Vec::new(),
        fields: Vec::new(),
        methods: Vec::new(),
        attributes: Vec::new(),
    }
}

#[test]
fn empty_class_has_the_fixed_encoding() {
    let mut expected: Vec<u8> = vec![0xCA, 0xFE, 0xBA, 0xBE, 0x00, 0x03, 0x00, 0x2D, 0x00, 0x05];
    expected.extend([0x07, 0x00, 0x03]);
    expected.extend([0x07, 0x00, 0x04]);
    expected.extend([0x01, 0x00, 0x03]);
    expected.extend(b"Foo");
    expected.extend([0x01, 0x00, 0x10]);
    expected.extend(b"java/lang/Object");
    expected.extend([0x00, 0x00, 0x00, 0x01, 0x00, 0x02]);
    expected.extend([0x00, 0x00, 0x00, 0x00, 0x00, 0x00, 0x00, 0x00]);
    let bytes = empty_class().to_bytes();
    assert_eq!(expected, bytes);
    assert_eq!(55, bytes.len());
    assert_eq!(Ok((empty_class(), 55)), JavaClass::read(&bytes, 0));
}

#[test]
fn bytes_behind_the_class_are_passed_over() {
    let mut bytes = empty_class().to_bytes();
    bytes.extend([1, 2, 3]);
    assert_eq!(Ok((empty_class(), 55)), JavaClass::read(&bytes, 0));
}

#[test]
fn a_class_is_read_from_where_it_starts() {
    let mut bytes: Vec<u8> = vec![9, 9, 9, 9];
    bytes.extend(empty_class().to_bytes());
    bytes.extend([1, 2, 3]);
    assert_eq!(Ok((empty_class(), 59)), JavaClass::read(&bytes, 4));
    assert_eq!(Err(Error::UnexpectedEof), JavaClass::read(&bytes, 62));
    assert_eq!(Err(Error::UnexpectedEof), JavaClass::read(&bytes, 63));
}

#[test]
fn two_classes_are_read_one_behind_the_other() {
    let mut other = empty_class();
    other.magic = MagicNumber::Unknown(7);
    let mut bytes = empty_class().to_bytes();
    bytes.extend(other.to_bytes());
    let (first, middle) = JavaClass::read(&bytes, 0).unwrap();
    let (second, end) = JavaClass::read(&bytes, middle).unwrap();
    assert_eq!(empty_class(), first);
    assert_eq!(55, middle);
    assert_eq!(other, second);
    assert_eq!(110, end);
}

#[test]
fn unknown_magic_number_is_kept() {
    let mut class = empty_class();
    class.magic = MagicNumber::Unknown(0xDEADBEEF);
    let bytes = class.to_bytes();
    assert_eq!(&[0xDE, 0xAD, 0xBE, 0xEF], &bytes[0..4]);
    assert_eq!(MagicNumber::Unknown(0xDEADBEEF), JavaClass::read(&bytes, 0).unwrap().0.magic);
}

#[test]
fn long_and_double_take_two_slots() {
    let version = JavaVersion { major: 52, minor: 0 };
    let mut bytes: Vec<u8> = vec![0x00, 0x06];
    bytes.extend([5, 0, 0, 0, 0, 0, 0, 0, 42]);
    bytes.extend([3, 0, 0, 0, 7]);
    bytes.extend([6, 0x40, 0x09, 0x21, 0xFB, 0x54, 0x44, 0x2D, 0x18]);
    let (pool, end) = ConstantPool::read(&bytes, 0, &version).unwrap();
    assert_eq!(bytes.len(), end);
    assert_eq!(
        ConstantPool(vec![
            Constant::Long(42),
            Constant::Unusable,
            Constant::Integer(7),
            Constant::Double(std::f64::consts::PI.to_bits()),
            Constant::Unusable,
        ]),
        pool
    );
    assert_eq!(Some(&Constant::Long(42)), pool.get(ConstantPoolIndex(1)));
    assert_eq!(Some(&Constant::Unusable), pool.get(ConstantPoolIndex(2)));
    assert_eq!(Some(&Constant::Integer(7)), pool.get(ConstantPoolIndex(3)));
    assert_eq!(None, pool.get(ConstantPoolIndex(0)));
    assert_eq!(None, pool.get(ConstantPoolIndex(6)));
    let mut written = Vec::new();
    pool.write(&mut written);
    assert_eq!(bytes, written);
}

#[test]
fn constant_of_a_later_version_is_wrapped() {
    let bytes: Vec<u8> = vec![0x00, 0x02, 15, 1, 0x00, 0x09];
    let handle = Constant::MethodHandle { reference_kind: 1, reference: ConstantPoolIndex(9) };
    let (old, _) = ConstantPool::read(&bytes, 0, &JavaVersion { major: 50, minor: 0 }).unwrap();
    assert_eq!(ConstantPool(vec![Constant::Unsupported(Box::new(handle))]), old);
    let handle = Constant::MethodHandle { reference_kind: 1, reference: ConstantPoolIndex(9) };
    let (new, _) = ConstantPool::read(&bytes, 0, &JavaVersion { major: 51, minor: 0 }).unwrap();
    assert_eq!(ConstantPool(vec![handle]), new);
    let mut written = Vec::new();
    old.write(&mut written);
    assert_eq!(bytes, written);
}

fn pool_with(names: &[&str]) -> ConstantPool {
    ConstantPool(names.iter().map(|n| utf8(n)).collect())
}

#[test]
fn enclosing_method_below_its_version_is_unsupported() {
    let pool = pool_with(&["EnclosingMethod"]);
    let attribute = Attribute::EnclosingMethod {
        name: ConstantPoolIndex(1),
        class: ConstantPoolIndex(6),
        method: ConstantPoolIndex(9),
    };
    let mut bytes = Vec::new();
    attribute.write(&mut bytes);
    assert_eq!(vec![0, 1, 0, 0, 0, 4, 0, 6, 0, 9], bytes);
    let old = ReadContext::new(JavaVersion { major: 45, minor: 3 }, &pool, AttributeLocation::ClassFile);
    assert_eq!(Ok((Attribute::Unsupported(Box::new(attribute)), 10)), Attribute::read(&bytes, 0, &old));
    let attribute = Attribute::EnclosingMethod {
        name: ConstantPoolIndex(1),
        class: ConstantPoolIndex(6),
        method: ConstantPoolIndex(9),
    };
    let new = ReadContext::new(JavaVersion { major: 49, minor: 0 }, &pool, AttributeLocation::ClassFile);
    assert_eq!(Ok((attribute, 10)), Attribute::read(&bytes, 0, &new));
}

#[test]
fn degrade_matrix() {
    let pool = pool_with(&["Signature"]);
    let bytes: Vec<u8> = vec![0, 1, 0, 0, 0, 2, 0, 5];
    let signature = || Attribute::Signature { name: ConstantPoolIndex(1), signature: ConstantPoolIndex(5) };
    let read = |major: u16, location: AttributeLocation| {
        let ctx = ReadContext::new(JavaVersion { major, minor: 0 }, &pool, location);
        Attribute::read(&bytes, 0, &ctx).unwrap().0
    };
    assert_eq!(signature(), read(49, AttributeLocation::Field));
    assert_eq!(Attribute::InvalidLocation(Box::new(signature())), read(49, AttributeLocation::Code));
    assert_eq!(Attribute::Unsupported(Box::new(signature())), read(48, AttributeLocation::Method));
    assert_eq!(Attribute::UnsupportedAndInvalidLocation(Box::new(signature())), read(48, AttributeLocation::Code));
    let mut written = Vec::new();
    read(48, AttributeLocation::Code).write(&mut written);
    assert_eq!(bytes, written);
}

#[test]
fn synthetic_in_code_is_at_an_invalid_location() {
    let pool = pool_with(&["Code", "Synthetic"]);
    let code = |nested: Attribute| Attribute::Code {
        name: ConstantPoolIndex(1),
        max_stack: Compatibility::Current(0),
        max_locals: Compatibility::Current(0),
        code: Compatibility::Current(Vec::new()),
        exception_table: Vec::new(),
        attributes: vec![nested],
    };
    let mut bytes = Vec::new();
    code(Attribute::Synthetic { name: ConstantPoolIndex(2) }).write(&mut bytes);
    let ctx = ReadContext::new(JavaVersion { major: 45, minor: 3 }, &pool, AttributeLocation::Method);
    let (read, _) = Attribute::read(&bytes, 0, &ctx).unwrap();
    assert_eq!(code(Attribute::InvalidLocation(Box::new(Attribute::Synthetic { name: ConstantPoolIndex(2) }))), read);
    assert_ne!(code(Attribute::Synthetic { name: ConstantPoolIndex(2) }), read);
}

#[test]
fn names_that_do_not_resolve() {
    let pool = ConstantPool(vec![utf8("NoSuchAttribute"), Constant::Integer(1), Constant::InvalidUtf8(vec![0xC0])]);
    let ctx = ReadContext::new(JavaVersion { major: 52, minor: 0 }, &pool, AttributeLocation::ClassFile);
    let read = |name: u8| Attribute::read(&[0, name, 0, 0, 0, 2, 0xAB, 0xCD], 0, &ctx).unwrap().0;
    let raw = |name: u16| jbmf_parser::attribute::RawAttribute { name: ConstantPoolIndex(name), info: vec![0xAB, 0xCD] };
    assert_eq!(Attribute::Unknown(raw(1)), read(1));
    assert_eq!(Attribute::IllegalNameReference(raw(2)), read(2));
    assert_eq!(Attribute::InvalidUtf8(raw(3)), read(3));
    assert_eq!(Attribute::IllegalNameReference(raw(0)), read(0));
    assert_eq!(Attribute::IllegalNameReference(raw(4)), read(4));
    let mut written = Vec::new();
    read(1).write(&mut written);
    assert_eq!(vec![0, 1, 0, 0, 0, 2, 0xAB, 0xCD], written);
}

#[test]
fn padding_of_switches() {
    assert_eq!(3, padding(8));
    assert_eq!(0, padding(11));
    assert_eq!(2, padding(9));
    assert_eq!(1, padding(10));
    assert_eq!(3, padding(0));
}

#[test]
fn table_switch_is_aligned() {
    let switch = || Instruction::TableSwitch { default: 20, low: 1, high: 2, offsets: vec![30, -1] };
    let mut code: Vec<Instruction> = Vec::new();
    for _ in 0..8 {
        code.push(Instruction::Nop);
    }
    code.push(switch());
    let bytes = write_code(&code);
    let mut expected = vec![0u8; 8];
    expected.push(0xAA);
    expected.extend([0, 0, 0]);
    expected.extend([0, 0, 0, 20, 0, 0, 0, 1, 0, 0, 0, 2]);
    expected.extend([0, 0, 0, 30, 0xFF, 0xFF, 0xFF, 0xFF]);
    assert_eq!(expected, bytes);
    let pool = ConstantPool(Vec::new());
    let ctx = ReadContext::new(JavaVersion { major: 52, minor: 0 }, &pool, AttributeLocation::Code);
    assert_eq!(Ok(code), read_code(&bytes, &ctx));

    let mut at_eleven = Vec::new();
    switch().write(&mut at_eleven, &WriteContext { position: Some(11) });
    assert_eq!(1 + 12 + 8, at_eleven.len());
    assert_eq!(&[0xAA, 0, 0, 0, 20], &at_eleven[0..5]);
}

#[test]
fn lookup_switch_round_trip() {
    let code = vec![
        Instruction::ILoad1,
        Instruction::LookUpSwitch {
            default: 9,
            pairs: vec![MatchOffsetPair { match_value: -5, offset: 40 }, MatchOffsetPair { match_value: 7, offset: 50 }],
        },
        Instruction::Return,
    ];
    let bytes = write_code(&code);
    assert_eq!(1 + 1 + 2 + 4 + 4 + 16 + 1, bytes.len());
    let pool = ConstantPool(Vec::new());
    let ctx = ReadContext::new(JavaVersion { major: 52, minor: 0 }, &pool, AttributeLocation::Code);
    assert_eq!(Ok(code), read_code(&bytes, &ctx));
}

#[test]
fn wide_holds_for_one_instruction() {
    let bytes: Vec<u8> = vec![0xC4, 0x15, 0x01, 0x02, 0x15, 0x03];
    let pool = ConstantPool(Vec::new());
    let ctx = ReadContext::new(JavaVersion { major: 52, minor: 0 }, &pool, AttributeLocation::Code);
    let code = read_code(&bytes, &ctx).unwrap();
    assert_eq!(
        vec![
            Instruction::Wide,
            Instruction::ILoad { index: SizedIndex::Wide(WideIndex(0x0102)) },
            Instruction::ILoad { index: SizedIndex::Normal(SmallIndex(3)) },
        ],
        code
    );
    assert_eq!(bytes, write_code(&code));
}

#[test]
fn wide_twice_is_wide_once() {
    let bytes: Vec<u8> = vec![0xC4, 0xC4, 0x84, 0x00, 0x01, 0xFF, 0xFE];
    let pool = ConstantPool(Vec::new());
    let ctx = ReadContext::new(JavaVersion { major: 52, minor: 0 }, &pool, AttributeLocation::Code);
    assert_eq!(
        Ok(vec![
            Instruction::Wide,
            Instruction::Wide,
            Instruction::IInc { index: SizedIndex::Wide(WideIndex(1)), value: SizedIndex::Wide(WideIndex(0xFFFE)) },
        ]),
        read_code(&bytes, &ctx)
    );
}

#[test]
fn code_attribute_in_both_forms() {
    let pool = pool_with(&["Code"]);
    let body = |current: bool| -> Vec<u8> {
        let mut b = vec![0, 1];
        if current {
            b.extend([0, 0, 0, 14, 0, 2, 0, 3, 0, 0, 0, 2, 0x2A, 0xB1]);
        } else {
            b.extend([0, 0, 0, 10, 2, 3, 0, 2, 0x2A, 0xB1]);
        }
        b.extend([0, 0, 0, 0]);
        b
    };
    let current = ReadContext::new(JavaVersion { major: 45, minor: 3 }, &pool, AttributeLocation::Method);
    let (read, _) = Attribute::read(&body(true), 0, &current).unwrap();
    assert_eq!(
        Attribute::Code {
            name: ConstantPoolIndex(1),
            max_stack: Compatibility::Current(2),
            max_locals: Compatibility::Current(3),
            code: Compatibility::Current(vec![Instruction::ALoad0, Instruction::Return]),
            exception_table: Vec::new(),
            attributes: Vec::new(),
        },
        read
    );
    let mut written = Vec::new();
    read.write(&mut written);
    assert_eq!(body(true), written);

    let old = ReadContext::new(JavaVersion { major: 45, minor: 2 }, &pool, AttributeLocation::Method);
    let (read, _) = Attribute::read(&body(false), 0, &old).unwrap();
    assert_eq!(
        Attribute::Unsupported(Box::new(Attribute::Code {
            name: ConstantPoolIndex(1),
            max_stack: Compatibility::PreJava1(2),
            max_locals: Compatibility::PreJava1(3),
            code: Compatibility::PreJava1(vec![Instruction::ALoad0, Instruction::Return]),
            exception_table: Vec::new(),
            attributes: Vec::new(),
        })),
        read
    );
    let mut written = Vec::new();
    read.write(&mut written);
    assert_eq!(body(false), written);
}

#[test]
fn class_with_a_method_body_round_trips() {
    let mut class = empty_class();
    class.version = JavaVersion { major: 55, minor: 0 };
    class.constant_pool.0.push(utf8("Code"));
    class.constant_pool.0.push(utf8("LineNumberTable"));
    let build = |class: &mut JavaClass| {
        class.methods = vec![Method {
            access_flags: AccessFlags::from_bits(AccessFlags::PUBLIC | AccessFlags::STATIC).unwrap(),
            name: ConstantPoolIndex(3),
            descriptor: ConstantPoolIndex(4),
            attributes: vec![Attribute::Code {
                name: ConstantPoolIndex(5),
                max_stack: Compatibility::Current(2),
                max_locals: Compatibility::Current(1),
                code: Compatibility::Current(vec![
                    Instruction::BIPush { value: 7 },
                    Instruction::SIPush { value: -300 },
                    Instruction::IAdd,
                    Instruction::Goto { offset: 3 },
                    Instruction::IReturn,
                ]),
                exception_table: vec![jbmf_parser::attribute::ExceptionTable {
                    start_pc: 0,
                    end_pc: 4,
                    handler_pc: 4,
                    catch_type: 0,
                }],
                attributes: vec![Attribute::LineNumberTable {
                    name: ConstantPoolIndex(6),
                    line_numbers: vec![jbmf_parser::attribute::line_number_table::LineNumberTable {
                        start_pc: 0,
                        line_number: 12,
                    }],
                }],
            }],
        }];
    };
    build(&mut class);
    let bytes = class.to_bytes();
    let (read, end) = JavaClass::read(&bytes, 0).unwrap();
    assert_eq!(class, read);
    assert_eq!(bytes.len(), end);
    assert_eq!(bytes, read.to_bytes());
    assert_eq!(Err(Error::UnexpectedEof), JavaClass::read(&bytes[..bytes.len() - 1], 0));
}
