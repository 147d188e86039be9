use jbmf_parser::attribute::inner_classes::InnerClass;
use jbmf_parser::io::Compatibility;
use jbmf_parser::{
    AccessFlags, Attribute, Constant, ConstantPool, ConstantPoolIndex, Error, Field, JavaClass, JavaVersion,
    MagicNumber, Method,
};

fn flags(bits: u16) -> AccessFlags {
    AccessFlags::from_bits(bits).unwrap()
}

fn utf8(text: &str) -> Constant {
    Constant::Utf8(text.to_string())
}

fn class_of(version: JavaVersion, pool: Vec<Constant>) -> JavaClass {
    JavaClass {
        magic: MagicNumber::Cafebabe,
        version,
        constant_pool: ConstantPool(pool),
        access_flags: flags(AccessFlags::NONE),
        this_class: ConstantPoolIndex(1),
        super_class: ConstantPoolIndex(2),
        interfaces: Vec::new(),
        fields: Vec::new(),
        methods: Vec::new(),
        attributes: Vec::new(),
    }
}

fn base_pool(name: &str) -> Vec<Constant> {
    vec![
        Constant::Class(ConstantPoolIndex(3)),
        Constant::Class(ConstantPoolIndex(4)),
        utf8(name),
        utf8("java/lang/Object"),
    ]
}

fn round_trip(class: &JavaClass) -> Result<JavaClass, Error> {
    let mut bytes = Vec::new();
    class.write(&mut bytes);
    let (read, end) = JavaClass::read(&bytes, 0)?;
    assert_eq!(bytes.len(), end);
    Ok(read)
}

fn empty_code(name: u16, attributes: Vec<Attribute>) -> Attribute {
    Attribute::Code {
        name: ConstantPoolIndex(name),
        max_stack: Compatibility::Current(0),
        max_locals: Compatibility::Current(0),
        code: Compatibility::Current(Vec::new()),
        exception_table: Vec::new(),
        attributes,
    }
}

#[test]
fn check_sanity() {
    let reference = class_of(JavaVersion { major: 45, minor: 3 }, base_pool("CheckSanityTest"));
    assert_eq!(Ok(reference), round_trip(&class_of(JavaVersion { major: 45, minor: 3 }, base_pool("CheckSanityTest"))));
}

#[test]
fn check_empty_current_code() {
    let build = || {
        let mut pool = base_pool("CheckEmptyCodeTest");
        pool.push(utf8("m1"));
        pool.push(utf8("()V"));
        pool.push(utf8("Code"));
        let mut reference = class_of(JavaVersion { major: 45, minor: 3 }, pool);
        reference.methods = vec![Method {
            access_flags: flags(AccessFlags::NONE),
            name: ConstantPoolIndex(5),
            descriptor: ConstantPoolIndex(6),
            attributes: vec![Attribute::Code {
                name: ConstantPoolIndex(7),
                max_stack: Compatibility::Current(65534),
                max_locals: Compatibility::Current(65534),
                code: Compatibility::Current(Vec::new()),
                exception_table: Vec::new(),
                attributes: Vec::new(),
            }],
        }];
        reference
    };
    assert_eq!(Ok(build()), round_trip(&build()));
}

#[test]
fn check_empty_pre_java1_code() {
    let build = || {
        let unsupported = |c: Constant| Constant::Unsupported(Box::new(c));
        let pool = vec![
            unsupported(Constant::Class(ConstantPoolIndex(3))),
            unsupported(Constant::Class(ConstantPoolIndex(4))),
            unsupported(utf8("CheckEmptyCodeTest")),
            unsupported(utf8("java/lang/Object")),
            unsupported(utf8("m1")),
            unsupported(utf8("()V")),
            unsupported(utf8("Code")),
        ];
        let mut reference = class_of(JavaVersion { major: 45, minor: 2 }, pool);
        reference.methods = vec![Method {
            access_flags: flags(AccessFlags::NONE),
            name: ConstantPoolIndex(5),
            descriptor: ConstantPoolIndex(6),
            attributes: vec![Attribute::Unsupported(Box::new(Attribute::Code {
                name: ConstantPoolIndex(7),
                max_stack: Compatibility::PreJava1(0),
                max_locals: Compatibility::PreJava1(0),
                code: Compatibility::PreJava1(Vec::new()),
                exception_table: Vec::new(),
                attributes: Vec::new(),
            }))],
        }];
        reference
    };
    assert_eq!(Ok(build()), round_trip(&build()));
}

#[test]
fn check_constant_value() {
    let build = || {
        let mut pool = base_pool("CheckConstantIntegerTest");
        pool.extend(vec![
            utf8("integer"),
            utf8("I"),
            utf8("ConstantValue"),
            Constant::Integer(123456),
            utf8("float"),
            utf8("F"),
            utf8("ConstantValue"),
            Constant::Float(123.456f32.to_bits()),
            utf8("long"),
            utf8("J"),
            utf8("ConstantValue"),
            Constant::Long(123456),
            Constant::Unusable,
            utf8("double"),
            utf8("D"),
            utf8("ConstantValue"),
            Constant::Double(123.456f64.to_bits()),
            Constant::Unusable,
            utf8("string"),
            utf8("Ljava/lang/String;"),
            utf8("ConstantValue"),
            Constant::String(ConstantPoolIndex(25)),
            utf8("Hello, world!"),
        ]);
        let field = |name: u16, descriptor: u16, attribute: u16, value: u16| Field {
            access_flags: flags(AccessFlags::NONE),
            name: ConstantPoolIndex(name),
            descriptor: ConstantPoolIndex(descriptor),
            attributes: vec![Attribute::ConstantValue {
                name: ConstantPoolIndex(attribute),
                value: ConstantPoolIndex(value),
            }],
        };
        let mut reference = class_of(JavaVersion { major: 45, minor: 3 }, pool);
        reference.fields =
            vec![field(5, 6, 7, 8), field(9, 10, 11, 12), field(13, 14, 15, 16), field(18, 19, 20, 21), field(23, 24, 25, 26)];
        reference
    };
    assert_eq!(Ok(build()), round_trip(&build()));
}

fn enclosing_pool(name: &str) -> Vec<Constant> {
    let mut pool = base_pool(name);
    pool.push(utf8("EnclosingMethod"));
    pool.push(Constant::Class(ConstantPoolIndex(7)));
    pool.push(utf8("EnclosingClass"));
    pool
}

#[test]
fn check_enclosing_method() {
    let build = || {
        let mut reference = class_of(JavaVersion { major: 49, minor: 0 }, enclosing_pool("EnclosingMethodTest"));
        reference.attributes = vec![Attribute::EnclosingMethod {
            name: ConstantPoolIndex(5),
            class: ConstantPoolIndex(6),
            method: ConstantPoolIndex(0),
        }];
        reference
    };
    assert_eq!(Ok(build()), round_trip(&build()));
}

#[test]
fn check_enclosing_method_within_method() {
    let build = || {
        let mut pool = enclosing_pool("EnclosingMethodWithinMethodTest");
        pool.push(Constant::NameAndType { name: ConstantPoolIndex(10), descriptor: ConstantPoolIndex(11) });
        pool.push(utf8("enclosingMethod"));
        pool.push(utf8("()V"));
        let mut reference = class_of(JavaVersion { major: 49, minor: 0 }, pool);
        reference.attributes = vec![Attribute::EnclosingMethod {
            name: ConstantPoolIndex(5),
            class: ConstantPoolIndex(6),
            method: ConstantPoolIndex(9),
        }];
        reference
    };
    assert_eq!(Ok(build()), round_trip(&build()));
}

#[test]
fn check_inner_classes() {
    let build = || {
        let mut pool = base_pool("InnerClassesTest");
        pool.push(utf8("InnerClasses"));
        pool.push(Constant::Class(ConstantPoolIndex(7)));
        pool.push(utf8("InnerClass"));
        let mut reference = class_of(JavaVersion { major: 45, minor: 3 }, pool);
        reference.attributes = vec![Attribute::InnerClasses {
            name: ConstantPoolIndex(5),
            classes: vec![InnerClass {
                inner_class: ConstantPoolIndex(6),
                outer_class: ConstantPoolIndex(1),
                inner_name: ConstantPoolIndex(8),
                inner_class_access_flags: flags(AccessFlags::PUBLIC | AccessFlags::STATIC | AccessFlags::FINAL),
            }],
        }];
        reference
    };
    assert_eq!(Ok(build()), round_trip(&build()));
}

#[test]
fn check_synthetic_class_file() {
    let build = || {
        let mut pool = base_pool("SyntheticClassFileTest");
        pool.push(utf8("Synthetic"));
        let mut reference = class_of(JavaVersion { major: 45, minor: 3 }, pool);
        reference.attributes = vec![Attribute::Synthetic { name: ConstantPoolIndex(5) }];
        reference
    };
    assert_eq!(Ok(build()), round_trip(&build()));
}

#[test]
fn check_synthetic_field() {
    let build = || {
        let mut pool = base_pool("SyntheticFieldTest");
        pool.push(utf8("f1"));
        pool.push(utf8("Z"));
        pool.push(utf8("Synthetic"));
        let mut reference = class_of(JavaVersion { major: 45, minor: 3 }, pool);
        reference.fields = vec![Field {
            access_flags: flags(AccessFlags::NONE),
            name: ConstantPoolIndex(5),
            descriptor: ConstantPoolIndex(6),
            attributes: vec![Attribute::Synthetic { name: ConstantPoolIndex(7) }],
        }];
        reference
    };
    assert_eq!(Ok(build()), round_trip(&build()));
}

#[test]
fn check_synthetic_method() {
    let build = || {
        let mut pool = base_pool("SyntheticMethodTest");
        pool.push(utf8("m1"));
        pool.push(utf8("()V"));
        pool.push(utf8("Synthetic"));
        let mut reference = class_of(JavaVersion { major: 45, minor: 3 }, pool);
        reference.methods = vec![Method {
            access_flags: flags(AccessFlags::NONE),
            name: ConstantPoolIndex(5),
            descriptor: ConstantPoolIndex(6),
            attributes: vec![Attribute::Synthetic { name: ConstantPoolIndex(7) }],
        }];
        reference
    };
    assert_eq!(Ok(build()), round_trip(&build()));
}

fn synthetic_code_class(nested: Attribute) -> JavaClass {
    let mut pool = base_pool("SyntheticCodeTest");
    pool.push(utf8("m1"));
    pool.push(utf8("()V"));
    pool.push(utf8("Code"));
    pool.push(utf8("Synthetic"));
    let mut reference = class_of(JavaVersion { major: 45, minor: 3 }, pool);
    reference.methods = vec![Method {
        access_flags: flags(AccessFlags::NONE),
        name: ConstantPoolIndex(5),
        descriptor: ConstantPoolIndex(6),
        attributes: vec![empty_code(7, vec![nested])],
    }];
    reference
}

#[test]
fn check_synthetic_code() {
    let written = synthetic_code_class(Attribute::Synthetic { name: ConstantPoolIndex(8) });
    let read = round_trip(&written).unwrap();
    let unwrapped = synthetic_code_class(Attribute::Synthetic { name: ConstantPoolIndex(8) });
    assert_ne!(unwrapped, read);
    let wrapped = synthetic_code_class(Attribute::InvalidLocation(Box::new(Attribute::Synthetic {
        name: ConstantPoolIndex(8),
    })));
    assert_eq!(wrapped, read);
}
