use jbmf_parser::attribute::annotation::{Annotation, ElementValue, ElementValuePair};
use jbmf_parser::attribute::bootstrap_methods::BootstrapMethod;
use jbmf_parser::attribute::code::{ArrayType, Instruction, MatchOffsetPair, SizedIndex, SmallIndex, WideIndex};
use jbmf_parser::attribute::inner_classes::InnerClass;
use jbmf_parser::attribute::line_number_table::LineNumberTable;
use jbmf_parser::attribute::local_variable_table::LocalVariableTable;
use jbmf_parser::attribute::local_variable_type_table::LocalVariableTypeTable;
use jbmf_parser::attribute::method_parameters::MethodParameter;
use jbmf_parser::attribute::module::{ModuleExports, ModuleOpens, ModuleProvides, ModuleRequires};
use jbmf_parser::attribute::stack_map::{StackMapFrame, VerificationTypeInfo};
use jbmf_parser::attribute::type_annotation::{LocalvarTable, Path, Target, TypeAnnotation, TypePath};
use jbmf_parser::attribute::{CustomAttribute, ExceptionTable, ParameterAnnotation, RawAttribute};
use jbmf_parser::io::Compatibility;
use jbmf_parser::{
    AccessFlags, Attribute, Constant, ConstantPool, ConstantPoolIndex, Field, JavaClass, JavaVersion, MagicNumber,
    Method, ModuleDependencyFlags, ModuleFlags,
};

const NAMES: [&str; 28] = [
    "ConstantValue",
    "Code",
    "StackMapTable",
    "Exceptions",
    "InnerClasses",
    "EnclosingMethod",
    "Synthetic",
    "Signature",
    "SourceFile",
    "SourceDebugExtension",
    "LineNumberTable",
    "LocalVariableTable",
    "LocalVariableTypeTable",
    "Deprecated",
    "RuntimeVisibleAnnotations",
    "RuntimeInvisibleAnnotations",
    "RuntimeVisibleParameterAnnotations",
    "RuntimeInvisibleParameterAnnotations",
    "RuntimeVisibleTypeAnnotations",
    "RuntimeInvisibleTypeAnnotations",
    "AnnotationDefault",
    "BootstrapMethods",
    "MethodParameters",
    "Module",
    "ModulePackages",
    "ModuleMainClass",
    "NestHost",
    "NestMembers",
];

fn name(text: &str) -> ConstantPoolIndex {
    ConstantPoolIndex(NAMES.iter().position(|n| *n == text).unwrap() as u16 + 1)
}

fn cp(index: u16) -> ConstantPoolIndex {
    ConstantPoolIndex(index)
}

fn flags(bits: u16) -> AccessFlags {
    AccessFlags::from_bits(bits).unwrap()
}

fn annotation(depth: u8) -> Annotation {
    let mut pairs = vec![
        ElementValuePair { element_name: cp(40), element_value: ElementValue::ConstValue { tag: 'I', index: cp(41) } },
        ElementValuePair {
            element_name: cp(42),
            element_value: ElementValue::EnumConstValue { type_name_index: cp(43), const_name: cp(44) },
        },
        ElementValuePair { element_name: cp(45), element_value: ElementValue::Class(cp(46)) },
        ElementValuePair {
            element_name: cp(47),
            element_value: ElementValue::ArrayValue(vec![
                ElementValue::ConstValue { tag: 's', index: cp(48) },
                ElementValue::ArrayValue(Vec::new()),
            ]),
        },
    ];
    if depth > 0 {
        pairs.push(ElementValuePair {
            element_name: cp(49),
            element_value: ElementValue::AnnotationValue(annotation(depth - 1)),
        });
    }
    Annotation { ty: cp(50), element_value_pairs: pairs }
}

fn type_annotations() -> Vec<TypeAnnotation> {
    let targets = vec![
        Target::TypeParameter { target_type: 0x01 },
        Target::Supertype { supertype: 65535 },
        Target::TypeParameterBound { target_type: 0x12, bound: 3 },
        Target::Empty { target_type: 0x14 },
        Target::FormalParameter { formal_parameter: 2 },
        Target::Throws { throws_type: 7 },
        Target::Localvar {
            target_type: 0x40,
            table: vec![LocalvarTable { start_pc: 1, length: 2, index: 3 }, LocalvarTable { start_pc: 4, length: 5, index: 6 }],
        },
        Target::Catch { exception_table: 1 },
        Target::Offset { target_type: 0x46, offset: 9 },
        Target::TypeArgument { target_type: 0x4B, type_argument: 1 },
    ];
    targets
        .into_iter()
        .map(|target| TypeAnnotation {
            target,
            target_path: TypePath {
                path: vec![
                    Path { type_path_kind: 0, type_argument_index: 0 },
                    Path { type_path_kind: 3, type_argument_index: 1 },
                ],
            },
            ty: cp(51),
            element_value_pairs: annotation(0).element_value_pairs,
        })
        .collect()
}

fn instructions() -> Vec<Instruction> {
    vec![
        Instruction::Nop,
        Instruction::ALoad { index: SizedIndex::Normal(SmallIndex(4)) },
        Instruction::Wide,
        Instruction::IStore { index: SizedIndex::Wide(WideIndex(300)) },
        Instruction::Wide,
        Instruction::IInc { index: SizedIndex::Wide(WideIndex(300)), value: SizedIndex::Wide(WideIndex(65535)) },
        Instruction::IInc { index: SizedIndex::Normal(SmallIndex(1)), value: SizedIndex::Normal(SmallIndex(255)) },
        Instruction::LDC { index: SmallIndex(9) },
        Instruction::LDC2W { index: WideIndex(10) },
        Instruction::BIPush { value: 200 },
        Instruction::SIPush { value: i16::MIN },
        Instruction::IfICmpLt { offset: 0xFFF0 },
        Instruction::GotoW { offset: 0x12345678 },
        Instruction::InvokeDynamic {
            index: WideIndex(11),
            _zero0: jbmf_parser::attribute::code::AlwaysZero,
            _zero1: jbmf_parser::attribute::code::AlwaysZero,
        },
        Instruction::InvokeInterface { index: WideIndex(12), count: 2, _zero: jbmf_parser::attribute::code::AlwaysZero },
        Instruction::MultiANewArray { index: WideIndex(13), dimensions: 3 },
        Instruction::NewArray { ty: ArrayType::Double },
        Instruction::TableSwitch { default: -1, low: -2, high: 0, offsets: vec![1, 2, 3] },
        Instruction::LookUpSwitch { default: 5, pairs: vec![MatchOffsetPair { match_value: i32::MIN, offset: i32::MAX }] },
        Instruction::TableSwitch { default: 0, low: 5, high: 4, offsets: Vec::new() },
        Instruction::MonitorExit,
        Instruction::AThrow,
    ]
}

fn code_attribute() -> Attribute {
    Attribute::Code {
        name: name("Code"),
        max_stack: Compatibility::Current(4),
        max_locals: Compatibility::Current(301),
        code: Compatibility::Current(instructions()),
        exception_table: vec![ExceptionTable { start_pc: 0, end_pc: 10, handler_pc: 20, catch_type: 30 }],
        attributes: vec![
            Attribute::StackMapTable {
                name: name("StackMapTable"),
                entries: vec![
                    StackMapFrame::Same { frame_type: 63 },
                    StackMapFrame::SameLocals1StackItem { frame_type: 64, stack: VerificationTypeInfo::Null },
                    StackMapFrame::SameLocals1StackItemExtended {
                        offset_delta: 400,
                        stack: VerificationTypeInfo::Uninitialized { offset: 7 },
                    },
                    StackMapFrame::Chop { frame_type: 250, offset_delta: 1 },
                    StackMapFrame::SameExtended { offset_delta: 2 },
                    StackMapFrame::Append {
                        frame_type: 254,
                        offset_delta: 3,
                        locals: vec![
                            VerificationTypeInfo::Top,
                            VerificationTypeInfo::UninitializedThis,
                            VerificationTypeInfo::Object { index: cp(60) },
                        ],
                    },
                    StackMapFrame::Full {
                        offset_delta: 4,
                        locals: vec![VerificationTypeInfo::Long, VerificationTypeInfo::Double],
                        stack: vec![VerificationTypeInfo::Float],
                    },
                ],
            },
            Attribute::LineNumberTable {
                name: name("LineNumberTable"),
                line_numbers: vec![LineNumberTable { start_pc: 0, line_number: 1 }, LineNumberTable { start_pc: 5, line_number: 2 }],
            },
            Attribute::LocalVariableTable {
                name: name("LocalVariableTable"),
                local_variables: vec![LocalVariableTable { start_pc: 0, length: 9, name: cp(61), descriptor: cp(62), index: 0 }],
            },
            Attribute::LocalVariableTypeTable {
                name: name("LocalVariableTypeTable"),
                local_variable_type_table: vec![LocalVariableTypeTable {
                    start_pc: 0,
                    length: 9,
                    name: cp(61),
                    signature: cp(63),
                    index: 0,
                }],
            },
            Attribute::RuntimeInvisibleTypeAnnotations {
                name: name("RuntimeInvisibleTypeAnnotations"),
                annotations: type_annotations(),
            },
        ],
    }
}

fn class() -> JavaClass {
    let mut pool: Vec<Constant> = NAMES.iter().map(|n| Constant::Utf8(n.to_string())).collect();
    pool.push(Constant::Utf8("h\u{00E9}llo \u{1F600}\0".to_string()));
    pool.push(Constant::Long(-5));
    pool.push(Constant::Unusable);
    pool.push(Constant::Dynamic { bootstrap_method_attribute: 1, name_and_type: cp(2) });
    pool.push(Constant::InvalidUtf8(vec![0xFF, 0xC0]));
    JavaClass {
        magic: MagicNumber::Cafebabe,
        version: JavaVersion { major: 55, minor: 0 },
        constant_pool: ConstantPool(pool),
        access_flags: flags(AccessFlags::PUBLIC | AccessFlags::SUPER),
        this_class: cp(70),
        super_class: cp(71),
        interfaces: vec![cp(72), cp(73)],
        fields: vec![Field {
            access_flags: flags(AccessFlags::PRIVATE | AccessFlags::FINAL),
            name: cp(74),
            descriptor: cp(75),
            attributes: vec![
                Attribute::ConstantValue { name: name("ConstantValue"), value: cp(76) },
                Attribute::Synthetic { name: name("Synthetic") },
                Attribute::Deprecated { name: name("Deprecated") },
                Attribute::Signature { name: name("Signature"), signature: cp(77) },
                Attribute::RuntimeVisibleAnnotations {
                    name: name("RuntimeVisibleAnnotations"),
                    annotations: vec![annotation(2), annotation(0)],
                },
                Attribute::RuntimeVisibleTypeAnnotations {
                    name: name("RuntimeVisibleTypeAnnotations"),
                    annotations: type_annotations(),
                },
            ],
        }],
        methods: vec![Method {
            access_flags: flags(AccessFlags::PUBLIC | AccessFlags::ABSTRACT),
            name: cp(78),
            descriptor: cp(79),
            attributes: vec![
                code_attribute(),
                Attribute::Exceptions { name: name("Exceptions"), exception_index_table: vec![cp(80), cp(81)] },
                Attribute::RuntimeInvisibleAnnotations {
                    name: name("RuntimeInvisibleAnnotations"),
                    annotations: vec![annotation(1)],
                },
                Attribute::RuntimeVisibleParameterAnnotations {
                    name: name("RuntimeVisibleParameterAnnotations"),
                    annotations: vec![
                        ParameterAnnotation { annotations: vec![annotation(0)] },
                        ParameterAnnotation { annotations: Vec::new() },
                    ],
                },
                Attribute::RuntimeInvisibleParameterAnnotations {
                    name: name("RuntimeInvisibleParameterAnnotations"),
                    annotations: Vec::new(),
                },
                Attribute::AnnotationDefault {
                    name: name("AnnotationDefault"),
                    default_value: ElementValue::AnnotationValue(annotation(1)),
                },
                Attribute::MethodParameters {
                    name: name("MethodParameters"),
                    parameters: vec![MethodParameter { name: cp(82), access_flags: flags(AccessFlags::FINAL) }],
                },
            ],
        }],
        attributes: vec![
            Attribute::InnerClasses {
                name: name("InnerClasses"),
                classes: vec![InnerClass {
                    inner_class: cp(83),
                    outer_class: cp(0),
                    inner_name: cp(0),
                    inner_class_access_flags: flags(AccessFlags::STATIC),
                }],
            },
            Attribute::EnclosingMethod { name: name("EnclosingMethod"), class: cp(84), method: cp(85) },
            Attribute::SourceFile { name: name("SourceFile"), sourcefile: cp(86) },
            Attribute::SourceDebugExtension { name: name("SourceDebugExtension"), debug_extensions: b"SMAP\n".to_vec() },
            Attribute::BootstrapMethods {
                name: name("BootstrapMethods"),
                methods: vec![BootstrapMethod { method_ref: cp(87), arguments: vec![cp(88), cp(89)] }],
            },
            Attribute::Module {
                name: name("Module"),
                module_name: cp(90),
                flags: ModuleFlags::from_bits(ModuleFlags::OPEN).unwrap(),
                module_version: cp(91),
                module_requires: ModuleRequires {
                    requires_index: cp(92),
                    flags: ModuleDependencyFlags::from_bits(ModuleDependencyFlags::TRANSITIVE).unwrap(),
                    version: cp(93),
                },
                exports: ModuleExports {
                    export: cp(94),
                    flags: ModuleDependencyFlags::from_bits(ModuleDependencyFlags::MANDATED).unwrap(),
                    to: vec![cp(95)],
                },
                opens: ModuleOpens {
                    open: cp(96),
                    flags: ModuleDependencyFlags::from_bits(0).unwrap(),
                    to_index: Vec::new(),
                },
                uses: vec![cp(97), cp(98)],
                provides: ModuleProvides { provide: cp(99), with_index: vec![cp(100)] },
            },
            Attribute::ModulePackages { name: name("ModulePackages"), packages: vec![cp(101)] },
            Attribute::ModuleMainClass { name: name("ModuleMainClass"), main_class: cp(102) },
            Attribute::NestHost { name: name("NestHost"), host_class: cp(103) },
            Attribute::NestMembers { name: name("NestMembers"), classes: vec![cp(104), cp(105)] },
            Attribute::Unknown(RawAttribute { name: cp(29), info: vec![1, 2, 3] }),
            Attribute::IllegalNameReference(RawAttribute { name: cp(30), info: Vec::new() }),
            Attribute::IllegalNameReference(RawAttribute { name: cp(31), info: vec![9] }),
            Attribute::InvalidUtf8(RawAttribute { name: cp(33), info: vec![7; 300] }),
            Attribute::IllegalNameReference(RawAttribute { name: cp(1000), info: vec![0] }),
        ],
    }
}

#[test]
fn every_kind_of_attribute_round_trips() {
    let bytes = class().to_bytes();
    let (read, end) = JavaClass::read(&bytes, 0).unwrap();
    assert_eq!(class(), read);
    assert_eq!(bytes.len(), end);
    assert_eq!(bytes, read.to_bytes());
}

#[test]
fn every_kind_of_attribute_degrades_in_an_old_file() {
    let mut old = class();
    old.version = JavaVersion { major: 45, minor: 3 };
    old.constant_pool.0[31] = Constant::Integer(0);
    let bytes = old.to_bytes();
    let (read, end) = JavaClass::read(&bytes, 0).unwrap();
    assert_eq!(bytes.len(), end);
    assert_eq!(bytes, read.to_bytes());
    assert_eq!(
        Attribute::Unsupported(Box::new(Attribute::EnclosingMethod {
            name: name("EnclosingMethod"),
            class: cp(84),
            method: cp(85)
        })),
        read.attributes[1]
    );
    assert_eq!(Attribute::SourceFile { name: name("SourceFile"), sourcefile: cp(86) }, read.attributes[2]);
    match &read.methods[0].attributes[0] {
        Attribute::Code { attributes, .. } => {
            assert!(matches!(&attributes[0], Attribute::Unsupported(inner) if matches!(**inner, Attribute::StackMapTable { .. })));
            assert!(matches!(&attributes[1], Attribute::LineNumberTable { .. }));
        }
        other => panic!("unexpected {:?}", other),
    }
    assert_eq!(Ok((read, end)), JavaClass::read(&bytes, 0));
}

#[test]
fn write_only_forms_are_written_as_they_are() {
    let mut out = Vec::new();
    Attribute::Raw(RawAttribute { name: cp(2), info: vec![5, 6] }).write(&mut out);
    assert_eq!(vec![0, 2, 0, 0, 0, 2, 5, 6], out);
    let mut out = Vec::new();
    Attribute::Custom(CustomAttribute { name: cp(3), length: 9, info: vec![1] }).write(&mut out);
    assert_eq!(vec![0, 3, 0, 0, 0, 9, 1], out);
    let mut out = Vec::new();
    Constant::Raw { tag: 99, info: vec![1, 2] }.write(&mut out);
    assert_eq!(vec![99, 1, 2], out);
    let mut out = Vec::new();
    Target::Raw { target_type: 0x7F, data: vec![4] }.write(&mut out);
    assert_eq!(vec![0x7F, 4], out);
}
