use jbmf_parser::{parse_method_signature, TypeSignature};

fn class(name: &str) -> TypeSignature {
    TypeSignature::Class(name.to_string())
}

fn array(element: TypeSignature) -> TypeSignature {
    TypeSignature::Array(Box::new(element))
}

#[test]
fn primitive_descriptors() {
    assert_eq!(TypeSignature::Boolean, TypeSignature::from("Z".to_string()));
    assert_eq!(TypeSignature::Byte, TypeSignature::from("B".to_string()));
    assert_eq!(TypeSignature::Char, TypeSignature::from("C".to_string()));
    assert_eq!(TypeSignature::Short, TypeSignature::from("S".to_string()));
    assert_eq!(TypeSignature::Integer, TypeSignature::from("I".to_string()));
    assert_eq!(TypeSignature::Long, TypeSignature::from("J".to_string()));
    assert_eq!(TypeSignature::Float, TypeSignature::from("F".to_string()));
    assert_eq!(TypeSignature::Double, TypeSignature::from("D".to_string()));
    assert_eq!(TypeSignature::Void, TypeSignature::from("V".to_string()));
    assert_eq!(TypeSignature::Void, TypeSignature::from(String::new()));
    assert_eq!(TypeSignature::Arbitrary, TypeSignature::from("x".to_string()));
    assert_eq!(TypeSignature::Integer, TypeSignature::from("IJ".to_string()));
}

#[test]
fn class_and_array_descriptors() {
    assert_eq!(class("java/lang/String"), TypeSignature::from("Ljava/lang/String;".to_string()));
    assert_eq!(class("java/lang/String"), TypeSignature::from("Ljava/lang/String".to_string()));
    assert_eq!(class(""), TypeSignature::from("L".to_string()));
    assert_eq!(class("gr\u{00FC}n/\u{1F600}"), TypeSignature::from("Lgr\u{00FC}n/\u{1F600};I".to_string()));
    assert_eq!(array(TypeSignature::Integer), TypeSignature::from("[I".to_string()));
    assert_eq!(array(array(class("Foo"))), TypeSignature::from("[[LFoo;".to_string()));
    assert_eq!(array(TypeSignature::Void), TypeSignature::from("[".to_string()));
}

#[test]
fn method_descriptors() {
    assert_eq!((Vec::new(), TypeSignature::Void), parse_method_signature("()V"));
    assert_eq!(
        (vec![TypeSignature::Integer, TypeSignature::Long], TypeSignature::Boolean),
        parse_method_signature("(IJ)Z")
    );
    assert_eq!(
        (vec![class("java/lang/String"), array(TypeSignature::Byte), TypeSignature::Double], class("java/lang/Object")),
        parse_method_signature("(Ljava/lang/String;[BD)Ljava/lang/Object;")
    );
    assert_eq!((vec![array(array(TypeSignature::Char))], array(TypeSignature::Integer)), parse_method_signature("([[C)[I"));
    assert_eq!((vec![TypeSignature::Integer], TypeSignature::Void), parse_method_signature("(I)"));
    assert_eq!((vec![TypeSignature::Integer], TypeSignature::Void), parse_method_signature("(I"));
    assert_eq!((Vec::new(), TypeSignature::Void), parse_method_signature(""));
    assert_eq!((vec![TypeSignature::Integer], TypeSignature::Float), parse_method_signature("I)F"));
}
