//! The entries of the constant pool.

use crate::bytes::{
    advanced, decoded, lemma_occurs_split, lemma_round_trip_u16, lemma_round_trip_u32, lemma_round_trip_u64,
    lemma_round_trip_u8, occurs_at, read_bytes, read_i32, read_i64, read_u16, read_u32, read_u64, read_u8,
    spec_available, spec_i32_of, spec_i64_of, spec_read_bytes, spec_read_i32, spec_read_i64, spec_read_u16,
    spec_read_u32, spec_read_u64, spec_read_u8, spec_u16_at, spec_u16_bytes, spec_u32_bytes, spec_u32_of,
    spec_u64_bytes, spec_u64_of, views, write_bytes, write_i32, write_i64, write_u16, write_u32, write_u64,
    write_u8,
};
use crate::constant_pool::ConstantPoolIndex;
use crate::error::Error;
use crate::java_utf8::{
    FromJavaUtf8Ext, ToJavaUtf8Ext, lemma_payload_round_trip, lemma_string_round_trip, spec_from_java_utf8,
    spec_to_java_utf8,
};
use crate::version::JavaVersion;
use vstd::prelude::*;
use vstd::utf8::encode_utf8;

verus! {

/// An entry of the constant pool.
///
/// `Float` and `Double` hold the IEEE 754 bit pattern of the value.
#[derive(Debug, PartialEq, Eq)]
pub enum Constant {
    Utf8(String),
    Integer(i32),
    Float(u32),
    Long(i64),
    Double(u64),
    Class(ConstantPoolIndex),
    String(ConstantPoolIndex),
    FieldRef { class: ConstantPoolIndex, name_and_type: ConstantPoolIndex },
    MethodRef { class: ConstantPoolIndex, name_and_type: ConstantPoolIndex },
    InterfaceMethodRef { class: ConstantPoolIndex, name_and_type: ConstantPoolIndex },
    NameAndType { name: ConstantPoolIndex, descriptor: ConstantPoolIndex },
    MethodHandle { reference_kind: u8, reference: ConstantPoolIndex },
    MethodType(ConstantPoolIndex),
    Dynamic { bootstrap_method_attribute: u16, name_and_type: ConstantPoolIndex },
    InvokeDynamic { bootstrap_method_attribute: u16, name_and_type: ConstantPoolIndex },
    Module(ConstantPoolIndex),
    Package(ConstantPoolIndex),
    /// A tag and payload that are written as they are; never produced by reading.
    Raw { tag: u8, info: Vec<u8> },
    /// A constant of a kind that the version of the file does not have yet.
    Unsupported(Box<Constant>),
    /// The payload of a string constant that is no modified UTF-8.
    InvalidUtf8(Vec<u8>),
    /// The slot behind a `Long` or `Double`, which no entry occupies.
    Unusable,
}

/// The mathematical value of a [`Constant`].
pub enum ConstantView {
    Utf8(Seq<char>),
    Integer(i32),
    Float(u32),
    Long(i64),
    Double(u64),
    Class(ConstantPoolIndex),
    String(ConstantPoolIndex),
    FieldRef { class: ConstantPoolIndex, name_and_type: ConstantPoolIndex },
    MethodRef { class: ConstantPoolIndex, name_and_type: ConstantPoolIndex },
    InterfaceMethodRef { class: ConstantPoolIndex, name_and_type: ConstantPoolIndex },
    NameAndType { name: ConstantPoolIndex, descriptor: ConstantPoolIndex },
    MethodHandle { reference_kind: u8, reference: ConstantPoolIndex },
    MethodType(ConstantPoolIndex),
    Dynamic { bootstrap_method_attribute: u16, name_and_type: ConstantPoolIndex },
    InvokeDynamic { bootstrap_method_attribute: u16, name_and_type: ConstantPoolIndex },
    Module(ConstantPoolIndex),
    Package(ConstantPoolIndex),
    Raw { tag: u8, info: Seq<u8> },
    Unsupported(Box<ConstantView>),
    InvalidUtf8(Seq<u8>),
    Unusable,
}

/// The value of a constant, its strings and byte buffers taken by their contents.
pub open spec fn constant_view(c: Constant) -> ConstantView
    decreases c,
{
    match c {
        Constant::Utf8(v) => ConstantView::Utf8(v@),
        Constant::Integer(v) => ConstantView::Integer(v),
        Constant::Float(v) => ConstantView::Float(v),
        Constant::Long(v) => ConstantView::Long(v),
        Constant::Double(v) => ConstantView::Double(v),
        Constant::Class(v) => ConstantView::Class(v),
        Constant::String(v) => ConstantView::String(v),
        Constant::FieldRef { class, name_and_type } => ConstantView::FieldRef { class, name_and_type },
        Constant::MethodRef { class, name_and_type } => ConstantView::MethodRef { class, name_and_type },
        Constant::InterfaceMethodRef { class, name_and_type } => ConstantView::InterfaceMethodRef {
            class,
            name_and_type,
        },
        Constant::NameAndType { name, descriptor } => ConstantView::NameAndType { name, descriptor },
        Constant::MethodHandle { reference_kind, reference } => ConstantView::MethodHandle {
            reference_kind,
            reference,
        },
        Constant::MethodType(v) => ConstantView::MethodType(v),
        Constant::Dynamic { bootstrap_method_attribute, name_and_type } => ConstantView::Dynamic {
            bootstrap_method_attribute,
            name_and_type,
        },
        Constant::InvokeDynamic { bootstrap_method_attribute, name_and_type } => ConstantView::InvokeDynamic {
            bootstrap_method_attribute,
            name_and_type,
        },
        Constant::Module(v) => ConstantView::Module(v),
        Constant::Package(v) => ConstantView::Package(v),
        Constant::Raw { tag, info } => ConstantView::Raw { tag, info: info@ },
        Constant::Unsupported(inner) => ConstantView::Unsupported(Box::new(constant_view(*inner))),
        Constant::InvalidUtf8(v) => ConstantView::InvalidUtf8(v@),
        Constant::Unusable => ConstantView::Unusable,
    }
}

impl View for Constant {
    type V = ConstantView;

    open spec fn view(&self) -> ConstantView {
        constant_view(*self)
    }
}

impl ConstantView {
    /// Whether the constant takes two slots of the pool.
    pub open spec fn is_double_slot(self) -> bool {
        match self {
            ConstantView::Long(_) | ConstantView::Double(_) => true,
            ConstantView::Unsupported(inner) => *inner is Long || *inner is Double,
            _ => false,
        }
    }

    /// The first version that has constants of this kind, as `(major, minor)`.
    pub open spec fn min_version(self) -> (u16, u16) {
        match self {
            ConstantView::MethodHandle { .. } | ConstantView::MethodType(_) | ConstantView::InvokeDynamic { .. } => (
                51,
                0,
            ),
            ConstantView::Dynamic { .. } => (55, 0),
            ConstantView::Module(_) | ConstantView::Package(_) => (53, 0),
            _ => (45, 3),
        }
    }

    /// The constant as it enters the pool of a file of the given version: wrapped where the
    /// version does not have its kind yet.
    pub open spec fn gated(self, version: JavaVersion) -> ConstantView {
        if version.spec_supports(self.min_version().0, self.min_version().1) {
            self
        } else {
            ConstantView::Unsupported(Box::new(self))
        }
    }

    /// The modified UTF-8 payload of a string constant.
    #[verifier::opaque]
    pub open spec fn spec_utf8_payload(chars: Seq<char>) -> Seq<u8> {
        spec_to_java_utf8(encode_utf8(chars))
    }

    /// The bytes of the entry: its tag and payload.  The wrapper `Unsupported` adds nothing,
    /// and `Unusable` has no bytes.
    pub open spec fn spec_write(self) -> Seq<u8>
        decreases self,
    {
        match self {
            ConstantView::Utf8(chars) => seq![1u8] + spec_u16_bytes(
                (Self::spec_utf8_payload(chars).len() % 0x1_0000) as u16,
            ) + Self::spec_utf8_payload(chars),
            ConstantView::Integer(v) => seq![3u8] + spec_u32_bytes(spec_u32_of(v)),
            ConstantView::Float(v) => seq![4u8] + spec_u32_bytes(v),
            ConstantView::Long(v) => seq![5u8] + spec_u64_bytes(spec_u64_of(v)),
            ConstantView::Double(v) => seq![6u8] + spec_u64_bytes(v),
            ConstantView::Class(v) => seq![7u8] + spec_u16_bytes(v.0),
            ConstantView::String(v) => seq![8u8] + spec_u16_bytes(v.0),
            ConstantView::FieldRef { class, name_and_type } => seq![9u8] + spec_u16_bytes(class.0)
                + spec_u16_bytes(
                name_and_type.0,
            ),
            ConstantView::MethodRef { class, name_and_type } => seq![10u8] + spec_u16_bytes(class.0)
                + spec_u16_bytes(name_and_type.0),
            ConstantView::InterfaceMethodRef { class, name_and_type } => seq![11u8] + spec_u16_bytes(class.0)
                + spec_u16_bytes(name_and_type.0),
            ConstantView::NameAndType { name, descriptor } => seq![12u8] + spec_u16_bytes(name.0)
                + spec_u16_bytes(
                descriptor.0,
            ),
            ConstantView::MethodHandle { reference_kind, reference } => seq![15u8] + seq![reference_kind]
                + spec_u16_bytes(reference.0),
            ConstantView::MethodType(v) => seq![16u8] + spec_u16_bytes(v.0),
            ConstantView::Dynamic { bootstrap_method_attribute, name_and_type } => seq![17u8]
                + spec_u16_bytes(
                bootstrap_method_attribute,
            ) + spec_u16_bytes(name_and_type.0),
            ConstantView::InvokeDynamic { bootstrap_method_attribute, name_and_type } => seq![18u8]
                + spec_u16_bytes(bootstrap_method_attribute) + spec_u16_bytes(name_and_type.0),
            ConstantView::Module(v) => seq![19u8] + spec_u16_bytes(v.0),
            ConstantView::Package(v) => seq![20u8] + spec_u16_bytes(v.0),
            ConstantView::Raw { tag, info } => seq![tag] + info,
            ConstantView::Unsupported(inner) => inner.spec_write(),
            ConstantView::InvalidUtf8(bytes) => seq![1u8] + spec_u16_bytes((bytes.len() % 0x1_0000) as u16)
                + bytes,
            ConstantView::Unusable => Seq::empty(),
        }
    }

    /// Whether reading can produce this constant before the version is looked at.
    pub open spec fn wf_bare(self) -> bool {
        match self {
            ConstantView::Utf8(chars) => Self::spec_utf8_payload(chars).len() <= 0xFFFF,
            ConstantView::InvalidUtf8(bytes) => bytes.len() <= 0xFFFF && spec_from_java_utf8(bytes) is None,
            ConstantView::Raw { .. } | ConstantView::Unsupported(_) | ConstantView::Unusable => false,
            _ => true,
        }
    }

    /// Whether reading a file of the given version can produce this entry: it is wrapped
    /// exactly when the version does not have its kind.
    pub open spec fn wf(self, version: JavaVersion) -> bool {
        match self {
            ConstantView::Unsupported(inner) => inner.wf_bare() && inner.gated(version) == self,
            _ => self.wf_bare() && self.gated(version) == self,
        }
    }
}

/// The two indices that start at `p`.
pub open spec fn spec_read_index_pair(s: Seq<u8>, p: int) -> Result<
    (ConstantPoolIndex, ConstantPoolIndex, int),
    Error,
> {
    if spec_available(s, p, 4) {
        Ok((ConstantPoolIndex(spec_u16_at(s, p)), ConstantPoolIndex(spec_u16_at(s, p + 2)), p + 4))
    } else {
        Err(Error::UnexpectedEof)
    }
}

fn read_index_pair(
    data: &[u8],
    pos: usize,
) -> (r: Result<(ConstantPoolIndex, ConstantPoolIndex, usize), Error>)
    ensures
        match spec_read_index_pair(data@, pos as int) {
            Ok((a, b, p)) => r matches Ok((ra, rb, rp)) && ra == a && rb == b && rp as int == p && (pos
                <= data@.len() ==> pos <= rp <= data@.len()),
            Err(e) => r == Err::<(ConstantPoolIndex, ConstantPoolIndex, usize), Error>(e),
        },
{
    let (a, pos1) = match read_u16(data, pos) {
        Ok(x) => x,
        Err(e) => {
            return Err(e);
        },
    };
    let (b, pos2) = match read_u16(data, pos1) {
        Ok(x) => x,
        Err(e) => {
            return Err(e);
        },
    };
    Ok((ConstantPoolIndex(a), ConstantPoolIndex(b), pos2))
}

/// Reading a tag and the 16-bit value behind it.
proof fn lemma_tagged_u16(tag: u8, v: u16, s: Seq<u8>, p: int)
    requires
        occurs_at(s, p, seq![tag] + spec_u16_bytes(v)),
    ensures
        spec_read_u8(s, p) == Ok::<(u8, int), Error>((tag, p + 1)),
        spec_read_u16(s, p + 1) == Ok::<(u16, int), Error>((v, p + 3)),
        (seq![tag] + spec_u16_bytes(v)).len() == 3,
{
    lemma_occurs_split(s, p, seq![tag], spec_u16_bytes(v));
    lemma_round_trip_u8(tag, s, p);
    lemma_round_trip_u16(v, s, p + 1);
}

/// Reading a tag and the 32-bit value behind it.
proof fn lemma_tagged_u32(tag: u8, v: u32, s: Seq<u8>, p: int)
    requires
        occurs_at(s, p, seq![tag] + spec_u32_bytes(v)),
    ensures
        spec_read_u8(s, p) == Ok::<(u8, int), Error>((tag, p + 1)),
        spec_read_u32(s, p + 1) == Ok::<(u32, int), Error>((v, p + 5)),
        spec_read_i32(s, p + 1) == Ok::<(i32, int), Error>((spec_i32_of(v), p + 5)),
        (seq![tag] + spec_u32_bytes(v)).len() == 5,
{
    lemma_occurs_split(s, p, seq![tag], spec_u32_bytes(v));
    lemma_round_trip_u8(tag, s, p);
    lemma_round_trip_u32(v, s, p + 1);
}

/// Reading a tag and the 64-bit value behind it.
proof fn lemma_tagged_u64(tag: u8, v: u64, s: Seq<u8>, p: int)
    requires
        occurs_at(s, p, seq![tag] + spec_u64_bytes(v)),
    ensures
        spec_read_u8(s, p) == Ok::<(u8, int), Error>((tag, p + 1)),
        spec_read_u64(s, p + 1) == Ok::<(u64, int), Error>((v, p + 9)),
        spec_read_i64(s, p + 1) == Ok::<(i64, int), Error>((spec_i64_of(v), p + 9)),
        (seq![tag] + spec_u64_bytes(v)).len() == 9,
{
    lemma_occurs_split(s, p, seq![tag], spec_u64_bytes(v));
    lemma_round_trip_u8(tag, s, p);
    lemma_round_trip_u64(v, s, p + 1);
}

/// Reading a tag and the two 16-bit values behind it.
proof fn lemma_tagged_pair(tag: u8, a: u16, b: u16, s: Seq<u8>, p: int)
    requires
        occurs_at(s, p, seq![tag] + spec_u16_bytes(a) + spec_u16_bytes(b)),
    ensures
        spec_read_u8(s, p) == Ok::<(u8, int), Error>((tag, p + 1)),
        spec_read_index_pair(s, p + 1) == Ok::<(ConstantPoolIndex, ConstantPoolIndex, int), Error>(
            (ConstantPoolIndex(a), ConstantPoolIndex(b), p + 5),
        ),
        (seq![tag] + spec_u16_bytes(a) + spec_u16_bytes(b)).len() == 5,
{
    lemma_occurs_split(s, p, seq![tag] + spec_u16_bytes(a), spec_u16_bytes(b));
    lemma_occurs_split(s, p, seq![tag], spec_u16_bytes(a));
    lemma_round_trip_u8(tag, s, p);
    lemma_round_trip_u16(a, s, p + 1);
    lemma_round_trip_u16(b, s, p + 3);
}

/// Reading a tag, a 16-bit length and the payload of that length behind it.
proof fn lemma_tagged_payload(tag: u8, payload: Seq<u8>, s: Seq<u8>, p: int)
    requires
        payload.len() <= 0xFFFF,
        occurs_at(s, p, seq![tag] + spec_u16_bytes((payload.len() % 0x1_0000) as u16) + payload),
    ensures
        spec_read_u8(s, p) == Ok::<(u8, int), Error>((tag, p + 1)),
        spec_read_u16(s, p + 1) == Ok::<(u16, int), Error>((payload.len() as u16, p + 3)),
        spec_read_bytes(s, p + 3, payload.len() as int) == Ok::<(Seq<u8>, int), Error>(
            (payload, p + 3 + payload.len()),
        ),
        (seq![tag] + spec_u16_bytes((payload.len() % 0x1_0000) as u16) + payload).len() == 3 + payload.len(),
{
    let n = (payload.len() % 0x1_0000) as u16;
    lemma_occurs_split(s, p, seq![tag] + spec_u16_bytes(n), payload);
    lemma_occurs_split(s, p, seq![tag], spec_u16_bytes(n));
    lemma_round_trip_u8(tag, s, p);
    lemma_round_trip_u16(n, s, p + 1);
}

impl Constant {
    /// The string constant whose length field starts at `p`: its text, or the raw payload
    /// where that is no modified UTF-8.
    pub open spec fn spec_read_utf8(s: Seq<u8>, p: int) -> Result<(ConstantView, int), Error> {
        match spec_read_u16(s, p) {
            Err(e) => Err(e),
            Ok((n, at1)) => match spec_read_bytes(s, at1, n as int) {
                Err(e) => Err(e),
                Ok((bytes, at2)) => match spec_from_java_utf8(bytes) {
                    Some(chars) => Ok((ConstantView::Utf8(chars), at2)),
                    None => Ok((ConstantView::InvalidUtf8(bytes), at2)),
                },
            },
        }
    }

    /// The numeric constant of the given tag whose value stands at `p`.
    pub open spec fn spec_read_number(tag: u8, s: Seq<u8>, p: int) -> Result<(ConstantView, int), Error> {
        if tag == 3 {
            match spec_read_i32(s, p) {
                Err(e) => Err(e),
                Ok((v, q)) => Ok((ConstantView::Integer(v), q)),
            }
        } else if tag == 4 {
            match spec_read_u32(s, p) {
                Err(e) => Err(e),
                Ok((v, q)) => Ok((ConstantView::Float(v), q)),
            }
        } else if tag == 5 {
            match spec_read_i64(s, p) {
                Err(e) => Err(e),
                Ok((v, q)) => Ok((ConstantView::Long(v), q)),
            }
        } else {
            match spec_read_u64(s, p) {
                Err(e) => Err(e),
                Ok((v, q)) => Ok((ConstantView::Double(v), q)),
            }
        }
    }

    /// The constant of the given tag that holds the one reference at `p`.
    pub open spec fn spec_read_reference(tag: u8, s: Seq<u8>, p: int) -> Result<(ConstantView, int), Error> {
        match spec_read_u16(s, p) {
            Err(e) => Err(e),
            Ok((v, q)) => Ok(
                (
                    if tag == 7 {
                        ConstantView::Class(ConstantPoolIndex(v))
                    } else if tag == 8 {
                        ConstantView::String(ConstantPoolIndex(v))
                    } else if tag == 16 {
                        ConstantView::MethodType(ConstantPoolIndex(v))
                    } else if tag == 19 {
                        ConstantView::Module(ConstantPoolIndex(v))
                    } else {
                        ConstantView::Package(ConstantPoolIndex(v))
                    },
                    q,
                ),
            ),
        }
    }

    /// The constant of the given tag that holds the two 16-bit parts at `p`.
    pub open spec fn spec_read_pair(tag: u8, s: Seq<u8>, p: int) -> Result<(ConstantView, int), Error> {
        match spec_read_index_pair(s, p) {
            Err(e) => Err(e),
            Ok((a, b, q)) => Ok(
                (
                    if tag == 9 {
                        ConstantView::FieldRef { class: a, name_and_type: b }
                    } else if tag == 10 {
                        ConstantView::MethodRef { class: a, name_and_type: b }
                    } else if tag == 11 {
                        ConstantView::InterfaceMethodRef { class: a, name_and_type: b }
                    } else if tag == 12 {
                        ConstantView::NameAndType { name: a, descriptor: b }
                    } else if tag == 17 {
                        ConstantView::Dynamic { bootstrap_method_attribute: a.0, name_and_type: b }
                    } else {
                        ConstantView::InvokeDynamic { bootstrap_method_attribute: a.0, name_and_type: b }
                    },
                    q,
                ),
            ),
        }
    }

    /// The method handle whose reference kind stands at `p`.
    pub open spec fn spec_read_handle(s: Seq<u8>, p: int) -> Result<(ConstantView, int), Error> {
        match spec_read_u8(s, p) {
            Err(e) => Err(e),
            Ok((kind, at1)) => match spec_read_u16(s, at1) {
                Err(e) => Err(e),
                Ok((v, q)) => Ok(
                    (ConstantView::MethodHandle { reference_kind: kind, reference: ConstantPoolIndex(v) }, q),
                ),
            },
        }
    }

    /// The constant that starts with its tag at `p`, before the version is looked at.
    #[verifier::opaque]
    pub open spec fn spec_read_bare(s: Seq<u8>, p: int) -> Result<(ConstantView, int), Error> {
        match spec_read_u8(s, p) {
            Err(e) => Err(e),
            Ok((tag, at1)) => if tag == 1 {
                Self::spec_read_utf8(s, at1)
            } else if tag == 3 || tag == 4 || tag == 5 || tag == 6 {
                Self::spec_read_number(tag, s, at1)
            } else if tag == 7 || tag == 8 || tag == 16 || tag == 19 || tag == 20 {
                Self::spec_read_reference(tag, s, at1)
            } else if tag == 9 || tag == 10 || tag == 11 || tag == 12 || tag == 17 || tag == 18 {
                Self::spec_read_pair(tag, s, at1)
            } else if tag == 15 {
                Self::spec_read_handle(s, at1)
            } else {
                Err(Error::UnknownTag(tag))
            },
        }
    }

    /// The pool entries that the constant at `p` gives: the constant, wrapped where the
    /// version lacks its kind, and the unusable slot behind a `Long` or `Double`.
    pub open spec fn spec_read(
        s: Seq<u8>,
        p: int,
        version: JavaVersion,
    ) -> Result<(Seq<ConstantView>, int), Error> {
        match Self::spec_read_bare(s, p) {
            Err(e) => Err(e),
            Ok((c, q)) => if c.is_double_slot() {
                Ok((seq![c.gated(version), ConstantView::Unusable], q))
            } else {
                Ok((seq![c.gated(version)], q))
            },
        }
    }

    fn read_utf8(data: &[u8], pos: usize) -> (r: Result<(Constant, usize), Error>)
        ensures
            decoded(r, Self::spec_read_utf8(data@, pos as int)),
            advanced(r, data@, pos),
    {
        let (n, pos1) = match read_u16(data, pos) {
            Ok(x) => x,
            Err(e) => {
                return Err(e);
            },
        };
        let (bytes, pos2) = match read_bytes(data, pos1, n as usize) {
            Ok(x) => x,
            Err(e) => {
                return Err(e);
            },
        };
        match <String as FromJavaUtf8Ext>::from_java_utf8(bytes.as_slice()) {
            Ok(text) => Ok((Constant::Utf8(text), pos2)),
            Err(_) => Ok((Constant::InvalidUtf8(bytes), pos2)),
        }
    }

    fn read_bare(data: &[u8], pos: usize) -> (r: Result<(Constant, usize), Error>)
        ensures
            decoded(r, Self::spec_read_bare(data@, pos as int)),
            advanced(r, data@, pos),
    {
        proof {
            reveal(Constant::spec_read_bare);
        }
        let (tag, pos1) = match read_u8(data, pos) {
            Ok(x) => x,
            Err(e) => {
                return Err(e);
            },
        };
        match tag {
            1 => Self::read_utf8(data, pos1),
            3 => match read_i32(data, pos1) {
                Ok((v, q)) => Ok((Constant::Integer(v), q)),
                Err(e) => Err(e),
            },
            4 => match read_u32(data, pos1) {
                Ok((v, q)) => Ok((Constant::Float(v), q)),
                Err(e) => Err(e),
            },
            5 => match read_i64(data, pos1) {
                Ok((v, q)) => Ok((Constant::Long(v), q)),
                Err(e) => Err(e),
            },
            6 => match read_u64(data, pos1) {
                Ok((v, q)) => Ok((Constant::Double(v), q)),
                Err(e) => Err(e),
            },
            7 | 8 | 16 | 19 | 20 => match read_u16(data, pos1) {
                Ok((v, q)) => {
                    let index = ConstantPoolIndex(v);
                    let constant = if tag == 7 {
                        Constant::Class(index)
                    } else if tag == 8 {
                        Constant::String(index)
                    } else if tag == 16 {
                        Constant::MethodType(index)
                    } else if tag == 19 {
                        Constant::Module(index)
                    } else {
                        Constant::Package(index)
                    };
                    Ok((constant, q))
                },
                Err(e) => Err(e),
            },
            9 | 10 | 11 | 12 => match read_index_pair(data, pos1) {
                Ok((a, b, q)) => {
                    let constant = if tag == 9 {
                        Constant::FieldRef { class: a, name_and_type: b }
                    } else if tag == 10 {
                        Constant::MethodRef { class: a, name_and_type: b }
                    } else if tag == 11 {
                        Constant::InterfaceMethodRef { class: a, name_and_type: b }
                    } else {
                        Constant::NameAndType { name: a, descriptor: b }
                    };
                    Ok((constant, q))
                },
                Err(e) => Err(e),
            },
            15 => {
                let (kind, pos2) = match read_u8(data, pos1) {
                    Ok(x) => x,
                    Err(e) => {
                        return Err(e);
                    },
                };
                match read_u16(data, pos2) {
                    Ok((v, q)) => Ok(
                        (Constant::MethodHandle { reference_kind: kind, reference: ConstantPoolIndex(v) }, q),
                    ),
                    Err(e) => Err(e),
                }
            },
            17 | 18 => match read_index_pair(data, pos1) {
                Ok((a, b, q)) => {
                    let constant = if tag == 17 {
                        Constant::Dynamic { bootstrap_method_attribute: a.0, name_and_type: b }
                    } else {
                        Constant::InvokeDynamic { bootstrap_method_attribute: a.0, name_and_type: b }
                    };
                    Ok((constant, q))
                },
                Err(e) => Err(e),
            },
            _ => Err(Error::UnknownTag(tag)),
        }
    }

    /// Whether the constant takes two slots of the pool.
    pub fn is_double_slot(&self) -> (r: bool)
        ensures
            r == self@.is_double_slot(),
    {
        proof {
            reveal_with_fuel(constant_view, 2);
        }
        match self {
            Constant::Long(_) | Constant::Double(_) => true,
            Constant::Unsupported(inner) => match &**inner {
                Constant::Long(_) | Constant::Double(_) => true,
                _ => false,
            },
            _ => false,
        }
    }

    /// The first version that has constants of this kind, as `(major, minor)`.
    pub fn min_version(&self) -> (r: (u16, u16))
        ensures
            r == self@.min_version(),
    {
        match self {
            Constant::MethodHandle { .. } | Constant::MethodType(_) | Constant::InvokeDynamic { .. } => (51, 0),
            Constant::Dynamic { .. } => (55, 0),
            Constant::Module(_) | Constant::Package(_) => (53, 0),
            _ => (45, 3),
        }
    }

    /// Reads the constant at `pos` and gives the pool entries it stands for.
    pub fn read(data: &[u8], pos: usize, version: &JavaVersion) -> (r: Result<(Vec<Constant>, usize), Error>)
        ensures
            match Self::spec_read(data@, pos as int, *version) {
                Ok((v, p)) => r matches Ok((rv, rp)) && views(rv@) == v && rp as int == p,
                Err(e) => r == Err::<(Vec<Constant>, usize), Error>(e),
            },
            advanced(r, data@, pos),
    {
        let (constant, next) = match Self::read_bare(data, pos) {
            Ok(x) => x,
            Err(e) => {
                return Err(e);
            },
        };
        let double = constant.is_double_slot();
        let min = constant.min_version();
        let ghost bare = constant@;
        let entry = if version.supports(min.0, min.1) {
            constant
        } else {
            Constant::Unsupported(Box::new(constant))
        };
        assert(entry@ == bare.gated(*version));
        let mut entries: Vec<Constant> = Vec::new();
        entries.push(entry);
        if double {
            entries.push(Constant::Unusable);
            assert(views(entries@) =~= seq![bare.gated(*version), ConstantView::Unusable]);
        } else {
            assert(views(entries@) =~= seq![bare.gated(*version)]);
        }
        Ok((entries, next))
    }

    /// Appends the bytes of the entry.
    pub fn write(&self, out: &mut Vec<u8>)
        ensures
            final(out)@ == old(out)@ + self@.spec_write(),
        decreases self,
    {
        match self {
            Constant::Utf8(text) => {
                proof {
                    reveal(ConstantView::spec_utf8_payload);
                }
                let bytes = match ToJavaUtf8Ext::to_java_utf8(text) {
                    Ok(b) => b,
                    Err(_) => Vec::new(),
                };
                write_u8(out, 1);
                write_u16(out, (bytes.len() % 0x1_0000) as u16);
                write_bytes(out, bytes.as_slice());
            },
            Constant::Integer(v) => {
                write_u8(out, 3);
                write_i32(out, *v);
            },
            Constant::Float(v) => {
                write_u8(out, 4);
                write_u32(out, *v);
            },
            Constant::Long(v) => {
                write_u8(out, 5);
                write_i64(out, *v);
            },
            Constant::Double(v) => {
                write_u8(out, 6);
                write_u64(out, *v);
            },
            Constant::Class(v) => {
                write_u8(out, 7);
                write_u16(out, v.0);
            },
            Constant::String(v) => {
                write_u8(out, 8);
                write_u16(out, v.0);
            },
            Constant::FieldRef { class, name_and_type } => {
                write_u8(out, 9);
                write_u16(out, class.0);
                write_u16(out, name_and_type.0);
            },
            Constant::MethodRef { class, name_and_type } => {
                write_u8(out, 10);
                write_u16(out, class.0);
                write_u16(out, name_and_type.0);
            },
            Constant::InterfaceMethodRef { class, name_and_type } => {
                write_u8(out, 11);
                write_u16(out, class.0);
                write_u16(out, name_and_type.0);
            },
            Constant::NameAndType { name, descriptor } => {
                write_u8(out, 12);
                write_u16(out, name.0);
                write_u16(out, descriptor.0);
            },
            Constant::MethodHandle { reference_kind, reference } => {
                write_u8(out, 15);
                write_u8(out, *reference_kind);
                write_u16(out, reference.0);
            },
            Constant::MethodType(v) => {
                write_u8(out, 16);
                write_u16(out, v.0);
            },
            Constant::Dynamic { bootstrap_method_attribute, name_and_type } => {
                write_u8(out, 17);
                write_u16(out, *bootstrap_method_attribute);
                write_u16(out, name_and_type.0);
            },
            Constant::InvokeDynamic { bootstrap_method_attribute, name_and_type } => {
                write_u8(out, 18);
                write_u16(out, *bootstrap_method_attribute);
                write_u16(out, name_and_type.0);
            },
            Constant::Module(v) => {
                write_u8(out, 19);
                write_u16(out, v.0);
            },
            Constant::Package(v) => {
                write_u8(out, 20);
                write_u16(out, v.0);
            },
            Constant::Raw { tag, info } => {
                write_u8(out, *tag);
                write_bytes(out, info.as_slice());
            },
            Constant::Unsupported(inner) => {
                inner.write(out);
            },
            Constant::InvalidUtf8(bytes) => {
                write_u8(out, 1);
                write_u16(out, (bytes.len() % 0x1_0000) as u16);
                write_bytes(out, bytes.as_slice());
            },
            Constant::Unusable => {},
        }
        proof {
            assert(out@ =~= old(out)@ + self@.spec_write());
        }
    }

    /// Reading back a string constant.
    proof fn lemma_round_trip_text(c: ConstantView, s: Seq<u8>, p: int)
        requires
            c is Utf8 || c is InvalidUtf8,
            c.wf_bare(),
            occurs_at(s, p, c.spec_write()),
        ensures
            Self::spec_read_bare(s, p) == Ok::<(ConstantView, int), Error>((c, p + c.spec_write().len())),
    {
        reveal(Constant::spec_read_bare);
        match c {
            ConstantView::Utf8(chars) => {
                lemma_tagged_payload(1, ConstantView::spec_utf8_payload(chars), s, p);
                lemma_string_round_trip(chars);
                reveal(ConstantView::spec_utf8_payload);
            },
            ConstantView::InvalidUtf8(bytes) => {
                lemma_tagged_payload(1, bytes, s, p);
            },
            _ => {},
        }
    }

    /// Reading back a numeric constant.
    proof fn lemma_round_trip_number(c: ConstantView, s: Seq<u8>, p: int)
        requires
            c is Integer || c is Float || c is Long || c is Double,
            c.wf_bare(),
            occurs_at(s, p, c.spec_write()),
        ensures
            Self::spec_read_bare(s, p) == Ok::<(ConstantView, int), Error>((c, p + c.spec_write().len())),
    {
        reveal(Constant::spec_read_bare);
        match c {
            ConstantView::Integer(v) => {
                lemma_tagged_u32(3, spec_u32_of(v), s, p);
            },
            ConstantView::Float(v) => {
                lemma_tagged_u32(4, v, s, p);
            },
            ConstantView::Long(v) => {
                lemma_tagged_u64(5, spec_u64_of(v), s, p);
            },
            ConstantView::Double(v) => {
                lemma_tagged_u64(6, v, s, p);
            },
            _ => {},
        }
    }

    /// Reading back a constant that holds one reference.
    proof fn lemma_round_trip_reference(c: ConstantView, s: Seq<u8>, p: int)
        requires
            c is Class || c is String || c is MethodType || c is Module || c is Package,
            c.wf_bare(),
            occurs_at(s, p, c.spec_write()),
        ensures
            Self::spec_read_bare(s, p) == Ok::<(ConstantView, int), Error>((c, p + c.spec_write().len())),
    {
        reveal(Constant::spec_read_bare);
        match c {
            ConstantView::Class(v) => {
                lemma_tagged_u16(7, v.0, s, p);
            },
            ConstantView::String(v) => {
                lemma_tagged_u16(8, v.0, s, p);
            },
            ConstantView::MethodType(v) => {
                lemma_tagged_u16(16, v.0, s, p);
            },
            ConstantView::Module(v) => {
                lemma_tagged_u16(19, v.0, s, p);
            },
            ConstantView::Package(v) => {
                lemma_tagged_u16(20, v.0, s, p);
            },
            _ => {},
        }
    }

    /// Reading back a constant that holds two parts.
    proof fn lemma_round_trip_pair(c: ConstantView, s: Seq<u8>, p: int)
        requires
            c is FieldRef || c is MethodRef || c is InterfaceMethodRef || c is NameAndType || c is Dynamic
                || c is InvokeDynamic || c is MethodHandle,
            c.wf_bare(),
            occurs_at(s, p, c.spec_write()),
        ensures
            Self::spec_read_bare(s, p) == Ok::<(ConstantView, int), Error>((c, p + c.spec_write().len())),
    {
        reveal(Constant::spec_read_bare);
        match c {
            ConstantView::FieldRef { class, name_and_type } => {
                lemma_tagged_pair(9, class.0, name_and_type.0, s, p);
            },
            ConstantView::MethodRef { class, name_and_type } => {
                lemma_tagged_pair(10, class.0, name_and_type.0, s, p);
            },
            ConstantView::InterfaceMethodRef { class, name_and_type } => {
                lemma_tagged_pair(11, class.0, name_and_type.0, s, p);
            },
            ConstantView::NameAndType { name, descriptor } => {
                lemma_tagged_pair(12, name.0, descriptor.0, s, p);
            },
            ConstantView::Dynamic { bootstrap_method_attribute, name_and_type } => {
                lemma_tagged_pair(17, bootstrap_method_attribute, name_and_type.0, s, p);
            },
            ConstantView::InvokeDynamic { bootstrap_method_attribute, name_and_type } => {
                lemma_tagged_pair(18, bootstrap_method_attribute, name_and_type.0, s, p);
            },
            ConstantView::MethodHandle { reference_kind, reference } => {
                let w = seq![15u8] + seq![reference_kind] + spec_u16_bytes(reference.0);
                lemma_occurs_split(s, p, seq![15u8] + seq![reference_kind], spec_u16_bytes(reference.0));
                lemma_occurs_split(s, p, seq![15u8], seq![reference_kind]);
                lemma_round_trip_u8(15, s, p);
                lemma_round_trip_u8(reference_kind, s, p + 1);
                lemma_round_trip_u16(reference.0, s, p + 2);
            },
            _ => {},
        }
    }

    /// Reading back a written constant that reading can produce at all, before the version
    /// is looked at, yields it.
    pub proof fn lemma_round_trip_bare(c: ConstantView, s: Seq<u8>, p: int)
        requires
            c.wf_bare(),
            occurs_at(s, p, c.spec_write()),
        ensures
            Self::spec_read_bare(s, p) == Ok::<(ConstantView, int), Error>((c, p + c.spec_write().len())),
    {
        if c is Utf8 || c is InvalidUtf8 {
            Self::lemma_round_trip_text(c, s, p);
        } else if c is Integer || c is Float || c is Long || c is Double {
            Self::lemma_round_trip_number(c, s, p);
        } else if c is Class || c is String || c is MethodType || c is Module || c is Package {
            Self::lemma_round_trip_reference(c, s, p);
        } else {
            Self::lemma_round_trip_pair(c, s, p);
        }
    }

    /// What reading hands out before the version is looked at is a constant of one of the
    /// seventeen kinds, or the payload of a malformed string.
    pub proof fn lemma_read_bare_kind(s: Seq<u8>, p: int)
        ensures
            Self::spec_read_bare(s, p) matches Ok((c, _)) ==> !(c is Unusable) && !(c is Unsupported)
                && !(c is Raw),
    {
        reveal(Constant::spec_read_bare);
    }

    /// A string constant that was read is one that reading can produce, and has as many
    /// bytes as were taken.
    proof fn lemma_read_text_wf(s: Seq<u8>, p: int)
        ensures
            Self::spec_read_utf8(s, p) matches Ok((c, q)) ==> c.wf_bare() && q + 1 == p + c.spec_write().len()
                && q
                <= s.len(),
    {
        if let Ok((n, at1)) = spec_read_u16(s, p) {
            if let Ok((bytes, at2)) = spec_read_bytes(s, at1, n as int) {
                lemma_payload_round_trip(bytes);
                reveal(ConstantView::spec_utf8_payload);
            }
        }
    }

    /// What was read as a numeric constant is one, and has as many bytes as were taken.
    proof fn lemma_read_number_wf(tag: u8, s: Seq<u8>, p: int)
        requires
            tag == 3 || tag == 4 || tag == 5 || tag == 6,
        ensures
            Self::spec_read_number(tag, s, p) matches Ok((c, q)) ==> c.wf_bare()
                && q + 1 == p + c.spec_write().len()
                && q <= s.len() && c.spec_write()[0] == tag,
    {
    }

    /// What was read as a constant that holds one reference is one, and has as many bytes
    /// as were taken.
    proof fn lemma_read_reference_wf(tag: u8, s: Seq<u8>, p: int)
        requires
            tag == 7 || tag == 8 || tag == 16 || tag == 19 || tag == 20,
        ensures
            Self::spec_read_reference(tag, s, p) matches Ok((c, q)) ==> c.wf_bare() && q + 1 == p
                + c.spec_write().len() && q <= s.len(),
    {
    }

    /// What was read as a constant that holds two parts is one, and has as many bytes as
    /// were taken.
    proof fn lemma_read_pair_wf(tag: u8, s: Seq<u8>, p: int)
        requires
            tag == 9 || tag == 10 || tag == 11 || tag == 12 || tag == 17 || tag == 18,
        ensures
            Self::spec_read_pair(tag, s, p) matches Ok((c, q)) ==> c.wf_bare()
                && q + 1 == p + c.spec_write().len()
                && q <= s.len(),
    {
    }

    /// What was read as a method handle is one, and has as many bytes as were taken.
    proof fn lemma_read_handle_wf(s: Seq<u8>, p: int)
        ensures
            Self::spec_read_handle(s, p) matches Ok((c, q)) ==> c.wf_bare()
                && q + 1 == p + c.spec_write().len() && q
                <= s.len(),
    {
    }

    /// A constant that was read is one that reading can produce, and has as many bytes as
    /// were taken.
    pub proof fn lemma_read_bare_wf(s: Seq<u8>, p: int)
        ensures
            Self::spec_read_bare(s, p) matches Ok((c, q)) ==> c.wf_bare() && q == p + c.spec_write().len()
                && q
                <= s.len(),
    {
        reveal(Constant::spec_read_bare);
        if let Ok((tag, at1)) = spec_read_u8(s, p) {
            if tag == 1 {
                Self::lemma_read_text_wf(s, at1);
            } else if tag == 3 || tag == 4 || tag == 5 || tag == 6 {
                Self::lemma_read_number_wf(tag, s, at1);
            } else if tag == 7 || tag == 8 || tag == 16 || tag == 19 || tag == 20 {
                Self::lemma_read_reference_wf(tag, s, at1);
            } else if tag == 9 || tag == 10 || tag == 11 || tag == 12 || tag == 17 || tag == 18 {
                Self::lemma_read_pair_wf(tag, s, at1);
            } else if tag == 15 {
                Self::lemma_read_handle_wf(s, at1);
            }
        }
    }

    /// The entries that reading a constant gives are such as a pool of this version can
    /// hold: the constant, well formed, and behind it the unusable slot exactly where the
    /// constant takes two; their bytes are as many as were taken.
    pub proof fn lemma_read_wf(s: Seq<u8>, p: int, version: JavaVersion)
        ensures
            Self::spec_read(s, p, version) matches Ok((cs, q)) ==> cs[0].wf(version)
                && cs == (if cs[0].is_double_slot() {
                seq![cs[0], ConstantView::Unusable]
            } else {
                seq![cs[0]]
            }) && q == p + cs[0].spec_write().len() && q <= s.len(),
    {
        Self::lemma_read_bare_wf(s, p);
        Self::lemma_read_bare_kind(s, p);
    }

    /// Reading back a written entry that a file of this version can hold yields the entry,
    /// followed by the unusable slot where it takes two.
    pub proof fn lemma_round_trip(c: ConstantView, s: Seq<u8>, p: int, version: JavaVersion)
        requires
            c.wf(version),
            occurs_at(s, p, c.spec_write()),
        ensures
            Self::spec_read(s, p, version) == Ok::<(Seq<ConstantView>, int), Error>(
                (
                    if c.is_double_slot() {
                        seq![c, ConstantView::Unusable]
                    } else {
                        seq![c]
                    },
                    p + c.spec_write().len(),
                ),
            ),
    {
        match c {
            ConstantView::Unsupported(inner) => {
                Self::lemma_round_trip_bare(*inner, s, p);
            },
            _ => {
                Self::lemma_round_trip_bare(c, s, p);
            },
        }
    }
}

} // verus!
