//! The context that is threaded through decoding and encoding.

use crate::bytes::{i32_of, spec_i32_of};
use crate::constant_pool::{ConstantPool, ConstantPoolIndex};
use crate::version::JavaVersion;
use vstd::prelude::*;

verus! {

/// The structure that an attribute is attached to.
#[derive(Debug, Copy, Clone, PartialEq, Eq, Structural, PartialOrd, Ord)]
pub enum AttributeLocation {
    ClassFile,
    Field,
    Method,
    Code,
}

/// What every decoding step may look at besides the input itself.
///
/// The context is never changed in place: a step that descends into an attribute or
/// moves on in a code array hands a changed copy down.
#[derive(Debug, Copy, Clone)]
pub struct ReadContext<'a> {
    /// Version that the class file declares.
    pub version: JavaVersion,
    /// The constant pool, fully decoded before anything that refers to it.
    pub constant_pool: &'a ConstantPool,
    /// The structure whose attributes are being decoded.
    pub location: AttributeLocation,
    /// Name index of the attribute whose body is being decoded, if any.
    pub name: Option<ConstantPoolIndex>,
    /// Length of the body of that attribute.
    pub length: Option<u32>,
    /// Whether the instruction just before the current one was `Wide`.
    pub wide: bool,
    /// Offset of the current instruction in its code array.
    pub position: u64,
}

impl<'a> ReadContext<'a> {
    /// A context for the structures of a class file outside any attribute.
    pub fn new(
        version: JavaVersion,
        constant_pool: &'a ConstantPool,
        location: AttributeLocation,
    ) -> (r: Self)
        ensures
            r.version == version,
            r.constant_pool == constant_pool,
            r.location == location,
            r.name is None,
            r.length is None,
            !r.wide,
            r.position == 0,
    {
        ReadContext { version, constant_pool, location, name: None, length: None, wide: false, position: 0 }
    }

    /// The same context at another location.
    pub fn at(&self, location: AttributeLocation) -> (r: Self)
        ensures
            r == (ReadContext { location, ..*self }),
    {
        ReadContext { location, ..*self }
    }

    /// The same context inside the body of an attribute.
    pub fn inside(&self, name: ConstantPoolIndex, length: u32) -> (r: Self)
        ensures
            r == (ReadContext { name: Some(name), length: Some(length), ..*self }),
    {
        ReadContext { name: Some(name), length: Some(length), ..*self }
    }

    /// The same context at an instruction of a code array.
    pub fn instruction(&self, position: u64, wide: bool) -> (r: Self)
        ensures
            r == (ReadContext { position, wide, ..*self }),
    {
        ReadContext { position, wide, ..*self }
    }
}

/// What an encoding step may look at besides the value: the offset of the output, which
/// only the instructions of a code array have.
#[derive(Debug, Copy, Clone, PartialEq, Eq)]
pub struct WriteContext {
    pub position: Option<u64>,
}

/// A value whose width on the wire changed with version 45.3: the form of older files or
/// the current one.
#[derive(Debug, Clone, PartialEq, Eq)]
pub enum Compatibility<Pre, Current> {
    PreJava1(Pre),
    Current(Current),
}

impl<T> Compatibility<Vec<T>, Vec<T>> {
    /// The sequence in the frame that the version of the context calls for.
    pub fn from(vec: Vec<T>, ctx: &ReadContext) -> (r: Self)
        ensures
            r == if ctx.version.spec_supports(45, 3) {
                Compatibility::<Vec<T>, Vec<T>>::Current(vec)
            } else {
                Compatibility::<Vec<T>, Vec<T>>::PreJava1(vec)
            },
    {
        if ctx.version.supports(45, 3) {
            Compatibility::Current(vec)
        } else {
            Compatibility::PreJava1(vec)
        }
    }
}

/// An integer type that can hold the length of a counted sequence.
pub trait ClassFilePartSize: Sized {
    /// The length that the value stands for.  A negative value stands for the length that
    /// its two's complement form, extended to the width of `usize`, reads as.
    spec fn spec_to_usize(&self) -> usize;

    /// The value that stands for a length: its low bits, as many as the type has.
    spec fn spec_from_usize(size: usize) -> Self;

    fn to_usize(&self) -> (r: usize)
        ensures
            r == self.spec_to_usize(),
    ;

    fn from_usize(size: usize) -> (r: Self)
        ensures
            r == Self::spec_from_usize(size),
    ;
}

impl ClassFilePartSize for u8 {
    open spec fn spec_to_usize(&self) -> usize {
        *self as usize
    }

    open spec fn spec_from_usize(size: usize) -> u8 {
        (size % 0x100) as u8
    }

    fn to_usize(&self) -> (r: usize) {
        *self as usize
    }

    fn from_usize(size: usize) -> (r: u8) {
        (size % 0x100) as u8
    }
}

impl ClassFilePartSize for u16 {
    open spec fn spec_to_usize(&self) -> usize {
        *self as usize
    }

    open spec fn spec_from_usize(size: usize) -> u16 {
        (size % 0x1_0000) as u16
    }

    fn to_usize(&self) -> (r: usize) {
        *self as usize
    }

    fn from_usize(size: usize) -> (r: u16) {
        (size % 0x1_0000) as u16
    }
}

impl ClassFilePartSize for u32 {
    open spec fn spec_to_usize(&self) -> usize {
        *self as usize
    }

    open spec fn spec_from_usize(size: usize) -> u32 {
        (size as int % 0x1_0000_0000) as u32
    }

    fn to_usize(&self) -> (r: usize) {
        *self as usize
    }

    fn from_usize(size: usize) -> (r: u32) {
        (size as u64 % 0x1_0000_0000) as u32
    }
}

impl ClassFilePartSize for i32 {
    open spec fn spec_to_usize(&self) -> usize {
        if *self >= 0 {
            *self as usize
        } else {
            (usize::MAX + 1 + *self) as usize
        }
    }

    open spec fn spec_from_usize(size: usize) -> i32 {
        spec_i32_of((size as int % 0x1_0000_0000) as u32)
    }

    fn to_usize(&self) -> (r: usize) {
        if *self >= 0 {
            *self as usize
        } else {
            usize::MAX - ((-(*self + 1)) as usize)
        }
    }

    fn from_usize(size: usize) -> (r: i32) {
        i32_of((size as u64 % 0x1_0000_0000) as u32)
    }
}

impl ClassFilePartSize for usize {
    open spec fn spec_to_usize(&self) -> usize {
        *self
    }

    open spec fn spec_from_usize(size: usize) -> usize {
        size
    }

    fn to_usize(&self) -> (r: usize) {
        *self
    }

    fn from_usize(size: usize) -> (r: usize) {
        size
    }
}

} // verus!
