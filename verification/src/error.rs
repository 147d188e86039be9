//! Errors raised while decoding a class file.

use vstd::prelude::*;

verus! {

/// A failure of the modified UTF-8 codec.
#[derive(Debug, PartialEq, Eq)]
pub enum UtfConversionError {
    /// The input ended in the middle of a multi-byte sequence.
    UnexpectedEndOfData,
    /// The given byte stands where the grammar does not allow it.
    UnexpectedContinuation(u8),
    /// The encoded form holds a raw zero byte.
    NullByteFound,
    /// The input contains a byte that modified UTF-8 never uses; the payload is the input.
    InvalidJavaUtf8(Vec<u8>),
}

/// A fatal decoding failure.  Every variant aborts the whole parse.
#[derive(Debug, PartialEq, Eq)]
pub enum Error {
    /// The input ended before the structure being read was complete.
    UnexpectedEof,
    /// A string payload was not valid modified UTF-8.
    UtfConversionError(UtfConversionError),
    /// A constant pool entry carries a tag that no constant kind uses.
    UnknownTag(u8),
    /// A type annotation carries an unknown target type.
    UnknownTargetType(u8),
    /// A stack map entry carries an unknown verification type tag.
    UnknownVerificationType(u8),
    /// A stack map frame carries an unknown frame type.
    UnknownStackMapFrameType(u8),
    /// An annotation element value carries an unknown tag.
    InvalidElementValueTag(char),
    /// A flag word has bits set that its flag set does not define.
    InvalidAccessFlags(u16),
    /// An instruction operand lies outside the inclusive range `expected`.
    UnexpectedOpCodeValue { expected: (u8, u8), found: u8 },
    /// The byte does not name any instruction.
    UnknownOpCode(u8),
}

} // verus!
