//! The JVM's modified UTF-8.
//!
//! The encoded form never holds a zero byte: NUL is written as `C0 80`.  A
//! code point above U+FFFF is written as a surrogate pair, each half as a
//! three-byte sequence, instead of one four-byte sequence.  Everything else
//! is plain UTF-8.

use crate::bytes::{read_bytes, read_u16, spec_read_bytes, spec_read_u16, spec_u16_bytes, write_bytes, write_u16};
use crate::error::{Error, UtfConversionError};
use vstd::pervasive::unreached;
use vstd::prelude::*;
use vstd::slice::slice_to_vec;
use vstd::utf8::{
    codepoint_width_1, codepoint_width_2, codepoint_width_3, codepoint_width_4, decode_utf8, decode_utf8_encode_utf8,
    encode_utf8, encode_utf8_decode_utf8, encode_utf8_valid_utf8, is_continuation_byte, is_leading_byte_width_1,
    is_leading_byte_width_2, is_leading_byte_width_3, is_leading_byte_width_4, length_of_first_scalar,
    not_overlong_encoding, not_surrogate, pop_first_scalar, valid_first_scalar, valid_utf8, valid_utf8_concat,
};

verus! {

/// Number of bytes of the UTF-8 sequence that `b` leads; 0 where `b` leads none.
pub open spec fn spec_utf8_char_width(b: u8) -> usize {
    if b < 0x80 {
        1
    } else if b < 0xC2 {
        0
    } else if b < 0xE0 {
        2
    } else if b < 0xF0 {
        3
    } else if b < 0xF5 {
        4
    } else {
        0
    }
}

#[verifier::when_used_as_spec(spec_utf8_char_width)]
pub fn utf8_char_width(b: u8) -> (r: usize)
    ensures
        r == spec_utf8_char_width(b),
{
    if b < 0x80 {
        1
    } else if b < 0xC2 {
        0
    } else if b < 0xE0 {
        2
    } else if b < 0xF0 {
        3
    } else if b < 0xF5 {
        4
    } else {
        0
    }
}

/// Whether `b` has the form `10xxxxxx` of a continuation byte.
pub open spec fn spec_is_continuation(b: u8) -> bool {
    0x80 <= b < 0xC0
}

fn is_continuation(b: u8) -> (r: bool)
    ensures
        r == spec_is_continuation(b),
{
    0x80 <= b && b < 0xC0
}

/// Whether `b` may occur in modified UTF-8 at all: it is not zero and leads no
/// four-byte sequence.
pub open spec fn spec_is_java_utf8_byte(b: u8) -> bool {
    b != 0 && (spec_is_continuation(b) || spec_utf8_char_width(b) <= 3)
}

/// Whether every byte of `text` may occur in modified UTF-8.
#[verifier::opaque]
pub open spec fn spec_is_valid_java_utf8(text: Seq<u8>) -> bool {
    forall|i: int| 0 <= i < text.len() ==> spec_is_java_utf8_byte(#[trigger] text[i])
}

pub fn is_valid_java_utf8(text: &[u8]) -> (r: bool)
    ensures
        r == spec_is_valid_java_utf8(text@),
{
    proof {
        reveal(spec_is_valid_java_utf8);
    }
    let mut i: usize = 0;
    while i < text.len()
        invariant
            i <= text.len(),
            forall|j: int| 0 <= j < i ==> spec_is_java_utf8_byte(#[trigger] text@[j]),
        decreases text.len() - i,
    {
        let b = text[i];
        if b == 0 || (!is_continuation(b) && utf8_char_width(b) > 3) {
            proof {
                reveal(spec_is_valid_java_utf8);
            }
            assert(!spec_is_java_utf8_byte(text@[i as int]));
            return false;
        }
        i += 1;
    }
    proof {
        reveal(spec_is_valid_java_utf8);
    }
    true
}

/// The continuation byte at position `j`.
pub open spec fn spec_continuation(s: Seq<u8>, j: int) -> Result<u8, UtfConversionError> {
    if j >= s.len() {
        Err(UtfConversionError::UnexpectedEndOfData)
    } else if spec_is_continuation(s[j]) {
        Ok(s[j])
    } else {
        Err(UtfConversionError::UnexpectedContinuation(s[j]))
    }
}

fn continuation(bytes: &[u8], j: usize) -> (r: Result<u8, UtfConversionError>)
    ensures
        r == spec_continuation(bytes@, j as int),
{
    if j >= bytes.len() {
        Err(UtfConversionError::UnexpectedEndOfData)
    } else if is_continuation(bytes[j]) {
        Ok(bytes[j])
    } else {
        Err(UtfConversionError::UnexpectedContinuation(bytes[j]))
    }
}

/// Whether `first, second` start a three-byte sequence that is neither overlong
/// nor a surrogate.
pub open spec fn spec_is_plain_three(first: u8, second: u8) -> bool {
    ||| first == 0xE0 && 0xA0 <= second <= 0xBF
    ||| 0xE1 <= first <= 0xEC && 0x80 <= second <= 0xBF
    ||| first == 0xED && 0x80 <= second <= 0x9F
    ||| 0xEE <= first <= 0xEF && 0x80 <= second <= 0xBF
}

/// The surrogate that the three-byte sequence `ED second third` encodes.
pub open spec fn spec_decode_surrogate(second: u8, third: u8) -> u32 {
    (0xD000 + (second - 0x80) * 0x40 + (third - 0x80)) as u32
}

fn decode_surrogate(second: u8, third: u8) -> (r: u32)
    requires
        spec_is_continuation(second),
        spec_is_continuation(third),
    ensures
        r == spec_decode_surrogate(second, third),
        0xD000 <= r <= 0xDFFF,
{
    let s: u32 = (second - 0x80) as u32;
    let t: u32 = (third - 0x80) as u32;
    0xD000 + s * 0x40 + t
}

/// The code point that a high and a low surrogate stand for.
pub open spec fn spec_surrogate_pair(hi: u32, lo: u32) -> u32 {
    (0x10000 + (hi - 0xD800) * 0x400 + (lo - 0xDC00)) as u32
}

/// Byte `k` of the four-byte UTF-8 sequence of a code point above U+FFFF.
pub open spec fn spec_four_byte(c: u32, k: int) -> u8 {
    if k == 0 {
        (0xF0 + c / 0x4_0000) as u8
    } else if k == 1 {
        (0x80 + c / 0x1000 % 0x40) as u8
    } else if k == 2 {
        (0x80 + c / 0x40 % 0x40) as u8
    } else {
        (0x80 + c % 0x40) as u8
    }
}

/// The four-byte UTF-8 sequence of a code point above U+FFFF.
pub open spec fn spec_four_bytes(c: u32) -> Seq<u8> {
    seq![spec_four_byte(c, 0), spec_four_byte(c, 1), spec_four_byte(c, 2), spec_four_byte(c, 3)]
}

/// The four-byte UTF-8 sequence of the code point encoded by the surrogate pair
/// `ED second third ED fifth sixth`.
pub open spec fn spec_decode_surrogates(second: u8, third: u8, fifth: u8, sixth: u8) -> Seq<u8> {
    spec_four_bytes(
        spec_surrogate_pair(spec_decode_surrogate(second, third), spec_decode_surrogate(fifth, sixth)),
    )
}

fn decode_surrogates(second: u8, third: u8, fifth: u8, sixth: u8) -> (r: [u8; 4])
    requires
        0xA0 <= second <= 0xAF,
        spec_is_continuation(third),
        0xB0 <= fifth <= 0xBF,
        spec_is_continuation(sixth),
    ensures
        r@ == spec_decode_surrogates(second, third, fifth, sixth),
{
    let c1 = decode_surrogate(second, third);
    let c2 = decode_surrogate(fifth, sixth);
    let c: u32 = 0x10000 + (c1 - 0xD800) * 0x400 + (c2 - 0xDC00);
    let r = [
        (0xF0 + c / 0x4_0000) as u8,
        (0x80 + c / 0x1000 % 0x40) as u8,
        (0x80 + c / 0x40 % 0x40) as u8,
        (0x80 + c % 0x40) as u8,
    ];
    assert(r@ =~= spec_decode_surrogates(second, third, fifth, sixth));
    r
}

/// One decoding step at position `i`: the UTF-8 bytes of the next character and the
/// position behind its modified encoding.  A byte that leads no sequence of modified
/// UTF-8 (a continuation byte, `C1`, or `F0` and above) is reported as an unexpected
/// continuation byte, whatever follows it; the end of the data is reported only inside
/// a sequence that a byte has started.
#[verifier::opaque]
pub open spec fn spec_decode_step(s: Seq<u8>, i: int) -> Result<(Seq<u8>, int), UtfConversionError> {
    let first = s[i];
    if first == 0 {
        Err(UtfConversionError::NullByteFound)
    } else if first < 0x80 {
        Ok((seq![first], i + 1))
    } else if first == 0xC0 {
        if i + 1 >= s.len() {
            Err(UtfConversionError::UnexpectedEndOfData)
        } else if s[i + 1] == 0x80 {
            Ok((seq![0u8], i + 2))
        } else {
            Err(UtfConversionError::UnexpectedContinuation(s[i + 1]))
        }
    } else if spec_utf8_char_width(first) != 2 && spec_utf8_char_width(first) != 3 {
        Err(UtfConversionError::UnexpectedContinuation(first))
    } else {
        match spec_continuation(s, i + 1) {
            Err(e) => Err(e),
            Ok(second) => if spec_utf8_char_width(first) == 2 {
                Ok((seq![first, second], i + 2))
            } else {
                match spec_continuation(s, i + 2) {
                    Err(e) => Err(e),
                    Ok(third) => if spec_is_plain_three(first, second) {
                        Ok((seq![first, second, third], i + 3))
                    } else if first == 0xED && 0xA0 <= second <= 0xAF {
                        spec_decode_low_surrogate(s, i, second, third)
                    } else {
                        Err(UtfConversionError::UnexpectedContinuation(second))
                    },
                }
            },
        }
    }
}

/// The second half of a surrogate pair whose first half `ED second third` starts at `i`.
pub open spec fn spec_decode_low_surrogate(s: Seq<u8>, i: int, second: u8, third: u8) -> Result<
    (Seq<u8>, int),
    UtfConversionError,
> {
    if i + 3 >= s.len() {
        Err(UtfConversionError::UnexpectedEndOfData)
    } else if s[i + 3] != 0xED {
        Err(UtfConversionError::UnexpectedContinuation(s[i + 3]))
    } else {
        match spec_continuation(s, i + 4) {
            Err(e) => Err(e),
            Ok(fifth) => if fifth < 0xB0 {
                Err(UtfConversionError::UnexpectedContinuation(fifth))
            } else {
                match spec_continuation(s, i + 5) {
                    Err(e) => Err(e),
                    Ok(sixth) => Ok((spec_decode_surrogates(second, third, fifth, sixth), i + 6)),
                }
            },
        }
    }
}

/// The UTF-8 form of the modified UTF-8 text `s` from position `i` on.
pub open spec fn spec_decode_from(s: Seq<u8>, i: int) -> Result<Seq<u8>, UtfConversionError>
    decreases s.len() - i,
{
    if i < 0 || i >= s.len() {
        Ok(Seq::empty())
    } else {
        match spec_decode_step(s, i) {
            Err(e) => Err(e),
            Ok((head, j)) => if j <= i || j > s.len() {
                Err(UtfConversionError::UnexpectedEndOfData)
            } else {
                match spec_decode_from(s, j) {
                    Err(e) => Err(e),
                    Ok(tail) => Ok(head + tail),
                }
            },
        }
    }
}

/// The UTF-8 form of the modified UTF-8 text `s`.
pub open spec fn spec_decode_from_java_utf8(s: Seq<u8>) -> Result<Seq<u8>, UtfConversionError> {
    spec_decode_from(s, 0)
}

/// The five forms of a successful step: an ASCII character other than NUL; the two bytes
/// of NUL; a two-byte sequence; a three-byte sequence that is no surrogate; a surrogate
/// pair.
pub proof fn lemma_decode_step_cases(m: Seq<u8>, i: int)
    requires
        0 <= i < m.len(),
    ensures
        spec_decode_step(m, i) matches Ok((head, next)) ==> {
            ||| (0 < m[i] < 0x80 && head == seq![m[i]] && next == i + 1)
            ||| (m[i] == 0xC0 && i + 1 < m.len() && m[i + 1] == 0x80 && head == seq![0u8] && next == i + 2)
            ||| (0xC2 <= m[i] <= 0xDF && i + 1 < m.len() && spec_is_continuation(m[i + 1]) && head == seq![
                m[i],
                m[i + 1],
            ] && next == i + 2)
            ||| (i + 2 < m.len() && spec_is_plain_three(m[i], m[i + 1]) && spec_is_continuation(m[i + 2]) && head
                == seq![m[i], m[i + 1], m[i + 2]] && next == i + 3)
            ||| (i + 5 < m.len() && m[i] == 0xED && 0xA0 <= m[i + 1] <= 0xAF && spec_is_continuation(m[i + 2])
                && m[i + 3] == 0xED && 0xB0 <= m[i + 4] <= 0xBF && spec_is_continuation(m[i + 5]) && head
                == spec_decode_surrogates(m[i + 1], m[i + 2], m[i + 4], m[i + 5]) && next == i + 6)
        },
{
    reveal(spec_decode_step);
}

/// Every successful step moves forward and stays inside the text.
pub proof fn lemma_decode_step_advances(s: Seq<u8>, i: int)
    requires
        0 <= i < s.len(),
    ensures
        spec_decode_step(s, i) matches Ok((head, j)) ==> i < j <= s.len() && 1 <= head.len() <= 4,
{
    lemma_decode_step_cases(s, i);
}

/// Decodes modified UTF-8 into UTF-8.
pub fn decode_from_java_utf8(bytes: &[u8]) -> (r: Result<Vec<u8>, Error>)
    ensures
        match spec_decode_from_java_utf8(bytes@) {
            Ok(d) => r matches Ok(v) && v@ == d,
            Err(e) => r == Err::<Vec<u8>, Error>(Error::UtfConversionError(e)),
        },
{
    let mut decoded: Vec<u8> = Vec::new();
    let mut i: usize = 0;
    while i < bytes.len()
        invariant
            i <= bytes.len(),
            spec_decode_from(bytes@, 0) == match spec_decode_from(bytes@, i as int) {
                Ok(tail) => Ok::<Seq<u8>, UtfConversionError>(decoded@ + tail),
                Err(e) => Err(e),
            },
        decreases bytes.len() - i,
    {
        proof {
            lemma_decode_step_advances(bytes@, i as int);
        }
        let ghost before = decoded@;
        let next = match decode_step(&mut decoded, bytes, i) {
            Ok(next) => next,
            Err(e) => return Err(Error::UtfConversionError(e)),
        };
        proof {
            let step = spec_decode_step(bytes@, i as int);
            let head = step->Ok_0.0;
            assert(decoded@ == before + head);
            match spec_decode_from(bytes@, next as int) {
                Ok(tail) => {
                    assert(before + (head + tail) =~= decoded@ + tail);
                },
                Err(e) => {},
            }
        }
        i = next;
    }
    proof {
        assert(decoded@ + Seq::<u8>::empty() =~= decoded@);
    }
    Ok(decoded)
}

/// Decodes the character at position `i` and appends its UTF-8 bytes to `decoded`.
fn decode_step(decoded: &mut Vec<u8>, bytes: &[u8], i: usize) -> (r: Result<usize, UtfConversionError>)
    requires
        i < bytes@.len(),
    ensures
        match spec_decode_step(bytes@, i as int) {
            Ok((head, j)) => r == Ok::<usize, UtfConversionError>(j as usize) && final(decoded)@ == old(decoded)@ + head,
            Err(e) => r == Err::<usize, UtfConversionError>(e),
        },
{
    proof {
        reveal(spec_decode_step);
    }
    let first = bytes[i];
    if first == 0 {
        return Err(UtfConversionError::NullByteFound);
    }
    if first < 0x80 {
        decoded.push(first);
        assert(decoded@ =~= old(decoded)@ + seq![first]);
        return Ok(i + 1);
    }
    if first == 0xC0 {
        if i + 1 >= bytes.len() {
            return Err(UtfConversionError::UnexpectedEndOfData);
        }
        if bytes[i + 1] != 0x80 {
            return Err(UtfConversionError::UnexpectedContinuation(bytes[i + 1]));
        }
        decoded.push(0);
        assert(decoded@ =~= old(decoded)@ + seq![0u8]);
        return Ok(i + 2);
    }
    let width = utf8_char_width(first);
    if width != 2 && width != 3 {
        return Err(UtfConversionError::UnexpectedContinuation(first));
    }
    let second = match continuation(bytes, i + 1) {
        Ok(b) => b,
        Err(e) => return Err(e),
    };
    if width == 2 {
        decoded.push(first);
        decoded.push(second);
        assert(decoded@ =~= old(decoded)@ + seq![first, second]);
        return Ok(i + 2);
    }
    let third = match continuation(bytes, i + 2) {
        Ok(b) => b,
        Err(e) => return Err(e),
    };
    if is_plain_three(first, second) {
        decoded.push(first);
        decoded.push(second);
        decoded.push(third);
        assert(decoded@ =~= old(decoded)@ + seq![first, second, third]);
        return Ok(i + 3);
    }
    if !(first == 0xED && 0xA0 <= second && second <= 0xAF) {
        return Err(UtfConversionError::UnexpectedContinuation(second));
    }
    if i + 3 >= bytes.len() {
        return Err(UtfConversionError::UnexpectedEndOfData);
    }
    if bytes[i + 3] != 0xED {
        return Err(UtfConversionError::UnexpectedContinuation(bytes[i + 3]));
    }
    let fifth = match continuation(bytes, i + 4) {
        Ok(b) => b,
        Err(e) => return Err(e),
    };
    if fifth < 0xB0 {
        return Err(UtfConversionError::UnexpectedContinuation(fifth));
    }
    let sixth = match continuation(bytes, i + 5) {
        Ok(b) => b,
        Err(e) => return Err(e),
    };
    let four = decode_surrogates(second, third, fifth, sixth);
    decoded.extend_from_slice(four.as_slice());
    Ok(i + 6)
}

fn is_plain_three(first: u8, second: u8) -> (r: bool)
    ensures
        r == spec_is_plain_three(first, second),
{
    (first == 0xE0 && 0xA0 <= second && second <= 0xBF) || (0xE1 <= first && first <= 0xEC && 0x80 <= second && second
        <= 0xBF) || (first == 0xED && 0x80 <= second && second <= 0x9F) || (0xEE <= first && first <= 0xEF && 0x80
        <= second && second <= 0xBF)
}

/// Whether a well-formed four-byte UTF-8 sequence starts at `i`.
pub open spec fn spec_is_four_at(s: Seq<u8>, i: int) -> bool {
    &&& i + 3 < s.len()
    &&& 0xF0 <= s[i] <= 0xF4
    &&& spec_is_continuation(s[i + 1])
    &&& spec_is_continuation(s[i + 2])
    &&& spec_is_continuation(s[i + 3])
    &&& 0x10000 <= spec_four_code_point(s[i], s[i + 1], s[i + 2], s[i + 3]) <= 0x10FFFF
}

/// The code point of a four-byte UTF-8 sequence.
pub open spec fn spec_four_code_point(b0: u8, b1: u8, b2: u8, b3: u8) -> int {
    (b0 - 0xF0) * 0x4_0000 + (b1 - 0x80) * 0x1000 + (b2 - 0x80) * 0x40 + (b3 - 0x80)
}

/// Byte `k` of the three bytes that encode a surrogate.
pub open spec fn spec_surrogate_byte(surrogate: u16, k: int) -> u8 {
    if k == 0 {
        (0xE0 + surrogate / 0x1000) as u8
    } else if k == 1 {
        (0x80 + surrogate / 0x40 % 0x40) as u8
    } else {
        (0x80 + surrogate % 0x40) as u8
    }
}

/// The three bytes that encode a surrogate.
pub open spec fn spec_encode_surrogate(surrogate: u16) -> Seq<u8> {
    seq![spec_surrogate_byte(surrogate, 0), spec_surrogate_byte(surrogate, 1), spec_surrogate_byte(surrogate, 2)]
}

/// The high surrogate of the code point `c` above U+FFFF.
pub open spec fn spec_high_surrogate(c: int) -> u16 {
    (0xD800 + (c - 0x10000) / 0x400) as u16
}

/// The low surrogate of the code point `c` above U+FFFF.
pub open spec fn spec_low_surrogate(c: int) -> u16 {
    (0xDC00 + (c - 0x10000) % 0x400) as u16
}

fn encode_surrogate(surrogate: u16) -> (r: [u8; 3])
    requires
        0xD800 <= surrogate <= 0xDFFF,
    ensures
        r@ == spec_encode_surrogate(surrogate),
{
    let r = [
        (0xE0 + surrogate / 0x1000) as u8,
        (0x80 + surrogate / 0x40 % 0x40) as u8,
        (0x80 + surrogate % 0x40) as u8,
    ];
    assert(r@ =~= spec_encode_surrogate(surrogate));
    r
}

/// The six bytes that stand for the code point `c` above U+FFFF.
pub open spec fn spec_encode_pair(c: int) -> Seq<u8> {
    spec_encode_surrogate(spec_high_surrogate(c)) + spec_encode_surrogate(spec_low_surrogate(c))
}

/// One encoding step at position `i`: the modified form of what starts there, and
/// the position behind it.  A zero byte becomes `C0 80`, a four-byte sequence a
/// surrogate pair; any other byte is copied.
pub open spec fn spec_encode_step(s: Seq<u8>, i: int) -> (Seq<u8>, int) {
    if s[i] == 0 {
        (seq![0xC0u8, 0x80u8], i + 1)
    } else if spec_is_four_at(s, i) {
        (spec_encode_pair(spec_four_code_point(s[i], s[i + 1], s[i + 2], s[i + 3])), i + 4)
    } else {
        (seq![s[i]], i + 1)
    }
}

/// The modified UTF-8 form of the UTF-8 text `s` from position `i` on.
pub open spec fn spec_encode_from(s: Seq<u8>, i: int) -> Seq<u8>
    decreases s.len() - i,
{
    if i < 0 || i >= s.len() {
        Seq::empty()
    } else {
        let (head, j) = spec_encode_step(s, i);
        head + spec_encode_from(s, j)
    }
}

/// The modified UTF-8 form of the UTF-8 text `s`.
pub open spec fn spec_to_java_utf8(s: Seq<u8>) -> Seq<u8> {
    if spec_is_valid_java_utf8(s) {
        s
    } else {
        spec_encode_from(s, 0)
    }
}

/// Encodes UTF-8 as modified UTF-8.
pub fn to_java_utf8(bytes: &[u8]) -> (r: Vec<u8>)
    ensures
        r@ == spec_encode_from(bytes@, 0),
{
    let mut encoded: Vec<u8> = Vec::new();
    let mut i: usize = 0;
    while i < bytes.len()
        invariant
            i <= bytes.len(),
            spec_encode_from(bytes@, 0) == encoded@ + spec_encode_from(bytes@, i as int),
        decreases bytes.len() - i,
    {
        let ghost before = encoded@;
        let ghost step = spec_encode_step(bytes@, i as int);
        let b = bytes[i];
        let next: usize;
        if b == 0 {
            encoded.push(0xC0);
            encoded.push(0x80);
            assert(encoded@ =~= before + seq![0xC0u8, 0x80u8]);
            next = i + 1;
        } else if is_four_at(bytes, i) {
            let c: u32 = (bytes[i] - 0xF0) as u32 * 0x4_0000 + (bytes[i + 1] - 0x80) as u32 * 0x1000 + (bytes[i + 2]
                - 0x80) as u32 * 0x40 + (bytes[i + 3] - 0x80) as u32;
            let hi = encode_surrogate((0xD800 + (c - 0x10000) / 0x400) as u16);
            let lo = encode_surrogate((0xDC00 + (c - 0x10000) % 0x400) as u16);
            encoded.extend_from_slice(hi.as_slice());
            encoded.extend_from_slice(lo.as_slice());
            assert(encoded@ =~= before + step.0);
            next = i + 4;
        } else {
            encoded.push(b);
            assert(encoded@ =~= before + seq![b]);
            next = i + 1;
        }
        proof {
            assert(before + (step.0 + spec_encode_from(bytes@, next as int)) =~= encoded@ + spec_encode_from(
                bytes@,
                next as int,
            ));
        }
        i = next;
    }
    proof {
        assert(encoded@ + Seq::<u8>::empty() =~= encoded@);
    }
    encoded
}

fn is_four_at(bytes: &[u8], i: usize) -> (r: bool)
    requires
        i < bytes@.len(),
    ensures
        r == spec_is_four_at(bytes@, i as int),
{
    if bytes.len() - i < 4 {
        return false;
    }
    if !(0xF0 <= bytes[i] && bytes[i] <= 0xF4 && is_continuation(bytes[i + 1]) && is_continuation(bytes[i + 2])
        && is_continuation(bytes[i + 3])) {
        return false;
    }
    let c: u32 = (bytes[i] - 0xF0) as u32 * 0x4_0000 + (bytes[i + 1] - 0x80) as u32 * 0x1000 + (bytes[i + 2] - 0x80) as u32
        * 0x40 + (bytes[i + 3] - 0x80) as u32;
    0x10000 <= c && c <= 0x10FFFF
}

/// What a string decodes to: the characters of `bytes` read as modified UTF-8.  There
/// is none where `bytes` holds a byte that modified UTF-8 never uses, or breaks its
/// grammar.
pub open spec fn spec_from_java_utf8(bytes: Seq<u8>) -> Option<Seq<char>> {
    if !spec_is_valid_java_utf8(bytes) {
        None
    } else {
        match spec_decode_from_java_utf8(bytes) {
            Ok(d) => Some(decode_utf8(d)),
            Err(_) => None,
        }
    }
}

/// The error that decoding `bytes` as a string fails with, where it fails.  A byte
/// that modified UTF-8 never uses is reported with the whole input; a break of the
/// grammar, as the decoding step reports it.
pub open spec fn spec_from_java_utf8_fails_with(bytes: Seq<u8>, e: Error) -> bool {
    if !spec_is_valid_java_utf8(bytes) {
        e matches Error::UtfConversionError(UtfConversionError::InvalidJavaUtf8(v)) && v@ == bytes
    } else {
        spec_decode_from_java_utf8(bytes) matches Err(u) && e == Error::UtfConversionError(u)
    }
}

/// Makes a string of bytes with `String::from_utf8`: it succeeds exactly on well-formed
/// UTF-8, and the string then holds the characters that the bytes encode.
#[verifier::external_body]
fn string_from_utf8(bytes: Vec<u8>) -> (r: Option<String>)
    ensures
        r is Some <==> valid_utf8(bytes@),
        r matches Some(s) ==> s@ == decode_utf8(bytes@),
{
    String::from_utf8(bytes).ok()
}

/// Conversion from modified UTF-8.
pub trait FromJavaUtf8Ext: Sized {
    fn from_java_utf8(vec: &[u8]) -> Result<Self, Error>;
}

/// Conversion to modified UTF-8.
pub trait ToJavaUtf8Ext {
    fn to_java_utf8(&self) -> Result<Vec<u8>, Error>;
}

impl FromJavaUtf8Ext for String {
    fn from_java_utf8(bytes: &[u8]) -> (r: Result<String, Error>)
        ensures
            match spec_from_java_utf8(bytes@) {
                Some(chars) => r matches Ok(s) && s@ == chars,
                None => r matches Err(e) && spec_from_java_utf8_fails_with(bytes@, e),
            },
    {
        if !is_valid_java_utf8(bytes) {
            return Err(Error::UtfConversionError(UtfConversionError::InvalidJavaUtf8(slice_to_vec(bytes))));
        }
        match string_from_utf8(slice_to_vec(bytes)) {
            Some(s) => {
                proof {
                    lemma_decode_identity(bytes@);
                }
                Ok(s)
            },
            None => {
                let decoded = match decode_from_java_utf8(bytes) {
                    Ok(d) => d,
                    Err(e) => return Err(e),
                };
                proof {
                    lemma_decoded_is_utf8(bytes@, 0);
                }
                match string_from_utf8(decoded) {
                    Some(s) => Ok(s),
                    None => unreached(),
                }
            },
        }
    }
}

impl ToJavaUtf8Ext for String {
    fn to_java_utf8(&self) -> (r: Result<Vec<u8>, Error>)
        ensures
            r matches Ok(v) && v@ == spec_to_java_utf8(encode_utf8(self@)),
    {
        let bytes = self.as_str().as_bytes();
        if is_valid_java_utf8(bytes) {
            Ok(slice_to_vec(bytes))
        } else {
            Ok(to_java_utf8(bytes))
        }
    }
}


/// Encoding from a position on is encoding what stands from that position on.
pub proof fn lemma_encode_from_skip(s: Seq<u8>, j: int)
    requires
        0 <= j <= s.len(),
    ensures
        spec_encode_from(s, j) == spec_encode_from(s.skip(j), 0),
    decreases s.len() - j,
{
    let t = s.skip(j);
    if j < s.len() {
        let (head, next) = spec_encode_step(s, j);
        assert(spec_is_four_at(t, 0) == spec_is_four_at(s, j));
        assert(spec_encode_step(t, 0) == (head, next - j));
        lemma_encode_from_skip(s, next);
        lemma_encode_from_skip(t, next - j);
        assert(t.skip(next - j) =~= s.skip(next));
    }
}

/// One decoding step looks only at what stands from its position on.
proof fn lemma_decode_step_skip(s: Seq<u8>, j: int)
    requires
        0 <= j < s.len(),
    ensures
        spec_decode_step(s, j) == match spec_decode_step(s.skip(j), 0) {
            Ok((head, next)) => Ok((head, next + j)),
            Err(e) => Err(e),
        },
{
    reveal(spec_decode_step);
    let t = s.skip(j);
    assert(forall|k: int| 0 <= k < t.len() ==> t[k] == s[j + k]);
    assert(forall|k: int| spec_continuation(t, k) == spec_continuation(s, j + k) || k < 0);
    if s[j] == 0xED && j + 2 < s.len() {
        assert(spec_decode_low_surrogate(s, j, s[j + 1], s[j + 2]) == match spec_decode_low_surrogate(
            t,
            0,
            s[j + 1],
            s[j + 2],
        ) {
            Ok((head, next)) => Ok((head, next + j)),
            Err(e) => Err(e),
        });
    }
}

/// Decoding from a position on is decoding what stands from that position on.
pub proof fn lemma_decode_from_skip(s: Seq<u8>, j: int)
    requires
        0 <= j <= s.len(),
    ensures
        spec_decode_from(s, j) == spec_decode_from(s.skip(j), 0),
    decreases s.len() - j,
{
    let t = s.skip(j);
    if j < s.len() {
        lemma_decode_step_skip(s, j);
        lemma_decode_step_advances(s, j);
        lemma_decode_step_advances(t, 0);
        if let Ok((head, next)) = spec_decode_step(s, j) {
            lemma_decode_from_skip(s, next);
            lemma_decode_from_skip(t, next - j);
            assert(t.skip(next - j) =~= s.skip(next));
        }
    }
}

/// Text in which every byte may occur in modified UTF-8 is its own modified form.
pub proof fn lemma_encode_identity(s: Seq<u8>, j: int)
    requires
        spec_is_valid_java_utf8(s),
        0 <= j <= s.len(),
    ensures
        spec_encode_from(s, j) == s.skip(j),
    decreases s.len() - j,
{
    reveal(spec_is_valid_java_utf8);
    if j < s.len() {
        assert(spec_is_java_utf8_byte(s[j]));
        lemma_encode_identity(s, j + 1);
        assert(seq![s[j]] + s.skip(j + 1) =~= s.skip(j));
    } else {
        assert(s.skip(j) =~= Seq::<u8>::empty());
    }
}

/// A two-byte sequence that is not overlong starts with `C2` at least.
proof fn lemma_width_2(b1: u8, b2: u8)
    by (bit_vector)
    requires
        is_leading_byte_width_2(b1),
        is_continuation_byte(b2),
        not_overlong_encoding(codepoint_width_2(b1, b2), 2),
    ensures
        b1 >= 0xC2,
{
}

/// A three-byte sequence that is neither overlong nor a surrogate starts as this module
/// expects a three-byte sequence to start.
proof fn lemma_width_3(b1: u8, b2: u8, b3: u8)
    by (bit_vector)
    requires
        is_leading_byte_width_3(b1),
        is_continuation_byte(b2),
        is_continuation_byte(b3),
        not_overlong_encoding(codepoint_width_3(b1, b2, b3), 3),
        not_surrogate(codepoint_width_3(b1, b2, b3)),
    ensures
        spec_is_plain_three(b1, b2),
{
}

/// A four-byte sequence that is not overlong starts with `F4` at most, and its code point
/// is the sum of the payloads of its bytes, each times its place value.
proof fn lemma_width_4(b1: u8, b2: u8, b3: u8, b4: u8)
    by (bit_vector)
    requires
        is_leading_byte_width_4(b1),
        is_continuation_byte(b2),
        is_continuation_byte(b3),
        is_continuation_byte(b4),
        not_overlong_encoding(codepoint_width_4(b1, b2, b3, b4), 4),
    ensures
        b1 <= 0xF4,
        0x10000 <= spec_four_code_point(b1, b2, b3, b4) <= 0x10FFFF,
{
}


/// The modified form of the first character of UTF-8 text `x`: `C0 80` for NUL, a
/// surrogate pair for a four-byte sequence, and the sequence itself otherwise.
pub open spec fn spec_escape_first(x: Seq<u8>) -> Seq<u8> {
    if x[0] == 0 {
        seq![0xC0u8, 0x80u8]
    } else if length_of_first_scalar(x) == 4 {
        spec_encode_pair(spec_four_code_point(x[0], x[1], x[2], x[3]))
    } else {
        x.subrange(0, length_of_first_scalar(x))
    }
}

/// Encoding UTF-8 text is escaping its first character and encoding the rest.
proof fn lemma_encode_first(x: Seq<u8>)
    requires
        x.len() > 0,
        valid_first_scalar(x),
    ensures
        spec_encode_from(x, 0) == spec_escape_first(x) + spec_encode_from(pop_first_scalar(x), 0),
{
    let n = length_of_first_scalar(x);
    lemma_encode_from_skip(x, n);
    assert(x.skip(n) =~= pop_first_scalar(x));
    if is_leading_byte_width_1(x[0]) {
    } else if is_leading_byte_width_2(x[0]) {
        lemma_encode_plain(x, 0);
        lemma_encode_plain(x, 1);
        assert(seq![x[0]] + (seq![x[1]] + spec_encode_from(x, 2)) =~= x.subrange(0, 2) + spec_encode_from(x, 2));
    } else if is_leading_byte_width_3(x[0]) {
        lemma_encode_plain(x, 0);
        lemma_encode_plain(x, 1);
        lemma_encode_plain(x, 2);
        assert(seq![x[0]] + (seq![x[1]] + (seq![x[2]] + spec_encode_from(x, 3))) =~= x.subrange(0, 3)
            + spec_encode_from(x, 3));
    } else {
        lemma_width_4(x[0], x[1], x[2], x[3]);
    }
}

/// The bytes of the surrogate pair of a code point above U+FFFF have the form that
/// decoding expects, and decode to the bytes of the four-byte sequence of the code point.
proof fn lemma_pair_bytes(b1: u8, b2: u8, b3: u8, b4: u8)
    by (bit_vector)
    requires
        0xF0 <= b1 <= 0xF4,
        0x80 <= b2 <= 0xBF,
        0x80 <= b3 <= 0xBF,
        0x80 <= b4 <= 0xBF,
        0x10000 <= spec_four_code_point(b1, b2, b3, b4) <= 0x10FFFF,
    ensures
        ({
            let hi = spec_high_surrogate(spec_four_code_point(b1, b2, b3, b4));
            let lo = spec_low_surrogate(spec_four_code_point(b1, b2, b3, b4));
            let c = spec_surrogate_pair(
                spec_decode_surrogate(spec_surrogate_byte(hi, 1), spec_surrogate_byte(hi, 2)),
                spec_decode_surrogate(spec_surrogate_byte(lo, 1), spec_surrogate_byte(lo, 2)),
            );
            &&& spec_surrogate_byte(hi, 0) == 0xED
            &&& 0xA0 <= spec_surrogate_byte(hi, 1) <= 0xAF
            &&& 0x80 <= spec_surrogate_byte(hi, 2) <= 0xBF
            &&& spec_surrogate_byte(lo, 0) == 0xED
            &&& 0xB0 <= spec_surrogate_byte(lo, 1) <= 0xBF
            &&& 0x80 <= spec_surrogate_byte(lo, 2) <= 0xBF
            &&& spec_four_byte(c, 0) == b1
            &&& spec_four_byte(c, 1) == b2
            &&& spec_four_byte(c, 2) == b3
            &&& spec_four_byte(c, 3) == b4
        }),
{
}

/// The surrogate pair of a code point above U+FFFF has the form that decoding expects,
/// and decodes to the four-byte sequence of the code point.
proof fn lemma_pair(b1: u8, b2: u8, b3: u8, b4: u8)
    requires
        0xF0 <= b1 <= 0xF4,
        spec_is_continuation(b2),
        spec_is_continuation(b3),
        spec_is_continuation(b4),
        0x10000 <= spec_four_code_point(b1, b2, b3, b4) <= 0x10FFFF,
    ensures
        ({
            let pair = spec_encode_pair(spec_four_code_point(b1, b2, b3, b4));
            &&& pair.len() == 6
            &&& pair[0] == 0xED
            &&& 0xA0 <= pair[1] <= 0xAF
            &&& spec_is_continuation(pair[2])
            &&& pair[3] == 0xED
            &&& 0xB0 <= pair[4] <= 0xBF
            &&& spec_is_continuation(pair[5])
            &&& spec_decode_surrogates(pair[1], pair[2], pair[4], pair[5]) == seq![b1, b2, b3, b4]
        }),
{
    lemma_pair_bytes(b1, b2, b3, b4);
    let c = spec_four_code_point(b1, b2, b3, b4);
    let hi = spec_high_surrogate(c);
    let lo = spec_low_surrogate(c);
    let pair = spec_encode_pair(c);
    assert(pair =~= seq![
        spec_surrogate_byte(hi, 0),
        spec_surrogate_byte(hi, 1),
        spec_surrogate_byte(hi, 2),
        spec_surrogate_byte(lo, 0),
        spec_surrogate_byte(lo, 1),
        spec_surrogate_byte(lo, 2),
    ]);
    assert(spec_decode_surrogates(pair[1], pair[2], pair[4], pair[5]) =~= seq![b1, b2, b3, b4]);
}

/// What one decoding step gives for the escaped first character of UTF-8 text, whatever
/// follows it: the first character, and the position behind the escaped form.
proof fn lemma_decode_step_first(x: Seq<u8>, tail: Seq<u8>)
    requires
        x.len() > 0,
        valid_first_scalar(x),
    ensures
        spec_decode_step(spec_escape_first(x) + tail, 0) == Ok::<(Seq<u8>, int), UtfConversionError>(
            (x.subrange(0, length_of_first_scalar(x)), spec_escape_first(x).len() as int),
        ),
        spec_escape_first(x).len() > 0,
{
    reveal(spec_decode_step);
    let e = spec_escape_first(x);
    let m = e + tail;
    if is_leading_byte_width_1(x[0]) {
        assert(m[0] == e[0]);
        if x[0] == 0 {
            assert(m[1] == e[1]);
            assert(seq![0u8] =~= x.subrange(0, 1));
        } else {
            assert(seq![x[0]] =~= x.subrange(0, 1));
        }
    } else if is_leading_byte_width_2(x[0]) {
        lemma_width_2(x[0], x[1]);
        assert(m[0] == e[0] && m[1] == e[1]);
        assert(seq![x[0], x[1]] =~= x.subrange(0, 2));
    } else if is_leading_byte_width_3(x[0]) {
        lemma_width_3(x[0], x[1], x[2]);
        assert(m[0] == e[0] && m[1] == e[1] && m[2] == e[2]);
        assert(seq![x[0], x[1], x[2]] =~= x.subrange(0, 3));
    } else {
        lemma_decode_step_pair(x, tail);
    }
}

/// The decoding step on the surrogate pair of a four-byte sequence.
proof fn lemma_decode_step_pair(x: Seq<u8>, tail: Seq<u8>)
    requires
        x.len() > 0,
        valid_first_scalar(x),
        is_leading_byte_width_4(x[0]),
    ensures
        spec_decode_step(spec_escape_first(x) + tail, 0) == Ok::<(Seq<u8>, int), UtfConversionError>(
            (x.subrange(0, 4), 6),
        ),
        spec_escape_first(x).len() == 6,
{
    reveal(spec_decode_step);
    let e = spec_escape_first(x);
    let m = e + tail;
    lemma_width_4(x[0], x[1], x[2], x[3]);
    lemma_pair(x[0], x[1], x[2], x[3]);
    assert(m[0] == e[0] && m[1] == e[1] && m[2] == e[2] && m[3] == e[3] && m[4] == e[4] && m[5] == e[5]);
    assert(spec_continuation(m, 1) == Ok::<u8, UtfConversionError>(m[1]));
    assert(spec_continuation(m, 2) == Ok::<u8, UtfConversionError>(m[2]));
    assert(spec_continuation(m, 4) == Ok::<u8, UtfConversionError>(m[4]));
    assert(spec_continuation(m, 5) == Ok::<u8, UtfConversionError>(m[5]));
    assert(seq![x[0], x[1], x[2], x[3]] =~= x.subrange(0, 4));
    assert(spec_decode_low_surrogate(m, 0, m[1], m[2]) == Ok::<(Seq<u8>, int), UtfConversionError>(
        (x.subrange(0, 4), 6),
    ));
    assert(!spec_is_plain_three(m[0], m[1]));
}

/// Decoding the escaped first character of UTF-8 text, followed by anything, gives the
/// first character and what the rest decodes to.
proof fn lemma_decode_first(x: Seq<u8>, tail: Seq<u8>)
    requires
        x.len() > 0,
        valid_first_scalar(x),
    ensures
        spec_decode_from(spec_escape_first(x) + tail, 0) == match spec_decode_from(tail, 0) {
            Ok(t) => Ok::<Seq<u8>, UtfConversionError>(x.subrange(0, length_of_first_scalar(x)) + t),
            Err(e) => Err(e),
        },
{
    let e = spec_escape_first(x);
    let m = e + tail;
    lemma_decode_step_first(x, tail);
    lemma_decode_from_skip(m, e.len() as int);
    assert(m.skip(e.len() as int) =~= tail);
}

/// Decoding the modified form of UTF-8 text gives the text again.
pub proof fn lemma_decode_encode(x: Seq<u8>)
    requires
        valid_utf8(x),
    ensures
        spec_decode_from(spec_encode_from(x, 0), 0) == Ok::<Seq<u8>, UtfConversionError>(x),
    decreases x.len(),
{
    if x.len() > 0 {
        let rest = pop_first_scalar(x);
        lemma_encode_first(x);
        lemma_decode_encode(rest);
        lemma_decode_first(x, spec_encode_from(rest, 0));
        assert(x.subrange(0, length_of_first_scalar(x)) + rest =~= x);
    } else {
        assert(x =~= Seq::<u8>::empty());
    }
}

/// Every byte of the modified form of UTF-8 text may occur in modified UTF-8.
pub proof fn lemma_encode_valid(x: Seq<u8>)
    requires
        valid_utf8(x),
    ensures
        spec_is_valid_java_utf8(spec_encode_from(x, 0)),
    decreases x.len(),
{
    reveal(spec_is_valid_java_utf8);
    if x.len() > 0 {
        let rest = pop_first_scalar(x);
        let e = spec_escape_first(x);
        let t = spec_encode_from(rest, 0);
        lemma_encode_first(x);
        lemma_encode_valid(rest);
        if is_leading_byte_width_1(x[0]) {
        } else if is_leading_byte_width_2(x[0]) {
        } else if is_leading_byte_width_3(x[0]) {
        } else {
            lemma_width_4(x[0], x[1], x[2], x[3]);
            lemma_pair(x[0], x[1], x[2], x[3]);
        }
        assert forall|i: int| 0 <= i < e.len() implies spec_is_java_utf8_byte(#[trigger] e[i]) by {}
        assert forall|i: int| 0 <= i < (e + t).len() implies spec_is_java_utf8_byte(#[trigger] (e + t)[i]) by {
            if i < e.len() {
                assert((e + t)[i] == e[i]);
            } else {
                assert((e + t)[i] == t[i - e.len()]);
            }
        }
    }
}

/// UTF-8 text that holds no zero byte and no four-byte sequence is modified UTF-8 as
/// it stands, and decodes to itself.
pub proof fn lemma_decode_identity(x: Seq<u8>)
    requires
        valid_utf8(x),
        spec_is_valid_java_utf8(x),
    ensures
        spec_decode_from_java_utf8(x) == Ok::<Seq<u8>, UtfConversionError>(x),
{
    lemma_encode_identity(x, 0);
    assert(x.skip(0) =~= x);
    lemma_decode_encode(x);
}

/// A byte below `80` encodes a scalar value.
proof fn lemma_scalar_1(b1: u8)
    by (bit_vector)
    requires
        b1 < 0x80,
    ensures
        not_surrogate(codepoint_width_1(b1)),
{
}

/// A two-byte sequence that starts with `C2` at least is not overlong and encodes a
/// scalar value.
proof fn lemma_scalar_2(b1: u8, b2: u8)
    by (bit_vector)
    requires
        0xC2 <= b1 <= 0xDF,
        0x80 <= b2 <= 0xBF,
    ensures
        not_overlong_encoding(codepoint_width_2(b1, b2), 2),
        not_surrogate(codepoint_width_2(b1, b2)),
{
}

/// A three-byte sequence that starts as this module expects one to start is not overlong
/// and encodes a scalar value.
proof fn lemma_scalar_3(b1: u8, b2: u8, b3: u8)
    by (bit_vector)
    requires
        spec_is_plain_three(b1, b2),
        0x80 <= b3 <= 0xBF,
    ensures
        not_overlong_encoding(codepoint_width_3(b1, b2, b3), 3),
        not_surrogate(codepoint_width_3(b1, b2, b3)),
{
}

/// A four-byte sequence whose code point lies above U+FFFF and within Unicode is not
/// overlong and encodes a scalar value.
proof fn lemma_scalar_4(b1: u8, b2: u8, b3: u8, b4: u8)
    by (bit_vector)
    requires
        0xF0 <= b1 <= 0xF4,
        0x80 <= b2 <= 0xBF,
        0x80 <= b3 <= 0xBF,
        0x80 <= b4 <= 0xBF,
        0x10000 <= spec_four_code_point(b1, b2, b3, b4) <= 0x10FFFF,
    ensures
        not_overlong_encoding(codepoint_width_4(b1, b2, b3, b4), 4),
        not_surrogate(codepoint_width_4(b1, b2, b3, b4)),
{
}

/// What one decoding step gives is the UTF-8 form of one character.
pub proof fn lemma_decode_step_is_utf8(m: Seq<u8>, i: int)
    requires
        0 <= i < m.len(),
    ensures
        spec_decode_step(m, i) matches Ok((head, _)) ==> valid_utf8(head),
{
    if let Ok((head, next)) = spec_decode_step(m, i) {
        lemma_decode_step_cases(m, i);
        if head.len() == 1 {
            lemma_scalar_1(head[0]);
        } else if head.len() == 2 {
            lemma_scalar_2(head[0], head[1]);
        } else if head.len() == 3 {
            lemma_scalar_3(head[0], head[1], head[2]);
        } else {
            lemma_four_bytes(m[i + 1], m[i + 2], m[i + 4], m[i + 5]);
            lemma_scalar_4(head[0], head[1], head[2], head[3]);
        }
        assert(valid_first_scalar(head));
        assert(pop_first_scalar(head) =~= Seq::<u8>::empty());
        assert(valid_utf8(pop_first_scalar(head)));
    }
}

/// What modified UTF-8 text decodes to is well-formed UTF-8.
pub proof fn lemma_decoded_is_utf8(m: Seq<u8>, i: int)
    requires
        0 <= i <= m.len(),
    ensures
        spec_decode_from(m, i) matches Ok(d) ==> valid_utf8(d),
    decreases m.len() - i,
{
    if i < m.len() {
        if let Ok((head, next)) = spec_decode_step(m, i) {
            lemma_decode_step_advances(m, i);
            lemma_decode_step_is_utf8(m, i);
            lemma_decoded_is_utf8(m, next);
            if let Ok(tail) = spec_decode_from(m, next) {
                valid_utf8_concat(head, tail);
            }
        }
    }
}

/// A string survives the modified UTF-8 codec: decoding what it encodes to gives the
/// string again.
pub proof fn lemma_string_round_trip(chars: Seq<char>)
    ensures
        spec_from_java_utf8(spec_to_java_utf8(encode_utf8(chars))) == Some(chars),
{
    let b = encode_utf8(chars);
    encode_utf8_valid_utf8(chars);
    encode_utf8_decode_utf8(chars);
    if spec_is_valid_java_utf8(b) {
        lemma_decode_identity(b);
    } else {
        lemma_encode_valid(b);
        lemma_decode_encode(b);
    }
}


/// The four-byte sequence that a surrogate pair decodes to is well formed, and its code
/// point has the surrogate pair that it was decoded from.
proof fn lemma_four_bytes(second: u8, third: u8, fifth: u8, sixth: u8)
    by (bit_vector)
    requires
        0xA0 <= second <= 0xAF,
        0x80 <= third <= 0xBF,
        0xB0 <= fifth <= 0xBF,
        0x80 <= sixth <= 0xBF,
    ensures
        ({
            let c = spec_surrogate_pair(spec_decode_surrogate(second, third), spec_decode_surrogate(fifth, sixth));
            let d = spec_four_code_point(
                spec_four_byte(c, 0),
                spec_four_byte(c, 1),
                spec_four_byte(c, 2),
                spec_four_byte(c, 3),
            );
            &&& 0xF0 <= spec_four_byte(c, 0) <= 0xF4
            &&& 0x80 <= spec_four_byte(c, 1) <= 0xBF
            &&& 0x80 <= spec_four_byte(c, 2) <= 0xBF
            &&& 0x80 <= spec_four_byte(c, 3) <= 0xBF
            &&& 0x10000 <= d <= 0x10FFFF
            &&& spec_surrogate_byte(spec_high_surrogate(d), 0) == 0xED
            &&& spec_surrogate_byte(spec_high_surrogate(d), 1) == second
            &&& spec_surrogate_byte(spec_high_surrogate(d), 2) == third
            &&& spec_surrogate_byte(spec_low_surrogate(d), 0) == 0xED
            &&& spec_surrogate_byte(spec_low_surrogate(d), 1) == fifth
            &&& spec_surrogate_byte(spec_low_surrogate(d), 2) == sixth
        }),
{
}

/// A byte that is neither zero nor the start of a four-byte sequence is copied.
proof fn lemma_encode_plain(d: Seq<u8>, k: int)
    requires
        0 <= k < d.len(),
        d[k] != 0,
        !(0xF0 <= d[k] <= 0xF4),
    ensures
        spec_encode_from(d, k) == seq![d[k]] + spec_encode_from(d, k + 1),
{
}

/// Encoding the four-byte sequence that a surrogate pair decoded to gives the pair.
proof fn lemma_encode_pair_output(second: u8, third: u8, fifth: u8, sixth: u8, tail: Seq<u8>)
    requires
        0xA0 <= second <= 0xAF,
        spec_is_continuation(third),
        0xB0 <= fifth <= 0xBF,
        spec_is_continuation(sixth),
    ensures
        spec_encode_from(spec_decode_surrogates(second, third, fifth, sixth) + tail, 0) == seq![
            0xEDu8,
            second,
            third,
            0xEDu8,
            fifth,
            sixth,
        ] + spec_encode_from(tail, 0),
{
    let head = spec_decode_surrogates(second, third, fifth, sixth);
    let d = head + tail;
    lemma_four_bytes(second, third, fifth, sixth);
    assert(d[0] == head[0] && d[1] == head[1] && d[2] == head[2] && d[3] == head[3]);
    assert(spec_is_four_at(d, 0));
    let c = spec_four_code_point(d[0], d[1], d[2], d[3]);
    assert(spec_encode_pair(c) =~= seq![0xEDu8, second, third, 0xEDu8, fifth, sixth]);
    lemma_encode_from_skip(d, 4);
    assert(d.skip(4) =~= tail);
}

/// What a decoding step took from the text is the modified form of what it gave: encoding
/// what the step gave, followed by anything, yields what the step took and the encoding of
/// what follows.
proof fn lemma_encode_step_output(m: Seq<u8>, i: int, tail: Seq<u8>)
    requires
        0 <= i < m.len(),
        spec_decode_step(m, i) is Ok,
    ensures
        ({
            let (head, next) = spec_decode_step(m, i)->Ok_0;
            &&& i < next <= m.len()
            &&& spec_encode_from(head + tail, 0) == m.subrange(i, next) + spec_encode_from(tail, 0)
        }),
{
    let (head, next) = spec_decode_step(m, i)->Ok_0;
    let d = head + tail;
    lemma_decode_step_cases(m, i);
    lemma_encode_from_skip(d, head.len() as int);
    assert(d.skip(head.len() as int) =~= tail);
    if 0 < m[i] < 0x80 {
        assert(d[0] == m[i]);
        lemma_encode_plain(d, 0);
        assert(seq![m[i]] =~= m.subrange(i, next));
    } else if m[i] == 0xC0 {
        assert(d[0] == 0);
        assert(seq![0xC0u8, 0x80u8] =~= m.subrange(i, next));
    } else if 0xC2 <= m[i] <= 0xDF {
        assert(d[0] == m[i] && d[1] == m[i + 1]);
        lemma_encode_plain(d, 0);
        lemma_encode_plain(d, 1);
        assert(seq![d[0]] + (seq![d[1]] + spec_encode_from(d, 2)) =~= m.subrange(i, next) + spec_encode_from(d, 2));
    } else if spec_is_plain_three(m[i], m[i + 1]) {
        assert(d[0] == m[i] && d[1] == m[i + 1] && d[2] == m[i + 2]);
        lemma_encode_plain(d, 0);
        lemma_encode_plain(d, 1);
        lemma_encode_plain(d, 2);
        assert(seq![d[0]] + (seq![d[1]] + (seq![d[2]] + spec_encode_from(d, 3))) =~= m.subrange(i, next)
            + spec_encode_from(d, 3));
    } else {
        lemma_encode_pair_output(m[i + 1], m[i + 2], m[i + 4], m[i + 5], tail);
        assert(seq![0xEDu8, m[i + 1], m[i + 2], 0xEDu8, m[i + 4], m[i + 5]] =~= m.subrange(i, next));
    }
}

/// Encoding what modified UTF-8 text decodes to gives the text again.
pub proof fn lemma_encode_decode(m: Seq<u8>, i: int)
    requires
        0 <= i <= m.len(),
        spec_decode_from(m, i) is Ok,
    ensures
        spec_encode_from(spec_decode_from(m, i)->Ok_0, 0) == m.skip(i),
    decreases m.len() - i,
{
    if i < m.len() {
        let (head, next) = spec_decode_step(m, i)->Ok_0;
        let tail = spec_decode_from(m, next)->Ok_0;
        lemma_decode_step_advances(m, i);
        lemma_encode_decode(m, next);
        lemma_encode_step_output(m, i, tail);
        assert(m.subrange(i, next) + m.skip(next) =~= m.skip(i));
    } else {
        assert(m.skip(i) =~= Seq::<u8>::empty());
    }
}

/// The payload of a string constant survives the codec: encoding the string that it
/// decodes to gives the payload again.
pub proof fn lemma_payload_round_trip(m: Seq<u8>)
    ensures
        spec_from_java_utf8(m) matches Some(chars) ==> spec_to_java_utf8(encode_utf8(chars)) == m,
{
    if let Some(chars) = spec_from_java_utf8(m) {
        let d = spec_decode_from_java_utf8(m)->Ok_0;
        lemma_decoded_is_utf8(m, 0);
        decode_utf8_encode_utf8(d);
        lemma_encode_decode(m, 0);
        assert(m.skip(0) =~= m);
        if spec_is_valid_java_utf8(d) {
            lemma_encode_identity(d, 0);
            assert(d.skip(0) =~= d);
        }
    }
}


/// The bytes of the string whose 16-bit length stands at `p`, and the position behind
/// them.
pub open spec fn spec_read_string(s: Seq<u8>, p: int) -> Result<(Seq<u8>, int), Error> {
    match spec_read_u16(s, p) {
        Err(e) => Err(e),
        Ok((n, q)) => spec_read_bytes(s, q, n as int),
    }
}

/// Reads a string: a 16-bit length and as many bytes of modified UTF-8.
pub fn read_string(data: &[u8], pos: usize) -> (r: Result<(String, usize), Error>)
    ensures
        match spec_read_string(data@, pos as int) {
            Err(e) => r == Err::<(String, usize), Error>(e),
            Ok((bytes, q)) => match spec_from_java_utf8(bytes) {
                Some(chars) => r matches Ok((text, end)) && text@ == chars && end as int == q,
                None => r matches Err(e) && spec_from_java_utf8_fails_with(bytes, e),
            },
        },
{
    let (n, start) = match read_u16(data, pos) {
        Ok(x) => x,
        Err(e) => {
            return Err(e);
        },
    };
    let (bytes, end) = match read_bytes(data, start, n as usize) {
        Ok(x) => x,
        Err(e) => {
            return Err(e);
        },
    };
    match <String as FromJavaUtf8Ext>::from_java_utf8(bytes.as_slice()) {
        Ok(text) => Ok((text, end)),
        Err(e) => Err(e),
    }
}

/// Appends a string: the length of its modified UTF-8 form, taken modulo 2^16, and the
/// form itself.
pub fn write_string(text: &String, out: &mut Vec<u8>)
    ensures
        final(out)@ == old(out)@ + spec_u16_bytes((spec_to_java_utf8(encode_utf8(text@)).len() % 0x1_0000) as u16)
            + spec_to_java_utf8(encode_utf8(text@)),
{
    let bytes = match ToJavaUtf8Ext::to_java_utf8(text) {
        Ok(b) => b,
        Err(_) => Vec::new(),
    };
    write_u16(out, (bytes.len() % 0x1_0000) as u16);
    write_bytes(out, bytes.as_slice());
}

} // verus!
