//! Frames of the `StackMapTable` attribute.

use crate::bytes::{
    advanced, decoded, lemma_occurs_split, lemma_round_trip_u16, lemma_round_trip_u8, occurs_at, read_u16,
    read_u8, spec_read_u16, spec_read_u8, spec_u16_bytes, views, write_u16, write_u8,
};
use crate::constant_pool::ConstantPoolIndex;
use crate::error::Error;
use vstd::prelude::*;

verus! {

/// The verification type of one local variable or stack entry.
#[derive(Debug, Copy, Clone, PartialEq, Eq)]
pub enum VerificationTypeInfo {
    Top,
    Integer,
    Float,
    Double,
    Long,
    Null,
    UninitializedThis,
    /// An instance of the class at `index`.
    Object { index: ConstantPoolIndex },
    /// The object that the `new` at `offset` creates.
    Uninitialized { offset: u16 },
}

impl View for VerificationTypeInfo {
    type V = VerificationTypeInfo;

    open spec fn view(&self) -> VerificationTypeInfo {
        *self
    }
}

impl VerificationTypeInfo {
    /// Whether reading can produce the value: the tag is one of its variant, and every
    /// count fits its length field.
    #[verifier::opaque]
    pub open spec fn wf(self) -> bool {
        match self {
            VerificationTypeInfo::Top => true,
            VerificationTypeInfo::Integer => true,
            VerificationTypeInfo::Float => true,
            VerificationTypeInfo::Double => true,
            VerificationTypeInfo::Long => true,
            VerificationTypeInfo::Null => true,
            VerificationTypeInfo::UninitializedThis => true,
            VerificationTypeInfo::Object { index } => index.wf(),
            VerificationTypeInfo::Uninitialized { .. } => true,
        }
    }

    /// The bytes of the value: the tag, then the fields of the variant.
    #[verifier::opaque]
    pub open spec fn spec_write(self) -> Seq<u8> {
        match self {
            VerificationTypeInfo::Top => seq![0u8],
            VerificationTypeInfo::Integer => seq![1u8],
            VerificationTypeInfo::Float => seq![2u8],
            VerificationTypeInfo::Double => seq![3u8],
            VerificationTypeInfo::Long => seq![4u8],
            VerificationTypeInfo::Null => seq![5u8],
            VerificationTypeInfo::UninitializedThis => seq![6u8],
            VerificationTypeInfo::Object { index } => seq![7u8] + index.spec_write(),
            VerificationTypeInfo::Uninitialized { offset } => seq![8u8] + spec_u16_bytes(offset),
        }
    }
}

impl VerificationTypeInfo {
    /// The value whose tag stands at `p`, with the position behind it.
    #[verifier::opaque]
    pub open spec fn spec_read(s: Seq<u8>, p: int) -> Result<(VerificationTypeInfo, int), Error> {
        match spec_read_u8(s, p) {
            Err(e) => Err(e),
            Ok((tag, at0)) => if tag == 0 {
                Ok((VerificationTypeInfo::Top, at0))
            } else if tag == 1 {
                Ok((VerificationTypeInfo::Integer, at0))
            } else if tag == 2 {
                Ok((VerificationTypeInfo::Float, at0))
            } else if tag == 3 {
                Ok((VerificationTypeInfo::Double, at0))
            } else if tag == 4 {
                Ok((VerificationTypeInfo::Long, at0))
            } else if tag == 5 {
                Ok((VerificationTypeInfo::Null, at0))
            } else if tag == 6 {
                Ok((VerificationTypeInfo::UninitializedThis, at0))
            } else if tag == 7 {
                match ConstantPoolIndex::spec_read(s, at0) {
                    Err(e) => Err(e),
                    Ok((index, at1)) => {
                        Ok((VerificationTypeInfo::Object { index }, at1))
                    },
                }
            } else if tag == 8 {
                match spec_read_u16(s, at0) {
                    Err(e) => Err(e),
                    Ok((offset, at1)) => {
                        Ok((VerificationTypeInfo::Uninitialized { offset }, at1))
                    },
                }
            } else {
                Err(Error::UnknownVerificationType(tag))
            },
        }
    }

    /// Reads the value whose tag stands at `pos`.
    pub fn read(data: &[u8], pos: usize) -> (r: Result<(VerificationTypeInfo, usize), Error>)
        ensures
            decoded(r, Self::spec_read(data@, pos as int)),
            advanced(r, data@, pos),
    {
        proof {
            reveal(VerificationTypeInfo::spec_read);
        }
        let (tag, pos0) = match read_u8(data, pos) {
            Ok(x) => x,
            Err(e) => {
                return Err(e);
            },
        };
        if tag == 0 {
            Ok((VerificationTypeInfo::Top, pos0))
        } else if tag == 1 {
            Ok((VerificationTypeInfo::Integer, pos0))
        } else if tag == 2 {
            Ok((VerificationTypeInfo::Float, pos0))
        } else if tag == 3 {
            Ok((VerificationTypeInfo::Double, pos0))
        } else if tag == 4 {
            Ok((VerificationTypeInfo::Long, pos0))
        } else if tag == 5 {
            Ok((VerificationTypeInfo::Null, pos0))
        } else if tag == 6 {
            Ok((VerificationTypeInfo::UninitializedThis, pos0))
        } else if tag == 7 {
            let (index, pos1) = match ConstantPoolIndex::read(data, pos0) {
                Ok(x) => x,
                Err(e) => {
                    return Err(e);
                },
            };
            Ok((VerificationTypeInfo::Object { index }, pos1))
        } else if tag == 8 {
            let (offset, pos1) = match read_u16(data, pos0) {
                Ok(x) => x,
                Err(e) => {
                    return Err(e);
                },
            };
            Ok((VerificationTypeInfo::Uninitialized { offset }, pos1))
        } else {
            Err(Error::UnknownVerificationType(tag))
        }
    }

    /// Appends the bytes of the value.
    pub fn write(&self, out: &mut Vec<u8>)
        ensures
            final(out)@ == old(out)@ + self@.spec_write(),
    {
        match self {
            VerificationTypeInfo::Top => {
                write_u8(out, 0);
            },
            VerificationTypeInfo::Integer => {
                write_u8(out, 1);
            },
            VerificationTypeInfo::Float => {
                write_u8(out, 2);
            },
            VerificationTypeInfo::Double => {
                write_u8(out, 3);
            },
            VerificationTypeInfo::Long => {
                write_u8(out, 4);
            },
            VerificationTypeInfo::Null => {
                write_u8(out, 5);
            },
            VerificationTypeInfo::UninitializedThis => {
                write_u8(out, 6);
            },
            VerificationTypeInfo::Object { index } => {
                write_u8(out, 7);
                index.write(out);
            },
            VerificationTypeInfo::Uninitialized { offset } => {
                write_u8(out, 8);
                write_u16(out, *offset);
            },
        }
        proof {
            reveal(VerificationTypeInfo::spec_write);
            assert(out@ =~= old(out)@ + self@.spec_write());
        }
    }

    /// Reading back a written `Top`.
    proof fn lemma_round_trip_top(v: VerificationTypeInfo, s: Seq<u8>, p: int)
        requires
            v is Top,
            v.wf(),
            occurs_at(s, p, v.spec_write()),
        ensures
            Self::spec_read(s, p) == Ok::<(VerificationTypeInfo, int), Error>((v, p + v.spec_write().len())),
    {
        reveal(VerificationTypeInfo::spec_read);
        reveal(VerificationTypeInfo::spec_write);
        reveal(VerificationTypeInfo::wf);
        if let VerificationTypeInfo::Top = v {
            let w0 = seq![0u8];
            lemma_round_trip_u8(0, s, p);
        }
    }

    /// Reading back a written `Integer`.
    proof fn lemma_round_trip_integer(v: VerificationTypeInfo, s: Seq<u8>, p: int)
        requires
            v is Integer,
            v.wf(),
            occurs_at(s, p, v.spec_write()),
        ensures
            Self::spec_read(s, p) == Ok::<(VerificationTypeInfo, int), Error>((v, p + v.spec_write().len())),
    {
        reveal(VerificationTypeInfo::spec_read);
        reveal(VerificationTypeInfo::spec_write);
        reveal(VerificationTypeInfo::wf);
        if let VerificationTypeInfo::Integer = v {
            let w0 = seq![1u8];
            lemma_round_trip_u8(1, s, p);
        }
    }

    /// Reading back a written `Float`.
    proof fn lemma_round_trip_float(v: VerificationTypeInfo, s: Seq<u8>, p: int)
        requires
            v is Float,
            v.wf(),
            occurs_at(s, p, v.spec_write()),
        ensures
            Self::spec_read(s, p) == Ok::<(VerificationTypeInfo, int), Error>((v, p + v.spec_write().len())),
    {
        reveal(VerificationTypeInfo::spec_read);
        reveal(VerificationTypeInfo::spec_write);
        reveal(VerificationTypeInfo::wf);
        if let VerificationTypeInfo::Float = v {
            let w0 = seq![2u8];
            lemma_round_trip_u8(2, s, p);
        }
    }

    /// Reading back a written `Double`.
    proof fn lemma_round_trip_double(v: VerificationTypeInfo, s: Seq<u8>, p: int)
        requires
            v is Double,
            v.wf(),
            occurs_at(s, p, v.spec_write()),
        ensures
            Self::spec_read(s, p) == Ok::<(VerificationTypeInfo, int), Error>((v, p + v.spec_write().len())),
    {
        reveal(VerificationTypeInfo::spec_read);
        reveal(VerificationTypeInfo::spec_write);
        reveal(VerificationTypeInfo::wf);
        if let VerificationTypeInfo::Double = v {
            let w0 = seq![3u8];
            lemma_round_trip_u8(3, s, p);
        }
    }

    /// Reading back a written `Long`.
    proof fn lemma_round_trip_long(v: VerificationTypeInfo, s: Seq<u8>, p: int)
        requires
            v is Long,
            v.wf(),
            occurs_at(s, p, v.spec_write()),
        ensures
            Self::spec_read(s, p) == Ok::<(VerificationTypeInfo, int), Error>((v, p + v.spec_write().len())),
    {
        reveal(VerificationTypeInfo::spec_read);
        reveal(VerificationTypeInfo::spec_write);
        reveal(VerificationTypeInfo::wf);
        if let VerificationTypeInfo::Long = v {
            let w0 = seq![4u8];
            lemma_round_trip_u8(4, s, p);
        }
    }

    /// Reading back a written `Null`.
    proof fn lemma_round_trip_null(v: VerificationTypeInfo, s: Seq<u8>, p: int)
        requires
            v is Null,
            v.wf(),
            occurs_at(s, p, v.spec_write()),
        ensures
            Self::spec_read(s, p) == Ok::<(VerificationTypeInfo, int), Error>((v, p + v.spec_write().len())),
    {
        reveal(VerificationTypeInfo::spec_read);
        reveal(VerificationTypeInfo::spec_write);
        reveal(VerificationTypeInfo::wf);
        if let VerificationTypeInfo::Null = v {
            let w0 = seq![5u8];
            lemma_round_trip_u8(5, s, p);
        }
    }

    /// Reading back a written `UninitializedThis`.
    proof fn lemma_round_trip_uninitialized_this(v: VerificationTypeInfo, s: Seq<u8>, p: int)
        requires
            v is UninitializedThis,
            v.wf(),
            occurs_at(s, p, v.spec_write()),
        ensures
            Self::spec_read(s, p) == Ok::<(VerificationTypeInfo, int), Error>((v, p + v.spec_write().len())),
    {
        reveal(VerificationTypeInfo::spec_read);
        reveal(VerificationTypeInfo::spec_write);
        reveal(VerificationTypeInfo::wf);
        if let VerificationTypeInfo::UninitializedThis = v {
            let w0 = seq![6u8];
            lemma_round_trip_u8(6, s, p);
        }
    }

    /// Reading back a written `Object`.
    proof fn lemma_round_trip_object(v: VerificationTypeInfo, s: Seq<u8>, p: int)
        requires
            v is Object,
            v.wf(),
            occurs_at(s, p, v.spec_write()),
        ensures
            Self::spec_read(s, p) == Ok::<(VerificationTypeInfo, int), Error>((v, p + v.spec_write().len())),
    {
        reveal(VerificationTypeInfo::spec_read);
        reveal(VerificationTypeInfo::spec_write);
        reveal(VerificationTypeInfo::wf);
        if let VerificationTypeInfo::Object { index } = v {
            let w0 = seq![7u8];
            let w1 = index.spec_write();
            let a1 = w0 + w1;
            assert(a1.len() == w0.len() + w1.len());
            lemma_occurs_split(s, p, w0, w1);
            lemma_round_trip_u8(7, s, p);
            ConstantPoolIndex::lemma_round_trip(index, s, p + w0.len());
        }
    }

    /// Reading back a written `Uninitialized`.
    proof fn lemma_round_trip_uninitialized(v: VerificationTypeInfo, s: Seq<u8>, p: int)
        requires
            v is Uninitialized,
            v.wf(),
            occurs_at(s, p, v.spec_write()),
        ensures
            Self::spec_read(s, p) == Ok::<(VerificationTypeInfo, int), Error>((v, p + v.spec_write().len())),
    {
        reveal(VerificationTypeInfo::spec_read);
        reveal(VerificationTypeInfo::spec_write);
        reveal(VerificationTypeInfo::wf);
        if let VerificationTypeInfo::Uninitialized { offset } = v {
            let w0 = seq![8u8];
            let w1 = spec_u16_bytes(offset);
            let a1 = w0 + w1;
            assert(a1.len() == w0.len() + w1.len());
            lemma_occurs_split(s, p, w0, w1);
            lemma_round_trip_u8(8, s, p);
            lemma_round_trip_u16(offset, s, p + w0.len());
        }
    }

    /// Reading back what `spec_write` gives for a value that reading can produce yields it.
    pub proof fn lemma_round_trip(v: VerificationTypeInfo, s: Seq<u8>, p: int)
        requires
            v.wf(),
            occurs_at(s, p, v.spec_write()),
        ensures
            Self::spec_read(s, p) == Ok::<(VerificationTypeInfo, int), Error>((v, p + v.spec_write().len())),
    {
        match v {
            VerificationTypeInfo::Top => Self::lemma_round_trip_top(v, s, p),
            VerificationTypeInfo::Integer => Self::lemma_round_trip_integer(v, s, p),
            VerificationTypeInfo::Float => Self::lemma_round_trip_float(v, s, p),
            VerificationTypeInfo::Double => Self::lemma_round_trip_double(v, s, p),
            VerificationTypeInfo::Long => Self::lemma_round_trip_long(v, s, p),
            VerificationTypeInfo::Null => Self::lemma_round_trip_null(v, s, p),
            VerificationTypeInfo::UninitializedThis => Self::lemma_round_trip_uninitialized_this(v, s, p),
            VerificationTypeInfo::Object { .. } => Self::lemma_round_trip_object(v, s, p),
            VerificationTypeInfo::Uninitialized { .. } => Self::lemma_round_trip_uninitialized(v, s, p),
        }
    }

    /// A `Top` that was read is well formed, and has as many bytes as were taken.
    proof fn lemma_read_wf_top(s: Seq<u8>, p: int)
        requires
            spec_read_u8(s, p) matches Ok((tag, _)) && (tag == 0),
        ensures
            Self::spec_read(s, p) matches Ok((v, q)) ==> v.wf() && q == p + v.spec_write().len()
                && q <= s.len(),
    {
        reveal(VerificationTypeInfo::spec_read);
        reveal(VerificationTypeInfo::spec_write);
        reveal(VerificationTypeInfo::wf);
        let tag = spec_read_u8(s, p)->Ok_0.0;
    }

    /// A `Integer` that was read is well formed, and has as many bytes as were taken.
    proof fn lemma_read_wf_integer(s: Seq<u8>, p: int)
        requires
            spec_read_u8(s, p) matches Ok((tag, _)) && (tag == 1),
        ensures
            Self::spec_read(s, p) matches Ok((v, q)) ==> v.wf() && q == p + v.spec_write().len()
                && q <= s.len(),
    {
        reveal(VerificationTypeInfo::spec_read);
        reveal(VerificationTypeInfo::spec_write);
        reveal(VerificationTypeInfo::wf);
        let tag = spec_read_u8(s, p)->Ok_0.0;
    }

    /// A `Float` that was read is well formed, and has as many bytes as were taken.
    proof fn lemma_read_wf_float(s: Seq<u8>, p: int)
        requires
            spec_read_u8(s, p) matches Ok((tag, _)) && (tag == 2),
        ensures
            Self::spec_read(s, p) matches Ok((v, q)) ==> v.wf() && q == p + v.spec_write().len()
                && q <= s.len(),
    {
        reveal(VerificationTypeInfo::spec_read);
        reveal(VerificationTypeInfo::spec_write);
        reveal(VerificationTypeInfo::wf);
        let tag = spec_read_u8(s, p)->Ok_0.0;
    }

    /// A `Double` that was read is well formed, and has as many bytes as were taken.
    proof fn lemma_read_wf_double(s: Seq<u8>, p: int)
        requires
            spec_read_u8(s, p) matches Ok((tag, _)) && (tag == 3),
        ensures
            Self::spec_read(s, p) matches Ok((v, q)) ==> v.wf() && q == p + v.spec_write().len()
                && q <= s.len(),
    {
        reveal(VerificationTypeInfo::spec_read);
        reveal(VerificationTypeInfo::spec_write);
        reveal(VerificationTypeInfo::wf);
        let tag = spec_read_u8(s, p)->Ok_0.0;
    }

    /// A `Long` that was read is well formed, and has as many bytes as were taken.
    proof fn lemma_read_wf_long(s: Seq<u8>, p: int)
        requires
            spec_read_u8(s, p) matches Ok((tag, _)) && (tag == 4),
        ensures
            Self::spec_read(s, p) matches Ok((v, q)) ==> v.wf() && q == p + v.spec_write().len()
                && q <= s.len(),
    {
        reveal(VerificationTypeInfo::spec_read);
        reveal(VerificationTypeInfo::spec_write);
        reveal(VerificationTypeInfo::wf);
        let tag = spec_read_u8(s, p)->Ok_0.0;
    }

    /// A `Null` that was read is well formed, and has as many bytes as were taken.
    proof fn lemma_read_wf_null(s: Seq<u8>, p: int)
        requires
            spec_read_u8(s, p) matches Ok((tag, _)) && (tag == 5),
        ensures
            Self::spec_read(s, p) matches Ok((v, q)) ==> v.wf() && q == p + v.spec_write().len()
                && q <= s.len(),
    {
        reveal(VerificationTypeInfo::spec_read);
        reveal(VerificationTypeInfo::spec_write);
        reveal(VerificationTypeInfo::wf);
        let tag = spec_read_u8(s, p)->Ok_0.0;
    }

    /// A `UninitializedThis` that was read is well formed, and has as many bytes as were taken.
    proof fn lemma_read_wf_uninitialized_this(s: Seq<u8>, p: int)
        requires
            spec_read_u8(s, p) matches Ok((tag, _)) && (tag == 6),
        ensures
            Self::spec_read(s, p) matches Ok((v, q)) ==> v.wf() && q == p + v.spec_write().len()
                && q <= s.len(),
    {
        reveal(VerificationTypeInfo::spec_read);
        reveal(VerificationTypeInfo::spec_write);
        reveal(VerificationTypeInfo::wf);
        let tag = spec_read_u8(s, p)->Ok_0.0;
    }

    /// A `Object` that was read is well formed, and has as many bytes as were taken.
    proof fn lemma_read_wf_object(s: Seq<u8>, p: int)
        requires
            spec_read_u8(s, p) matches Ok((tag, _)) && (tag == 7),
        ensures
            Self::spec_read(s, p) matches Ok((v, q)) ==> v.wf() && q == p + v.spec_write().len()
                && q <= s.len(),
    {
        reveal(VerificationTypeInfo::spec_read);
        reveal(VerificationTypeInfo::spec_write);
        reveal(VerificationTypeInfo::wf);
        let tag = spec_read_u8(s, p)->Ok_0.0;
        ConstantPoolIndex::lemma_read_wf(s, p + 1);
        if let Ok((index, at1)) = ConstantPoolIndex::spec_read(s, p + 1) {
        }
    }

    /// A `Uninitialized` that was read is well formed, and has as many bytes as were taken.
    proof fn lemma_read_wf_uninitialized(s: Seq<u8>, p: int)
        requires
            spec_read_u8(s, p) matches Ok((tag, _)) && (tag == 8),
        ensures
            Self::spec_read(s, p) matches Ok((v, q)) ==> v.wf() && q == p + v.spec_write().len()
                && q <= s.len(),
    {
        reveal(VerificationTypeInfo::spec_read);
        reveal(VerificationTypeInfo::spec_write);
        reveal(VerificationTypeInfo::wf);
        let tag = spec_read_u8(s, p)->Ok_0.0;
        if let Ok((offset, at1)) = spec_read_u16(s, p + 1) {
        }
    }

    /// A value that was read is well formed, and has as many bytes as were taken.
    pub proof fn lemma_read_wf(s: Seq<u8>, p: int)
        ensures
            Self::spec_read(s, p) matches Ok((v, q)) ==> v.wf() && q == p + v.spec_write().len()
                && q <= s.len(),
    {
        if let Ok((tag, _)) = spec_read_u8(s, p) {
            if tag == 0 {
                Self::lemma_read_wf_top(s, p);
            } else if tag == 1 {
                Self::lemma_read_wf_integer(s, p);
            } else if tag == 2 {
                Self::lemma_read_wf_float(s, p);
            } else if tag == 3 {
                Self::lemma_read_wf_double(s, p);
            } else if tag == 4 {
                Self::lemma_read_wf_long(s, p);
            } else if tag == 5 {
                Self::lemma_read_wf_null(s, p);
            } else if tag == 6 {
                Self::lemma_read_wf_uninitialized_this(s, p);
            } else if tag == 7 {
                Self::lemma_read_wf_object(s, p);
            } else if tag == 8 {
                Self::lemma_read_wf_uninitialized(s, p);
            } else {
                reveal(VerificationTypeInfo::spec_read);
            }
        } else {
            reveal(VerificationTypeInfo::spec_read);
        }
    }
}

impl VerificationTypeInfo {
    /// Whether each element is well formed.
    #[verifier::opaque]
    pub open spec fn wf_seq(xs: Seq<VerificationTypeInfo>) -> bool {
        forall|i: int| 0 <= i < xs.len() ==> (#[trigger] xs[i]).wf()
    }

    /// The elements one after the other, without a count.
    #[verifier::opaque]
    pub open spec fn spec_write_seq(xs: Seq<VerificationTypeInfo>) -> Seq<u8>
        decreases xs.len(),
    {
        if xs.len() == 0 {
            Seq::empty()
        } else {
            Self::spec_write_seq(xs.drop_last()) + xs.last().spec_write()
        }
    }

    /// The `n` elements that start at `p`, read one after the other.
    #[verifier::opaque]
    pub open spec fn spec_read_seq(
        s: Seq<u8>,
        p: int,
        n: nat,
    ) -> Result<(Seq<VerificationTypeInfo>, int), Error>
        decreases n,
    {
        if n == 0 {
            Ok((Seq::empty(), p))
        } else {
            match Self::spec_read_seq(s, p, (n - 1) as nat) {
                Err(e) => Err(e),
                Ok((xs, q)) => match Self::spec_read(s, q) {
                    Err(e) => Err(e),
                    Ok((x, q2)) => Ok((xs.push(x), q2)),
                },
            }
        }
    }

    /// Once a prefix fails to read, every longer sequence fails the same way.
    pub proof fn lemma_read_seq_err(s: Seq<u8>, p: int, k: nat, n: nat)
        requires
            k <= n,
            Self::spec_read_seq(s, p, k) is Err,
        ensures
            Self::spec_read_seq(s, p, n) == Self::spec_read_seq(s, p, k),
        decreases n,
    {
        reveal(VerificationTypeInfo::spec_read_seq);
        if k < n {
            Self::lemma_read_seq_err(s, p, k, (n - 1) as nat);
        }
    }

    /// Reads `n` elements one after the other, the first of them at `pos`.
    pub fn read_seq(
        data: &[u8],
        pos: usize,
        n: usize,
    ) -> (r: Result<(Vec<VerificationTypeInfo>, usize), Error>)
        ensures
            match Self::spec_read_seq(data@, pos as int, n as nat) {
                Ok((v, p)) => r matches Ok((rv, rp)) && rv@ == v && rp as int == p,
                Err(e) => r == Err::<(Vec<VerificationTypeInfo>, usize), Error>(e),
            },
            advanced(r, data@, pos),
    {
        let mut out: Vec<VerificationTypeInfo> = Vec::new();
        let mut cur = pos;
        let mut i: usize = 0;
        proof {
            reveal(VerificationTypeInfo::spec_read_seq);
        }
        while i < n
            invariant
                i <= n,
                pos <= data@.len() ==> pos <= cur <= data@.len(),
                Self::spec_read_seq(data@, pos as int, i as nat) == Ok::<(Seq<VerificationTypeInfo>, int), Error>((out@, cur as int)),
            decreases n - i,
        {
            proof {
                reveal(VerificationTypeInfo::spec_read_seq);
            }
            match Self::read(data, cur) {
                Err(e) => {
                    proof {
                        Self::lemma_read_seq_err(data@, pos as int, (i + 1) as nat, n as nat);
                    }
                    return Err(e);
                },
                Ok((x, next)) => {
                    out.push(x);
                    cur = next;
                },
            }
            i += 1;
        }
        Ok((out, cur))
    }

    /// Appends the bytes of the elements, one after the other.
    pub fn write_seq(xs: &Vec<VerificationTypeInfo>, out: &mut Vec<u8>)
        ensures
            final(out)@ == old(out)@ + Self::spec_write_seq(xs@),
    {
        let mut i: usize = 0;
        proof {
            reveal(VerificationTypeInfo::spec_write_seq);
        }
        while i < xs.len()
            invariant
                i <= xs.len(),
                out@ == old(out)@ + Self::spec_write_seq(xs@.take(i as int)),
            decreases xs.len() - i,
        {
            proof {
                reveal(VerificationTypeInfo::spec_write_seq);
                let t = xs@.take(i + 1);
                assert(t.drop_last() =~= xs@.take(i as int));
            }
            xs[i].write(out);
            proof {
                reveal(VerificationTypeInfo::spec_write_seq);
                assert(out@ =~= old(out)@ + Self::spec_write_seq(xs@.take(i + 1)));
            }
            i += 1;
        }
        proof {
            assert(xs@.take(xs.len() as int) =~= xs@);
        }
    }

    /// Reading back the elements that `spec_write_seq` wrote yields them all.
    pub proof fn lemma_round_trip_seq(xs: Seq<VerificationTypeInfo>, s: Seq<u8>, p: int)
        requires
            Self::wf_seq(xs),
            occurs_at(s, p, Self::spec_write_seq(xs)),
        ensures
            Self::spec_read_seq(s, p, xs.len()) == Ok::<(Seq<VerificationTypeInfo>, int), Error>(
                (xs, p + Self::spec_write_seq(xs).len()),
            ),
        decreases xs.len(),
    {
        reveal(VerificationTypeInfo::spec_read_seq);
        reveal(VerificationTypeInfo::spec_write_seq);
        reveal(VerificationTypeInfo::wf_seq);
        if xs.len() > 0 {
            let front = xs.drop_last();
            let w = Self::spec_write_seq(front);
            assert forall|i: int| 0 <= i < front.len() implies (#[trigger] front[i]).wf() by {
                assert(front[i] == xs[i]);
            }
            assert(xs.last() == xs[xs.len() - 1]);
            lemma_occurs_split(s, p, w, xs.last().spec_write());
            Self::lemma_round_trip_seq(front, s, p);
            Self::lemma_round_trip(xs.last(), s, p + w.len());
            assert(front.push(xs.last()) =~= xs);
        } else {
            assert(xs =~= Seq::<VerificationTypeInfo>::empty());
        }
    }

    /// Elements that were read are as many as were asked for and well formed, and have
    /// as many bytes as were taken.
    pub proof fn lemma_read_seq_wf(s: Seq<u8>, p: int, n: nat)
        ensures
            Self::spec_read_seq(s, p, n) matches Ok((xs, q)) ==> xs.len() == n && Self::wf_seq(xs)
                && q == p + Self::spec_write_seq(xs).len() && (p <= s.len() ==> q <= s.len()),
        decreases n,
    {
        reveal(VerificationTypeInfo::spec_read_seq);
        reveal(VerificationTypeInfo::spec_write_seq);
        reveal(VerificationTypeInfo::wf_seq);
        if n > 0 {
            Self::lemma_read_seq_wf(s, p, (n - 1) as nat);
            if let Ok((front, q)) = Self::spec_read_seq(s, p, (n - 1) as nat) {
                Self::lemma_read_wf(s, q);
                if let Ok((x, q2)) = Self::spec_read(s, q) {
                    let xs = front.push(x);
                    assert(xs.drop_last() =~= front);
                    assert(xs.last() == x);
                    assert forall|i: int| 0 <= i < xs.len() implies (#[trigger] xs[i]).wf() by {
                        if i < front.len() {
                            assert(xs[i] == front[i]);
                        }
                    }
                }
            }
        }
    }
}

/// One frame of a stack map table.
#[derive(Debug, Clone, PartialEq, Eq)]
pub enum StackMapFrame {
    Same { frame_type: u8 },
    SameLocals1StackItem { frame_type: u8, stack: VerificationTypeInfo },
    SameLocals1StackItemExtended { offset_delta: u16, stack: VerificationTypeInfo },
    Chop { frame_type: u8, offset_delta: u16 },
    SameExtended { offset_delta: u16 },
    Append { frame_type: u8, offset_delta: u16, locals: Vec<VerificationTypeInfo> },
    Full { offset_delta: u16, locals: Vec<VerificationTypeInfo>, stack: Vec<VerificationTypeInfo> },
}

/// The mathematical value of a [`StackMapFrame`].
pub enum StackMapFrameView {
    Same { frame_type: u8 },
    SameLocals1StackItem { frame_type: u8, stack: VerificationTypeInfo },
    SameLocals1StackItemExtended { offset_delta: u16, stack: VerificationTypeInfo },
    Chop { frame_type: u8, offset_delta: u16 },
    SameExtended { offset_delta: u16 },
    Append { frame_type: u8, offset_delta: u16, locals: Seq<VerificationTypeInfo> },
    Full { offset_delta: u16, locals: Seq<VerificationTypeInfo>, stack: Seq<VerificationTypeInfo> },
}

impl View for StackMapFrame {
    type V = StackMapFrameView;

    open spec fn view(&self) -> StackMapFrameView {
        match *self {
            StackMapFrame::Same { frame_type } => StackMapFrameView::Same { frame_type },
            StackMapFrame::SameLocals1StackItem { frame_type, stack } => StackMapFrameView::SameLocals1StackItem { frame_type, stack },
            StackMapFrame::SameLocals1StackItemExtended { offset_delta, stack } => StackMapFrameView::SameLocals1StackItemExtended { offset_delta, stack },
            StackMapFrame::Chop { frame_type, offset_delta } => StackMapFrameView::Chop { frame_type, offset_delta },
            StackMapFrame::SameExtended { offset_delta } => StackMapFrameView::SameExtended { offset_delta },
            StackMapFrame::Append { frame_type, offset_delta, locals } => StackMapFrameView::Append { frame_type, offset_delta, locals: locals@ },
            StackMapFrame::Full { offset_delta, locals, stack } => StackMapFrameView::Full { offset_delta, locals: locals@, stack: stack@ },
        }
    }
}

impl StackMapFrameView {
    /// Whether reading can produce the value: the tag is one of its variant, and every
    /// count fits its length field.
    #[verifier::opaque]
    pub open spec fn wf(self) -> bool {
        match self {
            StackMapFrameView::Same { frame_type } => frame_type <= 63,
            StackMapFrameView::SameLocals1StackItem { frame_type, stack } => (64 <= frame_type && frame_type <= 127)
                && stack.wf(),
            StackMapFrameView::SameLocals1StackItemExtended { offset_delta, stack } => stack.wf(),
            StackMapFrameView::Chop { frame_type, offset_delta } => (248 <= frame_type && frame_type <= 250),
            StackMapFrameView::SameExtended { .. } => true,
            StackMapFrameView::Append { frame_type, offset_delta, locals } => (252 <= frame_type && frame_type <= 254)
                && locals.len() == frame_type - 251 && VerificationTypeInfo::wf_seq(locals),
            StackMapFrameView::Full { offset_delta, locals, stack } => locals.len() <= 0xFFFF
                && VerificationTypeInfo::wf_seq(locals) && stack.len() <= 0xFFFF
                && VerificationTypeInfo::wf_seq(stack),
        }
    }

    /// The bytes of the value: the tag, then the fields of the variant.
    #[verifier::opaque]
    pub open spec fn spec_write(self) -> Seq<u8> {
        match self {
            StackMapFrameView::Same { frame_type } => seq![frame_type],
            StackMapFrameView::SameLocals1StackItem { frame_type, stack } => seq![frame_type]
                + stack.spec_write(),
            StackMapFrameView::SameLocals1StackItemExtended { offset_delta, stack } => seq![247u8]
                + spec_u16_bytes(offset_delta) + stack.spec_write(),
            StackMapFrameView::Chop { frame_type, offset_delta } => seq![frame_type]
                + spec_u16_bytes(offset_delta),
            StackMapFrameView::SameExtended { offset_delta } => seq![251u8] + spec_u16_bytes(offset_delta),
            StackMapFrameView::Append { frame_type, offset_delta, locals } => seq![frame_type]
                + spec_u16_bytes(offset_delta) + VerificationTypeInfo::spec_write_seq(locals),
            StackMapFrameView::Full { offset_delta, locals, stack } => seq![255u8]
                + spec_u16_bytes(offset_delta) + spec_u16_bytes((locals.len() % 0x1_0000) as u16)
                + VerificationTypeInfo::spec_write_seq(locals)
                + spec_u16_bytes((stack.len() % 0x1_0000) as u16)
                + VerificationTypeInfo::spec_write_seq(stack),
        }
    }
}

impl StackMapFrame {
    /// The value whose tag stands at `p`, with the position behind it.
    #[verifier::opaque]
    pub open spec fn spec_read(s: Seq<u8>, p: int) -> Result<(StackMapFrameView, int), Error> {
        match spec_read_u8(s, p) {
            Err(e) => Err(e),
            Ok((tag, at0)) => if tag <= 63 {
                Ok((StackMapFrameView::Same { frame_type: tag }, at0))
            } else if (64 <= tag && tag <= 127) {
                match VerificationTypeInfo::spec_read(s, at0) {
                    Err(e) => Err(e),
                    Ok((stack, at1)) => {
                        Ok((StackMapFrameView::SameLocals1StackItem { frame_type: tag, stack }, at1))
                    },
                }
            } else if tag == 247 {
                match spec_read_u16(s, at0) {
                    Err(e) => Err(e),
                    Ok((offset_delta, at1)) => {
                        match VerificationTypeInfo::spec_read(s, at1) {
                            Err(e) => Err(e),
                            Ok((stack, at2)) => {
                                Ok((StackMapFrameView::SameLocals1StackItemExtended { offset_delta, stack }, at2))
                            },
                        }
                    },
                }
            } else if (248 <= tag && tag <= 250) {
                match spec_read_u16(s, at0) {
                    Err(e) => Err(e),
                    Ok((offset_delta, at1)) => {
                        Ok((StackMapFrameView::Chop { frame_type: tag, offset_delta }, at1))
                    },
                }
            } else if tag == 251 {
                match spec_read_u16(s, at0) {
                    Err(e) => Err(e),
                    Ok((offset_delta, at1)) => {
                        Ok((StackMapFrameView::SameExtended { offset_delta }, at1))
                    },
                }
            } else if (252 <= tag && tag <= 254) {
                match spec_read_u16(s, at0) {
                    Err(e) => Err(e),
                    Ok((offset_delta, at1)) => {
                        match VerificationTypeInfo::spec_read_seq(s, at1, (tag - 251) as nat) {
                            Err(e) => Err(e),
                            Ok((locals, at2)) => {
                                Ok((StackMapFrameView::Append { frame_type: tag, offset_delta, locals }, at2))
                            },
                        }
                    },
                }
            } else if tag == 255 {
                match spec_read_u16(s, at0) {
                    Err(e) => Err(e),
                    Ok((offset_delta, at1)) => {
                        match spec_read_u16(s, at1) {
                            Err(e) => Err(e),
                            Ok((n_locals, at2)) => {
                                match VerificationTypeInfo::spec_read_seq(s, at2, n_locals as nat) {
                                    Err(e) => Err(e),
                                    Ok((locals, at3)) => {
                                        match spec_read_u16(s, at3) {
                                            Err(e) => Err(e),
                                            Ok((n_stack, at4)) => {
                                                match VerificationTypeInfo::spec_read_seq(s, at4, n_stack as nat) {
                                                    Err(e) => Err(e),
                                                    Ok((stack, at5)) => {
                                                        Ok((StackMapFrameView::Full { offset_delta, locals, stack }, at5))
                                                    },
                                                }
                                            },
                                        }
                                    },
                                }
                            },
                        }
                    },
                }
            } else {
                Err(Error::UnknownStackMapFrameType(tag))
            },
        }
    }

    /// Reads the value whose tag stands at `pos`.
    pub fn read(data: &[u8], pos: usize) -> (r: Result<(StackMapFrame, usize), Error>)
        ensures
            decoded(r, Self::spec_read(data@, pos as int)),
            advanced(r, data@, pos),
    {
        proof {
            reveal(StackMapFrame::spec_read);
        }
        let (tag, pos0) = match read_u8(data, pos) {
            Ok(x) => x,
            Err(e) => {
                return Err(e);
            },
        };
        if tag <= 63 {
            Ok((StackMapFrame::Same { frame_type: tag }, pos0))
        } else if (64 <= tag && tag <= 127) {
            let (stack, pos1) = match VerificationTypeInfo::read(data, pos0) {
                Ok(x) => x,
                Err(e) => {
                    return Err(e);
                },
            };
            Ok((StackMapFrame::SameLocals1StackItem { frame_type: tag, stack }, pos1))
        } else if tag == 247 {
            let (offset_delta, pos1) = match read_u16(data, pos0) {
                Ok(x) => x,
                Err(e) => {
                    return Err(e);
                },
            };
            let (stack, pos2) = match VerificationTypeInfo::read(data, pos1) {
                Ok(x) => x,
                Err(e) => {
                    return Err(e);
                },
            };
            Ok((StackMapFrame::SameLocals1StackItemExtended { offset_delta, stack }, pos2))
        } else if (248 <= tag && tag <= 250) {
            let (offset_delta, pos1) = match read_u16(data, pos0) {
                Ok(x) => x,
                Err(e) => {
                    return Err(e);
                },
            };
            Ok((StackMapFrame::Chop { frame_type: tag, offset_delta }, pos1))
        } else if tag == 251 {
            let (offset_delta, pos1) = match read_u16(data, pos0) {
                Ok(x) => x,
                Err(e) => {
                    return Err(e);
                },
            };
            Ok((StackMapFrame::SameExtended { offset_delta }, pos1))
        } else if (252 <= tag && tag <= 254) {
            let (offset_delta, pos1) = match read_u16(data, pos0) {
                Ok(x) => x,
                Err(e) => {
                    return Err(e);
                },
            };
            let (locals, pos2) = match VerificationTypeInfo::read_seq(data, pos1, (tag - 251) as usize) {
                Ok(x) => x,
                Err(e) => {
                    return Err(e);
                },
            };
            Ok((StackMapFrame::Append { frame_type: tag, offset_delta, locals }, pos2))
        } else if tag == 255 {
            let (offset_delta, pos1) = match read_u16(data, pos0) {
                Ok(x) => x,
                Err(e) => {
                    return Err(e);
                },
            };
            let (n_locals, pos2) = match read_u16(data, pos1) {
                Ok(x) => x,
                Err(e) => {
                    return Err(e);
                },
            };
            let (locals, pos3) = match VerificationTypeInfo::read_seq(data, pos2, n_locals as usize) {
                Ok(x) => x,
                Err(e) => {
                    return Err(e);
                },
            };
            let (n_stack, pos4) = match read_u16(data, pos3) {
                Ok(x) => x,
                Err(e) => {
                    return Err(e);
                },
            };
            let (stack, pos5) = match VerificationTypeInfo::read_seq(data, pos4, n_stack as usize) {
                Ok(x) => x,
                Err(e) => {
                    return Err(e);
                },
            };
            Ok((StackMapFrame::Full { offset_delta, locals, stack }, pos5))
        } else {
            Err(Error::UnknownStackMapFrameType(tag))
        }
    }

    /// Appends the bytes of the value.
    pub fn write(&self, out: &mut Vec<u8>)
        ensures
            final(out)@ == old(out)@ + self@.spec_write(),
    {
        match self {
            StackMapFrame::Same { frame_type } => {
                write_u8(out, *frame_type);
            },
            StackMapFrame::SameLocals1StackItem { frame_type, stack } => {
                write_u8(out, *frame_type);
                stack.write(out);
            },
            StackMapFrame::SameLocals1StackItemExtended { offset_delta, stack } => {
                write_u8(out, 247);
                write_u16(out, *offset_delta);
                stack.write(out);
            },
            StackMapFrame::Chop { frame_type, offset_delta } => {
                write_u8(out, *frame_type);
                write_u16(out, *offset_delta);
            },
            StackMapFrame::SameExtended { offset_delta } => {
                write_u8(out, 251);
                write_u16(out, *offset_delta);
            },
            StackMapFrame::Append { frame_type, offset_delta, locals } => {
                write_u8(out, *frame_type);
                write_u16(out, *offset_delta);
                VerificationTypeInfo::write_seq(locals, out);
            },
            StackMapFrame::Full { offset_delta, locals, stack } => {
                write_u8(out, 255);
                write_u16(out, *offset_delta);
                write_u16(out, (locals.len() % 0x1_0000) as u16);
                VerificationTypeInfo::write_seq(locals, out);
                write_u16(out, (stack.len() % 0x1_0000) as u16);
                VerificationTypeInfo::write_seq(stack, out);
            },
        }
        proof {
            reveal(StackMapFrameView::spec_write);
            assert(out@ =~= old(out)@ + self@.spec_write());
        }
    }

    /// Reading back a written `Same`.
    proof fn lemma_round_trip_same(v: StackMapFrameView, s: Seq<u8>, p: int)
        requires
            v is Same,
            v.wf(),
            occurs_at(s, p, v.spec_write()),
        ensures
            Self::spec_read(s, p) == Ok::<(StackMapFrameView, int), Error>((v, p + v.spec_write().len())),
    {
        reveal(StackMapFrame::spec_read);
        reveal(StackMapFrameView::spec_write);
        reveal(StackMapFrameView::wf);
        if let StackMapFrameView::Same { frame_type } = v {
            let w0 = seq![frame_type];
            lemma_round_trip_u8(frame_type, s, p);
        }
    }

    /// Reading back a written `SameLocals1StackItem`.
    proof fn lemma_round_trip_same_locals1_stack_item(v: StackMapFrameView, s: Seq<u8>, p: int)
        requires
            v is SameLocals1StackItem,
            v.wf(),
            occurs_at(s, p, v.spec_write()),
        ensures
            Self::spec_read(s, p) == Ok::<(StackMapFrameView, int), Error>((v, p + v.spec_write().len())),
    {
        reveal(StackMapFrame::spec_read);
        reveal(StackMapFrameView::spec_write);
        reveal(StackMapFrameView::wf);
        if let StackMapFrameView::SameLocals1StackItem { frame_type, stack } = v {
            let w0 = seq![frame_type];
            let w1 = stack.spec_write();
            let a1 = w0 + w1;
            assert(a1.len() == w0.len() + w1.len());
            lemma_occurs_split(s, p, w0, w1);
            lemma_round_trip_u8(frame_type, s, p);
            VerificationTypeInfo::lemma_round_trip(stack, s, p + w0.len());
        }
    }

    /// Reading back a written `SameLocals1StackItemExtended`.
    proof fn lemma_round_trip_same_locals1_stack_item_extended(v: StackMapFrameView, s: Seq<u8>, p: int)
        requires
            v is SameLocals1StackItemExtended,
            v.wf(),
            occurs_at(s, p, v.spec_write()),
        ensures
            Self::spec_read(s, p) == Ok::<(StackMapFrameView, int), Error>((v, p + v.spec_write().len())),
    {
        reveal(StackMapFrame::spec_read);
        reveal(StackMapFrameView::spec_write);
        reveal(StackMapFrameView::wf);
        if let StackMapFrameView::SameLocals1StackItemExtended { offset_delta, stack } = v {
            let w0 = seq![247u8];
            let w1 = spec_u16_bytes(offset_delta);
            let w2 = stack.spec_write();
            let a1 = w0 + w1;
            assert(a1.len() == w0.len() + w1.len());
            let a2 = a1 + w2;
            assert(a2.len() == a1.len() + w2.len());
            lemma_occurs_split(s, p, a1, w2);
            lemma_occurs_split(s, p, w0, w1);
            lemma_round_trip_u8(247, s, p);
            lemma_round_trip_u16(offset_delta, s, p + w0.len());
            VerificationTypeInfo::lemma_round_trip(stack, s, p + a1.len());
        }
    }

    /// Reading back a written `Chop`.
    proof fn lemma_round_trip_chop(v: StackMapFrameView, s: Seq<u8>, p: int)
        requires
            v is Chop,
            v.wf(),
            occurs_at(s, p, v.spec_write()),
        ensures
            Self::spec_read(s, p) == Ok::<(StackMapFrameView, int), Error>((v, p + v.spec_write().len())),
    {
        reveal(StackMapFrame::spec_read);
        reveal(StackMapFrameView::spec_write);
        reveal(StackMapFrameView::wf);
        if let StackMapFrameView::Chop { frame_type, offset_delta } = v {
            let w0 = seq![frame_type];
            let w1 = spec_u16_bytes(offset_delta);
            let a1 = w0 + w1;
            assert(a1.len() == w0.len() + w1.len());
            lemma_occurs_split(s, p, w0, w1);
            lemma_round_trip_u8(frame_type, s, p);
            lemma_round_trip_u16(offset_delta, s, p + w0.len());
        }
    }

    /// Reading back a written `SameExtended`.
    proof fn lemma_round_trip_same_extended(v: StackMapFrameView, s: Seq<u8>, p: int)
        requires
            v is SameExtended,
            v.wf(),
            occurs_at(s, p, v.spec_write()),
        ensures
            Self::spec_read(s, p) == Ok::<(StackMapFrameView, int), Error>((v, p + v.spec_write().len())),
    {
        reveal(StackMapFrame::spec_read);
        reveal(StackMapFrameView::spec_write);
        reveal(StackMapFrameView::wf);
        if let StackMapFrameView::SameExtended { offset_delta } = v {
            let w0 = seq![251u8];
            let w1 = spec_u16_bytes(offset_delta);
            let a1 = w0 + w1;
            assert(a1.len() == w0.len() + w1.len());
            lemma_occurs_split(s, p, w0, w1);
            lemma_round_trip_u8(251, s, p);
            lemma_round_trip_u16(offset_delta, s, p + w0.len());
        }
    }

    /// Reading back a written `Append`.
    proof fn lemma_round_trip_append(v: StackMapFrameView, s: Seq<u8>, p: int)
        requires
            v is Append,
            v.wf(),
            occurs_at(s, p, v.spec_write()),
        ensures
            Self::spec_read(s, p) == Ok::<(StackMapFrameView, int), Error>((v, p + v.spec_write().len())),
    {
        reveal(StackMapFrame::spec_read);
        reveal(StackMapFrameView::spec_write);
        reveal(StackMapFrameView::wf);
        if let StackMapFrameView::Append { frame_type, offset_delta, locals } = v {
            let w0 = seq![frame_type];
            let w1 = spec_u16_bytes(offset_delta);
            let w2 = VerificationTypeInfo::spec_write_seq(locals);
            let a1 = w0 + w1;
            assert(a1.len() == w0.len() + w1.len());
            let a2 = a1 + w2;
            assert(a2.len() == a1.len() + w2.len());
            lemma_occurs_split(s, p, a1, w2);
            lemma_occurs_split(s, p, w0, w1);
            lemma_round_trip_u8(frame_type, s, p);
            lemma_round_trip_u16(offset_delta, s, p + w0.len());
            VerificationTypeInfo::lemma_round_trip_seq(locals, s, p + a1.len());
        }
    }

    /// Reading back a written `Full`.
    #[verifier::rlimit(100)]
    proof fn lemma_round_trip_full(v: StackMapFrameView, s: Seq<u8>, p: int)
        requires
            v is Full,
            v.wf(),
            occurs_at(s, p, v.spec_write()),
        ensures
            Self::spec_read(s, p) == Ok::<(StackMapFrameView, int), Error>((v, p + v.spec_write().len())),
    {
        reveal(StackMapFrame::spec_read);
        reveal(StackMapFrameView::spec_write);
        reveal(StackMapFrameView::wf);
        if let StackMapFrameView::Full { offset_delta, locals, stack } = v {
            let w0 = seq![255u8];
            let w1 = spec_u16_bytes(offset_delta);
            let w2 = spec_u16_bytes((locals.len() % 0x1_0000) as u16);
            let w3 = VerificationTypeInfo::spec_write_seq(locals);
            let w4 = spec_u16_bytes((stack.len() % 0x1_0000) as u16);
            let w5 = VerificationTypeInfo::spec_write_seq(stack);
            let a1 = w0 + w1;
            assert(a1.len() == w0.len() + w1.len());
            let a2 = a1 + w2;
            assert(a2.len() == a1.len() + w2.len());
            let a3 = a2 + w3;
            assert(a3.len() == a2.len() + w3.len());
            let a4 = a3 + w4;
            assert(a4.len() == a3.len() + w4.len());
            let a5 = a4 + w5;
            assert(a5.len() == a4.len() + w5.len());
            lemma_occurs_split(s, p, a4, w5);
            lemma_occurs_split(s, p, a3, w4);
            lemma_occurs_split(s, p, a2, w3);
            lemma_occurs_split(s, p, a1, w2);
            lemma_occurs_split(s, p, w0, w1);
            lemma_round_trip_u8(255, s, p);
            lemma_round_trip_u16(offset_delta, s, p + w0.len());
            lemma_round_trip_u16((locals.len() % 0x1_0000) as u16, s, p + a1.len());
            VerificationTypeInfo::lemma_round_trip_seq(locals, s, p + a2.len());
            lemma_round_trip_u16((stack.len() % 0x1_0000) as u16, s, p + a3.len());
            VerificationTypeInfo::lemma_round_trip_seq(stack, s, p + a4.len());
        }
    }

    /// Reading back what `spec_write` gives for a value that reading can produce yields it.
    pub proof fn lemma_round_trip(v: StackMapFrameView, s: Seq<u8>, p: int)
        requires
            v.wf(),
            occurs_at(s, p, v.spec_write()),
        ensures
            Self::spec_read(s, p) == Ok::<(StackMapFrameView, int), Error>((v, p + v.spec_write().len())),
    {
        match v {
            StackMapFrameView::Same { .. } => Self::lemma_round_trip_same(v, s, p),
            StackMapFrameView::SameLocals1StackItem { .. } => Self::lemma_round_trip_same_locals1_stack_item(v, s, p),
            StackMapFrameView::SameLocals1StackItemExtended { .. } => Self::lemma_round_trip_same_locals1_stack_item_extended(v, s, p),
            StackMapFrameView::Chop { .. } => Self::lemma_round_trip_chop(v, s, p),
            StackMapFrameView::SameExtended { .. } => Self::lemma_round_trip_same_extended(v, s, p),
            StackMapFrameView::Append { .. } => Self::lemma_round_trip_append(v, s, p),
            StackMapFrameView::Full { .. } => Self::lemma_round_trip_full(v, s, p),
        }
    }

    /// A `Same` that was read is well formed, and has as many bytes as were taken.
    proof fn lemma_read_wf_same(s: Seq<u8>, p: int)
        requires
            spec_read_u8(s, p) matches Ok((tag, _)) && (tag <= 63),
        ensures
            Self::spec_read(s, p) matches Ok((v, q)) ==> v.wf() && q == p + v.spec_write().len()
                && q <= s.len(),
    {
        reveal(StackMapFrame::spec_read);
        reveal(StackMapFrameView::spec_write);
        reveal(StackMapFrameView::wf);
        let tag = spec_read_u8(s, p)->Ok_0.0;
    }

    /// A `SameLocals1StackItem` that was read is well formed, and has as many bytes as were taken.
    proof fn lemma_read_wf_same_locals1_stack_item(s: Seq<u8>, p: int)
        requires
            spec_read_u8(s, p) matches Ok((tag, _)) && ((64 <= tag && tag <= 127)),
        ensures
            Self::spec_read(s, p) matches Ok((v, q)) ==> v.wf() && q == p + v.spec_write().len()
                && q <= s.len(),
    {
        reveal(StackMapFrame::spec_read);
        reveal(StackMapFrameView::spec_write);
        reveal(StackMapFrameView::wf);
        let tag = spec_read_u8(s, p)->Ok_0.0;
        VerificationTypeInfo::lemma_read_wf(s, p + 1);
        if let Ok((stack, at1)) = VerificationTypeInfo::spec_read(s, p + 1) {
        }
    }

    /// A `SameLocals1StackItemExtended` that was read is well formed, and has as many bytes as were taken.
    proof fn lemma_read_wf_same_locals1_stack_item_extended(s: Seq<u8>, p: int)
        requires
            spec_read_u8(s, p) matches Ok((tag, _)) && (tag == 247),
        ensures
            Self::spec_read(s, p) matches Ok((v, q)) ==> v.wf() && q == p + v.spec_write().len()
                && q <= s.len(),
    {
        reveal(StackMapFrame::spec_read);
        reveal(StackMapFrameView::spec_write);
        reveal(StackMapFrameView::wf);
        let tag = spec_read_u8(s, p)->Ok_0.0;
        if let Ok((offset_delta, at1)) = spec_read_u16(s, p + 1) {
            VerificationTypeInfo::lemma_read_wf(s, at1);
            if let Ok((stack, at2)) = VerificationTypeInfo::spec_read(s, at1) {
            }
        }
    }

    /// A `Chop` that was read is well formed, and has as many bytes as were taken.
    proof fn lemma_read_wf_chop(s: Seq<u8>, p: int)
        requires
            spec_read_u8(s, p) matches Ok((tag, _)) && ((248 <= tag && tag <= 250)),
        ensures
            Self::spec_read(s, p) matches Ok((v, q)) ==> v.wf() && q == p + v.spec_write().len()
                && q <= s.len(),
    {
        reveal(StackMapFrame::spec_read);
        reveal(StackMapFrameView::spec_write);
        reveal(StackMapFrameView::wf);
        let tag = spec_read_u8(s, p)->Ok_0.0;
        if let Ok((offset_delta, at1)) = spec_read_u16(s, p + 1) {
        }
    }

    /// A `SameExtended` that was read is well formed, and has as many bytes as were taken.
    proof fn lemma_read_wf_same_extended(s: Seq<u8>, p: int)
        requires
            spec_read_u8(s, p) matches Ok((tag, _)) && (tag == 251),
        ensures
            Self::spec_read(s, p) matches Ok((v, q)) ==> v.wf() && q == p + v.spec_write().len()
                && q <= s.len(),
    {
        reveal(StackMapFrame::spec_read);
        reveal(StackMapFrameView::spec_write);
        reveal(StackMapFrameView::wf);
        let tag = spec_read_u8(s, p)->Ok_0.0;
        if let Ok((offset_delta, at1)) = spec_read_u16(s, p + 1) {
        }
    }

    /// A `Append` that was read is well formed, and has as many bytes as were taken.
    proof fn lemma_read_wf_append(s: Seq<u8>, p: int)
        requires
            spec_read_u8(s, p) matches Ok((tag, _)) && ((252 <= tag && tag <= 254)),
        ensures
            Self::spec_read(s, p) matches Ok((v, q)) ==> v.wf() && q == p + v.spec_write().len()
                && q <= s.len(),
    {
        reveal(StackMapFrame::spec_read);
        reveal(StackMapFrameView::spec_write);
        reveal(StackMapFrameView::wf);
        let tag = spec_read_u8(s, p)->Ok_0.0;
        if let Ok((offset_delta, at1)) = spec_read_u16(s, p + 1) {
            VerificationTypeInfo::lemma_read_seq_wf(s, at1, (tag - 251) as nat);
            if let Ok((locals, at2)) = VerificationTypeInfo::spec_read_seq(s, at1, (tag - 251) as nat) {
            }
        }
    }

    /// A `Full` that was read is well formed, and has as many bytes as were taken.
    proof fn lemma_read_wf_full(s: Seq<u8>, p: int)
        requires
            spec_read_u8(s, p) matches Ok((tag, _)) && (tag == 255),
        ensures
            Self::spec_read(s, p) matches Ok((v, q)) ==> v.wf() && q == p + v.spec_write().len()
                && q <= s.len(),
    {
        reveal(StackMapFrame::spec_read);
        reveal(StackMapFrameView::spec_write);
        reveal(StackMapFrameView::wf);
        let tag = spec_read_u8(s, p)->Ok_0.0;
        if let Ok((offset_delta, at1)) = spec_read_u16(s, p + 1) {
            if let Ok((n_locals, at2)) = spec_read_u16(s, at1) {
                VerificationTypeInfo::lemma_read_seq_wf(s, at2, n_locals as nat);
                if let Ok((locals, at3)) = VerificationTypeInfo::spec_read_seq(s, at2, n_locals as nat) {
                    if let Ok((n_stack, at4)) = spec_read_u16(s, at3) {
                        VerificationTypeInfo::lemma_read_seq_wf(s, at4, n_stack as nat);
                        if let Ok((stack, at5)) = VerificationTypeInfo::spec_read_seq(s, at4, n_stack as nat) {
                        }
                    }
                }
            }
        }
    }

    /// A value that was read is well formed, and has as many bytes as were taken.
    pub proof fn lemma_read_wf(s: Seq<u8>, p: int)
        ensures
            Self::spec_read(s, p) matches Ok((v, q)) ==> v.wf() && q == p + v.spec_write().len()
                && q <= s.len(),
    {
        if let Ok((tag, _)) = spec_read_u8(s, p) {
            if tag <= 63 {
                Self::lemma_read_wf_same(s, p);
            } else if (64 <= tag && tag <= 127) {
                Self::lemma_read_wf_same_locals1_stack_item(s, p);
            } else if tag == 247 {
                Self::lemma_read_wf_same_locals1_stack_item_extended(s, p);
            } else if (248 <= tag && tag <= 250) {
                Self::lemma_read_wf_chop(s, p);
            } else if tag == 251 {
                Self::lemma_read_wf_same_extended(s, p);
            } else if (252 <= tag && tag <= 254) {
                Self::lemma_read_wf_append(s, p);
            } else if tag == 255 {
                Self::lemma_read_wf_full(s, p);
            } else {
                reveal(StackMapFrame::spec_read);
            }
        } else {
            reveal(StackMapFrame::spec_read);
        }
    }
}

impl StackMapFrame {
    /// The offset delta that the frame stands for, whether it is stored in the frame type
    /// or in a field of its own.
    pub open spec fn spec_offset_delta(self) -> int {
        match self {
            StackMapFrame::Same { frame_type } => frame_type as int,
            StackMapFrame::SameLocals1StackItem { frame_type, .. } => if frame_type >= 64 {
                frame_type - 64
            } else {
                frame_type + 0x1_0000 - 64
            },
            StackMapFrame::SameLocals1StackItemExtended { offset_delta, .. } => offset_delta as int,
            StackMapFrame::Chop { offset_delta, .. } => offset_delta as int,
            StackMapFrame::SameExtended { offset_delta } => offset_delta as int,
            StackMapFrame::Append { offset_delta, .. } => offset_delta as int,
            StackMapFrame::Full { offset_delta, .. } => offset_delta as int,
        }
    }

    /// The offset delta of the frame.  Where a `SameLocals1StackItem` frame has a frame type
    /// below 64, as no frame that was read has, the subtraction wraps around.
    pub fn offset_delta(&self) -> (r: u16)
        ensures
            r == self.spec_offset_delta(),
    {
        match self {
            StackMapFrame::Same { frame_type } => *frame_type as u16,
            StackMapFrame::SameLocals1StackItem { frame_type, .. } => if *frame_type >= 64 {
                (*frame_type as u16) - 64
            } else {
                (*frame_type as u16) + (0xFFFF - 63)
            },
            StackMapFrame::SameLocals1StackItemExtended { offset_delta, .. } => *offset_delta,
            StackMapFrame::Chop { offset_delta, .. } => *offset_delta,
            StackMapFrame::SameExtended { offset_delta } => *offset_delta,
            StackMapFrame::Append { offset_delta, .. } => *offset_delta,
            StackMapFrame::Full { offset_delta, .. } => *offset_delta,
        }
    }
}

impl StackMapFrame {
    /// Whether each element is well formed.
    #[verifier::opaque]
    pub open spec fn wf_seq(xs: Seq<StackMapFrameView>) -> bool {
        forall|i: int| 0 <= i < xs.len() ==> (#[trigger] xs[i]).wf()
    }

    /// The elements one after the other, without a count.
    #[verifier::opaque]
    pub open spec fn spec_write_seq(xs: Seq<StackMapFrameView>) -> Seq<u8>
        decreases xs.len(),
    {
        if xs.len() == 0 {
            Seq::empty()
        } else {
            Self::spec_write_seq(xs.drop_last()) + xs.last().spec_write()
        }
    }

    /// The `n` elements that start at `p`, read one after the other.
    #[verifier::opaque]
    pub open spec fn spec_read_seq(s: Seq<u8>, p: int, n: nat) -> Result<(Seq<StackMapFrameView>, int), Error>
        decreases n,
    {
        if n == 0 {
            Ok((Seq::empty(), p))
        } else {
            match Self::spec_read_seq(s, p, (n - 1) as nat) {
                Err(e) => Err(e),
                Ok((xs, q)) => match Self::spec_read(s, q) {
                    Err(e) => Err(e),
                    Ok((x, q2)) => Ok((xs.push(x), q2)),
                },
            }
        }
    }

    /// Once a prefix fails to read, every longer sequence fails the same way.
    pub proof fn lemma_read_seq_err(s: Seq<u8>, p: int, k: nat, n: nat)
        requires
            k <= n,
            Self::spec_read_seq(s, p, k) is Err,
        ensures
            Self::spec_read_seq(s, p, n) == Self::spec_read_seq(s, p, k),
        decreases n,
    {
        reveal(StackMapFrame::spec_read_seq);
        if k < n {
            Self::lemma_read_seq_err(s, p, k, (n - 1) as nat);
        }
    }

    /// Reads `n` elements one after the other, the first of them at `pos`.
    pub fn read_seq(data: &[u8], pos: usize, n: usize) -> (r: Result<(Vec<StackMapFrame>, usize), Error>)
        ensures
            match Self::spec_read_seq(data@, pos as int, n as nat) {
                Ok((v, p)) => r matches Ok((rv, rp)) && views(rv@) == v && rp as int == p,
                Err(e) => r == Err::<(Vec<StackMapFrame>, usize), Error>(e),
            },
            advanced(r, data@, pos),
    {
        let mut out: Vec<StackMapFrame> = Vec::new();
        let mut cur = pos;
        let mut i: usize = 0;
        proof {
            reveal(StackMapFrame::spec_read_seq);
        }
        assert(views(out@) =~= Seq::<StackMapFrameView>::empty());
        while i < n
            invariant
                i <= n,
                pos <= data@.len() ==> pos <= cur <= data@.len(),
                Self::spec_read_seq(data@, pos as int, i as nat) == Ok::<(Seq<StackMapFrameView>, int), Error>((views(out@), cur as int)),
            decreases n - i,
        {
            proof {
                reveal(StackMapFrame::spec_read_seq);
            }
            match Self::read(data, cur) {
                Err(e) => {
                    proof {
                        Self::lemma_read_seq_err(data@, pos as int, (i + 1) as nat, n as nat);
                    }
                    return Err(e);
                },
                Ok((x, next)) => {
                    proof {
                        assert(views(out@.push(x)) =~= views(out@).push(x@));
                    }
                    out.push(x);
                    cur = next;
                },
            }
            i += 1;
        }
        Ok((out, cur))
    }

    /// Appends the bytes of the elements, one after the other.
    pub fn write_seq(xs: &Vec<StackMapFrame>, out: &mut Vec<u8>)
        ensures
            final(out)@ == old(out)@ + Self::spec_write_seq(views(xs@)),
    {
        let mut i: usize = 0;
        proof {
            reveal(StackMapFrame::spec_write_seq);
        }
        while i < xs.len()
            invariant
                i <= xs.len(),
                out@ == old(out)@ + Self::spec_write_seq(views(xs@).take(i as int)),
            decreases xs.len() - i,
        {
            proof {
                reveal(StackMapFrame::spec_write_seq);
                let t = views(xs@).take(i + 1);
                assert(t.drop_last() =~= views(xs@).take(i as int));
            }
            xs[i].write(out);
            proof {
                reveal(StackMapFrame::spec_write_seq);
                assert(out@ =~= old(out)@ + Self::spec_write_seq(views(xs@).take(i + 1)));
            }
            i += 1;
        }
        proof {
            assert(views(xs@).take(xs.len() as int) =~= views(xs@));
        }
    }

    /// Reading back the elements that `spec_write_seq` wrote yields them all.
    pub proof fn lemma_round_trip_seq(xs: Seq<StackMapFrameView>, s: Seq<u8>, p: int)
        requires
            Self::wf_seq(xs),
            occurs_at(s, p, Self::spec_write_seq(xs)),
        ensures
            Self::spec_read_seq(s, p, xs.len()) == Ok::<(Seq<StackMapFrameView>, int), Error>(
                (xs, p + Self::spec_write_seq(xs).len()),
            ),
        decreases xs.len(),
    {
        reveal(StackMapFrame::spec_read_seq);
        reveal(StackMapFrame::spec_write_seq);
        reveal(StackMapFrame::wf_seq);
        if xs.len() > 0 {
            let front = xs.drop_last();
            let w = Self::spec_write_seq(front);
            assert forall|i: int| 0 <= i < front.len() implies (#[trigger] front[i]).wf() by {
                assert(front[i] == xs[i]);
            }
            assert(xs.last() == xs[xs.len() - 1]);
            lemma_occurs_split(s, p, w, xs.last().spec_write());
            Self::lemma_round_trip_seq(front, s, p);
            Self::lemma_round_trip(xs.last(), s, p + w.len());
            assert(front.push(xs.last()) =~= xs);
        } else {
            assert(xs =~= Seq::<StackMapFrameView>::empty());
        }
    }

    /// Elements that were read are as many as were asked for and well formed, and have
    /// as many bytes as were taken.
    pub proof fn lemma_read_seq_wf(s: Seq<u8>, p: int, n: nat)
        ensures
            Self::spec_read_seq(s, p, n) matches Ok((xs, q)) ==> xs.len() == n && Self::wf_seq(xs)
                && q == p + Self::spec_write_seq(xs).len() && (p <= s.len() ==> q <= s.len()),
        decreases n,
    {
        reveal(StackMapFrame::spec_read_seq);
        reveal(StackMapFrame::spec_write_seq);
        reveal(StackMapFrame::wf_seq);
        if n > 0 {
            Self::lemma_read_seq_wf(s, p, (n - 1) as nat);
            if let Ok((front, q)) = Self::spec_read_seq(s, p, (n - 1) as nat) {
                Self::lemma_read_wf(s, q);
                if let Ok((x, q2)) = Self::spec_read(s, q) {
                    let xs = front.push(x);
                    assert(xs.drop_last() =~= front);
                    assert(xs.last() == x);
                    assert forall|i: int| 0 <= i < xs.len() implies (#[trigger] xs[i]).wf() by {
                        if i < front.len() {
                            assert(xs[i] == front[i]);
                        }
                    }
                }
            }
        }
    }
}

} // verus!
