//! Entries of the `MethodParameters` attribute.

use crate::bytes::{advanced, decoded, lemma_occurs_split, occurs_at};
use crate::constant_pool::ConstantPoolIndex;
use crate::error::Error;
use crate::flags::AccessFlags;
use vstd::prelude::*;

verus! {

/// One formal parameter of a method.
#[derive(Debug, Clone, PartialEq, Eq)]
pub struct MethodParameter {
    /// Name of the parameter, if any.
    pub name: ConstantPoolIndex,
    /// Flags of the parameter.
    pub access_flags: AccessFlags,
}

impl View for MethodParameter {
    type V = MethodParameter;

    open spec fn view(&self) -> MethodParameter {
        *self
    }
}

impl MethodParameter {
    /// Whether every count fits its length field and every part is itself well formed.
    pub open spec fn wf(self) -> bool {
        &&& self.name.wf()
        &&& self.access_flags.wf()
    }

    /// The bytes of the record: its fields in declaration order.
    #[verifier::opaque]
    pub open spec fn spec_write(self) -> Seq<u8> {
        self.name.spec_write() + self.access_flags.spec_write()
    }
}

impl MethodParameter {
    /// The record that starts at position `p` of `s`, with the position behind it.
    #[verifier::opaque]
    pub open spec fn spec_read(s: Seq<u8>, p: int) -> Result<(MethodParameter, int), Error> {
        match ConstantPoolIndex::spec_read(s, p) {
            Err(e) => Err(e),
            Ok((name, at1)) => {
                match AccessFlags::spec_read(s, at1) {
                    Err(e) => Err(e),
                    Ok((access_flags, at2)) => {
                        Ok((MethodParameter { name, access_flags }, at2))
                    },
                }
            },
        }
    }

    /// Reads the record that starts at `pos`.
    pub fn read(data: &[u8], pos: usize) -> (r: Result<(MethodParameter, usize), Error>)
        ensures
            decoded(r, Self::spec_read(data@, pos as int)),
            advanced(r, data@, pos),
    {
        proof {
            reveal(MethodParameter::spec_read);
        }
        let (name, pos1) = match ConstantPoolIndex::read(data, pos) {
            Ok(x) => x,
            Err(e) => return Err(e),
        };
        let (access_flags, pos2) = match AccessFlags::read(data, pos1) {
            Ok(x) => x,
            Err(e) => return Err(e),
        };
        Ok((MethodParameter { name, access_flags }, pos2))
    }

    /// Appends the bytes of the record.
    pub fn write(&self, out: &mut Vec<u8>)
        ensures
            final(out)@ == old(out)@ + self@.spec_write(),
    {
        self.name.write(out);
        self.access_flags.write(out);
        proof {
            reveal(MethodParameter::spec_write);
            assert(out@ =~= old(out)@ + self@.spec_write());
        }
    }

    /// Reading back what `spec_write` gives for a well-formed record yields the record.
    pub proof fn lemma_round_trip(v: MethodParameter, s: Seq<u8>, p: int)
        requires
            v.wf(),
            occurs_at(s, p, v.spec_write()),
        ensures
            Self::spec_read(s, p) == Ok::<(MethodParameter, int), Error>((v, p + v.spec_write().len())),
    {
        reveal(MethodParameter::spec_read);
        reveal(MethodParameter::spec_write);
        let w0 = v.name.spec_write();
        let w1 = v.access_flags.spec_write();
        let a1 = w0 + w1;
        assert(a1.len() == w0.len() + w1.len());
        lemma_occurs_split(s, p, w0, w1);
        ConstantPoolIndex::lemma_round_trip(v.name, s, p);
        AccessFlags::lemma_round_trip(v.access_flags, s, p + w0.len());
    }

    /// A record that was read is well formed, and has as many bytes as were taken.
    pub proof fn lemma_read_wf(s: Seq<u8>, p: int)
        ensures
            Self::spec_read(s, p) matches Ok((v, q)) ==> v.wf() && q == p + v.spec_write().len()
                && q <= s.len(),
    {
        reveal(MethodParameter::spec_read);
        reveal(MethodParameter::spec_write);
        ConstantPoolIndex::lemma_read_wf(s, p);
        if let Ok((name, at1)) = ConstantPoolIndex::spec_read(s, p) {
            AccessFlags::lemma_read_wf(s, at1);
            if let Ok((access_flags, at2)) = AccessFlags::spec_read(s, at1) {
            }
        }
    }
}

impl MethodParameter {
    /// Whether each element is well formed.
    #[verifier::opaque]
    pub open spec fn wf_seq(xs: Seq<MethodParameter>) -> bool {
        forall|i: int| 0 <= i < xs.len() ==> (#[trigger] xs[i]).wf()
    }

    /// The elements one after the other, without a count.
    #[verifier::opaque]
    pub open spec fn spec_write_seq(xs: Seq<MethodParameter>) -> Seq<u8>
        decreases xs.len(),
    {
        if xs.len() == 0 {
            Seq::empty()
        } else {
            Self::spec_write_seq(xs.drop_last()) + xs.last().spec_write()
        }
    }

    /// The `n` elements that start at `p`, read one after the other.
    #[verifier::opaque]
    pub open spec fn spec_read_seq(s: Seq<u8>, p: int, n: nat) -> Result<(Seq<MethodParameter>, int), Error>
        decreases n,
    {
        if n == 0 {
            Ok((Seq::empty(), p))
        } else {
            match Self::spec_read_seq(s, p, (n - 1) as nat) {
                Err(e) => Err(e),
                Ok((xs, q)) => match Self::spec_read(s, q) {
                    Err(e) => Err(e),
                    Ok((x, q2)) => Ok((xs.push(x), q2)),
                },
            }
        }
    }

    /// Once a prefix fails to read, every longer sequence fails the same way.
    pub proof fn lemma_read_seq_err(s: Seq<u8>, p: int, k: nat, n: nat)
        requires
            k <= n,
            Self::spec_read_seq(s, p, k) is Err,
        ensures
            Self::spec_read_seq(s, p, n) == Self::spec_read_seq(s, p, k),
        decreases n,
    {
        reveal(MethodParameter::spec_read_seq);
        if k < n {
            Self::lemma_read_seq_err(s, p, k, (n - 1) as nat);
        }
    }

    /// Reads `n` elements one after the other, the first of them at `pos`.
    pub fn read_seq(data: &[u8], pos: usize, n: usize) -> (r: Result<(Vec<MethodParameter>, usize), Error>)
        ensures
            match Self::spec_read_seq(data@, pos as int, n as nat) {
                Ok((v, p)) => r matches Ok((rv, rp)) && rv@ == v && rp as int == p,
                Err(e) => r == Err::<(Vec<MethodParameter>, usize), Error>(e),
            },
            advanced(r, data@, pos),
    {
        let mut out: Vec<MethodParameter> = Vec::new();
        let mut cur = pos;
        let mut i: usize = 0;
        proof {
            reveal(MethodParameter::spec_read_seq);
        }
        while i < n
            invariant
                i <= n,
                pos <= data@.len() ==> pos <= cur <= data@.len(),
                Self::spec_read_seq(data@, pos as int, i as nat) == Ok::<(Seq<MethodParameter>, int), Error>((out@, cur as int)),
            decreases n - i,
        {
            proof {
                reveal(MethodParameter::spec_read_seq);
            }
            match Self::read(data, cur) {
                Err(e) => {
                    proof {
                        Self::lemma_read_seq_err(data@, pos as int, (i + 1) as nat, n as nat);
                    }
                    return Err(e);
                },
                Ok((x, next)) => {
                    out.push(x);
                    cur = next;
                },
            }
            i += 1;
        }
        Ok((out, cur))
    }

    /// Appends the bytes of the elements, one after the other.
    pub fn write_seq(xs: &Vec<MethodParameter>, out: &mut Vec<u8>)
        ensures
            final(out)@ == old(out)@ + Self::spec_write_seq(xs@),
    {
        let mut i: usize = 0;
        proof {
            reveal(MethodParameter::spec_write_seq);
        }
        while i < xs.len()
            invariant
                i <= xs.len(),
                out@ == old(out)@ + Self::spec_write_seq(xs@.take(i as int)),
            decreases xs.len() - i,
        {
            proof {
                reveal(MethodParameter::spec_write_seq);
                let t = xs@.take(i + 1);
                assert(t.drop_last() =~= xs@.take(i as int));
            }
            xs[i].write(out);
            proof {
                reveal(MethodParameter::spec_write_seq);
                assert(out@ =~= old(out)@ + Self::spec_write_seq(xs@.take(i + 1)));
            }
            i += 1;
        }
        proof {
            assert(xs@.take(xs.len() as int) =~= xs@);
        }
    }

    /// Reading back the elements that `spec_write_seq` wrote yields them all.
    pub proof fn lemma_round_trip_seq(xs: Seq<MethodParameter>, s: Seq<u8>, p: int)
        requires
            Self::wf_seq(xs),
            occurs_at(s, p, Self::spec_write_seq(xs)),
        ensures
            Self::spec_read_seq(s, p, xs.len()) == Ok::<(Seq<MethodParameter>, int), Error>(
                (xs, p + Self::spec_write_seq(xs).len()),
            ),
        decreases xs.len(),
    {
        reveal(MethodParameter::spec_read_seq);
        reveal(MethodParameter::spec_write_seq);
        reveal(MethodParameter::wf_seq);
        if xs.len() > 0 {
            let front = xs.drop_last();
            let w = Self::spec_write_seq(front);
            assert forall|i: int| 0 <= i < front.len() implies (#[trigger] front[i]).wf() by {
                assert(front[i] == xs[i]);
            }
            assert(xs.last() == xs[xs.len() - 1]);
            lemma_occurs_split(s, p, w, xs.last().spec_write());
            Self::lemma_round_trip_seq(front, s, p);
            Self::lemma_round_trip(xs.last(), s, p + w.len());
            assert(front.push(xs.last()) =~= xs);
        } else {
            assert(xs =~= Seq::<MethodParameter>::empty());
        }
    }

    /// Elements that were read are as many as were asked for and well formed, and have
    /// as many bytes as were taken.
    pub proof fn lemma_read_seq_wf(s: Seq<u8>, p: int, n: nat)
        ensures
            Self::spec_read_seq(s, p, n) matches Ok((xs, q)) ==> xs.len() == n && Self::wf_seq(xs)
                && q == p + Self::spec_write_seq(xs).len() && (p <= s.len() ==> q <= s.len()),
        decreases n,
    {
        reveal(MethodParameter::spec_read_seq);
        reveal(MethodParameter::spec_write_seq);
        reveal(MethodParameter::wf_seq);
        if n > 0 {
            Self::lemma_read_seq_wf(s, p, (n - 1) as nat);
            if let Ok((front, q)) = Self::spec_read_seq(s, p, (n - 1) as nat) {
                Self::lemma_read_wf(s, q);
                if let Ok((x, q2)) = Self::spec_read(s, q) {
                    let xs = front.push(x);
                    assert(xs.drop_last() =~= front);
                    assert(xs.last() == x);
                    assert forall|i: int| 0 <= i < xs.len() implies (#[trigger] xs[i]).wf() by {
                        if i < front.len() {
                            assert(xs[i] == front[i]);
                        }
                    }
                }
            }
        }
    }
}

} // verus!
