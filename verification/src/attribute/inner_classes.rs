//! Entries of the `InnerClasses` attribute.

use crate::bytes::{advanced, decoded, lemma_occurs_split, occurs_at};
use crate::constant_pool::ConstantPoolIndex;
use crate::error::Error;
use crate::flags::AccessFlags;
use vstd::prelude::*;

verus! {

/// One entry of an inner class table.
#[derive(Debug, Clone, PartialEq, Eq)]
pub struct InnerClass {
    /// The nested class.
    pub inner_class: ConstantPoolIndex,
    /// The class it is a member of, if any.
    pub outer_class: ConstantPoolIndex,
    /// Its simple name, if it has one.
    pub inner_name: ConstantPoolIndex,
    /// Flags as declared in the source.
    pub inner_class_access_flags: AccessFlags,
}

impl View for InnerClass {
    type V = InnerClass;

    open spec fn view(&self) -> InnerClass {
        *self
    }
}

impl InnerClass {
    /// Whether every count fits its length field and every part is itself well formed.
    pub open spec fn wf(self) -> bool {
        &&& self.inner_class.wf()
        &&& self.outer_class.wf()
        &&& self.inner_name.wf()
        &&& self.inner_class_access_flags.wf()
    }

    /// The bytes of the record: its fields in declaration order.
    #[verifier::opaque]
    pub open spec fn spec_write(self) -> Seq<u8> {
        self.inner_class.spec_write() + self.outer_class.spec_write() + self.inner_name.spec_write()
            + self.inner_class_access_flags.spec_write()
    }
}

impl InnerClass {
    /// The record that starts at position `p` of `s`, with the position behind it.
    #[verifier::opaque]
    pub open spec fn spec_read(s: Seq<u8>, p: int) -> Result<(InnerClass, int), Error> {
        match ConstantPoolIndex::spec_read(s, p) {
            Err(e) => Err(e),
            Ok((inner_class, at1)) => {
                match ConstantPoolIndex::spec_read(s, at1) {
                    Err(e) => Err(e),
                    Ok((outer_class, at2)) => {
                        match ConstantPoolIndex::spec_read(s, at2) {
                            Err(e) => Err(e),
                            Ok((inner_name, at3)) => {
                                match AccessFlags::spec_read(s, at3) {
                                    Err(e) => Err(e),
                                    Ok((inner_class_access_flags, at4)) => {
                                        Ok((InnerClass { inner_class, outer_class, inner_name, inner_class_access_flags }, at4))
                                    },
                                }
                            },
                        }
                    },
                }
            },
        }
    }

    /// Reads the record that starts at `pos`.
    pub fn read(data: &[u8], pos: usize) -> (r: Result<(InnerClass, usize), Error>)
        ensures
            decoded(r, Self::spec_read(data@, pos as int)),
            advanced(r, data@, pos),
    {
        proof {
            reveal(InnerClass::spec_read);
        }
        let (inner_class, pos1) = match ConstantPoolIndex::read(data, pos) {
            Ok(x) => x,
            Err(e) => return Err(e),
        };
        let (outer_class, pos2) = match ConstantPoolIndex::read(data, pos1) {
            Ok(x) => x,
            Err(e) => return Err(e),
        };
        let (inner_name, pos3) = match ConstantPoolIndex::read(data, pos2) {
            Ok(x) => x,
            Err(e) => return Err(e),
        };
        let (inner_class_access_flags, pos4) = match AccessFlags::read(data, pos3) {
            Ok(x) => x,
            Err(e) => return Err(e),
        };
        Ok((InnerClass { inner_class, outer_class, inner_name, inner_class_access_flags }, pos4))
    }

    /// Appends the bytes of the record.
    pub fn write(&self, out: &mut Vec<u8>)
        ensures
            final(out)@ == old(out)@ + self@.spec_write(),
    {
        self.inner_class.write(out);
        self.outer_class.write(out);
        self.inner_name.write(out);
        self.inner_class_access_flags.write(out);
        proof {
            reveal(InnerClass::spec_write);
            assert(out@ =~= old(out)@ + self@.spec_write());
        }
    }

    /// Reading back what `spec_write` gives for a well-formed record yields the record.
    pub proof fn lemma_round_trip(v: InnerClass, s: Seq<u8>, p: int)
        requires
            v.wf(),
            occurs_at(s, p, v.spec_write()),
        ensures
            Self::spec_read(s, p) == Ok::<(InnerClass, int), Error>((v, p + v.spec_write().len())),
    {
        reveal(InnerClass::spec_read);
        reveal(InnerClass::spec_write);
        let w0 = v.inner_class.spec_write();
        let w1 = v.outer_class.spec_write();
        let w2 = v.inner_name.spec_write();
        let w3 = v.inner_class_access_flags.spec_write();
        let a1 = w0 + w1;
        assert(a1.len() == w0.len() + w1.len());
        let a2 = a1 + w2;
        assert(a2.len() == a1.len() + w2.len());
        let a3 = a2 + w3;
        assert(a3.len() == a2.len() + w3.len());
        lemma_occurs_split(s, p, a2, w3);
        lemma_occurs_split(s, p, a1, w2);
        lemma_occurs_split(s, p, w0, w1);
        ConstantPoolIndex::lemma_round_trip(v.inner_class, s, p);
        ConstantPoolIndex::lemma_round_trip(v.outer_class, s, p + w0.len());
        ConstantPoolIndex::lemma_round_trip(v.inner_name, s, p + a1.len());
        AccessFlags::lemma_round_trip(v.inner_class_access_flags, s, p + a2.len());
    }

    /// A record that was read is well formed, and has as many bytes as were taken.
    pub proof fn lemma_read_wf(s: Seq<u8>, p: int)
        ensures
            Self::spec_read(s, p) matches Ok((v, q)) ==> v.wf() && q == p + v.spec_write().len()
                && q <= s.len(),
    {
        reveal(InnerClass::spec_read);
        reveal(InnerClass::spec_write);
        ConstantPoolIndex::lemma_read_wf(s, p);
        if let Ok((inner_class, at1)) = ConstantPoolIndex::spec_read(s, p) {
            ConstantPoolIndex::lemma_read_wf(s, at1);
            if let Ok((outer_class, at2)) = ConstantPoolIndex::spec_read(s, at1) {
                ConstantPoolIndex::lemma_read_wf(s, at2);
                if let Ok((inner_name, at3)) = ConstantPoolIndex::spec_read(s, at2) {
                    AccessFlags::lemma_read_wf(s, at3);
                    if let Ok((inner_class_access_flags, at4)) = AccessFlags::spec_read(s, at3) {
                    }
                }
            }
        }
    }
}

impl InnerClass {
    /// Whether each element is well formed.
    #[verifier::opaque]
    pub open spec fn wf_seq(xs: Seq<InnerClass>) -> bool {
        forall|i: int| 0 <= i < xs.len() ==> (#[trigger] xs[i]).wf()
    }

    /// The elements one after the other, without a count.
    #[verifier::opaque]
    pub open spec fn spec_write_seq(xs: Seq<InnerClass>) -> Seq<u8>
        decreases xs.len(),
    {
        if xs.len() == 0 {
            Seq::empty()
        } else {
            Self::spec_write_seq(xs.drop_last()) + xs.last().spec_write()
        }
    }

    /// The `n` elements that start at `p`, read one after the other.
    #[verifier::opaque]
    pub open spec fn spec_read_seq(s: Seq<u8>, p: int, n: nat) -> Result<(Seq<InnerClass>, int), Error>
        decreases n,
    {
        if n == 0 {
            Ok((Seq::empty(), p))
        } else {
            match Self::spec_read_seq(s, p, (n - 1) as nat) {
                Err(e) => Err(e),
                Ok((xs, q)) => match Self::spec_read(s, q) {
                    Err(e) => Err(e),
                    Ok((x, q2)) => Ok((xs.push(x), q2)),
                },
            }
        }
    }

    /// Once a prefix fails to read, every longer sequence fails the same way.
    pub proof fn lemma_read_seq_err(s: Seq<u8>, p: int, k: nat, n: nat)
        requires
            k <= n,
            Self::spec_read_seq(s, p, k) is Err,
        ensures
            Self::spec_read_seq(s, p, n) == Self::spec_read_seq(s, p, k),
        decreases n,
    {
        reveal(InnerClass::spec_read_seq);
        if k < n {
            Self::lemma_read_seq_err(s, p, k, (n - 1) as nat);
        }
    }

    /// Reads `n` elements one after the other, the first of them at `pos`.
    pub fn read_seq(data: &[u8], pos: usize, n: usize) -> (r: Result<(Vec<InnerClass>, usize), Error>)
        ensures
            match Self::spec_read_seq(data@, pos as int, n as nat) {
                Ok((v, p)) => r matches Ok((rv, rp)) && rv@ == v && rp as int == p,
                Err(e) => r == Err::<(Vec<InnerClass>, usize), Error>(e),
            },
            advanced(r, data@, pos),
    {
        let mut out: Vec<InnerClass> = Vec::new();
        let mut cur = pos;
        let mut i: usize = 0;
        proof {
            reveal(InnerClass::spec_read_seq);
        }
        while i < n
            invariant
                i <= n,
                pos <= data@.len() ==> pos <= cur <= data@.len(),
                Self::spec_read_seq(data@, pos as int, i as nat) == Ok::<(Seq<InnerClass>, int), Error>((out@, cur as int)),
            decreases n - i,
        {
            proof {
                reveal(InnerClass::spec_read_seq);
            }
            match Self::read(data, cur) {
                Err(e) => {
                    proof {
                        Self::lemma_read_seq_err(data@, pos as int, (i + 1) as nat, n as nat);
                    }
                    return Err(e);
                },
                Ok((x, next)) => {
                    out.push(x);
                    cur = next;
                },
            }
            i += 1;
        }
        Ok((out, cur))
    }

    /// Appends the bytes of the elements, one after the other.
    pub fn write_seq(xs: &Vec<InnerClass>, out: &mut Vec<u8>)
        ensures
            final(out)@ == old(out)@ + Self::spec_write_seq(xs@),
    {
        let mut i: usize = 0;
        proof {
            reveal(InnerClass::spec_write_seq);
        }
        while i < xs.len()
            invariant
                i <= xs.len(),
                out@ == old(out)@ + Self::spec_write_seq(xs@.take(i as int)),
            decreases xs.len() - i,
        {
            proof {
                reveal(InnerClass::spec_write_seq);
                let t = xs@.take(i + 1);
                assert(t.drop_last() =~= xs@.take(i as int));
            }
            xs[i].write(out);
            proof {
                reveal(InnerClass::spec_write_seq);
                assert(out@ =~= old(out)@ + Self::spec_write_seq(xs@.take(i + 1)));
            }
            i += 1;
        }
        proof {
            assert(xs@.take(xs.len() as int) =~= xs@);
        }
    }

    /// Reading back the elements that `spec_write_seq` wrote yields them all.
    pub proof fn lemma_round_trip_seq(xs: Seq<InnerClass>, s: Seq<u8>, p: int)
        requires
            Self::wf_seq(xs),
            occurs_at(s, p, Self::spec_write_seq(xs)),
        ensures
            Self::spec_read_seq(s, p, xs.len()) == Ok::<(Seq<InnerClass>, int), Error>(
                (xs, p + Self::spec_write_seq(xs).len()),
            ),
        decreases xs.len(),
    {
        reveal(InnerClass::spec_read_seq);
        reveal(InnerClass::spec_write_seq);
        reveal(InnerClass::wf_seq);
        if xs.len() > 0 {
            let front = xs.drop_last();
            let w = Self::spec_write_seq(front);
            assert forall|i: int| 0 <= i < front.len() implies (#[trigger] front[i]).wf() by {
                assert(front[i] == xs[i]);
            }
            assert(xs.last() == xs[xs.len() - 1]);
            lemma_occurs_split(s, p, w, xs.last().spec_write());
            Self::lemma_round_trip_seq(front, s, p);
            Self::lemma_round_trip(xs.last(), s, p + w.len());
            assert(front.push(xs.last()) =~= xs);
        } else {
            assert(xs =~= Seq::<InnerClass>::empty());
        }
    }

    /// Elements that were read are as many as were asked for and well formed, and have
    /// as many bytes as were taken.
    pub proof fn lemma_read_seq_wf(s: Seq<u8>, p: int, n: nat)
        ensures
            Self::spec_read_seq(s, p, n) matches Ok((xs, q)) ==> xs.len() == n && Self::wf_seq(xs)
                && q == p + Self::spec_write_seq(xs).len() && (p <= s.len() ==> q <= s.len()),
        decreases n,
    {
        reveal(InnerClass::spec_read_seq);
        reveal(InnerClass::spec_write_seq);
        reveal(InnerClass::wf_seq);
        if n > 0 {
            Self::lemma_read_seq_wf(s, p, (n - 1) as nat);
            if let Ok((front, q)) = Self::spec_read_seq(s, p, (n - 1) as nat) {
                Self::lemma_read_wf(s, q);
                if let Ok((x, q2)) = Self::spec_read(s, q) {
                    let xs = front.push(x);
                    assert(xs.drop_last() =~= front);
                    assert(xs.last() == x);
                    assert forall|i: int| 0 <= i < xs.len() implies (#[trigger] xs[i]).wf() by {
                        if i < front.len() {
                            assert(xs[i] == front[i]);
                        }
                    }
                }
            }
        }
    }
}

} // verus!
