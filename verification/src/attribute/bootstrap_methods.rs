//! Entries of the `BootstrapMethods` attribute.

use crate::bytes::{
    advanced, decoded, lemma_occurs_split, lemma_round_trip_u16, occurs_at, read_u16, spec_read_u16,
    spec_u16_bytes, views, write_u16,
};
use crate::constant_pool::ConstantPoolIndex;
use crate::error::Error;
use vstd::prelude::*;

verus! {

/// One bootstrap method with its static arguments.
#[derive(Debug, Clone, PartialEq, Eq)]
pub struct BootstrapMethod {
    /// Method handle of the bootstrap method.
    pub method_ref: ConstantPoolIndex,
    /// Its static arguments.
    pub arguments: Vec<ConstantPoolIndex>,
}

/// The mathematical value of a [`BootstrapMethod`].
pub struct BootstrapMethodView {
    pub method_ref: ConstantPoolIndex,
    pub arguments: Seq<ConstantPoolIndex>,
}

impl View for BootstrapMethod {
    type V = BootstrapMethodView;

    open spec fn view(&self) -> BootstrapMethodView {
        BootstrapMethodView {
            method_ref: self.method_ref,
            arguments: self.arguments@,
        }
    }
}

impl BootstrapMethodView {
    /// Whether every count fits its length field and every part is itself well formed.
    pub open spec fn wf(self) -> bool {
        &&& self.method_ref.wf()
        &&& self.arguments.len() <= 0xFFFF
        &&& ConstantPoolIndex::wf_seq(self.arguments)
    }

    /// The bytes of the record: its fields in declaration order.
    #[verifier::opaque]
    pub open spec fn spec_write(self) -> Seq<u8> {
        self.method_ref.spec_write() + spec_u16_bytes((self.arguments.len() % 0x1_0000) as u16)
            + ConstantPoolIndex::spec_write_seq(self.arguments)
    }
}

impl BootstrapMethod {
    /// The record that starts at position `p` of `s`, with the position behind it.
    #[verifier::opaque]
    pub open spec fn spec_read(s: Seq<u8>, p: int) -> Result<(BootstrapMethodView, int), Error> {
        match ConstantPoolIndex::spec_read(s, p) {
            Err(e) => Err(e),
            Ok((method_ref, at1)) => {
                match spec_read_u16(s, at1) {
                    Err(e) => Err(e),
                    Ok((n_arguments, at2)) => {
                        match ConstantPoolIndex::spec_read_seq(s, at2, n_arguments as nat) {
                            Err(e) => Err(e),
                            Ok((arguments, at3)) => {
                                Ok((BootstrapMethodView { method_ref, arguments }, at3))
                            },
                        }
                    },
                }
            },
        }
    }

    /// Reads the record that starts at `pos`.
    pub fn read(data: &[u8], pos: usize) -> (r: Result<(BootstrapMethod, usize), Error>)
        ensures
            decoded(r, Self::spec_read(data@, pos as int)),
            advanced(r, data@, pos),
    {
        proof {
            reveal(BootstrapMethod::spec_read);
        }
        let (method_ref, pos1) = match ConstantPoolIndex::read(data, pos) {
            Ok(x) => x,
            Err(e) => return Err(e),
        };
        let (n_arguments, pos2) = match read_u16(data, pos1) {
            Ok(x) => x,
            Err(e) => return Err(e),
        };
        let (arguments, pos3) = match ConstantPoolIndex::read_seq(data, pos2, n_arguments as usize) {
            Ok(x) => x,
            Err(e) => return Err(e),
        };
        Ok((BootstrapMethod { method_ref, arguments }, pos3))
    }

    /// Appends the bytes of the record.
    pub fn write(&self, out: &mut Vec<u8>)
        ensures
            final(out)@ == old(out)@ + self@.spec_write(),
    {
        self.method_ref.write(out);
        write_u16(out, (self.arguments.len() % 0x1_0000) as u16);
        ConstantPoolIndex::write_seq(&self.arguments, out);
        proof {
            reveal(BootstrapMethodView::spec_write);
            assert(out@ =~= old(out)@ + self@.spec_write());
        }
    }

    /// Reading back what `spec_write` gives for a well-formed record yields the record.
    pub proof fn lemma_round_trip(v: BootstrapMethodView, s: Seq<u8>, p: int)
        requires
            v.wf(),
            occurs_at(s, p, v.spec_write()),
        ensures
            Self::spec_read(s, p) == Ok::<(BootstrapMethodView, int), Error>((v, p + v.spec_write().len())),
    {
        reveal(BootstrapMethod::spec_read);
        reveal(BootstrapMethodView::spec_write);
        let w0 = v.method_ref.spec_write();
        let w1 = spec_u16_bytes((v.arguments.len() % 0x1_0000) as u16);
        let w2 = ConstantPoolIndex::spec_write_seq(v.arguments);
        let a1 = w0 + w1;
        assert(a1.len() == w0.len() + w1.len());
        let a2 = a1 + w2;
        assert(a2.len() == a1.len() + w2.len());
        lemma_occurs_split(s, p, a1, w2);
        lemma_occurs_split(s, p, w0, w1);
        ConstantPoolIndex::lemma_round_trip(v.method_ref, s, p);
        lemma_round_trip_u16((v.arguments.len() % 0x1_0000) as u16, s, p + w0.len());
        ConstantPoolIndex::lemma_round_trip_seq(v.arguments, s, p + a1.len());
    }

    /// A record that was read is well formed, and has as many bytes as were taken.
    pub proof fn lemma_read_wf(s: Seq<u8>, p: int)
        ensures
            Self::spec_read(s, p) matches Ok((v, q)) ==> v.wf() && q == p + v.spec_write().len()
                && q <= s.len(),
    {
        reveal(BootstrapMethod::spec_read);
        reveal(BootstrapMethodView::spec_write);
        ConstantPoolIndex::lemma_read_wf(s, p);
        if let Ok((method_ref, at1)) = ConstantPoolIndex::spec_read(s, p) {
            if let Ok((n_arguments, at2)) = spec_read_u16(s, at1) {
                ConstantPoolIndex::lemma_read_seq_wf(s, at2, n_arguments as nat);
                if let Ok((arguments, at3)) = ConstantPoolIndex::spec_read_seq(s, at2, n_arguments as nat) {
                }
            }
        }
    }
}

impl BootstrapMethod {
    /// Whether each element is well formed.
    #[verifier::opaque]
    pub open spec fn wf_seq(xs: Seq<BootstrapMethodView>) -> bool {
        forall|i: int| 0 <= i < xs.len() ==> (#[trigger] xs[i]).wf()
    }

    /// The elements one after the other, without a count.
    #[verifier::opaque]
    pub open spec fn spec_write_seq(xs: Seq<BootstrapMethodView>) -> Seq<u8>
        decreases xs.len(),
    {
        if xs.len() == 0 {
            Seq::empty()
        } else {
            Self::spec_write_seq(xs.drop_last()) + xs.last().spec_write()
        }
    }

    /// The `n` elements that start at `p`, read one after the other.
    #[verifier::opaque]
    pub open spec fn spec_read_seq(
        s: Seq<u8>,
        p: int,
        n: nat,
    ) -> Result<(Seq<BootstrapMethodView>, int), Error>
        decreases n,
    {
        if n == 0 {
            Ok((Seq::empty(), p))
        } else {
            match Self::spec_read_seq(s, p, (n - 1) as nat) {
                Err(e) => Err(e),
                Ok((xs, q)) => match Self::spec_read(s, q) {
                    Err(e) => Err(e),
                    Ok((x, q2)) => Ok((xs.push(x), q2)),
                },
            }
        }
    }

    /// Once a prefix fails to read, every longer sequence fails the same way.
    pub proof fn lemma_read_seq_err(s: Seq<u8>, p: int, k: nat, n: nat)
        requires
            k <= n,
            Self::spec_read_seq(s, p, k) is Err,
        ensures
            Self::spec_read_seq(s, p, n) == Self::spec_read_seq(s, p, k),
        decreases n,
    {
        reveal(BootstrapMethod::spec_read_seq);
        if k < n {
            Self::lemma_read_seq_err(s, p, k, (n - 1) as nat);
        }
    }

    /// Reads `n` elements one after the other, the first of them at `pos`.
    pub fn read_seq(data: &[u8], pos: usize, n: usize) -> (r: Result<(Vec<BootstrapMethod>, usize), Error>)
        ensures
            match Self::spec_read_seq(data@, pos as int, n as nat) {
                Ok((v, p)) => r matches Ok((rv, rp)) && views(rv@) == v && rp as int == p,
                Err(e) => r == Err::<(Vec<BootstrapMethod>, usize), Error>(e),
            },
            advanced(r, data@, pos),
    {
        let mut out: Vec<BootstrapMethod> = Vec::new();
        let mut cur = pos;
        let mut i: usize = 0;
        proof {
            reveal(BootstrapMethod::spec_read_seq);
        }
        assert(views(out@) =~= Seq::<BootstrapMethodView>::empty());
        while i < n
            invariant
                i <= n,
                pos <= data@.len() ==> pos <= cur <= data@.len(),
                Self::spec_read_seq(data@, pos as int, i as nat) == Ok::<(Seq<BootstrapMethodView>, int), Error>((views(out@), cur as int)),
            decreases n - i,
        {
            proof {
                reveal(BootstrapMethod::spec_read_seq);
            }
            match Self::read(data, cur) {
                Err(e) => {
                    proof {
                        Self::lemma_read_seq_err(data@, pos as int, (i + 1) as nat, n as nat);
                    }
                    return Err(e);
                },
                Ok((x, next)) => {
                    proof {
                        assert(views(out@.push(x)) =~= views(out@).push(x@));
                    }
                    out.push(x);
                    cur = next;
                },
            }
            i += 1;
        }
        Ok((out, cur))
    }

    /// Appends the bytes of the elements, one after the other.
    pub fn write_seq(xs: &Vec<BootstrapMethod>, out: &mut Vec<u8>)
        ensures
            final(out)@ == old(out)@ + Self::spec_write_seq(views(xs@)),
    {
        let mut i: usize = 0;
        proof {
            reveal(BootstrapMethod::spec_write_seq);
        }
        while i < xs.len()
            invariant
                i <= xs.len(),
                out@ == old(out)@ + Self::spec_write_seq(views(xs@).take(i as int)),
            decreases xs.len() - i,
        {
            proof {
                reveal(BootstrapMethod::spec_write_seq);
                let t = views(xs@).take(i + 1);
                assert(t.drop_last() =~= views(xs@).take(i as int));
            }
            xs[i].write(out);
            proof {
                reveal(BootstrapMethod::spec_write_seq);
                assert(out@ =~= old(out)@ + Self::spec_write_seq(views(xs@).take(i + 1)));
            }
            i += 1;
        }
        proof {
            assert(views(xs@).take(xs.len() as int) =~= views(xs@));
        }
    }

    /// Reading back the elements that `spec_write_seq` wrote yields them all.
    pub proof fn lemma_round_trip_seq(xs: Seq<BootstrapMethodView>, s: Seq<u8>, p: int)
        requires
            Self::wf_seq(xs),
            occurs_at(s, p, Self::spec_write_seq(xs)),
        ensures
            Self::spec_read_seq(s, p, xs.len()) == Ok::<(Seq<BootstrapMethodView>, int), Error>(
                (xs, p + Self::spec_write_seq(xs).len()),
            ),
        decreases xs.len(),
    {
        reveal(BootstrapMethod::spec_read_seq);
        reveal(BootstrapMethod::spec_write_seq);
        reveal(BootstrapMethod::wf_seq);
        if xs.len() > 0 {
            let front = xs.drop_last();
            let w = Self::spec_write_seq(front);
            assert forall|i: int| 0 <= i < front.len() implies (#[trigger] front[i]).wf() by {
                assert(front[i] == xs[i]);
            }
            assert(xs.last() == xs[xs.len() - 1]);
            lemma_occurs_split(s, p, w, xs.last().spec_write());
            Self::lemma_round_trip_seq(front, s, p);
            Self::lemma_round_trip(xs.last(), s, p + w.len());
            assert(front.push(xs.last()) =~= xs);
        } else {
            assert(xs =~= Seq::<BootstrapMethodView>::empty());
        }
    }

    /// Elements that were read are as many as were asked for and well formed, and have
    /// as many bytes as were taken.
    pub proof fn lemma_read_seq_wf(s: Seq<u8>, p: int, n: nat)
        ensures
            Self::spec_read_seq(s, p, n) matches Ok((xs, q)) ==> xs.len() == n && Self::wf_seq(xs)
                && q == p + Self::spec_write_seq(xs).len() && (p <= s.len() ==> q <= s.len()),
        decreases n,
    {
        reveal(BootstrapMethod::spec_read_seq);
        reveal(BootstrapMethod::spec_write_seq);
        reveal(BootstrapMethod::wf_seq);
        if n > 0 {
            Self::lemma_read_seq_wf(s, p, (n - 1) as nat);
            if let Ok((front, q)) = Self::spec_read_seq(s, p, (n - 1) as nat) {
                Self::lemma_read_wf(s, q);
                if let Ok((x, q2)) = Self::spec_read(s, q) {
                    let xs = front.push(x);
                    assert(xs.drop_last() =~= front);
                    assert(xs.last() == x);
                    assert forall|i: int| 0 <= i < xs.len() implies (#[trigger] xs[i]).wf() by {
                        if i < front.len() {
                            assert(xs[i] == front[i]);
                        }
                    }
                }
            }
        }
    }
}

} // verus!
