//! Annotations on uses of types.

use crate::attribute::annotation::{ElementValuePair, ElementValuePairView};
use crate::bytes::{
    advanced, decoded, lemma_occurs_split, lemma_round_trip_u16, lemma_round_trip_u8, occurs_at, read_u16,
    read_u8, spec_read_u16, spec_read_u8, spec_u16_bytes, views, write_bytes, write_u16, write_u8,
};
use crate::constant_pool::ConstantPoolIndex;
use crate::error::Error;
use vstd::prelude::*;

verus! {

/// A range in which an annotated local variable has a value.
#[derive(Debug, Copy, Clone, PartialEq, Eq)]
pub struct LocalvarTable {
    /// First code offset at which the variable has a value.
    pub start_pc: u16,
    /// Length of the range in which it has a value.
    pub length: u16,
    /// Slot of the variable in the frame.
    pub index: u16,
}

impl View for LocalvarTable {
    type V = LocalvarTable;

    open spec fn view(&self) -> LocalvarTable {
        *self
    }
}

impl LocalvarTable {
    /// Whether every count fits its length field and every part is itself well formed.
    pub open spec fn wf(self) -> bool {
        true
    }

    /// The bytes of the record: its fields in declaration order.
    #[verifier::opaque]
    pub open spec fn spec_write(self) -> Seq<u8> {
        spec_u16_bytes(self.start_pc) + spec_u16_bytes(self.length) + spec_u16_bytes(self.index)
    }
}

impl LocalvarTable {
    /// The record that starts at position `p` of `s`, with the position behind it.
    #[verifier::opaque]
    pub open spec fn spec_read(s: Seq<u8>, p: int) -> Result<(LocalvarTable, int), Error> {
        match spec_read_u16(s, p) {
            Err(e) => Err(e),
            Ok((start_pc, at1)) => {
                match spec_read_u16(s, at1) {
                    Err(e) => Err(e),
                    Ok((length, at2)) => {
                        match spec_read_u16(s, at2) {
                            Err(e) => Err(e),
                            Ok((index, at3)) => {
                                Ok((LocalvarTable { start_pc, length, index }, at3))
                            },
                        }
                    },
                }
            },
        }
    }

    /// Reads the record that starts at `pos`.
    pub fn read(data: &[u8], pos: usize) -> (r: Result<(LocalvarTable, usize), Error>)
        ensures
            decoded(r, Self::spec_read(data@, pos as int)),
            advanced(r, data@, pos),
    {
        proof {
            reveal(LocalvarTable::spec_read);
        }
        let (start_pc, pos1) = match read_u16(data, pos) {
            Ok(x) => x,
            Err(e) => return Err(e),
        };
        let (length, pos2) = match read_u16(data, pos1) {
            Ok(x) => x,
            Err(e) => return Err(e),
        };
        let (index, pos3) = match read_u16(data, pos2) {
            Ok(x) => x,
            Err(e) => return Err(e),
        };
        Ok((LocalvarTable { start_pc, length, index }, pos3))
    }

    /// Appends the bytes of the record.
    pub fn write(&self, out: &mut Vec<u8>)
        ensures
            final(out)@ == old(out)@ + self@.spec_write(),
    {
        write_u16(out, self.start_pc);
        write_u16(out, self.length);
        write_u16(out, self.index);
        proof {
            reveal(LocalvarTable::spec_write);
            assert(out@ =~= old(out)@ + self@.spec_write());
        }
    }

    /// Reading back what `spec_write` gives for a well-formed record yields the record.
    pub proof fn lemma_round_trip(v: LocalvarTable, s: Seq<u8>, p: int)
        requires
            v.wf(),
            occurs_at(s, p, v.spec_write()),
        ensures
            Self::spec_read(s, p) == Ok::<(LocalvarTable, int), Error>((v, p + v.spec_write().len())),
    {
        reveal(LocalvarTable::spec_read);
        reveal(LocalvarTable::spec_write);
        let w0 = spec_u16_bytes(v.start_pc);
        let w1 = spec_u16_bytes(v.length);
        let w2 = spec_u16_bytes(v.index);
        let a1 = w0 + w1;
        assert(a1.len() == w0.len() + w1.len());
        let a2 = a1 + w2;
        assert(a2.len() == a1.len() + w2.len());
        lemma_occurs_split(s, p, a1, w2);
        lemma_occurs_split(s, p, w0, w1);
        lemma_round_trip_u16(v.start_pc, s, p);
        lemma_round_trip_u16(v.length, s, p + w0.len());
        lemma_round_trip_u16(v.index, s, p + a1.len());
    }

    /// A record that was read is well formed, and has as many bytes as were taken.
    pub proof fn lemma_read_wf(s: Seq<u8>, p: int)
        ensures
            Self::spec_read(s, p) matches Ok((v, q)) ==> v.wf() && q == p + v.spec_write().len()
                && q <= s.len(),
    {
        reveal(LocalvarTable::spec_read);
        reveal(LocalvarTable::spec_write);
        if let Ok((start_pc, at1)) = spec_read_u16(s, p) {
            if let Ok((length, at2)) = spec_read_u16(s, at1) {
                if let Ok((index, at3)) = spec_read_u16(s, at2) {
                }
            }
        }
    }
}

impl LocalvarTable {
    /// Whether each element is well formed.
    #[verifier::opaque]
    pub open spec fn wf_seq(xs: Seq<LocalvarTable>) -> bool {
        forall|i: int| 0 <= i < xs.len() ==> (#[trigger] xs[i]).wf()
    }

    /// The elements one after the other, without a count.
    #[verifier::opaque]
    pub open spec fn spec_write_seq(xs: Seq<LocalvarTable>) -> Seq<u8>
        decreases xs.len(),
    {
        if xs.len() == 0 {
            Seq::empty()
        } else {
            Self::spec_write_seq(xs.drop_last()) + xs.last().spec_write()
        }
    }

    /// The `n` elements that start at `p`, read one after the other.
    #[verifier::opaque]
    pub open spec fn spec_read_seq(s: Seq<u8>, p: int, n: nat) -> Result<(Seq<LocalvarTable>, int), Error>
        decreases n,
    {
        if n == 0 {
            Ok((Seq::empty(), p))
        } else {
            match Self::spec_read_seq(s, p, (n - 1) as nat) {
                Err(e) => Err(e),
                Ok((xs, q)) => match Self::spec_read(s, q) {
                    Err(e) => Err(e),
                    Ok((x, q2)) => Ok((xs.push(x), q2)),
                },
            }
        }
    }

    /// Once a prefix fails to read, every longer sequence fails the same way.
    pub proof fn lemma_read_seq_err(s: Seq<u8>, p: int, k: nat, n: nat)
        requires
            k <= n,
            Self::spec_read_seq(s, p, k) is Err,
        ensures
            Self::spec_read_seq(s, p, n) == Self::spec_read_seq(s, p, k),
        decreases n,
    {
        reveal(LocalvarTable::spec_read_seq);
        if k < n {
            Self::lemma_read_seq_err(s, p, k, (n - 1) as nat);
        }
    }

    /// Reads `n` elements one after the other, the first of them at `pos`.
    pub fn read_seq(data: &[u8], pos: usize, n: usize) -> (r: Result<(Vec<LocalvarTable>, usize), Error>)
        ensures
            match Self::spec_read_seq(data@, pos as int, n as nat) {
                Ok((v, p)) => r matches Ok((rv, rp)) && rv@ == v && rp as int == p,
                Err(e) => r == Err::<(Vec<LocalvarTable>, usize), Error>(e),
            },
            advanced(r, data@, pos),
    {
        let mut out: Vec<LocalvarTable> = Vec::new();
        let mut cur = pos;
        let mut i: usize = 0;
        proof {
            reveal(LocalvarTable::spec_read_seq);
        }
        while i < n
            invariant
                i <= n,
                pos <= data@.len() ==> pos <= cur <= data@.len(),
                Self::spec_read_seq(data@, pos as int, i as nat) == Ok::<(Seq<LocalvarTable>, int), Error>((out@, cur as int)),
            decreases n - i,
        {
            proof {
                reveal(LocalvarTable::spec_read_seq);
            }
            match Self::read(data, cur) {
                Err(e) => {
                    proof {
                        Self::lemma_read_seq_err(data@, pos as int, (i + 1) as nat, n as nat);
                    }
                    return Err(e);
                },
                Ok((x, next)) => {
                    out.push(x);
                    cur = next;
                },
            }
            i += 1;
        }
        Ok((out, cur))
    }

    /// Appends the bytes of the elements, one after the other.
    pub fn write_seq(xs: &Vec<LocalvarTable>, out: &mut Vec<u8>)
        ensures
            final(out)@ == old(out)@ + Self::spec_write_seq(xs@),
    {
        let mut i: usize = 0;
        proof {
            reveal(LocalvarTable::spec_write_seq);
        }
        while i < xs.len()
            invariant
                i <= xs.len(),
                out@ == old(out)@ + Self::spec_write_seq(xs@.take(i as int)),
            decreases xs.len() - i,
        {
            proof {
                reveal(LocalvarTable::spec_write_seq);
                let t = xs@.take(i + 1);
                assert(t.drop_last() =~= xs@.take(i as int));
            }
            xs[i].write(out);
            proof {
                reveal(LocalvarTable::spec_write_seq);
                assert(out@ =~= old(out)@ + Self::spec_write_seq(xs@.take(i + 1)));
            }
            i += 1;
        }
        proof {
            assert(xs@.take(xs.len() as int) =~= xs@);
        }
    }

    /// Reading back the elements that `spec_write_seq` wrote yields them all.
    pub proof fn lemma_round_trip_seq(xs: Seq<LocalvarTable>, s: Seq<u8>, p: int)
        requires
            Self::wf_seq(xs),
            occurs_at(s, p, Self::spec_write_seq(xs)),
        ensures
            Self::spec_read_seq(s, p, xs.len()) == Ok::<(Seq<LocalvarTable>, int), Error>(
                (xs, p + Self::spec_write_seq(xs).len()),
            ),
        decreases xs.len(),
    {
        reveal(LocalvarTable::spec_read_seq);
        reveal(LocalvarTable::spec_write_seq);
        reveal(LocalvarTable::wf_seq);
        if xs.len() > 0 {
            let front = xs.drop_last();
            let w = Self::spec_write_seq(front);
            assert forall|i: int| 0 <= i < front.len() implies (#[trigger] front[i]).wf() by {
                assert(front[i] == xs[i]);
            }
            assert(xs.last() == xs[xs.len() - 1]);
            lemma_occurs_split(s, p, w, xs.last().spec_write());
            Self::lemma_round_trip_seq(front, s, p);
            Self::lemma_round_trip(xs.last(), s, p + w.len());
            assert(front.push(xs.last()) =~= xs);
        } else {
            assert(xs =~= Seq::<LocalvarTable>::empty());
        }
    }

    /// Elements that were read are as many as were asked for and well formed, and have
    /// as many bytes as were taken.
    pub proof fn lemma_read_seq_wf(s: Seq<u8>, p: int, n: nat)
        ensures
            Self::spec_read_seq(s, p, n) matches Ok((xs, q)) ==> xs.len() == n && Self::wf_seq(xs)
                && q == p + Self::spec_write_seq(xs).len() && (p <= s.len() ==> q <= s.len()),
        decreases n,
    {
        reveal(LocalvarTable::spec_read_seq);
        reveal(LocalvarTable::spec_write_seq);
        reveal(LocalvarTable::wf_seq);
        if n > 0 {
            Self::lemma_read_seq_wf(s, p, (n - 1) as nat);
            if let Ok((front, q)) = Self::spec_read_seq(s, p, (n - 1) as nat) {
                Self::lemma_read_wf(s, q);
                if let Ok((x, q2)) = Self::spec_read(s, q) {
                    let xs = front.push(x);
                    assert(xs.drop_last() =~= front);
                    assert(xs.last() == x);
                    assert forall|i: int| 0 <= i < xs.len() implies (#[trigger] xs[i]).wf() by {
                        if i < front.len() {
                            assert(xs[i] == front[i]);
                        }
                    }
                }
            }
        }
    }
}

/// One step of the path from a type to the annotated part of it.
#[derive(Debug, Copy, Clone, PartialEq, Eq)]
pub struct Path {
    /// How to step into the type: array, nested type, wildcard bound or type argument.
    pub type_path_kind: u8,
    /// Which type argument, where the step is into one.
    pub type_argument_index: u8,
}

impl View for Path {
    type V = Path;

    open spec fn view(&self) -> Path {
        *self
    }
}

impl Path {
    /// Whether every count fits its length field and every part is itself well formed.
    pub open spec fn wf(self) -> bool {
        true
    }

    /// The bytes of the record: its fields in declaration order.
    #[verifier::opaque]
    pub open spec fn spec_write(self) -> Seq<u8> {
        seq![self.type_path_kind] + seq![self.type_argument_index]
    }
}

impl Path {
    /// The record that starts at position `p` of `s`, with the position behind it.
    #[verifier::opaque]
    pub open spec fn spec_read(s: Seq<u8>, p: int) -> Result<(Path, int), Error> {
        match spec_read_u8(s, p) {
            Err(e) => Err(e),
            Ok((type_path_kind, at1)) => {
                match spec_read_u8(s, at1) {
                    Err(e) => Err(e),
                    Ok((type_argument_index, at2)) => {
                        Ok((Path { type_path_kind, type_argument_index }, at2))
                    },
                }
            },
        }
    }

    /// Reads the record that starts at `pos`.
    pub fn read(data: &[u8], pos: usize) -> (r: Result<(Path, usize), Error>)
        ensures
            decoded(r, Self::spec_read(data@, pos as int)),
            advanced(r, data@, pos),
    {
        proof {
            reveal(Path::spec_read);
        }
        let (type_path_kind, pos1) = match read_u8(data, pos) {
            Ok(x) => x,
            Err(e) => return Err(e),
        };
        let (type_argument_index, pos2) = match read_u8(data, pos1) {
            Ok(x) => x,
            Err(e) => return Err(e),
        };
        Ok((Path { type_path_kind, type_argument_index }, pos2))
    }

    /// Appends the bytes of the record.
    pub fn write(&self, out: &mut Vec<u8>)
        ensures
            final(out)@ == old(out)@ + self@.spec_write(),
    {
        write_u8(out, self.type_path_kind);
        write_u8(out, self.type_argument_index);
        proof {
            reveal(Path::spec_write);
            assert(out@ =~= old(out)@ + self@.spec_write());
        }
    }

    /// Reading back what `spec_write` gives for a well-formed record yields the record.
    pub proof fn lemma_round_trip(v: Path, s: Seq<u8>, p: int)
        requires
            v.wf(),
            occurs_at(s, p, v.spec_write()),
        ensures
            Self::spec_read(s, p) == Ok::<(Path, int), Error>((v, p + v.spec_write().len())),
    {
        reveal(Path::spec_read);
        reveal(Path::spec_write);
        let w0 = seq![v.type_path_kind];
        let w1 = seq![v.type_argument_index];
        let a1 = w0 + w1;
        assert(a1.len() == w0.len() + w1.len());
        lemma_occurs_split(s, p, w0, w1);
        lemma_round_trip_u8(v.type_path_kind, s, p);
        lemma_round_trip_u8(v.type_argument_index, s, p + w0.len());
    }

    /// A record that was read is well formed, and has as many bytes as were taken.
    pub proof fn lemma_read_wf(s: Seq<u8>, p: int)
        ensures
            Self::spec_read(s, p) matches Ok((v, q)) ==> v.wf() && q == p + v.spec_write().len()
                && q <= s.len(),
    {
        reveal(Path::spec_read);
        reveal(Path::spec_write);
        if let Ok((type_path_kind, at1)) = spec_read_u8(s, p) {
            if let Ok((type_argument_index, at2)) = spec_read_u8(s, at1) {
            }
        }
    }
}

impl Path {
    /// Whether each element is well formed.
    #[verifier::opaque]
    pub open spec fn wf_seq(xs: Seq<Path>) -> bool {
        forall|i: int| 0 <= i < xs.len() ==> (#[trigger] xs[i]).wf()
    }

    /// The elements one after the other, without a count.
    #[verifier::opaque]
    pub open spec fn spec_write_seq(xs: Seq<Path>) -> Seq<u8>
        decreases xs.len(),
    {
        if xs.len() == 0 {
            Seq::empty()
        } else {
            Self::spec_write_seq(xs.drop_last()) + xs.last().spec_write()
        }
    }

    /// The `n` elements that start at `p`, read one after the other.
    #[verifier::opaque]
    pub open spec fn spec_read_seq(s: Seq<u8>, p: int, n: nat) -> Result<(Seq<Path>, int), Error>
        decreases n,
    {
        if n == 0 {
            Ok((Seq::empty(), p))
        } else {
            match Self::spec_read_seq(s, p, (n - 1) as nat) {
                Err(e) => Err(e),
                Ok((xs, q)) => match Self::spec_read(s, q) {
                    Err(e) => Err(e),
                    Ok((x, q2)) => Ok((xs.push(x), q2)),
                },
            }
        }
    }

    /// Once a prefix fails to read, every longer sequence fails the same way.
    pub proof fn lemma_read_seq_err(s: Seq<u8>, p: int, k: nat, n: nat)
        requires
            k <= n,
            Self::spec_read_seq(s, p, k) is Err,
        ensures
            Self::spec_read_seq(s, p, n) == Self::spec_read_seq(s, p, k),
        decreases n,
    {
        reveal(Path::spec_read_seq);
        if k < n {
            Self::lemma_read_seq_err(s, p, k, (n - 1) as nat);
        }
    }

    /// Reads `n` elements one after the other, the first of them at `pos`.
    pub fn read_seq(data: &[u8], pos: usize, n: usize) -> (r: Result<(Vec<Path>, usize), Error>)
        ensures
            match Self::spec_read_seq(data@, pos as int, n as nat) {
                Ok((v, p)) => r matches Ok((rv, rp)) && rv@ == v && rp as int == p,
                Err(e) => r == Err::<(Vec<Path>, usize), Error>(e),
            },
            advanced(r, data@, pos),
    {
        let mut out: Vec<Path> = Vec::new();
        let mut cur = pos;
        let mut i: usize = 0;
        proof {
            reveal(Path::spec_read_seq);
        }
        while i < n
            invariant
                i <= n,
                pos <= data@.len() ==> pos <= cur <= data@.len(),
                Self::spec_read_seq(data@, pos as int, i as nat) == Ok::<(Seq<Path>, int), Error>((out@, cur as int)),
            decreases n - i,
        {
            proof {
                reveal(Path::spec_read_seq);
            }
            match Self::read(data, cur) {
                Err(e) => {
                    proof {
                        Self::lemma_read_seq_err(data@, pos as int, (i + 1) as nat, n as nat);
                    }
                    return Err(e);
                },
                Ok((x, next)) => {
                    out.push(x);
                    cur = next;
                },
            }
            i += 1;
        }
        Ok((out, cur))
    }

    /// Appends the bytes of the elements, one after the other.
    pub fn write_seq(xs: &Vec<Path>, out: &mut Vec<u8>)
        ensures
            final(out)@ == old(out)@ + Self::spec_write_seq(xs@),
    {
        let mut i: usize = 0;
        proof {
            reveal(Path::spec_write_seq);
        }
        while i < xs.len()
            invariant
                i <= xs.len(),
                out@ == old(out)@ + Self::spec_write_seq(xs@.take(i as int)),
            decreases xs.len() - i,
        {
            proof {
                reveal(Path::spec_write_seq);
                let t = xs@.take(i + 1);
                assert(t.drop_last() =~= xs@.take(i as int));
            }
            xs[i].write(out);
            proof {
                reveal(Path::spec_write_seq);
                assert(out@ =~= old(out)@ + Self::spec_write_seq(xs@.take(i + 1)));
            }
            i += 1;
        }
        proof {
            assert(xs@.take(xs.len() as int) =~= xs@);
        }
    }

    /// Reading back the elements that `spec_write_seq` wrote yields them all.
    pub proof fn lemma_round_trip_seq(xs: Seq<Path>, s: Seq<u8>, p: int)
        requires
            Self::wf_seq(xs),
            occurs_at(s, p, Self::spec_write_seq(xs)),
        ensures
            Self::spec_read_seq(s, p, xs.len()) == Ok::<(Seq<Path>, int), Error>(
                (xs, p + Self::spec_write_seq(xs).len()),
            ),
        decreases xs.len(),
    {
        reveal(Path::spec_read_seq);
        reveal(Path::spec_write_seq);
        reveal(Path::wf_seq);
        if xs.len() > 0 {
            let front = xs.drop_last();
            let w = Self::spec_write_seq(front);
            assert forall|i: int| 0 <= i < front.len() implies (#[trigger] front[i]).wf() by {
                assert(front[i] == xs[i]);
            }
            assert(xs.last() == xs[xs.len() - 1]);
            lemma_occurs_split(s, p, w, xs.last().spec_write());
            Self::lemma_round_trip_seq(front, s, p);
            Self::lemma_round_trip(xs.last(), s, p + w.len());
            assert(front.push(xs.last()) =~= xs);
        } else {
            assert(xs =~= Seq::<Path>::empty());
        }
    }

    /// Elements that were read are as many as were asked for and well formed, and have
    /// as many bytes as were taken.
    pub proof fn lemma_read_seq_wf(s: Seq<u8>, p: int, n: nat)
        ensures
            Self::spec_read_seq(s, p, n) matches Ok((xs, q)) ==> xs.len() == n && Self::wf_seq(xs)
                && q == p + Self::spec_write_seq(xs).len() && (p <= s.len() ==> q <= s.len()),
        decreases n,
    {
        reveal(Path::spec_read_seq);
        reveal(Path::spec_write_seq);
        reveal(Path::wf_seq);
        if n > 0 {
            Self::lemma_read_seq_wf(s, p, (n - 1) as nat);
            if let Ok((front, q)) = Self::spec_read_seq(s, p, (n - 1) as nat) {
                Self::lemma_read_wf(s, q);
                if let Ok((x, q2)) = Self::spec_read(s, q) {
                    let xs = front.push(x);
                    assert(xs.drop_last() =~= front);
                    assert(xs.last() == x);
                    assert forall|i: int| 0 <= i < xs.len() implies (#[trigger] xs[i]).wf() by {
                        if i < front.len() {
                            assert(xs[i] == front[i]);
                        }
                    }
                }
            }
        }
    }
}

/// The path from a type to the part of it that an annotation is on.
#[derive(Debug, Clone, PartialEq, Eq)]
pub struct TypePath {
    /// The steps, outermost first.
    pub path: Vec<Path>,
}

/// The mathematical value of a [`TypePath`].
pub struct TypePathView {
    pub path: Seq<Path>,
}

impl View for TypePath {
    type V = TypePathView;

    open spec fn view(&self) -> TypePathView {
        TypePathView {
            path: self.path@,
        }
    }
}

impl TypePathView {
    /// Whether every count fits its length field and every part is itself well formed.
    pub open spec fn wf(self) -> bool {
        &&& self.path.len() <= 0xFF
        &&& Path::wf_seq(self.path)
    }

    /// The bytes of the record: its fields in declaration order.
    #[verifier::opaque]
    pub open spec fn spec_write(self) -> Seq<u8> {
        seq![(self.path.len() % 0x100) as u8] + Path::spec_write_seq(self.path)
    }
}

impl TypePath {
    /// The record that starts at position `p` of `s`, with the position behind it.
    #[verifier::opaque]
    pub open spec fn spec_read(s: Seq<u8>, p: int) -> Result<(TypePathView, int), Error> {
        match spec_read_u8(s, p) {
            Err(e) => Err(e),
            Ok((n_path, at1)) => {
                match Path::spec_read_seq(s, at1, n_path as nat) {
                    Err(e) => Err(e),
                    Ok((path, at2)) => {
                        Ok((TypePathView { path }, at2))
                    },
                }
            },
        }
    }

    /// Reads the record that starts at `pos`.
    pub fn read(data: &[u8], pos: usize) -> (r: Result<(TypePath, usize), Error>)
        ensures
            decoded(r, Self::spec_read(data@, pos as int)),
            advanced(r, data@, pos),
    {
        proof {
            reveal(TypePath::spec_read);
        }
        let (n_path, pos1) = match read_u8(data, pos) {
            Ok(x) => x,
            Err(e) => return Err(e),
        };
        let (path, pos2) = match Path::read_seq(data, pos1, n_path as usize) {
            Ok(x) => x,
            Err(e) => return Err(e),
        };
        Ok((TypePath { path }, pos2))
    }

    /// Appends the bytes of the record.
    pub fn write(&self, out: &mut Vec<u8>)
        ensures
            final(out)@ == old(out)@ + self@.spec_write(),
    {
        write_u8(out, (self.path.len() % 0x100) as u8);
        Path::write_seq(&self.path, out);
        proof {
            reveal(TypePathView::spec_write);
            assert(out@ =~= old(out)@ + self@.spec_write());
        }
    }

    /// Reading back what `spec_write` gives for a well-formed record yields the record.
    pub proof fn lemma_round_trip(v: TypePathView, s: Seq<u8>, p: int)
        requires
            v.wf(),
            occurs_at(s, p, v.spec_write()),
        ensures
            Self::spec_read(s, p) == Ok::<(TypePathView, int), Error>((v, p + v.spec_write().len())),
    {
        reveal(TypePath::spec_read);
        reveal(TypePathView::spec_write);
        let w0 = seq![(v.path.len() % 0x100) as u8];
        let w1 = Path::spec_write_seq(v.path);
        let a1 = w0 + w1;
        assert(a1.len() == w0.len() + w1.len());
        lemma_occurs_split(s, p, w0, w1);
        lemma_round_trip_u8((v.path.len() % 0x100) as u8, s, p);
        Path::lemma_round_trip_seq(v.path, s, p + w0.len());
    }

    /// A record that was read is well formed, and has as many bytes as were taken.
    pub proof fn lemma_read_wf(s: Seq<u8>, p: int)
        ensures
            Self::spec_read(s, p) matches Ok((v, q)) ==> v.wf() && q == p + v.spec_write().len()
                && q <= s.len(),
    {
        reveal(TypePath::spec_read);
        reveal(TypePathView::spec_write);
        if let Ok((n_path, at1)) = spec_read_u8(s, p) {
            Path::lemma_read_seq_wf(s, at1, n_path as nat);
            if let Ok((path, at2)) = Path::spec_read_seq(s, at1, n_path as nat) {
            }
        }
    }
}

/// What a type annotation is on.
#[derive(Debug, Clone, PartialEq, Eq)]
pub enum Target {
    TypeParameter { target_type: u8 },
    Supertype { supertype: u16 },
    TypeParameterBound { target_type: u8, bound: u8 },
    Empty { target_type: u8 },
    FormalParameter { formal_parameter: u8 },
    Throws { throws_type: u16 },
    Localvar { target_type: u8, table: Vec<LocalvarTable> },
    Catch { exception_table: u16 },
    Offset { target_type: u8, offset: u16 },
    TypeArgument { target_type: u8, type_argument: u8 },
    /// A target type and payload that are written as they are; never produced by reading.
    Raw { target_type: u8, data: Vec<u8> },
}

/// The mathematical value of a [`Target`].
pub enum TargetView {
    TypeParameter { target_type: u8 },
    Supertype { supertype: u16 },
    TypeParameterBound { target_type: u8, bound: u8 },
    Empty { target_type: u8 },
    FormalParameter { formal_parameter: u8 },
    Throws { throws_type: u16 },
    Localvar { target_type: u8, table: Seq<LocalvarTable> },
    Catch { exception_table: u16 },
    Offset { target_type: u8, offset: u16 },
    TypeArgument { target_type: u8, type_argument: u8 },
    Raw { target_type: u8, data: Seq<u8> },
}

impl View for Target {
    type V = TargetView;

    open spec fn view(&self) -> TargetView {
        match *self {
            Target::TypeParameter { target_type } => TargetView::TypeParameter { target_type },
            Target::Supertype { supertype } => TargetView::Supertype { supertype },
            Target::TypeParameterBound { target_type, bound } => TargetView::TypeParameterBound { target_type, bound },
            Target::Empty { target_type } => TargetView::Empty { target_type },
            Target::FormalParameter { formal_parameter } => TargetView::FormalParameter { formal_parameter },
            Target::Throws { throws_type } => TargetView::Throws { throws_type },
            Target::Localvar { target_type, table } => TargetView::Localvar { target_type, table: table@ },
            Target::Catch { exception_table } => TargetView::Catch { exception_table },
            Target::Offset { target_type, offset } => TargetView::Offset { target_type, offset },
            Target::TypeArgument { target_type, type_argument } => TargetView::TypeArgument { target_type, type_argument },
            Target::Raw { target_type, data } => TargetView::Raw { target_type, data: data@ },
        }
    }
}

impl TargetView {
    /// Whether reading can produce the value: the tag is one of its variant, and every
    /// count fits its length field.
    #[verifier::opaque]
    pub open spec fn wf(self) -> bool {
        match self {
            TargetView::TypeParameter { target_type } => target_type <= 1,
            TargetView::Supertype { .. } => true,
            TargetView::TypeParameterBound { target_type, bound } => (17 <= target_type && target_type <= 18),
            TargetView::Empty { target_type } => (19 <= target_type && target_type <= 21),
            TargetView::FormalParameter { .. } => true,
            TargetView::Throws { .. } => true,
            TargetView::Localvar { target_type, table } => (64 <= target_type && target_type <= 65)
                && table.len() <= 0xFFFF && LocalvarTable::wf_seq(table),
            TargetView::Catch { .. } => true,
            TargetView::Offset { target_type, offset } => (67 <= target_type && target_type <= 70),
            TargetView::TypeArgument { target_type, type_argument } => (71 <= target_type && target_type <= 75),
            TargetView::Raw { .. } => false,
        }
    }

    /// The bytes of the value: the tag, then the fields of the variant.
    #[verifier::opaque]
    pub open spec fn spec_write(self) -> Seq<u8> {
        match self {
            TargetView::TypeParameter { target_type } => seq![target_type],
            TargetView::Supertype { supertype } => seq![0x10u8] + spec_u16_bytes(supertype),
            TargetView::TypeParameterBound { target_type, bound } => seq![target_type] + seq![bound],
            TargetView::Empty { target_type } => seq![target_type],
            TargetView::FormalParameter { formal_parameter } => seq![0x16u8] + seq![formal_parameter],
            TargetView::Throws { throws_type } => seq![0x17u8] + spec_u16_bytes(throws_type),
            TargetView::Localvar { target_type, table } => seq![target_type]
                + spec_u16_bytes((table.len() % 0x1_0000) as u16) + LocalvarTable::spec_write_seq(table),
            TargetView::Catch { exception_table } => seq![0x42u8] + spec_u16_bytes(exception_table),
            TargetView::Offset { target_type, offset } => seq![target_type] + spec_u16_bytes(offset),
            TargetView::TypeArgument { target_type, type_argument } => seq![target_type]
                + seq![type_argument],
            TargetView::Raw { target_type, data } => seq![target_type] + data,
        }
    }
}

impl Target {
    /// The value whose tag stands at `p`, with the position behind it.
    #[verifier::opaque]
    pub open spec fn spec_read(s: Seq<u8>, p: int) -> Result<(TargetView, int), Error> {
        match spec_read_u8(s, p) {
            Err(e) => Err(e),
            Ok((tag, at0)) => if tag <= 1 {
                Ok((TargetView::TypeParameter { target_type: tag }, at0))
            } else if tag == 0x10 {
                match spec_read_u16(s, at0) {
                    Err(e) => Err(e),
                    Ok((supertype, at1)) => {
                        Ok((TargetView::Supertype { supertype }, at1))
                    },
                }
            } else if (17 <= tag && tag <= 18) {
                match spec_read_u8(s, at0) {
                    Err(e) => Err(e),
                    Ok((bound, at1)) => {
                        Ok((TargetView::TypeParameterBound { target_type: tag, bound }, at1))
                    },
                }
            } else if (19 <= tag && tag <= 21) {
                Ok((TargetView::Empty { target_type: tag }, at0))
            } else if tag == 0x16 {
                match spec_read_u8(s, at0) {
                    Err(e) => Err(e),
                    Ok((formal_parameter, at1)) => {
                        Ok((TargetView::FormalParameter { formal_parameter }, at1))
                    },
                }
            } else if tag == 0x17 {
                match spec_read_u16(s, at0) {
                    Err(e) => Err(e),
                    Ok((throws_type, at1)) => {
                        Ok((TargetView::Throws { throws_type }, at1))
                    },
                }
            } else if (64 <= tag && tag <= 65) {
                match spec_read_u16(s, at0) {
                    Err(e) => Err(e),
                    Ok((n_table, at1)) => {
                        match LocalvarTable::spec_read_seq(s, at1, n_table as nat) {
                            Err(e) => Err(e),
                            Ok((table, at2)) => {
                                Ok((TargetView::Localvar { target_type: tag, table }, at2))
                            },
                        }
                    },
                }
            } else if tag == 0x42 {
                match spec_read_u16(s, at0) {
                    Err(e) => Err(e),
                    Ok((exception_table, at1)) => {
                        Ok((TargetView::Catch { exception_table }, at1))
                    },
                }
            } else if (67 <= tag && tag <= 70) {
                match spec_read_u16(s, at0) {
                    Err(e) => Err(e),
                    Ok((offset, at1)) => {
                        Ok((TargetView::Offset { target_type: tag, offset }, at1))
                    },
                }
            } else if (71 <= tag && tag <= 75) {
                match spec_read_u8(s, at0) {
                    Err(e) => Err(e),
                    Ok((type_argument, at1)) => {
                        Ok((TargetView::TypeArgument { target_type: tag, type_argument }, at1))
                    },
                }
            } else {
                Err(Error::UnknownTargetType(tag))
            },
        }
    }

    /// Reads the value whose tag stands at `pos`.
    pub fn read(data: &[u8], pos: usize) -> (r: Result<(Target, usize), Error>)
        ensures
            decoded(r, Self::spec_read(data@, pos as int)),
            advanced(r, data@, pos),
    {
        proof {
            reveal(Target::spec_read);
        }
        let (tag, pos0) = match read_u8(data, pos) {
            Ok(x) => x,
            Err(e) => {
                return Err(e);
            },
        };
        if tag <= 1 {
            Ok((Target::TypeParameter { target_type: tag }, pos0))
        } else if tag == 0x10 {
            let (supertype, pos1) = match read_u16(data, pos0) {
                Ok(x) => x,
                Err(e) => {
                    return Err(e);
                },
            };
            Ok((Target::Supertype { supertype }, pos1))
        } else if (17 <= tag && tag <= 18) {
            let (bound, pos1) = match read_u8(data, pos0) {
                Ok(x) => x,
                Err(e) => {
                    return Err(e);
                },
            };
            Ok((Target::TypeParameterBound { target_type: tag, bound }, pos1))
        } else if (19 <= tag && tag <= 21) {
            Ok((Target::Empty { target_type: tag }, pos0))
        } else if tag == 0x16 {
            let (formal_parameter, pos1) = match read_u8(data, pos0) {
                Ok(x) => x,
                Err(e) => {
                    return Err(e);
                },
            };
            Ok((Target::FormalParameter { formal_parameter }, pos1))
        } else if tag == 0x17 {
            let (throws_type, pos1) = match read_u16(data, pos0) {
                Ok(x) => x,
                Err(e) => {
                    return Err(e);
                },
            };
            Ok((Target::Throws { throws_type }, pos1))
        } else if (64 <= tag && tag <= 65) {
            let (n_table, pos1) = match read_u16(data, pos0) {
                Ok(x) => x,
                Err(e) => {
                    return Err(e);
                },
            };
            let (table, pos2) = match LocalvarTable::read_seq(data, pos1, n_table as usize) {
                Ok(x) => x,
                Err(e) => {
                    return Err(e);
                },
            };
            Ok((Target::Localvar { target_type: tag, table }, pos2))
        } else if tag == 0x42 {
            let (exception_table, pos1) = match read_u16(data, pos0) {
                Ok(x) => x,
                Err(e) => {
                    return Err(e);
                },
            };
            Ok((Target::Catch { exception_table }, pos1))
        } else if (67 <= tag && tag <= 70) {
            let (offset, pos1) = match read_u16(data, pos0) {
                Ok(x) => x,
                Err(e) => {
                    return Err(e);
                },
            };
            Ok((Target::Offset { target_type: tag, offset }, pos1))
        } else if (71 <= tag && tag <= 75) {
            let (type_argument, pos1) = match read_u8(data, pos0) {
                Ok(x) => x,
                Err(e) => {
                    return Err(e);
                },
            };
            Ok((Target::TypeArgument { target_type: tag, type_argument }, pos1))
        } else {
            Err(Error::UnknownTargetType(tag))
        }
    }

    /// Appends the bytes of the value.
    pub fn write(&self, out: &mut Vec<u8>)
        ensures
            final(out)@ == old(out)@ + self@.spec_write(),
    {
        match self {
            Target::TypeParameter { target_type } => {
                write_u8(out, *target_type);
            },
            Target::Supertype { supertype } => {
                write_u8(out, 0x10);
                write_u16(out, *supertype);
            },
            Target::TypeParameterBound { target_type, bound } => {
                write_u8(out, *target_type);
                write_u8(out, *bound);
            },
            Target::Empty { target_type } => {
                write_u8(out, *target_type);
            },
            Target::FormalParameter { formal_parameter } => {
                write_u8(out, 0x16);
                write_u8(out, *formal_parameter);
            },
            Target::Throws { throws_type } => {
                write_u8(out, 0x17);
                write_u16(out, *throws_type);
            },
            Target::Localvar { target_type, table } => {
                write_u8(out, *target_type);
                write_u16(out, (table.len() % 0x1_0000) as u16);
                LocalvarTable::write_seq(table, out);
            },
            Target::Catch { exception_table } => {
                write_u8(out, 0x42);
                write_u16(out, *exception_table);
            },
            Target::Offset { target_type, offset } => {
                write_u8(out, *target_type);
                write_u16(out, *offset);
            },
            Target::TypeArgument { target_type, type_argument } => {
                write_u8(out, *target_type);
                write_u8(out, *type_argument);
            },
            Target::Raw { target_type, data } => {
                write_u8(out, *target_type);
                write_bytes(out, data.as_slice());
            },
        }
        proof {
            reveal(TargetView::spec_write);
            assert(out@ =~= old(out)@ + self@.spec_write());
        }
    }

    /// Reading back a written `TypeParameter`.
    proof fn lemma_round_trip_type_parameter(v: TargetView, s: Seq<u8>, p: int)
        requires
            v is TypeParameter,
            v.wf(),
            occurs_at(s, p, v.spec_write()),
        ensures
            Self::spec_read(s, p) == Ok::<(TargetView, int), Error>((v, p + v.spec_write().len())),
    {
        reveal(Target::spec_read);
        reveal(TargetView::spec_write);
        reveal(TargetView::wf);
        if let TargetView::TypeParameter { target_type } = v {
            let w0 = seq![target_type];
            lemma_round_trip_u8(target_type, s, p);
        }
    }

    /// Reading back a written `Supertype`.
    proof fn lemma_round_trip_supertype(v: TargetView, s: Seq<u8>, p: int)
        requires
            v is Supertype,
            v.wf(),
            occurs_at(s, p, v.spec_write()),
        ensures
            Self::spec_read(s, p) == Ok::<(TargetView, int), Error>((v, p + v.spec_write().len())),
    {
        reveal(Target::spec_read);
        reveal(TargetView::spec_write);
        reveal(TargetView::wf);
        if let TargetView::Supertype { supertype } = v {
            let w0 = seq![0x10u8];
            let w1 = spec_u16_bytes(supertype);
            let a1 = w0 + w1;
            assert(a1.len() == w0.len() + w1.len());
            lemma_occurs_split(s, p, w0, w1);
            lemma_round_trip_u8(0x10, s, p);
            lemma_round_trip_u16(supertype, s, p + w0.len());
        }
    }

    /// Reading back a written `TypeParameterBound`.
    proof fn lemma_round_trip_type_parameter_bound(v: TargetView, s: Seq<u8>, p: int)
        requires
            v is TypeParameterBound,
            v.wf(),
            occurs_at(s, p, v.spec_write()),
        ensures
            Self::spec_read(s, p) == Ok::<(TargetView, int), Error>((v, p + v.spec_write().len())),
    {
        reveal(Target::spec_read);
        reveal(TargetView::spec_write);
        reveal(TargetView::wf);
        if let TargetView::TypeParameterBound { target_type, bound } = v {
            let w0 = seq![target_type];
            let w1 = seq![bound];
            let a1 = w0 + w1;
            assert(a1.len() == w0.len() + w1.len());
            lemma_occurs_split(s, p, w0, w1);
            lemma_round_trip_u8(target_type, s, p);
            lemma_round_trip_u8(bound, s, p + w0.len());
        }
    }

    /// Reading back a written `Empty`.
    proof fn lemma_round_trip_empty(v: TargetView, s: Seq<u8>, p: int)
        requires
            v is Empty,
            v.wf(),
            occurs_at(s, p, v.spec_write()),
        ensures
            Self::spec_read(s, p) == Ok::<(TargetView, int), Error>((v, p + v.spec_write().len())),
    {
        reveal(Target::spec_read);
        reveal(TargetView::spec_write);
        reveal(TargetView::wf);
        if let TargetView::Empty { target_type } = v {
            let w0 = seq![target_type];
            lemma_round_trip_u8(target_type, s, p);
        }
    }

    /// Reading back a written `FormalParameter`.
    proof fn lemma_round_trip_formal_parameter(v: TargetView, s: Seq<u8>, p: int)
        requires
            v is FormalParameter,
            v.wf(),
            occurs_at(s, p, v.spec_write()),
        ensures
            Self::spec_read(s, p) == Ok::<(TargetView, int), Error>((v, p + v.spec_write().len())),
    {
        reveal(Target::spec_read);
        reveal(TargetView::spec_write);
        reveal(TargetView::wf);
        if let TargetView::FormalParameter { formal_parameter } = v {
            let w0 = seq![0x16u8];
            let w1 = seq![formal_parameter];
            let a1 = w0 + w1;
            assert(a1.len() == w0.len() + w1.len());
            lemma_occurs_split(s, p, w0, w1);
            lemma_round_trip_u8(0x16, s, p);
            lemma_round_trip_u8(formal_parameter, s, p + w0.len());
        }
    }

    /// Reading back a written `Throws`.
    proof fn lemma_round_trip_throws(v: TargetView, s: Seq<u8>, p: int)
        requires
            v is Throws,
            v.wf(),
            occurs_at(s, p, v.spec_write()),
        ensures
            Self::spec_read(s, p) == Ok::<(TargetView, int), Error>((v, p + v.spec_write().len())),
    {
        reveal(Target::spec_read);
        reveal(TargetView::spec_write);
        reveal(TargetView::wf);
        if let TargetView::Throws { throws_type } = v {
            let w0 = seq![0x17u8];
            let w1 = spec_u16_bytes(throws_type);
            let a1 = w0 + w1;
            assert(a1.len() == w0.len() + w1.len());
            lemma_occurs_split(s, p, w0, w1);
            lemma_round_trip_u8(0x17, s, p);
            lemma_round_trip_u16(throws_type, s, p + w0.len());
        }
    }

    /// Reading back a written `Localvar`.
    proof fn lemma_round_trip_localvar(v: TargetView, s: Seq<u8>, p: int)
        requires
            v is Localvar,
            v.wf(),
            occurs_at(s, p, v.spec_write()),
        ensures
            Self::spec_read(s, p) == Ok::<(TargetView, int), Error>((v, p + v.spec_write().len())),
    {
        reveal(Target::spec_read);
        reveal(TargetView::spec_write);
        reveal(TargetView::wf);
        if let TargetView::Localvar { target_type, table } = v {
            let w0 = seq![target_type];
            let w1 = spec_u16_bytes((table.len() % 0x1_0000) as u16);
            let w2 = LocalvarTable::spec_write_seq(table);
            let a1 = w0 + w1;
            assert(a1.len() == w0.len() + w1.len());
            let a2 = a1 + w2;
            assert(a2.len() == a1.len() + w2.len());
            lemma_occurs_split(s, p, a1, w2);
            lemma_occurs_split(s, p, w0, w1);
            lemma_round_trip_u8(target_type, s, p);
            lemma_round_trip_u16((table.len() % 0x1_0000) as u16, s, p + w0.len());
            LocalvarTable::lemma_round_trip_seq(table, s, p + a1.len());
        }
    }

    /// Reading back a written `Catch`.
    proof fn lemma_round_trip_catch(v: TargetView, s: Seq<u8>, p: int)
        requires
            v is Catch,
            v.wf(),
            occurs_at(s, p, v.spec_write()),
        ensures
            Self::spec_read(s, p) == Ok::<(TargetView, int), Error>((v, p + v.spec_write().len())),
    {
        reveal(Target::spec_read);
        reveal(TargetView::spec_write);
        reveal(TargetView::wf);
        if let TargetView::Catch { exception_table } = v {
            let w0 = seq![0x42u8];
            let w1 = spec_u16_bytes(exception_table);
            let a1 = w0 + w1;
            assert(a1.len() == w0.len() + w1.len());
            lemma_occurs_split(s, p, w0, w1);
            lemma_round_trip_u8(0x42, s, p);
            lemma_round_trip_u16(exception_table, s, p + w0.len());
        }
    }

    /// Reading back a written `Offset`.
    proof fn lemma_round_trip_offset(v: TargetView, s: Seq<u8>, p: int)
        requires
            v is Offset,
            v.wf(),
            occurs_at(s, p, v.spec_write()),
        ensures
            Self::spec_read(s, p) == Ok::<(TargetView, int), Error>((v, p + v.spec_write().len())),
    {
        reveal(Target::spec_read);
        reveal(TargetView::spec_write);
        reveal(TargetView::wf);
        if let TargetView::Offset { target_type, offset } = v {
            let w0 = seq![target_type];
            let w1 = spec_u16_bytes(offset);
            let a1 = w0 + w1;
            assert(a1.len() == w0.len() + w1.len());
            lemma_occurs_split(s, p, w0, w1);
            lemma_round_trip_u8(target_type, s, p);
            lemma_round_trip_u16(offset, s, p + w0.len());
        }
    }

    /// Reading back a written `TypeArgument`.
    proof fn lemma_round_trip_type_argument(v: TargetView, s: Seq<u8>, p: int)
        requires
            v is TypeArgument,
            v.wf(),
            occurs_at(s, p, v.spec_write()),
        ensures
            Self::spec_read(s, p) == Ok::<(TargetView, int), Error>((v, p + v.spec_write().len())),
    {
        reveal(Target::spec_read);
        reveal(TargetView::spec_write);
        reveal(TargetView::wf);
        if let TargetView::TypeArgument { target_type, type_argument } = v {
            let w0 = seq![target_type];
            let w1 = seq![type_argument];
            let a1 = w0 + w1;
            assert(a1.len() == w0.len() + w1.len());
            lemma_occurs_split(s, p, w0, w1);
            lemma_round_trip_u8(target_type, s, p);
            lemma_round_trip_u8(type_argument, s, p + w0.len());
        }
    }

    /// Reading back what `spec_write` gives for a value that reading can produce yields it.
    pub proof fn lemma_round_trip(v: TargetView, s: Seq<u8>, p: int)
        requires
            v.wf(),
            occurs_at(s, p, v.spec_write()),
        ensures
            Self::spec_read(s, p) == Ok::<(TargetView, int), Error>((v, p + v.spec_write().len())),
    {
        reveal(TargetView::wf);
        match v {
            TargetView::TypeParameter { .. } => Self::lemma_round_trip_type_parameter(v, s, p),
            TargetView::Supertype { .. } => Self::lemma_round_trip_supertype(v, s, p),
            TargetView::TypeParameterBound { .. } => Self::lemma_round_trip_type_parameter_bound(v, s, p),
            TargetView::Empty { .. } => Self::lemma_round_trip_empty(v, s, p),
            TargetView::FormalParameter { .. } => Self::lemma_round_trip_formal_parameter(v, s, p),
            TargetView::Throws { .. } => Self::lemma_round_trip_throws(v, s, p),
            TargetView::Localvar { .. } => Self::lemma_round_trip_localvar(v, s, p),
            TargetView::Catch { .. } => Self::lemma_round_trip_catch(v, s, p),
            TargetView::Offset { .. } => Self::lemma_round_trip_offset(v, s, p),
            TargetView::TypeArgument { .. } => Self::lemma_round_trip_type_argument(v, s, p),
            TargetView::Raw { .. } => {},
        }
    }

    /// A `TypeParameter` that was read is well formed, and has as many bytes as were taken.
    proof fn lemma_read_wf_type_parameter(s: Seq<u8>, p: int)
        requires
            spec_read_u8(s, p) matches Ok((tag, _)) && (tag <= 1),
        ensures
            Self::spec_read(s, p) matches Ok((v, q)) ==> v.wf() && q == p + v.spec_write().len()
                && q <= s.len(),
    {
        reveal(Target::spec_read);
        reveal(TargetView::spec_write);
        reveal(TargetView::wf);
        let tag = spec_read_u8(s, p)->Ok_0.0;
    }

    /// A `Supertype` that was read is well formed, and has as many bytes as were taken.
    proof fn lemma_read_wf_supertype(s: Seq<u8>, p: int)
        requires
            spec_read_u8(s, p) matches Ok((tag, _)) && (tag == 0x10),
        ensures
            Self::spec_read(s, p) matches Ok((v, q)) ==> v.wf() && q == p + v.spec_write().len()
                && q <= s.len(),
    {
        reveal(Target::spec_read);
        reveal(TargetView::spec_write);
        reveal(TargetView::wf);
        let tag = spec_read_u8(s, p)->Ok_0.0;
        if let Ok((supertype, at1)) = spec_read_u16(s, p + 1) {
        }
    }

    /// A `TypeParameterBound` that was read is well formed, and has as many bytes as were taken.
    proof fn lemma_read_wf_type_parameter_bound(s: Seq<u8>, p: int)
        requires
            spec_read_u8(s, p) matches Ok((tag, _)) && ((17 <= tag && tag <= 18)),
        ensures
            Self::spec_read(s, p) matches Ok((v, q)) ==> v.wf() && q == p + v.spec_write().len()
                && q <= s.len(),
    {
        reveal(Target::spec_read);
        reveal(TargetView::spec_write);
        reveal(TargetView::wf);
        let tag = spec_read_u8(s, p)->Ok_0.0;
        if let Ok((bound, at1)) = spec_read_u8(s, p + 1) {
        }
    }

    /// A `Empty` that was read is well formed, and has as many bytes as were taken.
    proof fn lemma_read_wf_empty(s: Seq<u8>, p: int)
        requires
            spec_read_u8(s, p) matches Ok((tag, _)) && ((19 <= tag && tag <= 21)),
        ensures
            Self::spec_read(s, p) matches Ok((v, q)) ==> v.wf() && q == p + v.spec_write().len()
                && q <= s.len(),
    {
        reveal(Target::spec_read);
        reveal(TargetView::spec_write);
        reveal(TargetView::wf);
        let tag = spec_read_u8(s, p)->Ok_0.0;
    }

    /// A `FormalParameter` that was read is well formed, and has as many bytes as were taken.
    proof fn lemma_read_wf_formal_parameter(s: Seq<u8>, p: int)
        requires
            spec_read_u8(s, p) matches Ok((tag, _)) && (tag == 0x16),
        ensures
            Self::spec_read(s, p) matches Ok((v, q)) ==> v.wf() && q == p + v.spec_write().len()
                && q <= s.len(),
    {
        reveal(Target::spec_read);
        reveal(TargetView::spec_write);
        reveal(TargetView::wf);
        let tag = spec_read_u8(s, p)->Ok_0.0;
        if let Ok((formal_parameter, at1)) = spec_read_u8(s, p + 1) {
        }
    }

    /// A `Throws` that was read is well formed, and has as many bytes as were taken.
    proof fn lemma_read_wf_throws(s: Seq<u8>, p: int)
        requires
            spec_read_u8(s, p) matches Ok((tag, _)) && (tag == 0x17),
        ensures
            Self::spec_read(s, p) matches Ok((v, q)) ==> v.wf() && q == p + v.spec_write().len()
                && q <= s.len(),
    {
        reveal(Target::spec_read);
        reveal(TargetView::spec_write);
        reveal(TargetView::wf);
        let tag = spec_read_u8(s, p)->Ok_0.0;
        if let Ok((throws_type, at1)) = spec_read_u16(s, p + 1) {
        }
    }

    /// A `Localvar` that was read is well formed, and has as many bytes as were taken.
    proof fn lemma_read_wf_localvar(s: Seq<u8>, p: int)
        requires
            spec_read_u8(s, p) matches Ok((tag, _)) && ((64 <= tag && tag <= 65)),
        ensures
            Self::spec_read(s, p) matches Ok((v, q)) ==> v.wf() && q == p + v.spec_write().len()
                && q <= s.len(),
    {
        reveal(Target::spec_read);
        reveal(TargetView::spec_write);
        reveal(TargetView::wf);
        let tag = spec_read_u8(s, p)->Ok_0.0;
        if let Ok((n_table, at1)) = spec_read_u16(s, p + 1) {
            LocalvarTable::lemma_read_seq_wf(s, at1, n_table as nat);
            if let Ok((table, at2)) = LocalvarTable::spec_read_seq(s, at1, n_table as nat) {
            }
        }
    }

    /// A `Catch` that was read is well formed, and has as many bytes as were taken.
    proof fn lemma_read_wf_catch(s: Seq<u8>, p: int)
        requires
            spec_read_u8(s, p) matches Ok((tag, _)) && (tag == 0x42),
        ensures
            Self::spec_read(s, p) matches Ok((v, q)) ==> v.wf() && q == p + v.spec_write().len()
                && q <= s.len(),
    {
        reveal(Target::spec_read);
        reveal(TargetView::spec_write);
        reveal(TargetView::wf);
        let tag = spec_read_u8(s, p)->Ok_0.0;
        if let Ok((exception_table, at1)) = spec_read_u16(s, p + 1) {
        }
    }

    /// A `Offset` that was read is well formed, and has as many bytes as were taken.
    proof fn lemma_read_wf_offset(s: Seq<u8>, p: int)
        requires
            spec_read_u8(s, p) matches Ok((tag, _)) && ((67 <= tag && tag <= 70)),
        ensures
            Self::spec_read(s, p) matches Ok((v, q)) ==> v.wf() && q == p + v.spec_write().len()
                && q <= s.len(),
    {
        reveal(Target::spec_read);
        reveal(TargetView::spec_write);
        reveal(TargetView::wf);
        let tag = spec_read_u8(s, p)->Ok_0.0;
        if let Ok((offset, at1)) = spec_read_u16(s, p + 1) {
        }
    }

    /// A `TypeArgument` that was read is well formed, and has as many bytes as were taken.
    proof fn lemma_read_wf_type_argument(s: Seq<u8>, p: int)
        requires
            spec_read_u8(s, p) matches Ok((tag, _)) && ((71 <= tag && tag <= 75)),
        ensures
            Self::spec_read(s, p) matches Ok((v, q)) ==> v.wf() && q == p + v.spec_write().len()
                && q <= s.len(),
    {
        reveal(Target::spec_read);
        reveal(TargetView::spec_write);
        reveal(TargetView::wf);
        let tag = spec_read_u8(s, p)->Ok_0.0;
        if let Ok((type_argument, at1)) = spec_read_u8(s, p + 1) {
        }
    }

    /// A value that was read is well formed, and has as many bytes as were taken.
    pub proof fn lemma_read_wf(s: Seq<u8>, p: int)
        ensures
            Self::spec_read(s, p) matches Ok((v, q)) ==> v.wf() && q == p + v.spec_write().len()
                && q <= s.len(),
    {
        if let Ok((tag, _)) = spec_read_u8(s, p) {
            if tag <= 1 {
                Self::lemma_read_wf_type_parameter(s, p);
            } else if tag == 0x10 {
                Self::lemma_read_wf_supertype(s, p);
            } else if (17 <= tag && tag <= 18) {
                Self::lemma_read_wf_type_parameter_bound(s, p);
            } else if (19 <= tag && tag <= 21) {
                Self::lemma_read_wf_empty(s, p);
            } else if tag == 0x16 {
                Self::lemma_read_wf_formal_parameter(s, p);
            } else if tag == 0x17 {
                Self::lemma_read_wf_throws(s, p);
            } else if (64 <= tag && tag <= 65) {
                Self::lemma_read_wf_localvar(s, p);
            } else if tag == 0x42 {
                Self::lemma_read_wf_catch(s, p);
            } else if (67 <= tag && tag <= 70) {
                Self::lemma_read_wf_offset(s, p);
            } else if (71 <= tag && tag <= 75) {
                Self::lemma_read_wf_type_argument(s, p);
            } else {
                reveal(Target::spec_read);
            }
        } else {
            reveal(Target::spec_read);
        }
    }
}

/// An annotation on a use of a type.
#[derive(Debug, PartialEq, Eq)]
pub struct TypeAnnotation {
    /// The kind of target and which one of that kind.
    pub target: Target,
    /// The part of the target type that is annotated.
    pub target_path: TypePath,
    /// Field descriptor of the annotation type.
    pub ty: ConstantPoolIndex,
    /// The values of its elements.
    pub element_value_pairs: Vec<ElementValuePair>,
}

/// The mathematical value of a [`TypeAnnotation`].
pub struct TypeAnnotationView {
    pub target: TargetView,
    pub target_path: TypePathView,
    pub ty: ConstantPoolIndex,
    pub element_value_pairs: Seq<ElementValuePairView>,
}

impl View for TypeAnnotation {
    type V = TypeAnnotationView;

    open spec fn view(&self) -> TypeAnnotationView {
        TypeAnnotationView {
            target: self.target@,
            target_path: self.target_path@,
            ty: self.ty,
            element_value_pairs: views(self.element_value_pairs@),
        }
    }
}

impl TypeAnnotationView {
    /// Whether every count fits its length field and every part is itself well formed.
    pub open spec fn wf(self) -> bool {
        &&& self.target.wf()
        &&& self.target_path.wf()
        &&& self.ty.wf()
        &&& self.element_value_pairs.len() <= 0xFFFF
        &&& ElementValuePair::wf_seq(self.element_value_pairs)
    }

    /// The bytes of the record: its fields in declaration order.
    #[verifier::opaque]
    pub open spec fn spec_write(self) -> Seq<u8> {
        self.target.spec_write() + self.target_path.spec_write() + self.ty.spec_write()
            + spec_u16_bytes((self.element_value_pairs.len() % 0x1_0000) as u16)
            + ElementValuePair::spec_write_seq(self.element_value_pairs)
    }
}

impl TypeAnnotation {
    /// The record that starts at position `p` of `s`, with the position behind it.
    #[verifier::opaque]
    pub open spec fn spec_read(s: Seq<u8>, p: int) -> Result<(TypeAnnotationView, int), Error> {
        match Target::spec_read(s, p) {
            Err(e) => Err(e),
            Ok((target, at1)) => {
                match TypePath::spec_read(s, at1) {
                    Err(e) => Err(e),
                    Ok((target_path, at2)) => {
                        match ConstantPoolIndex::spec_read(s, at2) {
                            Err(e) => Err(e),
                            Ok((ty, at3)) => {
                                match spec_read_u16(s, at3) {
                                    Err(e) => Err(e),
                                    Ok((n_element_value_pairs, at4)) => {
                                        match ElementValuePair::spec_read_seq(s, at4, n_element_value_pairs as nat) {
                                            Err(e) => Err(e),
                                            Ok((element_value_pairs, at5)) => {
                                                Ok((TypeAnnotationView { target, target_path, ty, element_value_pairs }, at5))
                                            },
                                        }
                                    },
                                }
                            },
                        }
                    },
                }
            },
        }
    }

    /// Reads the record that starts at `pos`.
    pub fn read(data: &[u8], pos: usize) -> (r: Result<(TypeAnnotation, usize), Error>)
        ensures
            decoded(r, Self::spec_read(data@, pos as int)),
            advanced(r, data@, pos),
    {
        proof {
            reveal(TypeAnnotation::spec_read);
        }
        let (target, pos1) = match Target::read(data, pos) {
            Ok(x) => x,
            Err(e) => return Err(e),
        };
        let (target_path, pos2) = match TypePath::read(data, pos1) {
            Ok(x) => x,
            Err(e) => return Err(e),
        };
        let (ty, pos3) = match ConstantPoolIndex::read(data, pos2) {
            Ok(x) => x,
            Err(e) => return Err(e),
        };
        let (n_element_value_pairs, pos4) = match read_u16(data, pos3) {
            Ok(x) => x,
            Err(e) => return Err(e),
        };
        let (element_value_pairs, pos5) = match ElementValuePair::read_seq(data, pos4, n_element_value_pairs as usize) {
            Ok(x) => x,
            Err(e) => return Err(e),
        };
        Ok((TypeAnnotation { target, target_path, ty, element_value_pairs }, pos5))
    }

    /// Appends the bytes of the record.
    pub fn write(&self, out: &mut Vec<u8>)
        ensures
            final(out)@ == old(out)@ + self@.spec_write(),
    {
        self.target.write(out);
        self.target_path.write(out);
        self.ty.write(out);
        write_u16(out, (self.element_value_pairs.len() % 0x1_0000) as u16);
        ElementValuePair::write_seq(&self.element_value_pairs, out);
        proof {
            reveal(TypeAnnotationView::spec_write);
            assert(out@ =~= old(out)@ + self@.spec_write());
        }
    }

    /// Reading back what `spec_write` gives for a well-formed record yields the record.
    #[verifier::rlimit(100)]
    pub proof fn lemma_round_trip(v: TypeAnnotationView, s: Seq<u8>, p: int)
        requires
            v.wf(),
            occurs_at(s, p, v.spec_write()),
        ensures
            Self::spec_read(s, p) == Ok::<(TypeAnnotationView, int), Error>((v, p + v.spec_write().len())),
    {
        reveal(TypeAnnotation::spec_read);
        reveal(TypeAnnotationView::spec_write);
        let w0 = v.target.spec_write();
        let w1 = v.target_path.spec_write();
        let w2 = v.ty.spec_write();
        let w3 = spec_u16_bytes((v.element_value_pairs.len() % 0x1_0000) as u16);
        let w4 = ElementValuePair::spec_write_seq(v.element_value_pairs);
        let a1 = w0 + w1;
        assert(a1.len() == w0.len() + w1.len());
        let a2 = a1 + w2;
        assert(a2.len() == a1.len() + w2.len());
        let a3 = a2 + w3;
        assert(a3.len() == a2.len() + w3.len());
        let a4 = a3 + w4;
        assert(a4.len() == a3.len() + w4.len());
        lemma_occurs_split(s, p, a3, w4);
        lemma_occurs_split(s, p, a2, w3);
        lemma_occurs_split(s, p, a1, w2);
        lemma_occurs_split(s, p, w0, w1);
        Target::lemma_round_trip(v.target, s, p);
        TypePath::lemma_round_trip(v.target_path, s, p + w0.len());
        ConstantPoolIndex::lemma_round_trip(v.ty, s, p + a1.len());
        lemma_round_trip_u16((v.element_value_pairs.len() % 0x1_0000) as u16, s, p + a2.len());
        ElementValuePair::lemma_round_trip_seq(v.element_value_pairs, s, p + a3.len());
    }

    /// A record that was read is well formed, and has as many bytes as were taken.
    #[verifier::rlimit(100)]
    pub proof fn lemma_read_wf(s: Seq<u8>, p: int)
        ensures
            Self::spec_read(s, p) matches Ok((v, q)) ==> v.wf() && q == p + v.spec_write().len()
                && q <= s.len(),
    {
        reveal(TypeAnnotation::spec_read);
        reveal(TypeAnnotationView::spec_write);
        Target::lemma_read_wf(s, p);
        if let Ok((target, at1)) = Target::spec_read(s, p) {
            TypePath::lemma_read_wf(s, at1);
            if let Ok((target_path, at2)) = TypePath::spec_read(s, at1) {
                ConstantPoolIndex::lemma_read_wf(s, at2);
                if let Ok((ty, at3)) = ConstantPoolIndex::spec_read(s, at2) {
                    if let Ok((n_element_value_pairs, at4)) = spec_read_u16(s, at3) {
                        ElementValuePair::lemma_read_seq_wf(s, at4, n_element_value_pairs as nat);
                        if let Ok((element_value_pairs, at5)) = ElementValuePair::spec_read_seq(s, at4, n_element_value_pairs as nat) {
                        }
                    }
                }
            }
        }
    }
}

impl TypeAnnotation {
    /// Whether each element is well formed.
    #[verifier::opaque]
    pub open spec fn wf_seq(xs: Seq<TypeAnnotationView>) -> bool {
        forall|i: int| 0 <= i < xs.len() ==> (#[trigger] xs[i]).wf()
    }

    /// The elements one after the other, without a count.
    #[verifier::opaque]
    pub open spec fn spec_write_seq(xs: Seq<TypeAnnotationView>) -> Seq<u8>
        decreases xs.len(),
    {
        if xs.len() == 0 {
            Seq::empty()
        } else {
            Self::spec_write_seq(xs.drop_last()) + xs.last().spec_write()
        }
    }

    /// The `n` elements that start at `p`, read one after the other.
    #[verifier::opaque]
    pub open spec fn spec_read_seq(
        s: Seq<u8>,
        p: int,
        n: nat,
    ) -> Result<(Seq<TypeAnnotationView>, int), Error>
        decreases n,
    {
        if n == 0 {
            Ok((Seq::empty(), p))
        } else {
            match Self::spec_read_seq(s, p, (n - 1) as nat) {
                Err(e) => Err(e),
                Ok((xs, q)) => match Self::spec_read(s, q) {
                    Err(e) => Err(e),
                    Ok((x, q2)) => Ok((xs.push(x), q2)),
                },
            }
        }
    }

    /// Once a prefix fails to read, every longer sequence fails the same way.
    pub proof fn lemma_read_seq_err(s: Seq<u8>, p: int, k: nat, n: nat)
        requires
            k <= n,
            Self::spec_read_seq(s, p, k) is Err,
        ensures
            Self::spec_read_seq(s, p, n) == Self::spec_read_seq(s, p, k),
        decreases n,
    {
        reveal(TypeAnnotation::spec_read_seq);
        if k < n {
            Self::lemma_read_seq_err(s, p, k, (n - 1) as nat);
        }
    }

    /// Reads `n` elements one after the other, the first of them at `pos`.
    pub fn read_seq(data: &[u8], pos: usize, n: usize) -> (r: Result<(Vec<TypeAnnotation>, usize), Error>)
        ensures
            match Self::spec_read_seq(data@, pos as int, n as nat) {
                Ok((v, p)) => r matches Ok((rv, rp)) && views(rv@) == v && rp as int == p,
                Err(e) => r == Err::<(Vec<TypeAnnotation>, usize), Error>(e),
            },
            advanced(r, data@, pos),
    {
        let mut out: Vec<TypeAnnotation> = Vec::new();
        let mut cur = pos;
        let mut i: usize = 0;
        proof {
            reveal(TypeAnnotation::spec_read_seq);
        }
        assert(views(out@) =~= Seq::<TypeAnnotationView>::empty());
        while i < n
            invariant
                i <= n,
                pos <= data@.len() ==> pos <= cur <= data@.len(),
                Self::spec_read_seq(data@, pos as int, i as nat) == Ok::<(Seq<TypeAnnotationView>, int), Error>((views(out@), cur as int)),
            decreases n - i,
        {
            proof {
                reveal(TypeAnnotation::spec_read_seq);
            }
            match Self::read(data, cur) {
                Err(e) => {
                    proof {
                        Self::lemma_read_seq_err(data@, pos as int, (i + 1) as nat, n as nat);
                    }
                    return Err(e);
                },
                Ok((x, next)) => {
                    proof {
                        assert(views(out@.push(x)) =~= views(out@).push(x@));
                    }
                    out.push(x);
                    cur = next;
                },
            }
            i += 1;
        }
        Ok((out, cur))
    }

    /// Appends the bytes of the elements, one after the other.
    pub fn write_seq(xs: &Vec<TypeAnnotation>, out: &mut Vec<u8>)
        ensures
            final(out)@ == old(out)@ + Self::spec_write_seq(views(xs@)),
    {
        let mut i: usize = 0;
        proof {
            reveal(TypeAnnotation::spec_write_seq);
        }
        while i < xs.len()
            invariant
                i <= xs.len(),
                out@ == old(out)@ + Self::spec_write_seq(views(xs@).take(i as int)),
            decreases xs.len() - i,
        {
            proof {
                reveal(TypeAnnotation::spec_write_seq);
                let t = views(xs@).take(i + 1);
                assert(t.drop_last() =~= views(xs@).take(i as int));
            }
            xs[i].write(out);
            proof {
                reveal(TypeAnnotation::spec_write_seq);
                assert(out@ =~= old(out)@ + Self::spec_write_seq(views(xs@).take(i + 1)));
            }
            i += 1;
        }
        proof {
            assert(views(xs@).take(xs.len() as int) =~= views(xs@));
        }
    }

    /// Reading back the elements that `spec_write_seq` wrote yields them all.
    pub proof fn lemma_round_trip_seq(xs: Seq<TypeAnnotationView>, s: Seq<u8>, p: int)
        requires
            Self::wf_seq(xs),
            occurs_at(s, p, Self::spec_write_seq(xs)),
        ensures
            Self::spec_read_seq(s, p, xs.len()) == Ok::<(Seq<TypeAnnotationView>, int), Error>(
                (xs, p + Self::spec_write_seq(xs).len()),
            ),
        decreases xs.len(),
    {
        reveal(TypeAnnotation::spec_read_seq);
        reveal(TypeAnnotation::spec_write_seq);
        reveal(TypeAnnotation::wf_seq);
        if xs.len() > 0 {
            let front = xs.drop_last();
            let w = Self::spec_write_seq(front);
            assert forall|i: int| 0 <= i < front.len() implies (#[trigger] front[i]).wf() by {
                assert(front[i] == xs[i]);
            }
            assert(xs.last() == xs[xs.len() - 1]);
            lemma_occurs_split(s, p, w, xs.last().spec_write());
            Self::lemma_round_trip_seq(front, s, p);
            Self::lemma_round_trip(xs.last(), s, p + w.len());
            assert(front.push(xs.last()) =~= xs);
        } else {
            assert(xs =~= Seq::<TypeAnnotationView>::empty());
        }
    }

    /// Elements that were read are as many as were asked for and well formed, and have
    /// as many bytes as were taken.
    pub proof fn lemma_read_seq_wf(s: Seq<u8>, p: int, n: nat)
        ensures
            Self::spec_read_seq(s, p, n) matches Ok((xs, q)) ==> xs.len() == n && Self::wf_seq(xs)
                && q == p + Self::spec_write_seq(xs).len() && (p <= s.len() ==> q <= s.len()),
        decreases n,
    {
        reveal(TypeAnnotation::spec_read_seq);
        reveal(TypeAnnotation::spec_write_seq);
        reveal(TypeAnnotation::wf_seq);
        if n > 0 {
            Self::lemma_read_seq_wf(s, p, (n - 1) as nat);
            if let Ok((front, q)) = Self::spec_read_seq(s, p, (n - 1) as nat) {
                Self::lemma_read_wf(s, q);
                if let Ok((x, q2)) = Self::spec_read(s, q) {
                    let xs = front.push(x);
                    assert(xs.drop_last() =~= front);
                    assert(xs.last() == x);
                    assert forall|i: int| 0 <= i < xs.len() implies (#[trigger] xs[i]).wf() by {
                        if i < front.len() {
                            assert(xs[i] == front[i]);
                        }
                    }
                }
            }
        }
    }
}

} // verus!
