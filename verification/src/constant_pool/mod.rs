//! The constant pool and the references into it.

use crate::bytes::{
    advanced, decoded, lemma_occurs_split, lemma_round_trip_u16, occurs_at, read_u16, spec_read_u16,
    spec_u16_bytes, views, write_u16,
};
use crate::constant_pool::constant::{Constant, ConstantView};
use crate::error::Error;
use crate::version::JavaVersion;
use vstd::prelude::*;

pub mod constant;

verus! {

/// A 1-based reference into the constant pool; 0 stands for "no entry".
#[derive(Debug, Copy, Clone, PartialEq, Eq)]
pub struct ConstantPoolIndex(pub u16);

impl View for ConstantPoolIndex {
    type V = ConstantPoolIndex;

    open spec fn view(&self) -> ConstantPoolIndex {
        *self
    }
}

impl ConstantPoolIndex {
    pub open spec fn wf(self) -> bool {
        true
    }

    pub open spec fn spec_write(self) -> Seq<u8> {
        spec_u16_bytes(self.0)
    }

    pub open spec fn spec_read(s: Seq<u8>, p: int) -> Result<(ConstantPoolIndex, int), Error> {
        match spec_read_u16(s, p) {
            Err(e) => Err(e),
            Ok((v, at1)) => Ok((ConstantPoolIndex(v), at1)),
        }
    }

    pub fn read(data: &[u8], pos: usize) -> (r: Result<(ConstantPoolIndex, usize), Error>)
        ensures
            decoded(r, Self::spec_read(data@, pos as int)),
            advanced(r, data@, pos),
    {
        match read_u16(data, pos) {
            Ok((v, pos1)) => Ok((ConstantPoolIndex(v), pos1)),
            Err(e) => Err(e),
        }
    }

    pub fn write(&self, out: &mut Vec<u8>)
        ensures
            final(out)@ == old(out)@ + self@.spec_write(),
    {
        write_u16(out, self.0);
    }

    /// Reading back a written index yields it.
    pub proof fn lemma_round_trip(v: ConstantPoolIndex, s: Seq<u8>, p: int)
        requires
            v.wf(),
            occurs_at(s, p, v.spec_write()),
        ensures
            Self::spec_read(s, p) == Ok::<(ConstantPoolIndex, int), Error>((v, p + v.spec_write().len())),
    {
        lemma_round_trip_u16(v.0, s, p);
    }

    /// An index that was read has as many bytes as were taken.
    pub proof fn lemma_read_wf(s: Seq<u8>, p: int)
        ensures
            Self::spec_read(s, p) matches Ok((v, q)) ==> v.wf() && q == p + v.spec_write().len()
                && q <= s.len(),
    {
    }
}

impl ConstantPoolIndex {
    /// Whether each element is well formed.
    #[verifier::opaque]
    pub open spec fn wf_seq(xs: Seq<ConstantPoolIndex>) -> bool {
        forall|i: int| 0 <= i < xs.len() ==> (#[trigger] xs[i]).wf()
    }

    /// The elements one after the other, without a count.
    #[verifier::opaque]
    pub open spec fn spec_write_seq(xs: Seq<ConstantPoolIndex>) -> Seq<u8>
        decreases xs.len(),
    {
        if xs.len() == 0 {
            Seq::empty()
        } else {
            Self::spec_write_seq(xs.drop_last()) + xs.last().spec_write()
        }
    }

    /// The `n` elements that start at `p`, read one after the other.
    #[verifier::opaque]
    pub open spec fn spec_read_seq(s: Seq<u8>, p: int, n: nat) -> Result<(Seq<ConstantPoolIndex>, int), Error>
        decreases n,
    {
        if n == 0 {
            Ok((Seq::empty(), p))
        } else {
            match Self::spec_read_seq(s, p, (n - 1) as nat) {
                Err(e) => Err(e),
                Ok((xs, q)) => match Self::spec_read(s, q) {
                    Err(e) => Err(e),
                    Ok((x, q2)) => Ok((xs.push(x), q2)),
                },
            }
        }
    }

    /// Once a prefix fails to read, every longer sequence fails the same way.
    pub proof fn lemma_read_seq_err(s: Seq<u8>, p: int, k: nat, n: nat)
        requires
            k <= n,
            Self::spec_read_seq(s, p, k) is Err,
        ensures
            Self::spec_read_seq(s, p, n) == Self::spec_read_seq(s, p, k),
        decreases n,
    {
        reveal(ConstantPoolIndex::spec_read_seq);
        if k < n {
            Self::lemma_read_seq_err(s, p, k, (n - 1) as nat);
        }
    }

    /// Reads `n` elements one after the other, the first of them at `pos`.
    pub fn read_seq(data: &[u8], pos: usize, n: usize) -> (r: Result<(Vec<ConstantPoolIndex>, usize), Error>)
        ensures
            match Self::spec_read_seq(data@, pos as int, n as nat) {
                Ok((v, p)) => r matches Ok((rv, rp)) && rv@ == v && rp as int == p,
                Err(e) => r == Err::<(Vec<ConstantPoolIndex>, usize), Error>(e),
            },
            advanced(r, data@, pos),
    {
        let mut out: Vec<ConstantPoolIndex> = Vec::new();
        let mut cur = pos;
        let mut i: usize = 0;
        proof {
            reveal(ConstantPoolIndex::spec_read_seq);
        }
        while i < n
            invariant
                i <= n,
                pos <= data@.len() ==> pos <= cur <= data@.len(),
                Self::spec_read_seq(data@, pos as int, i as nat) == Ok::<(Seq<ConstantPoolIndex>, int), Error>((out@, cur as int)),
            decreases n - i,
        {
            proof {
                reveal(ConstantPoolIndex::spec_read_seq);
            }
            match Self::read(data, cur) {
                Err(e) => {
                    proof {
                        Self::lemma_read_seq_err(data@, pos as int, (i + 1) as nat, n as nat);
                    }
                    return Err(e);
                },
                Ok((x, next)) => {
                    out.push(x);
                    cur = next;
                },
            }
            i += 1;
        }
        Ok((out, cur))
    }

    /// Appends the bytes of the elements, one after the other.
    pub fn write_seq(xs: &Vec<ConstantPoolIndex>, out: &mut Vec<u8>)
        ensures
            final(out)@ == old(out)@ + Self::spec_write_seq(xs@),
    {
        let mut i: usize = 0;
        proof {
            reveal(ConstantPoolIndex::spec_write_seq);
        }
        while i < xs.len()
            invariant
                i <= xs.len(),
                out@ == old(out)@ + Self::spec_write_seq(xs@.take(i as int)),
            decreases xs.len() - i,
        {
            proof {
                reveal(ConstantPoolIndex::spec_write_seq);
                let t = xs@.take(i + 1);
                assert(t.drop_last() =~= xs@.take(i as int));
            }
            xs[i].write(out);
            proof {
                reveal(ConstantPoolIndex::spec_write_seq);
                assert(out@ =~= old(out)@ + Self::spec_write_seq(xs@.take(i + 1)));
            }
            i += 1;
        }
        proof {
            assert(xs@.take(xs.len() as int) =~= xs@);
        }
    }

    /// Reading back the elements that `spec_write_seq` wrote yields them all.
    pub proof fn lemma_round_trip_seq(xs: Seq<ConstantPoolIndex>, s: Seq<u8>, p: int)
        requires
            Self::wf_seq(xs),
            occurs_at(s, p, Self::spec_write_seq(xs)),
        ensures
            Self::spec_read_seq(s, p, xs.len()) == Ok::<(Seq<ConstantPoolIndex>, int), Error>(
                (xs, p + Self::spec_write_seq(xs).len()),
            ),
        decreases xs.len(),
    {
        reveal(ConstantPoolIndex::spec_read_seq);
        reveal(ConstantPoolIndex::spec_write_seq);
        reveal(ConstantPoolIndex::wf_seq);
        if xs.len() > 0 {
            let front = xs.drop_last();
            let w = Self::spec_write_seq(front);
            assert forall|i: int| 0 <= i < front.len() implies (#[trigger] front[i]).wf() by {
                assert(front[i] == xs[i]);
            }
            assert(xs.last() == xs[xs.len() - 1]);
            lemma_occurs_split(s, p, w, xs.last().spec_write());
            Self::lemma_round_trip_seq(front, s, p);
            Self::lemma_round_trip(xs.last(), s, p + w.len());
            assert(front.push(xs.last()) =~= xs);
        } else {
            assert(xs =~= Seq::<ConstantPoolIndex>::empty());
        }
    }

    /// Elements that were read are as many as were asked for and well formed, and have
    /// as many bytes as were taken.
    pub proof fn lemma_read_seq_wf(s: Seq<u8>, p: int, n: nat)
        ensures
            Self::spec_read_seq(s, p, n) matches Ok((xs, q)) ==> xs.len() == n && Self::wf_seq(xs)
                && q == p + Self::spec_write_seq(xs).len() && (p <= s.len() ==> q <= s.len()),
        decreases n,
    {
        reveal(ConstantPoolIndex::spec_read_seq);
        reveal(ConstantPoolIndex::spec_write_seq);
        reveal(ConstantPoolIndex::wf_seq);
        if n > 0 {
            Self::lemma_read_seq_wf(s, p, (n - 1) as nat);
            if let Ok((front, q)) = Self::spec_read_seq(s, p, (n - 1) as nat) {
                Self::lemma_read_wf(s, q);
                if let Ok((x, q2)) = Self::spec_read(s, q) {
                    let xs = front.push(x);
                    assert(xs.drop_last() =~= front);
                    assert(xs.last() == x);
                    assert forall|i: int| 0 <= i < xs.len() implies (#[trigger] xs[i]).wf() by {
                        if i < front.len() {
                            assert(xs[i] == front[i]);
                        }
                    }
                }
            }
        }
    }
}

/// The constant pool: the entries in slot order, the first one in slot 1.
#[derive(Debug, PartialEq, Eq)]
pub struct ConstantPool(pub Vec<Constant>);

impl View for ConstantPool {
    type V = Seq<ConstantView>;

    open spec fn view(&self) -> Seq<ConstantView> {
        views(self.0@)
    }
}

/// The entry in slot `index` of a pool, slots counted from 1.
pub open spec fn spec_get(pool: Seq<ConstantView>, index: ConstantPoolIndex) -> Option<ConstantView> {
    if 1 <= index.0 <= pool.len() {
        Some(pool[index.0 - 1])
    } else {
        None
    }
}

/// The bytes of the entries, one after the other.
#[verifier::opaque]
pub open spec fn spec_write_entries(cs: Seq<ConstantView>) -> Seq<u8>
    decreases cs.len(),
{
    if cs.len() == 0 {
        Seq::empty()
    } else {
        cs[0].spec_write() + spec_write_entries(cs.skip(1))
    }
}

/// The bytes of a pool: the number of slots plus one, then the entries.
pub open spec fn spec_write_pool(cs: Seq<ConstantView>) -> Seq<u8> {
    spec_u16_bytes(((1 + cs.len()) % 0x1_0000) as u16) + spec_write_entries(cs)
}

/// The entries read from `p` on until `slots` slots are filled.
#[verifier::opaque]
pub open spec fn spec_read_entries(s: Seq<u8>, p: int, slots: nat, version: JavaVersion) -> Result<
    (Seq<ConstantView>, int),
    Error,
>
    decreases slots,
{
    if slots == 0 {
        Ok((Seq::empty(), p))
    } else {
        match Constant::spec_read(s, p, version) {
            Err(e) => Err(e),
            Ok((head, q)) => match spec_read_entries(s, q, spec_slots_left(slots, head.len()), version) {
                Err(e) => Err(e),
                Ok((tail, q2)) => Ok((head + tail, q2)),
            },
        }
    }
}

/// The number of slots that a pool with the given count field has: one less than the
/// field says, and 65535 where the field is 0.
pub open spec fn spec_slots(count: u16) -> nat {
    if count == 0 {
        0xFFFF
    } else {
        (count - 1) as nat
    }
}

/// The pool whose count field starts at `p`.
pub open spec fn spec_read_pool(
    s: Seq<u8>,
    p: int,
    version: JavaVersion,
) -> Result<(Seq<ConstantView>, int), Error> {
    match spec_read_u16(s, p) {
        Err(e) => Err(e),
        Ok((count, at1)) => spec_read_entries(s, at1, spec_slots(count), version),
    }
}

/// Whether every entry that takes two slots is followed by the unusable slot.
pub open spec fn spec_slots_accounted(cs: Seq<ConstantView>) -> bool {
    forall|i: int|
        0 <= i < cs.len() && (#[trigger] cs[i]).is_double_slot() ==> i + 1 < cs.len() && cs[i + 1]
            == ConstantView::Unusable
}

/// Whether reading a file of the given version can produce these entries: each is one
/// that the version admits, and the unusable slot stands behind the two-slot entries and
/// nowhere else.
pub open spec fn spec_wf_entries(cs: Seq<ConstantView>, version: JavaVersion) -> bool
    decreases cs.len(),
{
    if cs.len() == 0 {
        true
    } else if cs[0].is_double_slot() {
        cs.len() >= 2 && cs[0].wf(version) && cs[1] == ConstantView::Unusable
            && spec_wf_entries(cs.skip(2), version)
    } else {
        cs[0].wf(version) && spec_wf_entries(cs.skip(1), version)
    }
}

/// Whether reading a file of the given version can produce this pool.
pub open spec fn spec_wf_pool(cs: Seq<ConstantView>, version: JavaVersion) -> bool {
    cs.len() <= 0xFFFF && spec_wf_entries(cs, version)
}

/// The number of slots still to fill once a constant of `entries` entries has been read.
pub open spec fn spec_slots_left(slots: nat, entries: nat) -> nat {
    if entries == 2 && slots >= 2 {
        (slots - 2) as nat
    } else {
        (slots - 1) as nat
    }
}

/// Reading the entries for some slots is reading one constant and then the entries for the
/// slots that it leaves.
pub proof fn lemma_read_entries_unfold(s: Seq<u8>, p: int, slots: nat, version: JavaVersion)
    ensures
        slots == 0 ==> spec_read_entries(s, p, slots, version) == Ok::<(Seq<ConstantView>, int), Error>(
            (Seq::empty(), p),
        ),
        slots > 0 ==> spec_read_entries(s, p, slots, version) == match Constant::spec_read(s, p, version) {
            Err(e) => Err(e),
            Ok((head, q)) => match spec_read_entries(s, q, spec_slots_left(slots, head.len()), version) {
                Err(e) => Err(e),
                Ok((tail, q2)) => Ok((head + tail, q2)),
            },
        },
{
    reveal(spec_read_entries);
}

impl ConstantPool {
    /// Reads the pool whose count field stands at `pos`.
    pub fn read(data: &[u8], pos: usize, version: &JavaVersion) -> (r: Result<(ConstantPool, usize), Error>)
        ensures
            decoded(r, spec_read_pool(data@, pos as int, *version)),
            advanced(r, data@, pos),
            r matches Ok((pool, _)) ==> spec_slots_accounted(pool@) && spec_wf_entries(pool@, *version),
    {
        let (count, start) = match read_u16(data, pos) {
            Ok(x) => x,
            Err(e) => {
                return Err(e);
            },
        };
        let slots: u32 = if count == 0 {
            0xFFFF
        } else {
            (count - 1) as u32
        };
        let mut constants: Vec<Constant> = Vec::new();
        let mut cur = start;
        let mut left: u32 = slots;
        assert(views(constants@) =~= Seq::<ConstantView>::empty());
        while left > 0
            invariant
                left <= slots <= 0xFFFF,
                slots as nat == spec_slots(count),
                spec_read_u16(data@, pos as int) == Ok::<(u16, int), Error>((count, start as int)),
                pos <= data@.len() ==> start <= cur <= data@.len(),
                spec_read_entries(data@, start as int, slots as nat, *version) == match spec_read_entries(
                    data@,
                    cur as int,
                    left as nat,
                    *version,
                ) {
                    Ok((tail, q)) => Ok::<(Seq<ConstantView>, int), Error>((views(constants@) + tail, q)),
                    Err(e) => Err(e),
                },
            decreases left,
        {
            proof {
                lemma_read_entries_unfold(data@, cur as int, left as nat, *version);
            }
            let (mut entries, next) = match Constant::read(data, cur, version) {
                Ok(x) => x,
                Err(e) => {
                    return Err(e);
                },
            };
            let ghost head = views(entries@);
            let ghost before = views(constants@);
            let two = entries.len() == 2;
            constants.append(&mut entries);
            proof {
                assert(views(constants@) =~= before + head);
                let rest = spec_slots_left(left as nat, head.len());
                match spec_read_entries(data@, next as int, rest, *version) {
                    Ok((tail, q)) => {
                        assert(before + (head + tail) =~= views(constants@) + tail);
                    },
                    Err(e) => {},
                }
            }
            left = if two && left >= 2 {
                left - 2
            } else {
                left - 1
            };
            cur = next;
        }
        proof {
            lemma_read_entries_unfold(data@, cur as int, 0, *version);
            Self::lemma_read_entries_wf(data@, start as int, slots as nat, *version);
            assert(views(constants@) + Seq::<ConstantView>::empty() =~= views(constants@));
            assert forall|i: int| 0 <= i < views(constants@).len() && (#[trigger] views(
                constants@,
            )[i]).is_double_slot() implies i + 1 < views(constants@).len() && views(constants@)[i + 1]
                == ConstantView::Unusable by {
                Self::lemma_slot_accounting(data@, start as int, slots as nat, *version, i);
            }
        }
        Ok((ConstantPool(constants), cur))
    }

    /// Appends the count field and the entries.
    pub fn write(&self, out: &mut Vec<u8>)
        ensures
            final(out)@ == old(out)@ + spec_write_pool(self@),
    {
        let count = ((self.0.len() as u128 + 1) % 0x1_0000) as u16;
        assert(self@.len() == self.0.len());
        write_u16(out, count);
        let ghost start = out@;
        let mut i: usize = 0;
        proof {
            reveal(spec_write_entries);
            assert(self@.skip(0) =~= self@);
            assert(start + Seq::<u8>::empty() =~= start);
        }
        while i < self.0.len()
            invariant
                i <= self.0.len(),
                start + spec_write_entries(self@) == out@ + spec_write_entries(self@.skip(i as int)),
            decreases self.0.len() - i,
        {
            let ghost before = out@;
            self.0[i].write(out);
            proof {
                reveal(spec_write_entries);
                let rest = self@.skip(i as int);
                assert(rest.skip(1) =~= self@.skip(i + 1));
                assert(rest[0] == self.0[i as int]@);
                assert(before + (rest[0].spec_write() + spec_write_entries(rest.skip(1))) =~= out@
                    + spec_write_entries(self@.skip(i + 1)));
            }
            i += 1;
        }
        proof {
            reveal(spec_write_entries);
            assert(out@ + Seq::<u8>::empty() =~= out@);
            assert(out@ =~= old(out)@ + spec_write_pool(self@));
        }
    }

    /// The entry in slot `index`, slots counted from 1; nothing for slot 0 and for a slot
    /// behind the last.
    pub fn get(&self, index: ConstantPoolIndex) -> (r: Option<&Constant>)
        ensures
            match spec_get(self@, index) {
                Some(c) => r matches Some(rc) && rc@ == c,
                None => r is None,
            },
    {
        if index.0 == 0 {
            return None;
        }
        let i = (index.0 - 1) as usize;
        if i < self.0.len() {
            Some(&self.0[i])
        } else {
            None
        }
    }

    /// Reading back written entries that a file of this version can hold, for as many slots
    /// as they are, yields them.
    pub proof fn lemma_round_trip_entries(cs: Seq<ConstantView>, s: Seq<u8>, p: int, version: JavaVersion)
        requires
            spec_wf_entries(cs, version),
            occurs_at(s, p, spec_write_entries(cs)),
        ensures
            spec_read_entries(s, p, cs.len(), version) == Ok::<(Seq<ConstantView>, int), Error>(
                (cs, p + spec_write_entries(cs).len()),
            ),
        decreases cs.len(),
    {
        lemma_read_entries_unfold(s, p, cs.len(), version);
        reveal(spec_write_entries);
        if cs.len() == 0 {
            assert(cs =~= Seq::<ConstantView>::empty());
        } else {
            let w = cs[0].spec_write();
            lemma_occurs_split(s, p, w, spec_write_entries(cs.skip(1)));
            Constant::lemma_round_trip(cs[0], s, p, version);
            if cs[0].is_double_slot() {
                let rest = cs.skip(2);
                assert(cs.skip(1).skip(1) =~= rest);
                assert(cs.skip(1)[0] == ConstantView::Unusable);
                assert(spec_write_entries(cs.skip(1)) =~= spec_write_entries(rest));
                Self::lemma_round_trip_entries(rest, s, p + w.len(), version);
                assert(seq![cs[0], ConstantView::Unusable] + rest =~= cs);
            } else {
                let rest = cs.skip(1);
                Self::lemma_round_trip_entries(rest, s, p + w.len(), version);
                assert(seq![cs[0]] + rest =~= cs);
            }
        }
    }

    /// Reading back a written pool that a file of this version can hold yields the pool.
    pub proof fn lemma_round_trip(cs: Seq<ConstantView>, s: Seq<u8>, p: int, version: JavaVersion)
        requires
            spec_wf_pool(cs, version),
            occurs_at(s, p, spec_write_pool(cs)),
        ensures
            spec_read_pool(s, p, version) == Ok::<(Seq<ConstantView>, int), Error>(
                (cs, p + spec_write_pool(cs).len()),
            ),
    {
        let count = ((1 + cs.len()) % 0x1_0000) as u16;
        lemma_occurs_split(s, p, spec_u16_bytes(count), spec_write_entries(cs));
        lemma_round_trip_u16(count, s, p);
        Self::lemma_round_trip_entries(cs, s, p + 2, version);
    }

    /// The entries that were read are such as a pool of this version can hold.
    pub proof fn lemma_read_entries_wf(s: Seq<u8>, p: int, slots: nat, version: JavaVersion)
        ensures
            spec_read_entries(s, p, slots, version) matches Ok((cs, _)) ==> spec_wf_entries(cs, version),
        decreases slots,
    {
        lemma_read_entries_unfold(s, p, slots, version);
        if slots > 0 {
            Constant::lemma_read_wf(s, p, version);
            if let Ok((head, q)) = Constant::spec_read(s, p, version) {
                let rest = spec_slots_left(slots, head.len());
                Self::lemma_read_entries_wf(s, q, rest, version);
                if let Ok((tail, _)) = spec_read_entries(s, q, rest, version) {
                    let cs = head + tail;
                    assert(cs[0] == head[0]);
                    if head[0].is_double_slot() {
                        assert(cs[1] == head[1]);
                        assert(cs.skip(2) =~= tail);
                    } else {
                        assert(cs.skip(1) =~= tail);
                    }
                }
            }
        }
    }

    /// A pool that was read, unless it has more entries than its count field can say, is
    /// such as reading can produce again from what it is written as.
    pub proof fn lemma_read_wf(s: Seq<u8>, p: int, version: JavaVersion)
        ensures
            spec_read_pool(s, p, version) matches Ok((cs, q)) ==> p <= q <= s.len() && (cs.len() <= 0xFFFF
                ==> spec_wf_pool(cs, version)),
    {
        if let Ok((count, at1)) = spec_read_u16(s, p) {
            Self::lemma_read_entries_wf(s, at1, spec_slots(count), version);
            Self::lemma_read_entries_within(s, at1, spec_slots(count), version);
        }
    }

    /// Reading entries from inside the input ends inside the input.
    proof fn lemma_read_entries_within(s: Seq<u8>, p: int, slots: nat, version: JavaVersion)
        requires
            0 <= p <= s.len(),
        ensures
            spec_read_entries(s, p, slots, version) matches Ok((_, q)) ==> p <= q <= s.len(),
        decreases slots,
    {
        lemma_read_entries_unfold(s, p, slots, version);
        if slots > 0 {
            Constant::lemma_read_wf(s, p, version);
            if let Ok((head, q)) = Constant::spec_read(s, p, version) {
                Self::lemma_read_entries_within(s, q, spec_slots_left(slots, head.len()), version);
            }
        }
    }

    /// In a pool that was read, an entry that takes two slots has the unusable slot behind
    /// it, and the slot after that, where the pool has one, holds an entry again.
    pub proof fn lemma_slot_accounting(s: Seq<u8>, p: int, slots: nat, version: JavaVersion, i: int)
        requires
            spec_read_entries(s, p, slots, version) is Ok,
            0 <= i < spec_read_entries(s, p, slots, version)->Ok_0.0.len(),
            spec_read_entries(s, p, slots, version)->Ok_0.0[i].is_double_slot(),
        ensures
            ({
                let pool = spec_read_entries(s, p, slots, version)->Ok_0.0;
                &&& i + 1 < pool.len()
                &&& pool[i + 1] == ConstantView::Unusable
                &&& i
                    + 2 <= 0xFFFF ==> spec_get(pool, ConstantPoolIndex((i + 2) as u16)) == Some(ConstantView::Unusable)
                &&& i + 2 < pool.len() ==> pool[i + 2] != ConstantView::Unusable
            }),
        decreases slots,
    {
        let pool = spec_read_entries(s, p, slots, version)->Ok_0.0;
        lemma_read_entries_unfold(s, p, slots, version);
        Self::lemma_entries_len(s, p, slots, version);
        let (head, q) = Constant::spec_read(s, p, version)->Ok_0;
        let rest = spec_slots_left(slots, head.len());
        let tail = spec_read_entries(s, q, rest, version)->Ok_0.0;
        Self::lemma_entries_len(s, q, rest, version);
        lemma_read_entries_unfold(s, q, rest, version);
        if i < head.len() {
            if i + 2 < pool.len() {
                assert(pool[i + 2] == tail[0]);
                Self::lemma_first_entry(s, q, rest, version);
            }
        } else {
            Self::lemma_slot_accounting(s, q, rest, version, i - head.len());
            assert(pool[i] == tail[i - head.len()]);
            assert(pool[i + 1] == tail[i + 1 - head.len()]);
            if i + 2 < pool.len() {
                assert(pool[i + 2] == tail[i + 2 - head.len()]);
            }
        }
    }

    /// A pool that was read for `slots` slots has at most one entry more than that, and
    /// at most 65535 entries where the count field asked for it.
    pub proof fn lemma_entries_len(s: Seq<u8>, p: int, slots: nat, version: JavaVersion)
        requires
            spec_read_entries(s, p, slots, version) is Ok,
        ensures
            slots <= spec_read_entries(s, p, slots, version)->Ok_0.0.len() <= slots + 1,
            slots > 0 ==> !spec_read_entries(s, p, slots, version)->Ok_0.0[0].is_unusable(),
        decreases slots,
    {
        lemma_read_entries_unfold(s, p, slots, version);
        Constant::lemma_read_bare_kind(s, p);
        if slots > 0 {
            let (head, q) = Constant::spec_read(s, p, version)->Ok_0;
            let rest = spec_slots_left(slots, head.len());
            Self::lemma_entries_len(s, q, rest, version);
            lemma_read_entries_unfold(s, q, rest, version);
            assert(head.len() == 1 || head.len() == 2);
            let tail = spec_read_entries(s, q, rest, version)->Ok_0.0;
            assert((head + tail).len() == head.len() + tail.len());
        }
    }

    proof fn lemma_first_entry(s: Seq<u8>, p: int, slots: nat, version: JavaVersion)
        requires
            spec_read_entries(s, p, slots, version) is Ok,
            slots > 0,
        ensures
            spec_read_entries(s, p, slots, version)->Ok_0.0.len() > 0,
            spec_read_entries(s, p, slots, version)->Ok_0.0[0] != ConstantView::Unusable,
    {
        lemma_read_entries_unfold(s, p, slots, version);
        Constant::lemma_read_bare_kind(s, p);
    }
}

impl ConstantView {
    /// Whether this is the slot behind a two-slot entry.
    pub open spec fn is_unusable(self) -> bool {
        self == ConstantView::Unusable
    }
}

} // verus!
