//! The bytecode of a method: the instruction set and the `Code` attribute.

use crate::bytes::{
    advanced, available, decoded, lemma_occurs_split, lemma_round_trip_i16, lemma_round_trip_i32,
    lemma_round_trip_u16, lemma_round_trip_u32, lemma_round_trip_u8, occurs_at, read_i16, read_i32, read_u16,
    read_u32, read_u8, spec_available, spec_i32_of, spec_read_bytes, spec_read_i16, spec_read_i32,
    spec_read_u16, spec_read_u32, spec_read_u8, spec_u16_bytes, spec_u16_of, spec_u32_at, spec_u32_bytes,
    spec_u32_of, views, write_i16, write_i32, write_u16, write_u32, write_u8,
};
use crate::error::Error;
use crate::io::{ReadContext, WriteContext};
use vstd::prelude::*;

verus! {

/// A one-byte index.
#[derive(Debug, Copy, Clone, PartialEq, Eq, PartialOrd, Ord)]
pub struct SmallIndex(pub u8);

/// A two-byte index.
#[derive(Debug, Copy, Clone, PartialEq, Eq, PartialOrd, Ord)]
pub struct WideIndex(pub u16);

/// An index whose width the preceding instruction decides: two bytes behind `Wide`, one
/// byte otherwise.
#[derive(Debug, Copy, Clone, PartialEq, Eq)]
pub enum SizedIndex {
    Normal(SmallIndex),
    Wide(WideIndex),
}

/// An operand byte that is always zero.
#[derive(Debug, Copy, Clone, PartialEq, Eq)]
pub struct AlwaysZero;

/// The element type of a primitive array.
#[derive(Debug, Copy, Clone, PartialEq, Eq)]
pub enum ArrayType {
    Boolean,
    Char,
    Float,
    Double,
    Byte,
    Short,
    Int,
    Long,
}

impl SizedIndex {
    pub open spec fn spec_write(self) -> Seq<u8> {
        match self {
            SizedIndex::Normal(v) => seq![v.0],
            SizedIndex::Wide(v) => spec_u16_bytes(v.0),
        }
    }

    /// The index at `p`: two bytes in wide mode, else one.
    pub open spec fn spec_read(s: Seq<u8>, p: int, wide: bool) -> Result<(SizedIndex, int), Error> {
        if wide {
            match spec_read_u16(s, p) {
                Err(e) => Err(e),
                Ok((v, q)) => Ok((SizedIndex::Wide(WideIndex(v)), q)),
            }
        } else {
            match spec_read_u8(s, p) {
                Err(e) => Err(e),
                Ok((v, q)) => Ok((SizedIndex::Normal(SmallIndex(v)), q)),
            }
        }
    }

    pub fn read(data: &[u8], pos: usize, ctx: &ReadContext) -> (r: Result<(SizedIndex, usize), Error>)
        ensures
            match Self::spec_read(data@, pos as int, ctx.wide) {
                Ok((v, p)) => r == Ok::<(SizedIndex, usize), Error>((v, p as usize)) && p == p as usize,
                Err(e) => r == Err::<(SizedIndex, usize), Error>(e),
            },
            advanced(r, data@, pos),
    {
        if ctx.wide {
            match read_u16(data, pos) {
                Ok((v, q)) => Ok((SizedIndex::Wide(WideIndex(v)), q)),
                Err(e) => Err(e),
            }
        } else {
            match read_u8(data, pos) {
                Ok((v, q)) => Ok((SizedIndex::Normal(SmallIndex(v)), q)),
                Err(e) => Err(e),
            }
        }
    }

    pub fn write(&self, out: &mut Vec<u8>)
        ensures
            final(out)@ == old(out)@ + self.spec_write(),
    {
        match self {
            SizedIndex::Normal(v) => write_u8(out, v.0),
            SizedIndex::Wide(v) => write_u16(out, v.0),
        }
    }

    /// Reading back a written index in the mode that its width asks for yields it.
    pub proof fn lemma_round_trip(v: SizedIndex, s: Seq<u8>, p: int)
        requires
            occurs_at(s, p, v.spec_write()),
        ensures
            Self::spec_read(s, p, v is Wide) == Ok::<(SizedIndex, int), Error>((v, p + v.spec_write().len())),
    {
        match v {
            SizedIndex::Normal(i) => lemma_round_trip_u8(i.0, s, p),
            SizedIndex::Wide(i) => lemma_round_trip_u16(i.0, s, p),
        }
    }
}

impl AlwaysZero {
    /// The zero byte at `p`; any other byte is an error that names the byte.
    pub open spec fn spec_read(s: Seq<u8>, p: int) -> Result<(AlwaysZero, int), Error> {
        match spec_read_u8(s, p) {
            Err(e) => Err(e),
            Ok((v, q)) => if v == 0 {
                Ok((AlwaysZero, q))
            } else {
                Err(Error::UnexpectedOpCodeValue { expected: (0, 0), found: v })
            },
        }
    }

    pub fn read(data: &[u8], pos: usize) -> (r: Result<(AlwaysZero, usize), Error>)
        ensures
            match Self::spec_read(data@, pos as int) {
                Ok((v, p)) => r == Ok::<(AlwaysZero, usize), Error>((v, p as usize)) && p == p as usize,
                Err(e) => r == Err::<(AlwaysZero, usize), Error>(e),
            },
            advanced(r, data@, pos),
    {
        match read_u8(data, pos) {
            Ok((v, q)) => if v == 0 {
                Ok((AlwaysZero, q))
            } else {
                Err(Error::UnexpectedOpCodeValue { expected: (0, 0), found: v })
            },
            Err(e) => Err(e),
        }
    }

    pub fn write(&self, out: &mut Vec<u8>)
        ensures
            final(out)@ == old(out)@ + seq![0u8],
    {
        write_u8(out, 0);
    }
}

impl ArrayType {
    /// The operand byte that stands for the type.
    pub open spec fn spec_code(self) -> u8 {
        match self {
            ArrayType::Boolean => 4,
            ArrayType::Char => 5,
            ArrayType::Float => 6,
            ArrayType::Double => 7,
            ArrayType::Byte => 8,
            ArrayType::Short => 9,
            ArrayType::Int => 10,
            ArrayType::Long => 11,
        }
    }

    /// The type that an operand byte stands for, where it stands for one.
    pub open spec fn spec_of_code(code: u8) -> Option<ArrayType> {
        if code == 4 {
            Some(ArrayType::Boolean)
        } else if code == 5 {
            Some(ArrayType::Char)
        } else if code == 6 {
            Some(ArrayType::Float)
        } else if code == 7 {
            Some(ArrayType::Double)
        } else if code == 8 {
            Some(ArrayType::Byte)
        } else if code == 9 {
            Some(ArrayType::Short)
        } else if code == 10 {
            Some(ArrayType::Int)
        } else if code == 11 {
            Some(ArrayType::Long)
        } else {
            None
        }
    }

    /// The type at `p`; a byte outside 4 to 11 is an error that names the byte.
    pub open spec fn spec_read(s: Seq<u8>, p: int) -> Result<(ArrayType, int), Error> {
        match spec_read_u8(s, p) {
            Err(e) => Err(e),
            Ok((v, q)) => match Self::spec_of_code(v) {
                Some(ty) => Ok((ty, q)),
                None => Err(Error::UnexpectedOpCodeValue { expected: (4, 11), found: v }),
            },
        }
    }

    pub fn code(&self) -> (r: u8)
        ensures
            r == self.spec_code(),
    {
        match self {
            ArrayType::Boolean => 4,
            ArrayType::Char => 5,
            ArrayType::Float => 6,
            ArrayType::Double => 7,
            ArrayType::Byte => 8,
            ArrayType::Short => 9,
            ArrayType::Int => 10,
            ArrayType::Long => 11,
        }
    }

    pub fn read(data: &[u8], pos: usize) -> (r: Result<(ArrayType, usize), Error>)
        ensures
            match Self::spec_read(data@, pos as int) {
                Ok((v, p)) => r == Ok::<(ArrayType, usize), Error>((v, p as usize)) && p == p as usize,
                Err(e) => r == Err::<(ArrayType, usize), Error>(e),
            },
            advanced(r, data@, pos),
    {
        let (v, q) = match read_u8(data, pos) {
            Ok(x) => x,
            Err(e) => {
                return Err(e);
            },
        };
        let ty = match v {
            4 => ArrayType::Boolean,
            5 => ArrayType::Char,
            6 => ArrayType::Float,
            7 => ArrayType::Double,
            8 => ArrayType::Byte,
            9 => ArrayType::Short,
            10 => ArrayType::Int,
            11 => ArrayType::Long,
            _ => {
                return Err(Error::UnexpectedOpCodeValue { expected: (4, 11), found: v });
            },
        };
        Ok((ty, q))
    }

    pub fn write(&self, out: &mut Vec<u8>)
        ensures
            final(out)@ == old(out)@ + seq![self.spec_code()],
    {
        write_u8(out, self.code());
    }
}

/// One case of a lookup switch.
#[derive(Debug, Copy, Clone, PartialEq, Eq)]
pub struct MatchOffsetPair {
    /// The key.
    pub match_value: i32,
    /// Branch offset taken where the key matches.
    pub offset: i32,
}

impl View for MatchOffsetPair {
    type V = MatchOffsetPair;

    open spec fn view(&self) -> MatchOffsetPair {
        *self
    }
}

impl MatchOffsetPair {
    /// Whether every count fits its length field and every part is itself well formed.
    pub open spec fn wf(self) -> bool {
        true
    }

    /// The bytes of the record: its fields in declaration order.
    #[verifier::opaque]
    pub open spec fn spec_write(self) -> Seq<u8> {
        spec_u32_bytes(spec_u32_of(self.match_value)) + spec_u32_bytes(spec_u32_of(self.offset))
    }
}

impl MatchOffsetPair {
    /// The record that starts at position `p` of `s`, with the position behind it.
    #[verifier::opaque]
    pub open spec fn spec_read(s: Seq<u8>, p: int) -> Result<(MatchOffsetPair, int), Error> {
        match spec_read_i32(s, p) {
            Err(e) => Err(e),
            Ok((match_value, at1)) => {
                match spec_read_i32(s, at1) {
                    Err(e) => Err(e),
                    Ok((offset, at2)) => {
                        Ok((MatchOffsetPair { match_value, offset }, at2))
                    },
                }
            },
        }
    }

    /// Reads the record that starts at `pos`.
    pub fn read(data: &[u8], pos: usize) -> (r: Result<(MatchOffsetPair, usize), Error>)
        ensures
            decoded(r, Self::spec_read(data@, pos as int)),
            advanced(r, data@, pos),
    {
        proof {
            reveal(MatchOffsetPair::spec_read);
        }
        let (match_value, pos1) = match read_i32(data, pos) {
            Ok(x) => x,
            Err(e) => return Err(e),
        };
        let (offset, pos2) = match read_i32(data, pos1) {
            Ok(x) => x,
            Err(e) => return Err(e),
        };
        Ok((MatchOffsetPair { match_value, offset }, pos2))
    }

    /// Appends the bytes of the record.
    pub fn write(&self, out: &mut Vec<u8>)
        ensures
            final(out)@ == old(out)@ + self@.spec_write(),
    {
        write_i32(out, self.match_value);
        write_i32(out, self.offset);
        proof {
            reveal(MatchOffsetPair::spec_write);
            assert(out@ =~= old(out)@ + self@.spec_write());
        }
    }

    /// Reading back what `spec_write` gives for a well-formed record yields the record.
    pub proof fn lemma_round_trip(v: MatchOffsetPair, s: Seq<u8>, p: int)
        requires
            v.wf(),
            occurs_at(s, p, v.spec_write()),
        ensures
            Self::spec_read(s, p) == Ok::<(MatchOffsetPair, int), Error>((v, p + v.spec_write().len())),
    {
        reveal(MatchOffsetPair::spec_read);
        reveal(MatchOffsetPair::spec_write);
        let w0 = spec_u32_bytes(spec_u32_of(v.match_value));
        let w1 = spec_u32_bytes(spec_u32_of(v.offset));
        let a1 = w0 + w1;
        assert(a1.len() == w0.len() + w1.len());
        lemma_occurs_split(s, p, w0, w1);
        lemma_round_trip_i32(v.match_value, s, p);
        lemma_round_trip_i32(v.offset, s, p + w0.len());
    }

    /// A record that was read is well formed, and has as many bytes as were taken.
    pub proof fn lemma_read_wf(s: Seq<u8>, p: int)
        ensures
            Self::spec_read(s, p) matches Ok((v, q)) ==> v.wf() && q == p + v.spec_write().len()
                && q <= s.len(),
    {
        reveal(MatchOffsetPair::spec_read);
        reveal(MatchOffsetPair::spec_write);
        if let Ok((match_value, at1)) = spec_read_i32(s, p) {
            if let Ok((offset, at2)) = spec_read_i32(s, at1) {
            }
        }
    }
}

impl MatchOffsetPair {
    /// Whether each element is well formed.
    #[verifier::opaque]
    pub open spec fn wf_seq(xs: Seq<MatchOffsetPair>) -> bool {
        forall|i: int| 0 <= i < xs.len() ==> (#[trigger] xs[i]).wf()
    }

    /// The elements one after the other, without a count.
    #[verifier::opaque]
    pub open spec fn spec_write_seq(xs: Seq<MatchOffsetPair>) -> Seq<u8>
        decreases xs.len(),
    {
        if xs.len() == 0 {
            Seq::empty()
        } else {
            Self::spec_write_seq(xs.drop_last()) + xs.last().spec_write()
        }
    }

    /// The `n` elements that start at `p`, read one after the other.
    #[verifier::opaque]
    pub open spec fn spec_read_seq(s: Seq<u8>, p: int, n: nat) -> Result<(Seq<MatchOffsetPair>, int), Error>
        decreases n,
    {
        if n == 0 {
            Ok((Seq::empty(), p))
        } else {
            match Self::spec_read_seq(s, p, (n - 1) as nat) {
                Err(e) => Err(e),
                Ok((xs, q)) => match Self::spec_read(s, q) {
                    Err(e) => Err(e),
                    Ok((x, q2)) => Ok((xs.push(x), q2)),
                },
            }
        }
    }

    /// Once a prefix fails to read, every longer sequence fails the same way.
    pub proof fn lemma_read_seq_err(s: Seq<u8>, p: int, k: nat, n: nat)
        requires
            k <= n,
            Self::spec_read_seq(s, p, k) is Err,
        ensures
            Self::spec_read_seq(s, p, n) == Self::spec_read_seq(s, p, k),
        decreases n,
    {
        reveal(MatchOffsetPair::spec_read_seq);
        if k < n {
            Self::lemma_read_seq_err(s, p, k, (n - 1) as nat);
        }
    }

    /// Reads `n` elements one after the other, the first of them at `pos`.
    pub fn read_seq(data: &[u8], pos: usize, n: usize) -> (r: Result<(Vec<MatchOffsetPair>, usize), Error>)
        ensures
            match Self::spec_read_seq(data@, pos as int, n as nat) {
                Ok((v, p)) => r matches Ok((rv, rp)) && rv@ == v && rp as int == p,
                Err(e) => r == Err::<(Vec<MatchOffsetPair>, usize), Error>(e),
            },
            advanced(r, data@, pos),
    {
        let mut out: Vec<MatchOffsetPair> = Vec::new();
        let mut cur = pos;
        let mut i: usize = 0;
        proof {
            reveal(MatchOffsetPair::spec_read_seq);
        }
        while i < n
            invariant
                i <= n,
                pos <= data@.len() ==> pos <= cur <= data@.len(),
                Self::spec_read_seq(data@, pos as int, i as nat) == Ok::<(Seq<MatchOffsetPair>, int), Error>((out@, cur as int)),
            decreases n - i,
        {
            proof {
                reveal(MatchOffsetPair::spec_read_seq);
            }
            match Self::read(data, cur) {
                Err(e) => {
                    proof {
                        Self::lemma_read_seq_err(data@, pos as int, (i + 1) as nat, n as nat);
                    }
                    return Err(e);
                },
                Ok((x, next)) => {
                    out.push(x);
                    cur = next;
                },
            }
            i += 1;
        }
        Ok((out, cur))
    }

    /// Appends the bytes of the elements, one after the other.
    pub fn write_seq(xs: &Vec<MatchOffsetPair>, out: &mut Vec<u8>)
        ensures
            final(out)@ == old(out)@ + Self::spec_write_seq(xs@),
    {
        let mut i: usize = 0;
        proof {
            reveal(MatchOffsetPair::spec_write_seq);
        }
        while i < xs.len()
            invariant
                i <= xs.len(),
                out@ == old(out)@ + Self::spec_write_seq(xs@.take(i as int)),
            decreases xs.len() - i,
        {
            proof {
                reveal(MatchOffsetPair::spec_write_seq);
                let t = xs@.take(i + 1);
                assert(t.drop_last() =~= xs@.take(i as int));
            }
            xs[i].write(out);
            proof {
                reveal(MatchOffsetPair::spec_write_seq);
                assert(out@ =~= old(out)@ + Self::spec_write_seq(xs@.take(i + 1)));
            }
            i += 1;
        }
        proof {
            assert(xs@.take(xs.len() as int) =~= xs@);
        }
    }

    /// Reading back the elements that `spec_write_seq` wrote yields them all.
    pub proof fn lemma_round_trip_seq(xs: Seq<MatchOffsetPair>, s: Seq<u8>, p: int)
        requires
            Self::wf_seq(xs),
            occurs_at(s, p, Self::spec_write_seq(xs)),
        ensures
            Self::spec_read_seq(s, p, xs.len()) == Ok::<(Seq<MatchOffsetPair>, int), Error>(
                (xs, p + Self::spec_write_seq(xs).len()),
            ),
        decreases xs.len(),
    {
        reveal(MatchOffsetPair::spec_read_seq);
        reveal(MatchOffsetPair::spec_write_seq);
        reveal(MatchOffsetPair::wf_seq);
        if xs.len() > 0 {
            let front = xs.drop_last();
            let w = Self::spec_write_seq(front);
            assert forall|i: int| 0 <= i < front.len() implies (#[trigger] front[i]).wf() by {
                assert(front[i] == xs[i]);
            }
            assert(xs.last() == xs[xs.len() - 1]);
            lemma_occurs_split(s, p, w, xs.last().spec_write());
            Self::lemma_round_trip_seq(front, s, p);
            Self::lemma_round_trip(xs.last(), s, p + w.len());
            assert(front.push(xs.last()) =~= xs);
        } else {
            assert(xs =~= Seq::<MatchOffsetPair>::empty());
        }
    }

    /// Elements that were read are as many as were asked for and well formed, and have
    /// as many bytes as were taken.
    pub proof fn lemma_read_seq_wf(s: Seq<u8>, p: int, n: nat)
        ensures
            Self::spec_read_seq(s, p, n) matches Ok((xs, q)) ==> xs.len() == n && Self::wf_seq(xs)
                && q == p + Self::spec_write_seq(xs).len() && (p <= s.len() ==> q <= s.len()),
        decreases n,
    {
        reveal(MatchOffsetPair::spec_read_seq);
        reveal(MatchOffsetPair::spec_write_seq);
        reveal(MatchOffsetPair::wf_seq);
        if n > 0 {
            Self::lemma_read_seq_wf(s, p, (n - 1) as nat);
            if let Ok((front, q)) = Self::spec_read_seq(s, p, (n - 1) as nat) {
                Self::lemma_read_wf(s, q);
                if let Ok((x, q2)) = Self::spec_read(s, q) {
                    let xs = front.push(x);
                    assert(xs.drop_last() =~= front);
                    assert(xs.last() == x);
                    assert forall|i: int| 0 <= i < xs.len() implies (#[trigger] xs[i]).wf() by {
                        if i < front.len() {
                            assert(xs[i] == front[i]);
                        }
                    }
                }
            }
        }
    }
}

/// One bytecode instruction with its operands.
#[derive(Debug, Clone, PartialEq, Eq)]
pub enum Instruction {
    AALoad,
    AAStore,
    AConstNull,
    ALoad { index: SizedIndex },
    ALoad0,
    ALoad1,
    ALoad2,
    ALoad3,
    ANewArray { index: WideIndex },
    AReturn,
    ArrayLength,
    AStore { index: SizedIndex },
    AStore0,
    AStore1,
    AStore2,
    AStore3,
    AThrow,
    BALoad,
    BAStore,
    BIPush { value: u8 },
    CALoad,
    CAStore,
    CheckCast { index: WideIndex },
    D2F,
    D2I,
    D2L,
    DAdd,
    DALoad,
    DAStore,
    DCmpG,
    DCmpL,
    DConst0,
    DConst1,
    DDiv,
    DLoad { index: SizedIndex },
    DLoad0,
    DLoad1,
    DLoad2,
    DLoad3,
    DMul,
    DNeg,
    DRem,
    DReturn,
    DStore { index: SizedIndex },
    DStore0,
    DStore1,
    DStore2,
    DStore3,
    DSub,
    Dup,
    DupX1,
    DupX2,
    Dup2,
    Dup2X1,
    Dup2X2,
    F2D,
    F2I,
    F2L,
    FAdd,
    FALoad,
    FAStore,
    FCmpPG,
    FCmpPL,
    FConst0,
    FConst1,
    FConst2,
    FDiv,
    FLoad { index: SizedIndex },
    FLoad0,
    FLoad1,
    FLoad2,
    FLoad3,
    FMul,
    FNeg,
    FRem,
    FReturn,
    FStore { index: SizedIndex },
    FStore0,
    FStore1,
    FStore2,
    FStore3,
    FSub,
    GetField { index: WideIndex },
    GetStatic { index: WideIndex },
    Goto { offset: u16 },
    GotoW { offset: u32 },
    I2B,
    I2C,
    I2D,
    I2F,
    I2L,
    I2S,
    IAdd,
    IALoad,
    IAnd,
    IAStore,
    IConstM1,
    IConst0,
    IConst1,
    IConst2,
    IConst3,
    IConst4,
    IConst5,
    IDiv,
    IfACmpEq { offset: u16 },
    IfACmpNe { offset: u16 },
    IfICmpEq { offset: u16 },
    IfICmpNe { offset: u16 },
    IfICmpLt { offset: u16 },
    IfICmpGe { offset: u16 },
    IfICmpGt { offset: u16 },
    IfICmpLe { offset: u16 },
    IfEq { offset: u16 },
    IfNe { offset: u16 },
    IfLt { offset: u16 },
    IfGe { offset: u16 },
    IfGt { offset: u16 },
    IfLe { offset: u16 },
    IfNonNull { offset: u16 },
    IfNull { offset: u16 },
    IInc { index: SizedIndex, value: SizedIndex },
    ILoad { index: SizedIndex },
    ILoad0,
    ILoad1,
    ILoad2,
    ILoad3,
    IMul,
    INeg,
    InstanceOf { index: WideIndex },
    InvokeDynamic { index: WideIndex, _zero0: AlwaysZero, _zero1: AlwaysZero },
    InvokeInterface { index: WideIndex, count: u8, _zero: AlwaysZero },
    InvokeSpecial { index: WideIndex },
    InvokeStatic { index: WideIndex },
    InvokeVirtual { index: WideIndex },
    IOr,
    IRem,
    IReturn,
    IShl,
    IShr,
    IStore { index: SizedIndex },
    IStore0,
    IStore1,
    IStore2,
    IStore3,
    ISub,
    IUShr,
    IXor,
    JSR { offset: u16 },
    JSRW { offset: u32 },
    L2D,
    L2F,
    L2I,
    LAdd,
    LALoad,
    LAnd,
    LAStore,
    LCmp,
    LConst0,
    LConst1,
    LDC { index: SmallIndex },
    LDCW { index: WideIndex },
    LDC2W { index: WideIndex },
    LDiv,
    LLoad { index: SizedIndex },
    LLoad0,
    LLoad1,
    LLoad2,
    LLoad3,
    LMul,
    LNeg,
    LookUpSwitch { default: i32, pairs: Vec<MatchOffsetPair> },
    LOr,
    LRem,
    LReturn,
    LShl,
    LShr,
    LStore { index: SizedIndex },
    LStore0,
    LStore1,
    LStore2,
    LStore3,
    LSub,
    LUShr,
    LXor,
    MonitorEnter,
    MonitorExit,
    MultiANewArray { index: WideIndex, dimensions: u8 },
    New { index: WideIndex },
    NewArray { ty: ArrayType },
    Nop,
    Pop,
    Pop2,
    PutField { index: WideIndex },
    PutStatic { index: WideIndex },
    Ret { index: SizedIndex },
    Return,
    SALoad,
    SAStore,
    SIPush { value: i16 },
    Swap,
    TableSwitch { default: i32, low: i32, high: i32, offsets: Vec<i32> },
    Wide,
}

/// How the operands of an instruction are laid out behind its opcode.
#[derive(Debug, Copy, Clone, PartialEq, Eq)]
pub enum Layout {
    /// No operand.
    Plain,
    /// The index of a local variable, one byte or, behind `Wide`, two.
    Local,
    /// A local variable and a constant, each one byte or, behind `Wide`, two.
    Increment,
    /// A two-byte reference into the constant pool.
    Pool16,
    /// A one-byte reference into the constant pool.
    Pool8,
    /// One literal byte.
    Byte,
    /// One signed 16-bit literal.
    Short,
    /// A 16-bit branch offset.
    Branch16,
    /// A 32-bit branch offset.
    Branch32,
    /// A call site reference and two zero bytes.
    InvokeDynamic,
    /// A method reference, a count and a zero byte.
    InvokeInterface,
    /// A class reference and a number of dimensions.
    MultiANewArray,
    /// The code of a primitive element type.
    NewArray,
    /// Padding, default, low, high and the jump table.
    TableSwitch,
    /// Padding, default and the counted match-offset pairs.
    LookUpSwitch,
    /// The byte names no instruction.
    Unknown,
}

impl Instruction {
    /// The byte that names the instruction.
    pub open spec fn spec_opcode(self) -> u8 {
        match self {
            Instruction::AALoad => 0x32,
            Instruction::AAStore => 0x53,
            Instruction::AConstNull => 0x01,
            Instruction::ALoad { .. } => 0x19,
            Instruction::ALoad0 => 0x2A,
            Instruction::ALoad1 => 0x2B,
            Instruction::ALoad2 => 0x2C,
            Instruction::ALoad3 => 0x2D,
            Instruction::ANewArray { .. } => 0xBD,
            Instruction::AReturn => 0xB0,
            Instruction::ArrayLength => 0xBE,
            Instruction::AStore { .. } => 0x3A,
            Instruction::AStore0 => 0x4B,
            Instruction::AStore1 => 0x4C,
            Instruction::AStore2 => 0x4D,
            Instruction::AStore3 => 0x4E,
            Instruction::AThrow => 0xBF,
            Instruction::BALoad => 0x33,
            Instruction::BAStore => 0x54,
            Instruction::BIPush { .. } => 0x10,
            Instruction::CALoad => 0x34,
            Instruction::CAStore => 0x55,
            Instruction::CheckCast { .. } => 0xC0,
            Instruction::D2F => 0x90,
            Instruction::D2I => 0x8E,
            Instruction::D2L => 0x8F,
            Instruction::DAdd => 0x63,
            Instruction::DALoad => 0x31,
            Instruction::DAStore => 0x52,
            Instruction::DCmpG => 0x98,
            Instruction::DCmpL => 0x97,
            Instruction::DConst0 => 0x0E,
            Instruction::DConst1 => 0x0F,
            Instruction::DDiv => 0x6F,
            Instruction::DLoad { .. } => 0x18,
            Instruction::DLoad0 => 0x26,
            Instruction::DLoad1 => 0x27,
            Instruction::DLoad2 => 0x28,
            Instruction::DLoad3 => 0x29,
            Instruction::DMul => 0x6B,
            Instruction::DNeg => 0x77,
            Instruction::DRem => 0x73,
            Instruction::DReturn => 0xAF,
            Instruction::DStore { .. } => 0x39,
            Instruction::DStore0 => 0x47,
            Instruction::DStore1 => 0x48,
            Instruction::DStore2 => 0x49,
            Instruction::DStore3 => 0x4A,
            Instruction::DSub => 0x67,
            Instruction::Dup => 0x59,
            Instruction::DupX1 => 0x5A,
            Instruction::DupX2 => 0x5B,
            Instruction::Dup2 => 0x5C,
            Instruction::Dup2X1 => 0x5D,
            Instruction::Dup2X2 => 0x5E,
            Instruction::F2D => 0x8D,
            Instruction::F2I => 0x8B,
            Instruction::F2L => 0x8C,
            Instruction::FAdd => 0x62,
            Instruction::FALoad => 0x30,
            Instruction::FAStore => 0x51,
            Instruction::FCmpPG => 0x96,
            Instruction::FCmpPL => 0x95,
            Instruction::FConst0 => 0x0B,
            Instruction::FConst1 => 0x0C,
            Instruction::FConst2 => 0x0D,
            Instruction::FDiv => 0x6E,
            Instruction::FLoad { .. } => 0x17,
            Instruction::FLoad0 => 0x22,
            Instruction::FLoad1 => 0x23,
            Instruction::FLoad2 => 0x24,
            Instruction::FLoad3 => 0x25,
            Instruction::FMul => 0x6A,
            Instruction::FNeg => 0x76,
            Instruction::FRem => 0x72,
            Instruction::FReturn => 0xAE,
            Instruction::FStore { .. } => 0x38,
            Instruction::FStore0 => 0x43,
            Instruction::FStore1 => 0x44,
            Instruction::FStore2 => 0x45,
            Instruction::FStore3 => 0x46,
            Instruction::FSub => 0x66,
            Instruction::GetField { .. } => 0xB4,
            Instruction::GetStatic { .. } => 0xB2,
            Instruction::Goto { .. } => 0xA7,
            Instruction::GotoW { .. } => 0xC8,
            Instruction::I2B => 0x91,
            Instruction::I2C => 0x92,
            Instruction::I2D => 0x87,
            Instruction::I2F => 0x86,
            Instruction::I2L => 0x85,
            Instruction::I2S => 0x93,
            Instruction::IAdd => 0x60,
            Instruction::IALoad => 0x2E,
            Instruction::IAnd => 0x7E,
            Instruction::IAStore => 0x4F,
            Instruction::IConstM1 => 0x02,
            Instruction::IConst0 => 0x03,
            Instruction::IConst1 => 0x04,
            Instruction::IConst2 => 0x05,
            Instruction::IConst3 => 0x06,
            Instruction::IConst4 => 0x07,
            Instruction::IConst5 => 0x08,
            Instruction::IDiv => 0x6C,
            Instruction::IfACmpEq { .. } => 0xA5,
            Instruction::IfACmpNe { .. } => 0xA6,
            Instruction::IfICmpEq { .. } => 0x9F,
            Instruction::IfICmpNe { .. } => 0xA0,
            Instruction::IfICmpLt { .. } => 0xA1,
            Instruction::IfICmpGe { .. } => 0xA2,
            Instruction::IfICmpGt { .. } => 0xA3,
            Instruction::IfICmpLe { .. } => 0xA4,
            Instruction::IfEq { .. } => 0x99,
            Instruction::IfNe { .. } => 0x9A,
            Instruction::IfLt { .. } => 0x9B,
            Instruction::IfGe { .. } => 0x9C,
            Instruction::IfGt { .. } => 0x9D,
            Instruction::IfLe { .. } => 0x9E,
            Instruction::IfNonNull { .. } => 0xC7,
            Instruction::IfNull { .. } => 0xC6,
            Instruction::IInc { .. } => 0x84,
            Instruction::ILoad { .. } => 0x15,
            Instruction::ILoad0 => 0x1A,
            Instruction::ILoad1 => 0x1B,
            Instruction::ILoad2 => 0x1C,
            Instruction::ILoad3 => 0x1D,
            Instruction::IMul => 0x68,
            Instruction::INeg => 0x74,
            Instruction::InstanceOf { .. } => 0xC1,
            Instruction::InvokeDynamic { .. } => 0xBA,
            Instruction::InvokeInterface { .. } => 0xB9,
            Instruction::InvokeSpecial { .. } => 0xB7,
            Instruction::InvokeStatic { .. } => 0xB8,
            Instruction::InvokeVirtual { .. } => 0xB6,
            Instruction::IOr => 0x80,
            Instruction::IRem => 0x70,
            Instruction::IReturn => 0xAC,
            Instruction::IShl => 0x78,
            Instruction::IShr => 0x7A,
            Instruction::IStore { .. } => 0x36,
            Instruction::IStore0 => 0x3B,
            Instruction::IStore1 => 0x3C,
            Instruction::IStore2 => 0x3D,
            Instruction::IStore3 => 0x3E,
            Instruction::ISub => 0x64,
            Instruction::IUShr => 0x7C,
            Instruction::IXor => 0x82,
            Instruction::JSR { .. } => 0xA8,
            Instruction::JSRW { .. } => 0xC9,
            Instruction::L2D => 0x8A,
            Instruction::L2F => 0x89,
            Instruction::L2I => 0x88,
            Instruction::LAdd => 0x61,
            Instruction::LALoad => 0x2F,
            Instruction::LAnd => 0x7F,
            Instruction::LAStore => 0x50,
            Instruction::LCmp => 0x94,
            Instruction::LConst0 => 0x09,
            Instruction::LConst1 => 0x0A,
            Instruction::LDC { .. } => 0x12,
            Instruction::LDCW { .. } => 0x13,
            Instruction::LDC2W { .. } => 0x14,
            Instruction::LDiv => 0x6D,
            Instruction::LLoad { .. } => 0x16,
            Instruction::LLoad0 => 0x1E,
            Instruction::LLoad1 => 0x1F,
            Instruction::LLoad2 => 0x20,
            Instruction::LLoad3 => 0x21,
            Instruction::LMul => 0x69,
            Instruction::LNeg => 0x75,
            Instruction::LookUpSwitch { .. } => 0xAB,
            Instruction::LOr => 0x81,
            Instruction::LRem => 0x71,
            Instruction::LReturn => 0xAD,
            Instruction::LShl => 0x79,
            Instruction::LShr => 0x7B,
            Instruction::LStore { .. } => 0x37,
            Instruction::LStore0 => 0x3F,
            Instruction::LStore1 => 0x40,
            Instruction::LStore2 => 0x41,
            Instruction::LStore3 => 0x42,
            Instruction::LSub => 0x65,
            Instruction::LUShr => 0x7D,
            Instruction::LXor => 0x83,
            Instruction::MonitorEnter => 0xC2,
            Instruction::MonitorExit => 0xC3,
            Instruction::MultiANewArray { .. } => 0xC5,
            Instruction::New { .. } => 0xBB,
            Instruction::NewArray { .. } => 0xBC,
            Instruction::Nop => 0x00,
            Instruction::Pop => 0x57,
            Instruction::Pop2 => 0x58,
            Instruction::PutField { .. } => 0xB5,
            Instruction::PutStatic { .. } => 0xB3,
            Instruction::Ret { .. } => 0xA9,
            Instruction::Return => 0xB1,
            Instruction::SALoad => 0x35,
            Instruction::SAStore => 0x56,
            Instruction::SIPush { .. } => 0x11,
            Instruction::Swap => 0x5F,
            Instruction::TableSwitch { .. } => 0xAA,
            Instruction::Wide => 0xC4,
        }
    }

    /// How the operands of the instruction are laid out.
    pub open spec fn spec_layout(self) -> Layout {
        match self {
            Instruction::AALoad => Layout::Plain,
            Instruction::AAStore => Layout::Plain,
            Instruction::AConstNull => Layout::Plain,
            Instruction::ALoad { .. } => Layout::Local,
            Instruction::ALoad0 => Layout::Plain,
            Instruction::ALoad1 => Layout::Plain,
            Instruction::ALoad2 => Layout::Plain,
            Instruction::ALoad3 => Layout::Plain,
            Instruction::ANewArray { .. } => Layout::Pool16,
            Instruction::AReturn => Layout::Plain,
            Instruction::ArrayLength => Layout::Plain,
            Instruction::AStore { .. } => Layout::Local,
            Instruction::AStore0 => Layout::Plain,
            Instruction::AStore1 => Layout::Plain,
            Instruction::AStore2 => Layout::Plain,
            Instruction::AStore3 => Layout::Plain,
            Instruction::AThrow => Layout::Plain,
            Instruction::BALoad => Layout::Plain,
            Instruction::BAStore => Layout::Plain,
            Instruction::BIPush { .. } => Layout::Byte,
            Instruction::CALoad => Layout::Plain,
            Instruction::CAStore => Layout::Plain,
            Instruction::CheckCast { .. } => Layout::Pool16,
            Instruction::D2F => Layout::Plain,
            Instruction::D2I => Layout::Plain,
            Instruction::D2L => Layout::Plain,
            Instruction::DAdd => Layout::Plain,
            Instruction::DALoad => Layout::Plain,
            Instruction::DAStore => Layout::Plain,
            Instruction::DCmpG => Layout::Plain,
            Instruction::DCmpL => Layout::Plain,
            Instruction::DConst0 => Layout::Plain,
            Instruction::DConst1 => Layout::Plain,
            Instruction::DDiv => Layout::Plain,
            Instruction::DLoad { .. } => Layout::Local,
            Instruction::DLoad0 => Layout::Plain,
            Instruction::DLoad1 => Layout::Plain,
            Instruction::DLoad2 => Layout::Plain,
            Instruction::DLoad3 => Layout::Plain,
            Instruction::DMul => Layout::Plain,
            Instruction::DNeg => Layout::Plain,
            Instruction::DRem => Layout::Plain,
            Instruction::DReturn => Layout::Plain,
            Instruction::DStore { .. } => Layout::Local,
            Instruction::DStore0 => Layout::Plain,
            Instruction::DStore1 => Layout::Plain,
            Instruction::DStore2 => Layout::Plain,
            Instruction::DStore3 => Layout::Plain,
            Instruction::DSub => Layout::Plain,
            Instruction::Dup => Layout::Plain,
            Instruction::DupX1 => Layout::Plain,
            Instruction::DupX2 => Layout::Plain,
            Instruction::Dup2 => Layout::Plain,
            Instruction::Dup2X1 => Layout::Plain,
            Instruction::Dup2X2 => Layout::Plain,
            Instruction::F2D => Layout::Plain,
            Instruction::F2I => Layout::Plain,
            Instruction::F2L => Layout::Plain,
            Instruction::FAdd => Layout::Plain,
            Instruction::FALoad => Layout::Plain,
            Instruction::FAStore => Layout::Plain,
            Instruction::FCmpPG => Layout::Plain,
            Instruction::FCmpPL => Layout::Plain,
            Instruction::FConst0 => Layout::Plain,
            Instruction::FConst1 => Layout::Plain,
            Instruction::FConst2 => Layout::Plain,
            Instruction::FDiv => Layout::Plain,
            Instruction::FLoad { .. } => Layout::Local,
            Instruction::FLoad0 => Layout::Plain,
            Instruction::FLoad1 => Layout::Plain,
            Instruction::FLoad2 => Layout::Plain,
            Instruction::FLoad3 => Layout::Plain,
            Instruction::FMul => Layout::Plain,
            Instruction::FNeg => Layout::Plain,
            Instruction::FRem => Layout::Plain,
            Instruction::FReturn => Layout::Plain,
            Instruction::FStore { .. } => Layout::Local,
            Instruction::FStore0 => Layout::Plain,
            Instruction::FStore1 => Layout::Plain,
            Instruction::FStore2 => Layout::Plain,
            Instruction::FStore3 => Layout::Plain,
            Instruction::FSub => Layout::Plain,
            Instruction::GetField { .. } => Layout::Pool16,
            Instruction::GetStatic { .. } => Layout::Pool16,
            Instruction::Goto { .. } => Layout::Branch16,
            Instruction::GotoW { .. } => Layout::Branch32,
            Instruction::I2B => Layout::Plain,
            Instruction::I2C => Layout::Plain,
            Instruction::I2D => Layout::Plain,
            Instruction::I2F => Layout::Plain,
            Instruction::I2L => Layout::Plain,
            Instruction::I2S => Layout::Plain,
            Instruction::IAdd => Layout::Plain,
            Instruction::IALoad => Layout::Plain,
            Instruction::IAnd => Layout::Plain,
            Instruction::IAStore => Layout::Plain,
            Instruction::IConstM1 => Layout::Plain,
            Instruction::IConst0 => Layout::Plain,
            Instruction::IConst1 => Layout::Plain,
            Instruction::IConst2 => Layout::Plain,
            Instruction::IConst3 => Layout::Plain,
            Instruction::IConst4 => Layout::Plain,
            Instruction::IConst5 => Layout::Plain,
            Instruction::IDiv => Layout::Plain,
            Instruction::IfACmpEq { .. } => Layout::Branch16,
            Instruction::IfACmpNe { .. } => Layout::Branch16,
            Instruction::IfICmpEq { .. } => Layout::Branch16,
            Instruction::IfICmpNe { .. } => Layout::Branch16,
            Instruction::IfICmpLt { .. } => Layout::Branch16,
            Instruction::IfICmpGe { .. } => Layout::Branch16,
            Instruction::IfICmpGt { .. } => Layout::Branch16,
            Instruction::IfICmpLe { .. } => Layout::Branch16,
            Instruction::IfEq { .. } => Layout::Branch16,
            Instruction::IfNe { .. } => Layout::Branch16,
            Instruction::IfLt { .. } => Layout::Branch16,
            Instruction::IfGe { .. } => Layout::Branch16,
            Instruction::IfGt { .. } => Layout::Branch16,
            Instruction::IfLe { .. } => Layout::Branch16,
            Instruction::IfNonNull { .. } => Layout::Branch16,
            Instruction::IfNull { .. } => Layout::Branch16,
            Instruction::IInc { .. } => Layout::Increment,
            Instruction::ILoad { .. } => Layout::Local,
            Instruction::ILoad0 => Layout::Plain,
            Instruction::ILoad1 => Layout::Plain,
            Instruction::ILoad2 => Layout::Plain,
            Instruction::ILoad3 => Layout::Plain,
            Instruction::IMul => Layout::Plain,
            Instruction::INeg => Layout::Plain,
            Instruction::InstanceOf { .. } => Layout::Pool16,
            Instruction::InvokeDynamic { .. } => Layout::InvokeDynamic,
            Instruction::InvokeInterface { .. } => Layout::InvokeInterface,
            Instruction::InvokeSpecial { .. } => Layout::Pool16,
            Instruction::InvokeStatic { .. } => Layout::Pool16,
            Instruction::InvokeVirtual { .. } => Layout::Pool16,
            Instruction::IOr => Layout::Plain,
            Instruction::IRem => Layout::Plain,
            Instruction::IReturn => Layout::Plain,
            Instruction::IShl => Layout::Plain,
            Instruction::IShr => Layout::Plain,
            Instruction::IStore { .. } => Layout::Local,
            Instruction::IStore0 => Layout::Plain,
            Instruction::IStore1 => Layout::Plain,
            Instruction::IStore2 => Layout::Plain,
            Instruction::IStore3 => Layout::Plain,
            Instruction::ISub => Layout::Plain,
            Instruction::IUShr => Layout::Plain,
            Instruction::IXor => Layout::Plain,
            Instruction::JSR { .. } => Layout::Branch16,
            Instruction::JSRW { .. } => Layout::Branch32,
            Instruction::L2D => Layout::Plain,
            Instruction::L2F => Layout::Plain,
            Instruction::L2I => Layout::Plain,
            Instruction::LAdd => Layout::Plain,
            Instruction::LALoad => Layout::Plain,
            Instruction::LAnd => Layout::Plain,
            Instruction::LAStore => Layout::Plain,
            Instruction::LCmp => Layout::Plain,
            Instruction::LConst0 => Layout::Plain,
            Instruction::LConst1 => Layout::Plain,
            Instruction::LDC { .. } => Layout::Pool8,
            Instruction::LDCW { .. } => Layout::Pool16,
            Instruction::LDC2W { .. } => Layout::Pool16,
            Instruction::LDiv => Layout::Plain,
            Instruction::LLoad { .. } => Layout::Local,
            Instruction::LLoad0 => Layout::Plain,
            Instruction::LLoad1 => Layout::Plain,
            Instruction::LLoad2 => Layout::Plain,
            Instruction::LLoad3 => Layout::Plain,
            Instruction::LMul => Layout::Plain,
            Instruction::LNeg => Layout::Plain,
            Instruction::LookUpSwitch { .. } => Layout::LookUpSwitch,
            Instruction::LOr => Layout::Plain,
            Instruction::LRem => Layout::Plain,
            Instruction::LReturn => Layout::Plain,
            Instruction::LShl => Layout::Plain,
            Instruction::LShr => Layout::Plain,
            Instruction::LStore { .. } => Layout::Local,
            Instruction::LStore0 => Layout::Plain,
            Instruction::LStore1 => Layout::Plain,
            Instruction::LStore2 => Layout::Plain,
            Instruction::LStore3 => Layout::Plain,
            Instruction::LSub => Layout::Plain,
            Instruction::LUShr => Layout::Plain,
            Instruction::LXor => Layout::Plain,
            Instruction::MonitorEnter => Layout::Plain,
            Instruction::MonitorExit => Layout::Plain,
            Instruction::MultiANewArray { .. } => Layout::MultiANewArray,
            Instruction::New { .. } => Layout::Pool16,
            Instruction::NewArray { .. } => Layout::NewArray,
            Instruction::Nop => Layout::Plain,
            Instruction::Pop => Layout::Plain,
            Instruction::Pop2 => Layout::Plain,
            Instruction::PutField { .. } => Layout::Pool16,
            Instruction::PutStatic { .. } => Layout::Pool16,
            Instruction::Ret { .. } => Layout::Local,
            Instruction::Return => Layout::Plain,
            Instruction::SALoad => Layout::Plain,
            Instruction::SAStore => Layout::Plain,
            Instruction::SIPush { .. } => Layout::Short,
            Instruction::Swap => Layout::Plain,
            Instruction::TableSwitch { .. } => Layout::TableSwitch,
            Instruction::Wide => Layout::Plain,
        }
    }

    /// The byte that names the instruction.
    pub fn opcode(&self) -> (r: u8)
        ensures
            r == self.spec_opcode(),
    {
        match self {
            Instruction::AALoad => 0x32,
            Instruction::AAStore => 0x53,
            Instruction::AConstNull => 0x01,
            Instruction::ALoad { .. } => 0x19,
            Instruction::ALoad0 => 0x2A,
            Instruction::ALoad1 => 0x2B,
            Instruction::ALoad2 => 0x2C,
            Instruction::ALoad3 => 0x2D,
            Instruction::ANewArray { .. } => 0xBD,
            Instruction::AReturn => 0xB0,
            Instruction::ArrayLength => 0xBE,
            Instruction::AStore { .. } => 0x3A,
            Instruction::AStore0 => 0x4B,
            Instruction::AStore1 => 0x4C,
            Instruction::AStore2 => 0x4D,
            Instruction::AStore3 => 0x4E,
            Instruction::AThrow => 0xBF,
            Instruction::BALoad => 0x33,
            Instruction::BAStore => 0x54,
            Instruction::BIPush { .. } => 0x10,
            Instruction::CALoad => 0x34,
            Instruction::CAStore => 0x55,
            Instruction::CheckCast { .. } => 0xC0,
            Instruction::D2F => 0x90,
            Instruction::D2I => 0x8E,
            Instruction::D2L => 0x8F,
            Instruction::DAdd => 0x63,
            Instruction::DALoad => 0x31,
            Instruction::DAStore => 0x52,
            Instruction::DCmpG => 0x98,
            Instruction::DCmpL => 0x97,
            Instruction::DConst0 => 0x0E,
            Instruction::DConst1 => 0x0F,
            Instruction::DDiv => 0x6F,
            Instruction::DLoad { .. } => 0x18,
            Instruction::DLoad0 => 0x26,
            Instruction::DLoad1 => 0x27,
            Instruction::DLoad2 => 0x28,
            Instruction::DLoad3 => 0x29,
            Instruction::DMul => 0x6B,
            Instruction::DNeg => 0x77,
            Instruction::DRem => 0x73,
            Instruction::DReturn => 0xAF,
            Instruction::DStore { .. } => 0x39,
            Instruction::DStore0 => 0x47,
            Instruction::DStore1 => 0x48,
            Instruction::DStore2 => 0x49,
            Instruction::DStore3 => 0x4A,
            Instruction::DSub => 0x67,
            Instruction::Dup => 0x59,
            Instruction::DupX1 => 0x5A,
            Instruction::DupX2 => 0x5B,
            Instruction::Dup2 => 0x5C,
            Instruction::Dup2X1 => 0x5D,
            Instruction::Dup2X2 => 0x5E,
            Instruction::F2D => 0x8D,
            Instruction::F2I => 0x8B,
            Instruction::F2L => 0x8C,
            Instruction::FAdd => 0x62,
            Instruction::FALoad => 0x30,
            Instruction::FAStore => 0x51,
            Instruction::FCmpPG => 0x96,
            Instruction::FCmpPL => 0x95,
            Instruction::FConst0 => 0x0B,
            Instruction::FConst1 => 0x0C,
            Instruction::FConst2 => 0x0D,
            Instruction::FDiv => 0x6E,
            Instruction::FLoad { .. } => 0x17,
            Instruction::FLoad0 => 0x22,
            Instruction::FLoad1 => 0x23,
            Instruction::FLoad2 => 0x24,
            Instruction::FLoad3 => 0x25,
            Instruction::FMul => 0x6A,
            Instruction::FNeg => 0x76,
            Instruction::FRem => 0x72,
            Instruction::FReturn => 0xAE,
            Instruction::FStore { .. } => 0x38,
            Instruction::FStore0 => 0x43,
            Instruction::FStore1 => 0x44,
            Instruction::FStore2 => 0x45,
            Instruction::FStore3 => 0x46,
            Instruction::FSub => 0x66,
            Instruction::GetField { .. } => 0xB4,
            Instruction::GetStatic { .. } => 0xB2,
            Instruction::Goto { .. } => 0xA7,
            Instruction::GotoW { .. } => 0xC8,
            Instruction::I2B => 0x91,
            Instruction::I2C => 0x92,
            Instruction::I2D => 0x87,
            Instruction::I2F => 0x86,
            Instruction::I2L => 0x85,
            Instruction::I2S => 0x93,
            Instruction::IAdd => 0x60,
            Instruction::IALoad => 0x2E,
            Instruction::IAnd => 0x7E,
            Instruction::IAStore => 0x4F,
            Instruction::IConstM1 => 0x02,
            Instruction::IConst0 => 0x03,
            Instruction::IConst1 => 0x04,
            Instruction::IConst2 => 0x05,
            Instruction::IConst3 => 0x06,
            Instruction::IConst4 => 0x07,
            Instruction::IConst5 => 0x08,
            Instruction::IDiv => 0x6C,
            Instruction::IfACmpEq { .. } => 0xA5,
            Instruction::IfACmpNe { .. } => 0xA6,
            Instruction::IfICmpEq { .. } => 0x9F,
            Instruction::IfICmpNe { .. } => 0xA0,
            Instruction::IfICmpLt { .. } => 0xA1,
            Instruction::IfICmpGe { .. } => 0xA2,
            Instruction::IfICmpGt { .. } => 0xA3,
            Instruction::IfICmpLe { .. } => 0xA4,
            Instruction::IfEq { .. } => 0x99,
            Instruction::IfNe { .. } => 0x9A,
            Instruction::IfLt { .. } => 0x9B,
            Instruction::IfGe { .. } => 0x9C,
            Instruction::IfGt { .. } => 0x9D,
            Instruction::IfLe { .. } => 0x9E,
            Instruction::IfNonNull { .. } => 0xC7,
            Instruction::IfNull { .. } => 0xC6,
            Instruction::IInc { .. } => 0x84,
            Instruction::ILoad { .. } => 0x15,
            Instruction::ILoad0 => 0x1A,
            Instruction::ILoad1 => 0x1B,
            Instruction::ILoad2 => 0x1C,
            Instruction::ILoad3 => 0x1D,
            Instruction::IMul => 0x68,
            Instruction::INeg => 0x74,
            Instruction::InstanceOf { .. } => 0xC1,
            Instruction::InvokeDynamic { .. } => 0xBA,
            Instruction::InvokeInterface { .. } => 0xB9,
            Instruction::InvokeSpecial { .. } => 0xB7,
            Instruction::InvokeStatic { .. } => 0xB8,
            Instruction::InvokeVirtual { .. } => 0xB6,
            Instruction::IOr => 0x80,
            Instruction::IRem => 0x70,
            Instruction::IReturn => 0xAC,
            Instruction::IShl => 0x78,
            Instruction::IShr => 0x7A,
            Instruction::IStore { .. } => 0x36,
            Instruction::IStore0 => 0x3B,
            Instruction::IStore1 => 0x3C,
            Instruction::IStore2 => 0x3D,
            Instruction::IStore3 => 0x3E,
            Instruction::ISub => 0x64,
            Instruction::IUShr => 0x7C,
            Instruction::IXor => 0x82,
            Instruction::JSR { .. } => 0xA8,
            Instruction::JSRW { .. } => 0xC9,
            Instruction::L2D => 0x8A,
            Instruction::L2F => 0x89,
            Instruction::L2I => 0x88,
            Instruction::LAdd => 0x61,
            Instruction::LALoad => 0x2F,
            Instruction::LAnd => 0x7F,
            Instruction::LAStore => 0x50,
            Instruction::LCmp => 0x94,
            Instruction::LConst0 => 0x09,
            Instruction::LConst1 => 0x0A,
            Instruction::LDC { .. } => 0x12,
            Instruction::LDCW { .. } => 0x13,
            Instruction::LDC2W { .. } => 0x14,
            Instruction::LDiv => 0x6D,
            Instruction::LLoad { .. } => 0x16,
            Instruction::LLoad0 => 0x1E,
            Instruction::LLoad1 => 0x1F,
            Instruction::LLoad2 => 0x20,
            Instruction::LLoad3 => 0x21,
            Instruction::LMul => 0x69,
            Instruction::LNeg => 0x75,
            Instruction::LookUpSwitch { .. } => 0xAB,
            Instruction::LOr => 0x81,
            Instruction::LRem => 0x71,
            Instruction::LReturn => 0xAD,
            Instruction::LShl => 0x79,
            Instruction::LShr => 0x7B,
            Instruction::LStore { .. } => 0x37,
            Instruction::LStore0 => 0x3F,
            Instruction::LStore1 => 0x40,
            Instruction::LStore2 => 0x41,
            Instruction::LStore3 => 0x42,
            Instruction::LSub => 0x65,
            Instruction::LUShr => 0x7D,
            Instruction::LXor => 0x83,
            Instruction::MonitorEnter => 0xC2,
            Instruction::MonitorExit => 0xC3,
            Instruction::MultiANewArray { .. } => 0xC5,
            Instruction::New { .. } => 0xBB,
            Instruction::NewArray { .. } => 0xBC,
            Instruction::Nop => 0x00,
            Instruction::Pop => 0x57,
            Instruction::Pop2 => 0x58,
            Instruction::PutField { .. } => 0xB5,
            Instruction::PutStatic { .. } => 0xB3,
            Instruction::Ret { .. } => 0xA9,
            Instruction::Return => 0xB1,
            Instruction::SALoad => 0x35,
            Instruction::SAStore => 0x56,
            Instruction::SIPush { .. } => 0x11,
            Instruction::Swap => 0x5F,
            Instruction::TableSwitch { .. } => 0xAA,
            Instruction::Wide => 0xC4,
        }
    }

    /// How the operands of the instruction are laid out.
    pub fn layout(&self) -> (r: Layout)
        ensures
            r == self.spec_layout(),
    {
        match self {
            Instruction::AALoad => Layout::Plain,
            Instruction::AAStore => Layout::Plain,
            Instruction::AConstNull => Layout::Plain,
            Instruction::ALoad { .. } => Layout::Local,
            Instruction::ALoad0 => Layout::Plain,
            Instruction::ALoad1 => Layout::Plain,
            Instruction::ALoad2 => Layout::Plain,
            Instruction::ALoad3 => Layout::Plain,
            Instruction::ANewArray { .. } => Layout::Pool16,
            Instruction::AReturn => Layout::Plain,
            Instruction::ArrayLength => Layout::Plain,
            Instruction::AStore { .. } => Layout::Local,
            Instruction::AStore0 => Layout::Plain,
            Instruction::AStore1 => Layout::Plain,
            Instruction::AStore2 => Layout::Plain,
            Instruction::AStore3 => Layout::Plain,
            Instruction::AThrow => Layout::Plain,
            Instruction::BALoad => Layout::Plain,
            Instruction::BAStore => Layout::Plain,
            Instruction::BIPush { .. } => Layout::Byte,
            Instruction::CALoad => Layout::Plain,
            Instruction::CAStore => Layout::Plain,
            Instruction::CheckCast { .. } => Layout::Pool16,
            Instruction::D2F => Layout::Plain,
            Instruction::D2I => Layout::Plain,
            Instruction::D2L => Layout::Plain,
            Instruction::DAdd => Layout::Plain,
            Instruction::DALoad => Layout::Plain,
            Instruction::DAStore => Layout::Plain,
            Instruction::DCmpG => Layout::Plain,
            Instruction::DCmpL => Layout::Plain,
            Instruction::DConst0 => Layout::Plain,
            Instruction::DConst1 => Layout::Plain,
            Instruction::DDiv => Layout::Plain,
            Instruction::DLoad { .. } => Layout::Local,
            Instruction::DLoad0 => Layout::Plain,
            Instruction::DLoad1 => Layout::Plain,
            Instruction::DLoad2 => Layout::Plain,
            Instruction::DLoad3 => Layout::Plain,
            Instruction::DMul => Layout::Plain,
            Instruction::DNeg => Layout::Plain,
            Instruction::DRem => Layout::Plain,
            Instruction::DReturn => Layout::Plain,
            Instruction::DStore { .. } => Layout::Local,
            Instruction::DStore0 => Layout::Plain,
            Instruction::DStore1 => Layout::Plain,
            Instruction::DStore2 => Layout::Plain,
            Instruction::DStore3 => Layout::Plain,
            Instruction::DSub => Layout::Plain,
            Instruction::Dup => Layout::Plain,
            Instruction::DupX1 => Layout::Plain,
            Instruction::DupX2 => Layout::Plain,
            Instruction::Dup2 => Layout::Plain,
            Instruction::Dup2X1 => Layout::Plain,
            Instruction::Dup2X2 => Layout::Plain,
            Instruction::F2D => Layout::Plain,
            Instruction::F2I => Layout::Plain,
            Instruction::F2L => Layout::Plain,
            Instruction::FAdd => Layout::Plain,
            Instruction::FALoad => Layout::Plain,
            Instruction::FAStore => Layout::Plain,
            Instruction::FCmpPG => Layout::Plain,
            Instruction::FCmpPL => Layout::Plain,
            Instruction::FConst0 => Layout::Plain,
            Instruction::FConst1 => Layout::Plain,
            Instruction::FConst2 => Layout::Plain,
            Instruction::FDiv => Layout::Plain,
            Instruction::FLoad { .. } => Layout::Local,
            Instruction::FLoad0 => Layout::Plain,
            Instruction::FLoad1 => Layout::Plain,
            Instruction::FLoad2 => Layout::Plain,
            Instruction::FLoad3 => Layout::Plain,
            Instruction::FMul => Layout::Plain,
            Instruction::FNeg => Layout::Plain,
            Instruction::FRem => Layout::Plain,
            Instruction::FReturn => Layout::Plain,
            Instruction::FStore { .. } => Layout::Local,
            Instruction::FStore0 => Layout::Plain,
            Instruction::FStore1 => Layout::Plain,
            Instruction::FStore2 => Layout::Plain,
            Instruction::FStore3 => Layout::Plain,
            Instruction::FSub => Layout::Plain,
            Instruction::GetField { .. } => Layout::Pool16,
            Instruction::GetStatic { .. } => Layout::Pool16,
            Instruction::Goto { .. } => Layout::Branch16,
            Instruction::GotoW { .. } => Layout::Branch32,
            Instruction::I2B => Layout::Plain,
            Instruction::I2C => Layout::Plain,
            Instruction::I2D => Layout::Plain,
            Instruction::I2F => Layout::Plain,
            Instruction::I2L => Layout::Plain,
            Instruction::I2S => Layout::Plain,
            Instruction::IAdd => Layout::Plain,
            Instruction::IALoad => Layout::Plain,
            Instruction::IAnd => Layout::Plain,
            Instruction::IAStore => Layout::Plain,
            Instruction::IConstM1 => Layout::Plain,
            Instruction::IConst0 => Layout::Plain,
            Instruction::IConst1 => Layout::Plain,
            Instruction::IConst2 => Layout::Plain,
            Instruction::IConst3 => Layout::Plain,
            Instruction::IConst4 => Layout::Plain,
            Instruction::IConst5 => Layout::Plain,
            Instruction::IDiv => Layout::Plain,
            Instruction::IfACmpEq { .. } => Layout::Branch16,
            Instruction::IfACmpNe { .. } => Layout::Branch16,
            Instruction::IfICmpEq { .. } => Layout::Branch16,
            Instruction::IfICmpNe { .. } => Layout::Branch16,
            Instruction::IfICmpLt { .. } => Layout::Branch16,
            Instruction::IfICmpGe { .. } => Layout::Branch16,
            Instruction::IfICmpGt { .. } => Layout::Branch16,
            Instruction::IfICmpLe { .. } => Layout::Branch16,
            Instruction::IfEq { .. } => Layout::Branch16,
            Instruction::IfNe { .. } => Layout::Branch16,
            Instruction::IfLt { .. } => Layout::Branch16,
            Instruction::IfGe { .. } => Layout::Branch16,
            Instruction::IfGt { .. } => Layout::Branch16,
            Instruction::IfLe { .. } => Layout::Branch16,
            Instruction::IfNonNull { .. } => Layout::Branch16,
            Instruction::IfNull { .. } => Layout::Branch16,
            Instruction::IInc { .. } => Layout::Increment,
            Instruction::ILoad { .. } => Layout::Local,
            Instruction::ILoad0 => Layout::Plain,
            Instruction::ILoad1 => Layout::Plain,
            Instruction::ILoad2 => Layout::Plain,
            Instruction::ILoad3 => Layout::Plain,
            Instruction::IMul => Layout::Plain,
            Instruction::INeg => Layout::Plain,
            Instruction::InstanceOf { .. } => Layout::Pool16,
            Instruction::InvokeDynamic { .. } => Layout::InvokeDynamic,
            Instruction::InvokeInterface { .. } => Layout::InvokeInterface,
            Instruction::InvokeSpecial { .. } => Layout::Pool16,
            Instruction::InvokeStatic { .. } => Layout::Pool16,
            Instruction::InvokeVirtual { .. } => Layout::Pool16,
            Instruction::IOr => Layout::Plain,
            Instruction::IRem => Layout::Plain,
            Instruction::IReturn => Layout::Plain,
            Instruction::IShl => Layout::Plain,
            Instruction::IShr => Layout::Plain,
            Instruction::IStore { .. } => Layout::Local,
            Instruction::IStore0 => Layout::Plain,
            Instruction::IStore1 => Layout::Plain,
            Instruction::IStore2 => Layout::Plain,
            Instruction::IStore3 => Layout::Plain,
            Instruction::ISub => Layout::Plain,
            Instruction::IUShr => Layout::Plain,
            Instruction::IXor => Layout::Plain,
            Instruction::JSR { .. } => Layout::Branch16,
            Instruction::JSRW { .. } => Layout::Branch32,
            Instruction::L2D => Layout::Plain,
            Instruction::L2F => Layout::Plain,
            Instruction::L2I => Layout::Plain,
            Instruction::LAdd => Layout::Plain,
            Instruction::LALoad => Layout::Plain,
            Instruction::LAnd => Layout::Plain,
            Instruction::LAStore => Layout::Plain,
            Instruction::LCmp => Layout::Plain,
            Instruction::LConst0 => Layout::Plain,
            Instruction::LConst1 => Layout::Plain,
            Instruction::LDC { .. } => Layout::Pool8,
            Instruction::LDCW { .. } => Layout::Pool16,
            Instruction::LDC2W { .. } => Layout::Pool16,
            Instruction::LDiv => Layout::Plain,
            Instruction::LLoad { .. } => Layout::Local,
            Instruction::LLoad0 => Layout::Plain,
            Instruction::LLoad1 => Layout::Plain,
            Instruction::LLoad2 => Layout::Plain,
            Instruction::LLoad3 => Layout::Plain,
            Instruction::LMul => Layout::Plain,
            Instruction::LNeg => Layout::Plain,
            Instruction::LookUpSwitch { .. } => Layout::LookUpSwitch,
            Instruction::LOr => Layout::Plain,
            Instruction::LRem => Layout::Plain,
            Instruction::LReturn => Layout::Plain,
            Instruction::LShl => Layout::Plain,
            Instruction::LShr => Layout::Plain,
            Instruction::LStore { .. } => Layout::Local,
            Instruction::LStore0 => Layout::Plain,
            Instruction::LStore1 => Layout::Plain,
            Instruction::LStore2 => Layout::Plain,
            Instruction::LStore3 => Layout::Plain,
            Instruction::LSub => Layout::Plain,
            Instruction::LUShr => Layout::Plain,
            Instruction::LXor => Layout::Plain,
            Instruction::MonitorEnter => Layout::Plain,
            Instruction::MonitorExit => Layout::Plain,
            Instruction::MultiANewArray { .. } => Layout::MultiANewArray,
            Instruction::New { .. } => Layout::Pool16,
            Instruction::NewArray { .. } => Layout::NewArray,
            Instruction::Nop => Layout::Plain,
            Instruction::Pop => Layout::Plain,
            Instruction::Pop2 => Layout::Plain,
            Instruction::PutField { .. } => Layout::Pool16,
            Instruction::PutStatic { .. } => Layout::Pool16,
            Instruction::Ret { .. } => Layout::Local,
            Instruction::Return => Layout::Plain,
            Instruction::SALoad => Layout::Plain,
            Instruction::SAStore => Layout::Plain,
            Instruction::SIPush { .. } => Layout::Short,
            Instruction::Swap => Layout::Plain,
            Instruction::TableSwitch { .. } => Layout::TableSwitch,
            Instruction::Wide => Layout::Plain,
        }
    }

    /// How the operands behind the given opcode are laid out.
    pub open spec fn spec_layout_of(opcode: u8) -> Layout {
        if opcode == 0x15 || opcode == 0x16 || opcode == 0x17 || opcode == 0x18 || opcode == 0x19
            || opcode == 0x36 || opcode == 0x37 || opcode == 0x38 || opcode == 0x39 || opcode == 0x3A
            || opcode == 0xA9 {
            Layout::Local
        } else if opcode == 0x84 {
            Layout::Increment
        } else if opcode == 0x13 || opcode == 0x14 || opcode == 0xB2 || opcode == 0xB3 || opcode == 0xB4 || opcode == 0xB5 || opcode == 0xB6 || opcode == 0xB7 || opcode == 0xB8 || opcode == 0xBB || opcode == 0xBD || opcode == 0xC0 || opcode == 0xC1 {
            Layout::Pool16
        } else if opcode == 0x12 {
            Layout::Pool8
        } else if opcode == 0x10 {
            Layout::Byte
        } else if opcode == 0x11 {
            Layout::Short
        } else if opcode == 0x99 || opcode == 0x9A || opcode == 0x9B || opcode == 0x9C || opcode == 0x9D || opcode == 0x9E || opcode == 0x9F || opcode == 0xA0 || opcode == 0xA1 || opcode == 0xA2 || opcode == 0xA3 || opcode == 0xA4 || opcode == 0xA5 || opcode == 0xA6 || opcode == 0xA7 || opcode == 0xA8 || opcode == 0xC6 || opcode == 0xC7 {
            Layout::Branch16
        } else if opcode == 0xC8 || opcode == 0xC9 {
            Layout::Branch32
        } else if opcode == 0xBA {
            Layout::InvokeDynamic
        } else if opcode == 0xB9 {
            Layout::InvokeInterface
        } else if opcode == 0xC5 {
            Layout::MultiANewArray
        } else if opcode == 0xBC {
            Layout::NewArray
        } else if opcode == 0xAA {
            Layout::TableSwitch
        } else if opcode == 0xAB {
            Layout::LookUpSwitch
        } else if opcode <= 0xC9 {
            Layout::Plain
        } else {
            Layout::Unknown
        }
    }

    /// How the operands behind the given opcode are laid out.
    pub fn layout_of(opcode: u8) -> (r: Layout)
        ensures
            r == Self::spec_layout_of(opcode),
    {
        if opcode == 0x15 || opcode == 0x16 || opcode == 0x17 || opcode == 0x18 || opcode == 0x19
            || opcode == 0x36 || opcode == 0x37 || opcode == 0x38 || opcode == 0x39 || opcode == 0x3A
            || opcode == 0xA9 {
            Layout::Local
        } else if opcode == 0x84 {
            Layout::Increment
        } else if opcode == 0x13 || opcode == 0x14 || opcode == 0xB2 || opcode == 0xB3 || opcode == 0xB4 || opcode == 0xB5 || opcode == 0xB6 || opcode == 0xB7 || opcode == 0xB8 || opcode == 0xBB || opcode == 0xBD || opcode == 0xC0 || opcode == 0xC1 {
            Layout::Pool16
        } else if opcode == 0x12 {
            Layout::Pool8
        } else if opcode == 0x10 {
            Layout::Byte
        } else if opcode == 0x11 {
            Layout::Short
        } else if opcode == 0x99 || opcode == 0x9A || opcode == 0x9B || opcode == 0x9C || opcode == 0x9D || opcode == 0x9E || opcode == 0x9F || opcode == 0xA0 || opcode == 0xA1 || opcode == 0xA2 || opcode == 0xA3 || opcode == 0xA4 || opcode == 0xA5 || opcode == 0xA6 || opcode == 0xA7 || opcode == 0xA8 || opcode == 0xC6 || opcode == 0xC7 {
            Layout::Branch16
        } else if opcode == 0xC8 || opcode == 0xC9 {
            Layout::Branch32
        } else if opcode == 0xBA {
            Layout::InvokeDynamic
        } else if opcode == 0xB9 {
            Layout::InvokeInterface
        } else if opcode == 0xC5 {
            Layout::MultiANewArray
        } else if opcode == 0xBC {
            Layout::NewArray
        } else if opcode == 0xAA {
            Layout::TableSwitch
        } else if opcode == 0xAB {
            Layout::LookUpSwitch
        } else if opcode <= 0xC9 {
            Layout::Plain
        } else {
            Layout::Unknown
        }
    }

    /// The instruction without operands that the opcode names.
    pub open spec fn spec_plain(opcode: u8) -> Instruction {
        if opcode == 0x32 {
            Instruction::AALoad
        } else if opcode == 0x53 {
            Instruction::AAStore
        } else if opcode == 0x01 {
            Instruction::AConstNull
        } else if opcode == 0x2A {
            Instruction::ALoad0
        } else if opcode == 0x2B {
            Instruction::ALoad1
        } else if opcode == 0x2C {
            Instruction::ALoad2
        } else if opcode == 0x2D {
            Instruction::ALoad3
        } else if opcode == 0xB0 {
            Instruction::AReturn
        } else if opcode == 0xBE {
            Instruction::ArrayLength
        } else if opcode == 0x4B {
            Instruction::AStore0
        } else if opcode == 0x4C {
            Instruction::AStore1
        } else if opcode == 0x4D {
            Instruction::AStore2
        } else if opcode == 0x4E {
            Instruction::AStore3
        } else if opcode == 0xBF {
            Instruction::AThrow
        } else if opcode == 0x33 {
            Instruction::BALoad
        } else if opcode == 0x54 {
            Instruction::BAStore
        } else if opcode == 0x34 {
            Instruction::CALoad
        } else if opcode == 0x55 {
            Instruction::CAStore
        } else if opcode == 0x90 {
            Instruction::D2F
        } else if opcode == 0x8E {
            Instruction::D2I
        } else if opcode == 0x8F {
            Instruction::D2L
        } else if opcode == 0x63 {
            Instruction::DAdd
        } else if opcode == 0x31 {
            Instruction::DALoad
        } else if opcode == 0x52 {
            Instruction::DAStore
        } else if opcode == 0x98 {
            Instruction::DCmpG
        } else if opcode == 0x97 {
            Instruction::DCmpL
        } else if opcode == 0x0E {
            Instruction::DConst0
        } else if opcode == 0x0F {
            Instruction::DConst1
        } else if opcode == 0x6F {
            Instruction::DDiv
        } else if opcode == 0x26 {
            Instruction::DLoad0
        } else if opcode == 0x27 {
            Instruction::DLoad1
        } else if opcode == 0x28 {
            Instruction::DLoad2
        } else if opcode == 0x29 {
            Instruction::DLoad3
        } else if opcode == 0x6B {
            Instruction::DMul
        } else if opcode == 0x77 {
            Instruction::DNeg
        } else if opcode == 0x73 {
            Instruction::DRem
        } else if opcode == 0xAF {
            Instruction::DReturn
        } else if opcode == 0x47 {
            Instruction::DStore0
        } else if opcode == 0x48 {
            Instruction::DStore1
        } else if opcode == 0x49 {
            Instruction::DStore2
        } else if opcode == 0x4A {
            Instruction::DStore3
        } else if opcode == 0x67 {
            Instruction::DSub
        } else if opcode == 0x59 {
            Instruction::Dup
        } else if opcode == 0x5A {
            Instruction::DupX1
        } else if opcode == 0x5B {
            Instruction::DupX2
        } else if opcode == 0x5C {
            Instruction::Dup2
        } else if opcode == 0x5D {
            Instruction::Dup2X1
        } else if opcode == 0x5E {
            Instruction::Dup2X2
        } else if opcode == 0x8D {
            Instruction::F2D
        } else if opcode == 0x8B {
            Instruction::F2I
        } else if opcode == 0x8C {
            Instruction::F2L
        } else if opcode == 0x62 {
            Instruction::FAdd
        } else if opcode == 0x30 {
            Instruction::FALoad
        } else if opcode == 0x51 {
            Instruction::FAStore
        } else if opcode == 0x96 {
            Instruction::FCmpPG
        } else if opcode == 0x95 {
            Instruction::FCmpPL
        } else if opcode == 0x0B {
            Instruction::FConst0
        } else if opcode == 0x0C {
            Instruction::FConst1
        } else if opcode == 0x0D {
            Instruction::FConst2
        } else if opcode == 0x6E {
            Instruction::FDiv
        } else if opcode == 0x22 {
            Instruction::FLoad0
        } else if opcode == 0x23 {
            Instruction::FLoad1
        } else if opcode == 0x24 {
            Instruction::FLoad2
        } else if opcode == 0x25 {
            Instruction::FLoad3
        } else if opcode == 0x6A {
            Instruction::FMul
        } else if opcode == 0x76 {
            Instruction::FNeg
        } else if opcode == 0x72 {
            Instruction::FRem
        } else if opcode == 0xAE {
            Instruction::FReturn
        } else if opcode == 0x43 {
            Instruction::FStore0
        } else if opcode == 0x44 {
            Instruction::FStore1
        } else if opcode == 0x45 {
            Instruction::FStore2
        } else if opcode == 0x46 {
            Instruction::FStore3
        } else if opcode == 0x66 {
            Instruction::FSub
        } else if opcode == 0x91 {
            Instruction::I2B
        } else if opcode == 0x92 {
            Instruction::I2C
        } else if opcode == 0x87 {
            Instruction::I2D
        } else if opcode == 0x86 {
            Instruction::I2F
        } else if opcode == 0x85 {
            Instruction::I2L
        } else if opcode == 0x93 {
            Instruction::I2S
        } else if opcode == 0x60 {
            Instruction::IAdd
        } else if opcode == 0x2E {
            Instruction::IALoad
        } else if opcode == 0x7E {
            Instruction::IAnd
        } else if opcode == 0x4F {
            Instruction::IAStore
        } else if opcode == 0x02 {
            Instruction::IConstM1
        } else if opcode == 0x03 {
            Instruction::IConst0
        } else if opcode == 0x04 {
            Instruction::IConst1
        } else if opcode == 0x05 {
            Instruction::IConst2
        } else if opcode == 0x06 {
            Instruction::IConst3
        } else if opcode == 0x07 {
            Instruction::IConst4
        } else if opcode == 0x08 {
            Instruction::IConst5
        } else if opcode == 0x6C {
            Instruction::IDiv
        } else if opcode == 0x1A {
            Instruction::ILoad0
        } else if opcode == 0x1B {
            Instruction::ILoad1
        } else if opcode == 0x1C {
            Instruction::ILoad2
        } else if opcode == 0x1D {
            Instruction::ILoad3
        } else if opcode == 0x68 {
            Instruction::IMul
        } else if opcode == 0x74 {
            Instruction::INeg
        } else if opcode == 0x80 {
            Instruction::IOr
        } else if opcode == 0x70 {
            Instruction::IRem
        } else if opcode == 0xAC {
            Instruction::IReturn
        } else if opcode == 0x78 {
            Instruction::IShl
        } else if opcode == 0x7A {
            Instruction::IShr
        } else if opcode == 0x3B {
            Instruction::IStore0
        } else if opcode == 0x3C {
            Instruction::IStore1
        } else if opcode == 0x3D {
            Instruction::IStore2
        } else if opcode == 0x3E {
            Instruction::IStore3
        } else if opcode == 0x64 {
            Instruction::ISub
        } else if opcode == 0x7C {
            Instruction::IUShr
        } else if opcode == 0x82 {
            Instruction::IXor
        } else if opcode == 0x8A {
            Instruction::L2D
        } else if opcode == 0x89 {
            Instruction::L2F
        } else if opcode == 0x88 {
            Instruction::L2I
        } else if opcode == 0x61 {
            Instruction::LAdd
        } else if opcode == 0x2F {
            Instruction::LALoad
        } else if opcode == 0x7F {
            Instruction::LAnd
        } else if opcode == 0x50 {
            Instruction::LAStore
        } else if opcode == 0x94 {
            Instruction::LCmp
        } else if opcode == 0x09 {
            Instruction::LConst0
        } else if opcode == 0x0A {
            Instruction::LConst1
        } else if opcode == 0x6D {
            Instruction::LDiv
        } else if opcode == 0x1E {
            Instruction::LLoad0
        } else if opcode == 0x1F {
            Instruction::LLoad1
        } else if opcode == 0x20 {
            Instruction::LLoad2
        } else if opcode == 0x21 {
            Instruction::LLoad3
        } else if opcode == 0x69 {
            Instruction::LMul
        } else if opcode == 0x75 {
            Instruction::LNeg
        } else if opcode == 0x81 {
            Instruction::LOr
        } else if opcode == 0x71 {
            Instruction::LRem
        } else if opcode == 0xAD {
            Instruction::LReturn
        } else if opcode == 0x79 {
            Instruction::LShl
        } else if opcode == 0x7B {
            Instruction::LShr
        } else if opcode == 0x3F {
            Instruction::LStore0
        } else if opcode == 0x40 {
            Instruction::LStore1
        } else if opcode == 0x41 {
            Instruction::LStore2
        } else if opcode == 0x42 {
            Instruction::LStore3
        } else if opcode == 0x65 {
            Instruction::LSub
        } else if opcode == 0x7D {
            Instruction::LUShr
        } else if opcode == 0x83 {
            Instruction::LXor
        } else if opcode == 0xC2 {
            Instruction::MonitorEnter
        } else if opcode == 0xC3 {
            Instruction::MonitorExit
        } else if opcode == 0x00 {
            Instruction::Nop
        } else if opcode == 0x57 {
            Instruction::Pop
        } else if opcode == 0x58 {
            Instruction::Pop2
        } else if opcode == 0xB1 {
            Instruction::Return
        } else if opcode == 0x35 {
            Instruction::SALoad
        } else if opcode == 0x56 {
            Instruction::SAStore
        } else if opcode == 0x5F {
            Instruction::Swap
        } else if opcode == 0xC4 {
            Instruction::Wide
        } else {
            Instruction::Nop
        }
    }

    /// The instruction on a local variable that the opcode names.
    pub open spec fn spec_local(opcode: u8, index: SizedIndex) -> Instruction {
        if opcode == 0x19 {
            Instruction::ALoad { index }
        } else if opcode == 0x3A {
            Instruction::AStore { index }
        } else if opcode == 0x18 {
            Instruction::DLoad { index }
        } else if opcode == 0x39 {
            Instruction::DStore { index }
        } else if opcode == 0x17 {
            Instruction::FLoad { index }
        } else if opcode == 0x38 {
            Instruction::FStore { index }
        } else if opcode == 0x15 {
            Instruction::ILoad { index }
        } else if opcode == 0x36 {
            Instruction::IStore { index }
        } else if opcode == 0x16 {
            Instruction::LLoad { index }
        } else if opcode == 0x37 {
            Instruction::LStore { index }
        } else if opcode == 0xA9 {
            Instruction::Ret { index }
        } else {
            Instruction::Nop
        }
    }

    /// The instruction on a constant pool entry that the opcode names.
    pub open spec fn spec_pool16(opcode: u8, index: WideIndex) -> Instruction {
        if opcode == 0xBD {
            Instruction::ANewArray { index }
        } else if opcode == 0xC0 {
            Instruction::CheckCast { index }
        } else if opcode == 0xB4 {
            Instruction::GetField { index }
        } else if opcode == 0xB2 {
            Instruction::GetStatic { index }
        } else if opcode == 0xC1 {
            Instruction::InstanceOf { index }
        } else if opcode == 0xB7 {
            Instruction::InvokeSpecial { index }
        } else if opcode == 0xB8 {
            Instruction::InvokeStatic { index }
        } else if opcode == 0xB6 {
            Instruction::InvokeVirtual { index }
        } else if opcode == 0x13 {
            Instruction::LDCW { index }
        } else if opcode == 0x14 {
            Instruction::LDC2W { index }
        } else if opcode == 0xBB {
            Instruction::New { index }
        } else if opcode == 0xB5 {
            Instruction::PutField { index }
        } else if opcode == 0xB3 {
            Instruction::PutStatic { index }
        } else {
            Instruction::Nop
        }
    }

    /// The branch that the opcode names.
    pub open spec fn spec_branch16(opcode: u8, offset: u16) -> Instruction {
        if opcode == 0xA7 {
            Instruction::Goto { offset }
        } else if opcode == 0xA5 {
            Instruction::IfACmpEq { offset }
        } else if opcode == 0xA6 {
            Instruction::IfACmpNe { offset }
        } else if opcode == 0x9F {
            Instruction::IfICmpEq { offset }
        } else if opcode == 0xA0 {
            Instruction::IfICmpNe { offset }
        } else if opcode == 0xA1 {
            Instruction::IfICmpLt { offset }
        } else if opcode == 0xA2 {
            Instruction::IfICmpGe { offset }
        } else if opcode == 0xA3 {
            Instruction::IfICmpGt { offset }
        } else if opcode == 0xA4 {
            Instruction::IfICmpLe { offset }
        } else if opcode == 0x99 {
            Instruction::IfEq { offset }
        } else if opcode == 0x9A {
            Instruction::IfNe { offset }
        } else if opcode == 0x9B {
            Instruction::IfLt { offset }
        } else if opcode == 0x9C {
            Instruction::IfGe { offset }
        } else if opcode == 0x9D {
            Instruction::IfGt { offset }
        } else if opcode == 0x9E {
            Instruction::IfLe { offset }
        } else if opcode == 0xC7 {
            Instruction::IfNonNull { offset }
        } else if opcode == 0xC6 {
            Instruction::IfNull { offset }
        } else if opcode == 0xA8 {
            Instruction::JSR { offset }
        } else {
            Instruction::Nop
        }
    }

    /// The far branch that the opcode names.
    pub open spec fn spec_branch32(opcode: u8, offset: u32) -> Instruction {
        if opcode == 0xC8 {
            Instruction::GotoW { offset }
        } else if opcode == 0xC9 {
            Instruction::JSRW { offset }
        } else {
            Instruction::Nop
        }
    }

    /// The instruction without operands that the opcode names.
    pub fn plain(opcode: u8) -> (r: Instruction)
        ensures
            r == Self::spec_plain(opcode),
    {
        if opcode == 0x32 {
            Instruction::AALoad
        } else if opcode == 0x53 {
            Instruction::AAStore
        } else if opcode == 0x01 {
            Instruction::AConstNull
        } else if opcode == 0x2A {
            Instruction::ALoad0
        } else if opcode == 0x2B {
            Instruction::ALoad1
        } else if opcode == 0x2C {
            Instruction::ALoad2
        } else if opcode == 0x2D {
            Instruction::ALoad3
        } else if opcode == 0xB0 {
            Instruction::AReturn
        } else if opcode == 0xBE {
            Instruction::ArrayLength
        } else if opcode == 0x4B {
            Instruction::AStore0
        } else if opcode == 0x4C {
            Instruction::AStore1
        } else if opcode == 0x4D {
            Instruction::AStore2
        } else if opcode == 0x4E {
            Instruction::AStore3
        } else if opcode == 0xBF {
            Instruction::AThrow
        } else if opcode == 0x33 {
            Instruction::BALoad
        } else if opcode == 0x54 {
            Instruction::BAStore
        } else if opcode == 0x34 {
            Instruction::CALoad
        } else if opcode == 0x55 {
            Instruction::CAStore
        } else if opcode == 0x90 {
            Instruction::D2F
        } else if opcode == 0x8E {
            Instruction::D2I
        } else if opcode == 0x8F {
            Instruction::D2L
        } else if opcode == 0x63 {
            Instruction::DAdd
        } else if opcode == 0x31 {
            Instruction::DALoad
        } else if opcode == 0x52 {
            Instruction::DAStore
        } else if opcode == 0x98 {
            Instruction::DCmpG
        } else if opcode == 0x97 {
            Instruction::DCmpL
        } else if opcode == 0x0E {
            Instruction::DConst0
        } else if opcode == 0x0F {
            Instruction::DConst1
        } else if opcode == 0x6F {
            Instruction::DDiv
        } else if opcode == 0x26 {
            Instruction::DLoad0
        } else if opcode == 0x27 {
            Instruction::DLoad1
        } else if opcode == 0x28 {
            Instruction::DLoad2
        } else if opcode == 0x29 {
            Instruction::DLoad3
        } else if opcode == 0x6B {
            Instruction::DMul
        } else if opcode == 0x77 {
            Instruction::DNeg
        } else if opcode == 0x73 {
            Instruction::DRem
        } else if opcode == 0xAF {
            Instruction::DReturn
        } else if opcode == 0x47 {
            Instruction::DStore0
        } else if opcode == 0x48 {
            Instruction::DStore1
        } else if opcode == 0x49 {
            Instruction::DStore2
        } else if opcode == 0x4A {
            Instruction::DStore3
        } else if opcode == 0x67 {
            Instruction::DSub
        } else if opcode == 0x59 {
            Instruction::Dup
        } else if opcode == 0x5A {
            Instruction::DupX1
        } else if opcode == 0x5B {
            Instruction::DupX2
        } else if opcode == 0x5C {
            Instruction::Dup2
        } else if opcode == 0x5D {
            Instruction::Dup2X1
        } else if opcode == 0x5E {
            Instruction::Dup2X2
        } else if opcode == 0x8D {
            Instruction::F2D
        } else if opcode == 0x8B {
            Instruction::F2I
        } else if opcode == 0x8C {
            Instruction::F2L
        } else if opcode == 0x62 {
            Instruction::FAdd
        } else if opcode == 0x30 {
            Instruction::FALoad
        } else if opcode == 0x51 {
            Instruction::FAStore
        } else if opcode == 0x96 {
            Instruction::FCmpPG
        } else if opcode == 0x95 {
            Instruction::FCmpPL
        } else if opcode == 0x0B {
            Instruction::FConst0
        } else if opcode == 0x0C {
            Instruction::FConst1
        } else if opcode == 0x0D {
            Instruction::FConst2
        } else if opcode == 0x6E {
            Instruction::FDiv
        } else if opcode == 0x22 {
            Instruction::FLoad0
        } else if opcode == 0x23 {
            Instruction::FLoad1
        } else if opcode == 0x24 {
            Instruction::FLoad2
        } else if opcode == 0x25 {
            Instruction::FLoad3
        } else if opcode == 0x6A {
            Instruction::FMul
        } else if opcode == 0x76 {
            Instruction::FNeg
        } else if opcode == 0x72 {
            Instruction::FRem
        } else if opcode == 0xAE {
            Instruction::FReturn
        } else if opcode == 0x43 {
            Instruction::FStore0
        } else if opcode == 0x44 {
            Instruction::FStore1
        } else if opcode == 0x45 {
            Instruction::FStore2
        } else if opcode == 0x46 {
            Instruction::FStore3
        } else if opcode == 0x66 {
            Instruction::FSub
        } else if opcode == 0x91 {
            Instruction::I2B
        } else if opcode == 0x92 {
            Instruction::I2C
        } else if opcode == 0x87 {
            Instruction::I2D
        } else if opcode == 0x86 {
            Instruction::I2F
        } else if opcode == 0x85 {
            Instruction::I2L
        } else if opcode == 0x93 {
            Instruction::I2S
        } else if opcode == 0x60 {
            Instruction::IAdd
        } else if opcode == 0x2E {
            Instruction::IALoad
        } else if opcode == 0x7E {
            Instruction::IAnd
        } else if opcode == 0x4F {
            Instruction::IAStore
        } else if opcode == 0x02 {
            Instruction::IConstM1
        } else if opcode == 0x03 {
            Instruction::IConst0
        } else if opcode == 0x04 {
            Instruction::IConst1
        } else if opcode == 0x05 {
            Instruction::IConst2
        } else if opcode == 0x06 {
            Instruction::IConst3
        } else if opcode == 0x07 {
            Instruction::IConst4
        } else if opcode == 0x08 {
            Instruction::IConst5
        } else if opcode == 0x6C {
            Instruction::IDiv
        } else if opcode == 0x1A {
            Instruction::ILoad0
        } else if opcode == 0x1B {
            Instruction::ILoad1
        } else if opcode == 0x1C {
            Instruction::ILoad2
        } else if opcode == 0x1D {
            Instruction::ILoad3
        } else if opcode == 0x68 {
            Instruction::IMul
        } else if opcode == 0x74 {
            Instruction::INeg
        } else if opcode == 0x80 {
            Instruction::IOr
        } else if opcode == 0x70 {
            Instruction::IRem
        } else if opcode == 0xAC {
            Instruction::IReturn
        } else if opcode == 0x78 {
            Instruction::IShl
        } else if opcode == 0x7A {
            Instruction::IShr
        } else if opcode == 0x3B {
            Instruction::IStore0
        } else if opcode == 0x3C {
            Instruction::IStore1
        } else if opcode == 0x3D {
            Instruction::IStore2
        } else if opcode == 0x3E {
            Instruction::IStore3
        } else if opcode == 0x64 {
            Instruction::ISub
        } else if opcode == 0x7C {
            Instruction::IUShr
        } else if opcode == 0x82 {
            Instruction::IXor
        } else if opcode == 0x8A {
            Instruction::L2D
        } else if opcode == 0x89 {
            Instruction::L2F
        } else if opcode == 0x88 {
            Instruction::L2I
        } else if opcode == 0x61 {
            Instruction::LAdd
        } else if opcode == 0x2F {
            Instruction::LALoad
        } else if opcode == 0x7F {
            Instruction::LAnd
        } else if opcode == 0x50 {
            Instruction::LAStore
        } else if opcode == 0x94 {
            Instruction::LCmp
        } else if opcode == 0x09 {
            Instruction::LConst0
        } else if opcode == 0x0A {
            Instruction::LConst1
        } else if opcode == 0x6D {
            Instruction::LDiv
        } else if opcode == 0x1E {
            Instruction::LLoad0
        } else if opcode == 0x1F {
            Instruction::LLoad1
        } else if opcode == 0x20 {
            Instruction::LLoad2
        } else if opcode == 0x21 {
            Instruction::LLoad3
        } else if opcode == 0x69 {
            Instruction::LMul
        } else if opcode == 0x75 {
            Instruction::LNeg
        } else if opcode == 0x81 {
            Instruction::LOr
        } else if opcode == 0x71 {
            Instruction::LRem
        } else if opcode == 0xAD {
            Instruction::LReturn
        } else if opcode == 0x79 {
            Instruction::LShl
        } else if opcode == 0x7B {
            Instruction::LShr
        } else if opcode == 0x3F {
            Instruction::LStore0
        } else if opcode == 0x40 {
            Instruction::LStore1
        } else if opcode == 0x41 {
            Instruction::LStore2
        } else if opcode == 0x42 {
            Instruction::LStore3
        } else if opcode == 0x65 {
            Instruction::LSub
        } else if opcode == 0x7D {
            Instruction::LUShr
        } else if opcode == 0x83 {
            Instruction::LXor
        } else if opcode == 0xC2 {
            Instruction::MonitorEnter
        } else if opcode == 0xC3 {
            Instruction::MonitorExit
        } else if opcode == 0x00 {
            Instruction::Nop
        } else if opcode == 0x57 {
            Instruction::Pop
        } else if opcode == 0x58 {
            Instruction::Pop2
        } else if opcode == 0xB1 {
            Instruction::Return
        } else if opcode == 0x35 {
            Instruction::SALoad
        } else if opcode == 0x56 {
            Instruction::SAStore
        } else if opcode == 0x5F {
            Instruction::Swap
        } else if opcode == 0xC4 {
            Instruction::Wide
        } else {
            Instruction::Nop
        }
    }

    /// The instruction on a local variable that the opcode names.
    pub fn local(opcode: u8, index: SizedIndex) -> (r: Instruction)
        ensures
            r == Self::spec_local(opcode, index),
    {
        if opcode == 0x19 {
            Instruction::ALoad { index }
        } else if opcode == 0x3A {
            Instruction::AStore { index }
        } else if opcode == 0x18 {
            Instruction::DLoad { index }
        } else if opcode == 0x39 {
            Instruction::DStore { index }
        } else if opcode == 0x17 {
            Instruction::FLoad { index }
        } else if opcode == 0x38 {
            Instruction::FStore { index }
        } else if opcode == 0x15 {
            Instruction::ILoad { index }
        } else if opcode == 0x36 {
            Instruction::IStore { index }
        } else if opcode == 0x16 {
            Instruction::LLoad { index }
        } else if opcode == 0x37 {
            Instruction::LStore { index }
        } else if opcode == 0xA9 {
            Instruction::Ret { index }
        } else {
            Instruction::Nop
        }
    }

    /// The instruction on a constant pool entry that the opcode names.
    pub fn pool16(opcode: u8, index: WideIndex) -> (r: Instruction)
        ensures
            r == Self::spec_pool16(opcode, index),
    {
        if opcode == 0xBD {
            Instruction::ANewArray { index }
        } else if opcode == 0xC0 {
            Instruction::CheckCast { index }
        } else if opcode == 0xB4 {
            Instruction::GetField { index }
        } else if opcode == 0xB2 {
            Instruction::GetStatic { index }
        } else if opcode == 0xC1 {
            Instruction::InstanceOf { index }
        } else if opcode == 0xB7 {
            Instruction::InvokeSpecial { index }
        } else if opcode == 0xB8 {
            Instruction::InvokeStatic { index }
        } else if opcode == 0xB6 {
            Instruction::InvokeVirtual { index }
        } else if opcode == 0x13 {
            Instruction::LDCW { index }
        } else if opcode == 0x14 {
            Instruction::LDC2W { index }
        } else if opcode == 0xBB {
            Instruction::New { index }
        } else if opcode == 0xB5 {
            Instruction::PutField { index }
        } else if opcode == 0xB3 {
            Instruction::PutStatic { index }
        } else {
            Instruction::Nop
        }
    }

    /// The branch that the opcode names.
    pub fn branch16(opcode: u8, offset: u16) -> (r: Instruction)
        ensures
            r == Self::spec_branch16(opcode, offset),
    {
        if opcode == 0xA7 {
            Instruction::Goto { offset }
        } else if opcode == 0xA5 {
            Instruction::IfACmpEq { offset }
        } else if opcode == 0xA6 {
            Instruction::IfACmpNe { offset }
        } else if opcode == 0x9F {
            Instruction::IfICmpEq { offset }
        } else if opcode == 0xA0 {
            Instruction::IfICmpNe { offset }
        } else if opcode == 0xA1 {
            Instruction::IfICmpLt { offset }
        } else if opcode == 0xA2 {
            Instruction::IfICmpGe { offset }
        } else if opcode == 0xA3 {
            Instruction::IfICmpGt { offset }
        } else if opcode == 0xA4 {
            Instruction::IfICmpLe { offset }
        } else if opcode == 0x99 {
            Instruction::IfEq { offset }
        } else if opcode == 0x9A {
            Instruction::IfNe { offset }
        } else if opcode == 0x9B {
            Instruction::IfLt { offset }
        } else if opcode == 0x9C {
            Instruction::IfGe { offset }
        } else if opcode == 0x9D {
            Instruction::IfGt { offset }
        } else if opcode == 0x9E {
            Instruction::IfLe { offset }
        } else if opcode == 0xC7 {
            Instruction::IfNonNull { offset }
        } else if opcode == 0xC6 {
            Instruction::IfNull { offset }
        } else if opcode == 0xA8 {
            Instruction::JSR { offset }
        } else {
            Instruction::Nop
        }
    }

    /// The far branch that the opcode names.
    pub fn branch32(opcode: u8, offset: u32) -> (r: Instruction)
        ensures
            r == Self::spec_branch32(opcode, offset),
    {
        if opcode == 0xC8 {
            Instruction::GotoW { offset }
        } else if opcode == 0xC9 {
            Instruction::JSRW { offset }
        } else {
            Instruction::Nop
        }
    }

}

impl Instruction {
    /// The bytes of the operands of an instruction other than the two switches.
    pub open spec fn spec_operands(self) -> Seq<u8> {
        match self {
            Instruction::ALoad { index } | Instruction::AStore { index } | Instruction::DLoad { index } | Instruction::DStore { index } | Instruction::FLoad { index } | Instruction::FStore { index } | Instruction::ILoad { index } | Instruction::IStore { index } | Instruction::LLoad { index } | Instruction::LStore { index } | Instruction::Ret { index } => index.spec_write(),
            Instruction::IInc { index, value } => index.spec_write() + value.spec_write(),
            Instruction::ANewArray { index } | Instruction::CheckCast { index } | Instruction::GetField { index } | Instruction::GetStatic { index } | Instruction::InstanceOf { index } | Instruction::InvokeSpecial { index } | Instruction::InvokeStatic { index } | Instruction::InvokeVirtual { index } | Instruction::LDCW { index } | Instruction::LDC2W { index } | Instruction::New { index } | Instruction::PutField { index } | Instruction::PutStatic { index } => spec_u16_bytes(index.0),
            Instruction::LDC { index } => seq![index.0],
            Instruction::BIPush { value } => seq![value],
            Instruction::SIPush { value } => spec_u16_bytes(spec_u16_of(value)),
            Instruction::Goto { offset } | Instruction::IfACmpEq { offset } | Instruction::IfACmpNe { offset } | Instruction::IfICmpEq { offset } | Instruction::IfICmpNe { offset } | Instruction::IfICmpLt { offset } | Instruction::IfICmpGe { offset } | Instruction::IfICmpGt { offset } | Instruction::IfICmpLe { offset } | Instruction::IfEq { offset } | Instruction::IfNe { offset } | Instruction::IfLt { offset } | Instruction::IfGe { offset } | Instruction::IfGt { offset } | Instruction::IfLe { offset } | Instruction::IfNonNull { offset } | Instruction::IfNull { offset } | Instruction::JSR { offset } => spec_u16_bytes(offset),
            Instruction::GotoW { offset } | Instruction::JSRW { offset } => spec_u32_bytes(offset),
            Instruction::InvokeDynamic { index, .. } => spec_u16_bytes(index.0) + seq![0u8] + seq![0u8],
            Instruction::InvokeInterface { index, count, .. } => spec_u16_bytes(index.0) + seq![count]
                + seq![0u8],
            Instruction::MultiANewArray { index, dimensions } => spec_u16_bytes(index.0) + seq![dimensions],
            Instruction::NewArray { ty } => seq![ty.spec_code()],
            _ => Seq::empty(),
        }
    }

    /// Appends the operands of an instruction other than the two switches.
    fn write_operands(&self, out: &mut Vec<u8>)
        ensures
            final(out)@ == old(out)@ + self.spec_operands(),
    {
        match self {
            Instruction::ALoad { index } | Instruction::AStore { index } | Instruction::DLoad { index } | Instruction::DStore { index } | Instruction::FLoad { index } | Instruction::FStore { index } | Instruction::ILoad { index } | Instruction::IStore { index } | Instruction::LLoad { index } | Instruction::LStore { index } | Instruction::Ret { index } => index.write(out),
            Instruction::IInc { index, value } => {
                index.write(out);
                value.write(out);
            },
            Instruction::ANewArray { index } | Instruction::CheckCast { index } | Instruction::GetField { index } | Instruction::GetStatic { index } | Instruction::InstanceOf { index } | Instruction::InvokeSpecial { index } | Instruction::InvokeStatic { index } | Instruction::InvokeVirtual { index } | Instruction::LDCW { index } | Instruction::LDC2W { index } | Instruction::New { index } | Instruction::PutField { index } | Instruction::PutStatic { index } => write_u16(out, index.0),
            Instruction::LDC { index } => write_u8(out, index.0),
            Instruction::BIPush { value } => write_u8(out, *value),
            Instruction::SIPush { value } => write_i16(out, *value),
            Instruction::Goto { offset } | Instruction::IfACmpEq { offset } | Instruction::IfACmpNe { offset } | Instruction::IfICmpEq { offset } | Instruction::IfICmpNe { offset } | Instruction::IfICmpLt { offset } | Instruction::IfICmpGe { offset } | Instruction::IfICmpGt { offset } | Instruction::IfICmpLe { offset } | Instruction::IfEq { offset } | Instruction::IfNe { offset } | Instruction::IfLt { offset } | Instruction::IfGe { offset } | Instruction::IfGt { offset } | Instruction::IfLe { offset } | Instruction::IfNonNull { offset } | Instruction::IfNull { offset } | Instruction::JSR { offset } => write_u16(out, *offset),
            Instruction::GotoW { offset } | Instruction::JSRW { offset } => write_u32(out, *offset),
            Instruction::InvokeDynamic { index, .. } => {
                write_u16(out, index.0);
                write_u8(out, 0);
                write_u8(out, 0);
            },
            Instruction::InvokeInterface { index, count, .. } => {
                write_u16(out, index.0);
                write_u8(out, *count);
                write_u8(out, 0);
            },
            Instruction::MultiANewArray { index, dimensions } => {
                write_u16(out, index.0);
                write_u8(out, *dimensions);
            },
            Instruction::NewArray { ty } => write_u8(out, ty.code()),
            _ => {},
        }
        proof {
            assert(out@ =~= old(out)@ + self.spec_operands());
        }
    }
}

impl Instruction {
    /// The index operand of an instruction on a local variable.
    pub open spec fn spec_index(self) -> SizedIndex {
        match self {
            Instruction::ALoad { index } | Instruction::AStore { index } | Instruction::DLoad { index } | Instruction::DStore { index } | Instruction::FLoad { index } | Instruction::FStore { index } | Instruction::ILoad { index } | Instruction::IStore { index } | Instruction::LLoad { index } | Instruction::LStore { index } | Instruction::Ret { index } | Instruction::IInc { index, .. } => index,
            _ => SizedIndex::Normal(SmallIndex(0)),
        }
    }

    /// The operand of an instruction on a constant pool entry.
    pub open spec fn spec_pool_index(self) -> WideIndex {
        match self {
            Instruction::ANewArray { index } | Instruction::CheckCast { index } | Instruction::GetField { index } | Instruction::GetStatic { index } | Instruction::InstanceOf { index } | Instruction::InvokeSpecial { index } | Instruction::InvokeStatic { index } | Instruction::InvokeVirtual { index } | Instruction::LDCW { index } | Instruction::LDC2W { index } | Instruction::New { index } | Instruction::PutField { index } | Instruction::PutStatic { index } => index,
            _ => WideIndex(0),
        }
    }

    /// The offset of a branch.
    pub open spec fn spec_offset16(self) -> u16 {
        match self {
            Instruction::Goto { offset } | Instruction::IfACmpEq { offset } | Instruction::IfACmpNe { offset } | Instruction::IfICmpEq { offset } | Instruction::IfICmpNe { offset } | Instruction::IfICmpLt { offset } | Instruction::IfICmpGe { offset } | Instruction::IfICmpGt { offset } | Instruction::IfICmpLe { offset } | Instruction::IfEq { offset } | Instruction::IfNe { offset } | Instruction::IfLt { offset } | Instruction::IfGe { offset } | Instruction::IfGt { offset } | Instruction::IfLe { offset } | Instruction::IfNonNull { offset } | Instruction::IfNull { offset } | Instruction::JSR { offset } => offset,
            _ => 0,
        }
    }

    /// The offset of a far branch.
    pub open spec fn spec_offset32(self) -> u32 {
        match self {
            Instruction::GotoW { offset } | Instruction::JSRW { offset } => offset,
            _ => 0,
        }
    }

}

impl Instruction {
    /// The opcode of an instruction has the layout of the instruction, and names it.
    pub proof fn lemma_opcode_names(i: Instruction)
        ensures
            Self::spec_layout_of(i.spec_opcode()) == i.spec_layout(),
            i.spec_layout() != Layout::Unknown,
            i.spec_layout() == Layout::Plain ==> Self::spec_plain(i.spec_opcode()) == i,
    {
    }

    /// The opcode of an instruction with a single index, reference or offset names it.
    pub proof fn lemma_opcode_names_operand(i: Instruction)
        ensures
            i.spec_layout() == Layout::Local ==> Self::spec_local(i.spec_opcode(), i.spec_index()) == i,
            i.spec_layout() == Layout::Pool16 ==> Self::spec_pool16(i.spec_opcode(), i.spec_pool_index()) == i,
            i.spec_layout() == Layout::Branch16 ==> Self::spec_branch16(i.spec_opcode(), i.spec_offset16()) == i,
            i.spec_layout() == Layout::Branch32 ==> Self::spec_branch32(i.spec_opcode(), i.spec_offset32()) == i,
    {
    }
}

/// The mathematical value of an [`Instruction`]: the two switches with their tables as
/// sequences; any other instruction is its own value.
pub enum InstructionView {
    TableSwitch { default: i32, low: i32, high: i32, offsets: Seq<i32> },
    LookUpSwitch { default: i32, pairs: Seq<MatchOffsetPair> },
    Other(Instruction),
}

impl View for Instruction {
    type V = InstructionView;

    open spec fn view(&self) -> InstructionView {
        match *self {
            Instruction::TableSwitch { default, low, high, offsets } => InstructionView::TableSwitch {
                default,
                low,
                high,
                offsets: offsets@,
            },
            Instruction::LookUpSwitch { default, pairs } => InstructionView::LookUpSwitch { default, pairs: pairs@ },
            _ => InstructionView::Other(*self),
        }
    }
}

/// Number of padding bytes behind the opcode of a switch at offset `position`: as many as
/// bring the next byte to an offset that is a multiple of 4.
pub open spec fn spec_padding(position: int) -> int {
    (4 - (position + 1) % 4) % 4
}

/// Number of padding bytes behind the opcode of a switch at offset `position`.
pub fn padding(position: u64) -> (r: usize)
    ensures
        r == spec_padding(position as int),
        0 <= r <= 3,
        (position + 1 + r) % 4 == 0,
{
    (3 - position % 4) as usize
}

/// `n` zero bytes.
pub open spec fn spec_zeros(n: int) -> Seq<u8> {
    Seq::new(n as nat, |i: int| 0u8)
}

/// Number of entries of the jump table of a table switch: `high - low + 1`, taken modulo
/// 2^32.
pub open spec fn spec_table_len(low: i32, high: i32) -> nat {
    ((high - low + 1) % 0x1_0000_0000) as nat
}

fn table_len(low: i32, high: i32) -> (r: u32)
    ensures
        r == spec_table_len(low, high),
{
    let d: i64 = high as i64 - low as i64 + 1;
    if d < 0 {
        (d + 0x1_0000_0000) as u32
    } else if d >= 0x1_0000_0000 {
        (d - 0x1_0000_0000) as u32
    } else {
        d as u32
    }
}

/// The `n` signed 32-bit values that start at `p`.
pub open spec fn spec_read_i32s(s: Seq<u8>, p: int, n: nat) -> Result<(Seq<i32>, int), Error> {
    if spec_available(s, p, 4 * (n as int)) {
        Ok((Seq::new(n, |i: int| spec_i32_of(spec_u32_at(s, p + 4 * i))), p + 4 * n))
    } else {
        Err(Error::UnexpectedEof)
    }
}

/// The signed 32-bit values one after the other.
pub open spec fn spec_write_i32s(xs: Seq<i32>) -> Seq<u8>
    decreases xs.len(),
{
    if xs.len() == 0 {
        Seq::empty()
    } else {
        spec_write_i32s(xs.drop_last()) + spec_u32_bytes(spec_u32_of(xs.last()))
    }
}

pub proof fn lemma_write_i32s_len(xs: Seq<i32>)
    ensures
        spec_write_i32s(xs).len() == 4 * xs.len(),
    decreases xs.len(),
{
    if xs.len() > 0 {
        lemma_write_i32s_len(xs.drop_last());
    }
}

/// Reading back written 32-bit values yields them.
pub proof fn lemma_round_trip_i32s(xs: Seq<i32>, s: Seq<u8>, p: int)
    requires
        occurs_at(s, p, spec_write_i32s(xs)),
    ensures
        spec_read_i32s(s, p, xs.len()) == Ok::<(Seq<i32>, int), Error>((xs, p + spec_write_i32s(xs).len())),
    decreases xs.len(),
{
    lemma_write_i32s_len(xs);
    if xs.len() > 0 {
        let front = xs.drop_last();
        lemma_write_i32s_len(front);
        lemma_occurs_split(s, p, spec_write_i32s(front), spec_u32_bytes(spec_u32_of(xs.last())));
        lemma_round_trip_i32s(front, s, p);
        lemma_round_trip_i32(xs.last(), s, p + 4 * front.len());
        let got = spec_read_i32s(s, p, xs.len())->Ok_0.0;
        let before = spec_read_i32s(s, p, front.len())->Ok_0.0;
        assert forall|i: int| 0 <= i < xs.len() implies got[i] == xs[i] by {
            if i < front.len() {
                assert(before[i] == front[i]);
            }
        }
        assert(got =~= xs);
    } else {
        assert(spec_read_i32s(s, p, 0)->Ok_0.0 =~= xs);
    }
}

fn read_i32s(data: &[u8], pos: usize, n: u32) -> (r: Result<(Vec<i32>, usize), Error>)
    ensures
        decoded(r, spec_read_i32s(data@, pos as int, n as nat)),
        advanced(r, data@, pos),
{
    if pos > data.len() || (data.len() - pos) / 4 < n as usize {
        return Err(Error::UnexpectedEof);
    }
    let mut out: Vec<i32> = Vec::new();
    let mut cur = pos;
    let mut i: u32 = 0;
    while i < n
        invariant
            i <= n,
            pos + 4 * n <= data@.len(),
            cur == pos + 4 * i,
            out@.len() == i,
            forall|j: int| 0 <= j < i ==> out@[j] == spec_i32_of(spec_u32_at(data@, pos + 4 * j)),
        decreases n - i,
    {
        let (v, next) = match read_i32(data, cur) {
            Ok(x) => x,
            Err(e) => {
                return Err(e);
            },
        };
        out.push(v);
        cur = next;
        i += 1;
    }
    proof {
        assert(out@ =~= spec_read_i32s(data@, pos as int, n as nat)->Ok_0.0);
    }
    Ok((out, cur))
}

fn write_i32s(xs: &Vec<i32>, out: &mut Vec<u8>)
    ensures
        final(out)@ == old(out)@ + spec_write_i32s(xs@),
{
    let mut i: usize = 0;
    while i < xs.len()
        invariant
            i <= xs.len(),
            out@ == old(out)@ + spec_write_i32s(xs@.take(i as int)),
        decreases xs.len() - i,
    {
        proof {
            assert(xs@.take(i + 1).drop_last() =~= xs@.take(i as int));
        }
        write_i32(out, xs[i]);
        proof {
            assert(out@ =~= old(out)@ + spec_write_i32s(xs@.take(i + 1)));
        }
        i += 1;
    }
    proof {
        assert(xs@.take(xs.len() as int) =~= xs@);
    }
}

fn write_zeros(out: &mut Vec<u8>, n: usize)
    ensures
        final(out)@ == old(out)@ + spec_zeros(n as int),
{
    let mut i: usize = 0;
    proof {
        assert(out@ =~= old(out)@ + spec_zeros(0));
    }
    while i < n
        invariant
            i <= n,
            out@ == old(out)@ + spec_zeros(i as int),
        decreases n - i,
    {
        out.push(0);
        proof {
            assert(out@ =~= old(out)@ + spec_zeros(i + 1));
        }
        i += 1;
    }
}

impl InstructionView {
    /// The bytes of the instruction when its opcode stands at offset `position` of the
    /// code array.  Only the two switches depend on the offset.
    pub open spec fn spec_write(self, position: int) -> Seq<u8> {
        match self {
            InstructionView::TableSwitch { default, low, high, offsets } => seq![0xAAu8] + spec_zeros(
                spec_padding(position),
            ) + spec_u32_bytes(spec_u32_of(default)) + spec_u32_bytes(spec_u32_of(low)) + spec_u32_bytes(
                spec_u32_of(high),
            ) + spec_write_i32s(offsets),
            InstructionView::LookUpSwitch { default, pairs } => seq![0xABu8]
                + spec_zeros(spec_padding(position))
                + spec_u32_bytes(spec_u32_of(default)) + spec_u32_bytes((pairs.len() % 0x1_0000_0000) as u32)
                + MatchOffsetPair::spec_write_seq(pairs),
            InstructionView::Other(i) => seq![i.spec_opcode()] + i.spec_operands(),
        }
    }

    /// Whether reading can produce the instruction behind a predecessor that was `Wide`
    /// (`wide`) or was not: an index is wide exactly behind `Wide`, and a switch has as
    /// many table entries as its bounds or its count say.
    pub open spec fn wf(self, wide: bool) -> bool {
        match self {
            InstructionView::TableSwitch { low, high, offsets, .. } => offsets.len() == spec_table_len(low, high),
            InstructionView::LookUpSwitch { pairs, .. } => pairs.len() <= 0x7FFF_FFFF,
            InstructionView::Other(i) => match i.spec_layout() {
                Layout::TableSwitch | Layout::LookUpSwitch => false,
                Layout::Local => i.spec_index() is Wide == wide,
                Layout::Increment => i matches Instruction::IInc { index, value } && (index is Wide) == wide
                    && (
                value is Wide) == wide,
                _ => true,
            },
        }
    }

    /// Whether this is the `Wide` prefix.
    pub open spec fn is_wide_prefix(self) -> bool {
        self == InstructionView::Other(Instruction::Wide)
    }
}

impl Instruction {
    /// The table switch whose padding starts at `p`, its opcode standing at `position`.
    pub open spec fn spec_read_table_switch(s: Seq<u8>, p: int, position: int) -> Result<
        (InstructionView, int),
        Error,
    > {
        match spec_read_bytes(s, p, spec_padding(position)) {
            Err(e) => Err(e),
            Ok((_, at0)) => match spec_read_i32(s, at0) {
                Err(e) => Err(e),
                Ok((default, at1)) => match spec_read_i32(s, at1) {
                    Err(e) => Err(e),
                    Ok((low, at2)) => match spec_read_i32(s, at2) {
                        Err(e) => Err(e),
                        Ok((high, at3)) => match spec_read_i32s(s, at3, spec_table_len(low, high)) {
                            Err(e) => Err(e),
                            Ok((offsets, at4)) => Ok(
                                (InstructionView::TableSwitch { default, low, high, offsets }, at4),
                            ),
                        },
                    },
                },
            },
        }
    }

    /// The lookup switch whose padding starts at `p`, its opcode standing at `position`.
    /// A negative count cannot be met and is an end-of-input error.
    pub open spec fn spec_read_lookup_switch(s: Seq<u8>, p: int, position: int) -> Result<
        (InstructionView, int),
        Error,
    > {
        match spec_read_bytes(s, p, spec_padding(position)) {
            Err(e) => Err(e),
            Ok((_, at0)) => match spec_read_i32(s, at0) {
                Err(e) => Err(e),
                Ok((default, at1)) => match spec_read_i32(s, at1) {
                    Err(e) => Err(e),
                    Ok((n, at2)) => if n < 0 {
                        Err(Error::UnexpectedEof)
                    } else {
                        match MatchOffsetPair::spec_read_seq(s, at2, n as nat) {
                            Err(e) => Err(e),
                            Ok((pairs, at3)) => Ok((InstructionView::LookUpSwitch { default, pairs }, at3)),
                        }
                    },
                },
            },
        }
    }

    /// The instruction whose opcode stands at `p`.  `wide` says whether the instruction
    /// before it was `Wide`; `position` is the offset of the opcode in the code array.
    pub open spec fn spec_read(s: Seq<u8>, p: int, wide: bool, position: int) -> Result<
        (InstructionView, int),
        Error,
    > {
        match spec_read_u8(s, p) {
            Err(e) => Err(e),
            Ok((opcode, at1)) => match Self::spec_layout_of(opcode) {
                Layout::Plain => Ok((InstructionView::Other(Self::spec_plain(opcode)), at1)),
                Layout::Local => match SizedIndex::spec_read(s, at1, wide) {
                    Err(e) => Err(e),
                    Ok((index, q)) => Ok((InstructionView::Other(Self::spec_local(opcode, index)), q)),
                },
                Layout::Increment => match SizedIndex::spec_read(s, at1, wide) {
                    Err(e) => Err(e),
                    Ok((index, at2)) => match SizedIndex::spec_read(s, at2, wide) {
                        Err(e) => Err(e),
                        Ok((value, q)) => Ok((InstructionView::Other(Instruction::IInc { index, value }), q)),
                    },
                },
                Layout::Pool16 => match spec_read_u16(s, at1) {
                    Err(e) => Err(e),
                    Ok((v, q)) => Ok((InstructionView::Other(Self::spec_pool16(opcode, WideIndex(v))), q)),
                },
                Layout::Pool8 => match spec_read_u8(s, at1) {
                    Err(e) => Err(e),
                    Ok((v, q)) => Ok((InstructionView::Other(Instruction::LDC { index: SmallIndex(v) }), q)),
                },
                Layout::Byte => match spec_read_u8(s, at1) {
                    Err(e) => Err(e),
                    Ok((value, q)) => Ok((InstructionView::Other(Instruction::BIPush { value }), q)),
                },
                Layout::Short => match spec_read_i16(s, at1) {
                    Err(e) => Err(e),
                    Ok((value, q)) => Ok((InstructionView::Other(Instruction::SIPush { value }), q)),
                },
                Layout::Branch16 => match spec_read_u16(s, at1) {
                    Err(e) => Err(e),
                    Ok((offset, q)) => Ok((InstructionView::Other(Self::spec_branch16(opcode, offset)), q)),
                },
                Layout::Branch32 => match spec_read_u32(s, at1) {
                    Err(e) => Err(e),
                    Ok((offset, q)) => Ok((InstructionView::Other(Self::spec_branch32(opcode, offset)), q)),
                },
                Layout::InvokeDynamic => match spec_read_u16(s, at1) {
                    Err(e) => Err(e),
                    Ok((v, at2)) => match AlwaysZero::spec_read(s, at2) {
                        Err(e) => Err(e),
                        Ok((_zero0, at3)) => match AlwaysZero::spec_read(s, at3) {
                            Err(e) => Err(e),
                            Ok((_zero1, q)) => Ok(
                                (
                                    InstructionView::Other(
                                        Instruction::InvokeDynamic { index: WideIndex(v), _zero0, _zero1 },
                                    ),
                                    q,
                                ),
                            ),
                        },
                    },
                },
                Layout::InvokeInterface => match spec_read_u16(s, at1) {
                    Err(e) => Err(e),
                    Ok((v, at2)) => match spec_read_u8(s, at2) {
                        Err(e) => Err(e),
                        Ok((count, at3)) => match AlwaysZero::spec_read(s, at3) {
                            Err(e) => Err(e),
                            Ok((_zero, q)) => Ok(
                                (
                                    InstructionView::Other(
                                        Instruction::InvokeInterface { index: WideIndex(v), count, _zero },
                                    ),
                                    q,
                                ),
                            ),
                        },
                    },
                },
                Layout::MultiANewArray => match spec_read_u16(s, at1) {
                    Err(e) => Err(e),
                    Ok((v, at2)) => match spec_read_u8(s, at2) {
                        Err(e) => Err(e),
                        Ok((dimensions, q)) => Ok(
                            (InstructionView::Other(Instruction::MultiANewArray { index: WideIndex(v), dimensions }), q),
                        ),
                    },
                },
                Layout::NewArray => match ArrayType::spec_read(s, at1) {
                    Err(e) => Err(e),
                    Ok((ty, q)) => Ok((InstructionView::Other(Instruction::NewArray { ty }), q)),
                },
                Layout::TableSwitch => Self::spec_read_table_switch(s, at1, position),
                Layout::LookUpSwitch => Self::spec_read_lookup_switch(s, at1, position),
                Layout::Unknown => Err(Error::UnknownOpCode(opcode)),
            },
        }
    }

    fn read_table_switch(data: &[u8], pos: usize, position: u64) -> (r: Result<(Instruction, usize), Error>)
        ensures
            decoded(r, Self::spec_read_table_switch(data@, pos as int, position as int)),
            advanced(r, data@, pos),
    {
        let pad = padding(position);
        if !available(data, pos, pad) {
            return Err(Error::UnexpectedEof);
        }
        let pos0 = pos + pad;
        let (default, pos1) = match read_i32(data, pos0) {
            Ok(x) => x,
            Err(e) => {
                return Err(e);
            },
        };
        let (low, pos2) = match read_i32(data, pos1) {
            Ok(x) => x,
            Err(e) => {
                return Err(e);
            },
        };
        let (high, pos3) = match read_i32(data, pos2) {
            Ok(x) => x,
            Err(e) => {
                return Err(e);
            },
        };
        let (offsets, pos4) = match read_i32s(data, pos3, table_len(low, high)) {
            Ok(x) => x,
            Err(e) => {
                return Err(e);
            },
        };
        Ok((Instruction::TableSwitch { default, low, high, offsets }, pos4))
    }

    fn read_lookup_switch(data: &[u8], pos: usize, position: u64) -> (r: Result<(Instruction, usize), Error>)
        ensures
            decoded(r, Self::spec_read_lookup_switch(data@, pos as int, position as int)),
            advanced(r, data@, pos),
    {
        let pad = padding(position);
        if !available(data, pos, pad) {
            return Err(Error::UnexpectedEof);
        }
        let pos0 = pos + pad;
        let (default, pos1) = match read_i32(data, pos0) {
            Ok(x) => x,
            Err(e) => {
                return Err(e);
            },
        };
        let (n, pos2) = match read_i32(data, pos1) {
            Ok(x) => x,
            Err(e) => {
                return Err(e);
            },
        };
        if n < 0 {
            return Err(Error::UnexpectedEof);
        }
        let (pairs, pos3) = match MatchOffsetPair::read_seq(data, pos2, n as usize) {
            Ok(x) => x,
            Err(e) => {
                return Err(e);
            },
        };
        Ok((Instruction::LookUpSwitch { default, pairs }, pos3))
    }

    /// Reads the instruction whose opcode stands at `pos`.  The context says whether the
    /// instruction before it was `Wide`, and at which offset of the code array the opcode
    /// stands.
    pub fn read(data: &[u8], pos: usize, ctx: &ReadContext) -> (r: Result<(Instruction, usize), Error>)
        ensures
            decoded(r, Self::spec_read(data@, pos as int, ctx.wide, ctx.position as int)),
            advanced(r, data@, pos),
            r matches Ok((_, rp)) ==> rp > pos,
    {
        let (opcode, pos1) = match read_u8(data, pos) {
            Ok(x) => x,
            Err(e) => {
                return Err(e);
            },
        };
        match Self::layout_of(opcode) {
            Layout::Plain => Ok((Self::plain(opcode), pos1)),
            Layout::Local => match SizedIndex::read(data, pos1, ctx) {
                Ok((index, q)) => Ok((Self::local(opcode, index), q)),
                Err(e) => Err(e),
            },
            Layout::Increment => {
                let (index, pos2) = match SizedIndex::read(data, pos1, ctx) {
                    Ok(x) => x,
                    Err(e) => {
                        return Err(e);
                    },
                };
                match SizedIndex::read(data, pos2, ctx) {
                    Ok((value, q)) => Ok((Instruction::IInc { index, value }, q)),
                    Err(e) => Err(e),
                }
            },
            Layout::Pool16 => match read_u16(data, pos1) {
                Ok((v, q)) => Ok((Self::pool16(opcode, WideIndex(v)), q)),
                Err(e) => Err(e),
            },
            Layout::Pool8 => match read_u8(data, pos1) {
                Ok((v, q)) => Ok((Instruction::LDC { index: SmallIndex(v) }, q)),
                Err(e) => Err(e),
            },
            Layout::Byte => match read_u8(data, pos1) {
                Ok((value, q)) => Ok((Instruction::BIPush { value }, q)),
                Err(e) => Err(e),
            },
            Layout::Short => match read_i16(data, pos1) {
                Ok((value, q)) => Ok((Instruction::SIPush { value }, q)),
                Err(e) => Err(e),
            },
            Layout::Branch16 => match read_u16(data, pos1) {
                Ok((offset, q)) => Ok((Self::branch16(opcode, offset), q)),
                Err(e) => Err(e),
            },
            Layout::Branch32 => match read_u32(data, pos1) {
                Ok((offset, q)) => Ok((Self::branch32(opcode, offset), q)),
                Err(e) => Err(e),
            },
            Layout::InvokeDynamic => {
                let (v, pos2) = match read_u16(data, pos1) {
                    Ok(x) => x,
                    Err(e) => {
                        return Err(e);
                    },
                };
                let (_zero0, pos3) = match AlwaysZero::read(data, pos2) {
                    Ok(x) => x,
                    Err(e) => {
                        return Err(e);
                    },
                };
                match AlwaysZero::read(data, pos3) {
                    Ok((_zero1, q)) => Ok((Instruction::InvokeDynamic { index: WideIndex(v), _zero0, _zero1 }, q)),
                    Err(e) => Err(e),
                }
            },
            Layout::InvokeInterface => {
                let (v, pos2) = match read_u16(data, pos1) {
                    Ok(x) => x,
                    Err(e) => {
                        return Err(e);
                    },
                };
                let (count, pos3) = match read_u8(data, pos2) {
                    Ok(x) => x,
                    Err(e) => {
                        return Err(e);
                    },
                };
                match AlwaysZero::read(data, pos3) {
                    Ok((_zero, q)) => Ok((Instruction::InvokeInterface { index: WideIndex(v), count, _zero }, q)),
                    Err(e) => Err(e),
                }
            },
            Layout::MultiANewArray => {
                let (v, pos2) = match read_u16(data, pos1) {
                    Ok(x) => x,
                    Err(e) => {
                        return Err(e);
                    },
                };
                match read_u8(data, pos2) {
                    Ok((dimensions, q)) => Ok((Instruction::MultiANewArray { index: WideIndex(v), dimensions }, q)),
                    Err(e) => Err(e),
                }
            },
            Layout::NewArray => match ArrayType::read(data, pos1) {
                Ok((ty, q)) => Ok((Instruction::NewArray { ty }, q)),
                Err(e) => Err(e),
            },
            Layout::TableSwitch => Self::read_table_switch(data, pos1, ctx.position),
            Layout::LookUpSwitch => Self::read_lookup_switch(data, pos1, ctx.position),
            Layout::Unknown => Err(Error::UnknownOpCode(opcode)),
        }
    }

    /// The offset that the bytes of an instruction are computed for: that of the context,
    /// and 0 where it has none.  Only the switches look at it.
    pub open spec fn spec_position(ctx: WriteContext) -> int {
        match ctx.position {
            Some(position) => position as int,
            None => 0,
        }
    }

    /// Appends the bytes of the instruction.  A switch needs to know the offset of its
    /// opcode in the code array.
    pub fn write(&self, out: &mut Vec<u8>, ctx: &WriteContext)
        requires
            self is TableSwitch || self is LookUpSwitch ==> ctx.position is Some,
        ensures
            final(out)@ == old(out)@ + self@.spec_write(Self::spec_position(*ctx)),
    {
        match self {
            Instruction::TableSwitch { default, low, high, offsets } => {
                write_u8(out, 0xAA);
                write_zeros(out, padding(ctx.position.unwrap()));
                write_i32(out, *default);
                write_i32(out, *low);
                write_i32(out, *high);
                write_i32s(offsets, out);
            },
            Instruction::LookUpSwitch { default, pairs } => {
                write_u8(out, 0xAB);
                write_zeros(out, padding(ctx.position.unwrap()));
                write_i32(out, *default);
                write_u32(out, (pairs.len() as u64 % 0x1_0000_0000) as u32);
                MatchOffsetPair::write_seq(pairs, out);
            },
            _ => {
                write_u8(out, self.opcode());
                self.write_operands(out);
            },
        }
        proof {
            assert(out@ =~= old(out)@ + self@.spec_write(Self::spec_position(*ctx)));
        }
    }
}

impl Instruction {
    /// Reading back a written instruction, in the mode and at the offset it was written for,
    /// yields it; an instruction has at least its opcode byte.
    pub proof fn lemma_round_trip(v: InstructionView, s: Seq<u8>, p: int, wide: bool, position: int)
        requires
            v.wf(wide),
            position >= 0,
            occurs_at(s, p, v.spec_write(position)),
        ensures
            Self::spec_read(s, p, wide, position) == Ok::<(InstructionView, int), Error>(
                (v, p + v.spec_write(position).len()),
            ),
            v.spec_write(position).len() >= 1,
    {
        match v {
            InstructionView::TableSwitch { .. } => Self::lemma_round_trip_table_switch(v, s, p, position),
            InstructionView::LookUpSwitch { .. } => Self::lemma_round_trip_lookup_switch(v, s, p, position),
            InstructionView::Other(i) => Self::lemma_round_trip_other(i, s, p, wide, position),
        }
    }

    #[verifier::rlimit(60)]
    proof fn lemma_round_trip_table_switch(v: InstructionView, s: Seq<u8>, p: int, position: int)
        requires
            v is TableSwitch,
            v.wf(false),
            position >= 0,
            occurs_at(s, p, v.spec_write(position)),
        ensures
            Self::spec_read_table_switch(s, p + 1, position) == Ok::<(InstructionView, int), Error>(
                (v, p + v.spec_write(position).len()),
            ),
            spec_read_u8(s, p) == Ok::<(u8, int), Error>((0xAAu8, p + 1)),
    {
        if let InstructionView::TableSwitch { default, low, high, offsets } = v {
            let pad = spec_zeros(spec_padding(position));
            let d = spec_u32_bytes(spec_u32_of(default));
            let l = spec_u32_bytes(spec_u32_of(low));
            let h = spec_u32_bytes(spec_u32_of(high));
            let t = spec_write_i32s(offsets);
            lemma_occurs_split(s, p, seq![0xAAu8] + pad + d + l + h, t);
            lemma_occurs_split(s, p, seq![0xAAu8] + pad + d + l, h);
            lemma_occurs_split(s, p, seq![0xAAu8] + pad + d, l);
            lemma_occurs_split(s, p, seq![0xAAu8] + pad, d);
            lemma_occurs_split(s, p, seq![0xAAu8], pad);
            lemma_round_trip_u8(0xAA, s, p);
            let q = p + 1 + pad.len();
            lemma_round_trip_i32(default, s, q);
            lemma_round_trip_i32(low, s, q + 4);
            lemma_round_trip_i32(high, s, q + 8);
            lemma_round_trip_i32s(offsets, s, q + 12);
        }
    }

    #[verifier::rlimit(60)]
    proof fn lemma_round_trip_lookup_switch(v: InstructionView, s: Seq<u8>, p: int, position: int)
        requires
            v is LookUpSwitch,
            v.wf(false),
            position >= 0,
            occurs_at(s, p, v.spec_write(position)),
        ensures
            Self::spec_read_lookup_switch(s, p + 1, position) == Ok::<(InstructionView, int), Error>(
                (v, p + v.spec_write(position).len()),
            ),
            spec_read_u8(s, p) == Ok::<(u8, int), Error>((0xABu8, p + 1)),
    {
        if let InstructionView::LookUpSwitch { default, pairs } = v {
            let pad = spec_zeros(spec_padding(position));
            let d = spec_u32_bytes(spec_u32_of(default));
            let n = spec_u32_bytes((pairs.len() % 0x1_0000_0000) as u32);
            let t = MatchOffsetPair::spec_write_seq(pairs);
            lemma_occurs_split(s, p, seq![0xABu8] + pad + d + n, t);
            lemma_occurs_split(s, p, seq![0xABu8] + pad + d, n);
            lemma_occurs_split(s, p, seq![0xABu8] + pad, d);
            lemma_occurs_split(s, p, seq![0xABu8], pad);
            lemma_round_trip_u8(0xAB, s, p);
            let q = p + 1 + pad.len();
            lemma_round_trip_i32(default, s, q);
            lemma_round_trip_u32((pairs.len() % 0x1_0000_0000) as u32, s, q + 4);
            assert(spec_i32_of(pairs.len() as u32) == pairs.len());
            reveal(MatchOffsetPair::wf_seq);
            MatchOffsetPair::lemma_round_trip_seq(pairs, s, q + 8);
        }
    }

    proof fn lemma_round_trip_other(i: Instruction, s: Seq<u8>, p: int, wide: bool, position: int)
        requires
            InstructionView::Other(i).wf(wide),
            occurs_at(s, p, InstructionView::Other(i).spec_write(position)),
        ensures
            Self::spec_read(s, p, wide, position) == Ok::<(InstructionView, int), Error>(
                (InstructionView::Other(i), p + InstructionView::Other(i).spec_write(position).len()),
            ),
    {
        Self::lemma_opcode_names(i);
        Self::lemma_opcode_names_operand(i);
        lemma_occurs_split(s, p, seq![i.spec_opcode()], i.spec_operands());
        lemma_round_trip_u8(i.spec_opcode(), s, p);
        Self::lemma_round_trip_operands(i, s, p + 1, wide);
    }

    /// Reading back the written operands of an instruction other than a switch yields them.
    proof fn lemma_round_trip_operands(i: Instruction, s: Seq<u8>, p: int, wide: bool)
        requires
            InstructionView::Other(i).wf(wide),
            occurs_at(s, p, i.spec_operands()),
        ensures
            match i.spec_layout() {
                Layout::Local => SizedIndex::spec_read(s, p, wide) == Ok::<(SizedIndex, int), Error>(
                    (i.spec_index(), p + i.spec_operands().len()),
                ),
                Layout::Increment => i matches Instruction::IInc { index, value }
                    && SizedIndex::spec_read(s, p, wide)
                    == Ok::<(SizedIndex, int), Error>((index, p + index.spec_write().len()))
                        && SizedIndex::spec_read(
                    s,
                    p + index.spec_write().len(),
                    wide,
                ) == Ok::<(SizedIndex, int), Error>((value, p + i.spec_operands().len())),
                Layout::Pool16 => spec_read_u16(s, p) == Ok::<(u16, int), Error>(
                    (i.spec_pool_index().0, p + i.spec_operands().len()),
                ),
                Layout::Pool8 => i matches Instruction::LDC { index }
                    && spec_read_u8(s, p) == Ok::<(u8, int), Error>(
                    (index.0, p + i.spec_operands().len()),
                ),
                Layout::Byte => i matches Instruction::BIPush { value } && spec_read_u8(s, p) == Ok::<
                    (u8, int),
                    Error,
                >((value, p + i.spec_operands().len())),
                Layout::Short => i matches Instruction::SIPush { value } && spec_read_i16(s, p) == Ok::<
                    (i16, int),
                    Error,
                >((value, p + i.spec_operands().len())),
                Layout::Branch16 => spec_read_u16(s, p) == Ok::<(u16, int), Error>(
                    (i.spec_offset16(), p + i.spec_operands().len()),
                ),
                Layout::Branch32 => spec_read_u32(s, p) == Ok::<(u32, int), Error>(
                    (i.spec_offset32(), p + i.spec_operands().len()),
                ),
                Layout::InvokeDynamic => i matches Instruction::InvokeDynamic { index, .. }
                    && spec_read_u16(s, p)
                    == Ok::<(u16, int), Error>((index.0, p + 2)) && AlwaysZero::spec_read(s, p + 2) == Ok::<
                    (AlwaysZero, int),
                    Error,
                >((AlwaysZero, p + 3)) && AlwaysZero::spec_read(s, p + 3) == Ok::<(AlwaysZero, int), Error>(
                    (AlwaysZero, p + 4),
                ) && i.spec_operands().len() == 4,
                Layout::InvokeInterface => i matches Instruction::InvokeInterface { index, count, .. }
                    && spec_read_u16(s, p) == Ok::<(u16, int), Error>((index.0, p + 2))
                        && spec_read_u8(s, p + 2)
                    == Ok::<(u8, int), Error>((count, p + 3)) && AlwaysZero::spec_read(s, p + 3) == Ok::<
                    (AlwaysZero, int),
                    Error,
                >((AlwaysZero, p + 4)) && i.spec_operands().len() == 4,
                Layout::MultiANewArray => i matches Instruction::MultiANewArray { index, dimensions }
                    && spec_read_u16(s, p) == Ok::<(u16, int), Error>((index.0, p + 2))
                        && spec_read_u8(s, p + 2)
                    == Ok::<(u8, int), Error>((dimensions, p + 3)) && i.spec_operands().len() == 3,
                Layout::NewArray => i matches Instruction::NewArray { ty }
                    && ArrayType::spec_read(s, p) == Ok::<
                    (ArrayType, int),
                    Error,
                >((ty, p + 1)) && i.spec_operands().len() == 1,
                Layout::Plain => i.spec_operands().len() == 0,
                _ => true,
            },
    {
        match i.spec_layout() {
            Layout::Local => {
                SizedIndex::lemma_round_trip(i.spec_index(), s, p);
            },
            Layout::Increment => {
                if let Instruction::IInc { index, value } = i {
                    lemma_occurs_split(s, p, index.spec_write(), value.spec_write());
                    SizedIndex::lemma_round_trip(index, s, p);
                    SizedIndex::lemma_round_trip(value, s, p + index.spec_write().len());
                }
            },
            Layout::Pool16 => {
                lemma_round_trip_u16(i.spec_pool_index().0, s, p);
            },
            Layout::Pool8 => {
                if let Instruction::LDC { index } = i {
                    lemma_round_trip_u8(index.0, s, p);
                }
            },
            Layout::Byte => {
                if let Instruction::BIPush { value } = i {
                    lemma_round_trip_u8(value, s, p);
                }
            },
            Layout::Short => {
                if let Instruction::SIPush { value } = i {
                    lemma_round_trip_i16(value, s, p);
                }
            },
            Layout::Branch16 => {
                lemma_round_trip_u16(i.spec_offset16(), s, p);
            },
            Layout::Branch32 => {
                lemma_round_trip_u32(i.spec_offset32(), s, p);
            },
            Layout::InvokeDynamic => {
                if let Instruction::InvokeDynamic { index, .. } = i {
                    lemma_occurs_split(s, p, spec_u16_bytes(index.0) + seq![0u8], seq![0u8]);
                    lemma_occurs_split(s, p, spec_u16_bytes(index.0), seq![0u8]);
                    lemma_round_trip_u16(index.0, s, p);
                    lemma_round_trip_u8(0, s, p + 2);
                    lemma_round_trip_u8(0, s, p + 3);
                }
            },
            Layout::InvokeInterface => {
                if let Instruction::InvokeInterface { index, count, .. } = i {
                    lemma_occurs_split(s, p, spec_u16_bytes(index.0) + seq![count], seq![0u8]);
                    lemma_occurs_split(s, p, spec_u16_bytes(index.0), seq![count]);
                    lemma_round_trip_u16(index.0, s, p);
                    lemma_round_trip_u8(count, s, p + 2);
                    lemma_round_trip_u8(0, s, p + 3);
                }
            },
            Layout::MultiANewArray => {
                if let Instruction::MultiANewArray { index, dimensions } = i {
                    lemma_occurs_split(s, p, spec_u16_bytes(index.0), seq![dimensions]);
                    lemma_round_trip_u16(index.0, s, p);
                    lemma_round_trip_u8(dimensions, s, p + 2);
                }
            },
            Layout::NewArray => {
                if let Instruction::NewArray { ty } = i {
                    lemma_round_trip_u8(ty.spec_code(), s, p);
                }
            },
            _ => {},
        }
    }
}

/// The instructions of a code array from offset `p` to its end.  `wide` says whether the
/// instruction before `p` was `Wide`; the flag holds for one instruction only.
#[verifier::opaque]
pub open spec fn spec_read_code(s: Seq<u8>, p: int, wide: bool) -> Result<Seq<InstructionView>, Error>
    decreases s.len() - p,
{
    if p < 0 || p >= s.len() {
        Ok(Seq::empty())
    } else {
        match Instruction::spec_read(s, p, wide, p) {
            Err(e) => Err(e),
            Ok((head, q)) => if q <= p || q > s.len() {
                Err(Error::UnexpectedEof)
            } else {
                match spec_read_code(s, q, head.is_wide_prefix()) {
                    Err(e) => Err(e),
                    Ok(tail) => Ok(seq![head] + tail),
                }
            },
        }
    }
}

/// Reading a code array is reading one instruction and then the rest, in wide mode exactly
/// where that instruction was `Wide`.
pub proof fn lemma_read_code_unfold(s: Seq<u8>, p: int, wide: bool)
    ensures
        p < 0
            || p >= s.len() ==> spec_read_code(s, p, wide) == Ok::<Seq<InstructionView>, Error>(Seq::empty()),
        0 <= p < s.len() ==> spec_read_code(s, p, wide) == match Instruction::spec_read(s, p, wide, p) {
            Err(e) => Err(e),
            Ok((head, q)) => if q <= p || q > s.len() {
                Err(Error::UnexpectedEof)
            } else {
                match spec_read_code(s, q, head.is_wide_prefix()) {
                    Err(e) => Err(e),
                    Ok(tail) => Ok(seq![head] + tail),
                }
            },
        },
{
    reveal(spec_read_code);
}

/// The bytes of the instructions, the first of them at offset `position`.
pub open spec fn spec_write_code(xs: Seq<InstructionView>, position: int) -> Seq<u8>
    decreases xs.len(),
{
    if xs.len() == 0 {
        Seq::empty()
    } else {
        xs[0].spec_write(position) + spec_write_code(xs.skip(1), position + xs[0].spec_write(position).len())
    }
}

/// Whether reading can produce this sequence of instructions behind a predecessor that
/// was `Wide` (`wide`) or was not.
pub open spec fn spec_wf_code(xs: Seq<InstructionView>, wide: bool) -> bool
    decreases xs.len(),
{
    xs.len() > 0 ==> xs[0].wf(wide) && spec_wf_code(xs.skip(1), xs[0].is_wide_prefix())
}

/// Decodes a whole code array.
pub fn read_code(code: &[u8], ctx: &ReadContext) -> (r: Result<Vec<Instruction>, Error>)
    ensures
        match spec_read_code(code@, 0, false) {
            Ok(v) => r matches Ok(rv) && views(rv@) == v,
            Err(e) => r == Err::<Vec<Instruction>, Error>(e),
        },
{
    let mut out: Vec<Instruction> = Vec::new();
    let mut pos: usize = 0;
    let mut wide = false;
    proof {
        assert(views(out@) =~= Seq::<InstructionView>::empty());
        match spec_read_code(code@, 0, false) {
            Ok(tail) => {
                assert(views(out@) + tail =~= tail);
            },
            Err(e) => {},
        }
    }
    while pos < code.len()
        invariant
            pos <= code@.len(),
            spec_read_code(code@, 0, false) == match spec_read_code(code@, pos as int, wide) {
                Ok(tail) => Ok::<Seq<InstructionView>, Error>(views(out@) + tail),
                Err(e) => Err(e),
            },
        decreases code@.len() - pos,
    {
        proof {
            lemma_read_code_unfold(code@, pos as int, wide);
        }
        let here = ctx.instruction(pos as u64, wide);
        let (instruction, next) = match Instruction::read(code, pos, &here) {
            Ok(x) => x,
            Err(e) => {
                return Err(e);
            },
        };
        let ghost before = views(out@);
        let ghost head = instruction@;
        wide = match instruction {
            Instruction::Wide => true,
            _ => false,
        };
        out.push(instruction);
        proof {
            assert(views(out@) =~= before.push(head));
            match spec_read_code(code@, next as int, head.is_wide_prefix()) {
                Ok(tail) => {
                    assert(before + (seq![head] + tail) =~= views(out@) + tail);
                },
                Err(e) => {},
            }
        }
        pos = next;
    }
    proof {
        lemma_read_code_unfold(code@, pos as int, wide);
        assert(views(out@) + Seq::<InstructionView>::empty() =~= views(out@));
    }
    Ok(out)
}

/// Encodes a code array, the first instruction at offset 0.
pub fn write_code(xs: &Vec<Instruction>) -> (out: Vec<u8>)
    ensures
        out@ == spec_write_code(views(xs@), 0),
{
    let mut out: Vec<u8> = Vec::new();
    let mut i: usize = 0;
    proof {
        assert(views(xs@).skip(0) =~= views(xs@));
        assert(out@ + spec_write_code(views(xs@), 0) =~= spec_write_code(views(xs@), 0));
    }
    while i < xs.len()
        invariant
            i <= xs.len(),
            spec_write_code(views(xs@), 0) == out@
                + spec_write_code(views(xs@).skip(i as int), out@.len() as int),
        decreases xs.len() - i,
    {
        let ghost before = out@;
        let ghost rest = views(xs@).skip(i as int);
        let ctx = WriteContext { position: Some(out.len() as u64) };
        xs[i].write(&mut out, &ctx);
        proof {
            assert(rest.skip(1) =~= views(xs@).skip(i + 1));
            assert(rest[0] == xs@[i as int]@);
            let w = rest[0].spec_write(before.len() as int);
            assert(out@ == before + w);
            assert(before + (w + spec_write_code(rest.skip(1), (before.len() + w.len()) as int)) =~= out@ + spec_write_code(
                views(xs@).skip(i + 1),
                out@.len() as int,
            ));
        }
        i += 1;
    }
    proof {
        assert(out@ + Seq::<u8>::empty() =~= out@);
    }
    out
}

/// Reading back a written code array that reading can produce yields its instructions.
pub proof fn lemma_round_trip_code(xs: Seq<InstructionView>, s: Seq<u8>, p: int, wide: bool)
    requires
        spec_wf_code(xs, wide),
        0 <= p,
        occurs_at(s, p, spec_write_code(xs, p)),
        p + spec_write_code(xs, p).len() == s.len(),
    ensures
        spec_read_code(s, p, wide) == Ok::<Seq<InstructionView>, Error>(xs),
    decreases xs.len(),
{
    lemma_read_code_unfold(s, p, wide);
    if xs.len() == 0 {
        assert(xs =~= Seq::<InstructionView>::empty());
    } else {
        let w = xs[0].spec_write(p);
        let rest = xs.skip(1);
        lemma_occurs_split(s, p, w, spec_write_code(rest, p + w.len()));
        Instruction::lemma_round_trip(xs[0], s, p, wide, p);
        lemma_round_trip_code(rest, s, p + w.len(), xs[0].is_wide_prefix());
        assert(seq![xs[0]] + rest =~= xs);
    }
}

impl Instruction {
    /// The instruction that an opcode without operands names.
    proof fn lemma_named_plain(opcode: u8)
        ensures
            Self::spec_layout_of(opcode) == Layout::Plain ==> Self::spec_plain(opcode).spec_opcode() == opcode
                && Self::spec_plain(opcode).spec_layout() == Layout::Plain,
    {
    }

    /// The instruction that an opcode with a local variable index names.
    proof fn lemma_named_local(opcode: u8, index: SizedIndex)
        ensures
            Self::spec_layout_of(opcode) == Layout::Local ==> Self::spec_local(opcode, index).spec_opcode() == opcode
                && Self::spec_local(opcode, index).spec_layout() == Layout::Local && Self::spec_local(
                opcode,
                index,
            ).spec_index() == index,
    {
    }

    /// The instruction that an opcode with a two-byte pool index names.
    proof fn lemma_named_pool16(opcode: u8, pool: WideIndex)
        ensures
            Self::spec_layout_of(opcode) == Layout::Pool16 ==> Self::spec_pool16(opcode, pool).spec_opcode() == opcode
                && Self::spec_pool16(opcode, pool).spec_layout() == Layout::Pool16 && Self::spec_pool16(
                opcode,
                pool,
            ).spec_pool_index() == pool,
    {
    }

    /// The instruction that an opcode with a branch offset names.
    proof fn lemma_named_branch(opcode: u8, near: u16, far: u32)
        ensures
            Self::spec_layout_of(opcode) == Layout::Branch16 ==> Self::spec_branch16(opcode, near).spec_opcode()
                == opcode && Self::spec_branch16(opcode, near).spec_layout() == Layout::Branch16
                && Self::spec_branch16(opcode, near).spec_offset16() == near,
            Self::spec_layout_of(opcode) == Layout::Branch32 ==> Self::spec_branch32(opcode, far).spec_opcode()
                == opcode && Self::spec_branch32(opcode, far).spec_layout() == Layout::Branch32
                && Self::spec_branch32(opcode, far).spec_offset32() == far,
    {
    }

    /// The one opcode of each layout that a single instruction has for its own.
    proof fn lemma_named_alone(opcode: u8)
        ensures
            Self::spec_layout_of(opcode) == Layout::Increment ==> opcode == 0x84,
            Self::spec_layout_of(opcode) == Layout::Pool8 ==> opcode == 0x12,
            Self::spec_layout_of(opcode) == Layout::Byte ==> opcode == 0x10,
            Self::spec_layout_of(opcode) == Layout::Short ==> opcode == 0x11,
            Self::spec_layout_of(opcode) == Layout::InvokeDynamic ==> opcode == 0xBA,
            Self::spec_layout_of(opcode) == Layout::InvokeInterface ==> opcode == 0xB9,
            Self::spec_layout_of(opcode) == Layout::MultiANewArray ==> opcode == 0xC5,
            Self::spec_layout_of(opcode) == Layout::NewArray ==> opcode == 0xBC,
            Self::spec_layout_of(opcode) == Layout::TableSwitch ==> opcode == 0xAA,
            Self::spec_layout_of(opcode) == Layout::LookUpSwitch ==> opcode == 0xAB,
    {
    }

    /// The instruction that an opcode names has that opcode and the layout of the opcode.
    pub proof fn lemma_named_by_opcode(opcode: u8, index: SizedIndex, pool: WideIndex, near: u16, far: u32)
        ensures
            Self::spec_layout_of(opcode) == Layout::Plain ==> Self::spec_plain(opcode).spec_opcode() == opcode
                && Self::spec_plain(opcode).spec_layout() == Layout::Plain,
            Self::spec_layout_of(opcode) == Layout::Local ==> Self::spec_local(opcode, index).spec_opcode() == opcode
                && Self::spec_local(opcode, index).spec_layout() == Layout::Local && Self::spec_local(
                opcode,
                index,
            ).spec_index() == index,
            Self::spec_layout_of(opcode) == Layout::Pool16 ==> Self::spec_pool16(opcode, pool).spec_opcode() == opcode
                && Self::spec_pool16(opcode, pool).spec_layout() == Layout::Pool16 && Self::spec_pool16(
                opcode,
                pool,
            ).spec_pool_index() == pool,
            Self::spec_layout_of(opcode) == Layout::Branch16 ==> Self::spec_branch16(opcode, near).spec_opcode()
                == opcode && Self::spec_branch16(opcode, near).spec_layout() == Layout::Branch16
                && Self::spec_branch16(opcode, near).spec_offset16() == near,
            Self::spec_layout_of(opcode) == Layout::Branch32 ==> Self::spec_branch32(opcode, far).spec_opcode()
                == opcode && Self::spec_branch32(opcode, far).spec_layout() == Layout::Branch32
                && Self::spec_branch32(opcode, far).spec_offset32() == far,
            Self::spec_layout_of(opcode) == Layout::Increment ==> opcode == 0x84,
            Self::spec_layout_of(opcode) == Layout::Pool8 ==> opcode == 0x12,
            Self::spec_layout_of(opcode) == Layout::Byte ==> opcode == 0x10,
            Self::spec_layout_of(opcode) == Layout::Short ==> opcode == 0x11,
            Self::spec_layout_of(opcode) == Layout::InvokeDynamic ==> opcode == 0xBA,
            Self::spec_layout_of(opcode) == Layout::InvokeInterface ==> opcode == 0xB9,
            Self::spec_layout_of(opcode) == Layout::MultiANewArray ==> opcode == 0xC5,
            Self::spec_layout_of(opcode) == Layout::NewArray ==> opcode == 0xBC,
            Self::spec_layout_of(opcode) == Layout::TableSwitch ==> opcode == 0xAA,
            Self::spec_layout_of(opcode) == Layout::LookUpSwitch ==> opcode == 0xAB,
    {
        Self::lemma_named_plain(opcode);
        Self::lemma_named_local(opcode, index);
        Self::lemma_named_pool16(opcode, pool);
        Self::lemma_named_branch(opcode, near, far);
        Self::lemma_named_alone(opcode);
    }

    /// A switch that was read is well formed, and has as many bytes as were taken.
    proof fn lemma_read_switch_wf(s: Seq<u8>, p: int, position: int)
        requires
            position >= 0,
        ensures
            Self::spec_read_table_switch(s, p, position) matches Ok((v, q)) ==> v.wf(false) && q + 1 == p
                + v.spec_write(position).len() && q <= s.len(),
            Self::spec_read_lookup_switch(s, p, position) matches Ok((v, q)) ==> v.wf(false) && q + 1 == p
                + v.spec_write(position).len() && q <= s.len(),
    {
        if let Ok((_, at0)) = spec_read_bytes(s, p, spec_padding(position)) {
            if let Ok((default, at1)) = spec_read_i32(s, at0) {
                if let Ok((low, at2)) = spec_read_i32(s, at1) {
                    if let Ok((high, at3)) = spec_read_i32(s, at2) {
                        if let Ok((offsets, at4)) = spec_read_i32s(s, at3, spec_table_len(low, high)) {
                            lemma_write_i32s_len(offsets);
                        }
                    }
                }
                if let Ok((n, at2)) = spec_read_i32(s, at1) {
                    if n >= 0 {
                        MatchOffsetPair::lemma_read_seq_wf(s, at2, n as nat);
                    }
                }
            }
        }
    }

    /// An instruction with a single operand that was read is well formed for the mode it was
    /// read in, and has as many bytes as were taken.
    proof fn lemma_read_wf_operand(s: Seq<u8>, p: int, wide: bool, position: int)
        requires
            spec_read_u8(s, p) matches Ok((opcode, _)) && (Self::spec_layout_of(opcode) == Layout::Local
                || Self::spec_layout_of(opcode) == Layout::Pool16
                    || Self::spec_layout_of(opcode) == Layout::Branch16
                || Self::spec_layout_of(opcode) == Layout::Branch32),
        ensures
            Self::spec_read(s, p, wide, position) matches Ok((v, q)) ==> v.wf(wide) && q == p + v.spec_write(
                position,
            ).len() && p < q <= s.len(),
    {
        let opcode = spec_read_u8(s, p)->Ok_0.0;
        let none = SizedIndex::Normal(SmallIndex(0));
        match Self::spec_layout_of(opcode) {
            Layout::Local => {
                if let Ok((index, q)) = SizedIndex::spec_read(s, p + 1, wide) {
                    Self::lemma_named_by_opcode(opcode, index, WideIndex(0), 0, 0);
                }
            },
            Layout::Pool16 => {
                if let Ok((v, q)) = spec_read_u16(s, p + 1) {
                    Self::lemma_named_by_opcode(opcode, none, WideIndex(v), 0, 0);
                }
            },
            Layout::Branch16 => {
                if let Ok((v, q)) = spec_read_u16(s, p + 1) {
                    Self::lemma_named_by_opcode(opcode, none, WideIndex(0), v, 0);
                }
            },
            _ => {
                if let Ok((v, q)) = spec_read_u32(s, p + 1) {
                    Self::lemma_named_by_opcode(opcode, none, WideIndex(0), 0, v);
                }
            },
        }
    }

    /// An instruction of a layout of its own that was read is well formed for the mode it
    /// was read in, and has as many bytes as were taken.
    proof fn lemma_read_wf_special(s: Seq<u8>, p: int, wide: bool, position: int)
        requires
            position >= 0,
            spec_read_u8(s, p) matches Ok((opcode, _)) && Self::spec_layout_of(opcode) != Layout::Local
                && Self::spec_layout_of(opcode) != Layout::Pool16
                    && Self::spec_layout_of(opcode) != Layout::Branch16
                && Self::spec_layout_of(opcode) != Layout::Branch32,
        ensures
            Self::spec_read(s, p, wide, position) matches Ok((v, q)) ==> v.wf(wide) && q == p + v.spec_write(
                position,
            ).len() && p < q <= s.len(),
    {
        let opcode = spec_read_u8(s, p)->Ok_0.0;
        Self::lemma_named_by_opcode(opcode, SizedIndex::Normal(SmallIndex(0)), WideIndex(0), 0, 0);
        Self::lemma_read_switch_wf(s, p + 1, position);
    }

    /// An instruction that was read is well formed for the mode it was read in, and has as
    /// many bytes as were taken.
    pub proof fn lemma_read_wf(s: Seq<u8>, p: int, wide: bool, position: int)
        requires
            position >= 0,
        ensures
            Self::spec_read(s, p, wide, position) matches Ok((v, q)) ==> v.wf(wide) && q == p + v.spec_write(
                position,
            ).len() && p < q <= s.len(),
    {
        if let Ok((opcode, _)) = spec_read_u8(s, p) {
            match Self::spec_layout_of(opcode) {
                Layout::Local | Layout::Pool16 | Layout::Branch16 | Layout::Branch32 => {
                    Self::lemma_read_wf_operand(s, p, wide, position);
                },
                _ => {
                    Self::lemma_read_wf_special(s, p, wide, position);
                },
            }
        }
    }
}

/// The instructions that were read from a code array are such as reading can produce, and
/// have as many bytes as the code array has from where reading began.
pub proof fn lemma_read_code_wf(s: Seq<u8>, p: int, wide: bool)
    requires
        0 <= p <= s.len(),
    ensures
        spec_read_code(s, p, wide) matches Ok(xs) ==> spec_wf_code(xs, wide)
            && p + spec_write_code(xs, p).len()
            == s.len(),
    decreases s.len() - p,
{
    lemma_read_code_unfold(s, p, wide);
    if p < s.len() {
        Instruction::lemma_read_wf(s, p, wide, p);
        if let Ok((head, q)) = Instruction::spec_read(s, p, wide, p) {
            lemma_read_code_wf(s, q, head.is_wide_prefix());
            if let Ok(tail) = spec_read_code(s, q, head.is_wide_prefix()) {
                let xs = seq![head] + tail;
                assert(xs.skip(1) =~= tail);
                assert(xs[0] == head);
            }
        }
    }
}

} // verus!
