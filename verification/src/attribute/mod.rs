//! Attributes of classes, fields, methods and code.

use crate::attribute::annotation::{Annotation, AnnotationView, ElementValue, ElementValueView};
use crate::attribute::bootstrap_methods::{BootstrapMethod, BootstrapMethodView};
use crate::attribute::code::{
    Instruction, InstructionView, lemma_read_code_wf, lemma_round_trip_code, read_code, spec_read_code,
    spec_wf_code, spec_write_code, write_code,
};
use crate::attribute::inner_classes::InnerClass;
use crate::attribute::line_number_table::LineNumberTable;
use crate::attribute::local_variable_table::LocalVariableTable;
use crate::attribute::local_variable_type_table::LocalVariableTypeTable;
use crate::attribute::method_parameters::MethodParameter;
use crate::attribute::module::{
    ModuleExports, ModuleExportsView, ModuleOpens, ModuleOpensView, ModuleProvides, ModuleProvidesView,
    ModuleRequires,
};
use crate::attribute::stack_map::{StackMapFrame, StackMapFrameView};
use crate::attribute::type_annotation::{TypeAnnotation, TypeAnnotationView};
use crate::bytes::{
    advanced, available, decoded, lemma_occurs_split, lemma_round_trip_u16, lemma_round_trip_u32,
    lemma_round_trip_u8, occurs_at, read_bytes, read_u16, read_u32, read_u8, spec_read_bytes, spec_read_u16,
    spec_read_u32, spec_read_u8, spec_u16_bytes, spec_u32_bytes, views, write_bytes, write_u16, write_u32,
    write_u8,
};
use crate::constant_pool::constant::{Constant, ConstantView, constant_view};
use crate::constant_pool::{ConstantPool, ConstantPoolIndex, spec_get};
use crate::error::Error;
use crate::flags::ModuleFlags;
use crate::io::{AttributeLocation, Compatibility, ReadContext};
use crate::version::JavaVersion;
use vstd::prelude::*;
use vstd::slice::{slice_subrange, slice_to_vec};
use vstd::string::StringExecFns;

pub mod annotation;
pub mod bootstrap_methods;
pub mod code;
pub mod inner_classes;
pub mod line_number_table;
pub mod local_variable_table;
pub mod local_variable_type_table;
pub mod method_parameters;
pub mod module;
pub mod stack_map;
pub mod type_annotation;

verus! {

/// An attribute whose body is kept as the bytes it was read as.
#[derive(Debug, Clone, PartialEq, Eq)]
pub struct RawAttribute {
    /// Index of the name.
    pub name: ConstantPoolIndex,
    /// The body as it stands in the file.
    pub info: Vec<u8>,
}

/// The mathematical value of a [`RawAttribute`].
pub struct RawAttributeView {
    pub name: ConstantPoolIndex,
    pub info: Seq<u8>,
}

impl View for RawAttribute {
    type V = RawAttributeView;

    open spec fn view(&self) -> RawAttributeView {
        RawAttributeView {
            name: self.name,
            info: self.info@,
        }
    }
}

impl RawAttributeView {
    /// Whether every count fits its length field and every part is itself well formed.
    pub open spec fn wf(self) -> bool {
        &&& self.name.wf()
        &&& self.info.len() <= 0xFFFF_FFFF
    }

    /// The bytes of the record: its fields in declaration order.
    #[verifier::opaque]
    pub open spec fn spec_write(self) -> Seq<u8> {
        self.name.spec_write() + spec_u32_bytes((self.info.len() % 0x1_0000_0000) as u32) + self.info
    }
}

impl RawAttribute {
    /// The record that starts at position `p` of `s`, with the position behind it.
    #[verifier::opaque]
    pub open spec fn spec_read(s: Seq<u8>, p: int) -> Result<(RawAttributeView, int), Error> {
        match ConstantPoolIndex::spec_read(s, p) {
            Err(e) => Err(e),
            Ok((name, at1)) => {
                match spec_read_u32(s, at1) {
                    Err(e) => Err(e),
                    Ok((n_info, at2)) => {
                        match spec_read_bytes(s, at2, n_info as int) {
                            Err(e) => Err(e),
                            Ok((info, at3)) => {
                                Ok((RawAttributeView { name, info }, at3))
                            },
                        }
                    },
                }
            },
        }
    }

    /// Reads the record that starts at `pos`.
    pub fn read(data: &[u8], pos: usize) -> (r: Result<(RawAttribute, usize), Error>)
        ensures
            decoded(r, Self::spec_read(data@, pos as int)),
            advanced(r, data@, pos),
    {
        proof {
            reveal(RawAttribute::spec_read);
        }
        let (name, pos1) = match ConstantPoolIndex::read(data, pos) {
            Ok(x) => x,
            Err(e) => return Err(e),
        };
        let (n_info, pos2) = match read_u32(data, pos1) {
            Ok(x) => x,
            Err(e) => return Err(e),
        };
        let (info, pos3) = match read_bytes(data, pos2, n_info as usize) {
            Ok(x) => x,
            Err(e) => return Err(e),
        };
        Ok((RawAttribute { name, info }, pos3))
    }

    /// Appends the bytes of the record.
    pub fn write(&self, out: &mut Vec<u8>)
        ensures
            final(out)@ == old(out)@ + self@.spec_write(),
    {
        self.name.write(out);
        write_u32(out, (self.info.len() as u64 % 0x1_0000_0000) as u32);
        write_bytes(out, self.info.as_slice());
        proof {
            reveal(RawAttributeView::spec_write);
            assert(out@ =~= old(out)@ + self@.spec_write());
        }
    }

    /// Reading back what `spec_write` gives for a well-formed record yields the record.
    pub proof fn lemma_round_trip(v: RawAttributeView, s: Seq<u8>, p: int)
        requires
            v.wf(),
            occurs_at(s, p, v.spec_write()),
        ensures
            Self::spec_read(s, p) == Ok::<(RawAttributeView, int), Error>((v, p + v.spec_write().len())),
    {
        reveal(RawAttribute::spec_read);
        reveal(RawAttributeView::spec_write);
        let w0 = v.name.spec_write();
        let w1 = spec_u32_bytes((v.info.len() % 0x1_0000_0000) as u32);
        let w2 = v.info;
        let a1 = w0 + w1;
        assert(a1.len() == w0.len() + w1.len());
        let a2 = a1 + w2;
        assert(a2.len() == a1.len() + w2.len());
        lemma_occurs_split(s, p, a1, w2);
        lemma_occurs_split(s, p, w0, w1);
        ConstantPoolIndex::lemma_round_trip(v.name, s, p);
        lemma_round_trip_u32((v.info.len() % 0x1_0000_0000) as u32, s, p + w0.len());
        assert(s.subrange(p + a1.len(), p + a1.len() + v.info.len()) == v.info);
    }

    /// A record that was read is well formed, and has as many bytes as were taken.
    pub proof fn lemma_read_wf(s: Seq<u8>, p: int)
        ensures
            Self::spec_read(s, p) matches Ok((v, q)) ==> v.wf() && q == p + v.spec_write().len()
                && q <= s.len(),
    {
        reveal(RawAttribute::spec_read);
        reveal(RawAttributeView::spec_write);
        ConstantPoolIndex::lemma_read_wf(s, p);
        if let Ok((name, at1)) = ConstantPoolIndex::spec_read(s, p) {
            if let Ok((n_info, at2)) = spec_read_u32(s, at1) {
                if let Ok((info, at3)) = spec_read_bytes(s, at2, n_info as int) {
                }
            }
        }
    }
}

/// One exception handler of a code body.
#[derive(Debug, Copy, Clone, PartialEq, Eq)]
pub struct ExceptionTable {
    /// First code offset that the handler covers.
    pub start_pc: u16,
    /// Code offset behind the last one that it covers.
    pub end_pc: u16,
    /// Code offset of the handler.
    pub handler_pc: u16,
    /// Class of the exceptions caught, or 0 for all.
    pub catch_type: u16,
}

impl View for ExceptionTable {
    type V = ExceptionTable;

    open spec fn view(&self) -> ExceptionTable {
        *self
    }
}

impl ExceptionTable {
    /// Whether every count fits its length field and every part is itself well formed.
    pub open spec fn wf(self) -> bool {
        true
    }

    /// The bytes of the record: its fields in declaration order.
    #[verifier::opaque]
    pub open spec fn spec_write(self) -> Seq<u8> {
        spec_u16_bytes(self.start_pc) + spec_u16_bytes(self.end_pc) + spec_u16_bytes(self.handler_pc)
            + spec_u16_bytes(self.catch_type)
    }
}

impl ExceptionTable {
    /// The record that starts at position `p` of `s`, with the position behind it.
    #[verifier::opaque]
    pub open spec fn spec_read(s: Seq<u8>, p: int) -> Result<(ExceptionTable, int), Error> {
        match spec_read_u16(s, p) {
            Err(e) => Err(e),
            Ok((start_pc, at1)) => {
                match spec_read_u16(s, at1) {
                    Err(e) => Err(e),
                    Ok((end_pc, at2)) => {
                        match spec_read_u16(s, at2) {
                            Err(e) => Err(e),
                            Ok((handler_pc, at3)) => {
                                match spec_read_u16(s, at3) {
                                    Err(e) => Err(e),
                                    Ok((catch_type, at4)) => {
                                        Ok((ExceptionTable { start_pc, end_pc, handler_pc, catch_type }, at4))
                                    },
                                }
                            },
                        }
                    },
                }
            },
        }
    }

    /// Reads the record that starts at `pos`.
    pub fn read(data: &[u8], pos: usize) -> (r: Result<(ExceptionTable, usize), Error>)
        ensures
            decoded(r, Self::spec_read(data@, pos as int)),
            advanced(r, data@, pos),
    {
        proof {
            reveal(ExceptionTable::spec_read);
        }
        let (start_pc, pos1) = match read_u16(data, pos) {
            Ok(x) => x,
            Err(e) => return Err(e),
        };
        let (end_pc, pos2) = match read_u16(data, pos1) {
            Ok(x) => x,
            Err(e) => return Err(e),
        };
        let (handler_pc, pos3) = match read_u16(data, pos2) {
            Ok(x) => x,
            Err(e) => return Err(e),
        };
        let (catch_type, pos4) = match read_u16(data, pos3) {
            Ok(x) => x,
            Err(e) => return Err(e),
        };
        Ok((ExceptionTable { start_pc, end_pc, handler_pc, catch_type }, pos4))
    }

    /// Appends the bytes of the record.
    pub fn write(&self, out: &mut Vec<u8>)
        ensures
            final(out)@ == old(out)@ + self@.spec_write(),
    {
        write_u16(out, self.start_pc);
        write_u16(out, self.end_pc);
        write_u16(out, self.handler_pc);
        write_u16(out, self.catch_type);
        proof {
            reveal(ExceptionTable::spec_write);
            assert(out@ =~= old(out)@ + self@.spec_write());
        }
    }

    /// Reading back what `spec_write` gives for a well-formed record yields the record.
    pub proof fn lemma_round_trip(v: ExceptionTable, s: Seq<u8>, p: int)
        requires
            v.wf(),
            occurs_at(s, p, v.spec_write()),
        ensures
            Self::spec_read(s, p) == Ok::<(ExceptionTable, int), Error>((v, p + v.spec_write().len())),
    {
        reveal(ExceptionTable::spec_read);
        reveal(ExceptionTable::spec_write);
        let w0 = spec_u16_bytes(v.start_pc);
        let w1 = spec_u16_bytes(v.end_pc);
        let w2 = spec_u16_bytes(v.handler_pc);
        let w3 = spec_u16_bytes(v.catch_type);
        let a1 = w0 + w1;
        assert(a1.len() == w0.len() + w1.len());
        let a2 = a1 + w2;
        assert(a2.len() == a1.len() + w2.len());
        let a3 = a2 + w3;
        assert(a3.len() == a2.len() + w3.len());
        lemma_occurs_split(s, p, a2, w3);
        lemma_occurs_split(s, p, a1, w2);
        lemma_occurs_split(s, p, w0, w1);
        lemma_round_trip_u16(v.start_pc, s, p);
        lemma_round_trip_u16(v.end_pc, s, p + w0.len());
        lemma_round_trip_u16(v.handler_pc, s, p + a1.len());
        lemma_round_trip_u16(v.catch_type, s, p + a2.len());
    }

    /// A record that was read is well formed, and has as many bytes as were taken.
    pub proof fn lemma_read_wf(s: Seq<u8>, p: int)
        ensures
            Self::spec_read(s, p) matches Ok((v, q)) ==> v.wf() && q == p + v.spec_write().len()
                && q <= s.len(),
    {
        reveal(ExceptionTable::spec_read);
        reveal(ExceptionTable::spec_write);
        if let Ok((start_pc, at1)) = spec_read_u16(s, p) {
            if let Ok((end_pc, at2)) = spec_read_u16(s, at1) {
                if let Ok((handler_pc, at3)) = spec_read_u16(s, at2) {
                    if let Ok((catch_type, at4)) = spec_read_u16(s, at3) {
                    }
                }
            }
        }
    }
}

impl ExceptionTable {
    /// Whether each element is well formed.
    #[verifier::opaque]
    pub open spec fn wf_seq(xs: Seq<ExceptionTable>) -> bool {
        forall|i: int| 0 <= i < xs.len() ==> (#[trigger] xs[i]).wf()
    }

    /// The elements one after the other, without a count.
    #[verifier::opaque]
    pub open spec fn spec_write_seq(xs: Seq<ExceptionTable>) -> Seq<u8>
        decreases xs.len(),
    {
        if xs.len() == 0 {
            Seq::empty()
        } else {
            Self::spec_write_seq(xs.drop_last()) + xs.last().spec_write()
        }
    }

    /// The `n` elements that start at `p`, read one after the other.
    #[verifier::opaque]
    pub open spec fn spec_read_seq(s: Seq<u8>, p: int, n: nat) -> Result<(Seq<ExceptionTable>, int), Error>
        decreases n,
    {
        if n == 0 {
            Ok((Seq::empty(), p))
        } else {
            match Self::spec_read_seq(s, p, (n - 1) as nat) {
                Err(e) => Err(e),
                Ok((xs, q)) => match Self::spec_read(s, q) {
                    Err(e) => Err(e),
                    Ok((x, q2)) => Ok((xs.push(x), q2)),
                },
            }
        }
    }

    /// Once a prefix fails to read, every longer sequence fails the same way.
    pub proof fn lemma_read_seq_err(s: Seq<u8>, p: int, k: nat, n: nat)
        requires
            k <= n,
            Self::spec_read_seq(s, p, k) is Err,
        ensures
            Self::spec_read_seq(s, p, n) == Self::spec_read_seq(s, p, k),
        decreases n,
    {
        reveal(ExceptionTable::spec_read_seq);
        if k < n {
            Self::lemma_read_seq_err(s, p, k, (n - 1) as nat);
        }
    }

    /// Reads `n` elements one after the other, the first of them at `pos`.
    pub fn read_seq(data: &[u8], pos: usize, n: usize) -> (r: Result<(Vec<ExceptionTable>, usize), Error>)
        ensures
            match Self::spec_read_seq(data@, pos as int, n as nat) {
                Ok((v, p)) => r matches Ok((rv, rp)) && rv@ == v && rp as int == p,
                Err(e) => r == Err::<(Vec<ExceptionTable>, usize), Error>(e),
            },
            advanced(r, data@, pos),
    {
        let mut out: Vec<ExceptionTable> = Vec::new();
        let mut cur = pos;
        let mut i: usize = 0;
        proof {
            reveal(ExceptionTable::spec_read_seq);
        }
        while i < n
            invariant
                i <= n,
                pos <= data@.len() ==> pos <= cur <= data@.len(),
                Self::spec_read_seq(data@, pos as int, i as nat) == Ok::<(Seq<ExceptionTable>, int), Error>((out@, cur as int)),
            decreases n - i,
        {
            proof {
                reveal(ExceptionTable::spec_read_seq);
            }
            match Self::read(data, cur) {
                Err(e) => {
                    proof {
                        Self::lemma_read_seq_err(data@, pos as int, (i + 1) as nat, n as nat);
                    }
                    return Err(e);
                },
                Ok((x, next)) => {
                    out.push(x);
                    cur = next;
                },
            }
            i += 1;
        }
        Ok((out, cur))
    }

    /// Appends the bytes of the elements, one after the other.
    pub fn write_seq(xs: &Vec<ExceptionTable>, out: &mut Vec<u8>)
        ensures
            final(out)@ == old(out)@ + Self::spec_write_seq(xs@),
    {
        let mut i: usize = 0;
        proof {
            reveal(ExceptionTable::spec_write_seq);
        }
        while i < xs.len()
            invariant
                i <= xs.len(),
                out@ == old(out)@ + Self::spec_write_seq(xs@.take(i as int)),
            decreases xs.len() - i,
        {
            proof {
                reveal(ExceptionTable::spec_write_seq);
                let t = xs@.take(i + 1);
                assert(t.drop_last() =~= xs@.take(i as int));
            }
            xs[i].write(out);
            proof {
                reveal(ExceptionTable::spec_write_seq);
                assert(out@ =~= old(out)@ + Self::spec_write_seq(xs@.take(i + 1)));
            }
            i += 1;
        }
        proof {
            assert(xs@.take(xs.len() as int) =~= xs@);
        }
    }

    /// Reading back the elements that `spec_write_seq` wrote yields them all.
    pub proof fn lemma_round_trip_seq(xs: Seq<ExceptionTable>, s: Seq<u8>, p: int)
        requires
            Self::wf_seq(xs),
            occurs_at(s, p, Self::spec_write_seq(xs)),
        ensures
            Self::spec_read_seq(s, p, xs.len()) == Ok::<(Seq<ExceptionTable>, int), Error>(
                (xs, p + Self::spec_write_seq(xs).len()),
            ),
        decreases xs.len(),
    {
        reveal(ExceptionTable::spec_read_seq);
        reveal(ExceptionTable::spec_write_seq);
        reveal(ExceptionTable::wf_seq);
        if xs.len() > 0 {
            let front = xs.drop_last();
            let w = Self::spec_write_seq(front);
            assert forall|i: int| 0 <= i < front.len() implies (#[trigger] front[i]).wf() by {
                assert(front[i] == xs[i]);
            }
            assert(xs.last() == xs[xs.len() - 1]);
            lemma_occurs_split(s, p, w, xs.last().spec_write());
            Self::lemma_round_trip_seq(front, s, p);
            Self::lemma_round_trip(xs.last(), s, p + w.len());
            assert(front.push(xs.last()) =~= xs);
        } else {
            assert(xs =~= Seq::<ExceptionTable>::empty());
        }
    }

    /// Elements that were read are as many as were asked for and well formed, and have
    /// as many bytes as were taken.
    pub proof fn lemma_read_seq_wf(s: Seq<u8>, p: int, n: nat)
        ensures
            Self::spec_read_seq(s, p, n) matches Ok((xs, q)) ==> xs.len() == n && Self::wf_seq(xs)
                && q == p + Self::spec_write_seq(xs).len() && (p <= s.len() ==> q <= s.len()),
        decreases n,
    {
        reveal(ExceptionTable::spec_read_seq);
        reveal(ExceptionTable::spec_write_seq);
        reveal(ExceptionTable::wf_seq);
        if n > 0 {
            Self::lemma_read_seq_wf(s, p, (n - 1) as nat);
            if let Ok((front, q)) = Self::spec_read_seq(s, p, (n - 1) as nat) {
                Self::lemma_read_wf(s, q);
                if let Ok((x, q2)) = Self::spec_read(s, q) {
                    let xs = front.push(x);
                    assert(xs.drop_last() =~= front);
                    assert(xs.last() == x);
                    assert forall|i: int| 0 <= i < xs.len() implies (#[trigger] xs[i]).wf() by {
                        if i < front.len() {
                            assert(xs[i] == front[i]);
                        }
                    }
                }
            }
        }
    }
}

/// The annotations of one formal parameter.
#[derive(Debug, PartialEq, Eq)]
pub struct ParameterAnnotation {
    /// The annotations of the parameter.
    pub annotations: Vec<Annotation>,
}

/// The mathematical value of a [`ParameterAnnotation`].
pub struct ParameterAnnotationView {
    pub annotations: Seq<AnnotationView>,
}

impl View for ParameterAnnotation {
    type V = ParameterAnnotationView;

    open spec fn view(&self) -> ParameterAnnotationView {
        ParameterAnnotationView {
            annotations: views(self.annotations@),
        }
    }
}

impl ParameterAnnotationView {
    /// Whether every count fits its length field and every part is itself well formed.
    pub open spec fn wf(self) -> bool {
        &&& self.annotations.len() <= 0xFFFF
        &&& Annotation::wf_seq(self.annotations)
    }

    /// The bytes of the record: its fields in declaration order.
    #[verifier::opaque]
    pub open spec fn spec_write(self) -> Seq<u8> {
        spec_u16_bytes((self.annotations.len() % 0x1_0000) as u16)
            + Annotation::spec_write_seq(self.annotations)
    }
}

impl ParameterAnnotation {
    /// The record that starts at position `p` of `s`, with the position behind it.
    #[verifier::opaque]
    pub open spec fn spec_read(s: Seq<u8>, p: int) -> Result<(ParameterAnnotationView, int), Error> {
        match spec_read_u16(s, p) {
            Err(e) => Err(e),
            Ok((n_annotations, at1)) => {
                match Annotation::spec_read_seq(s, at1, n_annotations as nat) {
                    Err(e) => Err(e),
                    Ok((annotations, at2)) => {
                        Ok((ParameterAnnotationView { annotations }, at2))
                    },
                }
            },
        }
    }

    /// Reads the record that starts at `pos`.
    pub fn read(data: &[u8], pos: usize) -> (r: Result<(ParameterAnnotation, usize), Error>)
        ensures
            decoded(r, Self::spec_read(data@, pos as int)),
            advanced(r, data@, pos),
    {
        proof {
            reveal(ParameterAnnotation::spec_read);
        }
        let (n_annotations, pos1) = match read_u16(data, pos) {
            Ok(x) => x,
            Err(e) => return Err(e),
        };
        let (annotations, pos2) = match Annotation::read_seq(data, pos1, n_annotations as usize) {
            Ok(x) => x,
            Err(e) => return Err(e),
        };
        Ok((ParameterAnnotation { annotations }, pos2))
    }

    /// Appends the bytes of the record.
    pub fn write(&self, out: &mut Vec<u8>)
        ensures
            final(out)@ == old(out)@ + self@.spec_write(),
    {
        write_u16(out, (self.annotations.len() % 0x1_0000) as u16);
        Annotation::write_seq(&self.annotations, out);
        proof {
            reveal(ParameterAnnotationView::spec_write);
            assert(out@ =~= old(out)@ + self@.spec_write());
        }
    }

    /// Reading back what `spec_write` gives for a well-formed record yields the record.
    pub proof fn lemma_round_trip(v: ParameterAnnotationView, s: Seq<u8>, p: int)
        requires
            v.wf(),
            occurs_at(s, p, v.spec_write()),
        ensures
            Self::spec_read(s, p) == Ok::<(ParameterAnnotationView, int), Error>((v, p + v.spec_write().len())),
    {
        reveal(ParameterAnnotation::spec_read);
        reveal(ParameterAnnotationView::spec_write);
        let w0 = spec_u16_bytes((v.annotations.len() % 0x1_0000) as u16);
        let w1 = Annotation::spec_write_seq(v.annotations);
        let a1 = w0 + w1;
        assert(a1.len() == w0.len() + w1.len());
        lemma_occurs_split(s, p, w0, w1);
        lemma_round_trip_u16((v.annotations.len() % 0x1_0000) as u16, s, p);
        Annotation::lemma_round_trip_seq(v.annotations, s, p + w0.len());
    }

    /// A record that was read is well formed, and has as many bytes as were taken.
    pub proof fn lemma_read_wf(s: Seq<u8>, p: int)
        ensures
            Self::spec_read(s, p) matches Ok((v, q)) ==> v.wf() && q == p + v.spec_write().len()
                && q <= s.len(),
    {
        reveal(ParameterAnnotation::spec_read);
        reveal(ParameterAnnotationView::spec_write);
        if let Ok((n_annotations, at1)) = spec_read_u16(s, p) {
            Annotation::lemma_read_seq_wf(s, at1, n_annotations as nat);
            if let Ok((annotations, at2)) = Annotation::spec_read_seq(s, at1, n_annotations as nat) {
            }
        }
    }
}

impl ParameterAnnotation {
    /// Whether each element is well formed.
    #[verifier::opaque]
    pub open spec fn wf_seq(xs: Seq<ParameterAnnotationView>) -> bool {
        forall|i: int| 0 <= i < xs.len() ==> (#[trigger] xs[i]).wf()
    }

    /// The elements one after the other, without a count.
    #[verifier::opaque]
    pub open spec fn spec_write_seq(xs: Seq<ParameterAnnotationView>) -> Seq<u8>
        decreases xs.len(),
    {
        if xs.len() == 0 {
            Seq::empty()
        } else {
            Self::spec_write_seq(xs.drop_last()) + xs.last().spec_write()
        }
    }

    /// The `n` elements that start at `p`, read one after the other.
    #[verifier::opaque]
    pub open spec fn spec_read_seq(
        s: Seq<u8>,
        p: int,
        n: nat,
    ) -> Result<(Seq<ParameterAnnotationView>, int), Error>
        decreases n,
    {
        if n == 0 {
            Ok((Seq::empty(), p))
        } else {
            match Self::spec_read_seq(s, p, (n - 1) as nat) {
                Err(e) => Err(e),
                Ok((xs, q)) => match Self::spec_read(s, q) {
                    Err(e) => Err(e),
                    Ok((x, q2)) => Ok((xs.push(x), q2)),
                },
            }
        }
    }

    /// Once a prefix fails to read, every longer sequence fails the same way.
    pub proof fn lemma_read_seq_err(s: Seq<u8>, p: int, k: nat, n: nat)
        requires
            k <= n,
            Self::spec_read_seq(s, p, k) is Err,
        ensures
            Self::spec_read_seq(s, p, n) == Self::spec_read_seq(s, p, k),
        decreases n,
    {
        reveal(ParameterAnnotation::spec_read_seq);
        if k < n {
            Self::lemma_read_seq_err(s, p, k, (n - 1) as nat);
        }
    }

    /// Reads `n` elements one after the other, the first of them at `pos`.
    pub fn read_seq(
        data: &[u8],
        pos: usize,
        n: usize,
    ) -> (r: Result<(Vec<ParameterAnnotation>, usize), Error>)
        ensures
            match Self::spec_read_seq(data@, pos as int, n as nat) {
                Ok((v, p)) => r matches Ok((rv, rp)) && views(rv@) == v && rp as int == p,
                Err(e) => r == Err::<(Vec<ParameterAnnotation>, usize), Error>(e),
            },
            advanced(r, data@, pos),
    {
        let mut out: Vec<ParameterAnnotation> = Vec::new();
        let mut cur = pos;
        let mut i: usize = 0;
        proof {
            reveal(ParameterAnnotation::spec_read_seq);
        }
        assert(views(out@) =~= Seq::<ParameterAnnotationView>::empty());
        while i < n
            invariant
                i <= n,
                pos <= data@.len() ==> pos <= cur <= data@.len(),
                Self::spec_read_seq(data@, pos as int, i as nat) == Ok::<(Seq<ParameterAnnotationView>, int), Error>((views(out@), cur as int)),
            decreases n - i,
        {
            proof {
                reveal(ParameterAnnotation::spec_read_seq);
            }
            match Self::read(data, cur) {
                Err(e) => {
                    proof {
                        Self::lemma_read_seq_err(data@, pos as int, (i + 1) as nat, n as nat);
                    }
                    return Err(e);
                },
                Ok((x, next)) => {
                    proof {
                        assert(views(out@.push(x)) =~= views(out@).push(x@));
                    }
                    out.push(x);
                    cur = next;
                },
            }
            i += 1;
        }
        Ok((out, cur))
    }

    /// Appends the bytes of the elements, one after the other.
    pub fn write_seq(xs: &Vec<ParameterAnnotation>, out: &mut Vec<u8>)
        ensures
            final(out)@ == old(out)@ + Self::spec_write_seq(views(xs@)),
    {
        let mut i: usize = 0;
        proof {
            reveal(ParameterAnnotation::spec_write_seq);
        }
        while i < xs.len()
            invariant
                i <= xs.len(),
                out@ == old(out)@ + Self::spec_write_seq(views(xs@).take(i as int)),
            decreases xs.len() - i,
        {
            proof {
                reveal(ParameterAnnotation::spec_write_seq);
                let t = views(xs@).take(i + 1);
                assert(t.drop_last() =~= views(xs@).take(i as int));
            }
            xs[i].write(out);
            proof {
                reveal(ParameterAnnotation::spec_write_seq);
                assert(out@ =~= old(out)@ + Self::spec_write_seq(views(xs@).take(i + 1)));
            }
            i += 1;
        }
        proof {
            assert(views(xs@).take(xs.len() as int) =~= views(xs@));
        }
    }

    /// Reading back the elements that `spec_write_seq` wrote yields them all.
    pub proof fn lemma_round_trip_seq(xs: Seq<ParameterAnnotationView>, s: Seq<u8>, p: int)
        requires
            Self::wf_seq(xs),
            occurs_at(s, p, Self::spec_write_seq(xs)),
        ensures
            Self::spec_read_seq(s, p, xs.len()) == Ok::<(Seq<ParameterAnnotationView>, int), Error>(
                (xs, p + Self::spec_write_seq(xs).len()),
            ),
        decreases xs.len(),
    {
        reveal(ParameterAnnotation::spec_read_seq);
        reveal(ParameterAnnotation::spec_write_seq);
        reveal(ParameterAnnotation::wf_seq);
        if xs.len() > 0 {
            let front = xs.drop_last();
            let w = Self::spec_write_seq(front);
            assert forall|i: int| 0 <= i < front.len() implies (#[trigger] front[i]).wf() by {
                assert(front[i] == xs[i]);
            }
            assert(xs.last() == xs[xs.len() - 1]);
            lemma_occurs_split(s, p, w, xs.last().spec_write());
            Self::lemma_round_trip_seq(front, s, p);
            Self::lemma_round_trip(xs.last(), s, p + w.len());
            assert(front.push(xs.last()) =~= xs);
        } else {
            assert(xs =~= Seq::<ParameterAnnotationView>::empty());
        }
    }

    /// Elements that were read are as many as were asked for and well formed, and have
    /// as many bytes as were taken.
    pub proof fn lemma_read_seq_wf(s: Seq<u8>, p: int, n: nat)
        ensures
            Self::spec_read_seq(s, p, n) matches Ok((xs, q)) ==> xs.len() == n && Self::wf_seq(xs)
                && q == p + Self::spec_write_seq(xs).len() && (p <= s.len() ==> q <= s.len()),
        decreases n,
    {
        reveal(ParameterAnnotation::spec_read_seq);
        reveal(ParameterAnnotation::spec_write_seq);
        reveal(ParameterAnnotation::wf_seq);
        if n > 0 {
            Self::lemma_read_seq_wf(s, p, (n - 1) as nat);
            if let Ok((front, q)) = Self::spec_read_seq(s, p, (n - 1) as nat) {
                Self::lemma_read_wf(s, q);
                if let Ok((x, q2)) = Self::spec_read(s, q) {
                    let xs = front.push(x);
                    assert(xs.drop_last() =~= front);
                    assert(xs.last() == x);
                    assert forall|i: int| 0 <= i < xs.len() implies (#[trigger] xs[i]).wf() by {
                        if i < front.len() {
                            assert(xs[i] == front[i]);
                        }
                    }
                }
            }
        }
    }
}

/// An attribute with a name, a length field and a body that are written as they are.
/// Only writing knows this form.
#[derive(Debug, Clone, PartialEq, Eq)]
pub struct CustomAttribute {
    pub name: ConstantPoolIndex,
    /// What is written as the length of the body, whatever the body holds.
    pub length: u32,
    pub info: Vec<u8>,
}

/// The mathematical value of a [`CustomAttribute`].
pub struct CustomAttributeView {
    pub name: ConstantPoolIndex,
    pub length: u32,
    pub info: Seq<u8>,
}

impl View for CustomAttribute {
    type V = CustomAttributeView;

    open spec fn view(&self) -> CustomAttributeView {
        CustomAttributeView { name: self.name, length: self.length, info: self.info@ }
    }
}

impl CustomAttributeView {
    pub open spec fn spec_write(self) -> Seq<u8> {
        spec_u16_bytes(self.name.0) + spec_u32_bytes(self.length) + self.info
    }
}

impl CustomAttribute {
    /// The attribute whose body of `length` bytes stands at `p`.
    pub open spec fn spec_read(s: Seq<u8>, p: int, name: ConstantPoolIndex, length: u32) -> Result<
        (CustomAttributeView, int),
        Error,
    > {
        match spec_read_bytes(s, p, length as int) {
            Err(e) => Err(e),
            Ok((info, q)) => Ok((CustomAttributeView { name, length, info }, q)),
        }
    }

    /// Reads the body of the attribute that the context names, as long as the context says.
    pub fn read(data: &[u8], pos: usize, ctx: &ReadContext) -> (r: Result<(CustomAttribute, usize), Error>)
        requires
            ctx.name is Some,
            ctx.length is Some,
        ensures
            decoded(r, Self::spec_read(data@, pos as int, ctx.name->Some_0, ctx.length->Some_0)),
            advanced(r, data@, pos),
    {
        let (name, length) = match (ctx.name, ctx.length) {
            (Some(name), Some(length)) => (name, length),
            _ => {
                return Err(Error::UnexpectedEof);
            },
        };
        match read_bytes(data, pos, length as usize) {
            Ok((info, q)) => Ok((CustomAttribute { name, length, info }, q)),
            Err(e) => Err(e),
        }
    }

    /// Appends the name index, the length field and the body.
    pub fn write(&self, out: &mut Vec<u8>)
        ensures
            final(out)@ == old(out)@ + self@.spec_write(),
    {
        write_u16(out, self.name.0);
        write_u32(out, self.length);
        write_bytes(out, self.info.as_slice());
        proof {
            assert(out@ =~= old(out)@ + self@.spec_write());
        }
    }
}

/// An attribute of a class, field, method or code body.
///
/// Every attribute of a known kind carries the index of its name.  An attribute that
/// breaks a rule of its kind is kept whole inside one of the wrappers.
#[derive(Debug, PartialEq, Eq)]
pub enum Attribute {
    /// The constant that initialises a field.
    ConstantValue { name: ConstantPoolIndex, value: ConstantPoolIndex },
    /// The body of a method.
    Code {
        name: ConstantPoolIndex,
        max_stack: Compatibility<u8, u16>,
        max_locals: Compatibility<u8, u16>,
        code: Compatibility<Vec<Instruction>, Vec<Instruction>>,
        exception_table: Vec<ExceptionTable>,
        attributes: Vec<Attribute>,
    },
    /// Type states for the verifier.
    StackMapTable { name: ConstantPoolIndex, entries: Vec<StackMapFrame> },
    /// The checked exceptions a method may throw.
    Exceptions { name: ConstantPoolIndex, exception_index_table: Vec<ConstantPoolIndex> },
    /// The nested classes that the pool mentions.
    InnerClasses { name: ConstantPoolIndex, classes: Vec<InnerClass> },
    /// The method that encloses a local or anonymous class.
    EnclosingMethod { name: ConstantPoolIndex, class: ConstantPoolIndex, method: ConstantPoolIndex },
    /// Marks what the source does not declare.
    Synthetic { name: ConstantPoolIndex },
    /// The generic signature.
    Signature { name: ConstantPoolIndex, signature: ConstantPoolIndex },
    /// The name of the source file.
    SourceFile { name: ConstantPoolIndex, sourcefile: ConstantPoolIndex },
    /// Debugging information: the whole body, as the bytes it was read as.
    SourceDebugExtension { name: ConstantPoolIndex, debug_extensions: Vec<u8> },
    /// Which code belongs to which source line.
    LineNumberTable { name: ConstantPoolIndex, line_numbers: Vec<LineNumberTable> },
    /// Names and types of the local variables.
    LocalVariableTable { name: ConstantPoolIndex, local_variables: Vec<LocalVariableTable> },
    /// Generic signatures of the local variables.
    LocalVariableTypeTable {
        name: ConstantPoolIndex,
        local_variable_type_table: Vec<LocalVariableTypeTable>,
    },
    /// Marks what is superseded.
    Deprecated { name: ConstantPoolIndex },
    RuntimeVisibleAnnotations { name: ConstantPoolIndex, annotations: Vec<Annotation> },
    RuntimeInvisibleAnnotations { name: ConstantPoolIndex, annotations: Vec<Annotation> },
    RuntimeVisibleParameterAnnotations { name: ConstantPoolIndex, annotations: Vec<ParameterAnnotation> },
    RuntimeInvisibleParameterAnnotations { name: ConstantPoolIndex, annotations: Vec<ParameterAnnotation> },
    RuntimeVisibleTypeAnnotations { name: ConstantPoolIndex, annotations: Vec<TypeAnnotation> },
    RuntimeInvisibleTypeAnnotations { name: ConstantPoolIndex, annotations: Vec<TypeAnnotation> },
    /// The default value of an annotation element.
    AnnotationDefault { name: ConstantPoolIndex, default_value: ElementValue },
    /// The bootstrap methods of the dynamic call sites.
    BootstrapMethods { name: ConstantPoolIndex, methods: Vec<BootstrapMethod> },
    /// Names and flags of the formal parameters.
    MethodParameters { name: ConstantPoolIndex, parameters: Vec<MethodParameter> },
    /// The declaration of a module.
    Module {
        name: ConstantPoolIndex,
        module_name: ConstantPoolIndex,
        flags: ModuleFlags,
        module_version: ConstantPoolIndex,
        module_requires: ModuleRequires,
        exports: ModuleExports,
        opens: ModuleOpens,
        uses: Vec<ConstantPoolIndex>,
        provides: ModuleProvides,
    },
    /// The packages of a module.
    ModulePackages { name: ConstantPoolIndex, packages: Vec<ConstantPoolIndex> },
    /// The main class of a module.
    ModuleMainClass { name: ConstantPoolIndex, main_class: ConstantPoolIndex },
    /// The host of the nest that a class belongs to.
    NestHost { name: ConstantPoolIndex, host_class: ConstantPoolIndex },
    /// The members of the nest that a class hosts.
    NestMembers { name: ConstantPoolIndex, classes: Vec<ConstantPoolIndex> },
    /// The name refers to a string constant that is no modified UTF-8; the body is kept as it is.
    InvalidUtf8(RawAttribute),
    /// The name refers to no string constant; the body is kept as it is.
    IllegalNameReference(RawAttribute),
    /// An attribute that the version does not have yet, at a place where it may not stand.
    UnsupportedAndInvalidLocation(Box<Attribute>),
    /// An attribute at a place where it may not stand.
    InvalidLocation(Box<Attribute>),
    /// An attribute that the version of the file does not have yet.
    Unsupported(Box<Attribute>),
    /// An attribute of a name that this library does not know; the body is kept as it is.
    Unknown(RawAttribute),
    /// A name and body that are written as they are; never produced by reading.
    Raw(RawAttribute),
    /// A name, a length field and a body that are written as they are; never produced by reading.
    Custom(CustomAttribute),
}

/// The mathematical value of an [`Attribute`].
pub enum AttributeView {
    ConstantValue { name: ConstantPoolIndex, value: ConstantPoolIndex },
    Code {
        name: ConstantPoolIndex,
        max_stack: Compatibility<u8, u16>,
        max_locals: Compatibility<u8, u16>,
        code: Compatibility<Seq<InstructionView>, Seq<InstructionView>>,
        exception_table: Seq<ExceptionTable>,
        attributes: Seq<AttributeView>,
    },
    StackMapTable { name: ConstantPoolIndex, entries: Seq<StackMapFrameView> },
    Exceptions { name: ConstantPoolIndex, exception_index_table: Seq<ConstantPoolIndex> },
    InnerClasses { name: ConstantPoolIndex, classes: Seq<InnerClass> },
    EnclosingMethod { name: ConstantPoolIndex, class: ConstantPoolIndex, method: ConstantPoolIndex },
    Synthetic { name: ConstantPoolIndex },
    Signature { name: ConstantPoolIndex, signature: ConstantPoolIndex },
    SourceFile { name: ConstantPoolIndex, sourcefile: ConstantPoolIndex },
    SourceDebugExtension { name: ConstantPoolIndex, debug_extensions: Seq<u8> },
    LineNumberTable { name: ConstantPoolIndex, line_numbers: Seq<LineNumberTable> },
    LocalVariableTable { name: ConstantPoolIndex, local_variables: Seq<LocalVariableTable> },
    LocalVariableTypeTable {
        name: ConstantPoolIndex,
        local_variable_type_table: Seq<LocalVariableTypeTable>,
    },
    Deprecated { name: ConstantPoolIndex },
    RuntimeVisibleAnnotations { name: ConstantPoolIndex, annotations: Seq<AnnotationView> },
    RuntimeInvisibleAnnotations { name: ConstantPoolIndex, annotations: Seq<AnnotationView> },
    RuntimeVisibleParameterAnnotations { name: ConstantPoolIndex, annotations: Seq<ParameterAnnotationView> },
    RuntimeInvisibleParameterAnnotations {
        name: ConstantPoolIndex,
        annotations: Seq<ParameterAnnotationView>,
    },
    RuntimeVisibleTypeAnnotations { name: ConstantPoolIndex, annotations: Seq<TypeAnnotationView> },
    RuntimeInvisibleTypeAnnotations { name: ConstantPoolIndex, annotations: Seq<TypeAnnotationView> },
    AnnotationDefault { name: ConstantPoolIndex, default_value: ElementValueView },
    BootstrapMethods { name: ConstantPoolIndex, methods: Seq<BootstrapMethodView> },
    MethodParameters { name: ConstantPoolIndex, parameters: Seq<MethodParameter> },
    Module {
        name: ConstantPoolIndex,
        module_name: ConstantPoolIndex,
        flags: ModuleFlags,
        module_version: ConstantPoolIndex,
        module_requires: ModuleRequires,
        exports: ModuleExportsView,
        opens: ModuleOpensView,
        uses: Seq<ConstantPoolIndex>,
        provides: ModuleProvidesView,
    },
    ModulePackages { name: ConstantPoolIndex, packages: Seq<ConstantPoolIndex> },
    ModuleMainClass { name: ConstantPoolIndex, main_class: ConstantPoolIndex },
    NestHost { name: ConstantPoolIndex, host_class: ConstantPoolIndex },
    NestMembers { name: ConstantPoolIndex, classes: Seq<ConstantPoolIndex> },
    InvalidUtf8(RawAttributeView),
    IllegalNameReference(RawAttributeView),
    UnsupportedAndInvalidLocation(Box<AttributeView>),
    InvalidLocation(Box<AttributeView>),
    Unsupported(Box<AttributeView>),
    Unknown(RawAttributeView),
    Raw(RawAttributeView),
    Custom(CustomAttributeView),
}

/// The kinds of attribute that this library knows by name.
#[derive(Debug, Copy, Clone, PartialEq, Eq, Structural)]
pub enum AttributeKind {
    ConstantValue,
    Code,
    StackMapTable,
    Exceptions,
    InnerClasses,
    EnclosingMethod,
    Synthetic,
    Signature,
    SourceFile,
    SourceDebugExtension,
    LineNumberTable,
    LocalVariableTable,
    LocalVariableTypeTable,
    Deprecated,
    RuntimeVisibleAnnotations,
    RuntimeInvisibleAnnotations,
    RuntimeVisibleParameterAnnotations,
    RuntimeInvisibleParameterAnnotations,
    RuntimeVisibleTypeAnnotations,
    RuntimeInvisibleTypeAnnotations,
    AnnotationDefault,
    BootstrapMethods,
    MethodParameters,
    Module,
    ModulePackages,
    ModuleMainClass,
    NestHost,
    NestMembers,
}

/// The value of an attribute, its buffers and lists taken by their contents.
pub open spec fn attribute_view(a: Attribute) -> AttributeView
    decreases a,
{
    match a {
        Attribute::ConstantValue { name, value } => AttributeView::ConstantValue {
            name,
            value,
        },
        Attribute::Code { name, max_stack, max_locals, code, exception_table, attributes } => AttributeView::Code {
            name,
            max_stack,
            max_locals,
            code: match code {
                Compatibility::PreJava1(v) => Compatibility::PreJava1(views(v@)),
                Compatibility::Current(v) => Compatibility::Current(views(v@)),
            },
            exception_table: exception_table@,
            attributes: Seq::new(
                attributes@.len(),
                |i: int|
                    if 0 <= i < attributes@.len() {
                        attribute_view(attributes@[i])
                    } else {
                        arbitrary()
                    },
            ),
        },
        Attribute::StackMapTable { name, entries } => AttributeView::StackMapTable {
            name,
            entries: views(entries@),
        },
        Attribute::Exceptions { name, exception_index_table } => AttributeView::Exceptions {
            name,
            exception_index_table: exception_index_table@,
        },
        Attribute::InnerClasses { name, classes } => AttributeView::InnerClasses {
            name,
            classes: classes@,
        },
        Attribute::EnclosingMethod { name, class, method } => AttributeView::EnclosingMethod {
            name,
            class,
            method,
        },
        Attribute::Synthetic { name } => AttributeView::Synthetic {
            name,
        },
        Attribute::Signature { name, signature } => AttributeView::Signature {
            name,
            signature,
        },
        Attribute::SourceFile { name, sourcefile } => AttributeView::SourceFile {
            name,
            sourcefile,
        },
        Attribute::SourceDebugExtension { name, debug_extensions } => AttributeView::SourceDebugExtension {
            name,
            debug_extensions: debug_extensions@,
        },
        Attribute::LineNumberTable { name, line_numbers } => AttributeView::LineNumberTable {
            name,
            line_numbers: line_numbers@,
        },
        Attribute::LocalVariableTable { name, local_variables } => AttributeView::LocalVariableTable {
            name,
            local_variables: local_variables@,
        },
        Attribute::LocalVariableTypeTable { name, local_variable_type_table } => AttributeView::LocalVariableTypeTable {
            name,
            local_variable_type_table: local_variable_type_table@,
        },
        Attribute::Deprecated { name } => AttributeView::Deprecated {
            name,
        },
        Attribute::RuntimeVisibleAnnotations { name, annotations } => AttributeView::RuntimeVisibleAnnotations {
            name,
            annotations: views(annotations@),
        },
        Attribute::RuntimeInvisibleAnnotations { name, annotations } => AttributeView::RuntimeInvisibleAnnotations {
            name,
            annotations: views(annotations@),
        },
        Attribute::RuntimeVisibleParameterAnnotations { name, annotations } => AttributeView::RuntimeVisibleParameterAnnotations {
            name,
            annotations: views(annotations@),
        },
        Attribute::RuntimeInvisibleParameterAnnotations { name, annotations } => AttributeView::RuntimeInvisibleParameterAnnotations {
            name,
            annotations: views(annotations@),
        },
        Attribute::RuntimeVisibleTypeAnnotations { name, annotations } => AttributeView::RuntimeVisibleTypeAnnotations {
            name,
            annotations: views(annotations@),
        },
        Attribute::RuntimeInvisibleTypeAnnotations { name, annotations } => AttributeView::RuntimeInvisibleTypeAnnotations {
            name,
            annotations: views(annotations@),
        },
        Attribute::AnnotationDefault { name, default_value } => AttributeView::AnnotationDefault {
            name,
            default_value: default_value@,
        },
        Attribute::BootstrapMethods { name, methods } => AttributeView::BootstrapMethods {
            name,
            methods: views(methods@),
        },
        Attribute::MethodParameters { name, parameters } => AttributeView::MethodParameters {
            name,
            parameters: parameters@,
        },
        Attribute::Module { name, module_name, flags, module_version, module_requires, exports, opens, uses, provides } => AttributeView::Module {
            name,
            module_name,
            flags,
            module_version,
            module_requires,
            exports: exports@,
            opens: opens@,
            uses: uses@,
            provides: provides@,
        },
        Attribute::ModulePackages { name, packages } => AttributeView::ModulePackages {
            name,
            packages: packages@,
        },
        Attribute::ModuleMainClass { name, main_class } => AttributeView::ModuleMainClass {
            name,
            main_class,
        },
        Attribute::NestHost { name, host_class } => AttributeView::NestHost {
            name,
            host_class,
        },
        Attribute::NestMembers { name, classes } => AttributeView::NestMembers {
            name,
            classes: classes@,
        },
        Attribute::InvalidUtf8(raw) => AttributeView::InvalidUtf8(raw@),
        Attribute::IllegalNameReference(raw) => AttributeView::IllegalNameReference(raw@),
        Attribute::UnsupportedAndInvalidLocation(inner) => AttributeView::UnsupportedAndInvalidLocation(Box::new(attribute_view(*inner))),
        Attribute::InvalidLocation(inner) => AttributeView::InvalidLocation(Box::new(attribute_view(*inner))),
        Attribute::Unsupported(inner) => AttributeView::Unsupported(Box::new(attribute_view(*inner))),
        Attribute::Unknown(raw) => AttributeView::Unknown(raw@),
        Attribute::Raw(raw) => AttributeView::Raw(raw@),
        Attribute::Custom(raw) => AttributeView::Custom(raw@),
    }
}

impl View for Attribute {
    type V = AttributeView;

    open spec fn view(&self) -> AttributeView {
        attribute_view(*self)
    }
}

impl AttributeKind {
    /// The kind that an attribute name stands for, if any.
    pub open spec fn spec_of_name(name: Seq<char>) -> Option<AttributeKind> {
        if name == "ConstantValue"@ {
            Some(AttributeKind::ConstantValue)
        } else if name == "Code"@ {
            Some(AttributeKind::Code)
        } else if name == "StackMapTable"@ {
            Some(AttributeKind::StackMapTable)
        } else if name == "Exceptions"@ {
            Some(AttributeKind::Exceptions)
        } else if name == "InnerClasses"@ {
            Some(AttributeKind::InnerClasses)
        } else if name == "EnclosingMethod"@ {
            Some(AttributeKind::EnclosingMethod)
        } else if name == "Synthetic"@ {
            Some(AttributeKind::Synthetic)
        } else if name == "Signature"@ {
            Some(AttributeKind::Signature)
        } else if name == "SourceFile"@ {
            Some(AttributeKind::SourceFile)
        } else if name == "SourceDebugExtension"@ {
            Some(AttributeKind::SourceDebugExtension)
        } else if name == "LineNumberTable"@ {
            Some(AttributeKind::LineNumberTable)
        } else if name == "LocalVariableTable"@ {
            Some(AttributeKind::LocalVariableTable)
        } else if name == "LocalVariableTypeTable"@ {
            Some(AttributeKind::LocalVariableTypeTable)
        } else if name == "Deprecated"@ {
            Some(AttributeKind::Deprecated)
        } else if name == "RuntimeVisibleAnnotations"@ {
            Some(AttributeKind::RuntimeVisibleAnnotations)
        } else if name == "RuntimeInvisibleAnnotations"@ {
            Some(AttributeKind::RuntimeInvisibleAnnotations)
        } else if name == "RuntimeVisibleParameterAnnotations"@ {
            Some(AttributeKind::RuntimeVisibleParameterAnnotations)
        } else if name == "RuntimeInvisibleParameterAnnotations"@ {
            Some(AttributeKind::RuntimeInvisibleParameterAnnotations)
        } else if name == "RuntimeVisibleTypeAnnotations"@ {
            Some(AttributeKind::RuntimeVisibleTypeAnnotations)
        } else if name == "RuntimeInvisibleTypeAnnotations"@ {
            Some(AttributeKind::RuntimeInvisibleTypeAnnotations)
        } else if name == "AnnotationDefault"@ {
            Some(AttributeKind::AnnotationDefault)
        } else if name == "BootstrapMethods"@ {
            Some(AttributeKind::BootstrapMethods)
        } else if name == "MethodParameters"@ {
            Some(AttributeKind::MethodParameters)
        } else if name == "Module"@ {
            Some(AttributeKind::Module)
        } else if name == "ModulePackages"@ {
            Some(AttributeKind::ModulePackages)
        } else if name == "ModuleMainClass"@ {
            Some(AttributeKind::ModuleMainClass)
        } else if name == "NestHost"@ {
            Some(AttributeKind::NestHost)
        } else if name == "NestMembers"@ {
            Some(AttributeKind::NestMembers)
        } else {
            None
        }
    }

    /// The first version that has attributes of the kind, as `(major, minor)`.
    pub open spec fn spec_min_version(self) -> (u16, u16) {
        match self {
            AttributeKind::ConstantValue | AttributeKind::Code | AttributeKind::Exceptions | AttributeKind::InnerClasses | AttributeKind::Synthetic | AttributeKind::SourceFile | AttributeKind::LineNumberTable | AttributeKind::LocalVariableTable | AttributeKind::Deprecated => (45, 3),
            AttributeKind::StackMapTable => (50, 0),
            AttributeKind::EnclosingMethod | AttributeKind::Signature | AttributeKind::SourceDebugExtension | AttributeKind::LocalVariableTypeTable | AttributeKind::RuntimeVisibleAnnotations | AttributeKind::RuntimeInvisibleAnnotations | AttributeKind::RuntimeVisibleParameterAnnotations | AttributeKind::RuntimeInvisibleParameterAnnotations | AttributeKind::AnnotationDefault => (49, 0),
            AttributeKind::RuntimeVisibleTypeAnnotations | AttributeKind::RuntimeInvisibleTypeAnnotations | AttributeKind::MethodParameters => (52, 0),
            AttributeKind::BootstrapMethods => (51, 0),
            AttributeKind::Module | AttributeKind::ModulePackages | AttributeKind::ModuleMainClass => (53, 0),
            AttributeKind::NestHost | AttributeKind::NestMembers => (55, 0),
        }
    }

    /// Whether an attribute of the kind may be attached at `location`.
    pub open spec fn spec_allowed_at(self, location: AttributeLocation) -> bool {
        match self {
            AttributeKind::ConstantValue => location == AttributeLocation::Field,
            AttributeKind::Code | AttributeKind::Exceptions | AttributeKind::RuntimeVisibleParameterAnnotations | AttributeKind::RuntimeInvisibleParameterAnnotations | AttributeKind::AnnotationDefault | AttributeKind::MethodParameters => location == AttributeLocation::Method,
            AttributeKind::StackMapTable | AttributeKind::LineNumberTable | AttributeKind::LocalVariableTable | AttributeKind::LocalVariableTypeTable => location == AttributeLocation::Code,
            AttributeKind::InnerClasses | AttributeKind::EnclosingMethod | AttributeKind::SourceFile | AttributeKind::SourceDebugExtension | AttributeKind::BootstrapMethods | AttributeKind::Module | AttributeKind::ModulePackages | AttributeKind::ModuleMainClass | AttributeKind::NestHost | AttributeKind::NestMembers => location == AttributeLocation::ClassFile,
            AttributeKind::Synthetic | AttributeKind::Signature | AttributeKind::Deprecated | AttributeKind::RuntimeVisibleAnnotations | AttributeKind::RuntimeInvisibleAnnotations => location == AttributeLocation::ClassFile
                || location == AttributeLocation::Field || location == AttributeLocation::Method,
            AttributeKind::RuntimeVisibleTypeAnnotations | AttributeKind::RuntimeInvisibleTypeAnnotations => true,
        }
    }

    /// The kind that an attribute name stands for, if any.
    pub fn of_name(name: &String) -> (r: Option<AttributeKind>)
        ensures
            r == Self::spec_of_name(name@),
    {
        if is_text(name, "ConstantValue") {
            Some(AttributeKind::ConstantValue)
        } else if is_text(name, "Code") {
            Some(AttributeKind::Code)
        } else if is_text(name, "StackMapTable") {
            Some(AttributeKind::StackMapTable)
        } else if is_text(name, "Exceptions") {
            Some(AttributeKind::Exceptions)
        } else if is_text(name, "InnerClasses") {
            Some(AttributeKind::InnerClasses)
        } else if is_text(name, "EnclosingMethod") {
            Some(AttributeKind::EnclosingMethod)
        } else if is_text(name, "Synthetic") {
            Some(AttributeKind::Synthetic)
        } else if is_text(name, "Signature") {
            Some(AttributeKind::Signature)
        } else if is_text(name, "SourceFile") {
            Some(AttributeKind::SourceFile)
        } else if is_text(name, "SourceDebugExtension") {
            Some(AttributeKind::SourceDebugExtension)
        } else if is_text(name, "LineNumberTable") {
            Some(AttributeKind::LineNumberTable)
        } else if is_text(name, "LocalVariableTable") {
            Some(AttributeKind::LocalVariableTable)
        } else if is_text(name, "LocalVariableTypeTable") {
            Some(AttributeKind::LocalVariableTypeTable)
        } else if is_text(name, "Deprecated") {
            Some(AttributeKind::Deprecated)
        } else if is_text(name, "RuntimeVisibleAnnotations") {
            Some(AttributeKind::RuntimeVisibleAnnotations)
        } else if is_text(name, "RuntimeInvisibleAnnotations") {
            Some(AttributeKind::RuntimeInvisibleAnnotations)
        } else if is_text(name, "RuntimeVisibleParameterAnnotations") {
            Some(AttributeKind::RuntimeVisibleParameterAnnotations)
        } else if is_text(name, "RuntimeInvisibleParameterAnnotations") {
            Some(AttributeKind::RuntimeInvisibleParameterAnnotations)
        } else if is_text(name, "RuntimeVisibleTypeAnnotations") {
            Some(AttributeKind::RuntimeVisibleTypeAnnotations)
        } else if is_text(name, "RuntimeInvisibleTypeAnnotations") {
            Some(AttributeKind::RuntimeInvisibleTypeAnnotations)
        } else if is_text(name, "AnnotationDefault") {
            Some(AttributeKind::AnnotationDefault)
        } else if is_text(name, "BootstrapMethods") {
            Some(AttributeKind::BootstrapMethods)
        } else if is_text(name, "MethodParameters") {
            Some(AttributeKind::MethodParameters)
        } else if is_text(name, "Module") {
            Some(AttributeKind::Module)
        } else if is_text(name, "ModulePackages") {
            Some(AttributeKind::ModulePackages)
        } else if is_text(name, "ModuleMainClass") {
            Some(AttributeKind::ModuleMainClass)
        } else if is_text(name, "NestHost") {
            Some(AttributeKind::NestHost)
        } else if is_text(name, "NestMembers") {
            Some(AttributeKind::NestMembers)
        } else {
            None
        }
    }

    /// The first version that has attributes of the kind, as `(major, minor)`.
    pub fn min_version(&self) -> (r: (u16, u16))
        ensures
            r == self.spec_min_version(),
    {
        match self {
            AttributeKind::ConstantValue | AttributeKind::Code | AttributeKind::Exceptions | AttributeKind::InnerClasses | AttributeKind::Synthetic | AttributeKind::SourceFile | AttributeKind::LineNumberTable | AttributeKind::LocalVariableTable | AttributeKind::Deprecated => (45, 3),
            AttributeKind::StackMapTable => (50, 0),
            AttributeKind::EnclosingMethod | AttributeKind::Signature | AttributeKind::SourceDebugExtension | AttributeKind::LocalVariableTypeTable | AttributeKind::RuntimeVisibleAnnotations | AttributeKind::RuntimeInvisibleAnnotations | AttributeKind::RuntimeVisibleParameterAnnotations | AttributeKind::RuntimeInvisibleParameterAnnotations | AttributeKind::AnnotationDefault => (49, 0),
            AttributeKind::RuntimeVisibleTypeAnnotations | AttributeKind::RuntimeInvisibleTypeAnnotations | AttributeKind::MethodParameters => (52, 0),
            AttributeKind::BootstrapMethods => (51, 0),
            AttributeKind::Module | AttributeKind::ModulePackages | AttributeKind::ModuleMainClass => (53, 0),
            AttributeKind::NestHost | AttributeKind::NestMembers => (55, 0),
        }
    }

    /// Whether an attribute of the kind may be attached at `location`.
    pub fn allowed_at(&self, location: AttributeLocation) -> (r: bool)
        ensures
            r == self.spec_allowed_at(location),
    {
        match self {
            AttributeKind::ConstantValue => match location {
                AttributeLocation::Field => true,
                _ => false,
            },
            AttributeKind::Code | AttributeKind::Exceptions | AttributeKind::RuntimeVisibleParameterAnnotations | AttributeKind::RuntimeInvisibleParameterAnnotations | AttributeKind::AnnotationDefault | AttributeKind::MethodParameters => match location {
                AttributeLocation::Method => true,
                _ => false,
            },
            AttributeKind::StackMapTable | AttributeKind::LineNumberTable | AttributeKind::LocalVariableTable | AttributeKind::LocalVariableTypeTable => match location {
                AttributeLocation::Code => true,
                _ => false,
            },
            AttributeKind::InnerClasses | AttributeKind::EnclosingMethod | AttributeKind::SourceFile | AttributeKind::SourceDebugExtension | AttributeKind::BootstrapMethods | AttributeKind::Module | AttributeKind::ModulePackages | AttributeKind::ModuleMainClass | AttributeKind::NestHost | AttributeKind::NestMembers => match location {
                AttributeLocation::ClassFile => true,
                _ => false,
            },
            AttributeKind::Synthetic | AttributeKind::Signature | AttributeKind::Deprecated | AttributeKind::RuntimeVisibleAnnotations | AttributeKind::RuntimeInvisibleAnnotations => match location {
                AttributeLocation::ClassFile | AttributeLocation::Field | AttributeLocation::Method => true,
                _ => false,
            },
            AttributeKind::RuntimeVisibleTypeAnnotations | AttributeKind::RuntimeInvisibleTypeAnnotations => true,
        }
    }

}

impl AttributeView {
    /// The kind of an attribute that is held bare; nothing for a wrapper.
    pub open spec fn spec_kind(self) -> Option<AttributeKind> {
        match self {
            AttributeView::ConstantValue { .. } => Some(AttributeKind::ConstantValue),
            AttributeView::Code { .. } => Some(AttributeKind::Code),
            AttributeView::StackMapTable { .. } => Some(AttributeKind::StackMapTable),
            AttributeView::Exceptions { .. } => Some(AttributeKind::Exceptions),
            AttributeView::InnerClasses { .. } => Some(AttributeKind::InnerClasses),
            AttributeView::EnclosingMethod { .. } => Some(AttributeKind::EnclosingMethod),
            AttributeView::Synthetic { .. } => Some(AttributeKind::Synthetic),
            AttributeView::Signature { .. } => Some(AttributeKind::Signature),
            AttributeView::SourceFile { .. } => Some(AttributeKind::SourceFile),
            AttributeView::SourceDebugExtension { .. } => Some(AttributeKind::SourceDebugExtension),
            AttributeView::LineNumberTable { .. } => Some(AttributeKind::LineNumberTable),
            AttributeView::LocalVariableTable { .. } => Some(AttributeKind::LocalVariableTable),
            AttributeView::LocalVariableTypeTable { .. } => Some(AttributeKind::LocalVariableTypeTable),
            AttributeView::Deprecated { .. } => Some(AttributeKind::Deprecated),
            AttributeView::RuntimeVisibleAnnotations { .. } => Some(AttributeKind::RuntimeVisibleAnnotations),
            AttributeView::RuntimeInvisibleAnnotations { .. } => Some(AttributeKind::RuntimeInvisibleAnnotations),
            AttributeView::RuntimeVisibleParameterAnnotations { .. } => Some(AttributeKind::RuntimeVisibleParameterAnnotations),
            AttributeView::RuntimeInvisibleParameterAnnotations { .. } => Some(AttributeKind::RuntimeInvisibleParameterAnnotations),
            AttributeView::RuntimeVisibleTypeAnnotations { .. } => Some(AttributeKind::RuntimeVisibleTypeAnnotations),
            AttributeView::RuntimeInvisibleTypeAnnotations { .. } => Some(AttributeKind::RuntimeInvisibleTypeAnnotations),
            AttributeView::AnnotationDefault { .. } => Some(AttributeKind::AnnotationDefault),
            AttributeView::BootstrapMethods { .. } => Some(AttributeKind::BootstrapMethods),
            AttributeView::MethodParameters { .. } => Some(AttributeKind::MethodParameters),
            AttributeView::Module { .. } => Some(AttributeKind::Module),
            AttributeView::ModulePackages { .. } => Some(AttributeKind::ModulePackages),
            AttributeView::ModuleMainClass { .. } => Some(AttributeKind::ModuleMainClass),
            AttributeView::NestHost { .. } => Some(AttributeKind::NestHost),
            AttributeView::NestMembers { .. } => Some(AttributeKind::NestMembers),
            _ => None,
        }
    }

    /// The name index of an attribute that is held bare.
    pub open spec fn spec_name(self) -> ConstantPoolIndex {
        match self {
            AttributeView::ConstantValue { name, .. } | AttributeView::Code { name, .. } | AttributeView::StackMapTable { name, .. } | AttributeView::Exceptions { name, .. } | AttributeView::InnerClasses { name, .. } | AttributeView::EnclosingMethod { name, .. } | AttributeView::Synthetic { name, .. } | AttributeView::Signature { name, .. } | AttributeView::SourceFile { name, .. } | AttributeView::SourceDebugExtension { name, .. } | AttributeView::LineNumberTable { name, .. } | AttributeView::LocalVariableTable { name, .. } | AttributeView::LocalVariableTypeTable { name, .. } | AttributeView::Deprecated { name, .. } | AttributeView::RuntimeVisibleAnnotations { name, .. } | AttributeView::RuntimeInvisibleAnnotations { name, .. } | AttributeView::RuntimeVisibleParameterAnnotations { name, .. } | AttributeView::RuntimeInvisibleParameterAnnotations { name, .. } | AttributeView::RuntimeVisibleTypeAnnotations { name, .. } | AttributeView::RuntimeInvisibleTypeAnnotations { name, .. } | AttributeView::AnnotationDefault { name, .. } | AttributeView::BootstrapMethods { name, .. } | AttributeView::MethodParameters { name, .. } | AttributeView::Module { name, .. } | AttributeView::ModulePackages { name, .. } | AttributeView::ModuleMainClass { name, .. } | AttributeView::NestHost { name, .. } | AttributeView::NestMembers { name, .. } => name,
            _ => ConstantPoolIndex(0),
        }
    }
}

/// What the name index of an attribute leads to.
#[derive(Debug, Copy, Clone, PartialEq, Eq)]
pub enum ResolvedName {
    /// A string that names a kind this library knows.
    Known(AttributeKind),
    /// A string that names no kind this library knows.
    Unknown,
    /// A string constant whose payload is no modified UTF-8.
    InvalidUtf8,
    /// No constant, or one that is no string.
    Illegal,
}

/// What the name index `index` leads to in `pool`.  A string constant counts also where
/// the version of the file does not have string constants yet.
pub open spec fn spec_resolve(pool: Seq<ConstantView>, index: ConstantPoolIndex) -> ResolvedName {
    match spec_get(pool, index) {
        Some(ConstantView::Utf8(text)) => spec_resolve_text(text),
        Some(ConstantView::Unsupported(inner)) => match *inner {
            ConstantView::Utf8(text) => spec_resolve_text(text),
            _ => ResolvedName::Illegal,
        },
        Some(ConstantView::InvalidUtf8(_)) => ResolvedName::InvalidUtf8,
        _ => ResolvedName::Illegal,
    }
}

pub open spec fn spec_resolve_text(text: Seq<char>) -> ResolvedName {
    match AttributeKind::spec_of_name(text) {
        Some(kind) => ResolvedName::Known(kind),
        None => ResolvedName::Unknown,
    }
}

fn is_text(name: &String, text: &str) -> (r: bool)
    ensures
        r == (name@ == text@),
{
    let other = String::from_str(text);
    *name == other
}

fn resolve_text(text: &String) -> (r: ResolvedName)
    ensures
        r == spec_resolve_text(text@),
{
    match AttributeKind::of_name(text) {
        Some(kind) => ResolvedName::Known(kind),
        None => ResolvedName::Unknown,
    }
}

/// Looks the name index of an attribute up in the pool.
pub fn resolve(pool: &ConstantPool, index: ConstantPoolIndex) -> (r: ResolvedName)
    ensures
        r == spec_resolve(pool@, index),
{
    proof {
        reveal_with_fuel(constant_view, 2);
    }
    match pool.get(index) {
        Some(Constant::Utf8(text)) => resolve_text(text),
        Some(Constant::Unsupported(inner)) => match &**inner {
            Constant::Utf8(text) => resolve_text(text),
            _ => ResolvedName::Illegal,
        },
        Some(Constant::InvalidUtf8(_)) => ResolvedName::InvalidUtf8,
        _ => ResolvedName::Illegal,
    }
}

/// What the decoder of a body owes: a value with the expected view, or the expected error.
pub open spec fn body_decoded<T: View>(r: Result<T, Error>, expected: Result<T::V, Error>) -> bool {
    match expected {
        Ok(v) => r matches Ok(rv) && rv@ == v,
        Err(e) => r == Err::<T, Error>(e),
    }
}

/// The bytes of a stack or locals limit: one byte in the old form, two in the current.
pub open spec fn spec_write_limit(limit: Compatibility<u8, u16>) -> Seq<u8> {
    match limit {
        Compatibility::PreJava1(v) => seq![v],
        Compatibility::Current(v) => spec_u16_bytes(v),
    }
}

/// The stack or locals limit at `p`, in the form of the version.
pub open spec fn spec_read_limit(s: Seq<u8>, p: int, version: JavaVersion) -> Result<
    (Compatibility<u8, u16>, int),
    Error,
> {
    if version.spec_supports(45, 3) {
        match spec_read_u16(s, p) {
            Err(e) => Err(e),
            Ok((v, q)) => Ok((Compatibility::Current(v), q)),
        }
    } else {
        match spec_read_u8(s, p) {
            Err(e) => Err(e),
            Ok((v, q)) => Ok((Compatibility::PreJava1(v), q)),
        }
    }
}

/// The code array at `p`: its length, in four bytes in the current form and two in the
/// old one, and as many bytes.
pub open spec fn spec_read_code_bytes(
    s: Seq<u8>,
    p: int,
    version: JavaVersion,
) -> Result<(Seq<u8>, int), Error> {
    if version.spec_supports(45, 3) {
        match spec_read_u32(s, p) {
            Err(e) => Err(e),
            Ok((n, q)) => spec_read_bytes(s, q, n as int),
        }
    } else {
        match spec_read_u16(s, p) {
            Err(e) => Err(e),
            Ok((n, q)) => spec_read_bytes(s, q, n as int),
        }
    }
}

/// The instructions of a code array as the version frames them.
pub open spec fn spec_framed(
    instructions: Seq<InstructionView>,
    version: JavaVersion,
) -> Compatibility<Seq<InstructionView>, Seq<InstructionView>> {
    if version.spec_supports(45, 3) {
        Compatibility::Current(instructions)
    } else {
        Compatibility::PreJava1(instructions)
    }
}

/// The instructions of a framed code array.
pub open spec fn spec_instructions(
    code: Compatibility<Seq<InstructionView>, Seq<InstructionView>>,
) -> Seq<InstructionView> {
    match code {
        Compatibility::PreJava1(v) => v,
        Compatibility::Current(v) => v,
    }
}

/// The bytes of a framed code array: the length of its bytes, then the bytes.
pub open spec fn spec_write_code_bytes(
    code: Compatibility<Seq<InstructionView>, Seq<InstructionView>>,
) -> Seq<u8> {
    match code {
        Compatibility::PreJava1(v) => spec_u16_bytes((spec_write_code(v, 0).len() % 0x1_0000) as u16)
            + spec_write_code(
            v,
            0,
        ),
        Compatibility::Current(v) => spec_u32_bytes((spec_write_code(v, 0).len() % 0x1_0000_0000) as u32)
            + spec_write_code(v, 0),
    }
}

fn read_limit(
    data: &[u8],
    pos: usize,
    version: &JavaVersion,
) -> (r: Result<(Compatibility<u8, u16>, usize), Error>)
    ensures
        match spec_read_limit(data@, pos as int, *version) {
            Ok((v, p)) => r matches Ok((rv, rp)) && rv == v && rp as int == p,
            Err(e) => r == Err::<(Compatibility<u8, u16>, usize), Error>(e),
        },
        advanced(r, data@, pos),
{
    if version.supports(45, 3) {
        match read_u16(data, pos) {
            Ok((v, q)) => Ok((Compatibility::Current(v), q)),
            Err(e) => Err(e),
        }
    } else {
        match read_u8(data, pos) {
            Ok((v, q)) => Ok((Compatibility::PreJava1(v), q)),
            Err(e) => Err(e),
        }
    }
}

fn write_limit(limit: &Compatibility<u8, u16>, out: &mut Vec<u8>)
    ensures
        final(out)@ == old(out)@ + spec_write_limit(*limit),
{
    match limit {
        Compatibility::PreJava1(v) => write_u8(out, *v),
        Compatibility::Current(v) => write_u16(out, *v),
    }
}

/// The position and length of the code array whose length field stands at `pos`.
fn read_code_bounds(data: &[u8], pos: usize, version: &JavaVersion) -> (r: Result<(usize, usize), Error>)
    ensures
        match spec_read_code_bytes(data@, pos as int, *version) {
            Ok((bytes, p)) => r matches Ok((start, end)) && start <= end <= data@.len()
                && bytes == data@.subrange(
                start as int,
                end as int,
            ) && end as int == p && (pos <= data@.len() ==> pos <= start),
            Err(e) => r == Err::<(usize, usize), Error>(e),
        },
{
    let (n, start) = if version.supports(45, 3) {
        match read_u32(data, pos) {
            Ok((n, q)) => (n as usize, q),
            Err(e) => {
                return Err(e);
            },
        }
    } else {
        match read_u16(data, pos) {
            Ok((n, q)) => (n as usize, q),
            Err(e) => {
                return Err(e);
            },
        }
    };
    if !available(data, start, n) {
        return Err(Error::UnexpectedEof);
    }
    Ok((start, start + n))
}

impl AttributeView {
    /// The attribute as it is handed out: bare where its kind is supported by the version
    /// and allowed at the location, else inside the wrapper that says what is wrong.
    pub open spec fn degraded(self, supported: bool, allowed: bool) -> AttributeView {
        if supported {
            if allowed {
                self
            } else {
                AttributeView::InvalidLocation(Box::new(self))
            }
        } else {
            if allowed {
                AttributeView::Unsupported(Box::new(self))
            } else {
                AttributeView::UnsupportedAndInvalidLocation(Box::new(self))
            }
        }
    }

    /// The body of an attribute of a known kind other than `Code`: its fields in order.
    pub open spec fn spec_write_fields(self) -> Seq<u8> {
        match self {
            AttributeView::SourceDebugExtension { name, debug_extensions } => debug_extensions,
            AttributeView::ConstantValue { name, value } => value.spec_write(),
            AttributeView::StackMapTable { name, entries } => spec_u16_bytes((entries.len() % 0x1_0000) as u16)
                + StackMapFrame::spec_write_seq(entries),
            AttributeView::Exceptions { name, exception_index_table } => spec_u16_bytes((exception_index_table.len() % 0x1_0000) as u16)
                + ConstantPoolIndex::spec_write_seq(exception_index_table),
            AttributeView::InnerClasses { name, classes } => spec_u16_bytes((classes.len() % 0x1_0000) as u16)
                + InnerClass::spec_write_seq(classes),
            AttributeView::EnclosingMethod { name, class, method } => class.spec_write()
                + method.spec_write(),
            AttributeView::Synthetic { name } => Seq::empty(),
            AttributeView::Signature { name, signature } => signature.spec_write(),
            AttributeView::SourceFile { name, sourcefile } => sourcefile.spec_write(),
            AttributeView::LineNumberTable { name, line_numbers } => spec_u16_bytes((line_numbers.len() % 0x1_0000) as u16)
                + LineNumberTable::spec_write_seq(line_numbers),
            AttributeView::LocalVariableTable { name, local_variables } => spec_u16_bytes((local_variables.len() % 0x1_0000) as u16)
                + LocalVariableTable::spec_write_seq(local_variables),
            AttributeView::LocalVariableTypeTable { name, local_variable_type_table } => spec_u16_bytes((local_variable_type_table.len() % 0x1_0000) as u16)
                + LocalVariableTypeTable::spec_write_seq(local_variable_type_table),
            AttributeView::Deprecated { name } => Seq::empty(),
            AttributeView::RuntimeVisibleAnnotations { name, annotations } => spec_u16_bytes((annotations.len() % 0x1_0000) as u16)
                + Annotation::spec_write_seq(annotations),
            AttributeView::RuntimeInvisibleAnnotations { name, annotations } => spec_u16_bytes((annotations.len() % 0x1_0000) as u16)
                + Annotation::spec_write_seq(annotations),
            AttributeView::RuntimeVisibleParameterAnnotations { name, annotations } => seq![(annotations.len() % 0x100) as u8]
                + ParameterAnnotation::spec_write_seq(annotations),
            AttributeView::RuntimeInvisibleParameterAnnotations { name, annotations } => seq![(annotations.len() % 0x100) as u8]
                + ParameterAnnotation::spec_write_seq(annotations),
            AttributeView::RuntimeVisibleTypeAnnotations { name, annotations } => spec_u16_bytes((annotations.len() % 0x1_0000) as u16)
                + TypeAnnotation::spec_write_seq(annotations),
            AttributeView::RuntimeInvisibleTypeAnnotations { name, annotations } => spec_u16_bytes((annotations.len() % 0x1_0000) as u16)
                + TypeAnnotation::spec_write_seq(annotations),
            AttributeView::AnnotationDefault { name, default_value } => default_value.spec_write(),
            AttributeView::BootstrapMethods { name, methods } => spec_u16_bytes((methods.len() % 0x1_0000) as u16)
                + BootstrapMethod::spec_write_seq(methods),
            AttributeView::MethodParameters { name, parameters } => spec_u16_bytes((parameters.len() % 0x1_0000) as u16)
                + MethodParameter::spec_write_seq(parameters),
            AttributeView::Module { name, module_name, flags, module_version, module_requires, exports, opens, uses, provides } => module_name.spec_write()
                + flags.spec_write() + module_version.spec_write() + module_requires.spec_write()
                + exports.spec_write() + opens.spec_write() + spec_u16_bytes((uses.len() % 0x1_0000) as u16)
                + ConstantPoolIndex::spec_write_seq(uses) + provides.spec_write(),
            AttributeView::ModulePackages { name, packages } => spec_u16_bytes((packages.len() % 0x1_0000) as u16)
                + ConstantPoolIndex::spec_write_seq(packages),
            AttributeView::ModuleMainClass { name, main_class } => main_class.spec_write(),
            AttributeView::NestHost { name, host_class } => host_class.spec_write(),
            AttributeView::NestMembers { name, classes } => spec_u16_bytes((classes.len() % 0x1_0000) as u16)
                + ConstantPoolIndex::spec_write_seq(classes),
            _ => Seq::empty(),
        }
    }

    /// The first part of the body of a `Code` attribute: the limits and the code array.
    pub open spec fn spec_write_code_head(self) -> Seq<u8> {
        match self {
            AttributeView::Code { max_stack, max_locals, code, .. } => spec_write_limit(max_stack)
                + spec_write_limit(
                max_locals,
            ) + spec_write_code_bytes(code),
            _ => Seq::empty(),
        }
    }

    /// The body of an attribute of a known kind: what follows its length field.
    pub open spec fn spec_write_body(self) -> Seq<u8>
        decreases self, 0nat,
    {
        match self {
            AttributeView::Code { exception_table, attributes, .. } => self.spec_write_code_head()
                + (spec_u16_bytes(
                (exception_table.len() % 0x1_0000) as u16,
            ) + ExceptionTable::spec_write_seq(exception_table) + spec_u16_bytes(
                (attributes.len() % 0x1_0000) as u16,
            ) + Attribute::spec_write_seq(attributes)),
            _ => self.spec_write_fields(),
        }
    }

    /// The bytes of the attribute.  One of a known kind is its name index, the length of its
    /// body and the body; a wrapper adds nothing to what it wraps.
    pub open spec fn spec_write(self) -> Seq<u8>
        decreases self, 1nat,
    {
        match self {
            AttributeView::InvalidUtf8(raw) | AttributeView::IllegalNameReference(raw) | AttributeView::Unknown(raw)
            | AttributeView::Raw(raw) => raw.spec_write(),
            AttributeView::UnsupportedAndInvalidLocation(inner) | AttributeView::InvalidLocation(inner)
            | AttributeView::Unsupported(inner) => inner.spec_write(),
            AttributeView::Custom(custom) => custom.spec_write(),
            _ => spec_u16_bytes(self.spec_name().0) + spec_u32_bytes(
                (self.spec_write_body().len() % 0x1_0000_0000) as u32,
            ) + self.spec_write_body(),
        }
    }

    /// Whether the body of an attribute of a known kind is one that reading a file of the
    /// given version and pool can produce.
    pub open spec fn wf_body(self, version: JavaVersion, pool: Seq<ConstantView>) -> bool
        decreases self, 0nat,
    {
        match self {
            AttributeView::Code { exception_table, attributes, .. } => {
                &&& self.wf_code_head(version)
                &&& exception_table.len() <= 0xFFFF
                &&& attributes.len() <= 0xFFFF
                &&& Attribute::wf_seq(attributes, version, pool, AttributeLocation::Code)
            },
            _ => self.spec_kind() is Some && self.wf_fields(),
        }
    }

    /// Whether the limits and the code array of a `Code` attribute are such as reading a
    /// file of the given version can produce: all in the form of the version, the
    /// instructions readable one after the other, the code array within its length field.
    pub open spec fn wf_code_head(self, version: JavaVersion) -> bool {
        match self {
            AttributeView::Code { max_stack, max_locals, code, .. } => {
                &&& max_stack is Current == version.spec_supports(45, 3)
                &&& max_locals is Current == version.spec_supports(45, 3)
                &&& code == spec_framed(spec_instructions(code), version)
                &&& spec_wf_code(spec_instructions(code), false)
                &&& spec_write_code(spec_instructions(code), 0).len() <= if version.spec_supports(45, 3) {
                    0xFFFF_FFFFint
                } else {
                    0xFFFFint
                }
            },
            _ => false,
        }
    }

    /// Whether the fields of an attribute of a known kind other than `Code` are such as
    /// reading can produce: every part well formed, every count within its length field.
    pub open spec fn wf_fields(self) -> bool {
        match self {
            AttributeView::SourceDebugExtension { .. } => true,
            AttributeView::ConstantValue { name, value } => value.wf(),
            AttributeView::StackMapTable { name, entries } => entries.len() <= 0xFFFF
                && StackMapFrame::wf_seq(entries),
            AttributeView::Exceptions { name, exception_index_table } => exception_index_table.len() <= 0xFFFF
                && ConstantPoolIndex::wf_seq(exception_index_table),
            AttributeView::InnerClasses { name, classes } => classes.len() <= 0xFFFF
                && InnerClass::wf_seq(classes),
            AttributeView::EnclosingMethod { name, class, method } => class.wf() && method.wf(),
            AttributeView::Synthetic { name } => true,
            AttributeView::Signature { name, signature } => signature.wf(),
            AttributeView::SourceFile { name, sourcefile } => sourcefile.wf(),
            AttributeView::LineNumberTable { name, line_numbers } => line_numbers.len() <= 0xFFFF
                && LineNumberTable::wf_seq(line_numbers),
            AttributeView::LocalVariableTable { name, local_variables } => local_variables.len() <= 0xFFFF
                && LocalVariableTable::wf_seq(local_variables),
            AttributeView::LocalVariableTypeTable { name, local_variable_type_table } => local_variable_type_table.len() <= 0xFFFF
                && LocalVariableTypeTable::wf_seq(local_variable_type_table),
            AttributeView::Deprecated { name } => true,
            AttributeView::RuntimeVisibleAnnotations { name, annotations } => annotations.len() <= 0xFFFF
                && Annotation::wf_seq(annotations),
            AttributeView::RuntimeInvisibleAnnotations { name, annotations } => annotations.len() <= 0xFFFF
                && Annotation::wf_seq(annotations),
            AttributeView::RuntimeVisibleParameterAnnotations { name, annotations } => annotations.len() <= 0xFF
                && ParameterAnnotation::wf_seq(annotations),
            AttributeView::RuntimeInvisibleParameterAnnotations { name, annotations } => annotations.len() <= 0xFF
                && ParameterAnnotation::wf_seq(annotations),
            AttributeView::RuntimeVisibleTypeAnnotations { name, annotations } => annotations.len() <= 0xFFFF
                && TypeAnnotation::wf_seq(annotations),
            AttributeView::RuntimeInvisibleTypeAnnotations { name, annotations } => annotations.len() <= 0xFFFF
                && TypeAnnotation::wf_seq(annotations),
            AttributeView::AnnotationDefault { name, default_value } => default_value.wf(),
            AttributeView::BootstrapMethods { name, methods } => methods.len() <= 0xFFFF
                && BootstrapMethod::wf_seq(methods),
            AttributeView::MethodParameters { name, parameters } => parameters.len() <= 0xFFFF
                && MethodParameter::wf_seq(parameters),
            AttributeView::Module { name, module_name, flags, module_version, module_requires, exports, opens, uses, provides } => module_name.wf()
                && flags.wf() && module_version.wf() && module_requires.wf() && exports.wf() && opens.wf()
                && uses.len() <= 0xFFFF && ConstantPoolIndex::wf_seq(uses) && provides.wf(),
            AttributeView::ModulePackages { name, packages } => packages.len() <= 0xFFFF
                && ConstantPoolIndex::wf_seq(packages),
            AttributeView::ModuleMainClass { name, main_class } => main_class.wf(),
            AttributeView::NestHost { name, host_class } => host_class.wf(),
            AttributeView::NestMembers { name, classes } => classes.len() <= 0xFFFF
                && ConstantPoolIndex::wf_seq(classes),
            _ => false,
        }
    }

    /// Whether this is an attribute of a known kind, held bare, that reading can produce
    /// before its version and location are looked at: its name leads to the name of its
    /// kind, and its body is one that reading can produce and fits the length field.
    pub open spec fn wf_bare(self, version: JavaVersion, pool: Seq<ConstantView>) -> bool
        decreases self, 1nat,
    {
        &&& self.spec_kind() matches Some(kind)
        &&& spec_resolve(pool, self.spec_name()) == ResolvedName::Known(kind)
        &&& self.wf_body(version, pool)
        &&& self.spec_write_body().len() <= 0xFFFF_FFFF
    }

    /// Whether the version has attributes of the kind of this bare attribute.
    pub open spec fn supported(self, version: JavaVersion) -> bool {
        self.spec_kind() matches Some(kind) && version.spec_supports(
            kind.spec_min_version().0,
            kind.spec_min_version().1,
        )
    }

    /// Whether the kind of this bare attribute may stand at the location.
    pub open spec fn allowed(self, location: AttributeLocation) -> bool {
        self.spec_kind() matches Some(kind) && kind.spec_allowed_at(location)
    }

    /// Whether reading an attribute at the given location of a file of the given version
    /// and pool can produce this value.
    pub open spec fn wf(
        self,
        version: JavaVersion,
        pool: Seq<ConstantView>,
        location: AttributeLocation,
    ) -> bool
        decreases self, 2nat,
    {
        match self {
            AttributeView::Unsupported(inner) => inner.wf_bare(version, pool) && !inner.supported(version)
                && inner.allowed(location),
            AttributeView::InvalidLocation(inner) => inner.wf_bare(version, pool) && inner.supported(version)
                && !inner.allowed(location),
            AttributeView::UnsupportedAndInvalidLocation(inner) => inner.wf_bare(version, pool)
                && !inner.supported(
                version,
            ) && !inner.allowed(location),
            AttributeView::InvalidUtf8(raw) => raw.wf()
                && spec_resolve(pool, raw.name) == ResolvedName::InvalidUtf8,
            AttributeView::IllegalNameReference(raw) => raw.wf() && spec_resolve(pool, raw.name)
                == ResolvedName::Illegal,
            AttributeView::Unknown(raw) => raw.wf() && spec_resolve(pool, raw.name) == ResolvedName::Unknown,
            AttributeView::Raw(_) | AttributeView::Custom(_) => false,
            _ => self.wf_bare(version, pool) && self.supported(version) && self.allowed(location),
        }
    }
}

/// The body of an attribute that was read is shorter than the input it was read from.
pub proof fn lemma_raw_within(s: Seq<u8>, p: int)
    ensures
        RawAttribute::spec_read(s, p) matches Ok((raw, q)) ==> raw.info.len() + 6 <= s.len(),
{
    reveal(RawAttribute::spec_read);
}

/// The value of a `Code` attribute holds the values of its nested attributes.
pub proof fn lemma_code_view(a: Attribute)
    requires
        a is Code,
    ensures
        a@ matches AttributeView::Code { attributes, .. } && attributes == views(a->Code_attributes@),
{
    assert(attribute_view(a)->Code_attributes =~= views(a->Code_attributes@));
}

impl Attribute {
    /// The `ConstantValue` attribute with the given name index whose body is `s`.
    #[verifier::opaque]
    pub open spec fn spec_body_constant_value(
        s: Seq<u8>,
        name: ConstantPoolIndex,
    ) -> Result<AttributeView, Error> {
        match ConstantPoolIndex::spec_read(s, 0) {
            Err(e) => Err(e),
            Ok((value, at1)) => {
                Ok(AttributeView::ConstantValue { name, value })
            },
        }
    }

    /// Decodes the body of a `ConstantValue` attribute.
    fn body_constant_value(body: &[u8], name: ConstantPoolIndex) -> (r: Result<Attribute, Error>)
        ensures
            body_decoded(r, Self::spec_body_constant_value(body@, name)),
    {
        proof {
            reveal(Attribute::spec_body_constant_value);
        }
        let (value, _) = match ConstantPoolIndex::read(body, 0) {
            Ok(x) => x,
            Err(e) => {
                return Err(e);
            },
        };
        Ok(Attribute::ConstantValue { name, value })
    }

    /// Appends the body of a `ConstantValue` attribute.
    fn write_body_constant_value(value: &ConstantPoolIndex, out: &mut Vec<u8>)
        ensures
            final(out)@ == old(out)@ + ((*value).spec_write()),
    {
        value.write(out);
        proof {
            assert(out@ =~= old(out)@ + ((*value).spec_write()));
        }
    }

    /// A `ConstantValue` attribute that was read holds the name index it was read for, its parts
    /// are well formed, and its body has no more bytes than the body it was read from.
    proof fn lemma_body_wf_constant_value(s: Seq<u8>, name: ConstantPoolIndex)
        ensures
            Self::spec_body_constant_value(s, name) matches Ok(a) ==> a matches AttributeView::ConstantValue { name: n, value }
                && n == name
                && value.wf()
                && (value.spec_write()).len() <= s.len(),
    {
        reveal(Attribute::spec_body_constant_value);
        ConstantPoolIndex::lemma_read_wf(s, 0);
        if let Ok((value, at1)) = ConstantPoolIndex::spec_read(s, 0) {
        }
    }

    /// Reading back the written body of a `ConstantValue` attribute yields the attribute.
    proof fn lemma_body_constant_value(s: Seq<u8>, name: ConstantPoolIndex, value: ConstantPoolIndex)
        requires
            value.wf(),
            s == value.spec_write(),
        ensures
            Self::spec_body_constant_value(s, name) == Ok::<AttributeView, Error>(AttributeView::ConstantValue { name, value }),
    {
        reveal(Attribute::spec_body_constant_value);
        let w0 = value.spec_write();
        assert(s.subrange(0, s.len() as int) =~= s);
        ConstantPoolIndex::lemma_round_trip(value, s, 0);
    }

    /// The `StackMapTable` attribute with the given name index whose body is `s`.
    #[verifier::opaque]
    pub open spec fn spec_body_stack_map_table(
        s: Seq<u8>,
        name: ConstantPoolIndex,
    ) -> Result<AttributeView, Error> {
        match spec_read_u16(s, 0) {
            Err(e) => Err(e),
            Ok((n_entries, at1)) => {
                match StackMapFrame::spec_read_seq(s, at1, n_entries as nat) {
                    Err(e) => Err(e),
                    Ok((entries, at2)) => {
                        Ok(AttributeView::StackMapTable { name, entries })
                    },
                }
            },
        }
    }

    /// Decodes the body of a `StackMapTable` attribute.
    fn body_stack_map_table(body: &[u8], name: ConstantPoolIndex) -> (r: Result<Attribute, Error>)
        ensures
            body_decoded(r, Self::spec_body_stack_map_table(body@, name)),
    {
        proof {
            reveal(Attribute::spec_body_stack_map_table);
        }
        let (n_entries, pos1) = match read_u16(body, 0) {
            Ok(x) => x,
            Err(e) => {
                return Err(e);
            },
        };
        let (entries, _) = match StackMapFrame::read_seq(body, pos1, n_entries as usize) {
            Ok(x) => x,
            Err(e) => {
                return Err(e);
            },
        };
        Ok(Attribute::StackMapTable { name, entries })
    }

    /// Appends the body of a `StackMapTable` attribute.
    fn write_body_stack_map_table(entries: &Vec<StackMapFrame>, out: &mut Vec<u8>)
        ensures
            final(out)@ == old(out)@
                + (spec_u16_bytes((views(entries@).len() % 0x1_0000) as u16) + StackMapFrame::spec_write_seq(views(entries@))),
    {
        write_u16(out, (entries.len() % 0x1_0000) as u16);
        StackMapFrame::write_seq(entries, out);
        proof {
            assert(out@ =~= old(out)@ + (spec_u16_bytes((views(entries@).len() % 0x1_0000) as u16) + StackMapFrame::spec_write_seq(views(entries@))));
        }
    }

    /// A `StackMapTable` attribute that was read holds the name index it was read for, its parts
    /// are well formed, and its body has no more bytes than the body it was read from.
    proof fn lemma_body_wf_stack_map_table(s: Seq<u8>, name: ConstantPoolIndex)
        ensures
            Self::spec_body_stack_map_table(s, name) matches Ok(a) ==> a matches AttributeView::StackMapTable { name: n, entries }
                && n == name
                && entries.len() <= 0xFFFF
                && StackMapFrame::wf_seq(entries)
                && (spec_u16_bytes((entries.len() % 0x1_0000) as u16) + StackMapFrame::spec_write_seq(entries)).len() <= s.len(),
    {
        reveal(Attribute::spec_body_stack_map_table);
        if let Ok((n_entries, at1)) = spec_read_u16(s, 0) {
            StackMapFrame::lemma_read_seq_wf(s, at1, n_entries as nat);
            if let Ok((entries, at2)) = StackMapFrame::spec_read_seq(s, at1, n_entries as nat) {
            }
        }
    }

    /// Reading back the written body of a `StackMapTable` attribute yields the attribute.
    proof fn lemma_body_stack_map_table(s: Seq<u8>, name: ConstantPoolIndex, entries: Seq<StackMapFrameView>)
        requires
            entries.len() <= 0xFFFF,
            StackMapFrame::wf_seq(entries),
            s == spec_u16_bytes((entries.len() % 0x1_0000) as u16) + StackMapFrame::spec_write_seq(entries),
        ensures
            Self::spec_body_stack_map_table(s, name) == Ok::<AttributeView, Error>(AttributeView::StackMapTable { name, entries }),
    {
        reveal(Attribute::spec_body_stack_map_table);
        let w0 = spec_u16_bytes((entries.len() % 0x1_0000) as u16);
        let w1 = StackMapFrame::spec_write_seq(entries);
        let a1 = w0 + w1;
        assert(a1.len() == w0.len() + w1.len());
        assert(s.subrange(0, s.len() as int) =~= s);
        lemma_occurs_split(s, 0, w0, w1);
        lemma_round_trip_u16((entries.len() % 0x1_0000) as u16, s, 0);
        StackMapFrame::lemma_round_trip_seq(entries, s, w0.len() as int);
    }

    /// The `Exceptions` attribute with the given name index whose body is `s`.
    #[verifier::opaque]
    pub open spec fn spec_body_exceptions(
        s: Seq<u8>,
        name: ConstantPoolIndex,
    ) -> Result<AttributeView, Error> {
        match spec_read_u16(s, 0) {
            Err(e) => Err(e),
            Ok((n_exception_index_table, at1)) => {
                match ConstantPoolIndex::spec_read_seq(s, at1, n_exception_index_table as nat) {
                    Err(e) => Err(e),
                    Ok((exception_index_table, at2)) => {
                        Ok(AttributeView::Exceptions { name, exception_index_table })
                    },
                }
            },
        }
    }

    /// Decodes the body of a `Exceptions` attribute.
    fn body_exceptions(body: &[u8], name: ConstantPoolIndex) -> (r: Result<Attribute, Error>)
        ensures
            body_decoded(r, Self::spec_body_exceptions(body@, name)),
    {
        proof {
            reveal(Attribute::spec_body_exceptions);
        }
        let (n_exception_index_table, pos1) = match read_u16(body, 0) {
            Ok(x) => x,
            Err(e) => {
                return Err(e);
            },
        };
        let (exception_index_table, _) = match ConstantPoolIndex::read_seq(body, pos1, n_exception_index_table as usize) {
            Ok(x) => x,
            Err(e) => {
                return Err(e);
            },
        };
        Ok(Attribute::Exceptions { name, exception_index_table })
    }

    /// Appends the body of a `Exceptions` attribute.
    fn write_body_exceptions(exception_index_table: &Vec<ConstantPoolIndex>, out: &mut Vec<u8>)
        ensures
            final(out)@ == old(out)@
                + (spec_u16_bytes((exception_index_table@.len() % 0x1_0000) as u16) + ConstantPoolIndex::spec_write_seq(exception_index_table@)),
    {
        write_u16(out, (exception_index_table.len() % 0x1_0000) as u16);
        ConstantPoolIndex::write_seq(exception_index_table, out);
        proof {
            assert(out@ =~= old(out)@ + (spec_u16_bytes((exception_index_table@.len() % 0x1_0000) as u16) + ConstantPoolIndex::spec_write_seq(exception_index_table@)));
        }
    }

    /// A `Exceptions` attribute that was read holds the name index it was read for, its parts
    /// are well formed, and its body has no more bytes than the body it was read from.
    proof fn lemma_body_wf_exceptions(s: Seq<u8>, name: ConstantPoolIndex)
        ensures
            Self::spec_body_exceptions(s, name) matches Ok(a) ==> a matches AttributeView::Exceptions { name: n, exception_index_table }
                && n == name
                && exception_index_table.len() <= 0xFFFF
                && ConstantPoolIndex::wf_seq(exception_index_table)
                && (spec_u16_bytes((exception_index_table.len() % 0x1_0000) as u16) + ConstantPoolIndex::spec_write_seq(exception_index_table)).len() <= s.len(),
    {
        reveal(Attribute::spec_body_exceptions);
        if let Ok((n_exception_index_table, at1)) = spec_read_u16(s, 0) {
            ConstantPoolIndex::lemma_read_seq_wf(s, at1, n_exception_index_table as nat);
            if let Ok((exception_index_table, at2)) = ConstantPoolIndex::spec_read_seq(s, at1, n_exception_index_table as nat) {
            }
        }
    }

    /// Reading back the written body of a `Exceptions` attribute yields the attribute.
    proof fn lemma_body_exceptions(
        s: Seq<u8>,
        name: ConstantPoolIndex,
        exception_index_table: Seq<ConstantPoolIndex>,
    )
        requires
            exception_index_table.len() <= 0xFFFF,
            ConstantPoolIndex::wf_seq(exception_index_table),
            s == spec_u16_bytes((exception_index_table.len() % 0x1_0000) as u16)
                + ConstantPoolIndex::spec_write_seq(exception_index_table),
        ensures
            Self::spec_body_exceptions(s, name) == Ok::<AttributeView, Error>(AttributeView::Exceptions { name, exception_index_table }),
    {
        reveal(Attribute::spec_body_exceptions);
        let w0 = spec_u16_bytes((exception_index_table.len() % 0x1_0000) as u16);
        let w1 = ConstantPoolIndex::spec_write_seq(exception_index_table);
        let a1 = w0 + w1;
        assert(a1.len() == w0.len() + w1.len());
        assert(s.subrange(0, s.len() as int) =~= s);
        lemma_occurs_split(s, 0, w0, w1);
        lemma_round_trip_u16((exception_index_table.len() % 0x1_0000) as u16, s, 0);
        ConstantPoolIndex::lemma_round_trip_seq(exception_index_table, s, w0.len() as int);
    }

    /// The `InnerClasses` attribute with the given name index whose body is `s`.
    #[verifier::opaque]
    pub open spec fn spec_body_inner_classes(
        s: Seq<u8>,
        name: ConstantPoolIndex,
    ) -> Result<AttributeView, Error> {
        match spec_read_u16(s, 0) {
            Err(e) => Err(e),
            Ok((n_classes, at1)) => {
                match InnerClass::spec_read_seq(s, at1, n_classes as nat) {
                    Err(e) => Err(e),
                    Ok((classes, at2)) => {
                        Ok(AttributeView::InnerClasses { name, classes })
                    },
                }
            },
        }
    }

    /// Decodes the body of a `InnerClasses` attribute.
    fn body_inner_classes(body: &[u8], name: ConstantPoolIndex) -> (r: Result<Attribute, Error>)
        ensures
            body_decoded(r, Self::spec_body_inner_classes(body@, name)),
    {
        proof {
            reveal(Attribute::spec_body_inner_classes);
        }
        let (n_classes, pos1) = match read_u16(body, 0) {
            Ok(x) => x,
            Err(e) => {
                return Err(e);
            },
        };
        let (classes, _) = match InnerClass::read_seq(body, pos1, n_classes as usize) {
            Ok(x) => x,
            Err(e) => {
                return Err(e);
            },
        };
        Ok(Attribute::InnerClasses { name, classes })
    }

    /// Appends the body of a `InnerClasses` attribute.
    fn write_body_inner_classes(classes: &Vec<InnerClass>, out: &mut Vec<u8>)
        ensures
            final(out)@ == old(out)@
                + (spec_u16_bytes((classes@.len() % 0x1_0000) as u16) + InnerClass::spec_write_seq(classes@)),
    {
        write_u16(out, (classes.len() % 0x1_0000) as u16);
        InnerClass::write_seq(classes, out);
        proof {
            assert(out@ =~= old(out)@ + (spec_u16_bytes((classes@.len() % 0x1_0000) as u16) + InnerClass::spec_write_seq(classes@)));
        }
    }

    /// A `InnerClasses` attribute that was read holds the name index it was read for, its parts
    /// are well formed, and its body has no more bytes than the body it was read from.
    proof fn lemma_body_wf_inner_classes(s: Seq<u8>, name: ConstantPoolIndex)
        ensures
            Self::spec_body_inner_classes(s, name) matches Ok(a) ==> a matches AttributeView::InnerClasses { name: n, classes }
                && n == name
                && classes.len() <= 0xFFFF
                && InnerClass::wf_seq(classes)
                && (spec_u16_bytes((classes.len() % 0x1_0000) as u16) + InnerClass::spec_write_seq(classes)).len() <= s.len(),
    {
        reveal(Attribute::spec_body_inner_classes);
        if let Ok((n_classes, at1)) = spec_read_u16(s, 0) {
            InnerClass::lemma_read_seq_wf(s, at1, n_classes as nat);
            if let Ok((classes, at2)) = InnerClass::spec_read_seq(s, at1, n_classes as nat) {
            }
        }
    }

    /// Reading back the written body of a `InnerClasses` attribute yields the attribute.
    proof fn lemma_body_inner_classes(s: Seq<u8>, name: ConstantPoolIndex, classes: Seq<InnerClass>)
        requires
            classes.len() <= 0xFFFF,
            InnerClass::wf_seq(classes),
            s == spec_u16_bytes((classes.len() % 0x1_0000) as u16) + InnerClass::spec_write_seq(classes),
        ensures
            Self::spec_body_inner_classes(s, name) == Ok::<AttributeView, Error>(AttributeView::InnerClasses { name, classes }),
    {
        reveal(Attribute::spec_body_inner_classes);
        let w0 = spec_u16_bytes((classes.len() % 0x1_0000) as u16);
        let w1 = InnerClass::spec_write_seq(classes);
        let a1 = w0 + w1;
        assert(a1.len() == w0.len() + w1.len());
        assert(s.subrange(0, s.len() as int) =~= s);
        lemma_occurs_split(s, 0, w0, w1);
        lemma_round_trip_u16((classes.len() % 0x1_0000) as u16, s, 0);
        InnerClass::lemma_round_trip_seq(classes, s, w0.len() as int);
    }

    /// The `EnclosingMethod` attribute with the given name index whose body is `s`.
    #[verifier::opaque]
    pub open spec fn spec_body_enclosing_method(
        s: Seq<u8>,
        name: ConstantPoolIndex,
    ) -> Result<AttributeView, Error> {
        match ConstantPoolIndex::spec_read(s, 0) {
            Err(e) => Err(e),
            Ok((class, at1)) => {
                match ConstantPoolIndex::spec_read(s, at1) {
                    Err(e) => Err(e),
                    Ok((method, at2)) => {
                        Ok(AttributeView::EnclosingMethod { name, class, method })
                    },
                }
            },
        }
    }

    /// Decodes the body of a `EnclosingMethod` attribute.
    fn body_enclosing_method(body: &[u8], name: ConstantPoolIndex) -> (r: Result<Attribute, Error>)
        ensures
            body_decoded(r, Self::spec_body_enclosing_method(body@, name)),
    {
        proof {
            reveal(Attribute::spec_body_enclosing_method);
        }
        let (class, pos1) = match ConstantPoolIndex::read(body, 0) {
            Ok(x) => x,
            Err(e) => {
                return Err(e);
            },
        };
        let (method, _) = match ConstantPoolIndex::read(body, pos1) {
            Ok(x) => x,
            Err(e) => {
                return Err(e);
            },
        };
        Ok(Attribute::EnclosingMethod { name, class, method })
    }

    /// Appends the body of a `EnclosingMethod` attribute.
    fn write_body_enclosing_method(class: &ConstantPoolIndex, method: &ConstantPoolIndex, out: &mut Vec<u8>)
        ensures
            final(out)@ == old(out)@ + ((*class).spec_write() + (*method).spec_write()),
    {
        class.write(out);
        method.write(out);
        proof {
            assert(out@ =~= old(out)@ + ((*class).spec_write() + (*method).spec_write()));
        }
    }

    /// A `EnclosingMethod` attribute that was read holds the name index it was read for, its parts
    /// are well formed, and its body has no more bytes than the body it was read from.
    proof fn lemma_body_wf_enclosing_method(s: Seq<u8>, name: ConstantPoolIndex)
        ensures
            Self::spec_body_enclosing_method(s, name) matches Ok(a) ==> a matches AttributeView::EnclosingMethod { name: n, class, method }
                && n == name
                && class.wf()
                && method.wf()
                && (class.spec_write() + method.spec_write()).len() <= s.len(),
    {
        reveal(Attribute::spec_body_enclosing_method);
        ConstantPoolIndex::lemma_read_wf(s, 0);
        if let Ok((class, at1)) = ConstantPoolIndex::spec_read(s, 0) {
            ConstantPoolIndex::lemma_read_wf(s, at1);
            if let Ok((method, at2)) = ConstantPoolIndex::spec_read(s, at1) {
            }
        }
    }

    /// Reading back the written body of a `EnclosingMethod` attribute yields the attribute.
    proof fn lemma_body_enclosing_method(
        s: Seq<u8>,
        name: ConstantPoolIndex,
        class: ConstantPoolIndex,
        method: ConstantPoolIndex,
    )
        requires
            class.wf(),
            method.wf(),
            s == class.spec_write() + method.spec_write(),
        ensures
            Self::spec_body_enclosing_method(s, name) == Ok::<AttributeView, Error>(AttributeView::EnclosingMethod { name, class, method }),
    {
        reveal(Attribute::spec_body_enclosing_method);
        let w0 = class.spec_write();
        let w1 = method.spec_write();
        let a1 = w0 + w1;
        assert(a1.len() == w0.len() + w1.len());
        assert(s.subrange(0, s.len() as int) =~= s);
        lemma_occurs_split(s, 0, w0, w1);
        ConstantPoolIndex::lemma_round_trip(class, s, 0);
        ConstantPoolIndex::lemma_round_trip(method, s, w0.len() as int);
    }

    /// The `Synthetic` attribute with the given name index whose body is `s`.
    #[verifier::opaque]
    pub open spec fn spec_body_synthetic(
        s: Seq<u8>,
        name: ConstantPoolIndex,
    ) -> Result<AttributeView, Error> {
        Ok(AttributeView::Synthetic { name })
    }

    /// Decodes the body of a `Synthetic` attribute.
    fn body_synthetic(body: &[u8], name: ConstantPoolIndex) -> (r: Result<Attribute, Error>)
        ensures
            body_decoded(r, Self::spec_body_synthetic(body@, name)),
    {
        proof {
            reveal(Attribute::spec_body_synthetic);
        }
        Ok(Attribute::Synthetic { name })
    }

    /// Appends the body of a `Synthetic` attribute.
    fn write_body_synthetic(out: &mut Vec<u8>)
        ensures
            final(out)@ == old(out)@ + (Seq::<u8>::empty()),
    {
        proof {
            assert(out@ =~= old(out)@ + (Seq::<u8>::empty()));
        }
    }

    /// A `Synthetic` attribute that was read holds the name index it was read for, its parts
    /// are well formed, and its body has no more bytes than the body it was read from.
    proof fn lemma_body_wf_synthetic(s: Seq<u8>, name: ConstantPoolIndex)
        ensures
            Self::spec_body_synthetic(s, name) matches Ok(a) ==> a matches AttributeView::Synthetic { name: n }
                && n == name
                && (Seq::<u8>::empty()).len() <= s.len(),
    {
        reveal(Attribute::spec_body_synthetic);
    }

    /// Reading back the written body of a `Synthetic` attribute yields the attribute.
    proof fn lemma_body_synthetic(s: Seq<u8>, name: ConstantPoolIndex)
        requires
            s == Seq::<u8>::empty(),
        ensures
            Self::spec_body_synthetic(s, name) == Ok::<AttributeView, Error>(AttributeView::Synthetic { name }),
    {
        reveal(Attribute::spec_body_synthetic);
    }

    /// The `Signature` attribute with the given name index whose body is `s`.
    #[verifier::opaque]
    pub open spec fn spec_body_signature(
        s: Seq<u8>,
        name: ConstantPoolIndex,
    ) -> Result<AttributeView, Error> {
        match ConstantPoolIndex::spec_read(s, 0) {
            Err(e) => Err(e),
            Ok((signature, at1)) => {
                Ok(AttributeView::Signature { name, signature })
            },
        }
    }

    /// Decodes the body of a `Signature` attribute.
    fn body_signature(body: &[u8], name: ConstantPoolIndex) -> (r: Result<Attribute, Error>)
        ensures
            body_decoded(r, Self::spec_body_signature(body@, name)),
    {
        proof {
            reveal(Attribute::spec_body_signature);
        }
        let (signature, _) = match ConstantPoolIndex::read(body, 0) {
            Ok(x) => x,
            Err(e) => {
                return Err(e);
            },
        };
        Ok(Attribute::Signature { name, signature })
    }

    /// Appends the body of a `Signature` attribute.
    fn write_body_signature(signature: &ConstantPoolIndex, out: &mut Vec<u8>)
        ensures
            final(out)@ == old(out)@ + ((*signature).spec_write()),
    {
        signature.write(out);
        proof {
            assert(out@ =~= old(out)@ + ((*signature).spec_write()));
        }
    }

    /// A `Signature` attribute that was read holds the name index it was read for, its parts
    /// are well formed, and its body has no more bytes than the body it was read from.
    proof fn lemma_body_wf_signature(s: Seq<u8>, name: ConstantPoolIndex)
        ensures
            Self::spec_body_signature(s, name) matches Ok(a) ==> a matches AttributeView::Signature { name: n, signature }
                && n == name
                && signature.wf()
                && (signature.spec_write()).len() <= s.len(),
    {
        reveal(Attribute::spec_body_signature);
        ConstantPoolIndex::lemma_read_wf(s, 0);
        if let Ok((signature, at1)) = ConstantPoolIndex::spec_read(s, 0) {
        }
    }

    /// Reading back the written body of a `Signature` attribute yields the attribute.
    proof fn lemma_body_signature(s: Seq<u8>, name: ConstantPoolIndex, signature: ConstantPoolIndex)
        requires
            signature.wf(),
            s == signature.spec_write(),
        ensures
            Self::spec_body_signature(s, name) == Ok::<AttributeView, Error>(AttributeView::Signature { name, signature }),
    {
        reveal(Attribute::spec_body_signature);
        let w0 = signature.spec_write();
        assert(s.subrange(0, s.len() as int) =~= s);
        ConstantPoolIndex::lemma_round_trip(signature, s, 0);
    }

    /// The `SourceFile` attribute with the given name index whose body is `s`.
    #[verifier::opaque]
    pub open spec fn spec_body_source_file(
        s: Seq<u8>,
        name: ConstantPoolIndex,
    ) -> Result<AttributeView, Error> {
        match ConstantPoolIndex::spec_read(s, 0) {
            Err(e) => Err(e),
            Ok((sourcefile, at1)) => {
                Ok(AttributeView::SourceFile { name, sourcefile })
            },
        }
    }

    /// Decodes the body of a `SourceFile` attribute.
    fn body_source_file(body: &[u8], name: ConstantPoolIndex) -> (r: Result<Attribute, Error>)
        ensures
            body_decoded(r, Self::spec_body_source_file(body@, name)),
    {
        proof {
            reveal(Attribute::spec_body_source_file);
        }
        let (sourcefile, _) = match ConstantPoolIndex::read(body, 0) {
            Ok(x) => x,
            Err(e) => {
                return Err(e);
            },
        };
        Ok(Attribute::SourceFile { name, sourcefile })
    }

    /// Appends the body of a `SourceFile` attribute.
    fn write_body_source_file(sourcefile: &ConstantPoolIndex, out: &mut Vec<u8>)
        ensures
            final(out)@ == old(out)@ + ((*sourcefile).spec_write()),
    {
        sourcefile.write(out);
        proof {
            assert(out@ =~= old(out)@ + ((*sourcefile).spec_write()));
        }
    }

    /// A `SourceFile` attribute that was read holds the name index it was read for, its parts
    /// are well formed, and its body has no more bytes than the body it was read from.
    proof fn lemma_body_wf_source_file(s: Seq<u8>, name: ConstantPoolIndex)
        ensures
            Self::spec_body_source_file(s, name) matches Ok(a) ==> a matches AttributeView::SourceFile { name: n, sourcefile }
                && n == name
                && sourcefile.wf()
                && (sourcefile.spec_write()).len() <= s.len(),
    {
        reveal(Attribute::spec_body_source_file);
        ConstantPoolIndex::lemma_read_wf(s, 0);
        if let Ok((sourcefile, at1)) = ConstantPoolIndex::spec_read(s, 0) {
        }
    }

    /// Reading back the written body of a `SourceFile` attribute yields the attribute.
    proof fn lemma_body_source_file(s: Seq<u8>, name: ConstantPoolIndex, sourcefile: ConstantPoolIndex)
        requires
            sourcefile.wf(),
            s == sourcefile.spec_write(),
        ensures
            Self::spec_body_source_file(s, name) == Ok::<AttributeView, Error>(AttributeView::SourceFile { name, sourcefile }),
    {
        reveal(Attribute::spec_body_source_file);
        let w0 = sourcefile.spec_write();
        assert(s.subrange(0, s.len() as int) =~= s);
        ConstantPoolIndex::lemma_round_trip(sourcefile, s, 0);
    }

    /// The `LineNumberTable` attribute with the given name index whose body is `s`.
    #[verifier::opaque]
    pub open spec fn spec_body_line_number_table(
        s: Seq<u8>,
        name: ConstantPoolIndex,
    ) -> Result<AttributeView, Error> {
        match spec_read_u16(s, 0) {
            Err(e) => Err(e),
            Ok((n_line_numbers, at1)) => {
                match LineNumberTable::spec_read_seq(s, at1, n_line_numbers as nat) {
                    Err(e) => Err(e),
                    Ok((line_numbers, at2)) => {
                        Ok(AttributeView::LineNumberTable { name, line_numbers })
                    },
                }
            },
        }
    }

    /// Decodes the body of a `LineNumberTable` attribute.
    fn body_line_number_table(body: &[u8], name: ConstantPoolIndex) -> (r: Result<Attribute, Error>)
        ensures
            body_decoded(r, Self::spec_body_line_number_table(body@, name)),
    {
        proof {
            reveal(Attribute::spec_body_line_number_table);
        }
        let (n_line_numbers, pos1) = match read_u16(body, 0) {
            Ok(x) => x,
            Err(e) => {
                return Err(e);
            },
        };
        let (line_numbers, _) = match LineNumberTable::read_seq(body, pos1, n_line_numbers as usize) {
            Ok(x) => x,
            Err(e) => {
                return Err(e);
            },
        };
        Ok(Attribute::LineNumberTable { name, line_numbers })
    }

    /// Appends the body of a `LineNumberTable` attribute.
    fn write_body_line_number_table(line_numbers: &Vec<LineNumberTable>, out: &mut Vec<u8>)
        ensures
            final(out)@ == old(out)@
                + (spec_u16_bytes((line_numbers@.len() % 0x1_0000) as u16) + LineNumberTable::spec_write_seq(line_numbers@)),
    {
        write_u16(out, (line_numbers.len() % 0x1_0000) as u16);
        LineNumberTable::write_seq(line_numbers, out);
        proof {
            assert(out@ =~= old(out)@ + (spec_u16_bytes((line_numbers@.len() % 0x1_0000) as u16) + LineNumberTable::spec_write_seq(line_numbers@)));
        }
    }

    /// A `LineNumberTable` attribute that was read holds the name index it was read for, its parts
    /// are well formed, and its body has no more bytes than the body it was read from.
    proof fn lemma_body_wf_line_number_table(s: Seq<u8>, name: ConstantPoolIndex)
        ensures
            Self::spec_body_line_number_table(s, name) matches Ok(a) ==> a matches AttributeView::LineNumberTable { name: n, line_numbers }
                && n == name
                && line_numbers.len() <= 0xFFFF
                && LineNumberTable::wf_seq(line_numbers)
                && (spec_u16_bytes((line_numbers.len() % 0x1_0000) as u16) + LineNumberTable::spec_write_seq(line_numbers)).len() <= s.len(),
    {
        reveal(Attribute::spec_body_line_number_table);
        if let Ok((n_line_numbers, at1)) = spec_read_u16(s, 0) {
            LineNumberTable::lemma_read_seq_wf(s, at1, n_line_numbers as nat);
            if let Ok((line_numbers, at2)) = LineNumberTable::spec_read_seq(s, at1, n_line_numbers as nat) {
            }
        }
    }

    /// Reading back the written body of a `LineNumberTable` attribute yields the attribute.
    proof fn lemma_body_line_number_table(
        s: Seq<u8>,
        name: ConstantPoolIndex,
        line_numbers: Seq<LineNumberTable>,
    )
        requires
            line_numbers.len() <= 0xFFFF,
            LineNumberTable::wf_seq(line_numbers),
            s == spec_u16_bytes((line_numbers.len() % 0x1_0000) as u16)
                + LineNumberTable::spec_write_seq(line_numbers),
        ensures
            Self::spec_body_line_number_table(s, name) == Ok::<AttributeView, Error>(AttributeView::LineNumberTable { name, line_numbers }),
    {
        reveal(Attribute::spec_body_line_number_table);
        let w0 = spec_u16_bytes((line_numbers.len() % 0x1_0000) as u16);
        let w1 = LineNumberTable::spec_write_seq(line_numbers);
        let a1 = w0 + w1;
        assert(a1.len() == w0.len() + w1.len());
        assert(s.subrange(0, s.len() as int) =~= s);
        lemma_occurs_split(s, 0, w0, w1);
        lemma_round_trip_u16((line_numbers.len() % 0x1_0000) as u16, s, 0);
        LineNumberTable::lemma_round_trip_seq(line_numbers, s, w0.len() as int);
    }

    /// The `LocalVariableTable` attribute with the given name index whose body is `s`.
    #[verifier::opaque]
    pub open spec fn spec_body_local_variable_table(
        s: Seq<u8>,
        name: ConstantPoolIndex,
    ) -> Result<AttributeView, Error> {
        match spec_read_u16(s, 0) {
            Err(e) => Err(e),
            Ok((n_local_variables, at1)) => {
                match LocalVariableTable::spec_read_seq(s, at1, n_local_variables as nat) {
                    Err(e) => Err(e),
                    Ok((local_variables, at2)) => {
                        Ok(AttributeView::LocalVariableTable { name, local_variables })
                    },
                }
            },
        }
    }

    /// Decodes the body of a `LocalVariableTable` attribute.
    fn body_local_variable_table(body: &[u8], name: ConstantPoolIndex) -> (r: Result<Attribute, Error>)
        ensures
            body_decoded(r, Self::spec_body_local_variable_table(body@, name)),
    {
        proof {
            reveal(Attribute::spec_body_local_variable_table);
        }
        let (n_local_variables, pos1) = match read_u16(body, 0) {
            Ok(x) => x,
            Err(e) => {
                return Err(e);
            },
        };
        let (local_variables, _) = match LocalVariableTable::read_seq(body, pos1, n_local_variables as usize) {
            Ok(x) => x,
            Err(e) => {
                return Err(e);
            },
        };
        Ok(Attribute::LocalVariableTable { name, local_variables })
    }

    /// Appends the body of a `LocalVariableTable` attribute.
    fn write_body_local_variable_table(local_variables: &Vec<LocalVariableTable>, out: &mut Vec<u8>)
        ensures
            final(out)@ == old(out)@
                + (spec_u16_bytes((local_variables@.len() % 0x1_0000) as u16) + LocalVariableTable::spec_write_seq(local_variables@)),
    {
        write_u16(out, (local_variables.len() % 0x1_0000) as u16);
        LocalVariableTable::write_seq(local_variables, out);
        proof {
            assert(out@ =~= old(out)@ + (spec_u16_bytes((local_variables@.len() % 0x1_0000) as u16) + LocalVariableTable::spec_write_seq(local_variables@)));
        }
    }

    /// A `LocalVariableTable` attribute that was read holds the name index it was read for, its parts
    /// are well formed, and its body has no more bytes than the body it was read from.
    proof fn lemma_body_wf_local_variable_table(s: Seq<u8>, name: ConstantPoolIndex)
        ensures
            Self::spec_body_local_variable_table(s, name) matches Ok(a) ==> a matches AttributeView::LocalVariableTable { name: n, local_variables }
                && n == name
                && local_variables.len() <= 0xFFFF
                && LocalVariableTable::wf_seq(local_variables)
                && (spec_u16_bytes((local_variables.len() % 0x1_0000) as u16) + LocalVariableTable::spec_write_seq(local_variables)).len() <= s.len(),
    {
        reveal(Attribute::spec_body_local_variable_table);
        if let Ok((n_local_variables, at1)) = spec_read_u16(s, 0) {
            LocalVariableTable::lemma_read_seq_wf(s, at1, n_local_variables as nat);
            if let Ok((local_variables, at2)) = LocalVariableTable::spec_read_seq(s, at1, n_local_variables as nat) {
            }
        }
    }

    /// Reading back the written body of a `LocalVariableTable` attribute yields the attribute.
    proof fn lemma_body_local_variable_table(
        s: Seq<u8>,
        name: ConstantPoolIndex,
        local_variables: Seq<LocalVariableTable>,
    )
        requires
            local_variables.len() <= 0xFFFF,
            LocalVariableTable::wf_seq(local_variables),
            s == spec_u16_bytes((local_variables.len() % 0x1_0000) as u16)
                + LocalVariableTable::spec_write_seq(local_variables),
        ensures
            Self::spec_body_local_variable_table(s, name) == Ok::<AttributeView, Error>(AttributeView::LocalVariableTable { name, local_variables }),
    {
        reveal(Attribute::spec_body_local_variable_table);
        let w0 = spec_u16_bytes((local_variables.len() % 0x1_0000) as u16);
        let w1 = LocalVariableTable::spec_write_seq(local_variables);
        let a1 = w0 + w1;
        assert(a1.len() == w0.len() + w1.len());
        assert(s.subrange(0, s.len() as int) =~= s);
        lemma_occurs_split(s, 0, w0, w1);
        lemma_round_trip_u16((local_variables.len() % 0x1_0000) as u16, s, 0);
        LocalVariableTable::lemma_round_trip_seq(local_variables, s, w0.len() as int);
    }

    /// The `LocalVariableTypeTable` attribute with the given name index whose body is `s`.
    #[verifier::opaque]
    pub open spec fn spec_body_local_variable_type_table(
        s: Seq<u8>,
        name: ConstantPoolIndex,
    ) -> Result<AttributeView, Error> {
        match spec_read_u16(s, 0) {
            Err(e) => Err(e),
            Ok((n_local_variable_type_table, at1)) => {
                match LocalVariableTypeTable::spec_read_seq(s, at1, n_local_variable_type_table as nat) {
                    Err(e) => Err(e),
                    Ok((local_variable_type_table, at2)) => {
                        Ok(AttributeView::LocalVariableTypeTable { name, local_variable_type_table })
                    },
                }
            },
        }
    }

    /// Decodes the body of a `LocalVariableTypeTable` attribute.
    fn body_local_variable_type_table(body: &[u8], name: ConstantPoolIndex) -> (r: Result<Attribute, Error>)
        ensures
            body_decoded(r, Self::spec_body_local_variable_type_table(body@, name)),
    {
        proof {
            reveal(Attribute::spec_body_local_variable_type_table);
        }
        let (n_local_variable_type_table, pos1) = match read_u16(body, 0) {
            Ok(x) => x,
            Err(e) => {
                return Err(e);
            },
        };
        let (local_variable_type_table, _) = match LocalVariableTypeTable::read_seq(body, pos1, n_local_variable_type_table as usize) {
            Ok(x) => x,
            Err(e) => {
                return Err(e);
            },
        };
        Ok(Attribute::LocalVariableTypeTable { name, local_variable_type_table })
    }

    /// Appends the body of a `LocalVariableTypeTable` attribute.
    fn write_body_local_variable_type_table(
        local_variable_type_table: &Vec<LocalVariableTypeTable>,
        out: &mut Vec<u8>,
    )
        ensures
            final(out)@ == old(out)@
                + (spec_u16_bytes((local_variable_type_table@.len() % 0x1_0000) as u16) + LocalVariableTypeTable::spec_write_seq(local_variable_type_table@)),
    {
        write_u16(out, (local_variable_type_table.len() % 0x1_0000) as u16);
        LocalVariableTypeTable::write_seq(local_variable_type_table, out);
        proof {
            assert(out@ =~= old(out)@ + (spec_u16_bytes((local_variable_type_table@.len() % 0x1_0000) as u16) + LocalVariableTypeTable::spec_write_seq(local_variable_type_table@)));
        }
    }

    /// A `LocalVariableTypeTable` attribute that was read holds the name index it was read for, its parts
    /// are well formed, and its body has no more bytes than the body it was read from.
    proof fn lemma_body_wf_local_variable_type_table(s: Seq<u8>, name: ConstantPoolIndex)
        ensures
            Self::spec_body_local_variable_type_table(s, name) matches Ok(a) ==> a matches AttributeView::LocalVariableTypeTable { name: n, local_variable_type_table }
                && n == name
                && local_variable_type_table.len() <= 0xFFFF
                && LocalVariableTypeTable::wf_seq(local_variable_type_table)
                && (spec_u16_bytes((local_variable_type_table.len() % 0x1_0000) as u16) + LocalVariableTypeTable::spec_write_seq(local_variable_type_table)).len() <= s.len(),
    {
        reveal(Attribute::spec_body_local_variable_type_table);
        if let Ok((n_local_variable_type_table, at1)) = spec_read_u16(s, 0) {
            LocalVariableTypeTable::lemma_read_seq_wf(s, at1, n_local_variable_type_table as nat);
            if let Ok((local_variable_type_table, at2)) = LocalVariableTypeTable::spec_read_seq(s, at1, n_local_variable_type_table as nat) {
            }
        }
    }

    /// Reading back the written body of a `LocalVariableTypeTable` attribute yields the attribute.
    proof fn lemma_body_local_variable_type_table(
        s: Seq<u8>,
        name: ConstantPoolIndex,
        local_variable_type_table: Seq<LocalVariableTypeTable>,
    )
        requires
            local_variable_type_table.len() <= 0xFFFF,
            LocalVariableTypeTable::wf_seq(local_variable_type_table),
            s == spec_u16_bytes((local_variable_type_table.len() % 0x1_0000) as u16)
                + LocalVariableTypeTable::spec_write_seq(local_variable_type_table),
        ensures
            Self::spec_body_local_variable_type_table(s, name) == Ok::<AttributeView, Error>(AttributeView::LocalVariableTypeTable { name, local_variable_type_table }),
    {
        reveal(Attribute::spec_body_local_variable_type_table);
        let w0 = spec_u16_bytes((local_variable_type_table.len() % 0x1_0000) as u16);
        let w1 = LocalVariableTypeTable::spec_write_seq(local_variable_type_table);
        let a1 = w0 + w1;
        assert(a1.len() == w0.len() + w1.len());
        assert(s.subrange(0, s.len() as int) =~= s);
        lemma_occurs_split(s, 0, w0, w1);
        lemma_round_trip_u16((local_variable_type_table.len() % 0x1_0000) as u16, s, 0);
        LocalVariableTypeTable::lemma_round_trip_seq(local_variable_type_table, s, w0.len() as int);
    }

    /// The `Deprecated` attribute with the given name index whose body is `s`.
    #[verifier::opaque]
    pub open spec fn spec_body_deprecated(
        s: Seq<u8>,
        name: ConstantPoolIndex,
    ) -> Result<AttributeView, Error> {
        Ok(AttributeView::Deprecated { name })
    }

    /// Decodes the body of a `Deprecated` attribute.
    fn body_deprecated(body: &[u8], name: ConstantPoolIndex) -> (r: Result<Attribute, Error>)
        ensures
            body_decoded(r, Self::spec_body_deprecated(body@, name)),
    {
        proof {
            reveal(Attribute::spec_body_deprecated);
        }
        Ok(Attribute::Deprecated { name })
    }

    /// Appends the body of a `Deprecated` attribute.
    fn write_body_deprecated(out: &mut Vec<u8>)
        ensures
            final(out)@ == old(out)@ + (Seq::<u8>::empty()),
    {
        proof {
            assert(out@ =~= old(out)@ + (Seq::<u8>::empty()));
        }
    }

    /// A `Deprecated` attribute that was read holds the name index it was read for, its parts
    /// are well formed, and its body has no more bytes than the body it was read from.
    proof fn lemma_body_wf_deprecated(s: Seq<u8>, name: ConstantPoolIndex)
        ensures
            Self::spec_body_deprecated(s, name) matches Ok(a) ==> a matches AttributeView::Deprecated { name: n }
                && n == name
                && (Seq::<u8>::empty()).len() <= s.len(),
    {
        reveal(Attribute::spec_body_deprecated);
    }

    /// Reading back the written body of a `Deprecated` attribute yields the attribute.
    proof fn lemma_body_deprecated(s: Seq<u8>, name: ConstantPoolIndex)
        requires
            s == Seq::<u8>::empty(),
        ensures
            Self::spec_body_deprecated(s, name) == Ok::<AttributeView, Error>(AttributeView::Deprecated { name }),
    {
        reveal(Attribute::spec_body_deprecated);
    }

    /// The `RuntimeVisibleAnnotations` attribute with the given name index whose body is `s`.
    #[verifier::opaque]
    pub open spec fn spec_body_runtime_visible_annotations(
        s: Seq<u8>,
        name: ConstantPoolIndex,
    ) -> Result<AttributeView, Error> {
        match spec_read_u16(s, 0) {
            Err(e) => Err(e),
            Ok((n_annotations, at1)) => {
                match Annotation::spec_read_seq(s, at1, n_annotations as nat) {
                    Err(e) => Err(e),
                    Ok((annotations, at2)) => {
                        Ok(AttributeView::RuntimeVisibleAnnotations { name, annotations })
                    },
                }
            },
        }
    }

    /// Decodes the body of a `RuntimeVisibleAnnotations` attribute.
    fn body_runtime_visible_annotations(body: &[u8], name: ConstantPoolIndex) -> (r: Result<Attribute, Error>)
        ensures
            body_decoded(r, Self::spec_body_runtime_visible_annotations(body@, name)),
    {
        proof {
            reveal(Attribute::spec_body_runtime_visible_annotations);
        }
        let (n_annotations, pos1) = match read_u16(body, 0) {
            Ok(x) => x,
            Err(e) => {
                return Err(e);
            },
        };
        let (annotations, _) = match Annotation::read_seq(body, pos1, n_annotations as usize) {
            Ok(x) => x,
            Err(e) => {
                return Err(e);
            },
        };
        Ok(Attribute::RuntimeVisibleAnnotations { name, annotations })
    }

    /// Appends the body of a `RuntimeVisibleAnnotations` attribute.
    fn write_body_runtime_visible_annotations(annotations: &Vec<Annotation>, out: &mut Vec<u8>)
        ensures
            final(out)@ == old(out)@
                + (spec_u16_bytes((views(annotations@).len() % 0x1_0000) as u16) + Annotation::spec_write_seq(views(annotations@))),
    {
        write_u16(out, (annotations.len() % 0x1_0000) as u16);
        Annotation::write_seq(annotations, out);
        proof {
            assert(out@ =~= old(out)@ + (spec_u16_bytes((views(annotations@).len() % 0x1_0000) as u16) + Annotation::spec_write_seq(views(annotations@))));
        }
    }

    /// A `RuntimeVisibleAnnotations` attribute that was read holds the name index it was read for, its parts
    /// are well formed, and its body has no more bytes than the body it was read from.
    proof fn lemma_body_wf_runtime_visible_annotations(s: Seq<u8>, name: ConstantPoolIndex)
        ensures
            Self::spec_body_runtime_visible_annotations(s, name) matches Ok(a) ==> a matches AttributeView::RuntimeVisibleAnnotations { name: n, annotations }
                && n == name
                && annotations.len() <= 0xFFFF
                && Annotation::wf_seq(annotations)
                && (spec_u16_bytes((annotations.len() % 0x1_0000) as u16) + Annotation::spec_write_seq(annotations)).len() <= s.len(),
    {
        reveal(Attribute::spec_body_runtime_visible_annotations);
        if let Ok((n_annotations, at1)) = spec_read_u16(s, 0) {
            Annotation::lemma_read_seq_wf(s, at1, n_annotations as nat);
            if let Ok((annotations, at2)) = Annotation::spec_read_seq(s, at1, n_annotations as nat) {
            }
        }
    }

    /// Reading back the written body of a `RuntimeVisibleAnnotations` attribute yields the attribute.
    proof fn lemma_body_runtime_visible_annotations(
        s: Seq<u8>,
        name: ConstantPoolIndex,
        annotations: Seq<AnnotationView>,
    )
        requires
            annotations.len() <= 0xFFFF,
            Annotation::wf_seq(annotations),
            s == spec_u16_bytes((annotations.len() % 0x1_0000) as u16)
                + Annotation::spec_write_seq(annotations),
        ensures
            Self::spec_body_runtime_visible_annotations(s, name) == Ok::<AttributeView, Error>(AttributeView::RuntimeVisibleAnnotations { name, annotations }),
    {
        reveal(Attribute::spec_body_runtime_visible_annotations);
        let w0 = spec_u16_bytes((annotations.len() % 0x1_0000) as u16);
        let w1 = Annotation::spec_write_seq(annotations);
        let a1 = w0 + w1;
        assert(a1.len() == w0.len() + w1.len());
        assert(s.subrange(0, s.len() as int) =~= s);
        lemma_occurs_split(s, 0, w0, w1);
        lemma_round_trip_u16((annotations.len() % 0x1_0000) as u16, s, 0);
        Annotation::lemma_round_trip_seq(annotations, s, w0.len() as int);
    }

    /// The `RuntimeInvisibleAnnotations` attribute with the given name index whose body is `s`.
    #[verifier::opaque]
    pub open spec fn spec_body_runtime_invisible_annotations(
        s: Seq<u8>,
        name: ConstantPoolIndex,
    ) -> Result<AttributeView, Error> {
        match spec_read_u16(s, 0) {
            Err(e) => Err(e),
            Ok((n_annotations, at1)) => {
                match Annotation::spec_read_seq(s, at1, n_annotations as nat) {
                    Err(e) => Err(e),
                    Ok((annotations, at2)) => {
                        Ok(AttributeView::RuntimeInvisibleAnnotations { name, annotations })
                    },
                }
            },
        }
    }

    /// Decodes the body of a `RuntimeInvisibleAnnotations` attribute.
    fn body_runtime_invisible_annotations(
        body: &[u8],
        name: ConstantPoolIndex,
    ) -> (r: Result<Attribute, Error>)
        ensures
            body_decoded(r, Self::spec_body_runtime_invisible_annotations(body@, name)),
    {
        proof {
            reveal(Attribute::spec_body_runtime_invisible_annotations);
        }
        let (n_annotations, pos1) = match read_u16(body, 0) {
            Ok(x) => x,
            Err(e) => {
                return Err(e);
            },
        };
        let (annotations, _) = match Annotation::read_seq(body, pos1, n_annotations as usize) {
            Ok(x) => x,
            Err(e) => {
                return Err(e);
            },
        };
        Ok(Attribute::RuntimeInvisibleAnnotations { name, annotations })
    }

    /// Appends the body of a `RuntimeInvisibleAnnotations` attribute.
    fn write_body_runtime_invisible_annotations(annotations: &Vec<Annotation>, out: &mut Vec<u8>)
        ensures
            final(out)@ == old(out)@
                + (spec_u16_bytes((views(annotations@).len() % 0x1_0000) as u16) + Annotation::spec_write_seq(views(annotations@))),
    {
        write_u16(out, (annotations.len() % 0x1_0000) as u16);
        Annotation::write_seq(annotations, out);
        proof {
            assert(out@ =~= old(out)@ + (spec_u16_bytes((views(annotations@).len() % 0x1_0000) as u16) + Annotation::spec_write_seq(views(annotations@))));
        }
    }

    /// A `RuntimeInvisibleAnnotations` attribute that was read holds the name index it was read for, its parts
    /// are well formed, and its body has no more bytes than the body it was read from.
    proof fn lemma_body_wf_runtime_invisible_annotations(s: Seq<u8>, name: ConstantPoolIndex)
        ensures
            Self::spec_body_runtime_invisible_annotations(s, name) matches Ok(a) ==> a matches AttributeView::RuntimeInvisibleAnnotations { name: n, annotations }
                && n == name
                && annotations.len() <= 0xFFFF
                && Annotation::wf_seq(annotations)
                && (spec_u16_bytes((annotations.len() % 0x1_0000) as u16) + Annotation::spec_write_seq(annotations)).len() <= s.len(),
    {
        reveal(Attribute::spec_body_runtime_invisible_annotations);
        if let Ok((n_annotations, at1)) = spec_read_u16(s, 0) {
            Annotation::lemma_read_seq_wf(s, at1, n_annotations as nat);
            if let Ok((annotations, at2)) = Annotation::spec_read_seq(s, at1, n_annotations as nat) {
            }
        }
    }

    /// Reading back the written body of a `RuntimeInvisibleAnnotations` attribute yields the attribute.
    proof fn lemma_body_runtime_invisible_annotations(
        s: Seq<u8>,
        name: ConstantPoolIndex,
        annotations: Seq<AnnotationView>,
    )
        requires
            annotations.len() <= 0xFFFF,
            Annotation::wf_seq(annotations),
            s == spec_u16_bytes((annotations.len() % 0x1_0000) as u16)
                + Annotation::spec_write_seq(annotations),
        ensures
            Self::spec_body_runtime_invisible_annotations(s, name) == Ok::<AttributeView, Error>(AttributeView::RuntimeInvisibleAnnotations { name, annotations }),
    {
        reveal(Attribute::spec_body_runtime_invisible_annotations);
        let w0 = spec_u16_bytes((annotations.len() % 0x1_0000) as u16);
        let w1 = Annotation::spec_write_seq(annotations);
        let a1 = w0 + w1;
        assert(a1.len() == w0.len() + w1.len());
        assert(s.subrange(0, s.len() as int) =~= s);
        lemma_occurs_split(s, 0, w0, w1);
        lemma_round_trip_u16((annotations.len() % 0x1_0000) as u16, s, 0);
        Annotation::lemma_round_trip_seq(annotations, s, w0.len() as int);
    }

    /// The `RuntimeVisibleParameterAnnotations` attribute with the given name index whose body is `s`.
    #[verifier::opaque]
    pub open spec fn spec_body_runtime_visible_parameter_annotations(
        s: Seq<u8>,
        name: ConstantPoolIndex,
    ) -> Result<AttributeView, Error> {
        match spec_read_u8(s, 0) {
            Err(e) => Err(e),
            Ok((n_annotations, at1)) => {
                match ParameterAnnotation::spec_read_seq(s, at1, n_annotations as nat) {
                    Err(e) => Err(e),
                    Ok((annotations, at2)) => {
                        Ok(AttributeView::RuntimeVisibleParameterAnnotations { name, annotations })
                    },
                }
            },
        }
    }

    /// Decodes the body of a `RuntimeVisibleParameterAnnotations` attribute.
    fn body_runtime_visible_parameter_annotations(
        body: &[u8],
        name: ConstantPoolIndex,
    ) -> (r: Result<Attribute, Error>)
        ensures
            body_decoded(r, Self::spec_body_runtime_visible_parameter_annotations(body@, name)),
    {
        proof {
            reveal(Attribute::spec_body_runtime_visible_parameter_annotations);
        }
        let (n_annotations, pos1) = match read_u8(body, 0) {
            Ok(x) => x,
            Err(e) => {
                return Err(e);
            },
        };
        let (annotations, _) = match ParameterAnnotation::read_seq(body, pos1, n_annotations as usize) {
            Ok(x) => x,
            Err(e) => {
                return Err(e);
            },
        };
        Ok(Attribute::RuntimeVisibleParameterAnnotations { name, annotations })
    }

    /// Appends the body of a `RuntimeVisibleParameterAnnotations` attribute.
    fn write_body_runtime_visible_parameter_annotations(
        annotations: &Vec<ParameterAnnotation>,
        out: &mut Vec<u8>,
    )
        ensures
            final(out)@ == old(out)@
                + (seq![(views(annotations@).len() % 0x100) as u8] + ParameterAnnotation::spec_write_seq(views(annotations@))),
    {
        write_u8(out, (annotations.len() % 0x100) as u8);
        ParameterAnnotation::write_seq(annotations, out);
        proof {
            assert(out@ =~= old(out)@ + (seq![(views(annotations@).len() % 0x100) as u8] + ParameterAnnotation::spec_write_seq(views(annotations@))));
        }
    }

    /// A `RuntimeVisibleParameterAnnotations` attribute that was read holds the name index it was read for, its parts
    /// are well formed, and its body has no more bytes than the body it was read from.
    proof fn lemma_body_wf_runtime_visible_parameter_annotations(s: Seq<u8>, name: ConstantPoolIndex)
        ensures
            Self::spec_body_runtime_visible_parameter_annotations(s, name) matches Ok(a) ==> a matches AttributeView::RuntimeVisibleParameterAnnotations { name: n, annotations }
                && n == name
                && annotations.len() <= 0xFF
                && ParameterAnnotation::wf_seq(annotations)
                && (seq![(annotations.len() % 0x100) as u8] + ParameterAnnotation::spec_write_seq(annotations)).len() <= s.len(),
    {
        reveal(Attribute::spec_body_runtime_visible_parameter_annotations);
        if let Ok((n_annotations, at1)) = spec_read_u8(s, 0) {
            ParameterAnnotation::lemma_read_seq_wf(s, at1, n_annotations as nat);
            if let Ok((annotations, at2)) = ParameterAnnotation::spec_read_seq(s, at1, n_annotations as nat) {
            }
        }
    }

    /// Reading back the written body of a `RuntimeVisibleParameterAnnotations` attribute yields the attribute.
    proof fn lemma_body_runtime_visible_parameter_annotations(
        s: Seq<u8>,
        name: ConstantPoolIndex,
        annotations: Seq<ParameterAnnotationView>,
    )
        requires
            annotations.len() <= 0xFF,
            ParameterAnnotation::wf_seq(annotations),
            s == seq![(annotations.len() % 0x100) as u8] + ParameterAnnotation::spec_write_seq(annotations),
        ensures
            Self::spec_body_runtime_visible_parameter_annotations(s, name) == Ok::<AttributeView, Error>(AttributeView::RuntimeVisibleParameterAnnotations { name, annotations }),
    {
        reveal(Attribute::spec_body_runtime_visible_parameter_annotations);
        let w0 = seq![(annotations.len() % 0x100) as u8];
        let w1 = ParameterAnnotation::spec_write_seq(annotations);
        let a1 = w0 + w1;
        assert(a1.len() == w0.len() + w1.len());
        assert(s.subrange(0, s.len() as int) =~= s);
        lemma_occurs_split(s, 0, w0, w1);
        lemma_round_trip_u8((annotations.len() % 0x100) as u8, s, 0);
        ParameterAnnotation::lemma_round_trip_seq(annotations, s, w0.len() as int);
    }

    /// The `RuntimeInvisibleParameterAnnotations` attribute with the given name index whose body is `s`.
    #[verifier::opaque]
    pub open spec fn spec_body_runtime_invisible_parameter_annotations(
        s: Seq<u8>,
        name: ConstantPoolIndex,
    ) -> Result<AttributeView, Error> {
        match spec_read_u8(s, 0) {
            Err(e) => Err(e),
            Ok((n_annotations, at1)) => {
                match ParameterAnnotation::spec_read_seq(s, at1, n_annotations as nat) {
                    Err(e) => Err(e),
                    Ok((annotations, at2)) => {
                        Ok(AttributeView::RuntimeInvisibleParameterAnnotations { name, annotations })
                    },
                }
            },
        }
    }

    /// Decodes the body of a `RuntimeInvisibleParameterAnnotations` attribute.
    fn body_runtime_invisible_parameter_annotations(
        body: &[u8],
        name: ConstantPoolIndex,
    ) -> (r: Result<Attribute, Error>)
        ensures
            body_decoded(r, Self::spec_body_runtime_invisible_parameter_annotations(body@, name)),
    {
        proof {
            reveal(Attribute::spec_body_runtime_invisible_parameter_annotations);
        }
        let (n_annotations, pos1) = match read_u8(body, 0) {
            Ok(x) => x,
            Err(e) => {
                return Err(e);
            },
        };
        let (annotations, _) = match ParameterAnnotation::read_seq(body, pos1, n_annotations as usize) {
            Ok(x) => x,
            Err(e) => {
                return Err(e);
            },
        };
        Ok(Attribute::RuntimeInvisibleParameterAnnotations { name, annotations })
    }

    /// Appends the body of a `RuntimeInvisibleParameterAnnotations` attribute.
    fn write_body_runtime_invisible_parameter_annotations(
        annotations: &Vec<ParameterAnnotation>,
        out: &mut Vec<u8>,
    )
        ensures
            final(out)@ == old(out)@
                + (seq![(views(annotations@).len() % 0x100) as u8] + ParameterAnnotation::spec_write_seq(views(annotations@))),
    {
        write_u8(out, (annotations.len() % 0x100) as u8);
        ParameterAnnotation::write_seq(annotations, out);
        proof {
            assert(out@ =~= old(out)@ + (seq![(views(annotations@).len() % 0x100) as u8] + ParameterAnnotation::spec_write_seq(views(annotations@))));
        }
    }

    /// A `RuntimeInvisibleParameterAnnotations` attribute that was read holds the name index it was read for, its parts
    /// are well formed, and its body has no more bytes than the body it was read from.
    proof fn lemma_body_wf_runtime_invisible_parameter_annotations(s: Seq<u8>, name: ConstantPoolIndex)
        ensures
            Self::spec_body_runtime_invisible_parameter_annotations(s, name) matches Ok(a) ==> a matches AttributeView::RuntimeInvisibleParameterAnnotations { name: n, annotations }
                && n == name
                && annotations.len() <= 0xFF
                && ParameterAnnotation::wf_seq(annotations)
                && (seq![(annotations.len() % 0x100) as u8] + ParameterAnnotation::spec_write_seq(annotations)).len() <= s.len(),
    {
        reveal(Attribute::spec_body_runtime_invisible_parameter_annotations);
        if let Ok((n_annotations, at1)) = spec_read_u8(s, 0) {
            ParameterAnnotation::lemma_read_seq_wf(s, at1, n_annotations as nat);
            if let Ok((annotations, at2)) = ParameterAnnotation::spec_read_seq(s, at1, n_annotations as nat) {
            }
        }
    }

    /// Reading back the written body of a `RuntimeInvisibleParameterAnnotations` attribute yields the attribute.
    proof fn lemma_body_runtime_invisible_parameter_annotations(
        s: Seq<u8>,
        name: ConstantPoolIndex,
        annotations: Seq<ParameterAnnotationView>,
    )
        requires
            annotations.len() <= 0xFF,
            ParameterAnnotation::wf_seq(annotations),
            s == seq![(annotations.len() % 0x100) as u8] + ParameterAnnotation::spec_write_seq(annotations),
        ensures
            Self::spec_body_runtime_invisible_parameter_annotations(s, name) == Ok::<AttributeView, Error>(AttributeView::RuntimeInvisibleParameterAnnotations { name, annotations }),
    {
        reveal(Attribute::spec_body_runtime_invisible_parameter_annotations);
        let w0 = seq![(annotations.len() % 0x100) as u8];
        let w1 = ParameterAnnotation::spec_write_seq(annotations);
        let a1 = w0 + w1;
        assert(a1.len() == w0.len() + w1.len());
        assert(s.subrange(0, s.len() as int) =~= s);
        lemma_occurs_split(s, 0, w0, w1);
        lemma_round_trip_u8((annotations.len() % 0x100) as u8, s, 0);
        ParameterAnnotation::lemma_round_trip_seq(annotations, s, w0.len() as int);
    }

    /// The `RuntimeVisibleTypeAnnotations` attribute with the given name index whose body is `s`.
    #[verifier::opaque]
    pub open spec fn spec_body_runtime_visible_type_annotations(
        s: Seq<u8>,
        name: ConstantPoolIndex,
    ) -> Result<AttributeView, Error> {
        match spec_read_u16(s, 0) {
            Err(e) => Err(e),
            Ok((n_annotations, at1)) => {
                match TypeAnnotation::spec_read_seq(s, at1, n_annotations as nat) {
                    Err(e) => Err(e),
                    Ok((annotations, at2)) => {
                        Ok(AttributeView::RuntimeVisibleTypeAnnotations { name, annotations })
                    },
                }
            },
        }
    }

    /// Decodes the body of a `RuntimeVisibleTypeAnnotations` attribute.
    fn body_runtime_visible_type_annotations(
        body: &[u8],
        name: ConstantPoolIndex,
    ) -> (r: Result<Attribute, Error>)
        ensures
            body_decoded(r, Self::spec_body_runtime_visible_type_annotations(body@, name)),
    {
        proof {
            reveal(Attribute::spec_body_runtime_visible_type_annotations);
        }
        let (n_annotations, pos1) = match read_u16(body, 0) {
            Ok(x) => x,
            Err(e) => {
                return Err(e);
            },
        };
        let (annotations, _) = match TypeAnnotation::read_seq(body, pos1, n_annotations as usize) {
            Ok(x) => x,
            Err(e) => {
                return Err(e);
            },
        };
        Ok(Attribute::RuntimeVisibleTypeAnnotations { name, annotations })
    }

    /// Appends the body of a `RuntimeVisibleTypeAnnotations` attribute.
    fn write_body_runtime_visible_type_annotations(annotations: &Vec<TypeAnnotation>, out: &mut Vec<u8>)
        ensures
            final(out)@ == old(out)@
                + (spec_u16_bytes((views(annotations@).len() % 0x1_0000) as u16) + TypeAnnotation::spec_write_seq(views(annotations@))),
    {
        write_u16(out, (annotations.len() % 0x1_0000) as u16);
        TypeAnnotation::write_seq(annotations, out);
        proof {
            assert(out@ =~= old(out)@ + (spec_u16_bytes((views(annotations@).len() % 0x1_0000) as u16) + TypeAnnotation::spec_write_seq(views(annotations@))));
        }
    }

    /// A `RuntimeVisibleTypeAnnotations` attribute that was read holds the name index it was read for, its parts
    /// are well formed, and its body has no more bytes than the body it was read from.
    proof fn lemma_body_wf_runtime_visible_type_annotations(s: Seq<u8>, name: ConstantPoolIndex)
        ensures
            Self::spec_body_runtime_visible_type_annotations(s, name) matches Ok(a) ==> a matches AttributeView::RuntimeVisibleTypeAnnotations { name: n, annotations }
                && n == name
                && annotations.len() <= 0xFFFF
                && TypeAnnotation::wf_seq(annotations)
                && (spec_u16_bytes((annotations.len() % 0x1_0000) as u16) + TypeAnnotation::spec_write_seq(annotations)).len() <= s.len(),
    {
        reveal(Attribute::spec_body_runtime_visible_type_annotations);
        if let Ok((n_annotations, at1)) = spec_read_u16(s, 0) {
            TypeAnnotation::lemma_read_seq_wf(s, at1, n_annotations as nat);
            if let Ok((annotations, at2)) = TypeAnnotation::spec_read_seq(s, at1, n_annotations as nat) {
            }
        }
    }

    /// Reading back the written body of a `RuntimeVisibleTypeAnnotations` attribute yields the attribute.
    proof fn lemma_body_runtime_visible_type_annotations(
        s: Seq<u8>,
        name: ConstantPoolIndex,
        annotations: Seq<TypeAnnotationView>,
    )
        requires
            annotations.len() <= 0xFFFF,
            TypeAnnotation::wf_seq(annotations),
            s == spec_u16_bytes((annotations.len() % 0x1_0000) as u16)
                + TypeAnnotation::spec_write_seq(annotations),
        ensures
            Self::spec_body_runtime_visible_type_annotations(s, name) == Ok::<AttributeView, Error>(AttributeView::RuntimeVisibleTypeAnnotations { name, annotations }),
    {
        reveal(Attribute::spec_body_runtime_visible_type_annotations);
        let w0 = spec_u16_bytes((annotations.len() % 0x1_0000) as u16);
        let w1 = TypeAnnotation::spec_write_seq(annotations);
        let a1 = w0 + w1;
        assert(a1.len() == w0.len() + w1.len());
        assert(s.subrange(0, s.len() as int) =~= s);
        lemma_occurs_split(s, 0, w0, w1);
        lemma_round_trip_u16((annotations.len() % 0x1_0000) as u16, s, 0);
        TypeAnnotation::lemma_round_trip_seq(annotations, s, w0.len() as int);
    }

    /// The `RuntimeInvisibleTypeAnnotations` attribute with the given name index whose body is `s`.
    #[verifier::opaque]
    pub open spec fn spec_body_runtime_invisible_type_annotations(
        s: Seq<u8>,
        name: ConstantPoolIndex,
    ) -> Result<AttributeView, Error> {
        match spec_read_u16(s, 0) {
            Err(e) => Err(e),
            Ok((n_annotations, at1)) => {
                match TypeAnnotation::spec_read_seq(s, at1, n_annotations as nat) {
                    Err(e) => Err(e),
                    Ok((annotations, at2)) => {
                        Ok(AttributeView::RuntimeInvisibleTypeAnnotations { name, annotations })
                    },
                }
            },
        }
    }

    /// Decodes the body of a `RuntimeInvisibleTypeAnnotations` attribute.
    fn body_runtime_invisible_type_annotations(
        body: &[u8],
        name: ConstantPoolIndex,
    ) -> (r: Result<Attribute, Error>)
        ensures
            body_decoded(r, Self::spec_body_runtime_invisible_type_annotations(body@, name)),
    {
        proof {
            reveal(Attribute::spec_body_runtime_invisible_type_annotations);
        }
        let (n_annotations, pos1) = match read_u16(body, 0) {
            Ok(x) => x,
            Err(e) => {
                return Err(e);
            },
        };
        let (annotations, _) = match TypeAnnotation::read_seq(body, pos1, n_annotations as usize) {
            Ok(x) => x,
            Err(e) => {
                return Err(e);
            },
        };
        Ok(Attribute::RuntimeInvisibleTypeAnnotations { name, annotations })
    }

    /// Appends the body of a `RuntimeInvisibleTypeAnnotations` attribute.
    fn write_body_runtime_invisible_type_annotations(annotations: &Vec<TypeAnnotation>, out: &mut Vec<u8>)
        ensures
            final(out)@ == old(out)@
                + (spec_u16_bytes((views(annotations@).len() % 0x1_0000) as u16) + TypeAnnotation::spec_write_seq(views(annotations@))),
    {
        write_u16(out, (annotations.len() % 0x1_0000) as u16);
        TypeAnnotation::write_seq(annotations, out);
        proof {
            assert(out@ =~= old(out)@ + (spec_u16_bytes((views(annotations@).len() % 0x1_0000) as u16) + TypeAnnotation::spec_write_seq(views(annotations@))));
        }
    }

    /// A `RuntimeInvisibleTypeAnnotations` attribute that was read holds the name index it was read for, its parts
    /// are well formed, and its body has no more bytes than the body it was read from.
    proof fn lemma_body_wf_runtime_invisible_type_annotations(s: Seq<u8>, name: ConstantPoolIndex)
        ensures
            Self::spec_body_runtime_invisible_type_annotations(s, name) matches Ok(a) ==> a matches AttributeView::RuntimeInvisibleTypeAnnotations { name: n, annotations }
                && n == name
                && annotations.len() <= 0xFFFF
                && TypeAnnotation::wf_seq(annotations)
                && (spec_u16_bytes((annotations.len() % 0x1_0000) as u16) + TypeAnnotation::spec_write_seq(annotations)).len() <= s.len(),
    {
        reveal(Attribute::spec_body_runtime_invisible_type_annotations);
        if let Ok((n_annotations, at1)) = spec_read_u16(s, 0) {
            TypeAnnotation::lemma_read_seq_wf(s, at1, n_annotations as nat);
            if let Ok((annotations, at2)) = TypeAnnotation::spec_read_seq(s, at1, n_annotations as nat) {
            }
        }
    }

    /// Reading back the written body of a `RuntimeInvisibleTypeAnnotations` attribute yields the attribute.
    proof fn lemma_body_runtime_invisible_type_annotations(
        s: Seq<u8>,
        name: ConstantPoolIndex,
        annotations: Seq<TypeAnnotationView>,
    )
        requires
            annotations.len() <= 0xFFFF,
            TypeAnnotation::wf_seq(annotations),
            s == spec_u16_bytes((annotations.len() % 0x1_0000) as u16)
                + TypeAnnotation::spec_write_seq(annotations),
        ensures
            Self::spec_body_runtime_invisible_type_annotations(s, name) == Ok::<AttributeView, Error>(AttributeView::RuntimeInvisibleTypeAnnotations { name, annotations }),
    {
        reveal(Attribute::spec_body_runtime_invisible_type_annotations);
        let w0 = spec_u16_bytes((annotations.len() % 0x1_0000) as u16);
        let w1 = TypeAnnotation::spec_write_seq(annotations);
        let a1 = w0 + w1;
        assert(a1.len() == w0.len() + w1.len());
        assert(s.subrange(0, s.len() as int) =~= s);
        lemma_occurs_split(s, 0, w0, w1);
        lemma_round_trip_u16((annotations.len() % 0x1_0000) as u16, s, 0);
        TypeAnnotation::lemma_round_trip_seq(annotations, s, w0.len() as int);
    }

    /// The `AnnotationDefault` attribute with the given name index whose body is `s`.
    #[verifier::opaque]
    pub open spec fn spec_body_annotation_default(
        s: Seq<u8>,
        name: ConstantPoolIndex,
    ) -> Result<AttributeView, Error> {
        match ElementValue::spec_read(s, 0) {
            Err(e) => Err(e),
            Ok((default_value, at1)) => {
                Ok(AttributeView::AnnotationDefault { name, default_value })
            },
        }
    }

    /// Decodes the body of a `AnnotationDefault` attribute.
    fn body_annotation_default(body: &[u8], name: ConstantPoolIndex) -> (r: Result<Attribute, Error>)
        ensures
            body_decoded(r, Self::spec_body_annotation_default(body@, name)),
    {
        proof {
            reveal(Attribute::spec_body_annotation_default);
        }
        let (default_value, _) = match ElementValue::read(body, 0) {
            Ok(x) => x,
            Err(e) => {
                return Err(e);
            },
        };
        Ok(Attribute::AnnotationDefault { name, default_value })
    }

    /// Appends the body of a `AnnotationDefault` attribute.
    fn write_body_annotation_default(default_value: &ElementValue, out: &mut Vec<u8>)
        ensures
            final(out)@ == old(out)@ + (default_value@.spec_write()),
    {
        default_value.write(out);
        proof {
            assert(out@ =~= old(out)@ + (default_value@.spec_write()));
        }
    }

    /// A `AnnotationDefault` attribute that was read holds the name index it was read for, its parts
    /// are well formed, and its body has no more bytes than the body it was read from.
    proof fn lemma_body_wf_annotation_default(s: Seq<u8>, name: ConstantPoolIndex)
        ensures
            Self::spec_body_annotation_default(s, name) matches Ok(a) ==> a matches AttributeView::AnnotationDefault { name: n, default_value }
                && n == name
                && default_value.wf()
                && (default_value.spec_write()).len() <= s.len(),
    {
        reveal(Attribute::spec_body_annotation_default);
        ElementValue::lemma_read_wf(s, 0);
        if let Ok((default_value, at1)) = ElementValue::spec_read(s, 0) {
        }
    }

    /// Reading back the written body of a `AnnotationDefault` attribute yields the attribute.
    proof fn lemma_body_annotation_default(
        s: Seq<u8>,
        name: ConstantPoolIndex,
        default_value: ElementValueView,
    )
        requires
            default_value.wf(),
            s == default_value.spec_write(),
        ensures
            Self::spec_body_annotation_default(s, name) == Ok::<AttributeView, Error>(AttributeView::AnnotationDefault { name, default_value }),
    {
        reveal(Attribute::spec_body_annotation_default);
        let w0 = default_value.spec_write();
        assert(s.subrange(0, s.len() as int) =~= s);
        ElementValue::lemma_round_trip(default_value, s, 0);
    }

    /// The `BootstrapMethods` attribute with the given name index whose body is `s`.
    #[verifier::opaque]
    pub open spec fn spec_body_bootstrap_methods(
        s: Seq<u8>,
        name: ConstantPoolIndex,
    ) -> Result<AttributeView, Error> {
        match spec_read_u16(s, 0) {
            Err(e) => Err(e),
            Ok((n_methods, at1)) => {
                match BootstrapMethod::spec_read_seq(s, at1, n_methods as nat) {
                    Err(e) => Err(e),
                    Ok((methods, at2)) => {
                        Ok(AttributeView::BootstrapMethods { name, methods })
                    },
                }
            },
        }
    }

    /// Decodes the body of a `BootstrapMethods` attribute.
    fn body_bootstrap_methods(body: &[u8], name: ConstantPoolIndex) -> (r: Result<Attribute, Error>)
        ensures
            body_decoded(r, Self::spec_body_bootstrap_methods(body@, name)),
    {
        proof {
            reveal(Attribute::spec_body_bootstrap_methods);
        }
        let (n_methods, pos1) = match read_u16(body, 0) {
            Ok(x) => x,
            Err(e) => {
                return Err(e);
            },
        };
        let (methods, _) = match BootstrapMethod::read_seq(body, pos1, n_methods as usize) {
            Ok(x) => x,
            Err(e) => {
                return Err(e);
            },
        };
        Ok(Attribute::BootstrapMethods { name, methods })
    }

    /// Appends the body of a `BootstrapMethods` attribute.
    fn write_body_bootstrap_methods(methods: &Vec<BootstrapMethod>, out: &mut Vec<u8>)
        ensures
            final(out)@ == old(out)@
                + (spec_u16_bytes((views(methods@).len() % 0x1_0000) as u16) + BootstrapMethod::spec_write_seq(views(methods@))),
    {
        write_u16(out, (methods.len() % 0x1_0000) as u16);
        BootstrapMethod::write_seq(methods, out);
        proof {
            assert(out@ =~= old(out)@ + (spec_u16_bytes((views(methods@).len() % 0x1_0000) as u16) + BootstrapMethod::spec_write_seq(views(methods@))));
        }
    }

    /// A `BootstrapMethods` attribute that was read holds the name index it was read for, its parts
    /// are well formed, and its body has no more bytes than the body it was read from.
    proof fn lemma_body_wf_bootstrap_methods(s: Seq<u8>, name: ConstantPoolIndex)
        ensures
            Self::spec_body_bootstrap_methods(s, name) matches Ok(a) ==> a matches AttributeView::BootstrapMethods { name: n, methods }
                && n == name
                && methods.len() <= 0xFFFF
                && BootstrapMethod::wf_seq(methods)
                && (spec_u16_bytes((methods.len() % 0x1_0000) as u16) + BootstrapMethod::spec_write_seq(methods)).len() <= s.len(),
    {
        reveal(Attribute::spec_body_bootstrap_methods);
        if let Ok((n_methods, at1)) = spec_read_u16(s, 0) {
            BootstrapMethod::lemma_read_seq_wf(s, at1, n_methods as nat);
            if let Ok((methods, at2)) = BootstrapMethod::spec_read_seq(s, at1, n_methods as nat) {
            }
        }
    }

    /// Reading back the written body of a `BootstrapMethods` attribute yields the attribute.
    proof fn lemma_body_bootstrap_methods(
        s: Seq<u8>,
        name: ConstantPoolIndex,
        methods: Seq<BootstrapMethodView>,
    )
        requires
            methods.len() <= 0xFFFF,
            BootstrapMethod::wf_seq(methods),
            s == spec_u16_bytes((methods.len() % 0x1_0000) as u16) + BootstrapMethod::spec_write_seq(methods),
        ensures
            Self::spec_body_bootstrap_methods(s, name) == Ok::<AttributeView, Error>(AttributeView::BootstrapMethods { name, methods }),
    {
        reveal(Attribute::spec_body_bootstrap_methods);
        let w0 = spec_u16_bytes((methods.len() % 0x1_0000) as u16);
        let w1 = BootstrapMethod::spec_write_seq(methods);
        let a1 = w0 + w1;
        assert(a1.len() == w0.len() + w1.len());
        assert(s.subrange(0, s.len() as int) =~= s);
        lemma_occurs_split(s, 0, w0, w1);
        lemma_round_trip_u16((methods.len() % 0x1_0000) as u16, s, 0);
        BootstrapMethod::lemma_round_trip_seq(methods, s, w0.len() as int);
    }

    /// The `MethodParameters` attribute with the given name index whose body is `s`.
    #[verifier::opaque]
    pub open spec fn spec_body_method_parameters(
        s: Seq<u8>,
        name: ConstantPoolIndex,
    ) -> Result<AttributeView, Error> {
        match spec_read_u16(s, 0) {
            Err(e) => Err(e),
            Ok((n_parameters, at1)) => {
                match MethodParameter::spec_read_seq(s, at1, n_parameters as nat) {
                    Err(e) => Err(e),
                    Ok((parameters, at2)) => {
                        Ok(AttributeView::MethodParameters { name, parameters })
                    },
                }
            },
        }
    }

    /// Decodes the body of a `MethodParameters` attribute.
    fn body_method_parameters(body: &[u8], name: ConstantPoolIndex) -> (r: Result<Attribute, Error>)
        ensures
            body_decoded(r, Self::spec_body_method_parameters(body@, name)),
    {
        proof {
            reveal(Attribute::spec_body_method_parameters);
        }
        let (n_parameters, pos1) = match read_u16(body, 0) {
            Ok(x) => x,
            Err(e) => {
                return Err(e);
            },
        };
        let (parameters, _) = match MethodParameter::read_seq(body, pos1, n_parameters as usize) {
            Ok(x) => x,
            Err(e) => {
                return Err(e);
            },
        };
        Ok(Attribute::MethodParameters { name, parameters })
    }

    /// Appends the body of a `MethodParameters` attribute.
    fn write_body_method_parameters(parameters: &Vec<MethodParameter>, out: &mut Vec<u8>)
        ensures
            final(out)@ == old(out)@
                + (spec_u16_bytes((parameters@.len() % 0x1_0000) as u16) + MethodParameter::spec_write_seq(parameters@)),
    {
        write_u16(out, (parameters.len() % 0x1_0000) as u16);
        MethodParameter::write_seq(parameters, out);
        proof {
            assert(out@ =~= old(out)@ + (spec_u16_bytes((parameters@.len() % 0x1_0000) as u16) + MethodParameter::spec_write_seq(parameters@)));
        }
    }

    /// A `MethodParameters` attribute that was read holds the name index it was read for, its parts
    /// are well formed, and its body has no more bytes than the body it was read from.
    proof fn lemma_body_wf_method_parameters(s: Seq<u8>, name: ConstantPoolIndex)
        ensures
            Self::spec_body_method_parameters(s, name) matches Ok(a) ==> a matches AttributeView::MethodParameters { name: n, parameters }
                && n == name
                && parameters.len() <= 0xFFFF
                && MethodParameter::wf_seq(parameters)
                && (spec_u16_bytes((parameters.len() % 0x1_0000) as u16) + MethodParameter::spec_write_seq(parameters)).len() <= s.len(),
    {
        reveal(Attribute::spec_body_method_parameters);
        if let Ok((n_parameters, at1)) = spec_read_u16(s, 0) {
            MethodParameter::lemma_read_seq_wf(s, at1, n_parameters as nat);
            if let Ok((parameters, at2)) = MethodParameter::spec_read_seq(s, at1, n_parameters as nat) {
            }
        }
    }

    /// Reading back the written body of a `MethodParameters` attribute yields the attribute.
    proof fn lemma_body_method_parameters(
        s: Seq<u8>,
        name: ConstantPoolIndex,
        parameters: Seq<MethodParameter>,
    )
        requires
            parameters.len() <= 0xFFFF,
            MethodParameter::wf_seq(parameters),
            s == spec_u16_bytes((parameters.len() % 0x1_0000) as u16)
                + MethodParameter::spec_write_seq(parameters),
        ensures
            Self::spec_body_method_parameters(s, name) == Ok::<AttributeView, Error>(AttributeView::MethodParameters { name, parameters }),
    {
        reveal(Attribute::spec_body_method_parameters);
        let w0 = spec_u16_bytes((parameters.len() % 0x1_0000) as u16);
        let w1 = MethodParameter::spec_write_seq(parameters);
        let a1 = w0 + w1;
        assert(a1.len() == w0.len() + w1.len());
        assert(s.subrange(0, s.len() as int) =~= s);
        lemma_occurs_split(s, 0, w0, w1);
        lemma_round_trip_u16((parameters.len() % 0x1_0000) as u16, s, 0);
        MethodParameter::lemma_round_trip_seq(parameters, s, w0.len() as int);
    }

    /// The `Module` attribute with the given name index whose body is `s`.
    #[verifier::opaque]
    pub open spec fn spec_body_module(s: Seq<u8>, name: ConstantPoolIndex) -> Result<AttributeView, Error> {
        match ConstantPoolIndex::spec_read(s, 0) {
            Err(e) => Err(e),
            Ok((module_name, at1)) => {
                match ModuleFlags::spec_read(s, at1) {
                    Err(e) => Err(e),
                    Ok((flags, at2)) => {
                        match ConstantPoolIndex::spec_read(s, at2) {
                            Err(e) => Err(e),
                            Ok((module_version, at3)) => {
                                match ModuleRequires::spec_read(s, at3) {
                                    Err(e) => Err(e),
                                    Ok((module_requires, at4)) => {
                                        match ModuleExports::spec_read(s, at4) {
                                            Err(e) => Err(e),
                                            Ok((exports, at5)) => {
                                                match ModuleOpens::spec_read(s, at5) {
                                                    Err(e) => Err(e),
                                                    Ok((opens, at6)) => {
                                                        match spec_read_u16(s, at6) {
                                                            Err(e) => Err(e),
                                                            Ok((n_uses, at7)) => {
                                                                match ConstantPoolIndex::spec_read_seq(s, at7, n_uses as nat) {
                                                                    Err(e) => Err(e),
                                                                    Ok((uses, at8)) => {
                                                                        match ModuleProvides::spec_read(s, at8) {
                                                                            Err(e) => Err(e),
                                                                            Ok((provides, at9)) => {
                                                                                Ok(AttributeView::Module { name, module_name, flags, module_version, module_requires, exports, opens, uses, provides })
                                                                            },
                                                                        }
                                                                    },
                                                                }
                                                            },
                                                        }
                                                    },
                                                }
                                            },
                                        }
                                    },
                                }
                            },
                        }
                    },
                }
            },
        }
    }

    /// Decodes the body of a `Module` attribute.
    fn body_module(body: &[u8], name: ConstantPoolIndex) -> (r: Result<Attribute, Error>)
        ensures
            body_decoded(r, Self::spec_body_module(body@, name)),
    {
        proof {
            reveal(Attribute::spec_body_module);
        }
        let (module_name, pos1) = match ConstantPoolIndex::read(body, 0) {
            Ok(x) => x,
            Err(e) => {
                return Err(e);
            },
        };
        let (flags, pos2) = match ModuleFlags::read(body, pos1) {
            Ok(x) => x,
            Err(e) => {
                return Err(e);
            },
        };
        let (module_version, pos3) = match ConstantPoolIndex::read(body, pos2) {
            Ok(x) => x,
            Err(e) => {
                return Err(e);
            },
        };
        let (module_requires, pos4) = match ModuleRequires::read(body, pos3) {
            Ok(x) => x,
            Err(e) => {
                return Err(e);
            },
        };
        let (exports, pos5) = match ModuleExports::read(body, pos4) {
            Ok(x) => x,
            Err(e) => {
                return Err(e);
            },
        };
        let (opens, pos6) = match ModuleOpens::read(body, pos5) {
            Ok(x) => x,
            Err(e) => {
                return Err(e);
            },
        };
        let (n_uses, pos7) = match read_u16(body, pos6) {
            Ok(x) => x,
            Err(e) => {
                return Err(e);
            },
        };
        let (uses, pos8) = match ConstantPoolIndex::read_seq(body, pos7, n_uses as usize) {
            Ok(x) => x,
            Err(e) => {
                return Err(e);
            },
        };
        let (provides, _) = match ModuleProvides::read(body, pos8) {
            Ok(x) => x,
            Err(e) => {
                return Err(e);
            },
        };
        Ok(Attribute::Module { name, module_name, flags, module_version, module_requires, exports, opens, uses, provides })
    }

    /// Appends the body of a `Module` attribute.
    fn write_body_module(
        module_name: &ConstantPoolIndex,
        flags: &ModuleFlags,
        module_version: &ConstantPoolIndex,
        module_requires: &ModuleRequires,
        exports: &ModuleExports,
        opens: &ModuleOpens,
        uses: &Vec<ConstantPoolIndex>,
        provides: &ModuleProvides,
        out: &mut Vec<u8>,
    )
        ensures
            final(out)@ == old(out)@
                + ((*module_name).spec_write() + (*flags).spec_write() + (*module_version).spec_write() + (*module_requires).spec_write() + exports@.spec_write() + opens@.spec_write() + spec_u16_bytes((uses@.len() % 0x1_0000) as u16) + ConstantPoolIndex::spec_write_seq(uses@) + provides@.spec_write()),
    {
        module_name.write(out);
        flags.write(out);
        module_version.write(out);
        module_requires.write(out);
        exports.write(out);
        opens.write(out);
        write_u16(out, (uses.len() % 0x1_0000) as u16);
        ConstantPoolIndex::write_seq(uses, out);
        provides.write(out);
        proof {
            assert(out@ =~= old(out)@ + ((*module_name).spec_write() + (*flags).spec_write() + (*module_version).spec_write() + (*module_requires).spec_write() + exports@.spec_write() + opens@.spec_write() + spec_u16_bytes((uses@.len() % 0x1_0000) as u16) + ConstantPoolIndex::spec_write_seq(uses@) + provides@.spec_write()));
        }
    }

    /// A `Module` attribute that was read holds the name index it was read for, its parts
    /// are well formed, and its body has no more bytes than the body it was read from.
    #[verifier::rlimit(100)]
    proof fn lemma_body_wf_module(s: Seq<u8>, name: ConstantPoolIndex)
        ensures
            Self::spec_body_module(s, name) matches Ok(a) ==> a matches AttributeView::Module { name: n, module_name, flags, module_version, module_requires, exports, opens, uses, provides }
                && n == name
                && module_name.wf()
                && flags.wf()
                && module_version.wf()
                && module_requires.wf()
                && exports.wf()
                && opens.wf()
                && uses.len() <= 0xFFFF
                && ConstantPoolIndex::wf_seq(uses)
                && provides.wf()
                && (module_name.spec_write() + flags.spec_write() + module_version.spec_write() + module_requires.spec_write() + exports.spec_write() + opens.spec_write() + spec_u16_bytes((uses.len() % 0x1_0000) as u16) + ConstantPoolIndex::spec_write_seq(uses) + provides.spec_write()).len() <= s.len(),
    {
        reveal(Attribute::spec_body_module);
        ConstantPoolIndex::lemma_read_wf(s, 0);
        if let Ok((module_name, at1)) = ConstantPoolIndex::spec_read(s, 0) {
            ModuleFlags::lemma_read_wf(s, at1);
            if let Ok((flags, at2)) = ModuleFlags::spec_read(s, at1) {
                ConstantPoolIndex::lemma_read_wf(s, at2);
                if let Ok((module_version, at3)) = ConstantPoolIndex::spec_read(s, at2) {
                    ModuleRequires::lemma_read_wf(s, at3);
                    if let Ok((module_requires, at4)) = ModuleRequires::spec_read(s, at3) {
                        ModuleExports::lemma_read_wf(s, at4);
                        if let Ok((exports, at5)) = ModuleExports::spec_read(s, at4) {
                            ModuleOpens::lemma_read_wf(s, at5);
                            if let Ok((opens, at6)) = ModuleOpens::spec_read(s, at5) {
                                if let Ok((n_uses, at7)) = spec_read_u16(s, at6) {
                                    ConstantPoolIndex::lemma_read_seq_wf(s, at7, n_uses as nat);
                                    if let Ok((uses, at8)) = ConstantPoolIndex::spec_read_seq(s, at7, n_uses as nat) {
                                        ModuleProvides::lemma_read_wf(s, at8);
                                        if let Ok((provides, at9)) = ModuleProvides::spec_read(s, at8) {
                                        }
                                    }
                                }
                            }
                        }
                    }
                }
            }
        }
    }

    /// Reading back the written body of a `Module` attribute yields the attribute.
    #[verifier::rlimit(100)]
    proof fn lemma_body_module(
        s: Seq<u8>,
        name: ConstantPoolIndex,
        module_name: ConstantPoolIndex,
        flags: ModuleFlags,
        module_version: ConstantPoolIndex,
        module_requires: ModuleRequires,
        exports: ModuleExportsView,
        opens: ModuleOpensView,
        uses: Seq<ConstantPoolIndex>,
        provides: ModuleProvidesView,
    )
        requires
            module_name.wf(),
            flags.wf(),
            module_version.wf(),
            module_requires.wf(),
            exports.wf(),
            opens.wf(),
            uses.len() <= 0xFFFF,
            ConstantPoolIndex::wf_seq(uses),
            provides.wf(),
            s == module_name.spec_write() + flags.spec_write() + module_version.spec_write()
                + module_requires.spec_write() + exports.spec_write() + opens.spec_write()
                + spec_u16_bytes((uses.len() % 0x1_0000) as u16) + ConstantPoolIndex::spec_write_seq(uses)
                + provides.spec_write(),
        ensures
            Self::spec_body_module(s, name) == Ok::<AttributeView, Error>(AttributeView::Module { name, module_name, flags, module_version, module_requires, exports, opens, uses, provides }),
    {
        reveal(Attribute::spec_body_module);
        let w0 = module_name.spec_write();
        let w1 = flags.spec_write();
        let w2 = module_version.spec_write();
        let w3 = module_requires.spec_write();
        let w4 = exports.spec_write();
        let w5 = opens.spec_write();
        let w6 = spec_u16_bytes((uses.len() % 0x1_0000) as u16);
        let w7 = ConstantPoolIndex::spec_write_seq(uses);
        let w8 = provides.spec_write();
        let a1 = w0 + w1;
        assert(a1.len() == w0.len() + w1.len());
        let a2 = a1 + w2;
        assert(a2.len() == a1.len() + w2.len());
        let a3 = a2 + w3;
        assert(a3.len() == a2.len() + w3.len());
        let a4 = a3 + w4;
        assert(a4.len() == a3.len() + w4.len());
        let a5 = a4 + w5;
        assert(a5.len() == a4.len() + w5.len());
        let a6 = a5 + w6;
        assert(a6.len() == a5.len() + w6.len());
        let a7 = a6 + w7;
        assert(a7.len() == a6.len() + w7.len());
        let a8 = a7 + w8;
        assert(a8.len() == a7.len() + w8.len());
        assert(s.subrange(0, s.len() as int) =~= s);
        lemma_occurs_split(s, 0, a7, w8);
        lemma_occurs_split(s, 0, a6, w7);
        lemma_occurs_split(s, 0, a5, w6);
        lemma_occurs_split(s, 0, a4, w5);
        lemma_occurs_split(s, 0, a3, w4);
        lemma_occurs_split(s, 0, a2, w3);
        lemma_occurs_split(s, 0, a1, w2);
        lemma_occurs_split(s, 0, w0, w1);
        ConstantPoolIndex::lemma_round_trip(module_name, s, 0);
        ModuleFlags::lemma_round_trip(flags, s, w0.len() as int);
        ConstantPoolIndex::lemma_round_trip(module_version, s, a1.len() as int);
        ModuleRequires::lemma_round_trip(module_requires, s, a2.len() as int);
        ModuleExports::lemma_round_trip(exports, s, a3.len() as int);
        ModuleOpens::lemma_round_trip(opens, s, a4.len() as int);
        lemma_round_trip_u16((uses.len() % 0x1_0000) as u16, s, a5.len() as int);
        ConstantPoolIndex::lemma_round_trip_seq(uses, s, a6.len() as int);
        ModuleProvides::lemma_round_trip(provides, s, a7.len() as int);
    }

    /// The `ModulePackages` attribute with the given name index whose body is `s`.
    #[verifier::opaque]
    pub open spec fn spec_body_module_packages(
        s: Seq<u8>,
        name: ConstantPoolIndex,
    ) -> Result<AttributeView, Error> {
        match spec_read_u16(s, 0) {
            Err(e) => Err(e),
            Ok((n_packages, at1)) => {
                match ConstantPoolIndex::spec_read_seq(s, at1, n_packages as nat) {
                    Err(e) => Err(e),
                    Ok((packages, at2)) => {
                        Ok(AttributeView::ModulePackages { name, packages })
                    },
                }
            },
        }
    }

    /// Decodes the body of a `ModulePackages` attribute.
    fn body_module_packages(body: &[u8], name: ConstantPoolIndex) -> (r: Result<Attribute, Error>)
        ensures
            body_decoded(r, Self::spec_body_module_packages(body@, name)),
    {
        proof {
            reveal(Attribute::spec_body_module_packages);
        }
        let (n_packages, pos1) = match read_u16(body, 0) {
            Ok(x) => x,
            Err(e) => {
                return Err(e);
            },
        };
        let (packages, _) = match ConstantPoolIndex::read_seq(body, pos1, n_packages as usize) {
            Ok(x) => x,
            Err(e) => {
                return Err(e);
            },
        };
        Ok(Attribute::ModulePackages { name, packages })
    }

    /// Appends the body of a `ModulePackages` attribute.
    fn write_body_module_packages(packages: &Vec<ConstantPoolIndex>, out: &mut Vec<u8>)
        ensures
            final(out)@ == old(out)@
                + (spec_u16_bytes((packages@.len() % 0x1_0000) as u16) + ConstantPoolIndex::spec_write_seq(packages@)),
    {
        write_u16(out, (packages.len() % 0x1_0000) as u16);
        ConstantPoolIndex::write_seq(packages, out);
        proof {
            assert(out@ =~= old(out)@ + (spec_u16_bytes((packages@.len() % 0x1_0000) as u16) + ConstantPoolIndex::spec_write_seq(packages@)));
        }
    }

    /// A `ModulePackages` attribute that was read holds the name index it was read for, its parts
    /// are well formed, and its body has no more bytes than the body it was read from.
    proof fn lemma_body_wf_module_packages(s: Seq<u8>, name: ConstantPoolIndex)
        ensures
            Self::spec_body_module_packages(s, name) matches Ok(a) ==> a matches AttributeView::ModulePackages { name: n, packages }
                && n == name
                && packages.len() <= 0xFFFF
                && ConstantPoolIndex::wf_seq(packages)
                && (spec_u16_bytes((packages.len() % 0x1_0000) as u16) + ConstantPoolIndex::spec_write_seq(packages)).len() <= s.len(),
    {
        reveal(Attribute::spec_body_module_packages);
        if let Ok((n_packages, at1)) = spec_read_u16(s, 0) {
            ConstantPoolIndex::lemma_read_seq_wf(s, at1, n_packages as nat);
            if let Ok((packages, at2)) = ConstantPoolIndex::spec_read_seq(s, at1, n_packages as nat) {
            }
        }
    }

    /// Reading back the written body of a `ModulePackages` attribute yields the attribute.
    proof fn lemma_body_module_packages(s: Seq<u8>, name: ConstantPoolIndex, packages: Seq<ConstantPoolIndex>)
        requires
            packages.len() <= 0xFFFF,
            ConstantPoolIndex::wf_seq(packages),
            s == spec_u16_bytes((packages.len() % 0x1_0000) as u16)
                + ConstantPoolIndex::spec_write_seq(packages),
        ensures
            Self::spec_body_module_packages(s, name) == Ok::<AttributeView, Error>(AttributeView::ModulePackages { name, packages }),
    {
        reveal(Attribute::spec_body_module_packages);
        let w0 = spec_u16_bytes((packages.len() % 0x1_0000) as u16);
        let w1 = ConstantPoolIndex::spec_write_seq(packages);
        let a1 = w0 + w1;
        assert(a1.len() == w0.len() + w1.len());
        assert(s.subrange(0, s.len() as int) =~= s);
        lemma_occurs_split(s, 0, w0, w1);
        lemma_round_trip_u16((packages.len() % 0x1_0000) as u16, s, 0);
        ConstantPoolIndex::lemma_round_trip_seq(packages, s, w0.len() as int);
    }

    /// The `ModuleMainClass` attribute with the given name index whose body is `s`.
    #[verifier::opaque]
    pub open spec fn spec_body_module_main_class(
        s: Seq<u8>,
        name: ConstantPoolIndex,
    ) -> Result<AttributeView, Error> {
        match ConstantPoolIndex::spec_read(s, 0) {
            Err(e) => Err(e),
            Ok((main_class, at1)) => {
                Ok(AttributeView::ModuleMainClass { name, main_class })
            },
        }
    }

    /// Decodes the body of a `ModuleMainClass` attribute.
    fn body_module_main_class(body: &[u8], name: ConstantPoolIndex) -> (r: Result<Attribute, Error>)
        ensures
            body_decoded(r, Self::spec_body_module_main_class(body@, name)),
    {
        proof {
            reveal(Attribute::spec_body_module_main_class);
        }
        let (main_class, _) = match ConstantPoolIndex::read(body, 0) {
            Ok(x) => x,
            Err(e) => {
                return Err(e);
            },
        };
        Ok(Attribute::ModuleMainClass { name, main_class })
    }

    /// Appends the body of a `ModuleMainClass` attribute.
    fn write_body_module_main_class(main_class: &ConstantPoolIndex, out: &mut Vec<u8>)
        ensures
            final(out)@ == old(out)@ + ((*main_class).spec_write()),
    {
        main_class.write(out);
        proof {
            assert(out@ =~= old(out)@ + ((*main_class).spec_write()));
        }
    }

    /// A `ModuleMainClass` attribute that was read holds the name index it was read for, its parts
    /// are well formed, and its body has no more bytes than the body it was read from.
    proof fn lemma_body_wf_module_main_class(s: Seq<u8>, name: ConstantPoolIndex)
        ensures
            Self::spec_body_module_main_class(s, name) matches Ok(a) ==> a matches AttributeView::ModuleMainClass { name: n, main_class }
                && n == name
                && main_class.wf()
                && (main_class.spec_write()).len() <= s.len(),
    {
        reveal(Attribute::spec_body_module_main_class);
        ConstantPoolIndex::lemma_read_wf(s, 0);
        if let Ok((main_class, at1)) = ConstantPoolIndex::spec_read(s, 0) {
        }
    }

    /// Reading back the written body of a `ModuleMainClass` attribute yields the attribute.
    proof fn lemma_body_module_main_class(s: Seq<u8>, name: ConstantPoolIndex, main_class: ConstantPoolIndex)
        requires
            main_class.wf(),
            s == main_class.spec_write(),
        ensures
            Self::spec_body_module_main_class(s, name) == Ok::<AttributeView, Error>(AttributeView::ModuleMainClass { name, main_class }),
    {
        reveal(Attribute::spec_body_module_main_class);
        let w0 = main_class.spec_write();
        assert(s.subrange(0, s.len() as int) =~= s);
        ConstantPoolIndex::lemma_round_trip(main_class, s, 0);
    }

    /// The `NestHost` attribute with the given name index whose body is `s`.
    #[verifier::opaque]
    pub open spec fn spec_body_nest_host(
        s: Seq<u8>,
        name: ConstantPoolIndex,
    ) -> Result<AttributeView, Error> {
        match ConstantPoolIndex::spec_read(s, 0) {
            Err(e) => Err(e),
            Ok((host_class, at1)) => {
                Ok(AttributeView::NestHost { name, host_class })
            },
        }
    }

    /// Decodes the body of a `NestHost` attribute.
    fn body_nest_host(body: &[u8], name: ConstantPoolIndex) -> (r: Result<Attribute, Error>)
        ensures
            body_decoded(r, Self::spec_body_nest_host(body@, name)),
    {
        proof {
            reveal(Attribute::spec_body_nest_host);
        }
        let (host_class, _) = match ConstantPoolIndex::read(body, 0) {
            Ok(x) => x,
            Err(e) => {
                return Err(e);
            },
        };
        Ok(Attribute::NestHost { name, host_class })
    }

    /// Appends the body of a `NestHost` attribute.
    fn write_body_nest_host(host_class: &ConstantPoolIndex, out: &mut Vec<u8>)
        ensures
            final(out)@ == old(out)@ + ((*host_class).spec_write()),
    {
        host_class.write(out);
        proof {
            assert(out@ =~= old(out)@ + ((*host_class).spec_write()));
        }
    }

    /// A `NestHost` attribute that was read holds the name index it was read for, its parts
    /// are well formed, and its body has no more bytes than the body it was read from.
    proof fn lemma_body_wf_nest_host(s: Seq<u8>, name: ConstantPoolIndex)
        ensures
            Self::spec_body_nest_host(s, name) matches Ok(a) ==> a matches AttributeView::NestHost { name: n, host_class }
                && n == name
                && host_class.wf()
                && (host_class.spec_write()).len() <= s.len(),
    {
        reveal(Attribute::spec_body_nest_host);
        ConstantPoolIndex::lemma_read_wf(s, 0);
        if let Ok((host_class, at1)) = ConstantPoolIndex::spec_read(s, 0) {
        }
    }

    /// Reading back the written body of a `NestHost` attribute yields the attribute.
    proof fn lemma_body_nest_host(s: Seq<u8>, name: ConstantPoolIndex, host_class: ConstantPoolIndex)
        requires
            host_class.wf(),
            s == host_class.spec_write(),
        ensures
            Self::spec_body_nest_host(s, name) == Ok::<AttributeView, Error>(AttributeView::NestHost { name, host_class }),
    {
        reveal(Attribute::spec_body_nest_host);
        let w0 = host_class.spec_write();
        assert(s.subrange(0, s.len() as int) =~= s);
        ConstantPoolIndex::lemma_round_trip(host_class, s, 0);
    }

    /// The `NestMembers` attribute with the given name index whose body is `s`.
    #[verifier::opaque]
    pub open spec fn spec_body_nest_members(
        s: Seq<u8>,
        name: ConstantPoolIndex,
    ) -> Result<AttributeView, Error> {
        match spec_read_u16(s, 0) {
            Err(e) => Err(e),
            Ok((n_classes, at1)) => {
                match ConstantPoolIndex::spec_read_seq(s, at1, n_classes as nat) {
                    Err(e) => Err(e),
                    Ok((classes, at2)) => {
                        Ok(AttributeView::NestMembers { name, classes })
                    },
                }
            },
        }
    }

    /// Decodes the body of a `NestMembers` attribute.
    fn body_nest_members(body: &[u8], name: ConstantPoolIndex) -> (r: Result<Attribute, Error>)
        ensures
            body_decoded(r, Self::spec_body_nest_members(body@, name)),
    {
        proof {
            reveal(Attribute::spec_body_nest_members);
        }
        let (n_classes, pos1) = match read_u16(body, 0) {
            Ok(x) => x,
            Err(e) => {
                return Err(e);
            },
        };
        let (classes, _) = match ConstantPoolIndex::read_seq(body, pos1, n_classes as usize) {
            Ok(x) => x,
            Err(e) => {
                return Err(e);
            },
        };
        Ok(Attribute::NestMembers { name, classes })
    }

    /// Appends the body of a `NestMembers` attribute.
    fn write_body_nest_members(classes: &Vec<ConstantPoolIndex>, out: &mut Vec<u8>)
        ensures
            final(out)@ == old(out)@
                + (spec_u16_bytes((classes@.len() % 0x1_0000) as u16) + ConstantPoolIndex::spec_write_seq(classes@)),
    {
        write_u16(out, (classes.len() % 0x1_0000) as u16);
        ConstantPoolIndex::write_seq(classes, out);
        proof {
            assert(out@ =~= old(out)@ + (spec_u16_bytes((classes@.len() % 0x1_0000) as u16) + ConstantPoolIndex::spec_write_seq(classes@)));
        }
    }

    /// A `NestMembers` attribute that was read holds the name index it was read for, its parts
    /// are well formed, and its body has no more bytes than the body it was read from.
    proof fn lemma_body_wf_nest_members(s: Seq<u8>, name: ConstantPoolIndex)
        ensures
            Self::spec_body_nest_members(s, name) matches Ok(a) ==> a matches AttributeView::NestMembers { name: n, classes }
                && n == name
                && classes.len() <= 0xFFFF
                && ConstantPoolIndex::wf_seq(classes)
                && (spec_u16_bytes((classes.len() % 0x1_0000) as u16) + ConstantPoolIndex::spec_write_seq(classes)).len() <= s.len(),
    {
        reveal(Attribute::spec_body_nest_members);
        if let Ok((n_classes, at1)) = spec_read_u16(s, 0) {
            ConstantPoolIndex::lemma_read_seq_wf(s, at1, n_classes as nat);
            if let Ok((classes, at2)) = ConstantPoolIndex::spec_read_seq(s, at1, n_classes as nat) {
            }
        }
    }

    /// Reading back the written body of a `NestMembers` attribute yields the attribute.
    proof fn lemma_body_nest_members(s: Seq<u8>, name: ConstantPoolIndex, classes: Seq<ConstantPoolIndex>)
        requires
            classes.len() <= 0xFFFF,
            ConstantPoolIndex::wf_seq(classes),
            s == spec_u16_bytes((classes.len() % 0x1_0000) as u16)
                + ConstantPoolIndex::spec_write_seq(classes),
        ensures
            Self::spec_body_nest_members(s, name) == Ok::<AttributeView, Error>(AttributeView::NestMembers { name, classes }),
    {
        reveal(Attribute::spec_body_nest_members);
        let w0 = spec_u16_bytes((classes.len() % 0x1_0000) as u16);
        let w1 = ConstantPoolIndex::spec_write_seq(classes);
        let a1 = w0 + w1;
        assert(a1.len() == w0.len() + w1.len());
        assert(s.subrange(0, s.len() as int) =~= s);
        lemma_occurs_split(s, 0, w0, w1);
        lemma_round_trip_u16((classes.len() % 0x1_0000) as u16, s, 0);
        ConstantPoolIndex::lemma_round_trip_seq(classes, s, w0.len() as int);
    }

}

impl Attribute {
    /// The `SourceDebugExtension` attribute whose body is `s`: the body is its payload.
    pub open spec fn spec_body_source_debug_extension(s: Seq<u8>, name: ConstantPoolIndex) -> Result<
        AttributeView,
        Error,
    > {
        Ok(AttributeView::SourceDebugExtension { name, debug_extensions: s })
    }

    /// The first part of the body `s` of a `Code` attribute: the limits, the instructions of
    /// the code array, and the position behind the code array.
    pub open spec fn spec_read_code_head(s: Seq<u8>, version: JavaVersion) -> Result<
        (Compatibility<u8, u16>, Compatibility<u8, u16>, Seq<InstructionView>, int),
        Error,
    > {
        match spec_read_limit(s, 0, version) {
            Err(e) => Err(e),
            Ok((max_stack, at1)) => match spec_read_limit(s, at1, version) {
                Err(e) => Err(e),
                Ok((max_locals, at2)) => match spec_read_code_bytes(s, at2, version) {
                    Err(e) => Err(e),
                    Ok((bytes, at3)) => match spec_read_code(bytes, 0, false) {
                        Err(e) => Err(e),
                        Ok(instructions) => Ok((max_stack, max_locals, instructions, at3)),
                    },
                },
            },
        }
    }

    /// The second part of the body `s` of a `Code` attribute, from `p` on: the exception
    /// table and the attributes of the code.
    pub open spec fn spec_read_code_tail(
        s: Seq<u8>,
        p: int,
        version: JavaVersion,
        pool: Seq<ConstantView>,
    ) -> Result<
        (Seq<ExceptionTable>, Seq<AttributeView>),
        Error,
    >
        decreases s.len(), 2int, 0nat,
    {
        match spec_read_u16(s, p) {
            Err(e) => Err(e),
            Ok((n_exceptions, at1)) => match ExceptionTable::spec_read_seq(s, at1, n_exceptions as nat) {
                Err(e) => Err(e),
                Ok((exception_table, at2)) => match spec_read_u16(s, at2) {
                    Err(e) => Err(e),
                    Ok((n_attributes, at3)) => match Self::spec_read_seq(
                        s,
                        at3,
                        n_attributes as nat,
                        version,
                        pool,
                        AttributeLocation::Code,
                    ) {
                        Err(e) => Err(e),
                        Ok((attributes, _)) => Ok((exception_table, attributes)),
                    },
                },
            },
        }
    }

    /// The `Code` attribute whose body is `s`: the limits, the code array, the exception
    /// table and the attributes of the code.
    pub open spec fn spec_body_code(
        s: Seq<u8>,
        name: ConstantPoolIndex,
        version: JavaVersion,
        pool: Seq<ConstantView>,
    ) -> Result<AttributeView, Error>
        decreases s.len(), 3int, 0nat,
    {
        match Self::spec_read_code_head(s, version) {
            Err(e) => Err(e),
            Ok((max_stack, max_locals, instructions, p)) => match Self::spec_read_code_tail(s, p, version, pool) {
                Err(e) => Err(e),
                Ok((exception_table, attributes)) => Ok(
                    AttributeView::Code {
                        name,
                        max_stack,
                        max_locals,
                        code: spec_framed(instructions, version),
                        exception_table,
                        attributes,
                    },
                ),
            },
        }
    }

    /// The attribute of the given kind and name index whose body is `s`.  Bytes of the body
    /// behind what the kind reads are passed over.
    pub open spec fn spec_read_body(
        kind: AttributeKind,
        s: Seq<u8>,
        name: ConstantPoolIndex,
        version: JavaVersion,
        pool: Seq<ConstantView>,
    ) -> Result<AttributeView, Error>
        decreases s.len(), 4int, 0nat,
    {
        match kind {
            AttributeKind::Code => Self::spec_body_code(s, name, version, pool),
            AttributeKind::SourceDebugExtension => Self::spec_body_source_debug_extension(s, name),
            AttributeKind::ConstantValue => Self::spec_body_constant_value(s, name),
            AttributeKind::StackMapTable => Self::spec_body_stack_map_table(s, name),
            AttributeKind::Exceptions => Self::spec_body_exceptions(s, name),
            AttributeKind::InnerClasses => Self::spec_body_inner_classes(s, name),
            AttributeKind::EnclosingMethod => Self::spec_body_enclosing_method(s, name),
            AttributeKind::Synthetic => Self::spec_body_synthetic(s, name),
            AttributeKind::Signature => Self::spec_body_signature(s, name),
            AttributeKind::SourceFile => Self::spec_body_source_file(s, name),
            AttributeKind::LineNumberTable => Self::spec_body_line_number_table(s, name),
            AttributeKind::LocalVariableTable => Self::spec_body_local_variable_table(s, name),
            AttributeKind::LocalVariableTypeTable => Self::spec_body_local_variable_type_table(s, name),
            AttributeKind::Deprecated => Self::spec_body_deprecated(s, name),
            AttributeKind::RuntimeVisibleAnnotations => Self::spec_body_runtime_visible_annotations(s, name),
            AttributeKind::RuntimeInvisibleAnnotations => Self::spec_body_runtime_invisible_annotations(s, name),
            AttributeKind::RuntimeVisibleParameterAnnotations => Self::spec_body_runtime_visible_parameter_annotations(s, name),
            AttributeKind::RuntimeInvisibleParameterAnnotations => Self::spec_body_runtime_invisible_parameter_annotations(s, name),
            AttributeKind::RuntimeVisibleTypeAnnotations => Self::spec_body_runtime_visible_type_annotations(s, name),
            AttributeKind::RuntimeInvisibleTypeAnnotations => Self::spec_body_runtime_invisible_type_annotations(s, name),
            AttributeKind::AnnotationDefault => Self::spec_body_annotation_default(s, name),
            AttributeKind::BootstrapMethods => Self::spec_body_bootstrap_methods(s, name),
            AttributeKind::MethodParameters => Self::spec_body_method_parameters(s, name),
            AttributeKind::Module => Self::spec_body_module(s, name),
            AttributeKind::ModulePackages => Self::spec_body_module_packages(s, name),
            AttributeKind::ModuleMainClass => Self::spec_body_module_main_class(s, name),
            AttributeKind::NestHost => Self::spec_body_nest_host(s, name),
            AttributeKind::NestMembers => Self::spec_body_nest_members(s, name),
        }
    }

    /// The attribute whose name index stands at `p`, as reading at the given location of a
    /// file of the given version and pool hands it out.
    pub open spec fn spec_read(
        s: Seq<u8>,
        p: int,
        version: JavaVersion,
        pool: Seq<ConstantView>,
        location: AttributeLocation,
    ) -> Result<(AttributeView, int), Error>
        decreases s.len(), 0int, 0nat,
    {
        match RawAttribute::spec_read(s, p) {
            Err(e) => Err(e),
            Ok((raw, q)) => match spec_resolve(pool, raw.name) {
                ResolvedName::Known(kind) if raw.info.len() >= s.len() => Err(Error::UnexpectedEof),
                ResolvedName::InvalidUtf8 => Ok((AttributeView::InvalidUtf8(raw), q)),
                ResolvedName::Illegal => Ok((AttributeView::IllegalNameReference(raw), q)),
                ResolvedName::Unknown => Ok((AttributeView::Unknown(raw), q)),
                ResolvedName::Known(kind) => match Self::spec_read_body(kind, raw.info, raw.name, version, pool) {
                    Err(e) => Err(e),
                    Ok(a) => Ok(
                        (
                            a.degraded(
                                version.spec_supports(kind.spec_min_version().0, kind.spec_min_version().1),
                                kind.spec_allowed_at(location),
                            ),
                            q,
                        ),
                    ),
                },
            },
        }
    }

    fn body_code(body: &[u8], name: ConstantPoolIndex, ctx: &ReadContext) -> (r: Result<Attribute, Error>)
        ensures
            body_decoded(r, Self::spec_body_code(body@, name, ctx.version, ctx.constant_pool@)),
        decreases body@.len(), 3int, 0nat,
    {
        let version = ctx.version;
        let (max_stack, pos1) = match read_limit(body, 0, &version) {
            Ok(x) => x,
            Err(e) => {
                return Err(e);
            },
        };
        let (max_locals, pos2) = match read_limit(body, pos1, &version) {
            Ok(x) => x,
            Err(e) => {
                return Err(e);
            },
        };
        let (start, pos3) = match read_code_bounds(body, pos2, &version) {
            Ok(x) => x,
            Err(e) => {
                return Err(e);
            },
        };
        let inner = ctx.at(AttributeLocation::Code);
        let instructions = match read_code(slice_subrange(body, start, pos3), &inner) {
            Ok(x) => x,
            Err(e) => {
                return Err(e);
            },
        };
        let (n_exceptions, pos4) = match read_u16(body, pos3) {
            Ok(x) => x,
            Err(e) => {
                return Err(e);
            },
        };
        let (exception_table, pos5) = match ExceptionTable::read_seq(body, pos4, n_exceptions as usize) {
            Ok(x) => x,
            Err(e) => {
                return Err(e);
            },
        };
        let (n_attributes, pos6) = match read_u16(body, pos5) {
            Ok(x) => x,
            Err(e) => {
                return Err(e);
            },
        };
        let (attributes, _) = match Self::read_seq(body, pos6, n_attributes as usize, &inner) {
            Ok(x) => x,
            Err(e) => {
                return Err(e);
            },
        };
        let code = Compatibility::from(instructions, ctx);
        let attribute = Attribute::Code { name, max_stack, max_locals, code, exception_table, attributes };
        proof {
            lemma_code_view(attribute);
        }
        Ok(attribute)
    }

    /// Decodes the body of an attribute of the given kind and name index.
    fn read_body(kind: AttributeKind, body: &[u8], name: ConstantPoolIndex, ctx: &ReadContext) -> (r: Result<
        Attribute,
        Error,
    >)
        ensures
            body_decoded(r, Self::spec_read_body(kind, body@, name, ctx.version, ctx.constant_pool@)),
        decreases body@.len(), 4int, 0nat,
    {
        match kind {
            AttributeKind::Code => Self::body_code(body, name, ctx),
            AttributeKind::SourceDebugExtension => Ok(
                Attribute::SourceDebugExtension { name, debug_extensions: slice_to_vec(body) },
            ),
            AttributeKind::ConstantValue => Self::body_constant_value(body, name),
            AttributeKind::StackMapTable => Self::body_stack_map_table(body, name),
            AttributeKind::Exceptions => Self::body_exceptions(body, name),
            AttributeKind::InnerClasses => Self::body_inner_classes(body, name),
            AttributeKind::EnclosingMethod => Self::body_enclosing_method(body, name),
            AttributeKind::Synthetic => Self::body_synthetic(body, name),
            AttributeKind::Signature => Self::body_signature(body, name),
            AttributeKind::SourceFile => Self::body_source_file(body, name),
            AttributeKind::LineNumberTable => Self::body_line_number_table(body, name),
            AttributeKind::LocalVariableTable => Self::body_local_variable_table(body, name),
            AttributeKind::LocalVariableTypeTable => Self::body_local_variable_type_table(body, name),
            AttributeKind::Deprecated => Self::body_deprecated(body, name),
            AttributeKind::RuntimeVisibleAnnotations => Self::body_runtime_visible_annotations(body, name),
            AttributeKind::RuntimeInvisibleAnnotations => Self::body_runtime_invisible_annotations(body, name),
            AttributeKind::RuntimeVisibleParameterAnnotations => Self::body_runtime_visible_parameter_annotations(body, name),
            AttributeKind::RuntimeInvisibleParameterAnnotations => Self::body_runtime_invisible_parameter_annotations(body, name),
            AttributeKind::RuntimeVisibleTypeAnnotations => Self::body_runtime_visible_type_annotations(body, name),
            AttributeKind::RuntimeInvisibleTypeAnnotations => Self::body_runtime_invisible_type_annotations(body, name),
            AttributeKind::AnnotationDefault => Self::body_annotation_default(body, name),
            AttributeKind::BootstrapMethods => Self::body_bootstrap_methods(body, name),
            AttributeKind::MethodParameters => Self::body_method_parameters(body, name),
            AttributeKind::Module => Self::body_module(body, name),
            AttributeKind::ModulePackages => Self::body_module_packages(body, name),
            AttributeKind::ModuleMainClass => Self::body_module_main_class(body, name),
            AttributeKind::NestHost => Self::body_nest_host(body, name),
            AttributeKind::NestMembers => Self::body_nest_members(body, name),
        }
    }

    /// Puts an attribute into the wrapper that its version and location call for.
    fn degrade(attribute: Attribute, supported: bool, allowed: bool) -> (r: Attribute)
        ensures
            r@ == attribute@.degraded(supported, allowed),
    {
        if supported {
            if allowed {
                attribute
            } else {
                Attribute::InvalidLocation(Box::new(attribute))
            }
        } else {
            if allowed {
                Attribute::Unsupported(Box::new(attribute))
            } else {
                Attribute::UnsupportedAndInvalidLocation(Box::new(attribute))
            }
        }
    }

    /// Reads the attribute whose name index stands at `pos`.  The context gives the version,
    /// the constant pool and the location that the attribute is attached to.
    pub fn read(data: &[u8], pos: usize, ctx: &ReadContext) -> (r: Result<(Attribute, usize), Error>)
        ensures
            decoded(r, Self::spec_read(data@, pos as int, ctx.version, ctx.constant_pool@, ctx.location)),
            advanced(r, data@, pos),
        decreases data@.len(), 0int, 0nat,
    {
        let (raw, next) = match RawAttribute::read(data, pos) {
            Ok(x) => x,
            Err(e) => {
                return Err(e);
            },
        };
        proof {
            lemma_raw_within(data@, pos as int);
        }
        match resolve(ctx.constant_pool, raw.name) {
            ResolvedName::InvalidUtf8 => Ok((Attribute::InvalidUtf8(raw), next)),
            ResolvedName::Illegal => Ok((Attribute::IllegalNameReference(raw), next)),
            ResolvedName::Unknown => Ok((Attribute::Unknown(raw), next)),
            ResolvedName::Known(kind) => {
                let inner = ctx.inside(raw.name, (raw.info.len() as u64 % 0x1_0000_0000) as u32);
                let attribute = match Self::read_body(kind, raw.info.as_slice(), raw.name, &inner) {
                    Ok(x) => x,
                    Err(e) => {
                        return Err(e);
                    },
                };
                let min = kind.min_version();
                Ok((Self::degrade(attribute, ctx.version.supports(min.0, min.1), kind.allowed_at(ctx.location)), next))
            },
        }
    }

    /// Appends the body of an attribute of a known kind.
    fn write_body(&self, out: &mut Vec<u8>)
        ensures
            final(out)@ == old(out)@ + self@.spec_write_body(),
        decreases self, 1nat,
    {
        match self {
            Attribute::Code { .. } => self.write_code_body(out),
            _ => self.write_fields(out),
        }
    }

    /// Appends the first part of the body of a `Code` attribute.
    fn write_code_head(&self, out: &mut Vec<u8>)
        requires
            self is Code,
        ensures
            final(out)@ == old(out)@ + self@.spec_write_code_head(),
    {
        if let Attribute::Code { max_stack, max_locals, code, .. } = self {
            write_limit(max_stack, out);
            write_limit(max_locals, out);
            match code {
                Compatibility::PreJava1(instructions) => {
                    let bytes = write_code(instructions);
                    write_u16(out, (bytes.len() % 0x1_0000) as u16);
                    write_bytes(out, bytes.as_slice());
                },
                Compatibility::Current(instructions) => {
                    let bytes = write_code(instructions);
                    write_u32(out, (bytes.len() as u64 % 0x1_0000_0000) as u32);
                    write_bytes(out, bytes.as_slice());
                },
            }
            proof {
                assert(out@ =~= old(out)@ + self@.spec_write_code_head());
            }
        }
    }

    /// Appends the body of a `Code` attribute.
    fn write_code_body(&self, out: &mut Vec<u8>)
        requires
            self is Code,
        ensures
            final(out)@ == old(out)@ + self@.spec_write_body(),
        decreases self, 0nat,
    {
        if let Attribute::Code { exception_table, attributes, .. } = self {
            proof {
                lemma_code_view(*self);
            }
            self.write_code_head(out);
            let ghost mid = out@;
            write_u16(out, (exception_table.len() % 0x1_0000) as u16);
            ExceptionTable::write_seq(exception_table, out);
            write_u16(out, (attributes.len() % 0x1_0000) as u16);
            Self::write_seq(attributes, out);
            proof {
                let tail = spec_u16_bytes((exception_table@.len() % 0x1_0000) as u16)
                    + ExceptionTable::spec_write_seq(
                    exception_table@,
                ) + spec_u16_bytes((attributes@.len() % 0x1_0000) as u16) + Attribute::spec_write_seq(
                    views(attributes@),
                );
                assert(out@ =~= mid + tail);
                assert(out@ =~= old(out)@ + (self@.spec_write_code_head() + tail));
            }
        }
    }

    /// Appends the body of an attribute of a known kind other than `Code`.
    fn write_fields(&self, out: &mut Vec<u8>)
        ensures
            final(out)@ == old(out)@ + self@.spec_write_fields(),
    {
        match self {
            Attribute::SourceDebugExtension { name, debug_extensions } => {
                write_bytes(out, debug_extensions.as_slice());
            },
            Attribute::ConstantValue { name, value } => Self::write_body_constant_value(value, out),
            Attribute::StackMapTable { name, entries } => Self::write_body_stack_map_table(entries, out),
            Attribute::Exceptions { name, exception_index_table } => Self::write_body_exceptions(exception_index_table, out),
            Attribute::InnerClasses { name, classes } => Self::write_body_inner_classes(classes, out),
            Attribute::EnclosingMethod { name, class, method } => Self::write_body_enclosing_method(class, method, out),
            Attribute::Synthetic { name } => Self::write_body_synthetic(out),
            Attribute::Signature { name, signature } => Self::write_body_signature(signature, out),
            Attribute::SourceFile { name, sourcefile } => Self::write_body_source_file(sourcefile, out),
            Attribute::LineNumberTable { name, line_numbers } => Self::write_body_line_number_table(line_numbers, out),
            Attribute::LocalVariableTable { name, local_variables } => Self::write_body_local_variable_table(local_variables, out),
            Attribute::LocalVariableTypeTable { name, local_variable_type_table } => Self::write_body_local_variable_type_table(local_variable_type_table, out),
            Attribute::Deprecated { name } => Self::write_body_deprecated(out),
            Attribute::RuntimeVisibleAnnotations { name, annotations } => Self::write_body_runtime_visible_annotations(annotations, out),
            Attribute::RuntimeInvisibleAnnotations { name, annotations } => Self::write_body_runtime_invisible_annotations(annotations, out),
            Attribute::RuntimeVisibleParameterAnnotations { name, annotations } => Self::write_body_runtime_visible_parameter_annotations(annotations, out),
            Attribute::RuntimeInvisibleParameterAnnotations { name, annotations } => Self::write_body_runtime_invisible_parameter_annotations(annotations, out),
            Attribute::RuntimeVisibleTypeAnnotations { name, annotations } => Self::write_body_runtime_visible_type_annotations(annotations, out),
            Attribute::RuntimeInvisibleTypeAnnotations { name, annotations } => Self::write_body_runtime_invisible_type_annotations(annotations, out),
            Attribute::AnnotationDefault { name, default_value } => Self::write_body_annotation_default(default_value, out),
            Attribute::BootstrapMethods { name, methods } => Self::write_body_bootstrap_methods(methods, out),
            Attribute::MethodParameters { name, parameters } => Self::write_body_method_parameters(parameters, out),
            Attribute::Module { name, module_name, flags, module_version, module_requires, exports, opens, uses, provides } => Self::write_body_module(module_name, flags, module_version, module_requires, exports, opens, uses, provides, out),
            Attribute::ModulePackages { name, packages } => Self::write_body_module_packages(packages, out),
            Attribute::ModuleMainClass { name, main_class } => Self::write_body_module_main_class(main_class, out),
            Attribute::NestHost { name, host_class } => Self::write_body_nest_host(host_class, out),
            Attribute::NestMembers { name, classes } => Self::write_body_nest_members(classes, out),
            _ => {
                proof {
                    assert(out@ =~= old(out)@ + Seq::<u8>::empty());
                }
            },
        }
    }

    /// The name index of an attribute of a known kind.
    fn name_index(&self) -> (r: Option<ConstantPoolIndex>)
        ensures
            match self@.spec_kind() {
                Some(_) => r == Some(self@.spec_name()),
                None => r is None,
            },
    {
        match self {
            Attribute::ConstantValue { name, .. } | Attribute::Code { name, .. } | Attribute::StackMapTable { name, .. } | Attribute::Exceptions { name, .. } | Attribute::InnerClasses { name, .. } | Attribute::EnclosingMethod { name, .. } | Attribute::Synthetic { name, .. } | Attribute::Signature { name, .. } | Attribute::SourceFile { name, .. } | Attribute::SourceDebugExtension { name, .. } | Attribute::LineNumberTable { name, .. } | Attribute::LocalVariableTable { name, .. } | Attribute::LocalVariableTypeTable { name, .. } | Attribute::Deprecated { name, .. } | Attribute::RuntimeVisibleAnnotations { name, .. } | Attribute::RuntimeInvisibleAnnotations { name, .. } | Attribute::RuntimeVisibleParameterAnnotations { name, .. } | Attribute::RuntimeInvisibleParameterAnnotations { name, .. } | Attribute::RuntimeVisibleTypeAnnotations { name, .. } | Attribute::RuntimeInvisibleTypeAnnotations { name, .. } | Attribute::AnnotationDefault { name, .. } | Attribute::BootstrapMethods { name, .. } | Attribute::MethodParameters { name, .. } | Attribute::Module { name, .. } | Attribute::ModulePackages { name, .. } | Attribute::ModuleMainClass { name, .. } | Attribute::NestHost { name, .. } | Attribute::NestMembers { name, .. } => Some(*name),
            _ => None,
        }
    }

    /// Appends the bytes of the attribute.
    pub fn write(&self, out: &mut Vec<u8>)
        ensures
            final(out)@ == old(out)@ + self@.spec_write(),
        decreases self, 2nat,
    {
        match self {
            Attribute::InvalidUtf8(raw) | Attribute::IllegalNameReference(raw) | Attribute::Unknown(raw) | Attribute::Raw(
                raw,
            ) => raw.write(out),
            Attribute::UnsupportedAndInvalidLocation(inner) | Attribute::InvalidLocation(inner) | Attribute::Unsupported(
                inner,
            ) => inner.write(out),
            Attribute::Custom(custom) => custom.write(out),
            _ => {
                let name = match self.name_index() {
                    Some(name) => name,
                    None => ConstantPoolIndex(0),
                };
                let mut body: Vec<u8> = Vec::new();
                self.write_body(&mut body);
                write_u16(out, name.0);
                write_u32(out, (body.len() as u64 % 0x1_0000_0000) as u32);
                write_bytes(out, body.as_slice());
                proof {
                    assert(body@ =~= self@.spec_write_body());
                    assert(out@ =~= old(out)@ + self@.spec_write());
                }
            },
        }
    }
}

impl Attribute {
    /// Reading back the written body of a bare attribute that reading can produce yields the
    /// attribute.
    pub proof fn lemma_round_trip_body(a: AttributeView, version: JavaVersion, pool: Seq<ConstantView>)
        requires
            a.spec_kind() is Some,
            a.wf_body(version, pool),
        ensures
            Self::spec_read_body(a.spec_kind()->Some_0, a.spec_write_body(), a.spec_name(), version, pool) == Ok::<
                AttributeView,
                Error,
            >(a),
        decreases a, 2nat,
    {
        match a {
            AttributeView::Code { .. } => {
                Self::lemma_round_trip_code_body(a, version, pool);
            },
            _ => {
                Self::lemma_round_trip_fields(a, version, pool);
            },
        }
    }

    /// Reading back the written fields of a bare attribute other than `Code` yields it.
    proof fn lemma_round_trip_fields(a: AttributeView, version: JavaVersion, pool: Seq<ConstantView>)
        requires
            a.spec_kind() is Some,
            !(a is Code),
            a.wf_fields(),
        ensures
            Self::spec_read_body(a.spec_kind()->Some_0, a.spec_write_fields(), a.spec_name(), version, pool) == Ok::<
                AttributeView,
                Error,
            >(a),
    {
        match a {
            AttributeView::ConstantValue { name, value } => Self::lemma_body_constant_value(a.spec_write_fields(), name, value),
            AttributeView::StackMapTable { name, entries } => Self::lemma_body_stack_map_table(a.spec_write_fields(), name, entries),
            AttributeView::Exceptions { name, exception_index_table } => Self::lemma_body_exceptions(a.spec_write_fields(), name, exception_index_table),
            AttributeView::InnerClasses { name, classes } => Self::lemma_body_inner_classes(a.spec_write_fields(), name, classes),
            AttributeView::EnclosingMethod { name, class, method } => Self::lemma_body_enclosing_method(a.spec_write_fields(), name, class, method),
            AttributeView::Synthetic { name } => Self::lemma_body_synthetic(a.spec_write_fields(), name),
            AttributeView::Signature { name, signature } => Self::lemma_body_signature(a.spec_write_fields(), name, signature),
            AttributeView::SourceFile { name, sourcefile } => Self::lemma_body_source_file(a.spec_write_fields(), name, sourcefile),
            AttributeView::LineNumberTable { name, line_numbers } => Self::lemma_body_line_number_table(a.spec_write_fields(), name, line_numbers),
            AttributeView::LocalVariableTable { name, local_variables } => Self::lemma_body_local_variable_table(a.spec_write_fields(), name, local_variables),
            AttributeView::LocalVariableTypeTable { name, local_variable_type_table } => Self::lemma_body_local_variable_type_table(a.spec_write_fields(), name, local_variable_type_table),
            AttributeView::Deprecated { name } => Self::lemma_body_deprecated(a.spec_write_fields(), name),
            AttributeView::RuntimeVisibleAnnotations { name, annotations } => Self::lemma_body_runtime_visible_annotations(a.spec_write_fields(), name, annotations),
            AttributeView::RuntimeInvisibleAnnotations { name, annotations } => Self::lemma_body_runtime_invisible_annotations(a.spec_write_fields(), name, annotations),
            AttributeView::RuntimeVisibleParameterAnnotations { name, annotations } => Self::lemma_body_runtime_visible_parameter_annotations(a.spec_write_fields(), name, annotations),
            AttributeView::RuntimeInvisibleParameterAnnotations { name, annotations } => Self::lemma_body_runtime_invisible_parameter_annotations(a.spec_write_fields(), name, annotations),
            AttributeView::RuntimeVisibleTypeAnnotations { name, annotations } => Self::lemma_body_runtime_visible_type_annotations(a.spec_write_fields(), name, annotations),
            AttributeView::RuntimeInvisibleTypeAnnotations { name, annotations } => Self::lemma_body_runtime_invisible_type_annotations(a.spec_write_fields(), name, annotations),
            AttributeView::AnnotationDefault { name, default_value } => Self::lemma_body_annotation_default(a.spec_write_fields(), name, default_value),
            AttributeView::BootstrapMethods { name, methods } => Self::lemma_body_bootstrap_methods(a.spec_write_fields(), name, methods),
            AttributeView::MethodParameters { name, parameters } => Self::lemma_body_method_parameters(a.spec_write_fields(), name, parameters),
            AttributeView::Module { name, module_name, flags, module_version, module_requires, exports, opens, uses, provides } => Self::lemma_body_module(a.spec_write_fields(), name, module_name, flags, module_version, module_requires, exports, opens, uses, provides),
            AttributeView::ModulePackages { name, packages } => Self::lemma_body_module_packages(a.spec_write_fields(), name, packages),
            AttributeView::ModuleMainClass { name, main_class } => Self::lemma_body_module_main_class(a.spec_write_fields(), name, main_class),
            AttributeView::NestHost { name, host_class } => Self::lemma_body_nest_host(a.spec_write_fields(), name, host_class),
            AttributeView::NestMembers { name, classes } => Self::lemma_body_nest_members(a.spec_write_fields(), name, classes),
            _ => {},
        }
    }

    /// Reading back the written limits and code array of a `Code` attribute yields them.
    proof fn lemma_round_trip_code_head(a: AttributeView, s: Seq<u8>, version: JavaVersion)
        requires
            a is Code,
            a.wf_code_head(version),
            occurs_at(s, 0, a.spec_write_code_head()),
        ensures
            Self::spec_read_code_head(s, version) == Ok::<
                (Compatibility<u8, u16>, Compatibility<u8, u16>, Seq<InstructionView>, int),
                Error,
            >(
                (
                    a->Code_max_stack,
                    a->Code_max_locals,
                    spec_instructions(a->Code_code),
                    a.spec_write_code_head().len() as int,
                ),
            ),
    {
        if let AttributeView::Code { max_stack, max_locals, code, .. } = a {
            let w0 = spec_write_limit(max_stack);
            let w1 = spec_write_limit(max_locals);
            let w2 = spec_write_code_bytes(code);
            lemma_occurs_split(s, 0, w0 + w1, w2);
            lemma_occurs_split(s, 0, w0, w1);
            lemma_round_trip_limit(max_stack, s, 0, version);
            lemma_round_trip_limit(max_locals, s, w0.len() as int, version);
            let instructions = spec_instructions(code);
            let bytes = spec_write_code(instructions, 0);
            lemma_round_trip_code_bytes(code, s, (w0 + w1).len() as int, version);
            assert(bytes.subrange(0, bytes.len() as int) =~= bytes);
            lemma_round_trip_code(instructions, bytes, 0, false);
        }
    }

    /// Reading back the written exception table and attributes of a `Code` attribute yields
    /// them.
    #[verifier::rlimit(50)]
    proof fn lemma_round_trip_code_tail(
        a: AttributeView,
        s: Seq<u8>,
        p: int,
        version: JavaVersion,
        pool: Seq<ConstantView>,
    )
        requires
            a is Code,
            a.wf_body(version, pool),
            occurs_at(
                s,
                p,
                spec_u16_bytes((a->Code_exception_table.len() % 0x1_0000) as u16)
                    + ExceptionTable::spec_write_seq(
                    a->Code_exception_table,
                ) + spec_u16_bytes((a->Code_attributes.len() % 0x1_0000) as u16) + Attribute::spec_write_seq(
                    a->Code_attributes,
                ),
            ),
        ensures
            Self::spec_read_code_tail(s, p, version, pool) == Ok::<(Seq<ExceptionTable>, Seq<AttributeView>), Error>(
                (a->Code_exception_table, a->Code_attributes),
            ),
        decreases a, 0nat,
    {
        if let AttributeView::Code { exception_table, attributes, .. } = a {
            let w3 = spec_u16_bytes((exception_table.len() % 0x1_0000) as u16);
            let w4 = ExceptionTable::spec_write_seq(exception_table);
            let w5 = spec_u16_bytes((attributes.len() % 0x1_0000) as u16);
            let w6 = Attribute::spec_write_seq(attributes);
            lemma_occurs_split(s, p, w3 + w4 + w5, w6);
            lemma_occurs_split(s, p, w3 + w4, w5);
            lemma_occurs_split(s, p, w3, w4);
            lemma_round_trip_u16((exception_table.len() % 0x1_0000) as u16, s, p);
            reveal(ExceptionTable::wf_seq);
            ExceptionTable::lemma_round_trip_seq(exception_table, s, p + 2);
            lemma_round_trip_u16((attributes.len() % 0x1_0000) as u16, s, p + 2 + w4.len());
            Self::lemma_round_trip_seq(attributes, s, p + 4 + w4.len(), version, pool, AttributeLocation::Code);
        }
    }

    /// Reading back the written body of a `Code` attribute that reading can produce yields it.
    proof fn lemma_round_trip_code_body(a: AttributeView, version: JavaVersion, pool: Seq<ConstantView>)
        requires
            a is Code,
            a.wf_body(version, pool),
        ensures
            Self::spec_body_code(a.spec_write_body(), a.spec_name(), version, pool) == Ok::<AttributeView, Error>(a),
        decreases a, 1nat,
    {
        let s = a.spec_write_body();
        let head = a.spec_write_code_head();
        let tail = spec_u16_bytes((a->Code_exception_table.len() % 0x1_0000) as u16)
            + ExceptionTable::spec_write_seq(
            a->Code_exception_table,
        ) + spec_u16_bytes((a->Code_attributes.len() % 0x1_0000) as u16) + Attribute::spec_write_seq(
            a->Code_attributes,
        );
        assert(s == head + tail);
        assert(s.subrange(0, s.len() as int) =~= s);
        lemma_occurs_split(s, 0, head, tail);
        Self::lemma_round_trip_code_head(a, s, version);
        Self::lemma_round_trip_code_tail(a, s, head.len() as int, version, pool);
    }

    /// Reading back a written bare attribute that reading can produce yields the attribute
    /// in the wrapper that the version and the location call for: bare where both admit its
    /// kind, `Unsupported` where only the version does not, `InvalidLocation` where only
    /// the location does not, and `UnsupportedAndInvalidLocation` where neither does.
    pub proof fn lemma_round_trip_degraded(
        a: AttributeView,
        s: Seq<u8>,
        p: int,
        version: JavaVersion,
        pool: Seq<ConstantView>,
        location: AttributeLocation,
    )
        requires
            a.wf_bare(version, pool),
            occurs_at(s, p, a.spec_write()),
        ensures
            Self::spec_read(s, p, version, pool, location) == Ok::<(AttributeView, int), Error>(
                (a.degraded(a.supported(version), a.allowed(location)), p + a.spec_write().len()),
            ),
        decreases a, 3nat,
    {
        let raw = RawAttributeView { name: a.spec_name(), info: a.spec_write_body() };
        reveal(RawAttributeView::spec_write);
        assert(a.spec_write() == raw.spec_write());
        lemma_raw_within(s, p);
        RawAttribute::lemma_round_trip(raw, s, p);
        Self::lemma_round_trip_body(a, version, pool);
    }

    /// Reading back a written attribute that reading at this location can produce yields it.
    pub proof fn lemma_round_trip(
        a: AttributeView,
        s: Seq<u8>,
        p: int,
        version: JavaVersion,
        pool: Seq<ConstantView>,
        location: AttributeLocation,
    )
        requires
            a.wf(version, pool, location),
            occurs_at(s, p, a.spec_write()),
        ensures
            Self::spec_read(s, p, version, pool, location) == Ok::<(AttributeView, int), Error>(
                (a, p + a.spec_write().len()),
            ),
        decreases a, 4nat,
    {
        match a {
            AttributeView::InvalidUtf8(raw) | AttributeView::IllegalNameReference(raw) | AttributeView::Unknown(raw) => {
                RawAttribute::lemma_round_trip(raw, s, p);
            },
            AttributeView::UnsupportedAndInvalidLocation(inner) | AttributeView::InvalidLocation(inner)
            | AttributeView::Unsupported(inner) => {
                Self::lemma_round_trip_degraded(*inner, s, p, version, pool, location);
            },
            AttributeView::Raw(_) | AttributeView::Custom(_) => {},
            _ => {
                Self::lemma_round_trip_degraded(a, s, p, version, pool, location);
            },
        }
    }
}

/// Reading back a written limit in the form of the version yields it.
proof fn lemma_round_trip_limit(limit: Compatibility<u8, u16>, s: Seq<u8>, p: int, version: JavaVersion)
    requires
        limit is Current == version.spec_supports(45, 3),
        occurs_at(s, p, spec_write_limit(limit)),
    ensures
        spec_read_limit(s, p, version) == Ok::<(Compatibility<u8, u16>, int), Error>(
            (limit, p + spec_write_limit(limit).len()),
        ),
{
    match limit {
        Compatibility::PreJava1(v) => lemma_round_trip_u8(v, s, p),
        Compatibility::Current(v) => lemma_round_trip_u16(v, s, p),
    }
}

/// Reading back a written code array in the frame of the version yields its bytes.
proof fn lemma_round_trip_code_bytes(
    code: Compatibility<Seq<InstructionView>, Seq<InstructionView>>,
    s: Seq<u8>,
    p: int,
    version: JavaVersion,
)
    requires
        code is Current == version.spec_supports(45, 3),
        spec_write_code(spec_instructions(code), 0).len() <= if version.spec_supports(45, 3) {
            0xFFFF_FFFFint
        } else {
            0xFFFFint
        },
        occurs_at(s, p, spec_write_code_bytes(code)),
    ensures
        spec_read_code_bytes(s, p, version) == Ok::<(Seq<u8>, int), Error>(
            (spec_write_code(spec_instructions(code), 0), p + spec_write_code_bytes(code).len()),
        ),
{
    let bytes = spec_write_code(spec_instructions(code), 0);
    match code {
        Compatibility::PreJava1(v) => {
            let n = (bytes.len() % 0x1_0000) as u16;
            lemma_occurs_split(s, p, spec_u16_bytes(n), bytes);
            lemma_round_trip_u16(n, s, p);
        },
        Compatibility::Current(v) => {
            let n = (bytes.len() % 0x1_0000_0000) as u32;
            lemma_occurs_split(s, p, spec_u32_bytes(n), bytes);
            lemma_round_trip_u32(n, s, p);
        },
    }
}

impl Attribute {
    /// An attribute of a kind other than `Code` that was read is of that kind and holds the
    /// name index it was read for; its fields are well formed, and written they are no
    /// longer than the body they were read from.
    proof fn lemma_read_fields_wf(
        kind: AttributeKind,
        s: Seq<u8>,
        name: ConstantPoolIndex,
        version: JavaVersion,
        pool: Seq<ConstantView>,
    )
        requires
            kind != AttributeKind::Code,
        ensures
            Self::spec_read_body(kind, s, name, version, pool) matches Ok(a) ==> a.spec_kind() == Some(kind)
                && a.spec_name() == name && a.wf_fields() && a.spec_write_fields().len() <= s.len(),
    {
        match kind {
            AttributeKind::Code => {},
            AttributeKind::SourceDebugExtension => {},
            AttributeKind::ConstantValue => Self::lemma_body_wf_constant_value(s, name),
            AttributeKind::StackMapTable => Self::lemma_body_wf_stack_map_table(s, name),
            AttributeKind::Exceptions => Self::lemma_body_wf_exceptions(s, name),
            AttributeKind::InnerClasses => Self::lemma_body_wf_inner_classes(s, name),
            AttributeKind::EnclosingMethod => Self::lemma_body_wf_enclosing_method(s, name),
            AttributeKind::Synthetic => Self::lemma_body_wf_synthetic(s, name),
            AttributeKind::Signature => Self::lemma_body_wf_signature(s, name),
            AttributeKind::SourceFile => Self::lemma_body_wf_source_file(s, name),
            AttributeKind::LineNumberTable => Self::lemma_body_wf_line_number_table(s, name),
            AttributeKind::LocalVariableTable => Self::lemma_body_wf_local_variable_table(s, name),
            AttributeKind::LocalVariableTypeTable => Self::lemma_body_wf_local_variable_type_table(s, name),
            AttributeKind::Deprecated => Self::lemma_body_wf_deprecated(s, name),
            AttributeKind::RuntimeVisibleAnnotations => Self::lemma_body_wf_runtime_visible_annotations(s, name),
            AttributeKind::RuntimeInvisibleAnnotations => Self::lemma_body_wf_runtime_invisible_annotations(s, name),
            AttributeKind::RuntimeVisibleParameterAnnotations => Self::lemma_body_wf_runtime_visible_parameter_annotations(s, name),
            AttributeKind::RuntimeInvisibleParameterAnnotations => Self::lemma_body_wf_runtime_invisible_parameter_annotations(s, name),
            AttributeKind::RuntimeVisibleTypeAnnotations => Self::lemma_body_wf_runtime_visible_type_annotations(s, name),
            AttributeKind::RuntimeInvisibleTypeAnnotations => Self::lemma_body_wf_runtime_invisible_type_annotations(s, name),
            AttributeKind::AnnotationDefault => Self::lemma_body_wf_annotation_default(s, name),
            AttributeKind::BootstrapMethods => Self::lemma_body_wf_bootstrap_methods(s, name),
            AttributeKind::MethodParameters => Self::lemma_body_wf_method_parameters(s, name),
            AttributeKind::Module => Self::lemma_body_wf_module(s, name),
            AttributeKind::ModulePackages => Self::lemma_body_wf_module_packages(s, name),
            AttributeKind::ModuleMainClass => Self::lemma_body_wf_module_main_class(s, name),
            AttributeKind::NestHost => Self::lemma_body_wf_nest_host(s, name),
            AttributeKind::NestMembers => Self::lemma_body_wf_nest_members(s, name),
        }
    }

    /// The limits and the code array that were read are in the form of the version; the
    /// instructions are such as reading can produce, and written they are what was taken.
    proof fn lemma_read_code_head_wf(s: Seq<u8>, version: JavaVersion)
        ensures
            Self::spec_read_code_head(s, version) matches Ok((max_stack, max_locals, instructions, p)) ==> {
                &&& max_stack is Current == version.spec_supports(45, 3)
                &&& max_locals is Current == version.spec_supports(45, 3)
                &&& spec_wf_code(instructions, false)
                &&& spec_write_code(instructions, 0).len() <= if version.spec_supports(45, 3) {
                    0xFFFF_FFFFint
                } else {
                    0xFFFFint
                }
                &&& p == (spec_write_limit(max_stack) + spec_write_limit(max_locals) + spec_write_code_bytes(
                    spec_framed(instructions, version),
                )).len()
                &&& 0 <= p <= s.len()
            },
    {
        if let Ok((max_stack, at1)) = spec_read_limit(s, 0, version) {
            if let Ok((max_locals, at2)) = spec_read_limit(s, at1, version) {
                if let Ok((bytes, at3)) = spec_read_code_bytes(s, at2, version) {
                    lemma_read_code_wf(bytes, 0, false);
                }
            }
        }
    }

    /// The exception table and the attributes of a code body that were read are such as
    /// reading can produce, and written they are no longer than what was taken.
    #[verifier::rlimit(50)]
    proof fn lemma_read_code_tail_wf(s: Seq<u8>, p: int, version: JavaVersion, pool: Seq<ConstantView>)
        requires
            0 <= p <= s.len(),
        ensures
            Self::spec_read_code_tail(s, p, version, pool) matches Ok((exception_table, attributes)) ==> {
                &&& exception_table.len() <= 0xFFFF
                &&& attributes.len() <= 0xFFFF
                &&& Self::wf_seq(attributes, version, pool, AttributeLocation::Code)
                &&& p
                    + (spec_u16_bytes((exception_table.len() % 0x1_0000) as u16) + ExceptionTable::spec_write_seq(
                    exception_table,
                ) + spec_u16_bytes((attributes.len() % 0x1_0000) as u16) + Self::spec_write_seq(attributes)).len()
                    <= s.len()
            },
        decreases s.len(), 2int, 0nat,
    {
        if let Ok((n_exceptions, at1)) = spec_read_u16(s, p) {
            ExceptionTable::lemma_read_seq_wf(s, at1, n_exceptions as nat);
            if let Ok((exception_table, at2)) = ExceptionTable::spec_read_seq(s, at1, n_exceptions as nat) {
                if let Ok((n_attributes, at3)) = spec_read_u16(s, at2) {
                    Self::lemma_read_seq_wf(s, at3, n_attributes as nat, version, pool, AttributeLocation::Code);
                }
            }
        }
    }

    /// A `Code` attribute that was read holds the name index it was read for and is such as
    /// reading can produce; written, its body is no longer than the body it was read from.
    proof fn lemma_read_code_body_wf(
        s: Seq<u8>,
        name: ConstantPoolIndex,
        version: JavaVersion,
        pool: Seq<ConstantView>,
    )
        ensures
            Self::spec_body_code(s, name, version, pool) matches Ok(a) ==> a is Code && a.spec_name() == name
                && a.wf_body(version, pool) && a.spec_write_body().len() <= s.len(),
        decreases s.len(), 3int, 0nat,
    {
        Self::lemma_read_code_head_wf(s, version);
        if let Ok((max_stack, max_locals, instructions, p)) = Self::spec_read_code_head(s, version) {
            Self::lemma_read_code_tail_wf(s, p, version, pool);
        }
    }

    /// An attribute that was read from a body is of the kind and holds the name index it
    /// was read for, and is such as reading can produce; written, its body is no longer than
    /// the body it was read from.
    pub proof fn lemma_read_body_wf(
        kind: AttributeKind,
        s: Seq<u8>,
        name: ConstantPoolIndex,
        version: JavaVersion,
        pool: Seq<ConstantView>,
    )
        ensures
            Self::spec_read_body(kind, s, name, version, pool) matches Ok(a) ==> a.spec_kind() == Some(kind)
                && a.spec_name() == name && a.wf_body(version, pool) && a.spec_write_body().len() <= s.len(),
        decreases s.len(), 4int, 0nat,
    {
        if kind == AttributeKind::Code {
            Self::lemma_read_code_body_wf(s, name, version, pool);
        } else {
            Self::lemma_read_fields_wf(kind, s, name, version, pool);
        }
    }

    /// An attribute that was read is such as reading at its location can produce: written
    /// and read again it is the same; and written it is no longer than what was taken.
    pub proof fn lemma_read_wf(
        s: Seq<u8>,
        p: int,
        version: JavaVersion,
        pool: Seq<ConstantView>,
        location: AttributeLocation,
    )
        ensures
            Self::spec_read(s, p, version, pool, location) matches Ok((a, q)) ==> a.wf(version, pool, location)
                && q
                >= p + a.spec_write().len() && q <= s.len(),
        decreases s.len(), 0int, 0nat,
    {
        RawAttribute::lemma_read_wf(s, p);
        lemma_raw_within(s, p);
        reveal(RawAttributeView::spec_write);
        reveal_with_fuel(AttributeView::spec_write, 2);
        if let Ok((raw, q)) = RawAttribute::spec_read(s, p) {
            if let ResolvedName::Known(kind) = spec_resolve(pool, raw.name) {
                if raw.info.len() < s.len() {
                    Self::lemma_read_body_wf(kind, raw.info, raw.name, version, pool);
                }
            }
        }
    }
}

/// The reader and writer of the body of a `Code` attribute.
pub struct CodeIO;

impl CodeIO {
    /// Decodes the body of the `Code` attribute that the context names.
    pub fn read(body: &[u8], ctx: &ReadContext) -> (r: Result<Attribute, Error>)
        requires
            ctx.name is Some,
        ensures
            body_decoded(r, Attribute::spec_body_code(body@, ctx.name->Some_0, ctx.version, ctx.constant_pool@)),
    {
        match ctx.name {
            Some(name) => Attribute::body_code(body, name, ctx),
            None => Err(Error::UnexpectedEof),
        }
    }

    /// Appends the body of a `Code` attribute.
    pub fn write(attribute: &Attribute, out: &mut Vec<u8>)
        requires
            attribute is Code,
        ensures
            final(out)@ == old(out)@ + attribute@.spec_write_body(),
    {
        attribute.write_code_body(out);
    }
}

impl Attribute {
    /// Whether each element is well formed.
    pub open spec fn wf_seq(
        xs: Seq<AttributeView>,
        version: JavaVersion,
        pool: Seq<ConstantView>,
        location: AttributeLocation,
    ) -> bool
        decreases xs,
    {
        forall|i: int| 0 <= i < xs.len() ==> (#[trigger] xs[i]).wf(version, pool, location)
    }

    /// The elements one after the other, without a count.
    pub open spec fn spec_write_seq(xs: Seq<AttributeView>) -> Seq<u8>
        decreases xs,
    {
        if xs.len() == 0 {
            Seq::empty()
        } else {
            Self::spec_write_seq(xs.drop_last()) + xs.last().spec_write()
        }
    }

    /// The `n` elements that start at `p`, read one after the other.
    pub open spec fn spec_read_seq(
        s: Seq<u8>,
        p: int,
        n: nat,
        version: JavaVersion,
        pool: Seq<ConstantView>,
        location: AttributeLocation,
    ) -> Result<(Seq<AttributeView>, int), Error>
        decreases s.len(), 1int, n,
    {
        if n == 0 {
            Ok((Seq::empty(), p))
        } else {
            match Self::spec_read_seq(s, p, (n - 1) as nat, version, pool, location) {
                Err(e) => Err(e),
                Ok((xs, q)) => match Self::spec_read(s, q, version, pool, location) {
                    Err(e) => Err(e),
                    Ok((x, q2)) => Ok((xs.push(x), q2)),
                },
            }
        }
    }

    /// Once a prefix fails to read, every longer sequence fails the same way.
    pub proof fn lemma_read_seq_err(
        s: Seq<u8>,
        p: int,
        k: nat,
        n: nat,
        version: JavaVersion,
        pool: Seq<ConstantView>,
        location: AttributeLocation,
    )
        requires
            k <= n,
            Self::spec_read_seq(s, p, k, version, pool, location) is Err,
        ensures
            Self::spec_read_seq(s, p, n, version, pool, location) == Self::spec_read_seq(s, p, k, version, pool, location),
        decreases n,
    {
        if k < n {
            Self::lemma_read_seq_err(s, p, k, (n - 1) as nat, version, pool, location);
        }
    }

    /// Reads `n` elements one after the other, the first of them at `pos`.
    pub fn read_seq(
        data: &[u8],
        pos: usize,
        n: usize,
        ctx: &ReadContext,
    ) -> (r: Result<(Vec<Attribute>, usize), Error>)
        ensures
            match Self::spec_read_seq(data@, pos as int, n as nat, ctx.version, ctx.constant_pool@, ctx.location) {
                Ok((v, p)) => r matches Ok((rv, rp)) && views(rv@) == v && rp as int == p,
                Err(e) => r == Err::<(Vec<Attribute>, usize), Error>(e),
            },
            advanced(r, data@, pos),
        decreases data@.len(), 1int, n as nat,
    {
        let mut out: Vec<Attribute> = Vec::new();
        let mut cur = pos;
        let mut i: usize = 0;
        assert(views(out@) =~= Seq::<AttributeView>::empty());
        while i < n
            invariant
                i <= n,
                pos <= data@.len() ==> pos <= cur <= data@.len(),
                Self::spec_read_seq(data@, pos as int, i as nat, ctx.version, ctx.constant_pool@, ctx.location) == Ok::<(Seq<AttributeView>, int), Error>((views(out@), cur as int)),
            decreases n - i,
        {
            match Self::read(data, cur, ctx) {
                Err(e) => {
                    proof {
                        Self::lemma_read_seq_err(data@, pos as int, (i + 1) as nat, n as nat, ctx.version, ctx.constant_pool@, ctx.location);
                    }
                    return Err(e);
                },
                Ok((x, next)) => {
                    proof {
                        assert(views(out@.push(x)) =~= views(out@).push(x@));
                    }
                    out.push(x);
                    cur = next;
                },
            }
            i += 1;
        }
        Ok((out, cur))
    }

    /// Appends the bytes of the elements, one after the other.
    pub fn write_seq(xs: &Vec<Attribute>, out: &mut Vec<u8>)
        ensures
            final(out)@ == old(out)@ + Self::spec_write_seq(views(xs@)),
        decreases xs,
    {
        let mut i: usize = 0;
        while i < xs.len()
            invariant
                i <= xs.len(),
                out@ == old(out)@ + Self::spec_write_seq(views(xs@).take(i as int)),
            decreases xs.len() - i,
        {
            proof {
                let t = views(xs@).take(i + 1);
                assert(t.drop_last() =~= views(xs@).take(i as int));
            }
            xs[i].write(out);
            proof {
                assert(out@ =~= old(out)@ + Self::spec_write_seq(views(xs@).take(i + 1)));
            }
            i += 1;
        }
        proof {
            assert(views(xs@).take(xs.len() as int) =~= views(xs@));
        }
    }

    /// Reading back the elements that `spec_write_seq` wrote yields them all.
    pub proof fn lemma_round_trip_seq(
        xs: Seq<AttributeView>,
        s: Seq<u8>,
        p: int,
        version: JavaVersion,
        pool: Seq<ConstantView>,
        location: AttributeLocation,
    )
        requires
            Self::wf_seq(xs, version, pool, location),
            occurs_at(s, p, Self::spec_write_seq(xs)),
        ensures
            Self::spec_read_seq(s, p, xs.len(), version, pool, location) == Ok::<(Seq<AttributeView>, int), Error>(
                (xs, p + Self::spec_write_seq(xs).len()),
            ),
        decreases xs,
    {
        if xs.len() > 0 {
            let front = xs.drop_last();
            let w = Self::spec_write_seq(front);
            assert forall|i: int| 0 <= i < front.len() implies (#[trigger] front[i]).wf(version, pool, location) by {
                assert(front[i] == xs[i]);
            }
            assert(xs.last() == xs[xs.len() - 1]);
            lemma_occurs_split(s, p, w, xs.last().spec_write());
            Self::lemma_round_trip_seq(front, s, p, version, pool, location);
            Self::lemma_round_trip(xs.last(), s, p + w.len(), version, pool, location);
            assert(front.push(xs.last()) =~= xs);
        } else {
            assert(xs =~= Seq::<AttributeView>::empty());
        }
    }

    /// Elements that were read are as many as were asked for and well formed, and have
    /// no more bytes than were taken.
    pub proof fn lemma_read_seq_wf(
        s: Seq<u8>,
        p: int,
        n: nat,
        version: JavaVersion,
        pool: Seq<ConstantView>,
        location: AttributeLocation,
    )
        ensures
            Self::spec_read_seq(s, p, n, version, pool, location) matches Ok((xs, q)) ==> xs.len() == n
                && Self::wf_seq(xs, version, pool, location)
                && q >= p + Self::spec_write_seq(xs).len() && (p <= s.len() ==> q <= s.len()),
        decreases s.len(), 1int, n,
    {
        if n > 0 {
            Self::lemma_read_seq_wf(s, p, (n - 1) as nat, version, pool, location);
            if let Ok((front, q)) = Self::spec_read_seq(s, p, (n - 1) as nat, version, pool, location) {
                Self::lemma_read_wf(s, q, version, pool, location);
                if let Ok((x, q2)) = Self::spec_read(s, q, version, pool, location) {
                    let xs = front.push(x);
                    assert(xs.drop_last() =~= front);
                    assert(xs.last() == x);
                    assert forall|i: int| 0 <= i < xs.len() implies (#[trigger] xs[i]).wf(version, pool, location) by {
                        if i < front.len() {
                            assert(xs[i] == front[i]);
                        }
                    }
                }
            }
        }
    }
}

} // verus!
