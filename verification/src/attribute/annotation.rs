//! Annotations and the values of their elements.

use crate::bytes::{
    advanced, decoded, lemma_occurs_split, lemma_round_trip_u16, lemma_round_trip_u8, occurs_at, read_u16,
    read_u8, spec_read_u16, spec_read_u8, spec_u16_bytes, views, write_u16, write_u8,
};
use crate::constant_pool::ConstantPoolIndex;
use crate::error::Error;
use vstd::prelude::*;

verus! {

/// An annotation: its type and the values of its elements.
#[derive(Debug, PartialEq, Eq)]
pub struct Annotation {
    /// Field descriptor of the annotation type.
    pub ty: ConstantPoolIndex,
    pub element_value_pairs: Vec<ElementValuePair>,
}

/// The value of one element of an annotation.
#[derive(Debug, PartialEq, Eq)]
pub struct ElementValuePair {
    pub element_name: ConstantPoolIndex,
    pub element_value: ElementValue,
}

/// A value that an annotation element can have.
#[derive(Debug, PartialEq, Eq)]
pub enum ElementValue {
    /// A constant of the primitive type or the string that `tag` names.
    ConstValue { tag: char, index: ConstantPoolIndex },
    EnumConstValue { type_name_index: ConstantPoolIndex, const_name: ConstantPoolIndex },
    Class(ConstantPoolIndex),
    AnnotationValue(Annotation),
    ArrayValue(Vec<ElementValue>),
}

/// The mathematical value of an [`Annotation`].
pub struct AnnotationView {
    pub ty: ConstantPoolIndex,
    pub element_value_pairs: Seq<ElementValuePairView>,
}

/// The mathematical value of an [`ElementValuePair`].
pub struct ElementValuePairView {
    pub element_name: ConstantPoolIndex,
    pub element_value: ElementValueView,
}

/// The mathematical value of an [`ElementValue`].
pub enum ElementValueView {
    ConstValue { tag: char, index: ConstantPoolIndex },
    EnumConstValue { type_name_index: ConstantPoolIndex, const_name: ConstantPoolIndex },
    Class(ConstantPoolIndex),
    AnnotationValue(AnnotationView),
    ArrayValue(Seq<ElementValueView>),
}

pub open spec fn annotation_view(a: Annotation) -> AnnotationView
    decreases a,
{
    AnnotationView {
        ty: a.ty,
        element_value_pairs: Seq::new(
            a.element_value_pairs@.len(),
            |i: int|
                if 0 <= i < a.element_value_pairs@.len() {
                    pair_view(a.element_value_pairs@[i])
                } else {
                    arbitrary()
                },
        ),
    }
}

pub open spec fn pair_view(p: ElementValuePair) -> ElementValuePairView
    decreases p,
{
    ElementValuePairView { element_name: p.element_name, element_value: element_value_view(p.element_value) }
}

pub open spec fn element_value_view(e: ElementValue) -> ElementValueView
    decreases e,
{
    match e {
        ElementValue::ConstValue { tag, index } => ElementValueView::ConstValue { tag, index },
        ElementValue::EnumConstValue { type_name_index, const_name } => ElementValueView::EnumConstValue {
            type_name_index,
            const_name,
        },
        ElementValue::Class(index) => ElementValueView::Class(index),
        ElementValue::AnnotationValue(a) => ElementValueView::AnnotationValue(annotation_view(a)),
        ElementValue::ArrayValue(v) => ElementValueView::ArrayValue(
            Seq::new(
                v@.len(),
                |i: int|
                    if 0 <= i < v@.len() {
                        element_value_view(v@[i])
                    } else {
                        arbitrary()
                    },
            ),
        ),
    }
}

impl View for Annotation {
    type V = AnnotationView;

    open spec fn view(&self) -> AnnotationView {
        annotation_view(*self)
    }
}

impl View for ElementValuePair {
    type V = ElementValuePairView;

    open spec fn view(&self) -> ElementValuePairView {
        pair_view(*self)
    }
}

impl View for ElementValue {
    type V = ElementValueView;

    open spec fn view(&self) -> ElementValueView {
        element_value_view(*self)
    }
}

/// The value of an annotation holds the values of its pairs.
pub proof fn lemma_annotation_view(a: Annotation)
    ensures
        a@ == (AnnotationView { ty: a.ty, element_value_pairs: views(a.element_value_pairs@) }),
{
    assert(annotation_view(a).element_value_pairs =~= views(a.element_value_pairs@));
}

/// The value of an array holds the values of its elements.
pub proof fn lemma_array_view(v: Vec<ElementValue>)
    ensures
        ElementValue::ArrayValue(v)@ == ElementValueView::ArrayValue(views(v@)),
{
    assert(element_value_view(ElementValue::ArrayValue(v))->ArrayValue_0 =~= views(v@));
}

/// Whether `tag` names a primitive type or the string type.
pub open spec fn spec_is_const_tag(tag: u8) -> bool {
    tag == 'B' as u8 || tag == 'C' as u8 || tag == 'D' as u8 || tag == 'F' as u8 || tag == 'I' as u8 || tag
        == 'J' as u8 || tag == 'S' as u8 || tag == 'Z' as u8 || tag == 's' as u8
}

fn is_const_tag(tag: u8) -> (r: bool)
    ensures
        r == spec_is_const_tag(tag),
{
    tag == 66 || tag == 67 || tag == 68 || tag == 70 || tag == 73 || tag == 74 || tag == 83 || tag == 90
        || tag == 115
}

impl AnnotationView {
    pub open spec fn wf(self) -> bool
        decreases self,
    {
        self.element_value_pairs.len() <= 0xFFFF && ElementValuePair::wf_seq(self.element_value_pairs)
    }

    pub open spec fn spec_write(self) -> Seq<u8>
        decreases self,
    {
        spec_u16_bytes(self.ty.0) + spec_u16_bytes((self.element_value_pairs.len() % 0x1_0000) as u16)
            + ElementValuePair::spec_write_seq(self.element_value_pairs)
    }
}

impl ElementValuePairView {
    pub open spec fn wf(self) -> bool
        decreases self,
    {
        self.element_value.wf()
    }

    pub open spec fn spec_write(self) -> Seq<u8>
        decreases self,
    {
        spec_u16_bytes(self.element_name.0) + self.element_value.spec_write()
    }
}

impl ElementValueView {
    /// Whether reading can produce the value: the tag of a constant is one of the nine
    /// that name a constant, and every count fits.
    pub open spec fn wf(self) -> bool
        decreases self,
    {
        match self {
            ElementValueView::ConstValue { tag, .. } => tag as int <= 0xFF && spec_is_const_tag(tag as u8),
            ElementValueView::AnnotationValue(a) => a.wf(),
            ElementValueView::ArrayValue(values) => values.len() <= 0xFFFF && ElementValue::wf_seq(values),
            _ => true,
        }
    }

    /// The bytes of the value: its tag and what the tag announces.
    pub open spec fn spec_write(self) -> Seq<u8>
        decreases self,
    {
        match self {
            ElementValueView::ConstValue { tag, index } => seq![(tag as int % 0x100) as u8]
                + spec_u16_bytes(index.0),
            ElementValueView::EnumConstValue { type_name_index, const_name } => seq!['e' as u8]
                + spec_u16_bytes(
                type_name_index.0,
            ) + spec_u16_bytes(const_name.0),
            ElementValueView::Class(index) => seq!['c' as u8] + spec_u16_bytes(index.0),
            ElementValueView::AnnotationValue(a) => seq!['@' as u8] + a.spec_write(),
            ElementValueView::ArrayValue(values) => seq!['[' as u8] + spec_u16_bytes(
                (values.len() % 0x1_0000) as u16,
            ) + ElementValue::spec_write_seq(values),
        }
    }
}

impl Annotation {
    /// The annotation that starts at `p`.
    pub open spec fn spec_read(s: Seq<u8>, p: int) -> Result<(AnnotationView, int), Error>
        decreases s.len() - p, 0int,
    {
        match spec_read_u16(s, p) {
            Err(e) => Err(e),
            Ok((ty, at1)) => match spec_read_u16(s, at1) {
                Err(e) => Err(e),
                Ok((n, at2)) => match ElementValuePair::spec_read_seq(s, at2, n as nat) {
                    Err(e) => Err(e),
                    Ok((element_value_pairs, at3)) => Ok(
                        (AnnotationView { ty: ConstantPoolIndex(ty), element_value_pairs }, at3),
                    ),
                },
            },
        }
    }

    pub fn read(data: &[u8], pos: usize) -> (r: Result<(Annotation, usize), Error>)
        ensures
            decoded(r, Self::spec_read(data@, pos as int)),
            advanced(r, data@, pos),
        decreases data@.len() - pos, 0int,
    {
        let (ty, pos1) = match read_u16(data, pos) {
            Ok(x) => x,
            Err(e) => {
                return Err(e);
            },
        };
        let (n, pos2) = match read_u16(data, pos1) {
            Ok(x) => x,
            Err(e) => {
                return Err(e);
            },
        };
        let (element_value_pairs, pos3) = match ElementValuePair::read_seq(data, pos2, n as usize) {
            Ok(x) => x,
            Err(e) => {
                return Err(e);
            },
        };
        let annotation = Annotation { ty: ConstantPoolIndex(ty), element_value_pairs };
        proof {
            lemma_annotation_view(annotation);
        }
        Ok((annotation, pos3))
    }

    pub fn write(&self, out: &mut Vec<u8>)
        ensures
            final(out)@ == old(out)@ + self@.spec_write(),
        decreases self,
    {
        proof {
            lemma_annotation_view(*self);
        }
        write_u16(out, self.ty.0);
        write_u16(out, (self.element_value_pairs.len() % 0x1_0000) as u16);
        ElementValuePair::write_seq(&self.element_value_pairs, out);
        proof {
            assert(out@ =~= old(out)@ + self@.spec_write());
        }
    }

    /// Reading back a written annotation that reading can produce yields it.
    pub proof fn lemma_round_trip(v: AnnotationView, s: Seq<u8>, p: int)
        requires
            v.wf(),
            occurs_at(s, p, v.spec_write()),
        ensures
            Self::spec_read(s, p) == Ok::<(AnnotationView, int), Error>((v, p + v.spec_write().len())),
        decreases v,
    {
        let n = (v.element_value_pairs.len() % 0x1_0000) as u16;
        let w = ElementValuePair::spec_write_seq(v.element_value_pairs);
        lemma_occurs_split(s, p, spec_u16_bytes(v.ty.0) + spec_u16_bytes(n), w);
        lemma_occurs_split(s, p, spec_u16_bytes(v.ty.0), spec_u16_bytes(n));
        lemma_round_trip_u16(v.ty.0, s, p);
        lemma_round_trip_u16(n, s, p + 2);
        ElementValuePair::lemma_round_trip_seq(v.element_value_pairs, s, p + 4);
    }
}

impl Annotation {
    /// An annotation that was read is well formed, and has as many bytes as were taken.
    pub proof fn lemma_read_wf(s: Seq<u8>, p: int)
        ensures
            Self::spec_read(s, p) matches Ok((v, q)) ==> v.wf() && q == p + v.spec_write().len()
                && q <= s.len(),
        decreases s.len() - p, 0int,
    {
        if let Ok((ty, at1)) = spec_read_u16(s, p) {
            if let Ok((n, at2)) = spec_read_u16(s, at1) {
                ElementValuePair::lemma_read_seq_wf(s, at2, n as nat);
            }
        }
    }
}

impl ElementValuePair {
    /// A pair that was read is well formed, and has as many bytes as were taken.
    pub proof fn lemma_read_wf(s: Seq<u8>, p: int)
        ensures
            Self::spec_read(s, p) matches Ok((v, q)) ==> v.wf() && q == p + v.spec_write().len()
                && q <= s.len(),
        decreases s.len() - p, 1int,
    {
        if let Ok((name, at1)) = spec_read_u16(s, p) {
            ElementValue::lemma_read_wf(s, at1);
        }
    }

    /// The pair that starts at `p`.
    pub open spec fn spec_read(s: Seq<u8>, p: int) -> Result<(ElementValuePairView, int), Error>
        decreases s.len() - p, 1int,
    {
        match spec_read_u16(s, p) {
            Err(e) => Err(e),
            Ok((name, at1)) => match ElementValue::spec_read(s, at1) {
                Err(e) => Err(e),
                Ok((element_value, at2)) => Ok(
                    (ElementValuePairView { element_name: ConstantPoolIndex(name), element_value }, at2),
                ),
            },
        }
    }

    pub fn read(data: &[u8], pos: usize) -> (r: Result<(ElementValuePair, usize), Error>)
        ensures
            decoded(r, Self::spec_read(data@, pos as int)),
            advanced(r, data@, pos),
        decreases data@.len() - pos, 1int,
    {
        let (name, pos1) = match read_u16(data, pos) {
            Ok(x) => x,
            Err(e) => {
                return Err(e);
            },
        };
        let (element_value, pos2) = match ElementValue::read(data, pos1) {
            Ok(x) => x,
            Err(e) => {
                return Err(e);
            },
        };
        Ok((ElementValuePair { element_name: ConstantPoolIndex(name), element_value }, pos2))
    }

    pub fn write(&self, out: &mut Vec<u8>)
        ensures
            final(out)@ == old(out)@ + self@.spec_write(),
        decreases self,
    {
        write_u16(out, self.element_name.0);
        self.element_value.write(out);
        proof {
            assert(out@ =~= old(out)@ + self@.spec_write());
        }
    }

    /// Reading back a written pair that reading can produce yields it.
    pub proof fn lemma_round_trip(v: ElementValuePairView, s: Seq<u8>, p: int)
        requires
            v.wf(),
            occurs_at(s, p, v.spec_write()),
        ensures
            Self::spec_read(s, p) == Ok::<(ElementValuePairView, int), Error>((v, p + v.spec_write().len())),
        decreases v,
    {
        lemma_occurs_split(s, p, spec_u16_bytes(v.element_name.0), v.element_value.spec_write());
        lemma_round_trip_u16(v.element_name.0, s, p);
        ElementValue::lemma_round_trip(v.element_value, s, p + 2);
    }
}

impl ElementValue {
    /// An element value that was read is well formed, and has as many bytes as were taken.
    pub proof fn lemma_read_wf(s: Seq<u8>, p: int)
        ensures
            Self::spec_read(s, p) matches Ok((v, q)) ==> v.wf() && q == p + v.spec_write().len()
                && q <= s.len(),
        decreases s.len() - p, 0int,
    {
        if let Ok((tag, at1)) = spec_read_u8(s, p) {
            if spec_is_const_tag(tag) {
            } else if tag == '@' as u8 {
                Annotation::lemma_read_wf(s, at1);
            } else if tag == '[' as u8 {
                if let Ok((n, at2)) = spec_read_u16(s, at1) {
                    Self::lemma_read_seq_wf(s, at2, n as nat);
                }
            }
        }
    }

    /// The element value whose tag stands at `p`.
    pub open spec fn spec_read(s: Seq<u8>, p: int) -> Result<(ElementValueView, int), Error>
        decreases s.len() - p, 0int,
    {
        match spec_read_u8(s, p) {
            Err(e) => Err(e),
            Ok((tag, at1)) => if spec_is_const_tag(tag) {
                match spec_read_u16(s, at1) {
                    Err(e) => Err(e),
                    Ok((v, q)) => Ok((ElementValueView::ConstValue { tag: tag as char, index: ConstantPoolIndex(v) }, q)),
                }
            } else if tag == 'e' as u8 {
                match spec_read_u16(s, at1) {
                    Err(e) => Err(e),
                    Ok((a, at2)) => match spec_read_u16(s, at2) {
                        Err(e) => Err(e),
                        Ok((b, q)) => Ok(
                            (
                                ElementValueView::EnumConstValue {
                                    type_name_index: ConstantPoolIndex(a),
                                    const_name: ConstantPoolIndex(b),
                                },
                                q,
                            ),
                        ),
                    },
                }
            } else if tag == 'c' as u8 {
                match spec_read_u16(s, at1) {
                    Err(e) => Err(e),
                    Ok((v, q)) => Ok((ElementValueView::Class(ConstantPoolIndex(v)), q)),
                }
            } else if tag == '@' as u8 {
                match Annotation::spec_read(s, at1) {
                    Err(e) => Err(e),
                    Ok((a, q)) => Ok((ElementValueView::AnnotationValue(a), q)),
                }
            } else if tag == '[' as u8 {
                match spec_read_u16(s, at1) {
                    Err(e) => Err(e),
                    Ok((n, at2)) => match Self::spec_read_seq(s, at2, n as nat) {
                        Err(e) => Err(e),
                        Ok((values, q)) => Ok((ElementValueView::ArrayValue(values), q)),
                    },
                }
            } else {
                Err(Error::InvalidElementValueTag(tag as char))
            },
        }
    }

    pub fn read(data: &[u8], pos: usize) -> (r: Result<(ElementValue, usize), Error>)
        ensures
            decoded(r, Self::spec_read(data@, pos as int)),
            advanced(r, data@, pos),
        decreases data@.len() - pos, 0int,
    {
        let (tag, pos1) = match read_u8(data, pos) {
            Ok(x) => x,
            Err(e) => {
                return Err(e);
            },
        };
        if is_const_tag(tag) {
            match read_u16(data, pos1) {
                Ok((v, q)) => Ok((ElementValue::ConstValue { tag: tag as char, index: ConstantPoolIndex(v) }, q)),
                Err(e) => Err(e),
            }
        } else if tag == 101 {
            let (a, pos2) = match read_u16(data, pos1) {
                Ok(x) => x,
                Err(e) => {
                    return Err(e);
                },
            };
            match read_u16(data, pos2) {
                Ok((b, q)) => Ok(
                    (
                        ElementValue::EnumConstValue { type_name_index: ConstantPoolIndex(a), const_name: ConstantPoolIndex(b) },
                        q,
                    ),
                ),
                Err(e) => Err(e),
            }
        } else if tag == 99 {
            match read_u16(data, pos1) {
                Ok((v, q)) => Ok((ElementValue::Class(ConstantPoolIndex(v)), q)),
                Err(e) => Err(e),
            }
        } else if tag == 64 {
            match Annotation::read(data, pos1) {
                Ok((a, q)) => Ok((ElementValue::AnnotationValue(a), q)),
                Err(e) => Err(e),
            }
        } else if tag == 91 {
            let (n, pos2) = match read_u16(data, pos1) {
                Ok(x) => x,
                Err(e) => {
                    return Err(e);
                },
            };
            match Self::read_seq(data, pos2, n as usize) {
                Ok((values, q)) => {
                    proof {
                        lemma_array_view(values);
                    }
                    Ok((ElementValue::ArrayValue(values), q))
                },
                Err(e) => Err(e),
            }
        } else {
            Err(Error::InvalidElementValueTag(tag as char))
        }
    }

    pub fn write(&self, out: &mut Vec<u8>)
        ensures
            final(out)@ == old(out)@ + self@.spec_write(),
        decreases self,
    {
        match self {
            ElementValue::ConstValue { tag, index } => {
                write_u8(out, (*tag as u32 % 0x100) as u8);
                write_u16(out, index.0);
            },
            ElementValue::EnumConstValue { type_name_index, const_name } => {
                write_u8(out, 101);
                write_u16(out, type_name_index.0);
                write_u16(out, const_name.0);
            },
            ElementValue::Class(index) => {
                write_u8(out, 99);
                write_u16(out, index.0);
            },
            ElementValue::AnnotationValue(annotation) => {
                write_u8(out, 64);
                annotation.write(out);
            },
            ElementValue::ArrayValue(values) => {
                proof {
                    lemma_array_view(*values);
                }
                write_u8(out, 91);
                write_u16(out, (values.len() % 0x1_0000) as u16);
                Self::write_seq(values, out);
            },
        }
        proof {
            assert(out@ =~= old(out)@ + self@.spec_write());
        }
    }

    /// Reading back a written element value that reading can produce yields it.
    pub proof fn lemma_round_trip(v: ElementValueView, s: Seq<u8>, p: int)
        requires
            v.wf(),
            occurs_at(s, p, v.spec_write()),
        ensures
            Self::spec_read(s, p) == Ok::<(ElementValueView, int), Error>((v, p + v.spec_write().len())),
        decreases v,
    {
        match v {
            ElementValueView::ConstValue { tag, index } => {
                let t = (tag as int % 0x100) as u8;
                lemma_occurs_split(s, p, seq![t], spec_u16_bytes(index.0));
                lemma_round_trip_u8(t, s, p);
                lemma_round_trip_u16(index.0, s, p + 1);
            },
            ElementValueView::EnumConstValue { type_name_index, const_name } => {
                lemma_occurs_split(
                    s,
                    p,
                    seq!['e' as u8] + spec_u16_bytes(type_name_index.0),
                    spec_u16_bytes(const_name.0),
                );
                lemma_occurs_split(s, p, seq!['e' as u8], spec_u16_bytes(type_name_index.0));
                lemma_round_trip_u8('e' as u8, s, p);
                lemma_round_trip_u16(type_name_index.0, s, p + 1);
                lemma_round_trip_u16(const_name.0, s, p + 3);
            },
            ElementValueView::Class(index) => {
                lemma_occurs_split(s, p, seq!['c' as u8], spec_u16_bytes(index.0));
                lemma_round_trip_u8('c' as u8, s, p);
                lemma_round_trip_u16(index.0, s, p + 1);
            },
            ElementValueView::AnnotationValue(a) => {
                lemma_occurs_split(s, p, seq!['@' as u8], a.spec_write());
                lemma_round_trip_u8('@' as u8, s, p);
                Annotation::lemma_round_trip(a, s, p + 1);
            },
            ElementValueView::ArrayValue(values) => {
                let n = (values.len() % 0x1_0000) as u16;
                lemma_occurs_split(s, p, seq!['[' as u8] + spec_u16_bytes(n), Self::spec_write_seq(values));
                lemma_occurs_split(s, p, seq!['[' as u8], spec_u16_bytes(n));
                lemma_round_trip_u8('[' as u8, s, p);
                lemma_round_trip_u16(n, s, p + 1);
                Self::lemma_round_trip_seq(values, s, p + 3);
            },
        }
    }
}

impl ElementValue {
    /// Whether each element is well formed.
    pub open spec fn wf_seq(xs: Seq<ElementValueView>) -> bool
        decreases xs,
    {
        forall|i: int| 0 <= i < xs.len() ==> (#[trigger] xs[i]).wf()
    }

    /// The elements one after the other, without a count.
    pub open spec fn spec_write_seq(xs: Seq<ElementValueView>) -> Seq<u8>
        decreases xs,
    {
        if xs.len() == 0 {
            Seq::empty()
        } else {
            Self::spec_write_seq(xs.drop_last()) + xs.last().spec_write()
        }
    }

    /// The `n` elements that start at `p`, read one after the other.
    pub open spec fn spec_read_seq(s: Seq<u8>, p: int, n: nat) -> Result<(Seq<ElementValueView>, int), Error>
        decreases s.len() - p, 1 + n,
    {
        if n == 0 {
            Ok((Seq::empty(), p))
        } else {
            match Self::spec_read_seq(s, p, (n - 1) as nat) {
                Err(e) => Err(e),
                Ok((xs, q)) => if q < p || q > s.len() {
                    Err(Error::UnexpectedEof)
                } else {
                    match Self::spec_read(s, q) {
                        Err(e) => Err(e),
                        Ok((x, q2)) => Ok((xs.push(x), q2)),
                    }
                },
            }
        }
    }

    /// Once a prefix fails to read, every longer sequence fails the same way.
    pub proof fn lemma_read_seq_err(s: Seq<u8>, p: int, k: nat, n: nat)
        requires
            k <= n,
            Self::spec_read_seq(s, p, k) is Err,
        ensures
            Self::spec_read_seq(s, p, n) == Self::spec_read_seq(s, p, k),
        decreases n,
    {
        if k < n {
            Self::lemma_read_seq_err(s, p, k, (n - 1) as nat);
        }
    }

    /// Reads `n` elements one after the other, the first of them at `pos`.
    pub fn read_seq(data: &[u8], pos: usize, n: usize) -> (r: Result<(Vec<ElementValue>, usize), Error>)
        ensures
            match Self::spec_read_seq(data@, pos as int, n as nat) {
                Ok((v, p)) => r matches Ok((rv, rp)) && views(rv@) == v && rp as int == p,
                Err(e) => r == Err::<(Vec<ElementValue>, usize), Error>(e),
            },
            advanced(r, data@, pos),
        decreases data@.len() - pos, 1 + n,
    {
        let mut out: Vec<ElementValue> = Vec::new();
        let mut cur = pos;
        let mut i: usize = 0;
        if pos > data.len() {
            proof {
                if n > 0 {
                    Self::lemma_read_seq_err(data@, pos as int, 1, n as nat);
                }
            }
            return if n == 0 {
                Ok((out, cur))
            } else {
                Err(Error::UnexpectedEof)
            };
        }
        assert(views(out@) =~= Seq::<ElementValueView>::empty());
        while i < n
            invariant
                i <= n,
                pos <= cur <= data@.len(),
                Self::spec_read_seq(data@, pos as int, i as nat) == Ok::<(Seq<ElementValueView>, int), Error>((views(out@), cur as int)),
            decreases n - i,
        {
            match Self::read(data, cur) {
                Err(e) => {
                    proof {
                        Self::lemma_read_seq_err(data@, pos as int, (i + 1) as nat, n as nat);
                    }
                    return Err(e);
                },
                Ok((x, next)) => {
                    proof {
                        assert(views(out@.push(x)) =~= views(out@).push(x@));
                    }
                    out.push(x);
                    cur = next;
                },
            }
            i += 1;
        }
        Ok((out, cur))
    }

    /// Appends the bytes of the elements, one after the other.
    pub fn write_seq(xs: &Vec<ElementValue>, out: &mut Vec<u8>)
        ensures
            final(out)@ == old(out)@ + Self::spec_write_seq(views(xs@)),
        decreases xs,
    {
        let mut i: usize = 0;
        while i < xs.len()
            invariant
                i <= xs.len(),
                out@ == old(out)@ + Self::spec_write_seq(views(xs@).take(i as int)),
            decreases xs.len() - i,
        {
            proof {
                let t = views(xs@).take(i + 1);
                assert(t.drop_last() =~= views(xs@).take(i as int));
            }
            xs[i].write(out);
            proof {
                assert(out@ =~= old(out)@ + Self::spec_write_seq(views(xs@).take(i + 1)));
            }
            i += 1;
        }
        proof {
            assert(views(xs@).take(xs.len() as int) =~= views(xs@));
        }
    }

    /// Reading back the elements that `spec_write_seq` wrote yields them all.
    pub proof fn lemma_round_trip_seq(xs: Seq<ElementValueView>, s: Seq<u8>, p: int)
        requires
            Self::wf_seq(xs),
            occurs_at(s, p, Self::spec_write_seq(xs)),
        ensures
            Self::spec_read_seq(s, p, xs.len()) == Ok::<(Seq<ElementValueView>, int), Error>(
                (xs, p + Self::spec_write_seq(xs).len()),
            ),
        decreases xs,
    {
        if xs.len() > 0 {
            let front = xs.drop_last();
            let w = Self::spec_write_seq(front);
            assert forall|i: int| 0 <= i < front.len() implies (#[trigger] front[i]).wf() by {
                assert(front[i] == xs[i]);
            }
            assert(xs.last() == xs[xs.len() - 1]);
            lemma_occurs_split(s, p, w, xs.last().spec_write());
            Self::lemma_round_trip_seq(front, s, p);
            Self::lemma_round_trip(xs.last(), s, p + w.len());
            assert(front.push(xs.last()) =~= xs);
        } else {
            assert(xs =~= Seq::<ElementValueView>::empty());
        }
    }

    /// Elements that were read are as many as were asked for and well formed, and have
    /// as many bytes as were taken.
    pub proof fn lemma_read_seq_wf(s: Seq<u8>, p: int, n: nat)
        ensures
            Self::spec_read_seq(s, p, n) matches Ok((xs, q)) ==> xs.len() == n && Self::wf_seq(xs)
                && q == p + Self::spec_write_seq(xs).len() && (p <= s.len() ==> q <= s.len()),
        decreases s.len() - p, 1 + n,
    {
        if n > 0 {
            Self::lemma_read_seq_wf(s, p, (n - 1) as nat);
            if let Ok((front, q)) = Self::spec_read_seq(s, p, (n - 1) as nat) {
                if !(q < p || q > s.len()) {
                    Self::lemma_read_wf(s, q);
                }
                if let Ok((x, q2)) = Self::spec_read(s, q) {
                    let xs = front.push(x);
                    assert(xs.drop_last() =~= front);
                    assert(xs.last() == x);
                    assert forall|i: int| 0 <= i < xs.len() implies (#[trigger] xs[i]).wf() by {
                        if i < front.len() {
                            assert(xs[i] == front[i]);
                        }
                    }
                }
            }
        }
    }
}

impl ElementValuePair {
    /// Whether each element is well formed.
    pub open spec fn wf_seq(xs: Seq<ElementValuePairView>) -> bool
        decreases xs,
    {
        forall|i: int| 0 <= i < xs.len() ==> (#[trigger] xs[i]).wf()
    }

    /// The elements one after the other, without a count.
    pub open spec fn spec_write_seq(xs: Seq<ElementValuePairView>) -> Seq<u8>
        decreases xs,
    {
        if xs.len() == 0 {
            Seq::empty()
        } else {
            Self::spec_write_seq(xs.drop_last()) + xs.last().spec_write()
        }
    }

    /// The `n` elements that start at `p`, read one after the other.
    pub open spec fn spec_read_seq(
        s: Seq<u8>,
        p: int,
        n: nat,
    ) -> Result<(Seq<ElementValuePairView>, int), Error>
        decreases s.len() - p, 2 + n,
    {
        if n == 0 {
            Ok((Seq::empty(), p))
        } else {
            match Self::spec_read_seq(s, p, (n - 1) as nat) {
                Err(e) => Err(e),
                Ok((xs, q)) => if q < p || q > s.len() {
                    Err(Error::UnexpectedEof)
                } else {
                    match Self::spec_read(s, q) {
                        Err(e) => Err(e),
                        Ok((x, q2)) => Ok((xs.push(x), q2)),
                    }
                },
            }
        }
    }

    /// Once a prefix fails to read, every longer sequence fails the same way.
    pub proof fn lemma_read_seq_err(s: Seq<u8>, p: int, k: nat, n: nat)
        requires
            k <= n,
            Self::spec_read_seq(s, p, k) is Err,
        ensures
            Self::spec_read_seq(s, p, n) == Self::spec_read_seq(s, p, k),
        decreases n,
    {
        if k < n {
            Self::lemma_read_seq_err(s, p, k, (n - 1) as nat);
        }
    }

    /// Reads `n` elements one after the other, the first of them at `pos`.
    pub fn read_seq(data: &[u8], pos: usize, n: usize) -> (r: Result<(Vec<ElementValuePair>, usize), Error>)
        ensures
            match Self::spec_read_seq(data@, pos as int, n as nat) {
                Ok((v, p)) => r matches Ok((rv, rp)) && views(rv@) == v && rp as int == p,
                Err(e) => r == Err::<(Vec<ElementValuePair>, usize), Error>(e),
            },
            advanced(r, data@, pos),
        decreases data@.len() - pos, 2 + n,
    {
        let mut out: Vec<ElementValuePair> = Vec::new();
        let mut cur = pos;
        let mut i: usize = 0;
        if pos > data.len() {
            proof {
                if n > 0 {
                    Self::lemma_read_seq_err(data@, pos as int, 1, n as nat);
                }
            }
            return if n == 0 {
                Ok((out, cur))
            } else {
                Err(Error::UnexpectedEof)
            };
        }
        assert(views(out@) =~= Seq::<ElementValuePairView>::empty());
        while i < n
            invariant
                i <= n,
                pos <= cur <= data@.len(),
                Self::spec_read_seq(data@, pos as int, i as nat) == Ok::<(Seq<ElementValuePairView>, int), Error>((views(out@), cur as int)),
            decreases n - i,
        {
            match Self::read(data, cur) {
                Err(e) => {
                    proof {
                        Self::lemma_read_seq_err(data@, pos as int, (i + 1) as nat, n as nat);
                    }
                    return Err(e);
                },
                Ok((x, next)) => {
                    proof {
                        assert(views(out@.push(x)) =~= views(out@).push(x@));
                    }
                    out.push(x);
                    cur = next;
                },
            }
            i += 1;
        }
        Ok((out, cur))
    }

    /// Appends the bytes of the elements, one after the other.
    pub fn write_seq(xs: &Vec<ElementValuePair>, out: &mut Vec<u8>)
        ensures
            final(out)@ == old(out)@ + Self::spec_write_seq(views(xs@)),
        decreases xs,
    {
        let mut i: usize = 0;
        while i < xs.len()
            invariant
                i <= xs.len(),
                out@ == old(out)@ + Self::spec_write_seq(views(xs@).take(i as int)),
            decreases xs.len() - i,
        {
            proof {
                let t = views(xs@).take(i + 1);
                assert(t.drop_last() =~= views(xs@).take(i as int));
            }
            xs[i].write(out);
            proof {
                assert(out@ =~= old(out)@ + Self::spec_write_seq(views(xs@).take(i + 1)));
            }
            i += 1;
        }
        proof {
            assert(views(xs@).take(xs.len() as int) =~= views(xs@));
        }
    }

    /// Reading back the elements that `spec_write_seq` wrote yields them all.
    pub proof fn lemma_round_trip_seq(xs: Seq<ElementValuePairView>, s: Seq<u8>, p: int)
        requires
            Self::wf_seq(xs),
            occurs_at(s, p, Self::spec_write_seq(xs)),
        ensures
            Self::spec_read_seq(s, p, xs.len()) == Ok::<(Seq<ElementValuePairView>, int), Error>(
                (xs, p + Self::spec_write_seq(xs).len()),
            ),
        decreases xs,
    {
        if xs.len() > 0 {
            let front = xs.drop_last();
            let w = Self::spec_write_seq(front);
            assert forall|i: int| 0 <= i < front.len() implies (#[trigger] front[i]).wf() by {
                assert(front[i] == xs[i]);
            }
            assert(xs.last() == xs[xs.len() - 1]);
            lemma_occurs_split(s, p, w, xs.last().spec_write());
            Self::lemma_round_trip_seq(front, s, p);
            Self::lemma_round_trip(xs.last(), s, p + w.len());
            assert(front.push(xs.last()) =~= xs);
        } else {
            assert(xs =~= Seq::<ElementValuePairView>::empty());
        }
    }

    /// Elements that were read are as many as were asked for and well formed, and have
    /// as many bytes as were taken.
    pub proof fn lemma_read_seq_wf(s: Seq<u8>, p: int, n: nat)
        ensures
            Self::spec_read_seq(s, p, n) matches Ok((xs, q)) ==> xs.len() == n && Self::wf_seq(xs)
                && q == p + Self::spec_write_seq(xs).len() && (p <= s.len() ==> q <= s.len()),
        decreases s.len() - p, 2 + n,
    {
        if n > 0 {
            Self::lemma_read_seq_wf(s, p, (n - 1) as nat);
            if let Ok((front, q)) = Self::spec_read_seq(s, p, (n - 1) as nat) {
                if !(q < p || q > s.len()) {
                    Self::lemma_read_wf(s, q);
                }
                if let Ok((x, q2)) = Self::spec_read(s, q) {
                    let xs = front.push(x);
                    assert(xs.drop_last() =~= front);
                    assert(xs.last() == x);
                    assert forall|i: int| 0 <= i < xs.len() implies (#[trigger] xs[i]).wf() by {
                        if i < front.len() {
                            assert(xs[i] == front[i]);
                        }
                    }
                }
            }
        }
    }
}

impl Annotation {
    /// Whether each element is well formed.
    #[verifier::opaque]
    pub open spec fn wf_seq(xs: Seq<AnnotationView>) -> bool {
        forall|i: int| 0 <= i < xs.len() ==> (#[trigger] xs[i]).wf()
    }

    /// The elements one after the other, without a count.
    #[verifier::opaque]
    pub open spec fn spec_write_seq(xs: Seq<AnnotationView>) -> Seq<u8>
        decreases xs.len(),
    {
        if xs.len() == 0 {
            Seq::empty()
        } else {
            Self::spec_write_seq(xs.drop_last()) + xs.last().spec_write()
        }
    }

    /// The `n` elements that start at `p`, read one after the other.
    #[verifier::opaque]
    pub open spec fn spec_read_seq(s: Seq<u8>, p: int, n: nat) -> Result<(Seq<AnnotationView>, int), Error>
        decreases n,
    {
        if n == 0 {
            Ok((Seq::empty(), p))
        } else {
            match Self::spec_read_seq(s, p, (n - 1) as nat) {
                Err(e) => Err(e),
                Ok((xs, q)) => match Self::spec_read(s, q) {
                    Err(e) => Err(e),
                    Ok((x, q2)) => Ok((xs.push(x), q2)),
                },
            }
        }
    }

    /// Once a prefix fails to read, every longer sequence fails the same way.
    pub proof fn lemma_read_seq_err(s: Seq<u8>, p: int, k: nat, n: nat)
        requires
            k <= n,
            Self::spec_read_seq(s, p, k) is Err,
        ensures
            Self::spec_read_seq(s, p, n) == Self::spec_read_seq(s, p, k),
        decreases n,
    {
        reveal(Annotation::spec_read_seq);
        if k < n {
            Self::lemma_read_seq_err(s, p, k, (n - 1) as nat);
        }
    }

    /// Reads `n` elements one after the other, the first of them at `pos`.
    pub fn read_seq(data: &[u8], pos: usize, n: usize) -> (r: Result<(Vec<Annotation>, usize), Error>)
        ensures
            match Self::spec_read_seq(data@, pos as int, n as nat) {
                Ok((v, p)) => r matches Ok((rv, rp)) && views(rv@) == v && rp as int == p,
                Err(e) => r == Err::<(Vec<Annotation>, usize), Error>(e),
            },
            advanced(r, data@, pos),
    {
        let mut out: Vec<Annotation> = Vec::new();
        let mut cur = pos;
        let mut i: usize = 0;
        proof {
            reveal(Annotation::spec_read_seq);
        }
        assert(views(out@) =~= Seq::<AnnotationView>::empty());
        while i < n
            invariant
                i <= n,
                pos <= data@.len() ==> pos <= cur <= data@.len(),
                Self::spec_read_seq(data@, pos as int, i as nat) == Ok::<(Seq<AnnotationView>, int), Error>((views(out@), cur as int)),
            decreases n - i,
        {
            proof {
                reveal(Annotation::spec_read_seq);
            }
            match Self::read(data, cur) {
                Err(e) => {
                    proof {
                        Self::lemma_read_seq_err(data@, pos as int, (i + 1) as nat, n as nat);
                    }
                    return Err(e);
                },
                Ok((x, next)) => {
                    proof {
                        assert(views(out@.push(x)) =~= views(out@).push(x@));
                    }
                    out.push(x);
                    cur = next;
                },
            }
            i += 1;
        }
        Ok((out, cur))
    }

    /// Appends the bytes of the elements, one after the other.
    pub fn write_seq(xs: &Vec<Annotation>, out: &mut Vec<u8>)
        ensures
            final(out)@ == old(out)@ + Self::spec_write_seq(views(xs@)),
    {
        let mut i: usize = 0;
        proof {
            reveal(Annotation::spec_write_seq);
        }
        while i < xs.len()
            invariant
                i <= xs.len(),
                out@ == old(out)@ + Self::spec_write_seq(views(xs@).take(i as int)),
            decreases xs.len() - i,
        {
            proof {
                reveal(Annotation::spec_write_seq);
                let t = views(xs@).take(i + 1);
                assert(t.drop_last() =~= views(xs@).take(i as int));
            }
            xs[i].write(out);
            proof {
                reveal(Annotation::spec_write_seq);
                assert(out@ =~= old(out)@ + Self::spec_write_seq(views(xs@).take(i + 1)));
            }
            i += 1;
        }
        proof {
            assert(views(xs@).take(xs.len() as int) =~= views(xs@));
        }
    }

    /// Reading back the elements that `spec_write_seq` wrote yields them all.
    pub proof fn lemma_round_trip_seq(xs: Seq<AnnotationView>, s: Seq<u8>, p: int)
        requires
            Self::wf_seq(xs),
            occurs_at(s, p, Self::spec_write_seq(xs)),
        ensures
            Self::spec_read_seq(s, p, xs.len()) == Ok::<(Seq<AnnotationView>, int), Error>(
                (xs, p + Self::spec_write_seq(xs).len()),
            ),
        decreases xs.len(),
    {
        reveal(Annotation::spec_read_seq);
        reveal(Annotation::spec_write_seq);
        reveal(Annotation::wf_seq);
        if xs.len() > 0 {
            let front = xs.drop_last();
            let w = Self::spec_write_seq(front);
            assert forall|i: int| 0 <= i < front.len() implies (#[trigger] front[i]).wf() by {
                assert(front[i] == xs[i]);
            }
            assert(xs.last() == xs[xs.len() - 1]);
            lemma_occurs_split(s, p, w, xs.last().spec_write());
            Self::lemma_round_trip_seq(front, s, p);
            Self::lemma_round_trip(xs.last(), s, p + w.len());
            assert(front.push(xs.last()) =~= xs);
        } else {
            assert(xs =~= Seq::<AnnotationView>::empty());
        }
    }

    /// Elements that were read are as many as were asked for and well formed, and have
    /// as many bytes as were taken.
    pub proof fn lemma_read_seq_wf(s: Seq<u8>, p: int, n: nat)
        ensures
            Self::spec_read_seq(s, p, n) matches Ok((xs, q)) ==> xs.len() == n && Self::wf_seq(xs)
                && q == p + Self::spec_write_seq(xs).len() && (p <= s.len() ==> q <= s.len()),
        decreases n,
    {
        reveal(Annotation::spec_read_seq);
        reveal(Annotation::spec_write_seq);
        reveal(Annotation::wf_seq);
        if n > 0 {
            Self::lemma_read_seq_wf(s, p, (n - 1) as nat);
            if let Ok((front, q)) = Self::spec_read_seq(s, p, (n - 1) as nat) {
                Self::lemma_read_wf(s, q);
                if let Ok((x, q2)) = Self::spec_read(s, q) {
                    let xs = front.push(x);
                    assert(xs.drop_last() =~= front);
                    assert(xs.last() == x);
                    assert forall|i: int| 0 <= i < xs.len() implies (#[trigger] xs[i]).wf() by {
                        if i < front.len() {
                            assert(xs[i] == front[i]);
                        }
                    }
                }
            }
        }
    }
}

} // verus!
