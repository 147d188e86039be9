//! Field and method descriptors.

use crate::bytes::views;
use vstd::prelude::*;
use vstd::string::{StrSliceExecFns, StringExecFns};

verus! {

/// The type that a field descriptor, or one part of a method descriptor, names.
#[derive(Debug, PartialEq, Eq)]
pub enum TypeSignature {
    Byte,
    Char,
    Integer,
    Boolean,
    Long,
    Short,
    Float,
    Double,
    /// A class or interface, by its internal name.
    Class(String),
    /// What a character that starts no descriptor stands for.
    Arbitrary,
    Void,
    Array(Box<TypeSignature>),
}

/// The mathematical value of a [`TypeSignature`].
pub enum TypeSignatureView {
    Byte,
    Char,
    Integer,
    Boolean,
    Long,
    Short,
    Float,
    Double,
    Class(Seq<char>),
    Arbitrary,
    Void,
    Array(Box<TypeSignatureView>),
}

pub open spec fn type_signature_view(t: TypeSignature) -> TypeSignatureView
    decreases t,
{
    match t {
        TypeSignature::Byte => TypeSignatureView::Byte,
        TypeSignature::Char => TypeSignatureView::Char,
        TypeSignature::Integer => TypeSignatureView::Integer,
        TypeSignature::Boolean => TypeSignatureView::Boolean,
        TypeSignature::Long => TypeSignatureView::Long,
        TypeSignature::Short => TypeSignatureView::Short,
        TypeSignature::Float => TypeSignatureView::Float,
        TypeSignature::Double => TypeSignatureView::Double,
        TypeSignature::Class(name) => TypeSignatureView::Class(name@),
        TypeSignature::Arbitrary => TypeSignatureView::Arbitrary,
        TypeSignature::Void => TypeSignatureView::Void,
        TypeSignature::Array(element) => TypeSignatureView::Array(Box::new(type_signature_view(*element))),
    }
}

impl View for TypeSignature {
    type V = TypeSignatureView;

    open spec fn view(&self) -> TypeSignatureView {
        type_signature_view(*self)
    }
}

/// The position of the first `;` at or behind `i`, or the length of `s` where there is none.
pub open spec fn spec_name_end(s: Seq<char>, i: int) -> int
    decreases s.len() - i,
{
    if i < 0 || i >= s.len() || s[i] == ';' {
        if i < 0 || i > s.len() {
            s.len() as int
        } else {
            i
        }
    } else {
        spec_name_end(s, i + 1)
    }
}

/// The type that the descriptor starting at `i` names, and the position behind the
/// descriptor.  Behind the end of the text stands `Void`.  `L` starts a class name that
/// runs up to the next `;`, `[` makes an array of what follows, and a character that
/// starts no descriptor is `Arbitrary`.
pub open spec fn spec_parse_type(s: Seq<char>, i: int) -> (TypeSignatureView, int)
    decreases s.len() - i,
{
    if i < 0 || i >= s.len() {
        (TypeSignatureView::Void, i)
    } else if s[i] == 'Z' {
        (TypeSignatureView::Boolean, i + 1)
    } else if s[i] == 'B' {
        (TypeSignatureView::Byte, i + 1)
    } else if s[i] == 'C' {
        (TypeSignatureView::Char, i + 1)
    } else if s[i] == 'S' {
        (TypeSignatureView::Short, i + 1)
    } else if s[i] == 'I' {
        (TypeSignatureView::Integer, i + 1)
    } else if s[i] == 'J' {
        (TypeSignatureView::Long, i + 1)
    } else if s[i] == 'F' {
        (TypeSignatureView::Float, i + 1)
    } else if s[i] == 'D' {
        (TypeSignatureView::Double, i + 1)
    } else if s[i] == 'V' {
        (TypeSignatureView::Void, i + 1)
    } else if s[i] == 'L' {
        (
            TypeSignatureView::Class(s.subrange(i + 1, spec_name_end(s, i + 1))),
            if spec_name_end(s, i + 1) < s.len() {
                spec_name_end(s, i + 1) + 1
            } else {
                s.len() as int
            },
        )
    } else if s[i] == '[' {
        (TypeSignatureView::Array(Box::new(spec_parse_type(s, i + 1).0)), spec_parse_type(s, i + 1).1)
    } else {
        (TypeSignatureView::Arbitrary, i + 1)
    }
}

/// The argument types whose descriptors stand one behind the other from `i` on, up to the
/// closing parenthesis or the end of the text; and the position where they end.
pub open spec fn spec_parse_arguments(s: Seq<char>, i: int) -> (Seq<TypeSignatureView>, int)
    decreases s.len() - i,
{
    if i < 0 || i >= s.len() || s[i] == ')' {
        (Seq::empty(), i)
    } else {
        let (head, next) = spec_parse_type(s, i);
        if next <= i || next > s.len() {
            (seq![head], next)
        } else {
            (seq![head] + spec_parse_arguments(s, next).0, spec_parse_arguments(s, next).1)
        }
    }
}

/// The argument types and the return type of the method descriptor `s`, which has the
/// form `(` argument descriptors `)` return descriptor.  A missing return descriptor is
/// `Void`.
pub open spec fn spec_parse_method_signature(s: Seq<char>) -> (Seq<TypeSignatureView>, TypeSignatureView) {
    let start = if s.len() > 0 && s[0] == '(' {
        1int
    } else {
        0int
    };
    let (arguments, close) = spec_parse_arguments(s, start);
    (arguments, spec_parse_type(s, close + 1).0)
}

/// The end of a class name is at or behind its start, and within the text.
pub proof fn lemma_name_end(s: Seq<char>, i: int)
    requires
        0 <= i <= s.len(),
    ensures
        i <= spec_name_end(s, i) <= s.len(),
        spec_name_end(s, i) < s.len() ==> s[spec_name_end(s, i)] == ';',
        forall|j: int| i <= j < spec_name_end(s, i) ==> s[j] != ';',
    decreases s.len() - i,
{
    if i < s.len() && s[i] != ';' {
        lemma_name_end(s, i + 1);
    }
}

/// A descriptor inside the text ends behind its start, and within the text.
pub proof fn lemma_parse_type_advances(s: Seq<char>, i: int)
    requires
        0 <= i < s.len(),
    ensures
        i < spec_parse_type(s, i).1 <= s.len(),
    decreases s.len() - i,
{
    if s[i] == 'L' {
        lemma_name_end(s, i + 1);
    } else if s[i] == '[' {
        if i + 1 < s.len() {
            lemma_parse_type_advances(s, i + 1);
        }
    }
}

fn name_end(text: &str, len: usize, from: usize) -> (r: usize)
    requires
        len == text@.len(),
        from <= len,
    ensures
        r == spec_name_end(text@, from as int),
        from <= r <= len,
{
    let mut i = from;
    while i < len && text.get_char(i) != ';'
        invariant
            from <= i <= len,
            len == text@.len(),
            spec_name_end(text@, from as int) == spec_name_end(text@, i as int),
        decreases len - i,
    {
        i += 1;
    }
    i
}

fn parse_type(text: &str, len: usize, i: usize) -> (r: (TypeSignature, usize))
    requires
        len == text@.len(),
        i <= len,
    ensures
        r.0@ == spec_parse_type(text@, i as int).0,
        r.1 == spec_parse_type(text@, i as int).1,
        i <= r.1 <= len,
    decreases len - i,
{
    if i >= len {
        return (TypeSignature::Void, i);
    }
    let c = text.get_char(i);
    if c == 'Z' {
        (TypeSignature::Boolean, i + 1)
    } else if c == 'B' {
        (TypeSignature::Byte, i + 1)
    } else if c == 'C' {
        (TypeSignature::Char, i + 1)
    } else if c == 'S' {
        (TypeSignature::Short, i + 1)
    } else if c == 'I' {
        (TypeSignature::Integer, i + 1)
    } else if c == 'J' {
        (TypeSignature::Long, i + 1)
    } else if c == 'F' {
        (TypeSignature::Float, i + 1)
    } else if c == 'D' {
        (TypeSignature::Double, i + 1)
    } else if c == 'V' {
        (TypeSignature::Void, i + 1)
    } else if c == 'L' {
        let end = name_end(text, len, i + 1);
        let name = String::from_str(text.substring_char(i + 1, end));
        let next = if end < len {
            end + 1
        } else {
            len
        };
        (TypeSignature::Class(name), next)
    } else if c == '[' {
        let (element, next) = parse_type(text, len, i + 1);
        (TypeSignature::Array(Box::new(element)), next)
    } else {
        (TypeSignature::Arbitrary, i + 1)
    }
}

impl TypeSignature {
    /// The type that the descriptor at the start of `descriptor` names.  What follows the
    /// descriptor is passed over.
    pub fn from(descriptor: String) -> (r: TypeSignature)
        ensures
            r@ == spec_parse_type(descriptor@, 0).0,
    {
        let text = descriptor.as_str();
        let len = text.unicode_len();
        parse_type(text, len, 0).0
    }
}

/// The argument types and the return type of a method descriptor.
pub fn parse_method_signature(signature: &str) -> (r: (Vec<TypeSignature>, TypeSignature))
    ensures
        views(r.0@) == spec_parse_method_signature(signature@).0,
        r.1@ == spec_parse_method_signature(signature@).1,
{
    let len = signature.unicode_len();
    let start: usize = if len > 0 && signature.get_char(0) == '(' {
        1
    } else {
        0
    };
    let mut arguments: Vec<TypeSignature> = Vec::new();
    let mut i = start;
    proof {
        assert(views(arguments@) + spec_parse_arguments(signature@, start as int).0 =~= spec_parse_arguments(
            signature@,
            start as int,
        ).0);
    }
    while i < len && signature.get_char(i) != ')'
        invariant
            start <= i <= len,
            len == signature@.len(),
            spec_parse_arguments(signature@, start as int).0 == views(arguments@) + spec_parse_arguments(
                signature@,
                i as int,
            ).0,
            spec_parse_arguments(signature@, start as int).1 == spec_parse_arguments(signature@, i as int).1,
        decreases len - i,
    {
        proof {
            lemma_parse_type_advances(signature@, i as int);
        }
        let (argument, next) = parse_type(signature, len, i);
        let ghost before = views(arguments@);
        let ghost head = argument@;
        arguments.push(argument);
        proof {
            assert(views(arguments@) =~= before.push(head));
            assert(before + (seq![head] + spec_parse_arguments(signature@, next as int).0) =~= views(arguments@)
                + spec_parse_arguments(signature@, next as int).0);
        }
        i = next;
    }
    proof {
        assert(views(arguments@) + Seq::<TypeSignatureView>::empty() =~= views(arguments@));
    }
    let return_type = if i < len {
        parse_type(signature, len, i + 1).0
    } else {
        TypeSignature::Void
    };
    (arguments, return_type)
}

} // verus!
