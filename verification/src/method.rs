//! The methods of a class.

use crate::attribute::{Attribute, AttributeView};
use crate::bytes::{
    advanced, decoded, lemma_occurs_split, lemma_round_trip_u16, occurs_at, read_u16, spec_read_u16,
    spec_u16_bytes, views, write_u16,
};
use crate::constant_pool::ConstantPoolIndex;
use crate::constant_pool::constant::ConstantView;
use crate::error::Error;
use crate::flags::AccessFlags;
use crate::io::{AttributeLocation, ReadContext};
use crate::version::JavaVersion;
use vstd::prelude::*;

verus! {

/// A method of a class: its flags, the indices of its name and descriptor, and its attributes.
#[derive(Debug, PartialEq, Eq)]
pub struct Method {
    pub access_flags: AccessFlags,
    pub name: ConstantPoolIndex,
    pub descriptor: ConstantPoolIndex,
    pub attributes: Vec<Attribute>,
}

/// The mathematical value of a [`Method`].
pub struct MethodView {
    pub access_flags: AccessFlags,
    pub name: ConstantPoolIndex,
    pub descriptor: ConstantPoolIndex,
    pub attributes: Seq<AttributeView>,
}

impl View for Method {
    type V = MethodView;

    open spec fn view(&self) -> MethodView {
        MethodView {
            access_flags: self.access_flags,
            name: self.name,
            descriptor: self.descriptor,
            attributes: views(self.attributes@),
        }
    }
}

impl MethodView {
    /// Whether reading at the given location of a file of the given version and pool can
    /// produce the value.
    pub open spec fn wf(
        self,
        version: JavaVersion,
        pool: Seq<ConstantView>,
        location: AttributeLocation,
    ) -> bool {
        &&& self.access_flags.wf()
        &&& self.attributes.len() <= 0xFFFF
        &&& Attribute::wf_seq(self.attributes, version, pool, location)
    }

    /// The bytes of the method: flags, name, descriptor, and the counted attributes.
    #[verifier::opaque]
    pub open spec fn spec_write(self) -> Seq<u8> {
        self.access_flags.spec_write() + spec_u16_bytes(self.name.0) + spec_u16_bytes(self.descriptor.0)
            + spec_u16_bytes((self.attributes.len() % 0x1_0000) as u16)
                + Attribute::spec_write_seq(self.attributes)
    }
}

impl Method {
    /// The method that starts at `p`, its attributes read for the given location.
    #[verifier::opaque]
    pub open spec fn spec_read(
        s: Seq<u8>,
        p: int,
        version: JavaVersion,
        pool: Seq<ConstantView>,
        location: AttributeLocation,
    ) -> Result<(MethodView, int), Error> {
        match AccessFlags::spec_read(s, p) {
            Err(e) => Err(e),
            Ok((access_flags, at1)) => match spec_read_u16(s, at1) {
                Err(e) => Err(e),
                Ok((name, at2)) => match spec_read_u16(s, at2) {
                    Err(e) => Err(e),
                    Ok((descriptor, at3)) => match spec_read_u16(s, at3) {
                        Err(e) => Err(e),
                        Ok((n, at4)) => match Attribute::spec_read_seq(s, at4, n as nat, version, pool, location) {
                            Err(e) => Err(e),
                            Ok((attributes, at5)) => Ok(
                                (
                                    MethodView {
                                        access_flags,
                                        name: ConstantPoolIndex(name),
                                        descriptor: ConstantPoolIndex(descriptor),
                                        attributes,
                                    },
                                    at5,
                                ),
                            ),
                        },
                    },
                },
            },
        }
    }

    /// Reads the method at `pos`; the context names the location of its attributes.
    pub fn read(data: &[u8], pos: usize, ctx: &ReadContext) -> (r: Result<(Method, usize), Error>)
        ensures
            decoded(r, Self::spec_read(data@, pos as int, ctx.version, ctx.constant_pool@, ctx.location)),
            advanced(r, data@, pos),
    {
        proof {
            reveal(Method::spec_read);
        }
        let (access_flags, pos1) = match AccessFlags::read(data, pos) {
            Ok(x) => x,
            Err(e) => {
                return Err(e);
            },
        };
        let (name, pos2) = match read_u16(data, pos1) {
            Ok(x) => x,
            Err(e) => {
                return Err(e);
            },
        };
        let (descriptor, pos3) = match read_u16(data, pos2) {
            Ok(x) => x,
            Err(e) => {
                return Err(e);
            },
        };
        let (n, pos4) = match read_u16(data, pos3) {
            Ok(x) => x,
            Err(e) => {
                return Err(e);
            },
        };
        let (attributes, pos5) = match Attribute::read_seq(data, pos4, n as usize, ctx) {
            Ok(x) => x,
            Err(e) => {
                return Err(e);
            },
        };
        Ok(
            (
                Method { access_flags, name: ConstantPoolIndex(name), descriptor: ConstantPoolIndex(descriptor), attributes },
                pos5,
            ),
        )
    }

    pub fn write(&self, out: &mut Vec<u8>)
        ensures
            final(out)@ == old(out)@ + self@.spec_write(),
    {
        self.access_flags.write(out);
        write_u16(out, self.name.0);
        write_u16(out, self.descriptor.0);
        write_u16(out, (self.attributes.len() % 0x1_0000) as u16);
        Attribute::write_seq(&self.attributes, out);
        proof {
            reveal(MethodView::spec_write);
            assert(out@ =~= old(out)@ + self@.spec_write());
        }
    }

    /// A method that was read is such as reading can produce; written it is no longer than
    /// what was taken.
    pub proof fn lemma_read_wf(
        s: Seq<u8>,
        p: int,
        version: JavaVersion,
        pool: Seq<ConstantView>,
        location: AttributeLocation,
    )
        ensures
            Self::spec_read(s, p, version, pool, location) matches Ok((v, q)) ==> v.wf(version, pool, location)
                && q
                >= p + v.spec_write().len() && q <= s.len(),
    {
        reveal(Method::spec_read);
        reveal(MethodView::spec_write);
        AccessFlags::lemma_read_wf(s, p);
        if let Ok((access_flags, at1)) = AccessFlags::spec_read(s, p) {
            if let Ok((name, at2)) = spec_read_u16(s, at1) {
                if let Ok((descriptor, at3)) = spec_read_u16(s, at2) {
                    if let Ok((n, at4)) = spec_read_u16(s, at3) {
                        Attribute::lemma_read_seq_wf(s, at4, n as nat, version, pool, location);
                    }
                }
            }
        }
    }

    /// Reading back a written method that reading can produce yields it.
    pub proof fn lemma_round_trip(
        v: MethodView,
        s: Seq<u8>,
        p: int,
        version: JavaVersion,
        pool: Seq<ConstantView>,
        location: AttributeLocation,
    )
        requires
            v.wf(version, pool, location),
            occurs_at(s, p, v.spec_write()),
        ensures
            Self::spec_read(s, p, version, pool, location) == Ok::<(MethodView, int), Error>(
                (v, p + v.spec_write().len()),
            ),
    {
        reveal(Method::spec_read);
        reveal(MethodView::spec_write);
        let w0 = v.access_flags.spec_write();
        let w1 = spec_u16_bytes(v.name.0);
        let w2 = spec_u16_bytes(v.descriptor.0);
        let w3 = spec_u16_bytes((v.attributes.len() % 0x1_0000) as u16);
        let w4 = Attribute::spec_write_seq(v.attributes);
        lemma_occurs_split(s, p, w0 + w1 + w2 + w3, w4);
        lemma_occurs_split(s, p, w0 + w1 + w2, w3);
        lemma_occurs_split(s, p, w0 + w1, w2);
        lemma_occurs_split(s, p, w0, w1);
        AccessFlags::lemma_round_trip(v.access_flags, s, p);
        lemma_round_trip_u16(v.name.0, s, p + 2);
        lemma_round_trip_u16(v.descriptor.0, s, p + 4);
        lemma_round_trip_u16((v.attributes.len() % 0x1_0000) as u16, s, p + 6);
        Attribute::lemma_round_trip_seq(v.attributes, s, p + 8, version, pool, location);
    }
}

impl Method {
    /// Whether each element is well formed.
    #[verifier::opaque]
    pub open spec fn wf_seq(
        xs: Seq<MethodView>,
        version: JavaVersion,
        pool: Seq<ConstantView>,
        location: AttributeLocation,
    ) -> bool {
        forall|i: int| 0 <= i < xs.len() ==> (#[trigger] xs[i]).wf(version, pool, location)
    }

    /// The elements one after the other, without a count.
    #[verifier::opaque]
    pub open spec fn spec_write_seq(xs: Seq<MethodView>) -> Seq<u8>
        decreases xs.len(),
    {
        if xs.len() == 0 {
            Seq::empty()
        } else {
            Self::spec_write_seq(xs.drop_last()) + xs.last().spec_write()
        }
    }

    /// The `n` elements that start at `p`, read one after the other.
    #[verifier::opaque]
    pub open spec fn spec_read_seq(
        s: Seq<u8>,
        p: int,
        n: nat,
        version: JavaVersion,
        pool: Seq<ConstantView>,
        location: AttributeLocation,
    ) -> Result<(Seq<MethodView>, int), Error>
        decreases n,
    {
        if n == 0 {
            Ok((Seq::empty(), p))
        } else {
            match Self::spec_read_seq(s, p, (n - 1) as nat, version, pool, location) {
                Err(e) => Err(e),
                Ok((xs, q)) => match Self::spec_read(s, q, version, pool, location) {
                    Err(e) => Err(e),
                    Ok((x, q2)) => Ok((xs.push(x), q2)),
                },
            }
        }
    }

    /// Once a prefix fails to read, every longer sequence fails the same way.
    pub proof fn lemma_read_seq_err(
        s: Seq<u8>,
        p: int,
        k: nat,
        n: nat,
        version: JavaVersion,
        pool: Seq<ConstantView>,
        location: AttributeLocation,
    )
        requires
            k <= n,
            Self::spec_read_seq(s, p, k, version, pool, location) is Err,
        ensures
            Self::spec_read_seq(s, p, n, version, pool, location) == Self::spec_read_seq(s, p, k, version, pool, location),
        decreases n,
    {
        reveal(Method::spec_read_seq);
        if k < n {
            Self::lemma_read_seq_err(s, p, k, (n - 1) as nat, version, pool, location);
        }
    }

    /// Reads `n` elements one after the other, the first of them at `pos`.
    pub fn read_seq(
        data: &[u8],
        pos: usize,
        n: usize,
        ctx: &ReadContext,
    ) -> (r: Result<(Vec<Method>, usize), Error>)
        ensures
            match Self::spec_read_seq(data@, pos as int, n as nat, ctx.version, ctx.constant_pool@, ctx.location) {
                Ok((v, p)) => r matches Ok((rv, rp)) && views(rv@) == v && rp as int == p,
                Err(e) => r == Err::<(Vec<Method>, usize), Error>(e),
            },
            advanced(r, data@, pos),
    {
        let mut out: Vec<Method> = Vec::new();
        let mut cur = pos;
        let mut i: usize = 0;
        proof {
            reveal(Method::spec_read_seq);
        }
        assert(views(out@) =~= Seq::<MethodView>::empty());
        while i < n
            invariant
                i <= n,
                pos <= data@.len() ==> pos <= cur <= data@.len(),
                Self::spec_read_seq(data@, pos as int, i as nat, ctx.version, ctx.constant_pool@, ctx.location) == Ok::<(Seq<MethodView>, int), Error>((views(out@), cur as int)),
            decreases n - i,
        {
            proof {
                reveal(Method::spec_read_seq);
            }
            match Self::read(data, cur, ctx) {
                Err(e) => {
                    proof {
                        Self::lemma_read_seq_err(data@, pos as int, (i + 1) as nat, n as nat, ctx.version, ctx.constant_pool@, ctx.location);
                    }
                    return Err(e);
                },
                Ok((x, next)) => {
                    proof {
                        assert(views(out@.push(x)) =~= views(out@).push(x@));
                    }
                    out.push(x);
                    cur = next;
                },
            }
            i += 1;
        }
        Ok((out, cur))
    }

    /// Appends the bytes of the elements, one after the other.
    pub fn write_seq(xs: &Vec<Method>, out: &mut Vec<u8>)
        ensures
            final(out)@ == old(out)@ + Self::spec_write_seq(views(xs@)),
    {
        let mut i: usize = 0;
        proof {
            reveal(Method::spec_write_seq);
        }
        while i < xs.len()
            invariant
                i <= xs.len(),
                out@ == old(out)@ + Self::spec_write_seq(views(xs@).take(i as int)),
            decreases xs.len() - i,
        {
            proof {
                reveal(Method::spec_write_seq);
                let t = views(xs@).take(i + 1);
                assert(t.drop_last() =~= views(xs@).take(i as int));
            }
            xs[i].write(out);
            proof {
                reveal(Method::spec_write_seq);
                assert(out@ =~= old(out)@ + Self::spec_write_seq(views(xs@).take(i + 1)));
            }
            i += 1;
        }
        proof {
            assert(views(xs@).take(xs.len() as int) =~= views(xs@));
        }
    }

    /// Reading back the elements that `spec_write_seq` wrote yields them all.
    pub proof fn lemma_round_trip_seq(
        xs: Seq<MethodView>,
        s: Seq<u8>,
        p: int,
        version: JavaVersion,
        pool: Seq<ConstantView>,
        location: AttributeLocation,
    )
        requires
            Self::wf_seq(xs, version, pool, location),
            occurs_at(s, p, Self::spec_write_seq(xs)),
        ensures
            Self::spec_read_seq(s, p, xs.len(), version, pool, location) == Ok::<(Seq<MethodView>, int), Error>(
                (xs, p + Self::spec_write_seq(xs).len()),
            ),
        decreases xs.len(),
    {
        reveal(Method::spec_read_seq);
        reveal(Method::spec_write_seq);
        reveal(Method::wf_seq);
        if xs.len() > 0 {
            let front = xs.drop_last();
            let w = Self::spec_write_seq(front);
            assert forall|i: int| 0 <= i < front.len() implies (#[trigger] front[i]).wf(version, pool, location) by {
                assert(front[i] == xs[i]);
            }
            assert(xs.last() == xs[xs.len() - 1]);
            lemma_occurs_split(s, p, w, xs.last().spec_write());
            Self::lemma_round_trip_seq(front, s, p, version, pool, location);
            Self::lemma_round_trip(xs.last(), s, p + w.len(), version, pool, location);
            assert(front.push(xs.last()) =~= xs);
        } else {
            assert(xs =~= Seq::<MethodView>::empty());
        }
    }

    /// Elements that were read are as many as were asked for and well formed, and have
    /// no more bytes than were taken.
    pub proof fn lemma_read_seq_wf(
        s: Seq<u8>,
        p: int,
        n: nat,
        version: JavaVersion,
        pool: Seq<ConstantView>,
        location: AttributeLocation,
    )
        ensures
            Self::spec_read_seq(s, p, n, version, pool, location) matches Ok((xs, q)) ==> xs.len() == n
                && Self::wf_seq(xs, version, pool, location)
                && q >= p + Self::spec_write_seq(xs).len() && (p <= s.len() ==> q <= s.len()),
        decreases n,
    {
        reveal(Method::spec_read_seq);
        reveal(Method::spec_write_seq);
        reveal(Method::wf_seq);
        if n > 0 {
            Self::lemma_read_seq_wf(s, p, (n - 1) as nat, version, pool, location);
            if let Ok((front, q)) = Self::spec_read_seq(s, p, (n - 1) as nat, version, pool, location) {
                Self::lemma_read_wf(s, q, version, pool, location);
                if let Ok((x, q2)) = Self::spec_read(s, q, version, pool, location) {
                    let xs = front.push(x);
                    assert(xs.drop_last() =~= front);
                    assert(xs.last() == x);
                    assert forall|i: int| 0 <= i < xs.len() implies (#[trigger] xs[i]).wf(version, pool, location) by {
                        if i < front.len() {
                            assert(xs[i] == front[i]);
                        }
                    }
                }
            }
        }
    }
}

} // verus!
