//! The class file as a whole.

use crate::attribute::{Attribute, AttributeView};
use crate::bytes::{
    advanced, decoded, lemma_occurs_split, lemma_round_trip_u16, lemma_round_trip_u32, occurs_at, read_u16, read_u32,
    spec_read_u16, spec_read_u32, spec_u16_bytes, spec_u32_bytes, views, write_u16, write_u32,
};
use crate::constant_pool::constant::ConstantView;
use crate::constant_pool::{ConstantPool, ConstantPoolIndex, spec_read_pool, spec_wf_pool, spec_write_pool};
use crate::error::Error;
use crate::field::{Field, FieldView};
use crate::flags::AccessFlags;
use crate::io::{AttributeLocation, ReadContext};
use crate::method::{Method, MethodView};
use crate::version::JavaVersion;
use vstd::prelude::*;

verus! {

/// The first four bytes of a class file.
#[derive(Debug, Copy, Clone, PartialEq, Eq)]
pub enum MagicNumber {
    /// `0xCAFEBABE`, as every class file should start.
    Cafebabe,
    /// Any other value, kept as it is.
    Unknown(u32),
}

impl MagicNumber {
    /// The number itself.
    pub open spec fn spec_value(self) -> u32 {
        match self {
            MagicNumber::Cafebabe => 0xCAFEBABE,
            MagicNumber::Unknown(v) => v,
        }
    }

    /// The magic number that a value stands for.
    pub open spec fn spec_of(value: u32) -> MagicNumber {
        if value == 0xCAFEBABE {
            MagicNumber::Cafebabe
        } else {
            MagicNumber::Unknown(value)
        }
    }

    /// Whether reading can produce the value: the expected number is never `Unknown`.
    pub open spec fn wf(self) -> bool {
        self != MagicNumber::Unknown(0xCAFEBABE)
    }

    pub fn value(&self) -> (r: u32)
        ensures
            r == self.spec_value(),
    {
        match self {
            MagicNumber::Cafebabe => 0xCAFEBABE,
            MagicNumber::Unknown(v) => *v,
        }
    }

    pub fn of(value: u32) -> (r: MagicNumber)
        ensures
            r == Self::spec_of(value),
            r.wf(),
            r.spec_value() == value,
    {
        if value == 0xCAFEBABE {
            MagicNumber::Cafebabe
        } else {
            MagicNumber::Unknown(value)
        }
    }
}

/// A class file.
#[derive(Debug, PartialEq, Eq)]
pub struct JavaClass {
    pub magic: MagicNumber,
    pub version: JavaVersion,
    pub constant_pool: ConstantPool,
    pub access_flags: AccessFlags,
    pub this_class: ConstantPoolIndex,
    pub super_class: ConstantPoolIndex,
    pub interfaces: Vec<ConstantPoolIndex>,
    pub fields: Vec<Field>,
    pub methods: Vec<Method>,
    pub attributes: Vec<Attribute>,
}

/// The mathematical value of a [`JavaClass`].
pub struct JavaClassView {
    pub magic: MagicNumber,
    pub version: JavaVersion,
    pub constant_pool: Seq<ConstantView>,
    pub access_flags: AccessFlags,
    pub this_class: ConstantPoolIndex,
    pub super_class: ConstantPoolIndex,
    pub interfaces: Seq<ConstantPoolIndex>,
    pub fields: Seq<FieldView>,
    pub methods: Seq<MethodView>,
    pub attributes: Seq<AttributeView>,
}

impl View for JavaClass {
    type V = JavaClassView;

    open spec fn view(&self) -> JavaClassView {
        JavaClassView {
            magic: self.magic,
            version: self.version,
            constant_pool: self.constant_pool@,
            access_flags: self.access_flags,
            this_class: self.this_class,
            super_class: self.super_class,
            interfaces: self.interfaces@,
            fields: views(self.fields@),
            methods: views(self.methods@),
            attributes: views(self.attributes@),
        }
    }
}

/// What stands in a class file behind the constant pool.
pub struct MembersView {
    pub access_flags: AccessFlags,
    pub this_class: ConstantPoolIndex,
    pub super_class: ConstantPoolIndex,
    pub interfaces: Seq<ConstantPoolIndex>,
    pub fields: Seq<FieldView>,
    pub methods: Seq<MethodView>,
    pub attributes: Seq<AttributeView>,
}

impl MembersView {
    /// Whether reading a file of the given version and pool can produce these members.
    pub open spec fn wf(self, version: JavaVersion, pool: Seq<ConstantView>) -> bool {
        &&& self.access_flags.wf()
        &&& self.interfaces.len() <= 0xFFFF
        &&& self.fields.len() <= 0xFFFF
        &&& Field::wf_seq(self.fields, version, pool, AttributeLocation::Field)
        &&& self.methods.len() <= 0xFFFF
        &&& Method::wf_seq(self.methods, version, pool, AttributeLocation::Method)
        &&& self.attributes.len() <= 0xFFFF
        &&& Attribute::wf_seq(self.attributes, version, pool, AttributeLocation::ClassFile)
    }

    /// The flags and the two class references.
    pub open spec fn spec_write_own(self) -> Seq<u8> {
        self.access_flags.spec_write() + spec_u16_bytes(self.this_class.0)
            + spec_u16_bytes(self.super_class.0)
    }

    /// The counted interfaces, fields, methods and attributes, in this order.
    pub open spec fn spec_write_lists(self) -> Seq<u8> {
        spec_u16_bytes((self.interfaces.len() % 0x1_0000) as u16)
            + ConstantPoolIndex::spec_write_seq(self.interfaces)
            + spec_u16_bytes((self.fields.len() % 0x1_0000) as u16) + Field::spec_write_seq(self.fields)
            + spec_u16_bytes((self.methods.len() % 0x1_0000) as u16) + Method::spec_write_seq(self.methods)
            + spec_u16_bytes((self.attributes.len() % 0x1_0000) as u16)
                + Attribute::spec_write_seq(self.attributes)
    }

    #[verifier::opaque]
    pub open spec fn spec_write(self) -> Seq<u8> {
        self.spec_write_own() + self.spec_write_lists()
    }
}

impl JavaClassView {
    /// What stands behind the constant pool.
    pub open spec fn members(self) -> MembersView {
        MembersView {
            access_flags: self.access_flags,
            this_class: self.this_class,
            super_class: self.super_class,
            interfaces: self.interfaces,
            fields: self.fields,
            methods: self.methods,
            attributes: self.attributes,
        }
    }

    /// Whether reading can produce this class file.
    pub open spec fn wf(self) -> bool {
        &&& self.magic.wf()
        &&& spec_wf_pool(self.constant_pool, self.version)
        &&& self.members().wf(self.version, self.constant_pool)
    }

    /// The magic number, the version (minor before major) and the constant pool.
    pub open spec fn spec_write_head(self) -> Seq<u8> {
        spec_u32_bytes(self.magic.spec_value()) + spec_u16_bytes(self.version.minor) + spec_u16_bytes(
            self.version.major,
        ) + spec_write_pool(self.constant_pool)
    }

    /// The bytes of the class file.
    pub open spec fn spec_write(self) -> Seq<u8> {
        self.spec_write_head() + self.members().spec_write()
    }
}

/// The four counted lists that end a class file, from `p` on.
#[verifier::opaque]
pub open spec fn spec_read_lists(s: Seq<u8>, p: int, version: JavaVersion, pool: Seq<ConstantView>) -> Result<
    (Seq<ConstantPoolIndex>, Seq<FieldView>, Seq<MethodView>, Seq<AttributeView>, int),
    Error,
> {
    match spec_read_u16(s, p) {
        Err(e) => Err(e),
        Ok((n_interfaces, at1)) => match ConstantPoolIndex::spec_read_seq(s, at1, n_interfaces as nat) {
            Err(e) => Err(e),
            Ok((interfaces, at2)) => match spec_read_u16(s, at2) {
                Err(e) => Err(e),
                Ok((n_fields, at3)) => match Field::spec_read_seq(
                    s,
                    at3,
                    n_fields as nat,
                    version,
                    pool,
                    AttributeLocation::Field,
                ) {
                    Err(e) => Err(e),
                    Ok((fields, at4)) => match spec_read_u16(s, at4) {
                        Err(e) => Err(e),
                        Ok((n_methods, at5)) => match Method::spec_read_seq(
                            s,
                            at5,
                            n_methods as nat,
                            version,
                            pool,
                            AttributeLocation::Method,
                        ) {
                            Err(e) => Err(e),
                            Ok((methods, at6)) => match spec_read_u16(s, at6) {
                                Err(e) => Err(e),
                                Ok((n_attributes, at7)) => match Attribute::spec_read_seq(
                                    s,
                                    at7,
                                    n_attributes as nat,
                                    version,
                                    pool,
                                    AttributeLocation::ClassFile,
                                ) {
                                    Err(e) => Err(e),
                                    Ok((attributes, at8)) => Ok((interfaces, fields, methods, attributes, at8)),
                                },
                            },
                        },
                    },
                },
            },
        },
    }
}

/// What stands behind the constant pool, from `p` on.
#[verifier::opaque]
pub open spec fn spec_read_members(
    s: Seq<u8>,
    p: int,
    version: JavaVersion,
    pool: Seq<ConstantView>,
) -> Result<
    (MembersView, int),
    Error,
> {
    match AccessFlags::spec_read(s, p) {
        Err(e) => Err(e),
        Ok((access_flags, at1)) => match spec_read_u16(s, at1) {
            Err(e) => Err(e),
            Ok((this_class, at2)) => match spec_read_u16(s, at2) {
                Err(e) => Err(e),
                Ok((super_class, at3)) => match spec_read_lists(s, at3, version, pool) {
                    Err(e) => Err(e),
                    Ok((interfaces, fields, methods, attributes, at4)) => Ok(
                        (
                            MembersView {
                                access_flags,
                                this_class: ConstantPoolIndex(this_class),
                                super_class: ConstantPoolIndex(super_class),
                                interfaces,
                                fields,
                                methods,
                                attributes,
                            },
                            at4,
                        ),
                    ),
                },
            },
        },
    }
}

/// The magic number, the version and the constant pool that start the class file at `p`.
#[verifier::opaque]
pub open spec fn spec_read_head(
    s: Seq<u8>,
    p: int,
) -> Result<(MagicNumber, JavaVersion, Seq<ConstantView>, int), Error> {
    match spec_read_u32(s, p) {
        Err(e) => Err(e),
        Ok((magic, at1)) => match spec_read_u16(s, at1) {
            Err(e) => Err(e),
            Ok((minor, at2)) => match spec_read_u16(s, at2) {
                Err(e) => Err(e),
                Ok((major, at3)) => match spec_read_pool(s, at3, JavaVersion { major, minor }) {
                    Err(e) => Err(e),
                    Ok((pool, at4)) => Ok((MagicNumber::spec_of(magic), JavaVersion { major, minor }, pool, at4)),
                },
            },
        },
    }
}

impl JavaClass {
    /// The class file that starts at `p`, and the position behind it.
    pub open spec fn spec_read(s: Seq<u8>, p: int) -> Result<(JavaClassView, int), Error> {
        match spec_read_head(s, p) {
            Err(e) => Err(e),
            Ok((magic, version, pool, q)) => match spec_read_members(s, q, version, pool) {
                Err(e) => Err(e),
                Ok((m, end)) => Ok(
                    (
                        JavaClassView {
                            magic,
                            version,
                            constant_pool: pool,
                            access_flags: m.access_flags,
                            this_class: m.this_class,
                            super_class: m.super_class,
                            interfaces: m.interfaces,
                            fields: m.fields,
                            methods: m.methods,
                            attributes: m.attributes,
                        },
                        end,
                    ),
                ),
            },
        }
    }

    fn read_head(data: &[u8], pos: usize) -> (r: Result<(MagicNumber, JavaVersion, ConstantPool, usize), Error>)
        ensures
            match spec_read_head(data@, pos as int) {
                Ok((magic, version, pool, p)) => r matches Ok((rm, rv, rpool, rp)) && rm == magic
                    && rv == version
                    && rpool@ == pool && rp as int == p,
                Err(e) => r == Err::<(MagicNumber, JavaVersion, ConstantPool, usize), Error>(e),
            },
            pos <= data@.len() ==> (r matches Ok((_, _, _, rp)) ==> pos <= rp <= data@.len()),
    {
        proof {
            reveal(spec_read_head);
        }
        let (magic, pos1) = match read_u32(data, pos) {
            Ok(x) => x,
            Err(e) => {
                return Err(e);
            },
        };
        let (minor, pos2) = match read_u16(data, pos1) {
            Ok(x) => x,
            Err(e) => {
                return Err(e);
            },
        };
        let (major, pos3) = match read_u16(data, pos2) {
            Ok(x) => x,
            Err(e) => {
                return Err(e);
            },
        };
        let version = JavaVersion { major, minor };
        let (pool, pos4) = match ConstantPool::read(data, pos3, &version) {
            Ok(x) => x,
            Err(e) => {
                return Err(e);
            },
        };
        Ok((MagicNumber::of(magic), version, pool, pos4))
    }

    fn read_lists(data: &[u8], pos: usize, ctx: &ReadContext) -> (r: Result<
        (Vec<ConstantPoolIndex>, Vec<Field>, Vec<Method>, Vec<Attribute>, usize),
        Error,
    >)
        ensures
            match spec_read_lists(data@, pos as int, ctx.version, ctx.constant_pool@) {
                Ok((interfaces, fields, methods, attributes, end)) => r matches Ok((ri, rf, rm, ra, rp))
                    && ri@ == interfaces
                    && views(rf@) == fields && views(rm@) == methods && views(ra@) == attributes
                    && rp as int == end,
                Err(e) => r == Err::<(Vec<ConstantPoolIndex>, Vec<Field>, Vec<Method>, Vec<Attribute>, usize), Error>(
                    e,
                ),
            },
            pos <= data@.len() ==> (r matches Ok((_, _, _, _, rp)) ==> pos <= rp <= data@.len()),
    {
        proof {
            reveal(spec_read_lists);
        }
        let (n_interfaces, pos1) = match read_u16(data, pos) {
            Ok(x) => x,
            Err(e) => {
                return Err(e);
            },
        };
        let (interfaces, pos2) = match ConstantPoolIndex::read_seq(data, pos1, n_interfaces as usize) {
            Ok(x) => x,
            Err(e) => {
                return Err(e);
            },
        };
        let (n_fields, pos3) = match read_u16(data, pos2) {
            Ok(x) => x,
            Err(e) => {
                return Err(e);
            },
        };
        let (fields, pos4) = match Field::read_seq(data, pos3, n_fields as usize, &ctx.at(AttributeLocation::Field)) {
            Ok(x) => x,
            Err(e) => {
                return Err(e);
            },
        };
        let (n_methods, pos5) = match read_u16(data, pos4) {
            Ok(x) => x,
            Err(e) => {
                return Err(e);
            },
        };
        let (methods, pos6) = match Method::read_seq(data, pos5, n_methods as usize, &ctx.at(AttributeLocation::Method)) {
            Ok(x) => x,
            Err(e) => {
                return Err(e);
            },
        };
        let (n_attributes, pos7) = match read_u16(data, pos6) {
            Ok(x) => x,
            Err(e) => {
                return Err(e);
            },
        };
        let (attributes, pos8) = match Attribute::read_seq(
            data,
            pos7,
            n_attributes as usize,
            &ctx.at(AttributeLocation::ClassFile),
        ) {
            Ok(x) => x,
            Err(e) => {
                return Err(e);
            },
        };
        Ok((interfaces, fields, methods, attributes, pos8))
    }

    /// Decodes the class file that starts at `pos`, and gives the position behind it.  The
    /// class file that comes out is one that encoding and decoding again gives back, unless
    /// its constant pool has more entries than the count field of a pool can say.
    pub fn read(data: &[u8], pos: usize) -> (r: Result<(JavaClass, usize), Error>)
        ensures
            decoded(r, Self::spec_read(data@, pos as int)),
            advanced(r, data@, pos),
            r matches Ok((class, _)) ==> class.constant_pool@.len() <= 0xFFFF ==> class@.wf(),
    {
        proof {
            reveal(spec_read_members);
            Self::lemma_read_wf(data@, pos as int);
        }
        let (magic, version, constant_pool, pos0) = match Self::read_head(data, pos) {
            Ok(x) => x,
            Err(e) => {
                return Err(e);
            },
        };
        let (access_flags, pos1) = match AccessFlags::read(data, pos0) {
            Ok(x) => x,
            Err(e) => {
                return Err(e);
            },
        };
        let (this_class, pos2) = match read_u16(data, pos1) {
            Ok(x) => x,
            Err(e) => {
                return Err(e);
            },
        };
        let (super_class, pos3) = match read_u16(data, pos2) {
            Ok(x) => x,
            Err(e) => {
                return Err(e);
            },
        };
        let ctx = ReadContext::new(version, &constant_pool, AttributeLocation::ClassFile);
        let (interfaces, fields, methods, attributes, end) = match Self::read_lists(data, pos3, &ctx) {
            Ok(x) => x,
            Err(e) => {
                return Err(e);
            },
        };
        Ok(
            (
                JavaClass {
                    magic,
                    version,
                    constant_pool,
                    access_flags,
                    this_class: ConstantPoolIndex(this_class),
                    super_class: ConstantPoolIndex(super_class),
                    interfaces,
                    fields,
                    methods,
                    attributes,
                },
                end,
            ),
        )
    }

    /// Appends the bytes of the class file.
    pub fn write(&self, out: &mut Vec<u8>)
        ensures
            final(out)@ == old(out)@ + self@.spec_write(),
    {
        write_u32(out, self.magic.value());
        write_u16(out, self.version.minor);
        write_u16(out, self.version.major);
        self.constant_pool.write(out);
        let ghost mid = out@;
        proof {
            assert(mid =~= old(out)@ + self@.spec_write_head());
        }
        self.access_flags.write(out);
        write_u16(out, self.this_class.0);
        write_u16(out, self.super_class.0);
        write_u16(out, (self.interfaces.len() % 0x1_0000) as u16);
        ConstantPoolIndex::write_seq(&self.interfaces, out);
        write_u16(out, (self.fields.len() % 0x1_0000) as u16);
        Field::write_seq(&self.fields, out);
        write_u16(out, (self.methods.len() % 0x1_0000) as u16);
        Method::write_seq(&self.methods, out);
        write_u16(out, (self.attributes.len() % 0x1_0000) as u16);
        Attribute::write_seq(&self.attributes, out);
        proof {
            reveal(MembersView::spec_write);
            assert(out@ =~= mid + self@.members().spec_write());
            assert(out@ =~= old(out)@ + self@.spec_write());
        }
    }

    /// The bytes of the class file.
    pub fn to_bytes(&self) -> (r: Vec<u8>)
        ensures
            r@ == self@.spec_write(),
    {
        let mut out: Vec<u8> = Vec::new();
        self.write(&mut out);
        proof {
            assert(out@ =~= self@.spec_write());
        }
        out
    }

    proof fn lemma_round_trip_head(c: JavaClassView, s: Seq<u8>, p: int)
        requires
            c.magic.wf(),
            spec_wf_pool(c.constant_pool, c.version),
            occurs_at(s, p, c.spec_write_head()),
        ensures
            spec_read_head(s, p) == Ok::<(MagicNumber, JavaVersion, Seq<ConstantView>, int), Error>(
                (c.magic, c.version, c.constant_pool, p + c.spec_write_head().len()),
            ),
    {
        reveal(spec_read_head);
        let w0 = spec_u32_bytes(c.magic.spec_value());
        let w1 = spec_u16_bytes(c.version.minor);
        let w2 = spec_u16_bytes(c.version.major);
        let w3 = spec_write_pool(c.constant_pool);
        lemma_occurs_split(s, p, w0 + w1 + w2, w3);
        lemma_occurs_split(s, p, w0 + w1, w2);
        lemma_occurs_split(s, p, w0, w1);
        lemma_round_trip_u32(c.magic.spec_value(), s, p);
        lemma_round_trip_u16(c.version.minor, s, p + 4);
        lemma_round_trip_u16(c.version.major, s, p + 6);
        ConstantPool::lemma_round_trip(c.constant_pool, s, p + 8, c.version);
    }

    #[verifier::rlimit(50)]
    proof fn lemma_round_trip_lists(
        m: MembersView,
        s: Seq<u8>,
        p: int,
        version: JavaVersion,
        pool: Seq<ConstantView>,
    )
        requires
            m.wf(version, pool),
            occurs_at(s, p, m.spec_write_lists()),
        ensures
            spec_read_lists(s, p, version, pool) == Ok::<
                (Seq<ConstantPoolIndex>, Seq<FieldView>, Seq<MethodView>, Seq<AttributeView>, int),
                Error,
            >((m.interfaces, m.fields, m.methods, m.attributes, p + m.spec_write_lists().len())),
    {
        reveal(spec_read_lists);
        let w0 = spec_u16_bytes((m.interfaces.len() % 0x1_0000) as u16);
        let w1 = ConstantPoolIndex::spec_write_seq(m.interfaces);
        let w2 = spec_u16_bytes((m.fields.len() % 0x1_0000) as u16);
        let w3 = Field::spec_write_seq(m.fields);
        let w4 = spec_u16_bytes((m.methods.len() % 0x1_0000) as u16);
        let w5 = Method::spec_write_seq(m.methods);
        let w6 = spec_u16_bytes((m.attributes.len() % 0x1_0000) as u16);
        let w7 = Attribute::spec_write_seq(m.attributes);
        let a1 = w0 + w1;
        let a2 = a1 + w2;
        let a3 = a2 + w3;
        let a4 = a3 + w4;
        let a5 = a4 + w5;
        let a6 = a5 + w6;
        lemma_occurs_split(s, p, a6, w7);
        lemma_occurs_split(s, p, a5, w6);
        lemma_occurs_split(s, p, a4, w5);
        lemma_occurs_split(s, p, a3, w4);
        lemma_occurs_split(s, p, a2, w3);
        lemma_occurs_split(s, p, a1, w2);
        lemma_occurs_split(s, p, w0, w1);
        lemma_round_trip_u16((m.interfaces.len() % 0x1_0000) as u16, s, p);
        assert(ConstantPoolIndex::wf_seq(m.interfaces)) by {
            reveal(ConstantPoolIndex::wf_seq);
        }
        ConstantPoolIndex::lemma_round_trip_seq(m.interfaces, s, p + w0.len());
        lemma_round_trip_u16((m.fields.len() % 0x1_0000) as u16, s, p + a1.len());
        Field::lemma_round_trip_seq(m.fields, s, p + a2.len(), version, pool, AttributeLocation::Field);
        lemma_round_trip_u16((m.methods.len() % 0x1_0000) as u16, s, p + a3.len());
        Method::lemma_round_trip_seq(m.methods, s, p + a4.len(), version, pool, AttributeLocation::Method);
        lemma_round_trip_u16((m.attributes.len() % 0x1_0000) as u16, s, p + a5.len());
        Attribute::lemma_round_trip_seq(m.attributes, s, p + a6.len(), version, pool, AttributeLocation::ClassFile);
    }

    proof fn lemma_round_trip_members(
        m: MembersView,
        s: Seq<u8>,
        p: int,
        version: JavaVersion,
        pool: Seq<ConstantView>,
    )
        requires
            m.wf(version, pool),
            occurs_at(s, p, m.spec_write()),
        ensures
            spec_read_members(s, p, version, pool) == Ok::<(MembersView, int), Error>((m, p + m.spec_write().len())),
    {
        reveal(spec_read_members);
        reveal(MembersView::spec_write);
        let w0 = m.access_flags.spec_write();
        let w1 = spec_u16_bytes(m.this_class.0);
        let w2 = spec_u16_bytes(m.super_class.0);
        lemma_occurs_split(s, p, w0 + w1 + w2, m.spec_write_lists());
        lemma_occurs_split(s, p, w0 + w1, w2);
        lemma_occurs_split(s, p, w0, w1);
        AccessFlags::lemma_round_trip(m.access_flags, s, p);
        lemma_round_trip_u16(m.this_class.0, s, p + 2);
        lemma_round_trip_u16(m.super_class.0, s, p + 4);
        Self::lemma_round_trip_lists(m, s, p + 6, version, pool);
    }

    /// The members of a class file that were read are such as reading can produce.
    #[verifier::rlimit(50)]
    proof fn lemma_read_members_wf(s: Seq<u8>, p: int, version: JavaVersion, pool: Seq<ConstantView>)
        requires
            0 <= p <= s.len(),
        ensures
            spec_read_members(s, p, version, pool) matches Ok((m, _)) ==> m.wf(version, pool),
    {
        reveal(spec_read_members);
        reveal(spec_read_lists);
        AccessFlags::lemma_read_wf(s, p);
        if let Ok((access_flags, at1)) = AccessFlags::spec_read(s, p) {
            if let Ok((this_class, at2)) = spec_read_u16(s, at1) {
                if let Ok((super_class, at3)) = spec_read_u16(s, at2) {
                    if let Ok((n_interfaces, q1)) = spec_read_u16(s, at3) {
                        ConstantPoolIndex::lemma_read_seq_wf(s, q1, n_interfaces as nat);
                        if let Ok((interfaces, q2)) = ConstantPoolIndex::spec_read_seq(s, q1, n_interfaces as nat) {
                            if let Ok((n_fields, q3)) = spec_read_u16(s, q2) {
                                Field::lemma_read_seq_wf(s, q3, n_fields as nat, version, pool, AttributeLocation::Field);
                                if let Ok((fields, q4)) = Field::spec_read_seq(
                                    s,
                                    q3,
                                    n_fields as nat,
                                    version,
                                    pool,
                                    AttributeLocation::Field,
                                ) {
                                    if let Ok((n_methods, q5)) = spec_read_u16(s, q4) {
                                        Method::lemma_read_seq_wf(
                                            s,
                                            q5,
                                            n_methods as nat,
                                            version,
                                            pool,
                                            AttributeLocation::Method,
                                        );
                                        if let Ok((methods, q6)) = Method::spec_read_seq(
                                            s,
                                            q5,
                                            n_methods as nat,
                                            version,
                                            pool,
                                            AttributeLocation::Method,
                                        ) {
                                            if let Ok((n_attributes, q7)) = spec_read_u16(s, q6) {
                                                Attribute::lemma_read_seq_wf(
                                                    s,
                                                    q7,
                                                    n_attributes as nat,
                                                    version,
                                                    pool,
                                                    AttributeLocation::ClassFile,
                                                );
                                            }
                                        }
                                    }
                                }
                            }
                        }
                    }
                }
            }
        }
    }

    /// A class file that was read is one that reading can produce again from what it is
    /// written as, unless its constant pool has more entries than the count field of a pool
    /// can say.
    pub proof fn lemma_read_wf(s: Seq<u8>, p: int)
        ensures
            Self::spec_read(s, p) matches Ok((c, _)) ==> c.constant_pool.len() <= 0xFFFF ==> c.wf(),
    {
        reveal(spec_read_head);
        if let Ok((magic, at1)) = spec_read_u32(s, p) {
            if let Ok((minor, at2)) = spec_read_u16(s, at1) {
                if let Ok((major, at3)) = spec_read_u16(s, at2) {
                    let version = JavaVersion { major, minor };
                    ConstantPool::lemma_read_wf(s, at3, version);
                    if let Ok((pool, at4)) = spec_read_pool(s, at3, version) {
                        Self::lemma_read_members_wf(s, at4, version, pool);
                    }
                }
            }
        }
    }

    /// Decoding the encoding of a class file yields the class file again, and ends right
    /// behind the encoding: for every value that decoding can produce at all, whatever its
    /// version, and whatever stands before and behind the encoding in the input.
    pub proof fn lemma_round_trip(c: JavaClassView, s: Seq<u8>, p: int)
        requires
            c.wf(),
            occurs_at(s, p, c.spec_write()),
        ensures
            Self::spec_read(s, p) == Ok::<(JavaClassView, int), Error>((c, p + c.spec_write().len())),
    {
        let head = c.spec_write_head();
        let members = c.members().spec_write();
        lemma_occurs_split(s, p, head, members);
        Self::lemma_round_trip_head(c, s, p);
        Self::lemma_round_trip_members(c.members(), s, p + head.len(), c.version, c.constant_pool);
    }
}

} // verus!
