//! Parts of the `Module` attribute.

use crate::bytes::{
    advanced, decoded, lemma_occurs_split, lemma_round_trip_u16, occurs_at, read_u16, spec_read_u16,
    spec_u16_bytes, write_u16,
};
use crate::constant_pool::ConstantPoolIndex;
use crate::error::Error;
use crate::flags::ModuleDependencyFlags;
use vstd::prelude::*;

verus! {

/// A dependency of a module.
#[derive(Debug, Clone, PartialEq, Eq)]
pub struct ModuleRequires {
    /// The module depended on.
    pub requires_index: ConstantPoolIndex,
    /// Flags of the dependency.
    pub flags: ModuleDependencyFlags,
    /// Version of the module depended on, if recorded.
    pub version: ConstantPoolIndex,
}

impl View for ModuleRequires {
    type V = ModuleRequires;

    open spec fn view(&self) -> ModuleRequires {
        *self
    }
}

impl ModuleRequires {
    /// Whether every count fits its length field and every part is itself well formed.
    pub open spec fn wf(self) -> bool {
        &&& self.requires_index.wf()
        &&& self.flags.wf()
        &&& self.version.wf()
    }

    /// The bytes of the record: its fields in declaration order.
    #[verifier::opaque]
    pub open spec fn spec_write(self) -> Seq<u8> {
        self.requires_index.spec_write() + self.flags.spec_write() + self.version.spec_write()
    }
}

impl ModuleRequires {
    /// The record that starts at position `p` of `s`, with the position behind it.
    #[verifier::opaque]
    pub open spec fn spec_read(s: Seq<u8>, p: int) -> Result<(ModuleRequires, int), Error> {
        match ConstantPoolIndex::spec_read(s, p) {
            Err(e) => Err(e),
            Ok((requires_index, at1)) => {
                match ModuleDependencyFlags::spec_read(s, at1) {
                    Err(e) => Err(e),
                    Ok((flags, at2)) => {
                        match ConstantPoolIndex::spec_read(s, at2) {
                            Err(e) => Err(e),
                            Ok((version, at3)) => {
                                Ok((ModuleRequires { requires_index, flags, version }, at3))
                            },
                        }
                    },
                }
            },
        }
    }

    /// Reads the record that starts at `pos`.
    pub fn read(data: &[u8], pos: usize) -> (r: Result<(ModuleRequires, usize), Error>)
        ensures
            decoded(r, Self::spec_read(data@, pos as int)),
            advanced(r, data@, pos),
    {
        proof {
            reveal(ModuleRequires::spec_read);
        }
        let (requires_index, pos1) = match ConstantPoolIndex::read(data, pos) {
            Ok(x) => x,
            Err(e) => return Err(e),
        };
        let (flags, pos2) = match ModuleDependencyFlags::read(data, pos1) {
            Ok(x) => x,
            Err(e) => return Err(e),
        };
        let (version, pos3) = match ConstantPoolIndex::read(data, pos2) {
            Ok(x) => x,
            Err(e) => return Err(e),
        };
        Ok((ModuleRequires { requires_index, flags, version }, pos3))
    }

    /// Appends the bytes of the record.
    pub fn write(&self, out: &mut Vec<u8>)
        ensures
            final(out)@ == old(out)@ + self@.spec_write(),
    {
        self.requires_index.write(out);
        self.flags.write(out);
        self.version.write(out);
        proof {
            reveal(ModuleRequires::spec_write);
            assert(out@ =~= old(out)@ + self@.spec_write());
        }
    }

    /// Reading back what `spec_write` gives for a well-formed record yields the record.
    pub proof fn lemma_round_trip(v: ModuleRequires, s: Seq<u8>, p: int)
        requires
            v.wf(),
            occurs_at(s, p, v.spec_write()),
        ensures
            Self::spec_read(s, p) == Ok::<(ModuleRequires, int), Error>((v, p + v.spec_write().len())),
    {
        reveal(ModuleRequires::spec_read);
        reveal(ModuleRequires::spec_write);
        let w0 = v.requires_index.spec_write();
        let w1 = v.flags.spec_write();
        let w2 = v.version.spec_write();
        let a1 = w0 + w1;
        assert(a1.len() == w0.len() + w1.len());
        let a2 = a1 + w2;
        assert(a2.len() == a1.len() + w2.len());
        lemma_occurs_split(s, p, a1, w2);
        lemma_occurs_split(s, p, w0, w1);
        ConstantPoolIndex::lemma_round_trip(v.requires_index, s, p);
        ModuleDependencyFlags::lemma_round_trip(v.flags, s, p + w0.len());
        ConstantPoolIndex::lemma_round_trip(v.version, s, p + a1.len());
    }

    /// A record that was read is well formed, and has as many bytes as were taken.
    pub proof fn lemma_read_wf(s: Seq<u8>, p: int)
        ensures
            Self::spec_read(s, p) matches Ok((v, q)) ==> v.wf() && q == p + v.spec_write().len()
                && q <= s.len(),
    {
        reveal(ModuleRequires::spec_read);
        reveal(ModuleRequires::spec_write);
        ConstantPoolIndex::lemma_read_wf(s, p);
        if let Ok((requires_index, at1)) = ConstantPoolIndex::spec_read(s, p) {
            ModuleDependencyFlags::lemma_read_wf(s, at1);
            if let Ok((flags, at2)) = ModuleDependencyFlags::spec_read(s, at1) {
                ConstantPoolIndex::lemma_read_wf(s, at2);
                if let Ok((version, at3)) = ConstantPoolIndex::spec_read(s, at2) {
                }
            }
        }
    }
}

/// A package exported by a module.
#[derive(Debug, Clone, PartialEq, Eq)]
pub struct ModuleExports {
    /// The exported package.
    pub export: ConstantPoolIndex,
    /// Flags of the export.
    pub flags: ModuleDependencyFlags,
    /// Modules the package is exported to.
    pub to: Vec<ConstantPoolIndex>,
}

/// The mathematical value of a [`ModuleExports`].
pub struct ModuleExportsView {
    pub export: ConstantPoolIndex,
    pub flags: ModuleDependencyFlags,
    pub to: Seq<ConstantPoolIndex>,
}

impl View for ModuleExports {
    type V = ModuleExportsView;

    open spec fn view(&self) -> ModuleExportsView {
        ModuleExportsView {
            export: self.export,
            flags: self.flags,
            to: self.to@,
        }
    }
}

impl ModuleExportsView {
    /// Whether every count fits its length field and every part is itself well formed.
    pub open spec fn wf(self) -> bool {
        &&& self.export.wf()
        &&& self.flags.wf()
        &&& self.to.len() <= 0xFFFF
        &&& ConstantPoolIndex::wf_seq(self.to)
    }

    /// The bytes of the record: its fields in declaration order.
    #[verifier::opaque]
    pub open spec fn spec_write(self) -> Seq<u8> {
        self.export.spec_write() + self.flags.spec_write() + spec_u16_bytes((self.to.len() % 0x1_0000) as u16)
            + ConstantPoolIndex::spec_write_seq(self.to)
    }
}

impl ModuleExports {
    /// The record that starts at position `p` of `s`, with the position behind it.
    #[verifier::opaque]
    pub open spec fn spec_read(s: Seq<u8>, p: int) -> Result<(ModuleExportsView, int), Error> {
        match ConstantPoolIndex::spec_read(s, p) {
            Err(e) => Err(e),
            Ok((export, at1)) => {
                match ModuleDependencyFlags::spec_read(s, at1) {
                    Err(e) => Err(e),
                    Ok((flags, at2)) => {
                        match spec_read_u16(s, at2) {
                            Err(e) => Err(e),
                            Ok((n_to, at3)) => {
                                match ConstantPoolIndex::spec_read_seq(s, at3, n_to as nat) {
                                    Err(e) => Err(e),
                                    Ok((to, at4)) => {
                                        Ok((ModuleExportsView { export, flags, to }, at4))
                                    },
                                }
                            },
                        }
                    },
                }
            },
        }
    }

    /// Reads the record that starts at `pos`.
    pub fn read(data: &[u8], pos: usize) -> (r: Result<(ModuleExports, usize), Error>)
        ensures
            decoded(r, Self::spec_read(data@, pos as int)),
            advanced(r, data@, pos),
    {
        proof {
            reveal(ModuleExports::spec_read);
        }
        let (export, pos1) = match ConstantPoolIndex::read(data, pos) {
            Ok(x) => x,
            Err(e) => return Err(e),
        };
        let (flags, pos2) = match ModuleDependencyFlags::read(data, pos1) {
            Ok(x) => x,
            Err(e) => return Err(e),
        };
        let (n_to, pos3) = match read_u16(data, pos2) {
            Ok(x) => x,
            Err(e) => return Err(e),
        };
        let (to, pos4) = match ConstantPoolIndex::read_seq(data, pos3, n_to as usize) {
            Ok(x) => x,
            Err(e) => return Err(e),
        };
        Ok((ModuleExports { export, flags, to }, pos4))
    }

    /// Appends the bytes of the record.
    pub fn write(&self, out: &mut Vec<u8>)
        ensures
            final(out)@ == old(out)@ + self@.spec_write(),
    {
        self.export.write(out);
        self.flags.write(out);
        write_u16(out, (self.to.len() % 0x1_0000) as u16);
        ConstantPoolIndex::write_seq(&self.to, out);
        proof {
            reveal(ModuleExportsView::spec_write);
            assert(out@ =~= old(out)@ + self@.spec_write());
        }
    }

    /// Reading back what `spec_write` gives for a well-formed record yields the record.
    pub proof fn lemma_round_trip(v: ModuleExportsView, s: Seq<u8>, p: int)
        requires
            v.wf(),
            occurs_at(s, p, v.spec_write()),
        ensures
            Self::spec_read(s, p) == Ok::<(ModuleExportsView, int), Error>((v, p + v.spec_write().len())),
    {
        reveal(ModuleExports::spec_read);
        reveal(ModuleExportsView::spec_write);
        let w0 = v.export.spec_write();
        let w1 = v.flags.spec_write();
        let w2 = spec_u16_bytes((v.to.len() % 0x1_0000) as u16);
        let w3 = ConstantPoolIndex::spec_write_seq(v.to);
        let a1 = w0 + w1;
        assert(a1.len() == w0.len() + w1.len());
        let a2 = a1 + w2;
        assert(a2.len() == a1.len() + w2.len());
        let a3 = a2 + w3;
        assert(a3.len() == a2.len() + w3.len());
        lemma_occurs_split(s, p, a2, w3);
        lemma_occurs_split(s, p, a1, w2);
        lemma_occurs_split(s, p, w0, w1);
        ConstantPoolIndex::lemma_round_trip(v.export, s, p);
        ModuleDependencyFlags::lemma_round_trip(v.flags, s, p + w0.len());
        lemma_round_trip_u16((v.to.len() % 0x1_0000) as u16, s, p + a1.len());
        ConstantPoolIndex::lemma_round_trip_seq(v.to, s, p + a2.len());
    }

    /// A record that was read is well formed, and has as many bytes as were taken.
    pub proof fn lemma_read_wf(s: Seq<u8>, p: int)
        ensures
            Self::spec_read(s, p) matches Ok((v, q)) ==> v.wf() && q == p + v.spec_write().len()
                && q <= s.len(),
    {
        reveal(ModuleExports::spec_read);
        reveal(ModuleExportsView::spec_write);
        ConstantPoolIndex::lemma_read_wf(s, p);
        if let Ok((export, at1)) = ConstantPoolIndex::spec_read(s, p) {
            ModuleDependencyFlags::lemma_read_wf(s, at1);
            if let Ok((flags, at2)) = ModuleDependencyFlags::spec_read(s, at1) {
                if let Ok((n_to, at3)) = spec_read_u16(s, at2) {
                    ConstantPoolIndex::lemma_read_seq_wf(s, at3, n_to as nat);
                    if let Ok((to, at4)) = ConstantPoolIndex::spec_read_seq(s, at3, n_to as nat) {
                    }
                }
            }
        }
    }
}

/// A package opened by a module.
#[derive(Debug, Clone, PartialEq, Eq)]
pub struct ModuleOpens {
    /// The opened package.
    pub open: ConstantPoolIndex,
    /// Flags of the opening.
    pub flags: ModuleDependencyFlags,
    /// Modules the package is opened to.
    pub to_index: Vec<ConstantPoolIndex>,
}

/// The mathematical value of a [`ModuleOpens`].
pub struct ModuleOpensView {
    pub open: ConstantPoolIndex,
    pub flags: ModuleDependencyFlags,
    pub to_index: Seq<ConstantPoolIndex>,
}

impl View for ModuleOpens {
    type V = ModuleOpensView;

    open spec fn view(&self) -> ModuleOpensView {
        ModuleOpensView {
            open: self.open,
            flags: self.flags,
            to_index: self.to_index@,
        }
    }
}

impl ModuleOpensView {
    /// Whether every count fits its length field and every part is itself well formed.
    pub open spec fn wf(self) -> bool {
        &&& self.open.wf()
        &&& self.flags.wf()
        &&& self.to_index.len() <= 0xFFFF
        &&& ConstantPoolIndex::wf_seq(self.to_index)
    }

    /// The bytes of the record: its fields in declaration order.
    #[verifier::opaque]
    pub open spec fn spec_write(self) -> Seq<u8> {
        self.open.spec_write() + self.flags.spec_write()
            + spec_u16_bytes((self.to_index.len() % 0x1_0000) as u16)
            + ConstantPoolIndex::spec_write_seq(self.to_index)
    }
}

impl ModuleOpens {
    /// The record that starts at position `p` of `s`, with the position behind it.
    #[verifier::opaque]
    pub open spec fn spec_read(s: Seq<u8>, p: int) -> Result<(ModuleOpensView, int), Error> {
        match ConstantPoolIndex::spec_read(s, p) {
            Err(e) => Err(e),
            Ok((open, at1)) => {
                match ModuleDependencyFlags::spec_read(s, at1) {
                    Err(e) => Err(e),
                    Ok((flags, at2)) => {
                        match spec_read_u16(s, at2) {
                            Err(e) => Err(e),
                            Ok((n_to_index, at3)) => {
                                match ConstantPoolIndex::spec_read_seq(s, at3, n_to_index as nat) {
                                    Err(e) => Err(e),
                                    Ok((to_index, at4)) => {
                                        Ok((ModuleOpensView { open, flags, to_index }, at4))
                                    },
                                }
                            },
                        }
                    },
                }
            },
        }
    }

    /// Reads the record that starts at `pos`.
    pub fn read(data: &[u8], pos: usize) -> (r: Result<(ModuleOpens, usize), Error>)
        ensures
            decoded(r, Self::spec_read(data@, pos as int)),
            advanced(r, data@, pos),
    {
        proof {
            reveal(ModuleOpens::spec_read);
        }
        let (open, pos1) = match ConstantPoolIndex::read(data, pos) {
            Ok(x) => x,
            Err(e) => return Err(e),
        };
        let (flags, pos2) = match ModuleDependencyFlags::read(data, pos1) {
            Ok(x) => x,
            Err(e) => return Err(e),
        };
        let (n_to_index, pos3) = match read_u16(data, pos2) {
            Ok(x) => x,
            Err(e) => return Err(e),
        };
        let (to_index, pos4) = match ConstantPoolIndex::read_seq(data, pos3, n_to_index as usize) {
            Ok(x) => x,
            Err(e) => return Err(e),
        };
        Ok((ModuleOpens { open, flags, to_index }, pos4))
    }

    /// Appends the bytes of the record.
    pub fn write(&self, out: &mut Vec<u8>)
        ensures
            final(out)@ == old(out)@ + self@.spec_write(),
    {
        self.open.write(out);
        self.flags.write(out);
        write_u16(out, (self.to_index.len() % 0x1_0000) as u16);
        ConstantPoolIndex::write_seq(&self.to_index, out);
        proof {
            reveal(ModuleOpensView::spec_write);
            assert(out@ =~= old(out)@ + self@.spec_write());
        }
    }

    /// Reading back what `spec_write` gives for a well-formed record yields the record.
    pub proof fn lemma_round_trip(v: ModuleOpensView, s: Seq<u8>, p: int)
        requires
            v.wf(),
            occurs_at(s, p, v.spec_write()),
        ensures
            Self::spec_read(s, p) == Ok::<(ModuleOpensView, int), Error>((v, p + v.spec_write().len())),
    {
        reveal(ModuleOpens::spec_read);
        reveal(ModuleOpensView::spec_write);
        let w0 = v.open.spec_write();
        let w1 = v.flags.spec_write();
        let w2 = spec_u16_bytes((v.to_index.len() % 0x1_0000) as u16);
        let w3 = ConstantPoolIndex::spec_write_seq(v.to_index);
        let a1 = w0 + w1;
        assert(a1.len() == w0.len() + w1.len());
        let a2 = a1 + w2;
        assert(a2.len() == a1.len() + w2.len());
        let a3 = a2 + w3;
        assert(a3.len() == a2.len() + w3.len());
        lemma_occurs_split(s, p, a2, w3);
        lemma_occurs_split(s, p, a1, w2);
        lemma_occurs_split(s, p, w0, w1);
        ConstantPoolIndex::lemma_round_trip(v.open, s, p);
        ModuleDependencyFlags::lemma_round_trip(v.flags, s, p + w0.len());
        lemma_round_trip_u16((v.to_index.len() % 0x1_0000) as u16, s, p + a1.len());
        ConstantPoolIndex::lemma_round_trip_seq(v.to_index, s, p + a2.len());
    }

    /// A record that was read is well formed, and has as many bytes as were taken.
    pub proof fn lemma_read_wf(s: Seq<u8>, p: int)
        ensures
            Self::spec_read(s, p) matches Ok((v, q)) ==> v.wf() && q == p + v.spec_write().len()
                && q <= s.len(),
    {
        reveal(ModuleOpens::spec_read);
        reveal(ModuleOpensView::spec_write);
        ConstantPoolIndex::lemma_read_wf(s, p);
        if let Ok((open, at1)) = ConstantPoolIndex::spec_read(s, p) {
            ModuleDependencyFlags::lemma_read_wf(s, at1);
            if let Ok((flags, at2)) = ModuleDependencyFlags::spec_read(s, at1) {
                if let Ok((n_to_index, at3)) = spec_read_u16(s, at2) {
                    ConstantPoolIndex::lemma_read_seq_wf(s, at3, n_to_index as nat);
                    if let Ok((to_index, at4)) = ConstantPoolIndex::spec_read_seq(s, at3, n_to_index as nat) {
                    }
                }
            }
        }
    }
}

/// A service provided by a module.
#[derive(Debug, Clone, PartialEq, Eq)]
pub struct ModuleProvides {
    /// The service interface.
    pub provide: ConstantPoolIndex,
    /// Its implementations.
    pub with_index: Vec<ConstantPoolIndex>,
}

/// The mathematical value of a [`ModuleProvides`].
pub struct ModuleProvidesView {
    pub provide: ConstantPoolIndex,
    pub with_index: Seq<ConstantPoolIndex>,
}

impl View for ModuleProvides {
    type V = ModuleProvidesView;

    open spec fn view(&self) -> ModuleProvidesView {
        ModuleProvidesView {
            provide: self.provide,
            with_index: self.with_index@,
        }
    }
}

impl ModuleProvidesView {
    /// Whether every count fits its length field and every part is itself well formed.
    pub open spec fn wf(self) -> bool {
        &&& self.provide.wf()
        &&& self.with_index.len() <= 0xFFFF
        &&& ConstantPoolIndex::wf_seq(self.with_index)
    }

    /// The bytes of the record: its fields in declaration order.
    #[verifier::opaque]
    pub open spec fn spec_write(self) -> Seq<u8> {
        self.provide.spec_write() + spec_u16_bytes((self.with_index.len() % 0x1_0000) as u16)
            + ConstantPoolIndex::spec_write_seq(self.with_index)
    }
}

impl ModuleProvides {
    /// The record that starts at position `p` of `s`, with the position behind it.
    #[verifier::opaque]
    pub open spec fn spec_read(s: Seq<u8>, p: int) -> Result<(ModuleProvidesView, int), Error> {
        match ConstantPoolIndex::spec_read(s, p) {
            Err(e) => Err(e),
            Ok((provide, at1)) => {
                match spec_read_u16(s, at1) {
                    Err(e) => Err(e),
                    Ok((n_with_index, at2)) => {
                        match ConstantPoolIndex::spec_read_seq(s, at2, n_with_index as nat) {
                            Err(e) => Err(e),
                            Ok((with_index, at3)) => {
                                Ok((ModuleProvidesView { provide, with_index }, at3))
                            },
                        }
                    },
                }
            },
        }
    }

    /// Reads the record that starts at `pos`.
    pub fn read(data: &[u8], pos: usize) -> (r: Result<(ModuleProvides, usize), Error>)
        ensures
            decoded(r, Self::spec_read(data@, pos as int)),
            advanced(r, data@, pos),
    {
        proof {
            reveal(ModuleProvides::spec_read);
        }
        let (provide, pos1) = match ConstantPoolIndex::read(data, pos) {
            Ok(x) => x,
            Err(e) => return Err(e),
        };
        let (n_with_index, pos2) = match read_u16(data, pos1) {
            Ok(x) => x,
            Err(e) => return Err(e),
        };
        let (with_index, pos3) = match ConstantPoolIndex::read_seq(data, pos2, n_with_index as usize) {
            Ok(x) => x,
            Err(e) => return Err(e),
        };
        Ok((ModuleProvides { provide, with_index }, pos3))
    }

    /// Appends the bytes of the record.
    pub fn write(&self, out: &mut Vec<u8>)
        ensures
            final(out)@ == old(out)@ + self@.spec_write(),
    {
        self.provide.write(out);
        write_u16(out, (self.with_index.len() % 0x1_0000) as u16);
        ConstantPoolIndex::write_seq(&self.with_index, out);
        proof {
            reveal(ModuleProvidesView::spec_write);
            assert(out@ =~= old(out)@ + self@.spec_write());
        }
    }

    /// Reading back what `spec_write` gives for a well-formed record yields the record.
    pub proof fn lemma_round_trip(v: ModuleProvidesView, s: Seq<u8>, p: int)
        requires
            v.wf(),
            occurs_at(s, p, v.spec_write()),
        ensures
            Self::spec_read(s, p) == Ok::<(ModuleProvidesView, int), Error>((v, p + v.spec_write().len())),
    {
        reveal(ModuleProvides::spec_read);
        reveal(ModuleProvidesView::spec_write);
        let w0 = v.provide.spec_write();
        let w1 = spec_u16_bytes((v.with_index.len() % 0x1_0000) as u16);
        let w2 = ConstantPoolIndex::spec_write_seq(v.with_index);
        let a1 = w0 + w1;
        assert(a1.len() == w0.len() + w1.len());
        let a2 = a1 + w2;
        assert(a2.len() == a1.len() + w2.len());
        lemma_occurs_split(s, p, a1, w2);
        lemma_occurs_split(s, p, w0, w1);
        ConstantPoolIndex::lemma_round_trip(v.provide, s, p);
        lemma_round_trip_u16((v.with_index.len() % 0x1_0000) as u16, s, p + w0.len());
        ConstantPoolIndex::lemma_round_trip_seq(v.with_index, s, p + a1.len());
    }

    /// A record that was read is well formed, and has as many bytes as were taken.
    pub proof fn lemma_read_wf(s: Seq<u8>, p: int)
        ensures
            Self::spec_read(s, p) matches Ok((v, q)) ==> v.wf() && q == p + v.spec_write().len()
                && q <= s.len(),
    {
        reveal(ModuleProvides::spec_read);
        reveal(ModuleProvidesView::spec_write);
        ConstantPoolIndex::lemma_read_wf(s, p);
        if let Ok((provide, at1)) = ConstantPoolIndex::spec_read(s, p) {
            if let Ok((n_with_index, at2)) = spec_read_u16(s, at1) {
                ConstantPoolIndex::lemma_read_seq_wf(s, at2, n_with_index as nat);
                if let Ok((with_index, at3)) = ConstantPoolIndex::spec_read_seq(s, at2, n_with_index as nat) {
                }
            }
        }
    }
}

} // verus!
