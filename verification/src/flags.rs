//! The flag words of classes, fields, methods and modules.
//!
//! A flag word is valid when no bit outside its flag set is raised; decoding
//! rejects any other word.  The associated constants are the bits of the
//! single flags.

use crate::bytes::{advanced, decoded, lemma_round_trip_u16, occurs_at, read_u16, spec_read_u16, spec_u16_bytes, write_u16};
use crate::error::Error;
use vstd::prelude::*;

verus! {

/// Access and property flags of a class, field, method or parameter.
#[derive(Debug, Copy, Clone, PartialEq, Eq)]
pub struct AccessFlags {
    pub bits: u16,
}

impl View for AccessFlags {
    type V = AccessFlags;

    open spec fn view(&self) -> AccessFlags {
        *self
    }
}

impl AccessFlags {
    pub const NONE: u16 = 0x0000;

    pub const PUBLIC: u16 = 0x0001;

    pub const PRIVATE: u16 = 0x0002;

    pub const PROTECTED: u16 = 0x0004;

    pub const STATIC: u16 = 0x0008;

    pub const FINAL: u16 = 0x0010;

    pub const SUPER: u16 = 0x0020;

    pub const INTERFACE: u16 = 0x0200;

    pub const ABSTRACT: u16 = 0x0400;

    pub const SYNTHETIC: u16 = 0x1000;

    pub const ANNOTATION: u16 = 0x2000;

    pub const ENUM: u16 = 0x4000;

    pub const MODULE: u16 = 0x8000;

    pub const MANDATED: u16 = 0x8000;

    /// Every bit that some flag of the set uses.
    pub open spec fn spec_all_bits() -> u16 {
        0xF63F
    }

    /// Whether `bits` raises no bit outside the flag set.
    pub open spec fn spec_valid(bits: u16) -> bool {
        bits & !Self::spec_all_bits() == 0
    }

    pub open spec fn wf(self) -> bool {
        Self::spec_valid(self.bits)
    }

    pub open spec fn spec_write(self) -> Seq<u8> {
        spec_u16_bytes(self.bits)
    }

    pub open spec fn spec_read(s: Seq<u8>, p: int) -> Result<(AccessFlags, int), Error> {
        match spec_read_u16(s, p) {
            Err(e) => Err(e),
            Ok((bits, at1)) => if Self::spec_valid(bits) {
                Ok((AccessFlags { bits }, at1))
            } else {
                Err(Error::InvalidAccessFlags(bits))
            },
        }
    }

    /// The flag word as an integer.
    pub fn bits(&self) -> (r: u16)
        ensures
            r == self.bits,
    {
        self.bits
    }

    /// The flags of a valid word; nothing for a word with an undefined bit.
    pub fn from_bits(bits: u16) -> (r: Option<AccessFlags>)
        ensures
            r == if Self::spec_valid(bits) {
                Some(AccessFlags { bits })
            } else {
                None
            },
    {
        if bits & !0xF63Fu16 == 0 {
            Some(AccessFlags { bits })
        } else {
            None
        }
    }

    /// Whether every flag of `other` is raised in `self`.
    pub fn contains(&self, other: AccessFlags) -> (r: bool)
        ensures
            r == (self.bits & other.bits == other.bits),
    {
        self.bits & other.bits == other.bits
    }

    /// The flags raised in either operand.
    pub fn union(self, other: AccessFlags) -> (r: AccessFlags)
        ensures
            r.bits == self.bits | other.bits,
            self.wf() && other.wf() ==> r.wf(),
    {
        let a = self.bits;
        let b = other.bits;
        assert(a & !0xF63Fu16 == 0 && b & !0xF63Fu16 == 0 ==> (a | b) & !0xF63Fu16 == 0) by (bit_vector);
        AccessFlags { bits: a | b }
    }

    pub fn read(data: &[u8], pos: usize) -> (r: Result<(AccessFlags, usize), Error>)
        ensures
            decoded(r, Self::spec_read(data@, pos as int)),
            advanced(r, data@, pos),
    {
        let (bits, pos1) = match read_u16(data, pos) {
            Ok(x) => x,
            Err(e) => return Err(e),
        };
        match Self::from_bits(bits) {
            Some(flags) => Ok((flags, pos1)),
            None => Err(Error::InvalidAccessFlags(bits)),
        }
    }

    pub fn write(&self, out: &mut Vec<u8>)
        ensures
            final(out)@ == old(out)@ + self@.spec_write(),
    {
        write_u16(out, self.bits);
    }

    /// Reading back a written valid flag word yields it.
    pub proof fn lemma_round_trip(v: AccessFlags, s: Seq<u8>, p: int)
        requires
            v.wf(),
            occurs_at(s, p, v.spec_write()),
        ensures
            Self::spec_read(s, p) == Ok::<(AccessFlags, int), Error>((v, p + v.spec_write().len())),
    {
        lemma_round_trip_u16(v.bits, s, p);
    }

    /// A flag word that was read is valid, and has as many bytes as were taken.
    pub proof fn lemma_read_wf(s: Seq<u8>, p: int)
        ensures
            Self::spec_read(s, p) matches Ok((v, q)) ==> v.wf() && q == p + v.spec_write().len() && q <= s.len(),
    {
    }
}

/// Flags of a module declaration.
#[derive(Debug, Copy, Clone, PartialEq, Eq)]
pub struct ModuleFlags {
    pub bits: u16,
}

impl View for ModuleFlags {
    type V = ModuleFlags;

    open spec fn view(&self) -> ModuleFlags {
        *self
    }
}

impl ModuleFlags {
    pub const OPEN: u16 = 0x0020;

    pub const SYNTHETIC: u16 = 0x1000;

    pub const MANDATED: u16 = 0x8000;

    /// Every bit that some flag of the set uses.
    pub open spec fn spec_all_bits() -> u16 {
        0x9020
    }

    /// Whether `bits` raises no bit outside the flag set.
    pub open spec fn spec_valid(bits: u16) -> bool {
        bits & !Self::spec_all_bits() == 0
    }

    pub open spec fn wf(self) -> bool {
        Self::spec_valid(self.bits)
    }

    pub open spec fn spec_write(self) -> Seq<u8> {
        spec_u16_bytes(self.bits)
    }

    pub open spec fn spec_read(s: Seq<u8>, p: int) -> Result<(ModuleFlags, int), Error> {
        match spec_read_u16(s, p) {
            Err(e) => Err(e),
            Ok((bits, at1)) => if Self::spec_valid(bits) {
                Ok((ModuleFlags { bits }, at1))
            } else {
                Err(Error::InvalidAccessFlags(bits))
            },
        }
    }

    /// The flag word as an integer.
    pub fn bits(&self) -> (r: u16)
        ensures
            r == self.bits,
    {
        self.bits
    }

    /// The flags of a valid word; nothing for a word with an undefined bit.
    pub fn from_bits(bits: u16) -> (r: Option<ModuleFlags>)
        ensures
            r == if Self::spec_valid(bits) {
                Some(ModuleFlags { bits })
            } else {
                None
            },
    {
        if bits & !0x9020u16 == 0 {
            Some(ModuleFlags { bits })
        } else {
            None
        }
    }

    /// Whether every flag of `other` is raised in `self`.
    pub fn contains(&self, other: ModuleFlags) -> (r: bool)
        ensures
            r == (self.bits & other.bits == other.bits),
    {
        self.bits & other.bits == other.bits
    }

    /// The flags raised in either operand.
    pub fn union(self, other: ModuleFlags) -> (r: ModuleFlags)
        ensures
            r.bits == self.bits | other.bits,
            self.wf() && other.wf() ==> r.wf(),
    {
        let a = self.bits;
        let b = other.bits;
        assert(a & !0x9020u16 == 0 && b & !0x9020u16 == 0 ==> (a | b) & !0x9020u16 == 0) by (bit_vector);
        ModuleFlags { bits: a | b }
    }

    pub fn read(data: &[u8], pos: usize) -> (r: Result<(ModuleFlags, usize), Error>)
        ensures
            decoded(r, Self::spec_read(data@, pos as int)),
            advanced(r, data@, pos),
    {
        let (bits, pos1) = match read_u16(data, pos) {
            Ok(x) => x,
            Err(e) => return Err(e),
        };
        match Self::from_bits(bits) {
            Some(flags) => Ok((flags, pos1)),
            None => Err(Error::InvalidAccessFlags(bits)),
        }
    }

    pub fn write(&self, out: &mut Vec<u8>)
        ensures
            final(out)@ == old(out)@ + self@.spec_write(),
    {
        write_u16(out, self.bits);
    }

    /// Reading back a written valid flag word yields it.
    pub proof fn lemma_round_trip(v: ModuleFlags, s: Seq<u8>, p: int)
        requires
            v.wf(),
            occurs_at(s, p, v.spec_write()),
        ensures
            Self::spec_read(s, p) == Ok::<(ModuleFlags, int), Error>((v, p + v.spec_write().len())),
    {
        lemma_round_trip_u16(v.bits, s, p);
    }

    /// A flag word that was read is valid, and has as many bytes as were taken.
    pub proof fn lemma_read_wf(s: Seq<u8>, p: int)
        ensures
            Self::spec_read(s, p) matches Ok((v, q)) ==> v.wf() && q == p + v.spec_write().len() && q <= s.len(),
    {
    }
}

/// Flags of a module dependency, export or opening.
#[derive(Debug, Copy, Clone, PartialEq, Eq)]
pub struct ModuleDependencyFlags {
    pub bits: u16,
}

impl View for ModuleDependencyFlags {
    type V = ModuleDependencyFlags;

    open spec fn view(&self) -> ModuleDependencyFlags {
        *self
    }
}

impl ModuleDependencyFlags {
    pub const TRANSITIVE: u16 = 0x0020;

    pub const STATIC_PHASE: u16 = 0x0040;

    pub const SYNTHETIC: u16 = 0x1000;

    pub const MANDATED: u16 = 0x8000;

    /// Every bit that some flag of the set uses.
    pub open spec fn spec_all_bits() -> u16 {
        0x9060
    }

    /// Whether `bits` raises no bit outside the flag set.
    pub open spec fn spec_valid(bits: u16) -> bool {
        bits & !Self::spec_all_bits() == 0
    }

    pub open spec fn wf(self) -> bool {
        Self::spec_valid(self.bits)
    }

    pub open spec fn spec_write(self) -> Seq<u8> {
        spec_u16_bytes(self.bits)
    }

    pub open spec fn spec_read(s: Seq<u8>, p: int) -> Result<(ModuleDependencyFlags, int), Error> {
        match spec_read_u16(s, p) {
            Err(e) => Err(e),
            Ok((bits, at1)) => if Self::spec_valid(bits) {
                Ok((ModuleDependencyFlags { bits }, at1))
            } else {
                Err(Error::InvalidAccessFlags(bits))
            },
        }
    }

    /// The flag word as an integer.
    pub fn bits(&self) -> (r: u16)
        ensures
            r == self.bits,
    {
        self.bits
    }

    /// The flags of a valid word; nothing for a word with an undefined bit.
    pub fn from_bits(bits: u16) -> (r: Option<ModuleDependencyFlags>)
        ensures
            r == if Self::spec_valid(bits) {
                Some(ModuleDependencyFlags { bits })
            } else {
                None
            },
    {
        if bits & !0x9060u16 == 0 {
            Some(ModuleDependencyFlags { bits })
        } else {
            None
        }
    }

    /// Whether every flag of `other` is raised in `self`.
    pub fn contains(&self, other: ModuleDependencyFlags) -> (r: bool)
        ensures
            r == (self.bits & other.bits == other.bits),
    {
        self.bits & other.bits == other.bits
    }

    /// The flags raised in either operand.
    pub fn union(self, other: ModuleDependencyFlags) -> (r: ModuleDependencyFlags)
        ensures
            r.bits == self.bits | other.bits,
            self.wf() && other.wf() ==> r.wf(),
    {
        let a = self.bits;
        let b = other.bits;
        assert(a & !0x9060u16 == 0 && b & !0x9060u16 == 0 ==> (a | b) & !0x9060u16 == 0) by (bit_vector);
        ModuleDependencyFlags { bits: a | b }
    }

    pub fn read(data: &[u8], pos: usize) -> (r: Result<(ModuleDependencyFlags, usize), Error>)
        ensures
            decoded(r, Self::spec_read(data@, pos as int)),
            advanced(r, data@, pos),
    {
        let (bits, pos1) = match read_u16(data, pos) {
            Ok(x) => x,
            Err(e) => return Err(e),
        };
        match Self::from_bits(bits) {
            Some(flags) => Ok((flags, pos1)),
            None => Err(Error::InvalidAccessFlags(bits)),
        }
    }

    pub fn write(&self, out: &mut Vec<u8>)
        ensures
            final(out)@ == old(out)@ + self@.spec_write(),
    {
        write_u16(out, self.bits);
    }

    /// Reading back a written valid flag word yields it.
    pub proof fn lemma_round_trip(v: ModuleDependencyFlags, s: Seq<u8>, p: int)
        requires
            v.wf(),
            occurs_at(s, p, v.spec_write()),
        ensures
            Self::spec_read(s, p) == Ok::<(ModuleDependencyFlags, int), Error>((v, p + v.spec_write().len())),
    {
        lemma_round_trip_u16(v.bits, s, p);
    }

    /// A flag word that was read is valid, and has as many bytes as were taken.
    pub proof fn lemma_read_wf(s: Seq<u8>, p: int)
        ensures
            Self::spec_read(s, p) matches Ok((v, q)) ==> v.wf() && q == p + v.spec_write().len() && q <= s.len(),
    {
    }
}

} // verus!
