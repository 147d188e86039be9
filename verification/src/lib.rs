//! A codec for the JVM class file format.
//!
//! [`JavaClass::read`] decodes the bytes of a class file into a [`JavaClass`], and
//! [`JavaClass::write`] encodes it again.  Every decoding function comes with a
//! specification function that says, for every input, what it returns; every law
//! that relates decoding and encoding is a proof function next to them.

pub mod attribute;
pub mod bytes;
pub mod class;
pub mod constant_pool;
pub mod descriptor;
pub mod error;
pub mod field;
pub mod flags;
pub mod io;
pub mod java_utf8;
pub mod method;
pub mod version;

pub use crate::attribute::Attribute;
pub use crate::class::{JavaClass, MagicNumber};
pub use crate::constant_pool::constant::Constant;
pub use crate::constant_pool::{ConstantPool, ConstantPoolIndex};
pub use crate::descriptor::{parse_method_signature, TypeSignature};
pub use crate::error::{Error, UtfConversionError};
pub use crate::field::Field;
pub use crate::flags::{AccessFlags, ModuleDependencyFlags, ModuleFlags};
pub use crate::java_utf8::{FromJavaUtf8Ext, ToJavaUtf8Ext};
pub use crate::method::Method;
pub use crate::version::JavaVersion;
