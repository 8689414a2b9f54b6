//! Structural mutation of the type table of a binary module.
//!
//! The library decodes the type section of a module into a list of
//! function signatures, appends one randomly generated signature, and
//! re-encodes the list to wire format, either replacing the existing
//! section or inserting a new one as the first structural section.

pub mod add_type;
pub mod codec;
pub mod error;
pub mod leb;
pub mod module;
pub mod rng;
pub mod sig;
pub mod valtype;
