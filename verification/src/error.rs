//! The failures a mutation can end in. All of them are detected before
//! any change to the module is produced, so a caller that receives one
//! still holds the input module unchanged.

use vstd::prelude::*;

verus! {

/// Why a mutation was abandoned.
#[derive(Clone, Copy, PartialEq, Eq, Structural, Debug)]
pub enum MutationError {
    /// The existing section bytes are truncated or structurally
    /// inconsistent, e.g. a length prefix runs past the data.
    DecodeError,
    /// The existing section is syntactically sound but holds an entry
    /// kind or a value-type tag outside the supported domain.
    UnsupportedConstruct,
    /// A list is too long for its 32-bit length prefix; unreachable for
    /// any module of practical size.
    EncodingOverflow,
}

impl MutationError {
    /// A short human-readable name of the error.
    pub fn describe(self) -> (r: &'static str)
        ensures
            self is DecodeError ==> r@ == "malformed type section"@,
            self is UnsupportedConstruct ==> r@ == "unsupported construct in type section"@,
            self is EncodingOverflow ==> r@ == "type table too large to encode"@,
    {
        match self {
            MutationError::DecodeError => "malformed type section",
            MutationError::UnsupportedConstruct => "unsupported construct in type section",
            MutationError::EncodingOverflow => "type table too large to encode",
        }
    }
}

} // verus!
