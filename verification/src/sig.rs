//! Function signatures: an ordered params list and an ordered results
//! list of value types.

use vstd::prelude::*;
use crate::valtype::ValType;

verus! {

/// One entry of the type table.
#[derive(Debug)]
pub struct FunctionSignature {
    pub params: Vec<ValType>,
    pub results: Vec<ValType>,
}

/// The mathematical content of a `FunctionSignature`.
pub ghost struct SigV {
    pub params: Seq<ValType>,
    pub results: Seq<ValType>,
}

impl View for FunctionSignature {
    type V = SigV;

    open spec fn view(&self) -> SigV {
        SigV { params: self.params@, results: self.results@ }
    }
}

/// Both lists are short enough for a 32-bit count prefix.
pub open spec fn sig_valid(s: SigV) -> bool {
    &&& s.params.len() < 0x1_0000_0000
    &&& s.results.len() < 0x1_0000_0000
}

/// The table is short enough for a 32-bit count prefix and every entry
/// is encodable.
pub open spec fn table_valid(l: Seq<SigV>) -> bool {
    &&& l.len() < 0x1_0000_0000
    &&& forall|i: int| 0 <= i < l.len() ==> sig_valid(#[trigger] l[i])
}

/// The mathematical content of a list of signatures.
pub open spec fn table_view(ts: Seq<FunctionSignature>) -> Seq<SigV> {
    ts.map_values(|s: FunctionSignature| s@)
}

} // verus!
