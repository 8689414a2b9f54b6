//! The mutator: appends one randomly generated signature to the type
//! table, creating the table as the first structural section when the
//! module has none.

use vstd::prelude::*;
use crate::codec::{dec_table, decode_type_section, enc_table, encode_type_section,
    lemma_dec_table_valid, lemma_table_round_trip};
use crate::error::MutationError;
use crate::module::{is_structural, lemma_type_section_index, lemma_type_section_index_of,
    type_section_index, ModuleSections, Section, SectionV, TYPE_SECTION_ID};
use crate::rng::gen_bounded;
use crate::sig::{sig_valid, table_valid, table_view, FunctionSignature, SigV};
use crate::valtype::ValType;

verus! {

/// Engine-wide switches the mutator consults before running.
pub struct MutateConfig {
    /// The engine only shrinks modules; growth-only mutators stand
    /// down.
    pub reduce: bool,
}

/// A mutator that appends a new type to the type section.
///
/// This mutator will create the type section if none exists.
#[derive(Clone, Copy)]
pub struct AddTypeMutator {
    pub max_params: usize,
    pub max_results: usize,
}

/// The new signature observes the caller-supplied size bounds.
pub open spec fn sig_within(s: SigV, max_params: nat, max_results: nat) -> bool {
    &&& s.params.len() <= max_params
    &&& s.results.len() <= max_results
}

/// How a successful mutation relates the new module to the old one,
/// given the signature `s` that was appended: with no type table, the
/// singleton table is inserted at position 0; with one at `k`, the
/// section at `k` is re-encoded from its decoded list plus `s`, and
/// nothing else moves or changes.
pub open spec fn mutated_module(old_m: Seq<SectionV>, new_m: Seq<SectionV>, s: SigV) -> bool {
    match type_section_index(old_m) {
        Option::None => new_m == old_m.insert(
            0,
            SectionV { id: TYPE_SECTION_ID, payload: enc_table(seq![s]) },
        ),
        Option::Some(k) => {
            &&& dec_table(old_m[k].payload) is Ok
            &&& dec_table(old_m[k].payload)->Ok_0.len() < 0xffff_ffff
            &&& new_m == old_m.update(
                k,
                SectionV {
                    id: TYPE_SECTION_ID,
                    payload: enc_table(dec_table(old_m[k].payload)->Ok_0.push(s)),
                },
            )
        },
    }
}

/// One witness that a successful mutation appended a well-formed
/// signature within the mutator's bounds.
pub open spec fn mutation_ok(
    m: AddTypeMutator,
    old_m: Seq<SectionV>,
    new_m: Seq<SectionV>,
    s: SigV,
) -> bool {
    &&& sig_within(s, m.max_params as nat, m.max_results as nat)
    &&& sig_valid(s)
    &&& mutated_module(old_m, new_m, s)
}

/// A successful mutation appended some well-formed signature within
/// the mutator's bounds.
pub open spec fn mutation_of(m: AddTypeMutator, old_m: Seq<SectionV>, new_m: Seq<SectionV>) -> bool {
    exists|s: SigV| #[trigger] mutation_ok(m, old_m, new_m, s)
}

impl AddTypeMutator {
    /// One uniform draw from the seven-value domain: a draw over
    /// `0..=6` put through the contracted draw table.
    fn random_valtype(&self, rng: &mut rand::rngs::SmallRng) -> ValType {
        ValType::from_draw(gen_bounded(rng, 6))
    }

    /// Draws a fresh signature: the param count uniformly from
    /// `0..=max_params`, the result count uniformly from
    /// `0..=max_results`, then one type per position, params before
    /// results.
    pub fn generate_signature(&self, rng: &mut rand::rngs::SmallRng) -> (s: FunctionSignature)
        ensures
            sig_within(s@, self.max_params as nat, self.max_results as nat),
    {
        let n_params = gen_bounded(rng, self.max_params);
        let n_results = gen_bounded(rng, self.max_results);
        let mut params: Vec<ValType> = Vec::new();
        let mut i: usize = 0;
        while i < n_params
            invariant
                i <= n_params,
                params@.len() == i,
            decreases n_params - i,
        {
            params.push(self.random_valtype(rng));
            i = i + 1;
        }
        let mut results: Vec<ValType> = Vec::new();
        let mut j: usize = 0;
        while j < n_results
            invariant
                j <= n_results,
                results@.len() == j,
            decreases n_results - j,
        {
            results.push(self.random_valtype(rng));
            j = j + 1;
        }
        FunctionSignature { params, results }
    }

    /// Whether this mutator may run at all: it strictly grows the
    /// module, so it stands down in reduction mode.
    pub fn can_mutate(&self, config: &MutateConfig) -> (r: bool)
        ensures
            r == !config.reduce,
    {
        !config.reduce
    }

    /// Produces the candidate mutated module: one fresh signature is
    /// drawn (unconditionally, so the random source advances the same
    /// way whatever the module holds) and appended to the type table.
    /// All failures are detected before any module is produced; the
    /// input is never touched.
    pub fn mutate(self, rng: &mut rand::rngs::SmallRng, module: &ModuleSections) -> (r: Result<
        ModuleSections,
        MutationError,
    >)
        ensures
            r is Ok ==> mutation_of(self, module@, r->Ok_0@),
            r is Err ==> {
                ||| (r->Err_0 == MutationError::EncodingOverflow && (self.max_params
                    >= 0x1_0000_0000 || self.max_results >= 0x1_0000_0000 || (
                type_section_index(module@) is Some && {
                    let t = dec_table(
                        module@[type_section_index(module@).unwrap()].payload,
                    );
                    t is Ok && t->Ok_0.len() >= 0xffff_ffff
                })))
                ||| (type_section_index(module@) is Some && dec_table(
                    module@[type_section_index(module@).unwrap()].payload,
                ) == Err::<Seq<SigV>, _>(r->Err_0))
            },
            (type_section_index(module@) is None && self.max_params < 0x1_0000_0000
                && self.max_results < 0x1_0000_0000) ==> r is Ok,
            (self.max_params < 0x1_0000_0000 && self.max_results < 0x1_0000_0000
                && type_section_index(module@) is Some) ==> (match dec_table(
                module@[type_section_index(module@).unwrap()].payload,
            ) {
                Result::Ok(l) => l.len() < 0xffff_ffff ==> r is Ok,
                Result::Err(e) => r == Err::<ModuleSections, _>(e),
            }),
    {
        let sig = self.generate_signature(rng);
        if sig.params.len() > 0xffff_ffff || sig.results.len() > 0xffff_ffff {
            return Err(MutationError::EncodingOverflow);
        }
        match module.find_type_section() {
            Some(k) => {
                proof {
                    lemma_type_section_index(module@);
                    assert(module@.len() == module.sections@.len());
                }
                let mut types = match decode_type_section(&module.sections[k].payload) {
                    Ok(t) => t,
                    Err(e) => {
                        return Err(e);
                    },
                };
                let ghost l = table_view(types@);
                proof {
                    lemma_dec_table_valid(module@[k as int].payload);
                }
                if types.len() >= 0xffff_ffff {
                    return Err(MutationError::EncodingOverflow);
                }
                types.push(sig);
                proof {
                    assert(table_view(types@) =~= l.push(types@[types@.len() - 1]@));
                    assert(table_valid(table_view(types@)));
                }
                let bytes = encode_type_section(&types);
                let sec = Section { id: TYPE_SECTION_ID, payload: bytes };
                let m2 = module.with_replaced(k, sec);
                proof {
                    let s = types@[types@.len() - 1]@;
                    assert(s == sig@);
                    assert(sig_within(s, self.max_params as nat, self.max_results as nat));
                    assert(sig_valid(s));
                    assert(mutated_module(module@, m2@, s));
                    assert(mutation_ok(self, module@, m2@, s));
                    assert(mutation_of(self, module@, m2@));
                }
                Ok(m2)
            },
            None => {
                let mut single: Vec<FunctionSignature> = Vec::new();
                single.push(sig);
                proof {
                    assert(table_view(single@) =~= seq![single@[0]@]);
                    assert(table_valid(table_view(single@)));
                }
                let bytes = encode_type_section(&single);
                let sec = Section { id: TYPE_SECTION_ID, payload: bytes };
                let m2 = module.with_inserted(0, sec);
                proof {
                    let s = single@[0]@;
                    assert(s == sig@);
                    assert(sig_within(s, self.max_params as nat, self.max_results as nat));
                    assert(sig_valid(s));
                    assert(mutated_module(module@, m2@, s));
                    assert(mutation_ok(self, module@, m2@, s));
                    assert(mutation_of(self, module@, m2@));
                }
                Ok(m2)
            },
        }
    }
}

/// Growth law: a module whose type table decodes to `N` entries has,
/// after a successful mutation that appended `s`, a table of exactly
/// `N + 1` entries whose first `N` are unchanged in order and content.
pub proof fn lemma_growth(old_m: Seq<SectionV>, new_m: Seq<SectionV>, s: SigV, k: int)
    requires
        mutated_module(old_m, new_m, s),
        sig_valid(s),
        type_section_index(old_m) == Some(k),
    ensures
        ({
            let l = dec_table(old_m[k].payload)->Ok_0;
            &&& dec_table(new_m[k].payload) == Ok::<_, MutationError>(l.push(s))
            &&& dec_table(new_m[k].payload)->Ok_0.len() == l.len() + 1
            &&& forall|i: int|
                0 <= i < l.len() ==> #[trigger] dec_table(new_m[k].payload)->Ok_0[i] == l[i]
        }),
{
    lemma_type_section_index(old_m);
    lemma_dec_table_valid(old_m[k].payload);
    let l = dec_table(old_m[k].payload)->Ok_0;
    assert(table_valid(l.push(s)));
    lemma_table_round_trip(l.push(s));
}

/// Insertion law: a module with no type table has, after a successful
/// mutation that appended `s`, a type table at structural position 0
/// holding exactly one entry, with every original section behind it,
/// untouched and in order.
pub proof fn lemma_insertion(old_m: Seq<SectionV>, new_m: Seq<SectionV>, s: SigV)
    requires
        mutated_module(old_m, new_m, s),
        sig_valid(s),
        type_section_index(old_m) is None,
    ensures
        type_section_index(new_m) == Some(0int),
        is_structural(new_m[0]),
        dec_table(new_m[0].payload) == Ok::<_, MutationError>(seq![s]),
        new_m.len() == old_m.len() + 1,
        new_m.skip(1) == old_m,
{
    old_m.insert_ensures(0, SectionV { id: TYPE_SECTION_ID, payload: enc_table(seq![s]) });
    lemma_type_section_index_of(new_m, 0);
    assert(table_valid(seq![s]));
    lemma_table_round_trip(seq![s]);
    assert(new_m.skip(1) =~= old_m);
}

/// Replacement law: a module whose type table sits at position `k`
/// still has it at `k` after a successful mutation, and every other
/// section is untouched.
pub proof fn lemma_replacement(old_m: Seq<SectionV>, new_m: Seq<SectionV>, s: SigV, k: int)
    requires
        mutated_module(old_m, new_m, s),
        type_section_index(old_m) == Some(k),
    ensures
        type_section_index(new_m) == Some(k),
        new_m.len() == old_m.len(),
        forall|j: int| 0 <= j < old_m.len() && j != k ==> #[trigger] new_m[j] == old_m[j],
{
    lemma_type_section_index(old_m);
    assert(new_m[k].id == TYPE_SECTION_ID);
    assert forall|j: int| 0 <= j < k implies #[trigger] new_m[j].id != TYPE_SECTION_ID by {
        assert(new_m[j] == old_m[j]);
    }
    lemma_type_section_index_of(new_m, k);
}

/// Bounds law: under size bounds of zero the appended entry is the
/// last entry of the new table and has no params and no results.
pub proof fn lemma_bounds_respected(old_m: Seq<SectionV>, new_m: Seq<SectionV>, s: SigV)
    requires
        mutated_module(old_m, new_m, s),
        sig_valid(s),
        sig_within(s, 0, 0),
    ensures
        type_section_index(new_m) is Some,
        ({
            let t = dec_table(new_m[type_section_index(new_m).unwrap()].payload);
            &&& t is Ok
            &&& t->Ok_0.len() >= 1
            &&& t->Ok_0.last() == s
            &&& t->Ok_0.last().params.len() == 0
            &&& t->Ok_0.last().results.len() == 0
        }),
{
    match type_section_index(old_m) {
        Option::None => {
            lemma_insertion(old_m, new_m, s);
        },
        Option::Some(k) => {
            lemma_replacement(old_m, new_m, s, k);
            lemma_growth(old_m, new_m, s, k);
        },
    }
}

} // verus!
