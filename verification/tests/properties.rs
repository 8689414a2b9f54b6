//! Scenario tests for the codec and the mutation policies.

use rand::rngs::SmallRng;
use rand::SeedableRng;
use wasm_mutate::add_type::{AddTypeMutator, MutateConfig};
use wasm_mutate::codec::{decode_type_section, encode_type_section};
use wasm_mutate::error::MutationError;
use wasm_mutate::module::{ModuleSections, Section};
use wasm_mutate::sig::FunctionSignature;
use wasm_mutate::valtype::ValType;

fn modules_equal(a: &ModuleSections, b: &ModuleSections) -> bool {
    a.sections.len() == b.sections.len()
        && a.sections
            .iter()
            .zip(b.sections.iter())
            .all(|(x, y)| x.id == y.id && x.payload == y.payload)
}

fn sig(params: Vec<ValType>, results: Vec<ValType>) -> FunctionSignature {
    FunctionSignature { params, results }
}

#[test]
fn round_trip_all_value_types() {
    let table = vec![
        sig(
            vec![
                ValType::I32,
                ValType::I64,
                ValType::F32,
                ValType::F64,
                ValType::V128,
                ValType::FuncRef,
                ValType::ExternRef,
            ],
            vec![ValType::ExternRef, ValType::I32],
        ),
        sig(vec![], vec![]),
        sig(vec![ValType::V128], vec![]),
    ];
    let bytes = encode_type_section(&table);
    let decoded = decode_type_section(&bytes).unwrap();
    assert_eq!(decoded.len(), table.len());
    for (d, t) in decoded.iter().zip(table.iter()) {
        assert_eq!(d.params, t.params);
        assert_eq!(d.results, t.results);
    }
}

#[test]
fn encode_exact_bytes() {
    let table = vec![sig(vec![ValType::I32], vec![ValType::I64])];
    let bytes = encode_type_section(&table);
    assert_eq!(bytes, vec![1, 0x60, 1, 0x7f, 1, 0x7e]);
}

#[test]
fn decode_exact_bytes() {
    let bytes = vec![1u8, 0x60, 2, 0x7d, 0x7c, 1, 0x70];
    let decoded = decode_type_section(&bytes).unwrap();
    assert_eq!(decoded.len(), 1);
    assert_eq!(decoded[0].params, vec![ValType::F32, ValType::F64]);
    assert_eq!(decoded[0].results, vec![ValType::FuncRef]);
}

#[test]
fn non_minimal_length_prefix_reencodes_canonically() {
    // the count 1 written in two bytes: same list, different padding
    let bytes = vec![0x81u8, 0x00, 0x60, 0, 0];
    let decoded = decode_type_section(&bytes).unwrap();
    assert_eq!(decoded.len(), 1);
    assert!(decoded[0].params.is_empty());
    assert!(decoded[0].results.is_empty());
    // re-encoding is canonical: list equality holds, byte length differs
    assert_eq!(encode_type_section(&decoded), vec![1, 0x60, 0, 0]);
}

#[test]
fn overlong_length_prefix_is_decode_error() {
    // a sixth continuation byte can never appear in a 32-bit prefix
    assert_eq!(
        decode_type_section(&vec![0x80u8, 0x80, 0x80, 0x80, 0x80, 0x00]).unwrap_err(),
        MutationError::DecodeError
    );
    // the fifth byte may carry at most four value bits
    assert_eq!(
        decode_type_section(&vec![0x80u8, 0x80, 0x80, 0x80, 0x10]).unwrap_err(),
        MutationError::DecodeError
    );
}

#[test]
fn draw_values_map_onto_all_seven_types() {
    let expected = [
        ValType::I32,
        ValType::I64,
        ValType::F32,
        ValType::F64,
        ValType::V128,
        ValType::ExternRef,
        ValType::FuncRef,
    ];
    for (d, t) in expected.iter().enumerate() {
        assert_eq!(ValType::from_draw(d), *t);
    }
}

#[test]
fn valtype_tags_round_trip() {
    for t in [
        ValType::I32,
        ValType::I64,
        ValType::F32,
        ValType::F64,
        ValType::V128,
        ValType::FuncRef,
        ValType::ExternRef,
    ] {
        assert_eq!(ValType::from_tag(t.tag()), Some(t));
    }
    assert_eq!(ValType::from_tag(0x6e), None);
}

#[test]
fn decode_truncated_is_decode_error() {
    // count says five records, none follow
    assert_eq!(
        decode_type_section(&vec![5u8, 0x60]).unwrap_err(),
        MutationError::DecodeError
    );
    // empty input lacks even the count
    assert_eq!(
        decode_type_section(&vec![]).unwrap_err(),
        MutationError::DecodeError
    );
    // trailing bytes after the counted records
    assert_eq!(
        decode_type_section(&vec![0u8, 9]).unwrap_err(),
        MutationError::DecodeError
    );
}

#[test]
fn decode_unsupported_constructs() {
    // a record that is not a plain function type
    assert_eq!(
        decode_type_section(&vec![1u8, 0x5f, 0, 0]).unwrap_err(),
        MutationError::UnsupportedConstruct
    );
    // an element tag outside the seven supported kinds
    assert_eq!(
        decode_type_section(&vec![1u8, 0x60, 1, 0x6e, 0]).unwrap_err(),
        MutationError::UnsupportedConstruct
    );
}

#[test]
fn growth_keeps_existing_entries() {
    let table = vec![
        sig(vec![ValType::I32], vec![ValType::I64]),
        sig(vec![], vec![ValType::F64]),
    ];
    let module = ModuleSections {
        sections: vec![Section {
            id: 1,
            payload: encode_type_section(&table),
        }],
    };
    let mutator = AddTypeMutator {
        max_params: 2,
        max_results: 2,
    };
    let mut rng = SmallRng::seed_from_u64(11);
    let mutated = mutator.mutate(&mut rng, &module).unwrap();
    assert_eq!(mutated.sections.len(), 1);
    assert_eq!(mutated.sections[0].id, 1);
    let decoded = decode_type_section(&mutated.sections[0].payload).unwrap();
    assert_eq!(decoded.len(), 3);
    for (d, t) in decoded.iter().take(2).zip(table.iter()) {
        assert_eq!(d.params, t.params);
        assert_eq!(d.results, t.results);
    }
}

#[test]
fn insertion_makes_table_first_structural_section() {
    // a module holding only an informational section and a memory-kind
    // structural section: the new table must become structural index 0
    let module = ModuleSections {
        sections: vec![
            Section {
                id: 0,
                payload: vec![2, b'H', b'I', b'x'],
            },
            Section {
                id: 5,
                payload: vec![0],
            },
        ],
    };
    let mutator = AddTypeMutator {
        max_params: 1,
        max_results: 1,
    };
    let mut rng = SmallRng::seed_from_u64(3);
    let mutated = mutator.mutate(&mut rng, &module).unwrap();
    assert_eq!(mutated.sections.len(), 3);
    assert_eq!(mutated.sections[0].id, 1);
    let decoded = decode_type_section(&mutated.sections[0].payload).unwrap();
    assert_eq!(decoded.len(), 1);
    // the original sections follow, untouched and in order
    assert_eq!(mutated.sections[1].id, 0);
    assert_eq!(mutated.sections[1].payload, module.sections[0].payload);
    assert_eq!(mutated.sections[2].id, 5);
    assert_eq!(mutated.sections[2].payload, module.sections[1].payload);
}

#[test]
fn replacement_keeps_table_position() {
    let table = vec![sig(vec![], vec![])];
    let module = ModuleSections {
        sections: vec![
            Section {
                id: 0,
                payload: vec![1, b'x'],
            },
            Section {
                id: 1,
                payload: encode_type_section(&table),
            },
            Section {
                id: 3,
                payload: vec![1, 0],
            },
        ],
    };
    let mutator = AddTypeMutator {
        max_params: 1,
        max_results: 1,
    };
    let mut rng = SmallRng::seed_from_u64(5);
    let mutated = mutator.mutate(&mut rng, &module).unwrap();
    assert_eq!(mutated.sections.len(), 3);
    assert_eq!(mutated.sections[1].id, 1);
    assert_eq!(decode_type_section(&mutated.sections[1].payload).unwrap().len(), 2);
    assert_eq!(mutated.sections[0].payload, module.sections[0].payload);
    assert_eq!(mutated.sections[2].payload, module.sections[2].payload);
}

#[test]
fn determinism_same_seed_same_output() {
    let module = ModuleSections {
        sections: vec![Section {
            id: 1,
            payload: encode_type_section(&vec![sig(vec![ValType::I32], vec![])]),
        }],
    };
    let mutator = AddTypeMutator {
        max_params: 5,
        max_results: 5,
    };
    for seed in 0..50u64 {
        let mut rng_a = SmallRng::seed_from_u64(seed);
        let mut rng_b = SmallRng::seed_from_u64(seed);
        let a = mutator.mutate(&mut rng_a, &module).unwrap();
        let b = mutator.mutate(&mut rng_b, &module).unwrap();
        assert!(modules_equal(&a, &b));
    }
}

#[test]
fn zero_bounds_give_empty_signature() {
    let module = ModuleSections { sections: vec![] };
    let mutator = AddTypeMutator {
        max_params: 0,
        max_results: 0,
    };
    for seed in 0..50u64 {
        let mut rng = SmallRng::seed_from_u64(seed);
        let mutated = mutator.mutate(&mut rng, &module).unwrap();
        assert_eq!(mutated.sections.len(), 1);
        // one record, no params, no results, whatever was drawn
        assert_eq!(mutated.sections[0].payload, vec![1, 0x60, 0, 0]);
    }
}

#[test]
fn corrupt_table_aborts_without_change() {
    // length prefix exceeding the remaining bytes
    let module = ModuleSections {
        sections: vec![Section {
            id: 1,
            payload: vec![3, 0x60, 0, 0],
        }],
    };
    let mutator = AddTypeMutator {
        max_params: 2,
        max_results: 2,
    };
    let mut rng = SmallRng::seed_from_u64(0);
    let err = match mutator.mutate(&mut rng, &module) {
        Err(e) => e,
        Ok(_) => panic!("corrupt table was accepted"),
    };
    assert_eq!(err, MutationError::DecodeError);
    // the input module is byte-identical to what it was
    assert_eq!(module.sections.len(), 1);
    assert_eq!(module.sections[0].id, 1);
    assert_eq!(module.sections[0].payload, vec![3, 0x60, 0, 0]);
}

#[test]
fn reduction_mode_disables_mutator() {
    let mutator = AddTypeMutator {
        max_params: 1,
        max_results: 1,
    };
    assert!(!mutator.can_mutate(&MutateConfig { reduce: true }));
    assert!(mutator.can_mutate(&MutateConfig { reduce: false }));
}

#[test]
fn error_descriptions() {
    assert_eq!(
        MutationError::DecodeError.describe(),
        "malformed type section"
    );
    assert_eq!(
        MutationError::UnsupportedConstruct.describe(),
        "unsupported construct in type section"
    );
    assert_eq!(
        MutationError::EncodingOverflow.describe(),
        "type table too large to encode"
    );
}

#[test]
fn generated_signature_respects_bounds() {
    let mutator = AddTypeMutator {
        max_params: 3,
        max_results: 2,
    };
    for seed in 0..50u64 {
        let mut rng = SmallRng::seed_from_u64(seed);
        let s = mutator.generate_signature(&mut rng);
        assert!(s.params.len() <= 3);
        assert!(s.results.len() <= 2);
    }
}
