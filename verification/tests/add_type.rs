//! Tests of the mutator against real module binaries produced by `wat`.

use rand::rngs::SmallRng;
use rand::SeedableRng;
use wasm_mutate::add_type::AddTypeMutator;
use wasm_mutate::module::{ModuleSections, Section};

const HEADER: [u8; 8] = [0, 97, 115, 109, 1, 0, 0, 0];

fn read_leb_u32(bytes: &[u8], mut pos: usize) -> (u32, usize) {
    let mut v: u32 = 0;
    let mut shift = 0;
    loop {
        let b = bytes[pos];
        pos += 1;
        v |= ((b & 0x7f) as u32) << shift;
        if b & 0x80 == 0 {
            break;
        }
        shift += 7;
    }
    (v, pos)
}

fn parse_module(bytes: &[u8]) -> ModuleSections {
    assert_eq!(&bytes[0..8], &HEADER);
    let mut pos = 8;
    let mut sections = Vec::new();
    while pos < bytes.len() {
        let id = bytes[pos];
        pos += 1;
        let (size, next) = read_leb_u32(bytes, pos);
        pos = next;
        let payload = bytes[pos..pos + size as usize].to_vec();
        pos += size as usize;
        sections.push(Section { id, payload });
    }
    ModuleSections { sections }
}

fn encode_module(m: &ModuleSections) -> Vec<u8> {
    let mut out = HEADER.to_vec();
    for s in &m.sections {
        out.push(s.id);
        let mut v = s.payload.len() as u32;
        while v >= 0x80 {
            out.push((v & 0x7f) as u8 | 0x80);
            v >>= 7;
        }
        out.push(v as u8);
        out.extend_from_slice(&s.payload);
    }
    out
}

/// Runs the mutator over many seeds and asserts that some seed turns
/// the original module into exactly the expected one, byte for byte.
fn match_mutation(original: &str, mutator: AddTypeMutator, expected: &str) {
    let original = wat::parse_str(original).unwrap();
    let expected = wat::parse_str(expected).unwrap();
    let module = parse_module(&original);
    for seed in 0..4000u64 {
        let mut rng = SmallRng::seed_from_u64(seed);
        let mutated = mutator.mutate(&mut rng, &module).unwrap();
        if encode_module(&mutated) == expected {
            return;
        }
    }
    panic!("no seed produced the expected mutation");
}

#[test]
fn add_type_to_empty_module() {
    match_mutation(
        r#"
                (module)
            "#,
        AddTypeMutator {
            max_params: 1,
            max_results: 1,
        },
        r#"
                (module
                    (type (;0;) (func (param i32) (result i64)))
                )
            "#,
    );
}

#[test]
fn add_type_to_non_empty_module() {
    match_mutation(
        r#"
                (module
                    (type (;0;) (func (param i32) (result i64)))
                )
            "#,
        AddTypeMutator {
            max_params: 1,
            max_results: 1,
        },
        r#"
                (module
                    (type (;0;) (func (param i32) (result i64)))
                    (type (;0;) (func (param i64) (result i32)))
                )
            "#,
    );
}

#[test]
fn add_type_with_custom_section_first() {
    match_mutation(
        r#"
                (module
                    (@custom "HI" (before type) "xxx")
                    (type (;0;) (func (param i32) (result i64)))
                )
            "#,
        AddTypeMutator {
            max_params: 1,
            max_results: 1,
        },
        r#"
                (module
                    (@custom "HI" (before type) "xxx")
                    (type (;0;) (func (param i32) (result i64)))
                    (type (;0;) (func (param i64) (result i32)))
                )
            "#,
    );
}
