use fuzzamoto::builder::{BuilderError, ProgramBuilder};
use fuzzamoto::input::{apply_input_swap, collect_input_candidates, InputMutator};
use fuzzamoto::ir::{Instruction, Mutator, MutatorError, Operation, Program, VariableLookup};
use fuzzamoto::mutators::{bitcoin_script_dictionary, IrMutator, MutationOutcome, MAX_INSTRUCTIONS};
use rand::rngs::StdRng;
use rand::SeedableRng;

fn instr(inputs: Vec<usize>, outputs: Vec<u32>, mutable: bool) -> Instruction {
    Instruction {
        inputs,
        operation: Operation {
            output_types: outputs,
            input_mutable: mutable,
            block_begin: false,
            block_end: false,
        },
    }
}

/// Three variables (types 1, 1, 2) and one instruction reading variable 0.
fn sample() -> Program {
    Program {
        instructions: vec![
            instr(vec![], vec![1], false),
            instr(vec![], vec![1], false),
            instr(vec![], vec![2], false),
            instr(vec![0], vec![], true),
        ],
    }
}

#[test]
fn lookup_sees_earlier_variables() {
    let p = sample();
    let lookup = VariableLookup::from_instructions(&p.instructions, 3);
    assert_eq!(lookup.types, vec![1, 1, 2]);
    let v = lookup.get_variable(2).unwrap();
    assert_eq!((v.var, v.index), (2, 2));
    assert!(lookup.get_variable(3).is_none());
    let mut rng = StdRng::seed_from_u64(7);
    for _ in 0..20 {
        let v = lookup.get_random_variable(&mut rng, 1).unwrap();
        assert!(v.index <= 1 && v.var == 1);
    }
    assert!(lookup.get_random_variable(&mut rng, 9).is_none());
}

#[test]
fn input_mutator_swaps_same_typed_variable() {
    let mut swapped = 0;
    for seed in 0..64 {
        let mut p = sample();
        let mut rng = StdRng::seed_from_u64(seed);
        let mut m = InputMutator::new();
        match m.mutate(&mut p, &mut rng) {
            Ok(()) => {
                assert_eq!(p.instructions[3].inputs, vec![1]);
                swapped += 1;
            }
            Err(e) => {
                assert_eq!(e, MutatorError::NoMutationsAvailable);
                assert_eq!(p.instructions[3].inputs, vec![0]);
            }
        }
        for i in 0..3 {
            assert!(p.instructions[i].inputs.is_empty());
        }
    }
    assert!(swapped > 0);
}

#[test]
fn input_mutator_without_candidates() {
    let mut rng = StdRng::seed_from_u64(1);
    let mut m = InputMutator::default();
    let mut p = Program { instructions: vec![instr(vec![], vec![1], false)] };
    assert_eq!(m.mutate(&mut p, &mut rng), Err(MutatorError::NoMutationsAvailable));
    let mut p = sample();
    assert_eq!(m.mutate_from(&mut p, &mut rng, 4), Err(MutatorError::NoMutationsAvailable));
    assert_eq!(p.instructions[3].inputs, vec![0]);
    // The only variable of its type cannot be swapped for another.
    let mut p = Program {
        instructions: vec![instr(vec![], vec![5], false), instr(vec![0], vec![], true)],
    };
    assert_eq!(m.mutate(&mut p, &mut rng), Err(MutatorError::NoMutationsAvailable));
    assert_eq!(Mutator::<StdRng>::name(&m), "InputMutator");
}

#[test]
fn builder_checks_instructions() {
    let mut b = ProgramBuilder::new();
    assert_eq!(b.append(instr(vec![0], vec![], false)), Err(BuilderError::UndefinedVariable));
    assert_eq!(b.append(instr(vec![], vec![], true)), Err(BuilderError::MissingInput));
    assert_eq!(b.append(instr(vec![], vec![3, 4], false)), Ok(()));
    assert_eq!(b.variable_count(), 2);
    assert_eq!(b.append(instr(vec![1], vec![], true)), Ok(()));
    // Renumbered: variable 0 stays, variable 1 moves to 3.
    assert_eq!(
        b.append_program(vec![instr(vec![], vec![7, 7], false), instr(vec![0, 1], vec![], false)], 1, 2),
        Ok(())
    );
    assert_eq!(b.variable_count(), 4);
    assert_eq!(
        b.append_program(vec![instr(vec![4], vec![], false)], 0, 1),
        Err(BuilderError::UndefinedVariable)
    );
    let p = b.finalize();
    assert_eq!(p.instructions.len(), 4);
    assert_eq!(p.instructions[3].inputs, vec![0, 3]);
}

#[test]
fn ir_mutator_reports_outcome() {
    let mut m = IrMutator::new(InputMutator::new(), StdRng::seed_from_u64(3));
    assert_eq!(m.name(), "InputMutator");
    let mut p = Program { instructions: vec![] };
    assert_eq!(m.mutate(&mut p), MutationOutcome::Skipped);
    let mut seen_mutated = false;
    for _ in 0..32 {
        let mut p = sample();
        if m.mutate(&mut p) == MutationOutcome::Mutated {
            assert_eq!(p.instructions[3].inputs, vec![1]);
            seen_mutated = true;
        }
    }
    assert!(seen_mutated);
    assert_eq!(MAX_INSTRUCTIONS, 4096);
}

#[test]
fn script_dictionary_tokens() {
    let tokens = bitcoin_script_dictionary();
    assert_eq!(tokens.len(), 107);
    assert_eq!(tokens[0], vec![0x00]);
    assert_eq!(tokens[1], vec![0x4f]);
    assert_eq!(tokens[97], vec![0xba]);
    assert!(tokens[..98].iter().all(|t| t.len() == 1));
    assert_eq!(tokens[98], vec![0x00, 0x14]);
    assert_eq!(tokens[101], vec![0x76, 0xa9, 0x14]);
    // OP_EQUAL is both an opcode and a template; the dictionary holds it once.
    assert_eq!(tokens[104], vec![0xc0]);
    assert_eq!(tokens[106], vec![0x00, 0x01]);
    assert_eq!(tokens.iter().filter(|t| **t == vec![0x87]).count(), 1);
    for (i, a) in tokens.iter().enumerate() {
        assert!(!tokens[..i].contains(a));
    }
}

#[test]
fn input_candidates_in_order() {
    let p = sample();
    assert_eq!(collect_input_candidates(&p.instructions, 0), vec![3]);
    assert_eq!(collect_input_candidates(&p.instructions, 3), vec![3]);
    assert!(collect_input_candidates(&p.instructions, 4).is_empty());
    let mut q = sample();
    q.instructions.push(instr(vec![1], vec![], true));
    assert_eq!(collect_input_candidates(&q.instructions, 0), vec![3, 4]);
    assert_eq!(collect_input_candidates(&q.instructions, 4), vec![4]);
}

#[test]
fn input_swap_application() {
    let mut p = sample();
    // Variable 0 is already read there: nothing changes.
    assert_eq!(apply_input_swap(&mut p, 3, 0, 0), Err(MutatorError::NoMutationsAvailable));
    assert_eq!(p.instructions[3].inputs, vec![0]);
    // Variable 1 has the same type.
    assert_eq!(apply_input_swap(&mut p, 3, 0, 1), Ok(()));
    assert_eq!(p.instructions[3].inputs, vec![1]);
    assert_eq!(p.instructions.len(), 4);
}
