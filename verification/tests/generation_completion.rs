use fuzzamoto::builder::{prefix_kept, BuilderError, ProgramBuilder};
use fuzzamoto::ir::{Instruction, MutatorError, Operation, Program};
use fuzzamoto::mutators::{
    adopt_candidate, complete_generation, finish_generation, prepare_generation, GeneratorError,
    MutationOutcome, MAX_INSTRUCTIONS,
};

fn instr(inputs: Vec<usize>, outputs: Vec<u32>) -> Instruction {
    Instruction {
        inputs,
        operation: Operation {
            output_types: outputs,
            input_mutable: false,
            block_begin: false,
            block_end: false,
        },
    }
}

fn shapes(instrs: &[Instruction]) -> Vec<(Vec<usize>, Vec<u32>)> {
    instrs
        .iter()
        .map(|i| (i.inputs.clone(), i.operation.output_types.clone()))
        .collect()
}

fn empties(n: usize) -> Vec<Instruction> {
    (0..n).map(|_| instr(vec![], vec![])).collect()
}

#[test]
fn append_all_stops_at_an_undefined_read() {
    let mut b = ProgramBuilder::new();
    assert_eq!(b.append_all(vec![instr(vec![], vec![1]), instr(vec![0], vec![])]), Ok(()));
    assert_eq!(
        b.append_all(vec![instr(vec![], vec![2]), instr(vec![5], vec![])]),
        Err(BuilderError::UndefinedVariable)
    );
    assert_eq!(b.variable_count(), 2);
}

#[test]
fn append_program_rejects_overflowing_renumbering() {
    let mut b = ProgramBuilder::new();
    assert_eq!(b.append(instr(vec![], vec![1, 1])), Ok(()));
    assert_eq!(
        b.append_program(vec![instr(vec![1], vec![])], 0, usize::MAX),
        Err(BuilderError::TooManyVariables)
    );
}

#[test]
fn candidate_is_adopted_only_on_success_within_the_limit() {
    let original = || vec![instr(vec![], vec![1])];
    let candidate = || vec![instr(vec![], vec![1]), instr(vec![0], vec![])];

    let mut input = Program { instructions: original() };
    let r = adopt_candidate(&mut input, Program { instructions: candidate() }, Ok(()));
    assert_eq!(r, MutationOutcome::Mutated);
    assert_eq!(shapes(&input.instructions), shapes(&candidate()));

    let mut input = Program { instructions: original() };
    let r = adopt_candidate(
        &mut input,
        Program { instructions: candidate() },
        Err(MutatorError::NoMutationsAvailable),
    );
    assert_eq!(r, MutationOutcome::Skipped);
    assert_eq!(shapes(&input.instructions), shapes(&original()));

    let mut input = Program { instructions: original() };
    let long = empties(MAX_INSTRUCTIONS + 1);
    let r = adopt_candidate(&mut input, Program { instructions: long }, Ok(()));
    assert_eq!(r, MutationOutcome::Skipped);
    assert_eq!(shapes(&input.instructions), shapes(&original()));
}

#[test]
fn completion_renumbers_the_rest() {
    let program = Program {
        instructions: vec![
            instr(vec![], vec![7]),
            instr(vec![0], vec![8]),
            instr(vec![1], vec![]),
        ],
    };
    let mut builder = ProgramBuilder::new();
    assert_eq!(builder.append(instr(vec![], vec![7])), Ok(()));
    let prefix_vars = builder.variable_count();
    assert_eq!(builder.append(instr(vec![0], vec![9])), Ok(()));
    let p = complete_generation(&program, 1, builder, prefix_vars).unwrap();
    assert_eq!(
        shapes(&p.instructions),
        vec![(vec![], vec![7]), (vec![0], vec![9]), (vec![0], vec![8]), (vec![2], vec![])]
    );
}

#[test]
fn generation_past_the_limit_is_refused() {
    let program = Program { instructions: empties(MAX_INSTRUCTIONS) };
    let mut builder = ProgramBuilder::new();
    assert_eq!(builder.append(instr(vec![], vec![])), Ok(()));
    assert!(complete_generation(&program, 0, builder, 0).is_none());
}

#[test]
fn completion_keeps_the_generated_instructions() {
    let program = Program { instructions: vec![instr(vec![], vec![7])] };
    let mut builder = ProgramBuilder::new();
    assert_eq!(builder.append(instr(vec![], vec![7])), Ok(()));
    assert_eq!(builder.append(instr(vec![0], vec![5, 6])), Ok(()));
    let p = complete_generation(&program, 1, builder, 1).unwrap();
    assert_eq!(shapes(&p.instructions), vec![(vec![], vec![7]), (vec![0], vec![5, 6])]);
}

#[test]
fn prefix_comparison() {
    let a = vec![instr(vec![], vec![1]), instr(vec![0], vec![])];
    let b = vec![instr(vec![], vec![1]), instr(vec![0], vec![2])];
    assert!(prefix_kept(&a, &b, 1));
    assert!(!prefix_kept(&a, &b, 2));
    assert!(!prefix_kept(&a, &b[..1].iter().map(|i| i.duplicate()).collect::<Vec<_>>(), 2));
    assert!(prefix_kept(&a, &a.iter().map(|i| i.duplicate()).collect::<Vec<_>>(), 10));
}

fn three() -> Program {
    Program {
        instructions: vec![instr(vec![], vec![7]), instr(vec![0], vec![8]), instr(vec![1], vec![])],
    }
}

#[test]
fn preparation_copies_the_prefix() {
    let program = three();
    assert!(prepare_generation(&program, None).is_none());
    let (index, builder, vars) = prepare_generation(&program, Some(2)).unwrap();
    assert_eq!((index, vars), (2, 2));
    assert_eq!(
        shapes(&builder.finalize().instructions),
        vec![(vec![], vec![7]), (vec![0], vec![8])]
    );
}

#[test]
fn finishing_after_a_failed_generator_keeps_the_program() {
    let mut program = three();
    let (index, mut builder, vars) = prepare_generation(&program, Some(1)).unwrap();
    assert_eq!(builder.append(instr(vec![], vec![9])), Ok(()));
    let r = finish_generation(&mut program, index, builder, vars, Err(GeneratorError::Unavailable));
    assert_eq!(r, MutationOutcome::Skipped);
    assert_eq!(shapes(&program.instructions), shapes(&three().instructions));

    let (index, mut builder, vars) = prepare_generation(&program, Some(1)).unwrap();
    assert_eq!(builder.append(instr(vec![], vec![9])), Ok(()));
    let r = finish_generation(&mut program, index, builder, vars, Ok(()));
    assert_eq!(r, MutationOutcome::Mutated);
    assert_eq!(
        shapes(&program.instructions),
        vec![(vec![], vec![7]), (vec![], vec![9]), (vec![0], vec![8]), (vec![2], vec![])]
    );
}
