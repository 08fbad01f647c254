use fuzzamoto::builder::ProgramBuilder;
use fuzzamoto::ir::{Instruction, Mutator, MutatorResult, Operation, Program, RandomSource, Splicer};
use fuzzamoto::mutators::{
    Generator, GeneratorError, IrGenerator, IrSpliceMutator, MutationOutcome, MAX_INSTRUCTIONS,
};
use rand::rngs::StdRng;
use rand::SeedableRng;

fn instr(inputs: Vec<usize>, outputs: Vec<u32>) -> Instruction {
    Instruction {
        inputs,
        operation: Operation {
            output_types: outputs,
            input_mutable: false,
            block_begin: false,
            block_end: false,
        },
    }
}

/// Generates, at a fixed index, one instruction defining `count` variables.
struct FixedGenerator {
    index: usize,
    count: usize,
}

impl<R: RandomSource> Generator<R> for FixedGenerator {
    fn generate(&mut self, builder: &mut ProgramBuilder, _rng: &mut R) -> Result<(), GeneratorError> {
        builder
            .append(instr(vec![], vec![9; self.count]))
            .map_err(|_| GeneratorError::InvalidInstruction)
    }

    fn choose_index(&self, program: &Program, _rng: &mut R) -> Option<usize> {
        if self.index <= program.instructions.len() {
            Some(self.index)
        } else {
            None
        }
    }

    fn name(&self) -> &'static str {
        "FixedGenerator"
    }
}

/// Appends the other program's instructions, renumbered after the own ones.
struct AppendSplicer;

impl<R: RandomSource> Mutator<R> for AppendSplicer {
    fn mutate(&mut self, _program: &mut Program, _rng: &mut R) -> MutatorResult {
        Ok(())
    }

    fn name(&self) -> &'static str {
        "AppendSplicer"
    }
}

impl<R: RandomSource> Splicer<R> for AppendSplicer {
    fn splice(&mut self, program: &mut Program, splice_with: &Program, _rng: &mut R) -> MutatorResult {
        let mut b = ProgramBuilder::new();
        b.append_all(program.instructions.drain(..).collect())
            .map_err(|_| fuzzamoto::ir::MutatorError::CreatedInvalidProgram)?;
        let shift = b.variable_count();
        let other: Vec<Instruction> = splice_with.instructions.iter().map(|i| i.duplicate()).collect();
        b.append_program(other, 0, shift)
            .map_err(|_| fuzzamoto::ir::MutatorError::CreatedInvalidProgram)?;
        *program = b.finalize();
        Ok(())
    }
}

fn sample() -> Program {
    Program { instructions: vec![instr(vec![], vec![1]), instr(vec![0], vec![2]), instr(vec![1], vec![])] }
}

#[test]
fn generation_renumbers_the_rest() {
    let mut g = IrGenerator::new(FixedGenerator { index: 1, count: 2 }, StdRng::seed_from_u64(0));
    assert_eq!(g.name(), "FixedGenerator");
    let mut p = sample();
    assert_eq!(g.mutate(&mut p), MutationOutcome::Mutated);
    assert!(p.is_well_formed());
    assert_eq!(p.instructions.len(), 4);
    assert_eq!(p.instructions[1].operation.output_types, vec![9, 9]);
    // Variable 0 stays; the rest's own variable 1 becomes 3.
    assert_eq!(p.instructions[2].inputs, vec![0]);
    assert_eq!(p.instructions[3].inputs, vec![3]);
}

#[test]
fn generation_skips_when_no_index() {
    let mut g = IrGenerator::new(FixedGenerator { index: 9, count: 1 }, StdRng::seed_from_u64(0));
    let mut p = sample();
    assert_eq!(g.mutate(&mut p), MutationOutcome::Skipped);
    assert_eq!(p.instructions.len(), 3);
}

#[test]
fn generation_respects_the_limit() {
    let mut g = IrGenerator::new(FixedGenerator { index: 0, count: 0 }, StdRng::seed_from_u64(0));
    let mut p = Program { instructions: (0..MAX_INSTRUCTIONS).map(|_| instr(vec![], vec![])).collect() };
    assert_eq!(g.mutate(&mut p), MutationOutcome::Skipped);
    assert_eq!(p.instructions.len(), MAX_INSTRUCTIONS);
}

#[test]
fn splicing_with_limit() {
    let mut s = IrSpliceMutator::new(AppendSplicer, StdRng::seed_from_u64(0));
    assert_eq!(s.name(), "AppendSplicer");
    let mut p = sample();
    let other = sample();
    assert_eq!(s.splice(&mut p, &other), MutationOutcome::Mutated);
    assert_eq!(p.instructions.len(), 6);
    assert_eq!(p.instructions[4].inputs, vec![2]);
    let big = Program { instructions: (0..MAX_INSTRUCTIONS).map(|_| instr(vec![], vec![])).collect() };
    let mut p = sample();
    assert_eq!(s.splice(&mut p, &big), MutationOutcome::Skipped);
    assert_eq!(p.instructions.len(), 3);
    assert_eq!(p.instructions[2].inputs, vec![1]);
}

#[test]
fn well_formedness_check() {
    assert!(sample().is_well_formed());
    assert!(Program { instructions: vec![] }.is_well_formed());
    assert!(!Program { instructions: vec![instr(vec![0], vec![1])] }.is_well_formed());
    let mut mutable = instr(vec![], vec![]);
    mutable.operation.input_mutable = true;
    assert!(!Program { instructions: vec![mutable] }.is_well_formed());
}

/// Replaces the first instruction by one defining no variable.
struct FirstEraser;

impl<R: RandomSource> Mutator<R> for FirstEraser {
    fn mutate(&mut self, program: &mut Program, _rng: &mut R) -> MutatorResult {
        if program.instructions.is_empty() {
            return Err(fuzzamoto::ir::MutatorError::NoMutationsAvailable);
        }
        program.instructions[0] = instr(vec![], vec![]);
        program.instructions.truncate(1);
        Ok(())
    }

    fn name(&self) -> &'static str {
        "FirstEraser"
    }
}

#[test]
fn default_mutate_from_keeps_the_prefix() {
    let mut rng = StdRng::seed_from_u64(0);
    let mut m = FirstEraser;
    let mut p = sample();
    assert_eq!(
        m.mutate_from(&mut p, &mut rng, 1),
        Err(fuzzamoto::ir::MutatorError::NoMutationsAvailable)
    );
    assert_eq!(p.instructions.len(), 3);
    assert_eq!(p.instructions[0].operation.output_types, vec![1]);
    assert_eq!(m.mutate_from(&mut p, &mut rng, 0), Ok(()));
    assert_eq!(p.instructions.len(), 1);
    assert!(p.instructions[0].operation.output_types.is_empty());
}

#[test]
fn default_splice_from_keeps_the_prefix() {
    let mut rng = StdRng::seed_from_u64(0);
    let mut s = AppendSplicer;
    let mut p = sample();
    let other = sample();
    assert_eq!(s.splice_from(&mut p, &other, &mut rng, 3), Ok(()));
    assert_eq!(p.instructions.len(), 6);
    assert_eq!(p.instructions[2].inputs, vec![1]);
}
