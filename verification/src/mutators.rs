//! Mutation stages over programs: mutators, splicers and generators, each
//! bounded to a maximum program size.
use vstd::prelude::*;

use crate::builder::{
    can_append_renumbered, copy_range, count_before, is_renumbered, lemma_same_renumbered,
    renumbered_fits, renumbered_input, same_instructions, ProgramBuilder,
};
use crate::ir::{
    defined_types, instruction_wf, instructions_wf, types_before, Instruction, Mutator, MutatorResult,
    Program, RandomSource, Splicer,
};

verus! {

/// Instruction limit for mutated programs.
pub const MAX_INSTRUCTIONS: usize = 4096;

/// Whether a mutation stage changed its input.
#[derive(Debug, Clone, Copy, PartialEq, Eq)]
pub enum MutationOutcome {
    Mutated,
    Skipped,
}

/// The outcome a mutator's result stands for: success means the input was
/// mutated, an error that the mutation was skipped.
pub fn outcome_of(result: MutatorResult) -> (r: MutationOutcome)
    ensures
        r == (if result is Ok {
            MutationOutcome::Mutated
        } else {
            MutationOutcome::Skipped
        }),
{
    match result {
        Ok(()) => MutationOutcome::Mutated,
        Err(_) => MutationOutcome::Skipped,
    }
}

/// Applies a program mutator with its own random source.
pub struct IrMutator<M, R> {
    mutator: M,
    rng: R,
    name: &'static str,
}

impl<M: Mutator<R>, R: RandomSource> IrMutator<M, R> {
    pub closed spec fn spec_mutator(&self) -> M {
        self.mutator
    }

    pub closed spec fn spec_rng(&self) -> R {
        self.rng
    }

    pub closed spec fn spec_name(&self) -> &'static str {
        self.name
    }

    pub fn new(mutator: M, rng: R) -> (r: Self)
        ensures
            r.spec_mutator() == mutator,
            r.spec_rng() == rng,
            call_ensures(<M as Mutator<R>>::name, (&mutator,), r.spec_name()),
    {
        let name = mutator.name();
        IrMutator { mutator, rng, name }
    }

    /// The name of the wrapped mutator.
    pub fn name(&self) -> (r: &'static str)
        ensures
            r == self.spec_name(),
    {
        self.name
    }

    /// Mutates `program`; a mutator error means the mutation was skipped.
    pub fn mutate(&mut self, program: &mut Program) -> (r: MutationOutcome)
        requires
            old(program).wf(),
        ensures
            final(program).wf(),
            final(self).spec_name() == old(self).spec_name(),
            exists|m: &mut M, p: &mut Program, rr: &mut R, res: MutatorResult|
                #![trigger call_ensures(<M as Mutator<R>>::mutate, (m, p, rr), res)]
                {
                    &&& call_ensures(<M as Mutator<R>>::mutate, (m, p, rr), res)
                    &&& mut_ref_current(m) == old(self).spec_mutator()
                    &&& mut_ref_future(m) == final(self).spec_mutator()
                    &&& mut_ref_current(p) == *old(program)
                    &&& mut_ref_future(p) == *final(program)
                    &&& (r is Mutated <==> res is Ok)
                },
    {
        outcome_of(self.mutator.mutate(program, &mut self.rng))
    }
}

/// Applies a splicer with its own random source.
pub struct IrSpliceMutator<M, R> {
    mutator: M,
    rng: R,
    name: &'static str,
}

impl<M: Splicer<R>, R: RandomSource> IrSpliceMutator<M, R> {
    pub closed spec fn spec_mutator(&self) -> M {
        self.mutator
    }

    pub closed spec fn spec_rng(&self) -> R {
        self.rng
    }

    pub closed spec fn spec_name(&self) -> &'static str {
        self.name
    }

    pub fn new(mutator: M, rng: R) -> (r: Self)
        ensures
            r.spec_mutator() == mutator,
            r.spec_rng() == rng,
            call_ensures(<M as Mutator<R>>::name, (&mutator,), r.spec_name()),
    {
        let name = mutator.name();
        IrSpliceMutator { mutator, rng, name }
    }

    pub fn name(&self) -> (r: &'static str)
        ensures
            r == self.spec_name(),
    {
        self.name
    }

    /// Splices `other` into a copy of `input`; the copy replaces `input` only
    /// when splicing succeeds and the result has at most `MAX_INSTRUCTIONS`
    /// instructions.
    pub fn splice(&mut self, input: &mut Program, other: &Program) -> (r: MutationOutcome)
        requires
            old(input).wf(),
            other.wf(),
        ensures
            final(self).spec_name() == old(self).spec_name(),
            r is Skipped ==> final(input).instructions@ == old(input).instructions@,
            r is Mutated ==> final(input).wf() && final(input).instructions@.len()
                <= MAX_INSTRUCTIONS,
            exists|m: &mut M, c: &mut Program, rr: &mut R, res: MutatorResult|
                #![trigger call_ensures(<M as Splicer<R>>::splice, (m, c, other, rr), res)]
                {
                    &&& call_ensures(<M as Splicer<R>>::splice, (m, c, other, rr), res)
                    &&& mut_ref_current(m) == old(self).spec_mutator()
                    &&& mut_ref_future(m) == final(self).spec_mutator()
                    &&& same_instructions(
                        old(input).instructions@,
                        mut_ref_current(c).instructions@,
                    )
                    &&& (r is Mutated <==> (res is Ok && mut_ref_future(c).instructions@.len()
                        <= MAX_INSTRUCTIONS))
                    &&& (r is Mutated ==> final(input).instructions@ == mut_ref_future(
                        c,
                    ).instructions@)
                },
    {
        let mut candidate = input.duplicate();
        proof {
            crate::builder::lemma_same_wf(input.instructions@, candidate.instructions@);
        }
        let spliced = self.mutator.splice(&mut candidate, other, &mut self.rng);
        adopt_candidate(input, candidate, spliced)
    }
}

/// Decides on a mutated copy of `input`: it replaces `input` exactly when
/// the mutation that made it succeeded and it has at most
/// `MAX_INSTRUCTIONS` instructions; otherwise `input` stays as it was.
pub fn adopt_candidate(input: &mut Program, candidate: Program, result: MutatorResult) -> (r:
    MutationOutcome)
    requires
        candidate.wf(),
    ensures
        r is Mutated <==> (result is Ok && candidate.instructions@.len() <= MAX_INSTRUCTIONS),
        r is Mutated ==> final(input).instructions@ == candidate.instructions@,
        r is Skipped ==> final(input).instructions@ == old(input).instructions@,
{
    if result.is_err() {
        return MutationOutcome::Skipped;
    }
    if candidate.instructions.len() > MAX_INSTRUCTIONS {
        return MutationOutcome::Skipped;
    }
    *input = candidate;
    MutationOutcome::Mutated
}

/// Why a generator produced nothing.
#[derive(Debug, Clone, Copy, PartialEq, Eq)]
pub enum GeneratorError {
    /// The generator found nothing to generate at this point.
    Unavailable,
    /// The generated instructions were rejected.
    InvalidInstruction,
}

/// A strategy that generates new instructions at a point of a program.
pub trait Generator<R: RandomSource> {
    /// Appends generated instructions to `builder`, keeping what it holds.
    fn generate(&mut self, builder: &mut ProgramBuilder, rng: &mut R) -> (r: Result<(), GeneratorError>)
        requires
            old(builder).wf(),
        ensures
            final(builder).wf(),
            final(builder).spec_instructions().len() >= old(builder).spec_instructions().len(),
            final(builder).spec_instructions().take(old(builder).spec_instructions().len() as int)
                == old(builder).spec_instructions(),
    ;

    /// The position in `program` where to generate.
    fn choose_index(&self, program: &Program, rng: &mut R) -> (r: Option<usize>)
        requires
            program.wf(),
        ensures
            r matches Some(i) ==> i <= program.instructions@.len(),
    ;

    /// The name the generator reports.
    fn name(&self) -> &'static str;
}

/// `new` is `old` with instructions generated at position `k`: the
/// instructions before `k` are kept, and the rest of `old` ends `new`, its
/// own variables renumbered past the `shift` new ones.
pub open spec fn is_generated_at(old: Seq<Instruction>, new: Seq<Instruction>, k: int, shift: usize) -> bool {
    let rest = old.len() - k;
    &&& 0 <= k <= old.len()
    &&& new.len() >= old.len()
    &&& same_instructions(old.take(k), new.take(k))
    &&& forall|j: int|
        0 <= j < rest ==> is_renumbered(
            old[k + j],
            #[trigger] new[new.len() - rest + j],
            defined_types(old.take(k)).len() as usize,
            shift,
        )
}

spec fn same_instruction_at(a: Seq<Instruction>, b: Seq<Instruction>, i: int) -> bool {
    crate::builder::same_instruction(a[i], b[i])
}

/// The variables of two programs one after the other are those of the first,
/// then those of the second.
proof fn lemma_defined_types_concat(a: Seq<Instruction>, b: Seq<Instruction>)
    ensures
        defined_types(a + b) == defined_types(a) + defined_types(b),
    decreases b.len(),
{
    if b.len() == 0 {
        assert(a + b =~= a);
        assert(defined_types(b) =~= Seq::<u32>::empty());
        assert(defined_types(a) + defined_types(b) =~= defined_types(a));
    } else {
        assert((a + b).drop_last() =~= a + b.drop_last());
        lemma_defined_types_concat(a, b.drop_last());
        assert(defined_types(a + b) =~= defined_types(a) + defined_types(b));
    }
}

/// The rest of a well-formed program, renumbered past the variables a
/// generator added, can be appended after the generated instructions
/// exactly when all the variables can still be counted in a `usize`.
proof fn lemma_rest_appendable(
    instrs: Seq<Instruction>,
    k: int,
    generated: Seq<Instruction>,
    prefix_vars: usize,
    added: usize,
)
    requires
        instructions_wf(instrs),
        0 <= k <= instrs.len(),
        prefix_vars == defined_types(instrs.take(k)).len(),
        defined_types(generated).len() == prefix_vars + added,
    ensures
        can_append_renumbered(generated, instrs.skip(k), prefix_vars, added)
            <==> defined_types(generated).len() + defined_types(instrs.skip(k)).len() <= usize::MAX,
{
    let rest = instrs.skip(k);
    assert forall|j: int| 0 <= j < rest.len() implies #[trigger] renumbered_fits(
        rest[j],
        count_before(generated, rest, j),
        prefix_vars,
        added,
    ) by {
        assert(instruction_wf(instrs, k + j));
        assert(instrs[k + j] == rest[j]);
        assert(instrs.take(k + j) =~= instrs.take(k) + rest.take(j));
        lemma_defined_types_concat(instrs.take(k), rest.take(j));
        assert forall|s: int| 0 <= s < rest[j].inputs@.len() implies #[trigger] renumbered_input(
            rest[j].inputs@[s],
            prefix_vars,
            added,
        ) < count_before(generated, rest, j) by {
            assert(rest[j].inputs@[s] < types_before(instrs, k + j).len());
        }
    }
    assert(rest.take(rest.len() as int) =~= rest);
}

/// Applies a generator with its own random source.
pub struct IrGenerator<G, R> {
    generator: G,
    rng: R,
    name: &'static str,
}

impl<G: Generator<R>, R: RandomSource> IrGenerator<G, R> {
    pub closed spec fn spec_generator(&self) -> G {
        self.generator
    }

    pub closed spec fn spec_rng(&self) -> R {
        self.rng
    }

    pub closed spec fn spec_name(&self) -> &'static str {
        self.name
    }

    pub fn new(generator: G, rng: R) -> (r: Self)
        ensures
            r.spec_generator() == generator,
            r.spec_rng() == rng,
            call_ensures(<G as Generator<R>>::name, (&generator,), r.spec_name()),
    {
        let name = generator.name();
        IrGenerator { generator, rng, name }
    }

    pub fn name(&self) -> (r: &'static str)
        ensures
            r == self.spec_name(),
    {
        self.name
    }

    /// Generates instructions at a position the generator chooses: the
    /// program's instructions before it, then the generated ones, then the
    /// rest of the program with its own variables renumbered past the new
    /// ones. The result replaces `program` only when every step succeeds and
    /// it has at most `MAX_INSTRUCTIONS` instructions.
    pub fn mutate(&mut self, program: &mut Program) -> (r: MutationOutcome)
        requires
            old(program).wf(),
        ensures
            final(self).spec_name() == old(self).spec_name(),
            r is Skipped ==> final(program).instructions@ == old(program).instructions@,
            r is Mutated ==> final(program).wf() && final(program).instructions@.len()
                <= MAX_INSTRUCTIONS,
            r is Mutated ==> exists|k: int, shift: usize|
                #![trigger is_generated_at(old(program).instructions@, final(program).instructions@, k, shift)]
                is_generated_at(old(program).instructions@, final(program).instructions@, k, shift),
            r is Mutated ==> exists|k: int, g: &mut G, b: &mut ProgramBuilder, rr: &mut R|
                #![trigger call_ensures(<G as Generator<R>>::generate, (g, b, rr), Ok::<(), GeneratorError>(())), old(program).instructions@.take(k)]
                {
                    &&& call_ensures(
                        <G as Generator<R>>::generate,
                        (g, b, rr),
                        Ok::<(), GeneratorError>(()),
                    )
                    &&& mut_ref_current(g) == old(self).spec_generator()
                    &&& mut_ref_future(g) == final(self).spec_generator()
                    &&& 0 <= k <= old(program).instructions@.len()
                    &&& same_instructions(
                        old(program).instructions@.take(k),
                        mut_ref_current(b).spec_instructions(),
                    )
                    &&& final(program).instructions@.take(
                        mut_ref_future(b).spec_instructions().len() as int,
                    ) == mut_ref_future(b).spec_instructions()
                    &&& is_generated_at(
                        old(program).instructions@,
                        final(program).instructions@,
                        k,
                        (mut_ref_future(b).spec_variable_count()
                            - mut_ref_current(b).spec_variable_count()) as usize,
                    )
                },
    {
        let chosen = self.generator.choose_index(program, &mut self.rng);
        let (index, mut builder, prefix_vars) = match prepare_generation(program, chosen) {
            Some(prepared) => prepared,
            None => {
                return MutationOutcome::Skipped;
            },
        };
        let ghost prepared = builder;
        let ghost gen_before = self.generator;
        let generated = self.generator.generate(&mut builder, &mut self.rng);
        let ghost generated_builder = builder;
        assert(exists|g: &mut G, b: &mut ProgramBuilder, rr: &mut R|
            #![trigger call_ensures(<G as Generator<R>>::generate, (g, b, rr), generated)]
            call_ensures(<G as Generator<R>>::generate, (g, b, rr), generated)
                && mut_ref_current(b) == prepared
                && mut_ref_future(b) == generated_builder
                && mut_ref_current(g) == gen_before
                && mut_ref_future(g) == self.generator);
        let r = finish_generation(program, index, builder, prefix_vars, generated);
        proof {
            if r is Mutated {
                assert(generated is Ok);
                let u: () = generated->Ok_0;
                assert(u == ());
                assert(generated == Ok::<(), GeneratorError>(u));
                assert(gen_before == old(self).spec_generator());
                assert(self.generator == final(self).spec_generator());
                assert(prepared.spec_variable_count() == prefix_vars);
                assert(same_instructions(old(program).instructions@.take(index as int), prepared.spec_instructions()));
            }
        }
        r
    }
}

/// A prefix of a well-formed program is well formed.
proof fn lemma_prefix_wf(instrs: Seq<Instruction>, i: int)
    requires
        instructions_wf(instrs),
        0 <= i <= instrs.len(),
    ensures
        instructions_wf(instrs.take(i)),
{
    assert forall|k: int| 0 <= k < instrs.take(i).len() implies #[trigger] instruction_wf(
        instrs.take(i),
        k,
    ) by {
        assert(instruction_wf(instrs, k));
        assert(instrs.take(i)[k] == instrs[k]);
        assert(instrs.take(i).take(k) =~= instrs.take(k));
    }
}

/// Prepares generating at the position a generator chose: `None` when it
/// chose none; otherwise a builder holding a copy of the instructions
/// before that position, with the number of variables they define. That
/// copy is refused only when its variables cannot be counted in a `usize`.
pub fn prepare_generation(program: &Program, chosen: Option<usize>) -> (r: Option<
    (usize, ProgramBuilder, usize),
>)
    requires
        program.wf(),
        chosen matches Some(i) ==> i <= program.instructions@.len(),
    ensures
        chosen is None ==> r is None,
        chosen matches Some(i) ==> (r is Some <==> defined_types(
            program.instructions@.take(i as int),
        ).len() <= usize::MAX),
        r matches Some((i, b, vars)) ==> {
            &&& chosen == Some(i)
            &&& b.wf()
            &&& same_instructions(program.instructions@.take(i as int), b.spec_instructions())
            &&& vars == defined_types(program.instructions@.take(i as int)).len()
            &&& vars == b.spec_variable_count()
        },
{
    let index = match chosen {
        Some(i) => i,
        None => {
            return None;
        },
    };
    let ghost old_instrs = program.instructions@;
    let mut builder = ProgramBuilder::new();
    let prefix = copy_range(&program.instructions, 0, index);
    let ghost prefix_view = prefix@;
    assert(old_instrs.subrange(0, index as int) =~= old_instrs.take(index as int));
    proof {
        crate::builder::lemma_same_defined_types(old_instrs.take(index as int), prefix_view);
        lemma_prefix_wf(old_instrs, index as int);
        crate::builder::lemma_same_wf(old_instrs.take(index as int), prefix_view);
        assert(Seq::<Instruction>::empty() + prefix_view =~= prefix_view);
    }
    if builder.append_all(prefix).is_err() {
        return None;
    }
    assert(builder.spec_instructions() =~= prefix_view);
    let prefix_vars = builder.variable_count();
    Some((index, builder, prefix_vars))
}

/// Finishes generating at `index` of `program` once the generator has run:
/// an error of the generator leaves the program as it was; otherwise the
/// program becomes what `complete_generation` gives, when it gives one.
pub fn finish_generation(
    program: &mut Program,
    index: usize,
    builder: ProgramBuilder,
    prefix_vars: usize,
    generated: Result<(), GeneratorError>,
) -> (r: MutationOutcome)
    requires
        old(program).wf(),
        builder.wf(),
        index <= old(program).instructions@.len(),
        index <= builder.spec_instructions().len(),
        same_instructions(
            old(program).instructions@.take(index as int),
            builder.spec_instructions().take(index as int),
        ),
        prefix_vars == defined_types(old(program).instructions@.take(index as int)).len(),
    ensures
        generated is Err ==> r is Skipped,
        r is Skipped ==> final(program).instructions@ == old(program).instructions@,
        generated is Ok ==> (r is Mutated <==> ({
            &&& builder.spec_variable_count() + defined_types(
                old(program).instructions@.skip(index as int),
            ).len() <= usize::MAX
            &&& builder.spec_instructions().len() + old(program).instructions@.len() - index
                <= MAX_INSTRUCTIONS
        })),
        r is Mutated ==> {
            &&& final(program).wf()
            &&& final(program).instructions@.len() <= MAX_INSTRUCTIONS
            &&& final(program).instructions@.take(builder.spec_instructions().len() as int)
                == builder.spec_instructions()
            &&& is_generated_at(
                old(program).instructions@,
                final(program).instructions@,
                index as int,
                (builder.spec_variable_count() - prefix_vars) as usize,
            )
        },
{
    if generated.is_err() {
        return MutationOutcome::Skipped;
    }
    match complete_generation(program, index, builder, prefix_vars) {
        Some(new_program) => {
            *program = new_program;
            MutationOutcome::Mutated
        },
        None => MutationOutcome::Skipped,
    }
}

/// Finishes generating at `index` of `program`: `builder` holds a copy of
/// the instructions before `index` followed by the generated ones, and
/// `prefix_vars` variables are defined by that copy. The result starts with
/// everything `builder` holds, followed by the rest of `program` with its own
/// variables renumbered past the generated ones. It is returned exactly when
/// all variables can still be counted in a `usize` and the whole has at most
/// `MAX_INSTRUCTIONS` instructions.
pub fn complete_generation(program: &Program, index: usize, builder: ProgramBuilder, prefix_vars: usize)
    -> (r: Option<Program>)
    requires
        program.wf(),
        builder.wf(),
        index <= program.instructions@.len(),
        index <= builder.spec_instructions().len(),
        same_instructions(
            program.instructions@.take(index as int),
            builder.spec_instructions().take(index as int),
        ),
        prefix_vars == defined_types(program.instructions@.take(index as int)).len(),
    ensures
        prefix_vars <= builder.spec_variable_count(),
        r is Some <==> ({
            &&& builder.spec_variable_count() + defined_types(
                program.instructions@.skip(index as int),
            ).len() <= usize::MAX
            &&& builder.spec_instructions().len() + program.instructions@.len() - index
                <= MAX_INSTRUCTIONS
        }),
        r matches Some(p) ==> p.instructions@.take(builder.spec_instructions().len() as int)
            == builder.spec_instructions(),
        r matches Some(p) ==> p.wf() && p.instructions@.len() <= MAX_INSTRUCTIONS
            && is_generated_at(
            program.instructions@,
            p.instructions@,
            index as int,
            (builder.spec_variable_count() - prefix_vars) as usize,
        ),
{
    let ghost old_instrs = program.instructions@;
    let ghost generated = builder.spec_instructions();
    let ghost prefix_view = generated.take(index as int);
    proof {
        crate::builder::lemma_same_defined_types(old_instrs.take(index as int), prefix_view);
        crate::builder::lemma_defined_types_grow(prefix_view, generated);
    }
    let mut builder = builder;
    let added = builder.variable_count() - prefix_vars;
    let second_half = copy_range(&program.instructions, index, program.instructions.len());
    let ghost rest_view = second_half@;
    proof {
        assert(old_instrs.subrange(index as int, old_instrs.len() as int) =~= old_instrs.skip(
            index as int,
        ));
        lemma_same_renumbered(generated, old_instrs.skip(index as int), rest_view, prefix_vars, added);
        lemma_rest_appendable(old_instrs, index as int, generated, prefix_vars, added);
    }
    if builder.append_program(second_half, prefix_vars, added).is_err() {
        return None;
    }
    let new_program = builder.finalize();
    if new_program.instructions.len() > MAX_INSTRUCTIONS {
        return None;
    }
    proof {
        let new_instrs = new_program.instructions@;
        let k = index as int;
        let rest = old_instrs.len() - k;
        assert(new_instrs.take(generated.len() as int) == generated);
        assert(new_instrs.take(k) =~= generated.take(k));
        assert forall|i: int| 0 <= i < k implies #[trigger] same_instruction_at(old_instrs.take(k), new_instrs.take(k), i) by {
            assert(crate::builder::same_instruction(old_instrs.take(k)[i], prefix_view[i]));
        }
        assert(same_instructions(old_instrs.take(k), new_instrs.take(k)));
        assert forall|j: int| 0 <= j < rest implies is_renumbered(
            old_instrs[k + j],
            #[trigger] new_instrs[new_instrs.len() - rest + j],
            defined_types(old_instrs.take(k)).len() as usize,
            added,
        ) by {
            assert(crate::builder::same_instruction(old_instrs.subrange(k, old_instrs.len() as int)[j], rest_view[j]));
            assert(is_renumbered(rest_view[j], new_instrs[generated.len() + j], prefix_vars, added));
        }
        assert(is_generated_at(old_instrs, new_instrs, k, added));
    }
    Some(new_program)
}


/// Single-byte Script opcodes of the dictionary; values mirror Bitcoin Core's
/// `script/script.h`: push values, push-data prefixes, control flow, stack,
/// splice, bitwise, numeric, crypto, locktime and Taproot opcodes.
pub open spec fn script_opcodes() -> Seq<u8> {
    seq![
        0x00u8, 0x4f, 0x51, 0x52, 0x53, 0x54, 0x55, 0x56, 0x57, 0x58,
        0x59, 0x5a, 0x5b, 0x5c, 0x5d, 0x5e, 0x5f, 0x60, 0x4c, 0x4d,
        0x4e, 0x61, 0x63, 0x64, 0x67, 0x68, 0x69, 0x6a, 0x6b, 0x6c,
        0x6d, 0x6e, 0x6f, 0x70, 0x71, 0x72, 0x73, 0x74, 0x75, 0x76,
        0x77, 0x78, 0x79, 0x7a, 0x7b, 0x7c, 0x7d, 0x7e, 0x7f, 0x80,
        0x81, 0x82, 0x83, 0x84, 0x85, 0x86, 0x87, 0x88, 0x8b, 0x8c,
        0x8d, 0x8e, 0x8f, 0x90, 0x91, 0x92, 0x93, 0x94, 0x95, 0x96,
        0x97, 0x98, 0x99, 0x9a, 0x9b, 0x9c, 0x9d, 0x9e, 0x9f, 0xa0,
        0xa1, 0xa2, 0xa3, 0xa4, 0xa5, 0xa6, 0xa7, 0xa8, 0xa9, 0xaa,
        0xab, 0xac, 0xad, 0xae, 0xaf, 0xb1, 0xb2, 0xba,
    ]
}

/// Multi-byte structural templates of the dictionary: standard scriptPubKey
/// shapes, witness program prefixes and a few protocol-level constants.
pub open spec fn script_templates() -> Seq<Seq<u8>> {
    seq![
        seq![0x00u8, 0x14],
        seq![0x00u8, 0x20],
        seq![0x51u8, 0x20],
        seq![0x76u8, 0xa9, 0x14],
        seq![0x88u8, 0xac],
        seq![0xa9u8, 0x14],
        seq![0x87u8],
        seq![0xc0u8],
        seq![0x50u8],
        seq![0x00u8, 0x01],
    ]
}

/// The byte views of tokens.
pub open spec fn token_views(tokens: Seq<Vec<u8>>) -> Seq<Seq<u8>> {
    tokens.map_values(|t: Vec<u8>| t@)
}

fn push_token(tokens: &mut Vec<Vec<u8>>, token: Vec<u8>)
    ensures
        token_views(final(tokens)@) == token_views(old(tokens)@).push(token@),
{
    let ghost before = tokens@;
    tokens.push(token);
    assert(token_views(tokens@) =~= token_views(before).push(token@));
}

/// `s` with every element after its first occurrence dropped.
pub open spec fn without_repeats(s: Seq<Seq<u8>>) -> Seq<Seq<u8>>
    decreases s.len(),
{
    if s.len() == 0 {
        Seq::empty()
    } else if without_repeats(s.drop_last()).contains(s.last()) {
        without_repeats(s.drop_last())
    } else {
        without_repeats(s.drop_last()).push(s.last())
    }
}

fn same_bytes(a: &Vec<u8>, b: &Vec<u8>) -> (r: bool)
    ensures
        r == (a@ == b@),
{
    if a.len() != b.len() {
        return false;
    }
    let mut i: usize = 0;
    while i < a.len()
        invariant
            a@.len() == b@.len(),
            i <= a@.len(),
            forall|k: int| 0 <= k < i ==> a@[k] == b@[k],
        decreases a@.len() - i,
    {
        if a[i] != b[i] {
            return false;
        }
        i = i + 1;
    }
    assert(a@ =~= b@);
    true
}

/// Adds `token` unless an equal token is already there.
fn add_token(tokens: &mut Vec<Vec<u8>>, token: Vec<u8>)
    ensures
        token_views(final(tokens)@) == if token_views(old(tokens)@).contains(token@) {
            token_views(old(tokens)@)
        } else {
            token_views(old(tokens)@).push(token@)
        },
{
    let mut i: usize = 0;
    while i < tokens.len()
        invariant
            i <= tokens@.len(),
            forall|k: int| 0 <= k < i ==> #[trigger] token_views(tokens@)[k] != token@,
        decreases tokens@.len() - i,
    {
        if same_bytes(&tokens[i], &token) {
            assert(token_views(tokens@)[i as int] == token@);
            return;
        }
        i = i + 1;
    }
    push_token(tokens, token);
}

/// The tokens of the Bitcoin Script dictionary for the raw byte mutator, in
/// the order they are added: every opcode as a one-byte token, then the
/// templates. A token dictionary holds each token once, so a template that
/// is already there (`OP_EQUAL`) is not added again.
pub fn bitcoin_script_dictionary() -> (r: Vec<Vec<u8>>)
    ensures
        token_views(r@) == without_repeats(
            script_opcodes().map_values(|op: u8| seq![op]) + script_templates(),
        ),
{
    let opcodes: Vec<u8> = vec![
        0x00u8, 0x4f, 0x51, 0x52, 0x53, 0x54, 0x55, 0x56, 0x57, 0x58,
        0x59, 0x5a, 0x5b, 0x5c, 0x5d, 0x5e, 0x5f, 0x60, 0x4c, 0x4d,
        0x4e, 0x61, 0x63, 0x64, 0x67, 0x68, 0x69, 0x6a, 0x6b, 0x6c,
        0x6d, 0x6e, 0x6f, 0x70, 0x71, 0x72, 0x73, 0x74, 0x75, 0x76,
        0x77, 0x78, 0x79, 0x7a, 0x7b, 0x7c, 0x7d, 0x7e, 0x7f, 0x80,
        0x81, 0x82, 0x83, 0x84, 0x85, 0x86, 0x87, 0x88, 0x8b, 0x8c,
        0x8d, 0x8e, 0x8f, 0x90, 0x91, 0x92, 0x93, 0x94, 0x95, 0x96,
        0x97, 0x98, 0x99, 0x9a, 0x9b, 0x9c, 0x9d, 0x9e, 0x9f, 0xa0,
        0xa1, 0xa2, 0xa3, 0xa4, 0xa5, 0xa6, 0xa7, 0xa8, 0xa9, 0xaa,
        0xab, 0xac, 0xad, 0xae, 0xaf, 0xb1, 0xb2, 0xba,
    ];
    assert(opcodes@ =~= script_opcodes());
    let mut tokens: Vec<Vec<u8>> = Vec::new();
    let mut i: usize = 0;
    while i < opcodes.len()
        invariant
            opcodes@ == script_opcodes(),
            i <= opcodes@.len(),
            token_views(tokens@) == opcodes@.take(i as int).map_values(|op: u8| seq![op]),
        decreases opcodes@.len() - i,
    {
        let mut t: Vec<u8> = Vec::new();
        t.push(opcodes[i]);
        push_token(&mut tokens, t);
        assert(opcodes@.take(i + 1).map_values(|op: u8| seq![op]) =~= opcodes@.take(i as int).map_values(|op: u8| seq![op]).push(seq![opcodes@[i as int]]));
        i = i + 1;
    }
    assert(opcodes@.take(opcodes@.len() as int) =~= opcodes@);
    let ghost singles = token_views(tokens@);
    let templates: Vec<Vec<u8>> = vec![
        vec![0x00u8, 0x14],
        vec![0x00u8, 0x20],
        vec![0x51u8, 0x20],
        vec![0x76u8, 0xa9, 0x14],
        vec![0x88u8, 0xac],
        vec![0xa9u8, 0x14],
        vec![0x87u8],
        vec![0xc0u8],
        vec![0x50u8],
        vec![0x00u8, 0x01],
    ];
    assert(token_views(templates@) =~~= script_templates());
    let mut j: usize = 0;
    while j < templates.len()
        invariant
            token_views(templates@) == script_templates(),
            j <= templates@.len(),
            token_views(tokens@) == singles + token_views(templates@).take(j as int),
        decreases templates@.len() - j,
    {
        let mut t: Vec<u8> = Vec::new();
        let mut k: usize = 0;
        while k < templates[j].len()
            invariant
                j < templates@.len(),
                k <= templates@[j as int]@.len(),
                t@ == templates@[j as int]@.take(k as int),
            decreases templates@[j as int]@.len() - k,
        {
            t.push(templates[j][k]);
            assert(templates@[j as int]@.take(k + 1) =~= templates@[j as int]@.take(k as int).push(templates@[j as int]@[k as int]));
            k = k + 1;
        }
        assert(templates@[j as int]@.take(k as int) =~= templates@[j as int]@);
        push_token(&mut tokens, t);
        assert(token_views(templates@).take(j + 1) =~= token_views(templates@).take(j as int).push(templates@[j as int]@));
        j = j + 1;
    }
    assert(token_views(templates@).take(templates@.len() as int) =~= token_views(templates@));
    let ghost all = token_views(tokens@);
    let mut queue = tokens;
    let mut dictionary: Vec<Vec<u8>> = Vec::new();
    let n = queue.len();
    let mut i: usize = 0;
    assert(token_views(queue@) =~= all.skip(0));
    assert(all.take(0) =~= Seq::<Seq<u8>>::empty());
    while i < n
        invariant
            n == all.len(),
            i <= n,
            token_views(queue@) == all.skip(i as int),
            token_views(dictionary@) == without_repeats(all.take(i as int)),
        decreases n - i,
    {
        let ghost before = queue@;
        assert(token_views(before).len() == before.len());
        assert(token_views(before)[0] == before[0]@);
        let token = queue.remove(0);
        assert(token@ == token_views(before)[0]);
        assert(token_views(before)[0] == all[i as int]);
        assert(queue@ =~= before.drop_first());
        assert(token_views(queue@) =~= token_views(before).drop_first());
        assert(token_views(queue@) =~= all.skip(i + 1));
        assert(all.take(i + 1).drop_last() =~= all.take(i as int));
        assert(all.take(i + 1).last() == all[i as int]);
        add_token(&mut dictionary, token);
        i = i + 1;
    }
    assert(all.take(n as int) =~= all);
    dictionary
}

} // verus!
