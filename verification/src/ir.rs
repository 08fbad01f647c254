//! The intermediate representation that mutators work on: programs made of
//! instructions, each reading earlier variables and defining new ones.
use vstd::prelude::*;

use crate::builder::{keeps_prefix, lemma_same_wf, prefix_kept};

verus! {

/// What an instruction does, as far as mutators and snapshot placement see it.
pub struct Operation {
    /// Types of the variables the instruction defines, in order.
    pub output_types: Vec<u32>,
    /// Whether the inputs of the instruction may be swapped for other variables of the same type.
    pub input_mutable: bool,
    /// Whether the instruction opens a block.
    pub block_begin: bool,
    /// Whether the instruction closes a block.
    pub block_end: bool,
}

impl Operation {
    pub fn is_block_begin(&self) -> (r: bool)
        ensures
            r == self.block_begin,
    {
        self.block_begin
    }

    pub fn is_block_end(&self) -> (r: bool)
        ensures
            r == self.block_end,
    {
        self.block_end
    }
}

/// One instruction: an operation applied to variables defined before it.
pub struct Instruction {
    /// Indices of the variables read by the instruction.
    pub inputs: Vec<usize>,
    pub operation: Operation,
}

impl Instruction {
    pub fn is_input_mutable(&self) -> (r: bool)
        ensures
            r == self.operation.input_mutable,
    {
        self.operation.input_mutable
    }
}

/// A program: a sequence of instructions.
pub struct Program {
    pub instructions: Vec<Instruction>,
}

/// Types of all variables defined by `instrs`, in definition order; a variable's
/// index is its position in this sequence.
pub open spec fn defined_types(instrs: Seq<Instruction>) -> Seq<u32>
    decreases instrs.len(),
{
    if instrs.len() == 0 {
        Seq::empty()
    } else {
        defined_types(instrs.drop_last()) + instrs.last().operation.output_types@
    }
}

/// Types of the variables visible to instruction `i`: those defined before it.
pub open spec fn types_before(instrs: Seq<Instruction>, i: int) -> Seq<u32> {
    defined_types(instrs.take(i))
}

/// Instruction `i` reads only variables defined before it, and has an input
/// whenever its inputs may be mutated.
pub open spec fn instruction_wf(instrs: Seq<Instruction>, i: int) -> bool {
    &&& instrs[i].operation.input_mutable ==> instrs[i].inputs@.len() > 0
    &&& forall|s: int|
        0 <= s < instrs[i].inputs@.len() ==> #[trigger] instrs[i].inputs@[s] < types_before(
            instrs,
            i,
        ).len()
}

pub open spec fn instructions_wf(instrs: Seq<Instruction>) -> bool {
    forall|i: int| 0 <= i < instrs.len() ==> #[trigger] instruction_wf(instrs, i)
}

impl Program {
    /// Every instruction reads only variables defined before it.
    pub open spec fn wf(&self) -> bool {
        instructions_wf(self.instructions@)
    }

    /// Whether every instruction reads only variables defined before it (and
    /// has an input when its inputs may be mutated).
    pub fn is_well_formed(&self) -> (r: bool)
        ensures
            r == self.wf(),
    {
        let ghost instrs = self.instructions@;
        // Number of variables defined so far, unless it no longer fits in a usize.
        let mut count: usize = 0;
        let mut overflowed = false;
        let mut i: usize = 0;
        assert(instrs.take(0) =~= Seq::<Instruction>::empty());
        while i < self.instructions.len()
            invariant
                instrs == self.instructions@,
                i <= instrs.len(),
                overflowed ==> types_before(instrs, i as int).len() > usize::MAX,
                !overflowed ==> count == types_before(instrs, i as int).len(),
                forall|k: int| 0 <= k < i ==> #[trigger] instruction_wf(instrs, k),
            decreases instrs.len() - i,
        {
            let instr = &self.instructions[i];
            if instr.operation.input_mutable && instr.inputs.len() == 0 {
                assert(!instruction_wf(instrs, i as int));
                return false;
            }
            if !overflowed {
                let mut s: usize = 0;
                while s < instr.inputs.len()
                    invariant
                        s <= instr.inputs@.len(),
                        i < instrs.len(),
                        instrs == self.instructions@,
                        count == types_before(instrs, i as int).len(),
                        *instr == instrs[i as int],
                        forall|t: int| 0 <= t < s ==> #[trigger] instr.inputs@[t] < count,
                    decreases instr.inputs@.len() - s,
                {
                    if instr.inputs[s] >= count {
                        assert(!instruction_wf(instrs, i as int));
                        return false;
                    }
                    s = s + 1;
                }
            }
            assert(instruction_wf(instrs, i as int));
            proof {
                lemma_take_succ(instrs, i as int);
            }
            let outs = instr.operation.output_types.len();
            if !overflowed {
                if outs > usize::MAX - count {
                    overflowed = true;
                } else {
                    count = count + outs;
                }
            }
            i = i + 1;
        }
        true
    }
}

/// A variable: its type and its index.
#[derive(Clone, Copy, PartialEq, Eq, Debug)]
pub struct Variable {
    pub var: u32,
    pub index: usize,
}

/// The variables defined by a prefix of a program, by index.
pub struct VariableLookup {
    pub types: Vec<u32>,
}

/// A source of uniformly chosen indices.
pub trait RandomSource {
    /// Picks an index below `n`; `None` exactly when `n` is zero.
    fn choose_index(&mut self, n: usize) -> (r: Option<usize>)
        ensures
            r is None <==> n == 0,
            r matches Some(i) ==> i < n,
    ;
}

/// Picks an element of `0..n` with rand's `IteratorRandom::choose` on the range.
/// Trusted: rand documents that `choose` returns `None` exactly when the
/// iterator is empty, and otherwise one of its elements; which one depends on
/// the generator and is left unsaid.
#[verifier::external_body]
fn choose_below(rng: &mut rand::rngs::StdRng, n: usize) -> (r: Option<usize>)
    ensures
        r is None <==> n == 0,
        r matches Some(i) ==> i < n,
{
    rand::seq::IteratorRandom::choose(0..n, rng)
}

#[verifier::external_type_specification]
#[verifier::external_body]
pub struct ExStdRng(rand::rngs::StdRng);

impl RandomSource for rand::rngs::StdRng {
    fn choose_index(&mut self, n: usize) -> (r: Option<usize>) {
        choose_below(self, n)
    }
}

proof fn lemma_take_succ<A>(s: Seq<A>, k: int)
    requires
        0 <= k < s.len(),
    ensures
        s.take(k + 1).drop_last() == s.take(k),
        s.take(k + 1).last() == s[k],
{
    assert(s.take(k + 1).drop_last() =~= s.take(k));
}

impl VariableLookup {
    /// The variables defined by the first `count` instructions.
    pub fn from_instructions(instructions: &Vec<Instruction>, count: usize) -> (r: VariableLookup)
        requires
            count <= instructions@.len(),
        ensures
            r.types@ == defined_types(instructions@.take(count as int)),
    {
        let mut types: Vec<u32> = Vec::new();
        let mut k: usize = 0;
        assert(instructions@.take(0) =~= Seq::<Instruction>::empty());
        while k < count
            invariant
                k <= count <= instructions@.len(),
                types@ == defined_types(instructions@.take(k as int)),
            decreases count - k,
        {
            proof {
                lemma_take_succ(instructions@, k as int);
            }
            let outs = &instructions[k].operation.output_types;
            let mut j: usize = 0;
            let ghost before = types@;
            while j < outs.len()
                invariant
                    j <= outs@.len(),
                    types@ == before + outs@.take(j as int),
                decreases outs@.len() - j,
            {
                types.push(outs[j]);
                assert(outs@.take(j + 1) =~= outs@.take(j as int).push(outs@[j as int]));
                j = j + 1;
            }
            assert(outs@.take(j as int) =~= outs@);
            k = k + 1;
        }
        VariableLookup { types }
    }

    /// The variable with index `index`, if it is defined.
    pub fn get_variable(&self, index: usize) -> (r: Option<Variable>)
        ensures
            index < self.types@.len() ==> r == Some(Variable { var: self.types@[index as int], index }),
            index >= self.types@.len() ==> r is None,
    {
        if index < self.types.len() {
            Some(Variable { var: self.types[index], index })
        } else {
            None
        }
    }

    /// A randomly chosen variable of type `ty`; `None` exactly when there is none.
    pub fn get_random_variable<R: RandomSource>(&self, rng: &mut R, ty: u32) -> (r: Option<
        Variable,
    >)
        ensures
            r is None <==> (forall|j: int| 0 <= j < self.types@.len() ==> self.types@[j] != ty),
            r matches Some(v) ==> v.var == ty && v.index < self.types@.len() && self.types@[v.index as int] == ty,
    {
        let mut candidates: Vec<usize> = Vec::new();
        let mut j: usize = 0;
        while j < self.types.len()
            invariant
                j <= self.types@.len(),
                forall|k: int| 0 <= k < candidates@.len() ==> #[trigger] candidates@[k] < self.types@.len() && self.types@[candidates@[k] as int] == ty,
                candidates@.len() == 0 ==> (forall|k: int| 0 <= k < j ==> self.types@[k] != ty),
            decreases self.types@.len() - j,
        {
            if self.types[j] == ty {
                candidates.push(j);
            }
            j = j + 1;
        }
        match rng.choose_index(candidates.len()) {
            None => None,
            Some(k) => {
                let index = candidates[k];
                Some(Variable { var: ty, index })
            },
        }
    }
}

/// Why a mutator produced no new program.
#[derive(Debug, PartialEq, Eq, Clone, Copy)]
pub enum MutatorError {
    NoMutationsAvailable,
    CreatedInvalidProgram,
}

pub type MutatorResult = Result<(), MutatorError>;

/// A mutation strategy on programs. Every mutator keeps programs well formed.
pub trait Mutator<R: RandomSource> {
    fn mutate(&mut self, program: &mut Program, rng: &mut R) -> (r: MutatorResult)
        requires
            old(program).wf(),
        ensures
            final(program).wf(),
    ;

    /// Mutate the program, only considering instructions with index >= `min_index`:
    /// the instructions before it are kept.
    ///
    /// By default, `mutate` works on a copy of the program, and the copy is
    /// kept only when `mutate` succeeds and leaves the instructions before
    /// `min_index` as they were; otherwise the program stays as it was, and a
    /// mutation that changed them is reported as `NoMutationsAvailable`.
    fn mutate_from(&mut self, program: &mut Program, rng: &mut R, min_index: usize) -> (r:
        MutatorResult)
        requires
            old(program).wf(),
        ensures
            final(program).wf(),
            keeps_prefix(old(program).instructions@, final(program).instructions@, min_index as int),
        default_ensures
            r is Err ==> final(program).instructions@ == old(program).instructions@,
    {
        let mut candidate = program.duplicate();
        proof {
            lemma_same_wf(program.instructions@, candidate.instructions@);
        }
        let result = self.mutate(&mut candidate, rng);
        if result.is_err() {
            return result;
        }
        if !prefix_kept(&program.instructions, &candidate.instructions, min_index) {
            return Err(MutatorError::NoMutationsAvailable);
        }
        *program = candidate;
        result
    }

    /// The name the mutator reports.
    fn name(&self) -> &'static str;
}

/// A mutator that splices two programs together.
pub trait Splicer<R: RandomSource>: Mutator<R> {
    fn splice(&mut self, program: &mut Program, splice_with: &Program, rng: &mut R) -> (r:
        MutatorResult)
        requires
            old(program).wf(),
            splice_with.wf(),
        ensures
            final(program).wf(),
    ;

    /// Splice two programs together, only considering instructions with index >= `min_index`:
    /// the instructions before it are kept.
    ///
    /// By default, `splice` works on a copy of the program, and the copy is
    /// kept only when `splice` succeeds and leaves the instructions before
    /// `min_index` as they were; otherwise the program stays as it was, and a
    /// splice that changed them is reported as `NoMutationsAvailable`.
    fn splice_from(
        &mut self,
        program: &mut Program,
        splice_with: &Program,
        rng: &mut R,
        min_index: usize,
    ) -> (r: MutatorResult)
        requires
            old(program).wf(),
            splice_with.wf(),
        ensures
            final(program).wf(),
            keeps_prefix(old(program).instructions@, final(program).instructions@, min_index as int),
        default_ensures
            r is Err ==> final(program).instructions@ == old(program).instructions@,
    {
        let mut candidate = program.duplicate();
        proof {
            lemma_same_wf(program.instructions@, candidate.instructions@);
        }
        let result = self.splice(&mut candidate, splice_with, rng);
        if result.is_err() {
            return result;
        }
        if !prefix_kept(&program.instructions, &candidate.instructions, min_index) {
            return Err(MutatorError::NoMutationsAvailable);
        }
        *program = candidate;
        result
    }
}

} // verus!
