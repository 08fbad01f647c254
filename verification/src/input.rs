//! The input mutator: swaps one input of an instruction for another variable
//! of the same type.
use vstd::prelude::*;

use crate::ir::{
    instruction_wf, instructions_wf, types_before, Instruction, Mutator,
    MutatorError, MutatorResult, Program, RandomSource, VariableLookup,
};

verus! {

/// Instruction `i` is one the input mutator may pick when starting at `min_index`.
pub open spec fn is_input_candidate(instrs: Seq<Instruction>, min_index: int, i: int) -> bool {
    min_index <= i < instrs.len() && instrs[i].operation.input_mutable
}

/// The candidates among the first `n` instructions, in order.
pub open spec fn candidates_upto(instrs: Seq<Instruction>, min_index: int, n: int) -> Seq<usize>
    decreases n,
{
    if n <= 0 {
        Seq::empty()
    } else if is_input_candidate(instrs, min_index, n - 1) {
        candidates_upto(instrs, min_index, n - 1).push((n - 1) as usize)
    } else {
        candidates_upto(instrs, min_index, n - 1)
    }
}

/// The indices of the instructions the input mutator may pick when starting
/// at `min_index`, in order.
pub open spec fn input_candidates(instrs: Seq<Instruction>, min_index: int) -> Seq<usize> {
    candidates_upto(instrs, min_index, instrs.len() as int)
}

/// Every entry of the candidate list is a candidate, and the list is empty
/// exactly when there is none.
pub proof fn lemma_input_candidates(instrs: Seq<Instruction>, min_index: int, n: int)
    requires
        0 <= n <= instrs.len(),
        instrs.len() <= usize::MAX,
    ensures
        forall|k: int|
            0 <= k < candidates_upto(instrs, min_index, n).len() ==> is_input_candidate(
                instrs,
                min_index,
                #[trigger] candidates_upto(instrs, min_index, n)[k] as int,
            ) && candidates_upto(instrs, min_index, n)[k] < n,
        candidates_upto(instrs, min_index, n).len() == 0 <==> (forall|i: int|
            0 <= i < n ==> !#[trigger] is_input_candidate(instrs, min_index, i)),
    decreases n,
{
    if n > 0 {
        lemma_input_candidates(instrs, min_index, n - 1);
        let prev = candidates_upto(instrs, min_index, n - 1);
        let cur = candidates_upto(instrs, min_index, n);
        if is_input_candidate(instrs, min_index, n - 1) {
            assert(cur == prev.push((n - 1) as usize));
            assert forall|k: int| 0 <= k < cur.len() implies is_input_candidate(
                instrs,
                min_index,
                #[trigger] cur[k] as int,
            ) && cur[k] < n by {
                if k < prev.len() {
                    assert(cur[k] == prev[k]);
                    assert(is_input_candidate(instrs, min_index, prev[k] as int));
                }
            }
        } else {
            assert(cur == prev);
            assert forall|k: int| 0 <= k < cur.len() implies is_input_candidate(
                instrs,
                min_index,
                #[trigger] cur[k] as int,
            ) && cur[k] < n by {
                assert(is_input_candidate(instrs, min_index, prev[k] as int));
            }
            if cur.len() == 0 {
                assert forall|i: int| 0 <= i < n implies !#[trigger] is_input_candidate(
                    instrs,
                    min_index,
                    i,
                ) by {
                    if i < n - 1 {
                        assert(!is_input_candidate(instrs, min_index, i));
                    }
                }
            }
        }
    }
}

/// The indices of the instructions the input mutator may pick when starting
/// at `min_index`: those at or after it whose inputs may be mutated, in order.
pub fn collect_input_candidates(instructions: &Vec<Instruction>, min_index: usize) -> (r: Vec<usize>)
    ensures
        r@ == input_candidates(instructions@, min_index as int),
{
    let mut candidates: Vec<usize> = Vec::new();
    let mut i: usize = 0;
    let n = instructions.len();
    while i < n
        invariant
            n == instructions@.len(),
            i <= n,
            candidates@ == candidates_upto(instructions@, min_index as int, i as int),
        decreases n - i,
    {
        if i >= min_index && instructions[i].is_input_mutable() {
            candidates.push(i);
        }
        i = i + 1;
    }
    candidates
}

/// `new` is `old` with input `s` of instruction `i` replaced by variable `v`,
/// a different variable of the same type defined before instruction `i`.
pub open spec fn is_input_swap(
    old: Seq<Instruction>,
    new: Seq<Instruction>,
    i: int,
    s: int,
    v: int,
) -> bool {
    let visible = types_before(old, i);
    &&& 0 <= i < old.len()
    &&& 0 <= s < old[i].inputs@.len()
    &&& 0 <= v < visible.len()
    &&& v != old[i].inputs@[s]
    &&& visible[v] == visible[old[i].inputs@[s] as int]
    &&& new.len() == old.len()
    &&& forall|j: int| 0 <= j < old.len() && j != i ==> new[j] == old[j]
    &&& new[i].operation == old[i].operation
    &&& new[i].inputs@ == old[i].inputs@.update(s, v as usize)
}

/// `InputMutator` picks a random instruction and replaces one of its input
/// variables with a random variable of the same type.
///
/// Only instructions for which `is_input_mutable` returns true are considered.
pub struct InputMutator;

impl InputMutator {
    pub fn new() -> (r: Self) {
        InputMutator
    }
}

impl Default for InputMutator {
    fn default() -> (r: Self) {
        Self::new()
    }
}

proof fn lemma_types_before_prefix(instrs: Seq<Instruction>, new: Seq<Instruction>, i: int, k: int)
    requires
        0 <= k <= i < instrs.len(),
        new.len() == instrs.len(),
        forall|j: int| 0 <= j < instrs.len() && j != i ==> new[j] == instrs[j],
        new[i].operation == instrs[i].operation,
    ensures
        types_before(new, k) == types_before(instrs, k),
    decreases k,
{
    if k > 0 {
        lemma_types_before_prefix(instrs, new, i, k - 1);
        assert(new.take(k).drop_last() =~= new.take(k - 1));
        assert(instrs.take(k).drop_last() =~= instrs.take(k - 1));
    } else {
        assert(new.take(0) =~= instrs.take(0));
    }
}

proof fn lemma_types_before_grow(instrs: Seq<Instruction>, new: Seq<Instruction>, i: int, k: int)
    requires
        0 <= i < k <= instrs.len(),
        new.len() == instrs.len(),
        forall|j: int| 0 <= j < instrs.len() && j != i ==> new[j] == instrs[j],
        new[i].operation == instrs[i].operation,
    ensures
        types_before(new, k) == types_before(instrs, k),
    decreases k,
{
    if k == i + 1 {
        lemma_types_before_prefix(instrs, new, i, i);
        assert(new.take(k).drop_last() =~= new.take(i));
        assert(instrs.take(k).drop_last() =~= instrs.take(i));
    } else {
        lemma_types_before_grow(instrs, new, i, k - 1);
        assert(new.take(k).drop_last() =~= new.take(k - 1));
        assert(instrs.take(k).drop_last() =~= instrs.take(k - 1));
    }
}

/// Swapping an input for an earlier variable of the same type keeps a program
/// well formed.
pub proof fn lemma_input_swap_keeps_wf(old: Seq<Instruction>, new: Seq<Instruction>, i: int, s: int, v: int)
    requires
        instructions_wf(old),
        is_input_swap(old, new, i, s, v),
    ensures
        instructions_wf(new),
{
    assert forall|k: int| 0 <= k < new.len() implies #[trigger] instruction_wf(new, k) by {
        assert(instruction_wf(old, k));
        if k <= i {
            lemma_types_before_prefix(old, new, i, k);
        } else {
            lemma_types_before_grow(old, new, i, k);
        }
        if k == i {
            assert forall|t: int| 0 <= t < new[k].inputs@.len() implies #[trigger] new[k].inputs@[t]
                < types_before(new, k).len() by {
                if t != s {
                    assert(new[k].inputs@[t] == old[k].inputs@[t]);
                }
            }
        }
    }
}

/// Replaces input `slot` of instruction `instr_idx` by `new_var`, a variable
/// of the same type defined before that instruction. When `new_var` is the
/// variable already read there, nothing changes and the result is
/// `Err(NoMutationsAvailable)`.
pub fn apply_input_swap(program: &mut Program, instr_idx: usize, slot: usize, new_var: usize) -> (r:
    MutatorResult)
    requires
        old(program).wf(),
        instr_idx < old(program).instructions@.len(),
        slot < old(program).instructions@[instr_idx as int].inputs@.len(),
        new_var < types_before(old(program).instructions@, instr_idx as int).len(),
        types_before(old(program).instructions@, instr_idx as int)[new_var as int] == types_before(
            old(program).instructions@,
            instr_idx as int,
        )[old(program).instructions@[instr_idx as int].inputs@[slot as int] as int],
    ensures
        final(program).wf(),
        r is Err <==> new_var == old(program).instructions@[instr_idx as int].inputs@[slot as int],
        r is Err ==> r == Err::<(), MutatorError>(MutatorError::NoMutationsAvailable)
            && final(program).instructions@ == old(program).instructions@,
        r is Ok ==> is_input_swap(
            old(program).instructions@,
            final(program).instructions@,
            instr_idx as int,
            slot as int,
            new_var as int,
        ),
{
    let ghost instrs = program.instructions@;
    if program.instructions[instr_idx].inputs[slot] == new_var {
        return Err(MutatorError::NoMutationsAvailable);
    }
    let mut instruction = program.instructions.remove(instr_idx);
    instruction.inputs.set(slot, new_var);
    program.instructions.insert(instr_idx, instruction);
    proof {
        let new_instrs = program.instructions@;
        assert(is_input_swap(instrs, new_instrs, instr_idx as int, slot as int, new_var as int));
        lemma_input_swap_keeps_wf(instrs, new_instrs, instr_idx as int, slot as int, new_var as int);
    }
    Ok(())
}

impl<R: RandomSource> Mutator<R> for InputMutator {
    fn mutate(&mut self, program: &mut Program, rng: &mut R) -> (r: MutatorResult)
        ensures
            final(program).wf(),
            r is Err ==> r == Err::<(), MutatorError>(MutatorError::NoMutationsAvailable)
                && final(program).instructions@ == old(program).instructions@,
            input_candidates(old(program).instructions@, 0).len() == 0 ==> r is Err,
            r is Ok ==> exists|k: int, s: int, v: int|
                #![trigger is_input_swap(old(program).instructions@, final(program).instructions@, input_candidates(old(program).instructions@, 0)[k] as int, s, v)]
                0 <= k < input_candidates(old(program).instructions@, 0).len()
                    && is_input_swap(
                    old(program).instructions@,
                    final(program).instructions@,
                    input_candidates(old(program).instructions@, 0)[k] as int,
                    s,
                    v,
                ),
    {
        self.mutate_from(program, rng, 0)
    }

    /// Draws an instruction from `input_candidates(program, min_index)` (the
    /// draw is handed that list's length), then one of its input slots, then
    /// a variable of the same type defined before it, and hands the three to
    /// `apply_input_swap`.
    fn mutate_from(&mut self, program: &mut Program, rng: &mut R, min_index: usize) -> (r:
        MutatorResult)
        ensures
            final(program).wf(),
            r is Err ==> r == Err::<(), MutatorError>(MutatorError::NoMutationsAvailable)
                && final(program).instructions@ == old(program).instructions@,
            input_candidates(old(program).instructions@, min_index as int).len() == 0 ==> r is Err,
            r is Ok ==> exists|k: int, s: int, v: int|
                #![trigger is_input_swap(old(program).instructions@, final(program).instructions@, input_candidates(old(program).instructions@, min_index as int)[k] as int, s, v)]
                0 <= k < input_candidates(old(program).instructions@, min_index as int).len()
                    && is_input_swap(
                    old(program).instructions@,
                    final(program).instructions@,
                    input_candidates(old(program).instructions@, min_index as int)[k] as int,
                    s,
                    v,
                ),
    {
        let ghost instrs = program.instructions@;
        let candidates = collect_input_candidates(&program.instructions, min_index);
        let n_instrs = program.instructions.len();
        proof {
            lemma_input_candidates(instrs, min_index as int, instrs.len() as int);
        }
        let k = match rng.choose_index(candidates.len()) {
            None => {
                return Err(MutatorError::NoMutationsAvailable);
            },
            Some(k) => k,
        };
        let instr_idx = candidates[k];
        assert(is_input_candidate(instrs, min_index as int, candidates@[k as int] as int));
        assert(instruction_wf(instrs, instr_idx as int));
        let lookup = VariableLookup::from_instructions(&program.instructions, instr_idx);
        let n_inputs = program.instructions[instr_idx].inputs.len();
        let input_slot = match rng.choose_index(n_inputs) {
            None => {
                // Candidates have at least one input.
                assert(n_inputs > 0);
                return Err(MutatorError::NoMutationsAvailable);
            },
            Some(s) => s,
        };
        let var_idx = program.instructions[instr_idx].inputs[input_slot];
        assert(instrs[instr_idx as int].inputs@[input_slot as int] == var_idx);
        let current_variable = match lookup.get_variable(var_idx) {
            None => {
                // Candidate variables are always defined.
                assert(var_idx < types_before(instrs, instr_idx as int).len());
                return Err(MutatorError::NoMutationsAvailable);
            },
            Some(v) => v,
        };
        match lookup.get_random_variable(rng, current_variable.var) {
            Some(new_var) => {
                let r = apply_input_swap(program, instr_idx, input_slot, new_var.index);
                proof {
                    if r is Ok {
                        assert(is_input_swap(instrs, program.instructions@, candidates@[k as int] as int, input_slot as int, new_var.index as int));
                    }
                }
                r
            },
            None => {
                // A variable of the current type always exists: the current one.
                assert(lookup.types@[var_idx as int] == current_variable.var);
                Ok(())
            },
        }
    }

    fn name(&self) -> &'static str {
        "InputMutator"
    }
}

} // verus!
