//! Building programs instruction by instruction, with every instruction
//! checked against the variables defined before it.
use vstd::prelude::*;

use crate::ir::{defined_types, instruction_wf, instructions_wf, types_before, Instruction, Operation, Program};

verus! {

/// Two instruction sequences that read and define the same variables and
/// have the same flags.
pub open spec fn same_instructions(a: Seq<Instruction>, b: Seq<Instruction>) -> bool {
    &&& a.len() == b.len()
    &&& forall|i: int| 0 <= i < a.len() ==> #[trigger] same_instruction(a[i], b[i])
}

pub open spec fn same_instruction(a: Instruction, b: Instruction) -> bool {
    &&& a.inputs@ == b.inputs@
    &&& a.operation.output_types@ == b.operation.output_types@
    &&& a.operation.input_mutable == b.operation.input_mutable
    &&& a.operation.block_begin == b.operation.block_begin
    &&& a.operation.block_end == b.operation.block_end
}

pub proof fn lemma_same_defined_types(a: Seq<Instruction>, b: Seq<Instruction>)
    requires
        same_instructions(a, b),
    ensures
        defined_types(a) == defined_types(b),
    decreases a.len(),
{
    if a.len() > 0 {
        assert(same_instruction(a[a.len() - 1], b[b.len() - 1]));
        assert forall|i: int| 0 <= i < a.len() - 1 implies #[trigger] same_instruction(
            a.drop_last()[i],
            b.drop_last()[i],
        ) by {
            assert(same_instruction(a[i], b[i]));
        }
        lemma_same_defined_types(a.drop_last(), b.drop_last());
    }
}

pub proof fn lemma_same_wf(a: Seq<Instruction>, b: Seq<Instruction>)
    requires
        same_instructions(a, b),
        instructions_wf(a),
    ensures
        instructions_wf(b),
{
    assert forall|i: int| 0 <= i < b.len() implies #[trigger] instruction_wf(b, i) by {
        assert(instruction_wf(a, i));
        assert(same_instruction(a[i], b[i]));
        assert forall|j: int| 0 <= j < i implies #[trigger] same_instruction(
            a.take(i)[j],
            b.take(i)[j],
        ) by {
            assert(same_instruction(a[j], b[j]));
        }
        lemma_same_defined_types(a.take(i), b.take(i));
        assert forall|s: int| 0 <= s < b[i].inputs@.len() implies #[trigger] b[i].inputs@[s]
            < types_before(b, i).len() by {
            assert(a[i].inputs@[s] == b[i].inputs@[s]);
        }
    }
}

fn copy_usizes(v: &Vec<usize>) -> (r: Vec<usize>)
    ensures
        r@ == v@,
{
    let mut r: Vec<usize> = Vec::new();
    let mut i: usize = 0;
    while i < v.len()
        invariant
            i <= v@.len(),
            r@ == v@.take(i as int),
        decreases v@.len() - i,
    {
        r.push(v[i]);
        assert(v@.take(i + 1) =~= v@.take(i as int).push(v@[i as int]));
        i = i + 1;
    }
    assert(v@.take(v@.len() as int) =~= v@);
    r
}

fn copy_u32s(v: &Vec<u32>) -> (r: Vec<u32>)
    ensures
        r@ == v@,
{
    let mut r: Vec<u32> = Vec::new();
    let mut i: usize = 0;
    while i < v.len()
        invariant
            i <= v@.len(),
            r@ == v@.take(i as int),
        decreases v@.len() - i,
    {
        r.push(v[i]);
        assert(v@.take(i + 1) =~= v@.take(i as int).push(v@[i as int]));
        i = i + 1;
    }
    assert(v@.take(v@.len() as int) =~= v@);
    r
}

impl Instruction {
    /// A copy of the instruction.
    pub fn duplicate(&self) -> (r: Instruction)
        ensures
            same_instruction(*self, r),
    {
        Instruction {
            inputs: copy_usizes(&self.inputs),
            operation: Operation {
                output_types: copy_u32s(&self.operation.output_types),
                input_mutable: self.operation.input_mutable,
                block_begin: self.operation.block_begin,
                block_end: self.operation.block_end,
            },
        }
    }
}

/// Copies of instructions `from..to` of `instrs`.
pub fn copy_range(instrs: &Vec<Instruction>, from: usize, to: usize) -> (r: Vec<Instruction>)
    requires
        from <= to <= instrs@.len(),
    ensures
        same_instructions(instrs@.subrange(from as int, to as int), r@),
{
    let mut r: Vec<Instruction> = Vec::new();
    let mut i: usize = from;
    while i < to
        invariant
            from <= i <= to <= instrs@.len(),
            r@.len() == i - from,
            forall|k: int| 0 <= k < r@.len() ==> #[trigger] same_instruction(instrs@[from + k], r@[k]),
        decreases to - i,
    {
        r.push(instrs[i].duplicate());
        i = i + 1;
    }
    assert forall|k: int| 0 <= k < r@.len() implies #[trigger] same_instruction(
        instrs@.subrange(from as int, to as int)[k],
        r@[k],
    ) by {
        assert(same_instruction(instrs@[from + k], r@[k]));
    }
    r
}

impl Program {
    /// A copy of the program.
    pub fn duplicate(&self) -> (r: Program)
        ensures
            same_instructions(self.instructions@, r.instructions@),
    {
        let instructions = copy_range(&self.instructions, 0, self.instructions.len());
        assert(self.instructions@.subrange(0, self.instructions@.len() as int) =~= self.instructions@);
        Program { instructions }
    }
}

/// The first `m` instructions of `before` (all of them, if it has fewer)
/// are still there in `after`, with the same inputs, outputs and flags.
pub open spec fn keeps_prefix(before: Seq<Instruction>, after: Seq<Instruction>, m: int) -> bool {
    &&& (if m < before.len() {
        m
    } else {
        before.len() as int
    }) <= after.len()
    &&& forall|j: int| 0 <= j < m && j < before.len() ==> #[trigger] same_instruction(before[j], after[j])
}

fn same_usizes(a: &Vec<usize>, b: &Vec<usize>) -> (r: bool)
    ensures
        r == (a@ == b@),
{
    if a.len() != b.len() {
        return false;
    }
    let mut i: usize = 0;
    while i < a.len()
        invariant
            a@.len() == b@.len(),
            i <= a@.len(),
            forall|k: int| 0 <= k < i ==> a@[k] == b@[k],
        decreases a@.len() - i,
    {
        if a[i] != b[i] {
            return false;
        }
        i = i + 1;
    }
    assert(a@ =~= b@);
    true
}

fn same_u32s(a: &Vec<u32>, b: &Vec<u32>) -> (r: bool)
    ensures
        r == (a@ == b@),
{
    if a.len() != b.len() {
        return false;
    }
    let mut i: usize = 0;
    while i < a.len()
        invariant
            a@.len() == b@.len(),
            i <= a@.len(),
            forall|k: int| 0 <= k < i ==> a@[k] == b@[k],
        decreases a@.len() - i,
    {
        if a[i] != b[i] {
            return false;
        }
        i = i + 1;
    }
    assert(a@ =~= b@);
    true
}

/// Whether two instructions have the same inputs, outputs and flags.
pub fn instructions_match(a: &Instruction, b: &Instruction) -> (r: bool)
    ensures
        r == same_instruction(*a, *b),
{
    same_usizes(&a.inputs, &b.inputs) && same_u32s(
        &a.operation.output_types,
        &b.operation.output_types,
    ) && a.operation.input_mutable == b.operation.input_mutable && a.operation.block_begin
        == b.operation.block_begin && a.operation.block_end == b.operation.block_end
}

/// Whether the first `m` instructions of `before` are kept in `after`.
pub fn prefix_kept(before: &Vec<Instruction>, after: &Vec<Instruction>, m: usize) -> (r: bool)
    ensures
        r == keeps_prefix(before@, after@, m as int),
{
    let bound = if m < before.len() {
        m
    } else {
        before.len()
    };
    let mut j: usize = 0;
    while j < bound
        invariant
            bound <= m,
            bound <= before@.len(),
            bound == m || bound == before@.len(),
            j <= bound,
            j <= after@.len(),
            forall|k: int| 0 <= k < j ==> #[trigger] same_instruction(before@[k], after@[k]),
        decreases bound - j,
    {
        if j >= after.len() {
            return false;
        }
        if !instructions_match(&before[j], &after[j]) {
            assert(!same_instruction(before@[j as int], after@[j as int]));
            return false;
        }
        j = j + 1;
    }
    true
}

/// Input `v` renumbered: at or above `offset` it moves up by `shift`.
pub open spec fn renumbered_input(v: usize, offset: usize, shift: usize) -> int {
    if v >= offset {
        v + shift
    } else {
        v as int
    }
}

/// `new` is `orig` with its inputs renumbered.
pub open spec fn is_renumbered(orig: Instruction, new: Instruction, offset: usize, shift: usize) -> bool {
    &&& new.operation.output_types@ == orig.operation.output_types@
    &&& new.operation.input_mutable == orig.operation.input_mutable
    &&& new.operation.block_begin == orig.operation.block_begin
    &&& new.operation.block_end == orig.operation.block_end
    &&& new.inputs@.len() == orig.inputs@.len()
    &&& forall|s: int| 0 <= s < new.inputs@.len() ==> #[trigger] new.inputs@[s] == renumbered_input(
        orig.inputs@[s],
        offset,
        shift,
    )
}

/// The variables defined by a longer program include those of its prefix.
pub proof fn lemma_defined_types_grow(before: Seq<Instruction>, after: Seq<Instruction>)
    requires
        after.len() >= before.len(),
        after.take(before.len() as int) == before,
    ensures
        defined_types(after).len() >= defined_types(before).len(),
    decreases after.len(),
{
    if after.len() > before.len() {
        assert(after.drop_last().take(before.len() as int) =~= before);
        lemma_defined_types_grow(before, after.drop_last());
    } else {
        assert(after =~= before);
    }
}

/// Instruction `k` is well formed in two sequences that agree up to and
/// including it.
proof fn lemma_instruction_wf_prefix(x: Seq<Instruction>, y: Seq<Instruction>, k: int)
    requires
        0 <= k < x.len(),
        k < y.len(),
        x.take(k + 1) == y.take(k + 1),
    ensures
        instruction_wf(x, k) == instruction_wf(y, k),
{
    assert(x[k] == x.take(k + 1)[k]);
    assert(y[k] == y.take(k + 1)[k]);
    assert(x.take(k) =~= x.take(k + 1).take(k));
    assert(y.take(k) =~= y.take(k + 1).take(k));
}

/// Whether all of `instrs` can be appended, in order, to a builder holding
/// `start`: the whole program stays well formed and its variables can be
/// counted in a `usize`.
pub open spec fn can_append_all(start: Seq<Instruction>, instrs: Seq<Instruction>) -> bool {
    &&& instructions_wf(start + instrs)
    &&& defined_types(start + instrs).len() <= usize::MAX
}

/// Number of variables defined by `start` and the first `j` instructions of
/// `instrs`.
pub open spec fn count_before(start: Seq<Instruction>, instrs: Seq<Instruction>, j: int) -> int {
    (defined_types(start).len() + defined_types(instrs.take(j)).len()) as int
}

/// When appending `all[i]` after `start` and the first `i` instructions of
/// `all` fails, not all of `all` can be appended.
proof fn lemma_append_all_stops(start: Seq<Instruction>, all: Seq<Instruction>, i: int)
    requires
        0 <= i < all.len(),
        !({
            let next = (start + all.take(i)).push(all[i]);
            &&& instruction_wf(next, (start + all.take(i)).len() as int)
            &&& defined_types(start + all.take(i)).len() + all[i].operation.output_types@.len()
                <= usize::MAX
        }),
    ensures
        !can_append_all(start, all),
{
    let before = start + all.take(i);
    let next = before.push(all[i]);
    let whole = start + all;
    let k = before.len() as int;
    assert(whole.take(k + 1) =~= next.take(k + 1));
    lemma_instruction_wf_prefix(whole, next, k);
    assert(next.drop_last() =~= before);
    assert(next.last() == all[i]);
    assert(defined_types(next).len() == defined_types(before).len()
        + all[i].operation.output_types@.len());
    assert(whole.take(next.len() as int) =~= next);
    lemma_defined_types_grow(next, whole);
}

/// Whether `instr`, renumbered, can be appended after `count` variables: its
/// renumbered inputs read only defined variables, and it has an input when
/// its inputs may be mutated.
pub open spec fn renumbered_fits(instr: Instruction, count: int, offset: usize, shift: usize) -> bool {
    &&& instr.operation.input_mutable ==> instr.inputs@.len() > 0
    &&& forall|s: int|
        0 <= s < instr.inputs@.len() ==> #[trigger] renumbered_input(instr.inputs@[s], offset, shift)
            < count
}

/// Whether all of `instrs`, renumbered, can be appended in order to a
/// builder holding `start`.
pub open spec fn can_append_renumbered(
    start: Seq<Instruction>,
    instrs: Seq<Instruction>,
    offset: usize,
    shift: usize,
) -> bool {
    &&& forall|j: int|
        0 <= j < instrs.len() ==> #[trigger] renumbered_fits(
            instrs[j],
            count_before(start, instrs, j),
            offset,
            shift,
        )
    &&& count_before(start, instrs, instrs.len() as int) <= usize::MAX
}

/// Appending `all[i]` after `i` renumbered instructions, once renumbered
/// into `instr`, grows the variable count by its outputs.
proof fn lemma_count_step(start: Seq<Instruction>, all: Seq<Instruction>, i: int)
    requires
        0 <= i < all.len(),
    ensures
        count_before(start, all, i + 1) == count_before(start, all, i)
            + all[i].operation.output_types@.len(),
{
    assert(all.take(i + 1).drop_last() =~= all.take(i));
    assert(all.take(i + 1).last() == all[i]);
}

/// The variable count before `j` instructions is at most that before `n`.
proof fn lemma_count_monotone(start: Seq<Instruction>, all: Seq<Instruction>, j: int, n: int)
    requires
        0 <= j <= n <= all.len(),
    ensures
        count_before(start, all, j) <= count_before(start, all, n),
{
    assert(all.take(n).take(j) =~= all.take(j));
    lemma_defined_types_grow(all.take(j), all.take(n));
}

/// When appending the renumbered `all[i]` fails, not all of `all` can be
/// appended renumbered.
proof fn lemma_renumbered_stops(
    start: Seq<Instruction>,
    all: Seq<Instruction>,
    i: int,
    before: Seq<Instruction>,
    instr: Instruction,
    offset: usize,
    shift: usize,
)
    requires
        0 <= i < all.len(),
        is_renumbered(all[i], instr, offset, shift),
        defined_types(before).len() == count_before(start, all, i),
        !({
            &&& instruction_wf(before.push(instr), before.len() as int)
            &&& defined_types(before).len() + instr.operation.output_types@.len() <= usize::MAX
        }),
    ensures
        !can_append_renumbered(start, all, offset, shift),
{
    let next = before.push(instr);
    let k = before.len() as int;
    let c = count_before(start, all, i);
    assert(next.take(k) =~= before);
    assert(next[k] == instr);
    if !instruction_wf(next, k) {
        if instr.operation.input_mutable && instr.inputs@.len() == 0 {
            assert(!renumbered_fits(all[i], c, offset, shift));
        } else {
            let s = choose|s: int| 0 <= s < instr.inputs@.len() && instr.inputs@[s] >= c;
            assert(renumbered_input(all[i].inputs@[s], offset, shift) == instr.inputs@[s]);
            assert(!renumbered_fits(all[i], c, offset, shift));
        }
    } else {
        lemma_count_step(start, all, i);
        lemma_count_monotone(start, all, i + 1, all.len() as int);
        assert(all.take(all.len() as int) =~= all);
    }
}

/// Instructions with the same inputs, outputs and flags can be appended,
/// renumbered, exactly when the others can.
pub proof fn lemma_same_renumbered(
    start: Seq<Instruction>,
    a: Seq<Instruction>,
    b: Seq<Instruction>,
    offset: usize,
    shift: usize,
)
    requires
        same_instructions(a, b),
    ensures
        can_append_renumbered(start, a, offset, shift) == can_append_renumbered(
            start,
            b,
            offset,
            shift,
        ),
{
    assert forall|j: int| 0 <= j <= a.len() implies count_before(start, a, j) == count_before(
        start,
        b,
        j,
    ) by {
        assert forall|t: int| 0 <= t < a.take(j).len() implies #[trigger] same_instruction(
            a.take(j)[t],
            b.take(j)[t],
        ) by {
            assert(same_instruction(a[t], b[t]));
        }
        lemma_same_defined_types(a.take(j), b.take(j));
    }
    assert forall|j: int| 0 <= j < a.len() implies renumbered_fits(
        a[j],
        count_before(start, a, j),
        offset,
        shift,
    ) == renumbered_fits(b[j], count_before(start, b, j), offset, shift) by {
        assert(same_instruction(a[j], b[j]));
        assert(a[j].inputs@ == b[j].inputs@);
    }
    if can_append_renumbered(start, a, offset, shift) {
        assert forall|j: int| 0 <= j < b.len() implies #[trigger] renumbered_fits(
            b[j],
            count_before(start, b, j),
            offset,
            shift,
        ) by {
            assert(renumbered_fits(a[j], count_before(start, a, j), offset, shift));
        }
    }
    if can_append_renumbered(start, b, offset, shift) {
        assert forall|j: int| 0 <= j < a.len() implies #[trigger] renumbered_fits(
            a[j],
            count_before(start, a, j),
            offset,
            shift,
        ) by {
            assert(renumbered_fits(b[j], count_before(start, b, j), offset, shift));
        }
    }
}

/// Why an instruction could not be appended.
#[derive(Debug, PartialEq, Eq, Clone, Copy)]
pub enum BuilderError {
    /// It reads a variable that is not defined before it.
    UndefinedVariable,
    /// Its inputs may be mutated but it has none.
    MissingInput,
    /// The number of variables would not fit in a `usize`.
    TooManyVariables,
}

/// A program under construction. Every instruction is checked when it is
/// appended, so the program built is always well formed.
pub struct ProgramBuilder {
    instructions: Vec<Instruction>,
    variable_count: usize,
}

impl ProgramBuilder {
    pub closed spec fn spec_instructions(&self) -> Seq<Instruction> {
        self.instructions@
    }

    pub closed spec fn wf(&self) -> bool {
        &&& instructions_wf(self.instructions@)
        &&& self.variable_count == defined_types(self.instructions@).len()
    }

    /// Number of variables defined so far.
    pub open spec fn spec_variable_count(&self) -> nat {
        defined_types(self.spec_instructions()).len()
    }

    pub fn new() -> (r: Self)
        ensures
            r.wf(),
            r.spec_instructions() == Seq::<Instruction>::empty(),
    {
        ProgramBuilder { instructions: Vec::new(), variable_count: 0 }
    }

    pub fn variable_count(&self) -> (r: usize)
        requires
            self.wf(),
        ensures
            r == self.spec_variable_count(),
    {
        self.variable_count
    }

    /// Appends `instr` if it reads only defined variables (and has an input
    /// when its inputs may be mutated); otherwise leaves the builder as it is.
    pub fn append(&mut self, instr: Instruction) -> (r: Result<(), BuilderError>)
        requires
            old(self).wf(),
        ensures
            final(self).wf(),
            r is Ok ==> final(self).spec_instructions() == old(self).spec_instructions().push(instr),
            r is Err ==> final(self).spec_instructions() == old(self).spec_instructions(),
            r is Ok <==> ({
                let next = old(self).spec_instructions().push(instr);
                &&& instruction_wf(next, old(self).spec_instructions().len() as int)
                &&& old(self).spec_variable_count() + instr.operation.output_types@.len()
                    <= usize::MAX
            }),
    {
        let ghost next = self.instructions@.push(instr);
        let ghost n = self.instructions@.len() as int;
        assert(next.take(n) =~= self.instructions@);
        if instr.operation.input_mutable && instr.inputs.len() == 0 {
            return Err(BuilderError::MissingInput);
        }
        let mut s: usize = 0;
        while s < instr.inputs.len()
            invariant
                self.wf(),
                next == self.instructions@.push(instr),
                n == self.instructions@.len(),
                next.take(n) == self.instructions@,
                s <= instr.inputs@.len(),
                forall|t: int| 0 <= t < s ==> #[trigger] instr.inputs@[t] < self.variable_count,
            decreases instr.inputs@.len() - s,
        {
            if instr.inputs[s] >= self.variable_count {
                assert(next[n].inputs@[s as int] >= types_before(next, n).len());
                return Err(BuilderError::UndefinedVariable);
            }
            s = s + 1;
        }
        if instr.operation.output_types.len() > usize::MAX - self.variable_count {
            return Err(BuilderError::TooManyVariables);
        }
        let count = self.variable_count + instr.operation.output_types.len();
        let ghost before = self.instructions@;
        self.instructions.push(instr);
        self.variable_count = count;
        proof {
            assert(self.instructions@.drop_last() =~= before);
            assert forall|i: int| 0 <= i < self.instructions@.len() implies #[trigger] instruction_wf(
                self.instructions@,
                i,
            ) by {
                if i < before.len() {
                    assert(instruction_wf(before, i));
                    assert(self.instructions@.take(i) =~= before.take(i));
                }
            }
        }
        Ok(())
    }

    /// Appends the instructions in order, stopping at the first that cannot
    /// be appended.
    pub fn append_all(&mut self, instrs: Vec<Instruction>) -> (r: Result<(), BuilderError>)
        requires
            old(self).wf(),
        ensures
            final(self).wf(),
            r is Ok ==> final(self).spec_instructions() == old(self).spec_instructions() + instrs@,
            r is Ok <==> can_append_all(old(self).spec_instructions(), instrs@),
            r is Err ==> exists|k: int|
                0 <= k < instrs@.len() && final(self).spec_instructions() == old(
                    self,
                ).spec_instructions() + #[trigger] instrs@.take(k) && !can_append_all(
                    old(self).spec_instructions(),
                    instrs@.take(k + 1),
                ),
    {
        let ghost start = self.instructions@;
        let ghost all = instrs@;
        let mut queue = instrs;
        let mut i: usize = 0;
        let n = queue.len();
        assert(all.skip(0) =~= all);
        while i < n
            invariant
                n == all.len(),
                i <= n,
                queue@ == all.skip(i as int),
                all == instrs@,
                self.wf(),
                start == old(self).instructions@,
                self.instructions@ == start + all.take(i as int),
            decreases n - i,
        {
            let instr = queue.remove(0);
            assert(instr == all[i as int]);
            match self.append(instr) {
                Ok(()) => {},
                Err(e) => {
                    proof {
                        lemma_append_all_stops(start, all, i as int);
                        let head = all.take(i + 1);
                        assert(head.take(i as int) =~= all.take(i as int));
                        assert(head[i as int] == all[i as int]);
                        lemma_append_all_stops(start, head, i as int);
                        assert(self.instructions@ == start + all.take(i as int));
                    }
                    return Err(e);
                },
            }
            assert(all.take(i + 1) =~= all.take(i as int).push(all[i as int]));
            i = i + 1;
            assert(queue@ =~= all.skip(i as int));
        }
        assert(all.take(n as int) =~= all);
        assert(can_append_all(start, all));
        Ok(())
    }

    /// Appends `program`, renumbering the variables it reads: those at or
    /// above `offset` move up by `shift`. Stops at the first instruction
    /// that cannot be appended (or whose renumbered inputs overflow).
    #[verifier::loop_isolation(false)]
    pub fn append_program(&mut self, program: Vec<Instruction>, offset: usize, shift: usize) -> (r:
        Result<(), BuilderError>)
        requires
            old(self).wf(),
        ensures
            final(self).wf(),
            r is Ok ==> final(self).spec_instructions().len() == old(self).spec_instructions().len()
                + program@.len(),
            final(self).spec_instructions().len() <= old(self).spec_instructions().len()
                + program@.len(),
            final(self).spec_instructions().take(old(self).spec_instructions().len() as int)
                == old(self).spec_instructions(),
            forall|k: int|
                old(self).spec_instructions().len() <= k < final(self).spec_instructions().len()
                    ==> is_renumbered(
                    program@[k - old(self).spec_instructions().len()],
                    #[trigger] final(self).spec_instructions()[k],
                    offset,
                    shift,
                ),
            r is Ok <==> can_append_renumbered(old(self).spec_instructions(), program@, offset, shift),
    {
        let ghost start = self.instructions@;
        let ghost all = program@;
        let mut queue = program;
        let n = queue.len();
        let mut i: usize = 0;
        assert(all.skip(0) =~= all);
        assert(self.instructions@.take(start.len() as int) =~= start);
        while i < n
            invariant
                n == all.len(),
                i <= n,
                queue@ == all.skip(i as int),
                start == old(self).instructions@,
                self.wf(),
                self.instructions@.len() == start.len() + i,
                self.instructions@.take(start.len() as int) == start,
                forall|k: int|
                    start.len() <= k < self.instructions@.len() ==> is_renumbered(
                        all[k - start.len()],
                        #[trigger] self.instructions@[k],
                        offset,
                        shift,
                    ),
                defined_types(self.instructions@).len() == count_before(start, all, i as int),
                forall|j: int|
                    0 <= j < i ==> #[trigger] renumbered_fits(
                        all[j],
                        count_before(start, all, j),
                        offset,
                        shift,
                    ),
            decreases n - i,
        {
            let mut instr = queue.remove(0);
            assert(instr == all[i as int]);
            assert(queue@ =~= all.skip(i + 1));
            let ghost orig = instr;
            let mut s: usize = 0;
            while s < instr.inputs.len()
                invariant
                    s <= instr.inputs@.len(),
                    instr.inputs@.len() == orig.inputs@.len(),
                    instr.operation == orig.operation,
                    forall|t: int| 0 <= t < s ==> #[trigger] instr.inputs@[t] == renumbered_input(
                        orig.inputs@[t],
                        offset,
                        shift,
                    ),
                    forall|t: int| s <= t < instr.inputs@.len() ==> #[trigger] instr.inputs@[t]
                        == orig.inputs@[t],
                    self.wf(),
                    i < n,
                    n == all.len(),
                    start == old(self).instructions@,
                    self.instructions@.len() == start.len() + i,
                    self.instructions@.take(start.len() as int) == start,
                    forall|k: int|
                        start.len() <= k < self.instructions@.len() ==> is_renumbered(
                            all[k - start.len()],
                            #[trigger] self.instructions@[k],
                            offset,
                            shift,
                        ),
                decreases instr.inputs@.len() - s,
            {
                let v = instr.inputs[s];
                if v >= offset {
                    if v > usize::MAX - shift {
                        proof {
                            assert(all[i as int].inputs@[s as int] == v);
                            assert(renumbered_input(all[i as int].inputs@[s as int], offset, shift) == v + shift);
                            assert(self.variable_count == count_before(start, all, i as int));
                            assert(!renumbered_fits(all[i as int], count_before(start, all, i as int), offset, shift));
                        }
                        return Err(BuilderError::TooManyVariables);
                    }
                    instr.inputs.set(s, v + shift);
                }
                s = s + 1;
            }
            assert(is_renumbered(orig, instr, offset, shift));
            let ghost before = self.instructions@;
            let ghost renumbered = instr;
            match self.append(instr) {
                Ok(()) => {},
                Err(e) => {
                    proof {
                        lemma_renumbered_stops(start, all, i as int, before, renumbered, offset, shift);
                    }
                    return Err(e);
                },
            }
            assert(self.instructions@.take(start.len() as int) =~= before.take(start.len() as int));
            proof {
                let next = self.instructions@;
                let k = before.len() as int;
                assert(next.take(k) =~= before);
                assert(next.drop_last() =~= before);
                assert(next[k] == renumbered);
                assert(instruction_wf(next, k));
                assert(defined_types(before).len() == count_before(start, all, i as int));
                assert(types_before(next, k) == defined_types(before));
                assert(all[i as int].operation.input_mutable ==> all[i as int].inputs@.len() > 0);
                lemma_count_step(start, all, i as int);
                let ai = all[i as int];
                let c = count_before(start, all, i as int);
                assert forall|s: int| 0 <= s < ai.inputs@.len() implies #[trigger] renumbered_input(
                    ai.inputs@[s],
                    offset,
                    shift,
                ) < c by {
                    assert(renumbered.inputs@[s] == renumbered_input(ai.inputs@[s], offset, shift));
                    assert(next[k].inputs@[s] < types_before(next, k).len());
                }
                assert(renumbered_fits(ai, c, offset, shift));
            }
            i = i + 1;
        }
        assert(can_append_renumbered(start, all, offset, shift));
        Ok(())
    }

    /// The program built.
    pub fn finalize(self) -> (r: Program)
        requires
            self.wf(),
        ensures
            r.wf(),
            r.instructions@ == self.spec_instructions(),
    {
        Program { instructions: self.instructions }
    }
}

} // verus!
