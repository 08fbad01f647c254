//! Placement of incremental snapshots inside a program.
use vstd::prelude::*;

use crate::ir::{Instruction, Program};

verus! {

/// Block nesting depth after the first `k` instructions: a block begin adds
/// one, a block end removes one, never going below zero.
pub open spec fn depth_after(instrs: Seq<Instruction>, k: int) -> nat
    decreases k,
{
    if k <= 0 {
        0
    } else {
        let opened: nat = depth_after(instrs, k - 1) + if instrs[k - 1].operation.block_begin {
            1nat
        } else {
            0nat
        };
        if instrs[k - 1].operation.block_end {
            if opened > 0 {
                (opened - 1) as nat
            } else {
                0nat
            }
        } else {
            opened
        }
    }
}

/// A snapshot may be taken before instruction `p` (or after the last one, when
/// `p` is the length) if no block is open there.
pub open spec fn is_snapshot_position(instrs: Seq<Instruction>, p: int) -> bool {
    0 <= p <= instrs.len() && depth_after(instrs, p) == 0
}

pub open spec fn distance(a: int, b: int) -> int {
    if a >= b {
        a - b
    } else {
        b - a
    }
}

/// `p` is the first valid position among those closest to `target`.
pub open spec fn is_closest_snapshot_position(instrs: Seq<Instruction>, target: int, p: int) -> bool {
    &&& is_snapshot_position(instrs, p)
    &&& forall|q: int| #[trigger] is_snapshot_position(instrs, q) ==> distance(p, target) <= distance(q, target)
    &&& forall|q: int| #[trigger] is_snapshot_position(instrs, q) && q < p ==> distance(p, target) < distance(q, target)
}

proof fn lemma_depth_bound(instrs: Seq<Instruction>, k: int)
    requires
        0 <= k,
    ensures
        depth_after(instrs, k) <= k,
    decreases k,
{
    if k > 0 {
        lemma_depth_bound(instrs, k - 1);
    }
}

/// Find a valid position for the snapshot that's not inside a block: the first
/// of the positions closest to `target_pos` (clamped to the program length).
pub fn find_valid_snapshot_position(program: &Program, target_pos: usize) -> (r: Option<usize>)
    ensures
        program.instructions@.len() == 0 <==> r is None,
        r matches Some(p) ==> is_closest_snapshot_position(
            program.instructions@,
            if target_pos <= program.instructions@.len() {
                target_pos as int
            } else {
                program.instructions@.len() as int
            },
            p as int,
        ),
{
    let instructions = &program.instructions;
    let ghost instrs = instructions@;
    let n = instructions.len();
    if n == 0 {
        return None;
    }
    let target = if target_pos <= n {
        target_pos
    } else {
        n
    };
    let mut block_depth: usize = 0;
    let mut best: usize = 0;
    let mut best_distance: usize = target;
    let mut i: usize = 0;
    // Position 0 is always valid and is visited first.
    while i < n
        invariant
            n == instrs.len(),
            instrs == instructions@,
            target <= n,
            i <= n,
            block_depth == depth_after(instrs, i as int),
            is_snapshot_position(instrs, best as int),
            best_distance == distance(best as int, target as int),
            best <= i,
            forall|q: int| 0 <= q <= i && #[trigger] is_snapshot_position(instrs, q) ==> distance(best as int, target as int) <= distance(q, target as int),
            forall|q: int| 0 <= q < best && #[trigger] is_snapshot_position(instrs, q) ==> distance(best as int, target as int) < distance(q, target as int),
        decreases n - i,
    {
        proof {
            lemma_depth_bound(instrs, i as int);
        }
        if instructions[i].operation.is_block_begin() {
            block_depth = block_depth + 1;
        }
        if instructions[i].operation.is_block_end() {
            block_depth = if block_depth > 0 {
                block_depth - 1
            } else {
                0
            };
        }
        i = i + 1;
        assert(block_depth == depth_after(instrs, i as int));
        if block_depth == 0 {
            let d = if i >= target {
                i - target
            } else {
                target - i
            };
            if d < best_distance {
                best = i;
                best_distance = d;
            }
        }
    }
    Some(best)
}

/// Where incremental snapshots are placed.
#[derive(Debug, Clone, Copy, PartialEq, Eq)]
pub enum SnapshotPlacementPolicy {
    /// Half of the time in the first half of the program, otherwise in the second half.
    Balanced,
}

/// Width of the window the snapshot position is drawn from, and its start.
pub open spec fn spec_window(program_len: int, first_half: bool) -> (int, int) {
    if first_half {
        (0, if program_len / 2 >= 1 {
            program_len / 2
        } else {
            1
        })
    } else {
        (program_len / 2, program_len - program_len / 2)
    }
}

/// The position chosen for a program of `program_len` instructions, given the
/// coin flip `first_half` and the draw `offset` within the window.
pub open spec fn spec_choose_position(
    policy: SnapshotPlacementPolicy,
    program_len: int,
    first_half: bool,
    offset: int,
) -> Option<int> {
    match policy {
        SnapshotPlacementPolicy::Balanced => {
            if program_len == 0 {
                None
            } else if program_len == 1 {
                Some(0)
            } else {
                Some(spec_window(program_len, first_half).0 + offset)
            }
        },
    }
}

/// What the snapshot stage does next, once an incremental snapshot exists.
#[derive(Debug, Clone, Copy, PartialEq, Eq)]
pub enum SnapshotAction {
    /// Run the inner stage once more from the snapshot.
    RunInnerRound,
    /// Mark the snapshot for deletion and run the target once, which
    /// discards it.
    DiscardAndRunTarget,
    /// All rounds are done.
    Done,
}

/// The action after `completed` rounds when `max_reuse` rounds are made:
/// inner rounds first, the last round discards the snapshot, then done.
pub open spec fn spec_snapshot_action(max_reuse: int, completed: int) -> SnapshotAction {
    if completed + 1 < max_reuse {
        SnapshotAction::RunInnerRound
    } else if completed + 1 == max_reuse {
        SnapshotAction::DiscardAndRunTarget
    } else {
        SnapshotAction::Done
    }
}

/// With at least one round, the rounds before the last run the inner stage,
/// the last one discards the snapshot, and the stage is then done: the
/// snapshot is discarded exactly once before the stage returns.
pub proof fn lemma_snapshot_discarded_once(max_reuse: int)
    requires
        max_reuse >= 1,
    ensures
        forall|c: int| 0 <= c < max_reuse - 1 ==> #[trigger] spec_snapshot_action(max_reuse, c)
            == SnapshotAction::RunInnerRound,
        spec_snapshot_action(max_reuse, max_reuse - 1) == SnapshotAction::DiscardAndRunTarget,
        spec_snapshot_action(max_reuse, max_reuse) == SnapshotAction::Done,
        forall|c: int| 0 <= c && #[trigger] spec_snapshot_action(max_reuse, c)
            == SnapshotAction::DiscardAndRunTarget ==> c == max_reuse - 1,
{
}

/// A stage that takes an incremental snapshot inside the current program and
/// runs its inner stage several times from it.
pub struct IncrementalSnapshotStage<IS> {
    inner_stage: IS,
    policy: SnapshotPlacementPolicy,
    max_reuse_count: usize,
}

impl<IS> IncrementalSnapshotStage<IS> {
    pub closed spec fn spec_inner_stage(&self) -> IS {
        self.inner_stage
    }

    pub closed spec fn spec_policy(&self) -> SnapshotPlacementPolicy {
        self.policy
    }

    pub closed spec fn spec_max_reuse_count(&self) -> usize {
        self.max_reuse_count
    }

    pub fn new(inner_stage: IS, policy: SnapshotPlacementPolicy, max_reuse_count: usize) -> (r:
        Self)
        ensures
            r.spec_inner_stage() == inner_stage,
            r.spec_policy() == policy,
            r.spec_max_reuse_count() == max_reuse_count,
    {
        IncrementalSnapshotStage { inner_stage, policy, max_reuse_count }
    }

    pub fn policy(&self) -> (r: SnapshotPlacementPolicy)
        ensures
            r == self.spec_policy(),
    {
        self.policy
    }

    pub fn max_reuse_count(&self) -> (r: usize)
        ensures
            r == self.spec_max_reuse_count(),
    {
        self.max_reuse_count
    }

    pub fn inner_stage_mut(&mut self) -> (r: &mut IS)
        ensures
            *r == old(self).spec_inner_stage(),
            final(self).spec_inner_stage() == *final(r),
            final(self).spec_policy() == old(self).spec_policy(),
            final(self).spec_max_reuse_count() == old(self).spec_max_reuse_count(),
    {
        &mut self.inner_stage
    }

    /// Number of positions the snapshot position is drawn from, for a program
    /// of at least two instructions.
    pub fn window_width(&self, program_len: usize, first_half: bool) -> (r: usize)
        requires
            program_len >= 2,
        ensures
            r == spec_window(program_len as int, first_half).1,
            r >= 1,
    {
        if first_half {
            let half = program_len / 2;
            if half >= 1 {
                half
            } else {
                1
            }
        } else {
            program_len - program_len / 2
        }
    }

    /// Choose where to take the snapshot based on the placement policy.
    ///
    /// `first_half` is the coin flip and `offset` the draw below the window
    /// width; both matter only for programs of two or more instructions.
    pub fn choose_position(&self, program_len: usize, first_half: bool, offset: usize) -> (r:
        Option<usize>)
        requires
            program_len >= 2 ==> offset < spec_window(program_len as int, first_half).1,
        ensures
            r == match spec_choose_position(self.spec_policy(), program_len as int, first_half, offset as int) {
                Some(p) => Some(p as usize),
                None => None::<usize>,
            },
            r matches Some(p) ==> p < program_len,
    {
        if program_len == 0 {
            return None;
        }
        match self.policy {
            SnapshotPlacementPolicy::Balanced => {
                if program_len == 1 {
                    Some(0)
                } else if first_half {
                    Some(offset)
                } else {
                    Some(program_len / 2 + offset)
                }
            },
        }
    }

    /// Whether reuse round `reuse_count` (counted from one) is the last, the
    /// one that discards the incremental snapshot.
    pub fn is_last_reuse(&self, reuse_count: usize) -> (r: bool)
        ensures
            r == (reuse_count == self.spec_max_reuse_count()),
    {
        reuse_count == self.max_reuse_count
    }

    /// The action after `completed` rounds from the incremental snapshot.
    pub fn next_snapshot_action(&self, completed: usize) -> (r: SnapshotAction)
        ensures
            r == spec_snapshot_action(self.spec_max_reuse_count() as int, completed as int),
    {
        if completed >= self.max_reuse_count {
            SnapshotAction::Done
        } else if completed + 1 < self.max_reuse_count {
            SnapshotAction::RunInnerRound
        } else {
            SnapshotAction::DiscardAndRunTarget
        }
    }
}

} // verus!
