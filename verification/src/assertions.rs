//! Sometimes and always assertions reported by the fuzzed target, and the
//! feedback that keeps the best execution seen for each of them.
use vstd::prelude::*;

use crate::text::{char_views, chars_of, lines, lossy_utf8, split_lines, string_of, trim_by, trim_chars, utf8_lossy};

verus! {

/// What an assertion checks.
#[derive(Clone, Copy, PartialEq, Eq, Debug)]
pub enum Condition {
    /// A boolean condition.
    Cond(bool),
    /// `a < b`.
    Lt(i128, i128),
    /// `a <= b`.
    Lte(i128, i128),
    /// `a > b`.
    Gt(i128, i128),
    /// `a >= b`.
    Gte(i128, i128),
}

/// Largest distance reported; larger ones are capped to it.
pub open spec fn max_distance() -> int {
    u128::MAX as int
}

/// How far an execution is from satisfying the condition; zero when it holds.
pub open spec fn exact_distance(c: Condition) -> int {
    match c {
        Condition::Cond(b) => if b {
            0
        } else {
            1
        },
        Condition::Lt(a, b) => if a < b {
            0
        } else {
            a - b + 1
        },
        Condition::Lte(a, b) => if a <= b {
            0
        } else {
            a - b
        },
        Condition::Gt(a, b) => if a > b {
            0
        } else {
            b - a + 1
        },
        Condition::Gte(a, b) => if a >= b {
            0
        } else {
            b - a
        },
    }
}

/// The distance as reported: capped at `u128::MAX`.
pub open spec fn spec_distance(c: Condition) -> int {
    let d = exact_distance(c);
    if d > max_distance() {
        max_distance()
    } else {
        d
    }
}

/// Whether the comparison of a condition holds.
pub open spec fn comparison_holds(c: Condition) -> bool {
    match c {
        Condition::Cond(b) => b,
        Condition::Lt(a, b) => a < b,
        Condition::Lte(a, b) => a <= b,
        Condition::Gt(a, b) => a > b,
        Condition::Gte(a, b) => a >= b,
    }
}

/// A condition's distance is never negative, and it is zero exactly when
/// the comparison holds.
pub proof fn lemma_distance_zero_iff_comparison_holds(c: Condition)
    ensures
        spec_distance(c) >= 0,
        spec_distance(c) == 0 <==> comparison_holds(c),
{
}

/// Each comparison is at distance zero exactly when it holds.
pub proof fn lemma_comparison_distances(a: i128, b: i128, v: bool)
    ensures
        spec_distance(Condition::Lt(a, b)) == 0 <==> a < b,
        spec_distance(Condition::Lte(a, b)) == 0 <==> a <= b,
        spec_distance(Condition::Gt(a, b)) == 0 <==> a > b,
        spec_distance(Condition::Gte(a, b)) == 0 <==> a >= b,
        spec_distance(Condition::Cond(v)) == 0 <==> v,
{
}

/// `a > b` is `b < a` and `a >= b` is `b <= a`: the mirrored conditions are
/// at the same distance.
pub proof fn lemma_distance_mirrored(a: i128, b: i128)
    ensures
        spec_distance(Condition::Gt(a, b)) == spec_distance(Condition::Lt(b, a)),
        spec_distance(Condition::Gte(a, b)) == spec_distance(Condition::Lte(b, a)),
{
}

/// Moving the left side towards holding never increases the distance, and a
/// step of one changes it by at most one.
pub proof fn lemma_distance_monotone(a1: i128, a2: i128, b: i128)
    requires
        a1 <= a2,
    ensures
        spec_distance(Condition::Gt(a2, b)) <= spec_distance(Condition::Gt(a1, b)),
        spec_distance(Condition::Gte(a2, b)) <= spec_distance(Condition::Gte(a1, b)),
        spec_distance(Condition::Lt(a1, b)) <= spec_distance(Condition::Lt(a2, b)),
        spec_distance(Condition::Lte(a1, b)) <= spec_distance(Condition::Lte(a2, b)),
        a2 == a1 + 1 ==> spec_distance(Condition::Gt(a1, b)) - spec_distance(Condition::Gt(a2, b))
            <= 1,
        a2 == a1 + 1 ==> spec_distance(Condition::Lt(a2, b)) - spec_distance(Condition::Lt(a1, b))
            <= 1,
{
}

/// `hi - lo` for `lo <= hi`, which always fits in a `u128`.
fn difference(hi: i128, lo: i128) -> (r: u128)
    requires
        lo <= hi,
    ensures
        r == hi - lo,
{
    if lo >= 0 || hi < 0 {
        (hi - lo) as u128
    } else {
        // lo < 0 <= hi
        let neg = (-(lo + 1)) as u128;
        (hi as u128) + neg + 1
    }
}

/// `d + 1`, capped at `u128::MAX`.
fn plus_one_capped(d: u128) -> (r: u128)
    ensures
        r == if d + 1 > u128::MAX {
            u128::MAX as int
        } else {
            d + 1
        },
{
    if d == u128::MAX {
        d
    } else {
        d + 1
    }
}

impl Condition {
    pub fn distance(&self) -> (r: u128)
        ensures
            r == spec_distance(*self),
    {
        match *self {
            Condition::Cond(b) => if b {
                0
            } else {
                1
            },
            Condition::Lt(a, b) => if a < b {
                0
            } else {
                plus_one_capped(difference(a, b))
            },
            Condition::Lte(a, b) => if a <= b {
                0
            } else {
                difference(a, b)
            },
            Condition::Gt(a, b) => if a > b {
                0
            } else {
                plus_one_capped(difference(b, a))
            },
            Condition::Gte(a, b) => if a >= b {
                0
            } else {
                difference(b, a)
            },
        }
    }
}

/// An assertion reported by one execution: whether it must always hold or
/// should sometimes hold, what it checks and its message.
pub enum AssertionScope {
    Always(Condition, String),
    Sometimes(Condition, String),
}

impl AssertionScope {
    pub open spec fn condition(&self) -> Condition {
        match self {
            AssertionScope::Always(c, _) => *c,
            AssertionScope::Sometimes(c, _) => *c,
        }
    }

    pub open spec fn spec_message(&self) -> Seq<char> {
        match self {
            AssertionScope::Always(_, m) => m@,
            AssertionScope::Sometimes(_, m) => m@,
        }
    }

    /// The assertion holds in this execution.
    pub open spec fn holds(&self) -> bool {
        spec_distance(self.condition()) == 0
    }

    pub fn message(&self) -> (r: String)
        ensures
            r@ == self.spec_message(),
    {
        match self {
            AssertionScope::Always(_, m) => m.clone(),
            AssertionScope::Sometimes(_, m) => m.clone(),
        }
    }

    pub fn distance(&self) -> (r: u128)
        ensures
            r == spec_distance(self.condition()),
    {
        match self {
            AssertionScope::Always(c, _) => c.distance(),
            AssertionScope::Sometimes(c, _) => c.distance(),
        }
    }

    /// Whether the assertion holds: its distance is zero.
    pub fn evaluate(&self) -> (r: bool)
        ensures
            r == self.holds(),
    {
        self.distance() == 0
    }

    /// A copy of the assertion.
    pub fn duplicate(&self) -> (r: Self)
        ensures
            r == *self,
    {
        match self {
            AssertionScope::Always(c, m) => AssertionScope::Always(*c, m.clone()),
            AssertionScope::Sometimes(c, m) => AssertionScope::Sometimes(*c, m.clone()),
        }
    }
}

/// Assertions by message, as a map built from entries in order (a later entry
/// with the same message wins).
pub open spec fn entries_map(entries: Seq<AssertionScope>) -> Map<Seq<char>, AssertionScope>
    decreases entries.len(),
{
    if entries.len() == 0 {
        Map::empty()
    } else {
        entries_map(entries.drop_last()).insert(entries.last().spec_message(), entries.last())
    }
}

/// No two entries share a message.
pub open spec fn distinct_messages(entries: Seq<AssertionScope>) -> bool {
    forall|i: int, j: int|
        0 <= i < entries.len() && 0 <= j < entries.len() && i != j ==> #[trigger] entries[i].spec_message()
            != #[trigger] entries[j].spec_message()
}

/// A map from assertion messages to assertions.
pub struct AssertionMap {
    entries: Vec<AssertionScope>,
}

proof fn lemma_entries_map_dom(entries: Seq<AssertionScope>, m: Seq<char>)
    ensures
        entries_map(entries).dom().contains(m) <==> exists|i: int|
            0 <= i < entries.len() && #[trigger] entries[i].spec_message() == m,
    decreases entries.len(),
{
    if entries.len() > 0 {
        lemma_entries_map_dom(entries.drop_last(), m);
        if entries.last().spec_message() == m {
            assert(entries[entries.len() - 1].spec_message() == m);
        }
        if exists|i: int| 0 <= i < entries.len() && #[trigger] entries[i].spec_message() == m {
            let i = choose|i: int| 0 <= i < entries.len() && #[trigger] entries[i].spec_message() == m;
            if i < entries.len() - 1 {
                assert(entries.drop_last()[i].spec_message() == m);
            }
        }
    }
}

proof fn lemma_entries_map_at(entries: Seq<AssertionScope>, i: int)
    requires
        distinct_messages(entries),
        0 <= i < entries.len(),
    ensures
        entries_map(entries).dom().contains(entries[i].spec_message()),
        entries_map(entries)[entries[i].spec_message()] == entries[i],
    decreases entries.len(),
{
    if i < entries.len() - 1 {
        lemma_entries_map_at(entries.drop_last(), i);
        assert(entries.drop_last()[i] == entries[i]);
        assert(entries[entries.len() - 1].spec_message() != entries[i].spec_message());
    }
}

proof fn lemma_entries_map_update(entries: Seq<AssertionScope>, i: int, x: AssertionScope)
    requires
        distinct_messages(entries),
        0 <= i < entries.len(),
        x.spec_message() == entries[i].spec_message(),
    ensures
        entries_map(entries.update(i, x)) == entries_map(entries).insert(x.spec_message(), x),
    decreases entries.len(),
{
    let updated = entries.update(i, x);
    if i == entries.len() - 1 {
        assert(updated.drop_last() =~= entries.drop_last());
        assert(entries_map(updated) =~= entries_map(entries).insert(x.spec_message(), x));
    } else {
        assert(updated.drop_last() =~= entries.drop_last().update(i, x));
        assert(distinct_messages(entries.drop_last()));
        lemma_entries_map_update(entries.drop_last(), i, x);
        assert(entries[entries.len() - 1].spec_message() != entries[i].spec_message());
        assert(entries_map(updated) =~= entries_map(entries).insert(x.spec_message(), x));
    }
}

impl AssertionMap {
    pub closed spec fn view(&self) -> Map<Seq<char>, AssertionScope> {
        entries_map(self.entries@)
    }

    pub closed spec fn wf(&self) -> bool {
        distinct_messages(self.entries@)
    }

    pub fn new() -> (r: Self)
        ensures
            r.wf(),
            r.view() == Map::<Seq<char>, AssertionScope>::empty(),
    {
        AssertionMap { entries: Vec::new() }
    }

    /// Number of assertions.
    pub fn len(&self) -> (r: usize)
        requires
            self.wf(),
        ensures
            r == self.view().len(),
    {
        proof {
            self.lemma_len();
        }
        self.entries.len()
    }

    proof fn lemma_len(&self)
        requires
            self.wf(),
        ensures
            self.view().dom().finite(),
            self.view().len() == self.entries@.len(),
        decreases self.entries@.len(),
    {
        lemma_map_len(self.entries@);
    }

    fn find(&self, message: &String) -> (r: Option<usize>)
        requires
            self.wf(),
        ensures
            r matches Some(i) ==> i < self.entries@.len() && self.entries@[i as int].spec_message()
                == message@,
            r is None ==> !self.view().dom().contains(message@),
    {
        let mut i: usize = 0;
        while i < self.entries.len()
            invariant
                i <= self.entries@.len(),
                forall|k: int| 0 <= k < i ==> #[trigger] self.entries@[k].spec_message() != message@,
            decreases self.entries@.len() - i,
        {
            let m = self.entries[i].message();
            if m == *message {
                return Some(i);
            }
            i = i + 1;
        }
        proof {
            lemma_entries_map_dom(self.entries@, message@);
        }
        None
    }

    /// The assertion stored under `message`, if any.
    pub fn get(&self, message: &String) -> (r: Option<&AssertionScope>)
        requires
            self.wf(),
        ensures
            r is None <==> !self.view().dom().contains(message@),
            r matches Some(a) ==> self.view()[message@] == *a && a.spec_message() == message@,
    {
        match self.find(message) {
            Some(i) => {
                proof {
                    lemma_entries_map_at(self.entries@, i as int);
                }
                Some(&self.entries[i])
            },
            None => None,
        }
    }

    /// Stores `assertion` under its message, replacing what was there.
    pub fn insert(&mut self, assertion: AssertionScope)
        requires
            old(self).wf(),
        ensures
            final(self).wf(),
            final(self).view() == old(self).view().insert(assertion.spec_message(), assertion),
    {
        let message = assertion.message();
        match self.find(&message) {
            Some(i) => {
                proof {
                    lemma_entries_map_update(self.entries@, i as int, assertion);
                }
                self.entries.set(i, assertion);
            },
            None => {
                proof {
                    lemma_entries_map_dom(self.entries@, message@);
                }
                let ghost before = self.entries@;
                self.entries.push(assertion);
                assert(self.entries@.drop_last() =~= before);
            },
        }
    }

    /// The assertions, in insertion order of their messages.
    pub fn values(&self) -> (r: &Vec<AssertionScope>)
        requires
            self.wf(),
        ensures
            forall|i: int| 0 <= i < r@.len() ==> self.view().dom().contains(#[trigger] r@[i].spec_message())
                && self.view()[r@[i].spec_message()] == r@[i],
            forall|m: Seq<char>| #[trigger] self.view().dom().contains(m) ==> exists|i: int|
                0 <= i < r@.len() && #[trigger] r@[i].spec_message() == m,
            r@.len() == self.view().len(),
    {
        proof {
            self.lemma_len();
            assert forall|i: int| 0 <= i < self.entries@.len() implies self.view().dom().contains(
                #[trigger] self.entries@[i].spec_message(),
            ) && self.view()[self.entries@[i].spec_message()] == self.entries@[i] by {
                lemma_entries_map_at(self.entries@, i);
            }
            assert forall|m: Seq<char>| #[trigger] self.view().dom().contains(m) implies exists|i: int|
                0 <= i < self.entries@.len() && #[trigger] self.entries@[i].spec_message() == m by {
                lemma_entries_map_dom(self.entries@, m);
            }
        }
        &self.entries
    }
}

proof fn lemma_map_len(entries: Seq<AssertionScope>)
    requires
        distinct_messages(entries),
    ensures
        entries_map(entries).dom().finite(),
        entries_map(entries).len() == entries.len(),
    decreases entries.len(),
{
    if entries.len() > 0 {
        let rest = entries.drop_last();
        assert(distinct_messages(rest));
        lemma_map_len(rest);
        lemma_entries_map_dom(rest, entries.last().spec_message());
        assert(!entries_map(rest).dom().contains(entries.last().spec_message())) by {
            if entries_map(rest).dom().contains(entries.last().spec_message()) {
                let i = choose|i: int| 0 <= i < rest.len() && #[trigger] rest[i].spec_message() == entries.last().spec_message();
                assert(entries[i].spec_message() == entries[entries.len() - 1].spec_message());
            }
        }
    }
}

/// The assertions of one execution, by message (a later report of the same
/// message wins).
pub fn collect_assertions(parsed: Vec<AssertionScope>) -> (r: AssertionMap)
    ensures
        r.wf(),
        r.view() == entries_map(parsed@),
{
    let mut map = AssertionMap::new();
    let n = parsed.len();
    let mut i: usize = 0;
    while i < n
        invariant
            n == parsed@.len(),
            i <= n,
            map.wf(),
            map.view() == entries_map(parsed@.take(i as int)),
        decreases n - i,
    {
        assert(parsed@.take(i + 1).drop_last() =~= parsed@.take(i as int));
        map.insert(parsed[i].duplicate());
        i = i + 1;
    }
    assert(parsed@.take(n as int) =~= parsed@);
    map
}

/// Whether `new` is progress over `stored`, the assertion kept so far under
/// the same message: a first report (in always-only mode, only one that
/// holds), one that newly holds, or one closer to holding. In always-only
/// mode sometimes assertions are ignored.
pub open spec fn is_progress(only_always: bool, stored: Option<AssertionScope>, new: AssertionScope) -> bool {
    if only_always && new is Sometimes {
        false
    } else {
        match stored {
            None => new.holds() || !only_always,
            Some(prev) => (!prev.holds() && new.holds()) || spec_distance(prev.condition())
                > spec_distance(new.condition()),
        }
    }
}

/// Against a kept assertion, a report is progress exactly when it counts in
/// this mode (always-only mode ignores sometimes reports) and is strictly
/// closer to holding than the kept one; a first report is progress when it
/// counts and, in always-only mode, holds.
pub proof fn lemma_progress_is_getting_closer(
    only_always: bool,
    prev: AssertionScope,
    new: AssertionScope,
)
    ensures
        is_progress(only_always, Some(prev), new) <==> (!(only_always && new is Sometimes)
            && spec_distance(new.condition()) < spec_distance(prev.condition())),
        is_progress(only_always, None, new) <==> (!(only_always && new is Sometimes) && (
        !only_always || spec_distance(new.condition()) == 0)),
{
    lemma_distance_zero_iff_comparison_holds(prev.condition());
    lemma_distance_zero_iff_comparison_holds(new.condition());
}

pub open spec fn stored_under(map: Map<Seq<char>, AssertionScope>, m: Seq<char>) -> Option<
    AssertionScope,
> {
    if map.dom().contains(m) {
        Some(map[m])
    } else {
        None
    }
}

/// The state of the feedback after evaluating `reports` in order: the
/// assertions kept, the messages updated, and whether any report was progress.
pub open spec fn evaluate_reports(
    only_always: bool,
    map: Map<Seq<char>, AssertionScope>,
    updates: Seq<Seq<char>>,
    reports: Seq<AssertionScope>,
) -> (Map<Seq<char>, AssertionScope>, Seq<Seq<char>>, bool)
    decreases reports.len(),
{
    if reports.len() == 0 {
        (map, updates, false)
    } else {
        let (m, u, b) = evaluate_reports(only_always, map, updates, reports.drop_last());
        let new = reports.last();
        if is_progress(only_always, stored_under(m, new.spec_message()), new) {
            (m.insert(new.spec_message(), new), u.push(new.spec_message()), true)
        } else {
            (m, u, b)
        }
    }
}

/// Feedback on the assertions of executions: it keeps, for each message, the
/// best report seen, and finds an execution interesting when one of its
/// reports makes progress.
pub struct AssertionFeedback {
    assertions: AssertionMap,
    last_assertion_updates: Vec<String>,
    only_always_assertions: bool,
    enabled: bool,
}

impl AssertionFeedback {
    pub closed spec fn spec_assertions(&self) -> Map<Seq<char>, AssertionScope> {
        self.assertions.view()
    }

    pub closed spec fn spec_updates(&self) -> Seq<Seq<char>> {
        self.last_assertion_updates@.map_values(|s: String| s@)
    }

    pub closed spec fn spec_only_always(&self) -> bool {
        self.only_always_assertions
    }

    pub closed spec fn spec_enabled(&self) -> bool {
        self.enabled
    }

    /// Every updated message is kept.
    pub closed spec fn wf(&self) -> bool {
        &&& self.assertions.wf()
        &&& forall|i: int|
            0 <= i < self.last_assertion_updates@.len() ==> self.assertions.view().dom().contains(
                #[trigger] self.last_assertion_updates@[i]@,
            )
    }

    /// Feedback on all assertions.
    pub fn new(enabled: bool) -> (r: Self)
        ensures
            r.wf(),
            r.spec_assertions() == Map::<Seq<char>, AssertionScope>::empty(),
            r.spec_updates() == Seq::<Seq<char>>::empty(),
            !r.spec_only_always(),
            r.spec_enabled() == enabled,
    {
        let r = AssertionFeedback {
            assertions: AssertionMap::new(),
            last_assertion_updates: Vec::new(),
            only_always_assertions: false,
            enabled,
        };
        assert(r.spec_updates() =~= Seq::<Seq<char>>::empty());
        r
    }

    /// Feedback on always assertions only.
    pub fn new_only_always(enabled: bool) -> (r: Self)
        ensures
            r.wf(),
            r.spec_assertions() == Map::<Seq<char>, AssertionScope>::empty(),
            r.spec_updates() == Seq::<Seq<char>>::empty(),
            r.spec_only_always(),
            r.spec_enabled() == enabled,
    {
        let r = AssertionFeedback {
            assertions: AssertionMap::new(),
            last_assertion_updates: Vec::new(),
            only_always_assertions: true,
            enabled,
        };
        assert(r.spec_updates() =~= Seq::<Seq<char>>::empty());
        r
    }

    pub fn is_only_always(&self) -> (r: bool)
        ensures
            r == self.spec_only_always(),
    {
        self.only_always_assertions
    }

    pub fn is_enabled(&self) -> (r: bool)
        ensures
            r == self.spec_enabled(),
    {
        self.enabled
    }

    /// The assertions kept so far.
    pub fn assertions(&self) -> (r: &AssertionMap)
        requires
            self.wf(),
        ensures
            r.wf(),
            r.view() == self.spec_assertions(),
    {
        &self.assertions
    }

    /// Keeps `new` when it is progress over what is kept under its message,
    /// and records its message as updated; returns whether it was.
    pub fn evaluate_assertion(&mut self, new: AssertionScope) -> (r: bool)
        requires
            old(self).wf(),
        ensures
            final(self).wf(),
            final(self).spec_only_always() == old(self).spec_only_always(),
            final(self).spec_enabled() == old(self).spec_enabled(),
            r == is_progress(
                old(self).spec_only_always(),
                stored_under(old(self).spec_assertions(), new.spec_message()),
                new,
            ),
            r ==> final(self).spec_assertions() == old(self).spec_assertions().insert(
                new.spec_message(),
                new,
            ) && final(self).spec_updates() == old(self).spec_updates().push(new.spec_message()),
            !r ==> final(self).spec_assertions() == old(self).spec_assertions()
                && final(self).spec_updates() == old(self).spec_updates(),
    {
        let is_sometimes = match &new {
            AssertionScope::Sometimes(_, _) => true,
            AssertionScope::Always(_, _) => false,
        };
        if self.only_always_assertions && is_sometimes {
            return false;
        }
        let message = new.message();
        let result = match self.assertions.get(&message) {
            // Track new sometimes assertions even when they are not satisfied yet.
            // Once tracked, future executions can become interesting by reducing
            // the distance to the asserted condition.
            None => new.evaluate() || !self.only_always_assertions,
            Some(prev) => (!prev.evaluate() && new.evaluate()) || (prev.distance()
                > new.distance()),
        };
        if result {
            let ghost before = self.last_assertion_updates@;
            let ghost old_map = self.assertions.view();
            self.last_assertion_updates.push(new.message());
            self.assertions.insert(new);
            assert(self.spec_updates() =~= before.map_values(|s: String| s@).push(message@));
            assert forall|i: int| 0 <= i < self.last_assertion_updates@.len() implies self.assertions.view().dom().contains(
                #[trigger] self.last_assertion_updates@[i]@,
            ) by {
                if i < before.len() {
                    assert(self.last_assertion_updates@[i] == before[i]);
                    assert(old_map.dom().contains(before[i]@));
                }
            }
        }
        result
    }

    /// Evaluates the reports of one execution in order; returns whether any
    /// of them was progress. The updated messages start afresh, and a
    /// disabled feedback finds nothing interesting.
    pub fn evaluate_all(&mut self, reports: Vec<AssertionScope>) -> (r: bool)
        requires
            old(self).wf(),
        ensures
            final(self).wf(),
            final(self).spec_only_always() == old(self).spec_only_always(),
            final(self).spec_enabled() == old(self).spec_enabled(),
            !old(self).spec_enabled() ==> !r && final(self).spec_assertions()
                == old(self).spec_assertions() && final(self).spec_updates() == Seq::<
                Seq<char>,
            >::empty(),
            old(self).spec_enabled() ==> (final(self).spec_assertions(), final(self).spec_updates(), r)
                == evaluate_reports(
                old(self).spec_only_always(),
                old(self).spec_assertions(),
                Seq::empty(),
                reports@,
            ),
    {
        self.last_assertion_updates.clear();
        assert(self.spec_updates() =~= Seq::<Seq<char>>::empty());
        if !self.enabled {
            return false;
        }
        let ghost only_always = self.only_always_assertions;
        let ghost start = self.spec_assertions();
        let ghost all = reports@;
        let mut interesting = false;
        let n = reports.len();
        let mut i: usize = 0;
        assert(all.take(0) =~= Seq::<AssertionScope>::empty());
        while i < n
            invariant
                n == all.len(),
                all == reports@,
                i <= n,
                self.wf(),
                self.spec_only_always() == only_always,
                self.spec_enabled(),
                (self.spec_assertions(), self.spec_updates(), interesting) == evaluate_reports(
                    only_always,
                    start,
                    Seq::empty(),
                    all.take(i as int),
                ),
            decreases n - i,
        {
            assert(all.take(i + 1).drop_last() =~= all.take(i as int));
            let progress = self.evaluate_assertion(reports[i].duplicate());
            interesting = interesting || progress;
            i = i + 1;
        }
        assert(all.take(n as int) =~= all);
        interesting
    }

    /// The kept assertions whose messages were updated by the last execution.
    pub fn updated_assertions(&self) -> (r: AssertionMetadata)
        requires
            self.wf(),
        ensures
            forall|m: Seq<char>| #[trigger] self.spec_updates().contains(m)
                ==> self.spec_assertions().dom().contains(m),
            r.assertions.wf(),
            r.assertions.view() == Map::new(
                |m: Seq<char>| self.spec_updates().contains(m),
                |m: Seq<char>| self.spec_assertions()[m],
            ),
    {
        proof {
            assert forall|m: Seq<char>| #[trigger] self.spec_updates().contains(m)
                implies self.spec_assertions().dom().contains(m) by {
                let j = choose|j: int| 0 <= j < self.spec_updates().len() && self.spec_updates()[j] == m;
                assert(self.last_assertion_updates@[j]@ == m);
            }
        }
        let mut assertions = AssertionMap::new();
        let mut i: usize = 0;
        while i < self.last_assertion_updates.len()
            invariant
                self.wf(),
                i <= self.last_assertion_updates@.len(),
                assertions.wf(),
                assertions.view() == Map::new(
                    |m: Seq<char>| self.spec_updates().take(i as int).contains(m),
                    |m: Seq<char>| self.spec_assertions()[m],
                ),
            decreases self.last_assertion_updates@.len() - i,
        {
            let msg = &self.last_assertion_updates[i];
            let ghost before = assertions.view();
            if let Some(assertion) = self.assertions.get(msg) {
                assertions.insert(assertion.duplicate());
            }
            assert(self.spec_updates().take(i + 1) =~= self.spec_updates().take(i as int).push(
                msg@,
            ));
            assert(self.spec_updates()[i as int] == msg@);
            assert(self.spec_assertions().dom().contains(msg@));
            let ghost prefix = self.spec_updates().take(i as int);
            let ghost longer = self.spec_updates().take(i + 1);
            assert(longer =~= prefix.push(msg@));
            assert forall|m: Seq<char>| longer.contains(m) <==> (prefix.contains(m) || m == msg@) by {
                if prefix.contains(m) {
                    let j = choose|j: int| 0 <= j < prefix.len() && prefix[j] == m;
                    assert(longer[j] == m);
                }
                if m == msg@ {
                    assert(longer[i as int] == m);
                }
                if longer.contains(m) {
                    let j = choose|j: int| 0 <= j < longer.len() && longer[j] == m;
                    if j < i {
                        assert(prefix[j] == m);
                    }
                }
            }
            assert(assertions.view() =~= Map::new(
                |m: Seq<char>| self.spec_updates().take(i + 1).contains(m),
                |m: Seq<char>| self.spec_assertions()[m],
            ));
            i = i + 1;
        }
        assert(self.spec_updates().take(self.last_assertion_updates@.len() as int) =~= self.spec_updates());
        AssertionMetadata { assertions }
    }
}

/// The assertions that an execution updated, attached to its test case.
pub struct AssertionMetadata {
    pub assertions: AssertionMap,
}

/// A kept assertion that holds is never replaced.
pub proof fn lemma_satisfied_assertion_is_kept(
    only_always: bool,
    stored: AssertionScope,
    new: AssertionScope,
)
    requires
        stored.holds(),
    ensures
        !is_progress(only_always, Some(stored), new),
{
}

/// Replacing a kept assertion never moves it further from holding.
pub proof fn lemma_distance_never_increases(
    only_always: bool,
    stored: AssertionScope,
    new: AssertionScope,
)
    requires
        is_progress(only_always, Some(stored), new),
    ensures
        spec_distance(new.condition()) < spec_distance(stored.condition()),
{
}

/// In always-only mode a sometimes assertion is never kept.
pub proof fn lemma_only_always_ignores_sometimes(
    stored: Option<AssertionScope>,
    new: AssertionScope,
)
    requires
        new is Sometimes,
    ensures
        !is_progress(true, stored, new),
{
}

/// A report that repeats the kept one exactly is never progress.
pub proof fn lemma_repeat_is_not_progress(only_always: bool, stored: AssertionScope)
    ensures
        !is_progress(only_always, Some(stored), stored),
{
}

/// Envelope of every message a target prints on its standard output: probe
/// results and assertion data (base64 of the assertion's JSON).
pub enum StdoutMessage {
    Probe(String),
    Assertion(String),
}

/// A line of standard output as the message parser reads it: white space and
/// then NUL characters trimmed from both ends.
pub open spec fn message_line(line: Seq<char>) -> Seq<char> {
    trim_by(trim_by(line, false), true)
}

/// The lines of a target's standard output that may hold messages: the
/// output decoded lossily as UTF-8, split into lines, each trimmed.
pub fn stdout_message_lines(buffer: &[u8]) -> (r: Vec<String>)
    ensures
        r@.map_values(|s: String| s@) == lines(lossy_utf8(buffer@)).map_values(
            |l: Seq<char>| message_line(l),
        ),
{
    let text = utf8_lossy(buffer);
    let cs = chars_of(text.as_str());
    let ls = split_lines(&cs);
    let mut out: Vec<String> = Vec::new();
    let mut i: usize = 0;
    while i < ls.len()
        invariant
            i <= ls@.len(),
            char_views(ls@) == lines(lossy_utf8(buffer@)),
            out@.map_values(|s: String| s@) == char_views(ls@).take(i as int).map_values(
                |l: Seq<char>| message_line(l),
            ),
        decreases ls@.len() - i,
    {
        let a = trim_chars(ls[i].as_slice(), false);
        let b = trim_chars(a.as_slice(), true);
        let ghost before = out@;
        out.push(string_of(b.as_slice()));
        assert(char_views(ls@)[i as int] == ls@[i as int]@);
        assert(out@.map_values(|s: String| s@) =~= before.map_values(|s: String| s@).push(
            message_line(ls@[i as int]@),
        ));
        assert(char_views(ls@).take(i + 1).map_values(|l: Seq<char>| message_line(l)) =~= char_views(
            ls@,
        ).take(i as int).map_values(|l: Seq<char>| message_line(l)).push(message_line(ls@[i as int]@)));
        i = i + 1;
    }
    assert(char_views(ls@).take(ls@.len() as int) =~= char_views(ls@));
    out
}

/// The character of base64's standard alphabet for the six-bit value `v`:
/// `A`-`Z`, `a`-`z`, `0`-`9`, `+`, `/`.
pub open spec fn base64_symbol(v: int) -> u8 {
    if v < 26 {
        (65 + v) as u8
    } else if v < 52 {
        (71 + v) as u8
    } else if v < 62 {
        (v - 4) as u8
    } else if v == 62 {
        43u8
    } else {
        47u8
    }
}

/// The padding character `=`.
pub open spec fn base64_pad() -> u8 {
    61u8
}

/// Standard base64 with padding (RFC 4648, section 4): each group of three
/// bytes becomes four characters of six bits each; a last group of one or two
/// bytes is completed with zero bits and padded with `=` to four characters.
pub open spec fn base64_encode(b: Seq<u8>) -> Seq<u8>
    decreases b.len(),
{
    if b.len() == 0 {
        Seq::empty()
    } else if b.len() == 1 {
        seq![base64_symbol((b[0] / 4) as int), base64_symbol((b[0] % 4) * 16), base64_pad(), base64_pad()]
    } else if b.len() == 2 {
        seq![
            base64_symbol((b[0] / 4) as int),
            base64_symbol((b[0] % 4) * 16 + b[1] / 16),
            base64_symbol((b[1] % 16) * 4),
            base64_pad(),
        ]
    } else {
        seq![
            base64_symbol((b[0] / 4) as int),
            base64_symbol((b[0] % 4) * 16 + b[1] / 16),
            base64_symbol((b[1] % 16) * 4 + b[2] / 64),
            base64_symbol((b[2] % 64) as int),
        ] + base64_encode(b.skip(3))
    }
}

/// Canonical decoding of padded standard base64: the bytes whose encoding is
/// `input`, or `None` when `input` is no such encoding.
pub open spec fn base64_decode(input: Seq<u8>) -> Option<Seq<u8>> {
    if exists|b: Seq<u8>| base64_encode(b) == input {
        Some(choose|b: Seq<u8>| base64_encode(b) == input)
    } else {
        None
    }
}

proof fn lemma_symbol_injective(x: int, y: int)
    requires
        0 <= x < 64,
        0 <= y < 64,
        base64_symbol(x) == base64_symbol(y),
    ensures
        x == y,
{
}

proof fn lemma_symbol_not_pad(x: int)
    requires
        0 <= x < 64,
    ensures
        base64_symbol(x) != base64_pad(),
{
}

proof fn lemma_group_injective(a0: u8, a1: u8, a2: u8, b0: u8, b1: u8, b2: u8)
    requires
        a0 / 4 == b0 / 4,
        (a0 % 4) * 16 + a1 / 16 == (b0 % 4) * 16 + b1 / 16,
        (a1 % 16) * 4 + a2 / 64 == (b1 % 16) * 4 + b2 / 64,
        a2 % 64 == b2 % 64,
    ensures
        a0 == b0 && a1 == b1 && a2 == b2,
{
    assert(a0 == b0 && a1 == b1 && a2 == b2) by (bit_vector)
        requires
            a0 / 4 == b0 / 4,
            (a0 % 4) * 16 + a1 / 16 == (b0 % 4) * 16 + b1 / 16,
            (a1 % 16) * 4 + a2 / 64 == (b1 % 16) * 4 + b2 / 64,
            a2 % 64 == b2 % 64,
    ;
}

/// The first four characters of a non-empty encoding.
proof fn lemma_encode_head(x: Seq<u8>)
    requires
        x.len() > 0,
    ensures
        base64_encode(x).len() >= 4,
        base64_encode(x)[0] == base64_symbol((x[0] / 4) as int),
        x.len() == 1 ==> base64_encode(x).len() == 4 && base64_encode(x)[1] == base64_symbol(
            (x[0] % 4) * 16,
        ) && base64_encode(x)[2] == base64_pad() && base64_encode(x)[3] == base64_pad(),
        x.len() == 2 ==> base64_encode(x).len() == 4 && base64_encode(x)[1] == base64_symbol(
            (x[0] % 4) * 16 + x[1] / 16,
        ) && base64_encode(x)[2] == base64_symbol((x[1] % 16) * 4) && base64_encode(x)[3]
            == base64_pad(),
        x.len() >= 3 ==> base64_encode(x)[1] == base64_symbol((x[0] % 4) * 16 + x[1] / 16)
            && base64_encode(x)[2] == base64_symbol((x[1] % 16) * 4 + x[2] / 64)
            && base64_encode(x)[3] == base64_symbol((x[2] % 64) as int) && base64_encode(x).skip(4)
            == base64_encode(x.skip(3)),
{
    if x.len() >= 3 {
        let g = seq![
            base64_symbol((x[0] / 4) as int),
            base64_symbol((x[0] % 4) * 16 + x[1] / 16),
            base64_symbol((x[1] % 16) * 4 + x[2] / 64),
            base64_symbol((x[2] % 64) as int),
        ];
        assert(base64_encode(x) == g + base64_encode(x.skip(3)));
        assert((g + base64_encode(x.skip(3))).skip(4) =~= base64_encode(x.skip(3)));
    }
}

/// Two byte sequences with the same encoding are equal.
pub proof fn lemma_base64_injective(a: Seq<u8>, b: Seq<u8>)
    requires
        base64_encode(a) == base64_encode(b),
    ensures
        a == b,
    decreases a.len(),
{
    let ea = base64_encode(a);
    let eb = base64_encode(b);
    if a.len() == 0 || b.len() == 0 {
        if a.len() > 0 {
            lemma_encode_head(a);
        }
        if b.len() > 0 {
            lemma_encode_head(b);
        }
        assert(a =~= b);
        return;
    }
    lemma_encode_head(a);
    lemma_encode_head(b);
    let a0 = a[0];
    let b0 = b[0];
    lemma_symbol_injective((a0 / 4) as int, (b0 / 4) as int);
    if a.len() == 1 {
        if b.len() == 2 {
            lemma_symbol_not_pad((b[1] % 16) * 4);
        } else if b.len() >= 3 {
            lemma_symbol_not_pad((b[1] % 16) * 4 + b[2] / 64);
        }
        lemma_symbol_injective((a0 % 4) * 16, (b0 % 4) * 16);
        assert(a0 == b0) by (bit_vector)
            requires
                a0 / 4 == b0 / 4,
                (a0 % 4) * 16 == (b0 % 4) * 16,
        ;
        assert(a =~= b);
    } else if a.len() == 2 {
        if b.len() == 1 {
            lemma_symbol_not_pad((a[1] % 16) * 4);
        } else if b.len() >= 3 {
            lemma_symbol_not_pad((b[2] % 64) as int);
        }
        let a1 = a[1];
        let b1 = b[1];
        lemma_symbol_injective((a0 % 4) * 16 + a1 / 16, (b0 % 4) * 16 + b1 / 16);
        lemma_symbol_injective((a1 % 16) * 4, (b1 % 16) * 4);
        assert(a0 == b0 && a1 == b1) by (bit_vector)
            requires
                a0 / 4 == b0 / 4,
                (a0 % 4) * 16 + a1 / 16 == (b0 % 4) * 16 + b1 / 16,
                (a1 % 16) * 4 == (b1 % 16) * 4,
        ;
        assert(a =~= b);
    } else {
        if b.len() == 1 {
            lemma_symbol_not_pad((a[1] % 16) * 4 + a[2] / 64);
        } else if b.len() == 2 {
            lemma_symbol_not_pad((a[2] % 64) as int);
        }
        let a1 = a[1];
        let b1 = b[1];
        let a2 = a[2];
        let b2 = b[2];
        lemma_symbol_injective((a0 % 4) * 16 + a1 / 16, (b0 % 4) * 16 + b1 / 16);
        lemma_symbol_injective((a1 % 16) * 4 + a2 / 64, (b1 % 16) * 4 + b2 / 64);
        lemma_symbol_injective((a2 % 64) as int, (b2 % 64) as int);
        lemma_group_injective(a0, a1, a2, b0, b1, b2);
        lemma_base64_injective(a.skip(3), b.skip(3));
        assert(a =~= seq![a0, a1, a2] + a.skip(3));
        assert(b =~= seq![b0, b1, b2] + b.skip(3));
    }
}

/// Decodes `input` with `base64::prelude::BASE64_STANDARD.decode`.
/// Trusted: the standard engine requires canonical padding and rejects
/// trailing bits, so it accepts exactly the padded standard encodings of
/// byte sequences, and then gives the bytes encoded.
#[verifier::external_body]
fn base64_standard_decode(input: &[u8]) -> (r: Option<Vec<u8>>)
    ensures
        match r {
            Some(v) => base64_encode(v@) == input@,
            None => forall|b: Seq<u8>| #[trigger] base64_encode(b) != input@,
        },
{
    base64::Engine::decode(&base64::prelude::BASE64_STANDARD, input).ok()
}

/// Decodes `bytes` with `String::from_utf8`.
/// Trusted: std documents that it succeeds exactly on valid UTF-8 and then
/// holds the decoded characters.
#[verifier::external_body]
fn string_from_utf8(bytes: Vec<u8>) -> (r: Option<String>)
    ensures
        r is Some <==> vstd::utf8::valid_utf8(bytes@),
        r matches Some(s) ==> s@ == vstd::utf8::decode_utf8(bytes@),
{
    String::from_utf8(bytes).ok()
}

/// The text carried by assertion data: the base64 of the data decoded, when
/// that succeeds and is UTF-8.
pub open spec fn spec_assertion_payload(data: Seq<char>) -> Option<Seq<char>> {
    match base64_decode(vstd::utf8::encode_utf8(data)) {
        Some(b) => if vstd::utf8::valid_utf8(b) {
            Some(vstd::utf8::decode_utf8(b))
        } else {
            None
        },
        None => None,
    }
}

/// The JSON text of an assertion from the data of an assertion message.
pub fn decode_assertion_payload(data: &str) -> (r: Option<String>)
    ensures
        match r {
            Some(s) => spec_assertion_payload(data@) == Some(s@),
            None => spec_assertion_payload(data@) is None,
        },
{
    let bytes = data.as_bytes();
    match base64_standard_decode(bytes) {
        Some(decoded) => {
            proof {
                let c = choose|b: Seq<u8>| base64_encode(b) == bytes@;
                lemma_base64_injective(c, decoded@);
            }
            string_from_utf8(decoded)
        },
        None => None,
    }
}

/// Reading back an assertion just stored gives it; other messages keep what
/// they had.
pub proof fn lemma_read_after_write(before: AssertionMap, after: AssertionMap, a: AssertionScope, m: Seq<char>)
    requires
        after.view() == before.view().insert(a.spec_message(), a),
    ensures
        after.view().dom().contains(a.spec_message()),
        after.view()[a.spec_message()] == a,
        m != a.spec_message() ==> (after.view().dom().contains(m) == before.view().dom().contains(m)
            && (before.view().dom().contains(m) ==> after.view()[m] == before.view()[m])),
{
}

/// Of several reports with the same message in one execution, the last is
/// the one collected.
pub proof fn lemma_last_report_wins(reports: Seq<AssertionScope>, i: int)
    requires
        0 <= i < reports.len(),
        forall|j: int| i < j < reports.len() ==> #[trigger] reports[j].spec_message() != reports[i].spec_message(),
    ensures
        entries_map(reports).dom().contains(reports[i].spec_message()),
        entries_map(reports)[reports[i].spec_message()] == reports[i],
    decreases reports.len(),
{
    if i < reports.len() - 1 {
        lemma_last_report_wins(reports.drop_last(), i);
        assert(reports.drop_last()[i] == reports[i]);
        assert(reports[reports.len() - 1].spec_message() != reports[i].spec_message());
    }
}

} // verus!
