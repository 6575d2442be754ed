//! The solver registry: an explicitly constructed, immutable mapping from
//! puzzles to the solver functions supplied by the caller, threaded through
//! the harness as an argument.

use vstd::prelude::*;

use crate::puzzles::Day;
use crate::puzzles::Puzzle;
use crate::scope::Scope;

verus! {

/// A registered solver must accept every input text.
pub open spec fn solver_total<F: Fn(String) -> Result<String, String>>(f: F) -> bool {
    forall|input: String| #[trigger] call_requires(f, (input,))
}

/// The mapping from puzzles to solver functions, in registration order.
pub struct SolverRegistry<F> {
    pub entries: Vec<(Puzzle, F)>,
}

/// The solver registered for `puzzle`, if any.
pub open spec fn spec_find_solver<F>(entries: Seq<(Puzzle, F)>, puzzle: Puzzle) -> Option<F>
    decreases entries.len(),
{
    if entries.len() == 0 {
        None
    } else if entries[0].0 == puzzle {
        Some(entries[0].1)
    } else {
        spec_find_solver(entries.skip(1), puzzle)
    }
}

/// The days of the registered puzzles, one per entry, in order.
pub open spec fn spec_days_of<F>(entries: Seq<(Puzzle, F)>) -> Seq<Day>
    decreases entries.len(),
{
    if entries.len() == 0 {
        Seq::empty()
    } else {
        spec_days_of(entries.drop_last()).push(entries.last().0.spec_day())
    }
}

/// The days a scope keeps, in order.
pub open spec fn spec_days_in_scope(days: Seq<Day>, scope: Scope) -> Seq<Day>
    decreases days.len(),
{
    if days.len() == 0 {
        Seq::empty()
    } else {
        let rest = spec_days_in_scope(days.drop_last(), scope);
        if scope.spec_contains_day(days.last()) {
            rest.push(days.last())
        } else {
            rest
        }
    }
}

/// `days` with later repetitions dropped: each day keeps its first
/// occurrence only, in order.
pub open spec fn spec_unique_days(days: Seq<Day>) -> Seq<Day>
    decreases days.len(),
{
    if days.len() == 0 {
        Seq::empty()
    } else {
        let rest = spec_unique_days(days.drop_last());
        if rest.contains(days.last()) {
            rest
        } else {
            rest.push(days.last())
        }
    }
}

/// Whether `v` lists `day`.
fn vec_contains_day(v: &Vec<Day>, day: Day) -> (r: bool)
    ensures
        r == v@.contains(day),
{
    let n = v.len();
    let mut i: usize = 0;
    while i < n
        invariant
            i <= n,
            n == v@.len(),
            forall|k: int| 0 <= k < i ==> v@[k] != day,
        decreases n - i,
    {
        if v[i] == day {
            return true;
        }
        i += 1;
    }
    false
}

impl<F: Fn(String) -> Result<String, String>> SolverRegistry<F> {
    /// Each puzzle is registered at most once, and every registered solver
    /// accepts every input.
    pub open spec fn wf(self) -> bool {
        &&& forall|i: int, j: int|
            0 <= i < j < self.entries@.len() ==> self.entries@[i].0 != self.entries@[j].0
        &&& forall|i: int|
            0 <= i < self.entries@.len() ==> solver_total(#[trigger] self.entries@[i].1)
    }

    /// The solver registered for `puzzle`, if any.
    pub open spec fn spec_get(self, puzzle: Puzzle) -> Option<F> {
        spec_find_solver(self.entries@, puzzle)
    }

    /// An empty registry.
    pub fn new() -> (r: SolverRegistry<F>)
        ensures
            r.wf(),
            r.entries@.len() == 0,
    {
        SolverRegistry { entries: Vec::new() }
    }

    /// Registers the solver of a puzzle not yet present; entries keep their
    /// registration order.
    pub fn register(&mut self, puzzle: Puzzle, solver: F)
        requires
            old(self).wf(),
            old(self).spec_get(puzzle) is None,
            solver_total(solver),
        ensures
            final(self).wf(),
            final(self).entries@ == old(self).entries@.push((puzzle, solver)),
    {
        proof {
            lemma_find_solver_none_means_absent(self.entries@, puzzle);
        }
        self.entries.push((puzzle, solver));
    }

    /// Looks up the solver registered for `puzzle`.
    pub fn get(&self, puzzle: Puzzle) -> (r: Option<&F>)
        ensures
            match r {
                Some(f) => self.spec_get(puzzle) == Some(*f),
                None => self.spec_get(puzzle) is None,
            },
    {
        let n = self.entries.len();
        let mut i: usize = 0;
        proof {
            assert(self.entries@.skip(0) =~= self.entries@);
        }
        while i < n
            invariant
                i <= n,
                n == self.entries@.len(),
                spec_find_solver(self.entries@, puzzle) == spec_find_solver(
                    self.entries@.skip(i as int),
                    puzzle,
                ),
            decreases n - i,
        {
            proof {
                assert(self.entries@.skip(i as int)[0] == self.entries@[i as int]);
                assert(self.entries@.skip(i as int).skip(1) =~= self.entries@.skip(i + 1));
            }
            if self.entries[i].0 == puzzle {
                return Some(&self.entries[i].1);
            }
            i += 1;
        }
        proof {
            assert(self.entries@.skip(n as int).len() == 0);
        }
        None
    }

    /// The distinct days of the registered puzzles that `scope` keeps, in
    /// first-registration order.
    pub fn scoped_days(&self, scope: Scope) -> (r: Vec<Day>)
        ensures
            r@ == spec_unique_days(spec_days_in_scope(spec_days_of(self.entries@), scope)),
    {
        let n = self.entries.len();
        let mut r: Vec<Day> = Vec::new();
        let mut i: usize = 0;
        while i < n
            invariant
                i <= n,
                n == self.entries@.len(),
                r@ == spec_unique_days(
                    spec_days_in_scope(spec_days_of(self.entries@.take(i as int)), scope),
                ),
            decreases n - i,
        {
            let day = Day::from(self.entries[i].0);
            proof {
                let prefix = self.entries@.take(i + 1);
                assert(prefix.drop_last() =~= self.entries@.take(i as int));
                assert(prefix.last() == self.entries@[i as int]);
                let days_prev = spec_days_of(self.entries@.take(i as int));
                let days = spec_days_of(prefix);
                assert(days.drop_last() == days_prev);
                assert(days.last() == day);
                assert(days =~= days_prev.push(day));
                assert(spec_days_in_scope(days, scope) == (if scope.spec_contains_day(day) {
                    spec_days_in_scope(days_prev, scope).push(day)
                } else {
                    spec_days_in_scope(days_prev, scope)
                }));
                let din_prev = spec_days_in_scope(days_prev, scope);
                if scope.spec_contains_day(day) {
                    assert(din_prev.push(day).drop_last() =~= din_prev);
                    assert(din_prev.push(day).last() == day);
                }
            }
            if scope.contains_day(day) {
                if !vec_contains_day(&r, day) {
                    r.push(day);
                }
            }
            i += 1;
        }
        proof {
            assert(self.entries@.take(n as int) =~= self.entries@);
        }
        r
    }
}

/// When a puzzle is not found, no entry carries it.
proof fn lemma_find_solver_none_means_absent<F>(entries: Seq<(Puzzle, F)>, puzzle: Puzzle)
    requires
        spec_find_solver(entries, puzzle) is None,
    ensures
        forall|i: int| 0 <= i < entries.len() ==> entries[i].0 != puzzle,
    decreases entries.len(),
{
    if entries.len() > 0 {
        lemma_find_solver_none_means_absent(entries.skip(1), puzzle);
        assert forall|i: int| 0 <= i < entries.len() implies entries[i].0 != puzzle by {
            if i > 0 {
                assert(entries.skip(1)[i - 1] == entries[i]);
            }
        }
    }
}

/// A solver found in a well-formed registry accepts every input.
pub proof fn lemma_found_solver_total<F: Fn(String) -> Result<String, String>>(
    registry: SolverRegistry<F>,
    puzzle: Puzzle,
    f: F,
)
    requires
        registry.wf(),
        registry.spec_get(puzzle) == Some(f),
    ensures
        solver_total(f),
{
    lemma_find_solver_membership(registry.entries@, puzzle, f);
    let i = choose|i: int|
        0 <= i < registry.entries@.len() && registry.entries@[i] == (puzzle, f);
    assert(solver_total(registry.entries@[i].1));
}

/// A found solver is one of the entries.
proof fn lemma_find_solver_membership<F>(entries: Seq<(Puzzle, F)>, puzzle: Puzzle, f: F)
    requires
        spec_find_solver(entries, puzzle) == Some(f),
    ensures
        exists|i: int| 0 <= i < entries.len() && entries[i] == (puzzle, f),
    decreases entries.len(),
{
    if entries.len() > 0 {
        if entries[0].0 == puzzle {
            assert(entries[0] == (puzzle, f));
        } else {
            lemma_find_solver_membership(entries.skip(1), puzzle, f);
            let i = choose|i: int|
                0 <= i < entries.skip(1).len() && entries.skip(1)[i] == (puzzle, f);
            assert(entries[i + 1] == (puzzle, f));
        }
    }
}

} // verus!
