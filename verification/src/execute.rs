//! The scenario enumerator and the batch driver: a scope and a manifest
//! expand into the ordered scenario list, each scenario executes
//! independently, and the outcomes fold into a status summary.

use vstd::prelude::*;

use crate::manifest::spec_find_day;
use crate::manifest::DataManifest;
use crate::manifest::DayManifest;
use crate::manifest::PuzzleManifest;
use crate::puzzles::Day;
use crate::puzzles::Puzzle;
use crate::puzzles::Scenario;
use crate::registry::SolverRegistry;
use crate::scope::ExecutionOptions;
use crate::scope::Scope;
use crate::solving::spec_scenario_outcome;
use crate::solving::Result;
use crate::solving::SolverResult;
use crate::solving::Status;

verus! {

/// The scenarios of one puzzle: its worked examples first, in ascending
/// number (when examples are included), and the graded scenario last.
pub open spec fn spec_scenarios_for_puzzle(
    puzzle: Puzzle,
    n_examples: nat,
    include_examples: bool,
) -> Seq<Scenario> {
    let examples: Seq<Scenario> = if include_examples {
        Seq::new(n_examples, |k: int| Scenario::Example { puzzle, number: (k + 1) as usize })
    } else {
        Seq::empty()
    };
    examples.push(Scenario::Puzzle(puzzle))
}

/// Expands one puzzle into its scenario list: examples first (ascending,
/// when included), the graded scenario last.
pub fn scenarios_for_puzzle(
    puzzle: Puzzle,
    manifest: &PuzzleManifest,
    include_examples: bool,
) -> (r: Vec<Scenario>)
    ensures
        r@ == spec_scenarios_for_puzzle(puzzle, manifest.examples@.len(), include_examples),
{
    let mut r: Vec<Scenario> = Vec::new();
    if include_examples {
        let n = manifest.examples.len();
        let mut idx: usize = 0;
        while idx < n
            invariant
                idx <= n,
                n == manifest.examples@.len(),
                r@ == Seq::new(
                    idx as nat,
                    |k: int| Scenario::Example { puzzle, number: (k + 1) as usize },
                ),
            decreases n - idx,
        {
            let number = idx + 1;
            r.push(Scenario::Example { puzzle, number });
            proof {
                assert(r@ =~= Seq::new(
                    (idx + 1) as nat,
                    |k: int| Scenario::Example { puzzle, number: (k + 1) as usize },
                ));
            }
            idx = number;
        }
    }
    r.push(Scenario::Puzzle(puzzle));
    proof {
        assert(r@ =~= spec_scenarios_for_puzzle(
            puzzle,
            manifest.examples@.len(),
            include_examples,
        ));
    }
    r
}

/// The scenario list of the first `upto` parts of a day, keeping the parts
/// the scope contains.
pub open spec fn spec_day_scenarios_upto(
    scope: Scope,
    day: Day,
    manifest: DayManifest,
    include_examples: bool,
    upto: int,
) -> Seq<Scenario>
    decreases upto,
{
    if upto <= 0 {
        Seq::empty()
    } else {
        let prev = spec_day_scenarios_upto(scope, day, manifest, include_examples, upto - 1);
        let puzzle = Puzzle { year: day.year, day: day.day, part: upto as usize };
        if scope.spec_contains_puzzle(puzzle) {
            prev + spec_scenarios_for_puzzle(
                puzzle,
                manifest.parts@[upto - 1].examples@.len(),
                include_examples,
            )
        } else {
            prev
        }
    }
}

/// The ordered scenario list of one day: for each part the scope contains,
/// in part order, that part's examples (when included) then its graded
/// scenario.
pub open spec fn spec_day_scenarios(
    scope: Scope,
    day: Day,
    manifest: DayManifest,
    include_examples: bool,
) -> Seq<Scenario> {
    spec_day_scenarios_upto(scope, day, manifest, include_examples, manifest.parts@.len() as int)
}

/// Enumerates the scenarios of one day that the scope asks to run.
pub fn day_scenarios(
    scope: Scope,
    day: Day,
    manifest: &DayManifest,
    include_examples: bool,
) -> (r: Vec<Scenario>)
    ensures
        r@ == spec_day_scenarios(scope, day, *manifest, include_examples),
{
    let mut r: Vec<Scenario> = Vec::new();
    let n = manifest.parts.len();
    let mut idx: usize = 0;
    while idx < n
        invariant
            idx <= n,
            n == manifest.parts@.len(),
            r@ == spec_day_scenarios_upto(scope, day, *manifest, include_examples, idx as int),
        decreases n - idx,
    {
        let part = idx + 1;
        let puzzle = Puzzle { year: day.year, day: day.day, part };
        if scope.contains_puzzle(puzzle) {
            let mut scenarios = scenarios_for_puzzle(
                puzzle,
                &manifest.parts[idx],
                include_examples,
            );
            r.append(&mut scenarios);
        }
        idx = part;
    }
    r
}

/// Executes every scenario of one day that the options ask for, in
/// enumeration order; the outcome at each position is the contracted
/// outcome of the scenario at that position.
pub fn execute_day<F: Fn(String) -> SolverResult>(
    day: Day,
    manifest: &DayManifest,
    registry: &SolverRegistry<F>,
    options: ExecutionOptions,
) -> (r: Vec<Result>)
    requires
        registry.wf(),
    ensures
        ({
            let scenarios = spec_day_scenarios(options.scope, day, *manifest, options.examples);
            &&& r@.len() == scenarios.len()
            &&& forall|i: int|
                0 <= i < scenarios.len() ==> spec_scenario_outcome(
                    scenarios[i],
                    *manifest,
                    *registry,
                    options.verify,
                    #[trigger] r@[i],
                )
        }),
{
    let scenarios = day_scenarios(options.scope, day, manifest, options.examples);
    let mut r: Vec<Result> = Vec::new();
    let mut i: usize = 0;
    while i < scenarios.len()
        invariant
            registry.wf(),
            i <= scenarios@.len(),
            r@.len() == i,
            scenarios@ == spec_day_scenarios(options.scope, day, *manifest, options.examples),
            forall|k: int|
                0 <= k < i ==> spec_scenario_outcome(
                    scenarios@[k],
                    *manifest,
                    *registry,
                    options.verify,
                    #[trigger] r@[k],
                ),
        decreases scenarios@.len() - i,
    {
        let outcome = scenarios[i].execute(options, manifest, registry);
        r.push(outcome);
        i += 1;
    }
    r
}

/// The scenario list of the first `upto` manifest entries, keeping the
/// days the scope contains.
pub open spec fn spec_enumerate_upto(
    scope: Scope,
    entries: Seq<(Day, DayManifest)>,
    include_examples: bool,
    upto: int,
) -> Seq<Scenario>
    decreases upto,
{
    if upto <= 0 {
        Seq::empty()
    } else {
        let prev = spec_enumerate_upto(scope, entries, include_examples, upto - 1);
        if scope.spec_contains_day(entries[upto - 1].0) {
            prev + spec_day_scenarios(
                scope,
                entries[upto - 1].0,
                entries[upto - 1].1,
                include_examples,
            )
        } else {
            prev
        }
    }
}

/// The ordered scenario list of a whole manifest under a scope: days in
/// manifest insertion order, each expanded by its own rules. A scope that
/// points at a missing day or part simply contributes nothing.
pub open spec fn spec_enumerate(
    scope: Scope,
    manifest: DataManifest,
    include_examples: bool,
) -> Seq<Scenario> {
    spec_enumerate_upto(scope, manifest.entries@, include_examples, manifest.entries@.len() as int)
}

/// Enumerates every scenario of the manifest that the scope asks to run.
pub fn enumerate(scope: Scope, manifest: &DataManifest, include_examples: bool) -> (r: Vec<
    Scenario,
>)
    ensures
        r@ == spec_enumerate(scope, *manifest, include_examples),
{
    let mut r: Vec<Scenario> = Vec::new();
    let n = manifest.entries.len();
    let mut i: usize = 0;
    while i < n
        invariant
            i <= n,
            n == manifest.entries@.len(),
            r@ == spec_enumerate_upto(scope, manifest.entries@, include_examples, i as int),
        decreases n - i,
    {
        let entry = &manifest.entries[i];
        if scope.contains_day(entry.0) {
            let mut scenarios = day_scenarios(scope, entry.0, &entry.1, include_examples);
            r.append(&mut scenarios);
        }
        i += 1;
    }
    r
}

/// The enumerator never materializes a scenario whose manifest entry is
/// structurally missing: every enumerated example scenario resolves, and an
/// enumerated graded scenario can at worst lack input text — a data error
/// deferred to execution time, never a structural one.
pub proof fn lemma_enumerated_scenarios_resolve(
    scope: Scope,
    day: Day,
    manifest: DayManifest,
    include_examples: bool,
    upto: int,
)
    requires
        upto <= manifest.parts@.len(),
        manifest.parts@.len() <= usize::MAX,
        forall|k: int|
            0 <= k < manifest.parts@.len() ==> (#[trigger] manifest.parts@[k]).examples@.len()
                <= usize::MAX,
    ensures
        forall|i: int|
            0 <= i < spec_day_scenarios_upto(scope, day, manifest, include_examples, upto).len()
                ==> match manifest.spec_resolution(
                #[trigger] spec_day_scenarios_upto(scope, day, manifest, include_examples, upto)[i],
            ) {
                Ok(_) => true,
                Err(error) => error == crate::solving::ResolutionError::Input
                    && spec_day_scenarios_upto(scope, day, manifest, include_examples, upto)[i]
                    is Puzzle,
            },
    decreases upto,
{
    if upto > 0 {
        lemma_enumerated_scenarios_resolve(scope, day, manifest, include_examples, upto - 1);
        let prev = spec_day_scenarios_upto(scope, day, manifest, include_examples, upto - 1);
        let whole = spec_day_scenarios_upto(scope, day, manifest, include_examples, upto);
        let puzzle = Puzzle { year: day.year, day: day.day, part: upto as usize };
        assert forall|i: int| 0 <= i < whole.len() implies match manifest.spec_resolution(
            #[trigger] whole[i],
        ) {
            Ok(_) => true,
            Err(error) => error == crate::solving::ResolutionError::Input && whole[i] is Puzzle,
        } by {
            if i < prev.len() {
                assert(whole[i] == prev[i]);
            } else if scope.spec_contains_puzzle(puzzle) {
                let added = spec_scenarios_for_puzzle(
                    puzzle,
                    manifest.parts@[upto - 1].examples@.len(),
                    include_examples,
                );
                let j = i - prev.len();
                assert(whole[i] == added[j]);
                if j < added.len() - 1 {
                    assert(added[j] == Scenario::Example { puzzle, number: (j + 1) as usize });
                }
            }
        }
    }
}

/// Every scenario enumerated for a day carries that day's identifiers.
proof fn lemma_day_scenarios_day(
    scope: Scope,
    day: Day,
    manifest: DayManifest,
    include_examples: bool,
    upto: int,
)
    ensures
        forall|i: int|
            0 <= i < spec_day_scenarios_upto(scope, day, manifest, include_examples, upto).len()
                ==> #[trigger] spec_day_scenarios_upto(
                scope,
                day,
                manifest,
                include_examples,
                upto,
            )[i].spec_puzzle().spec_day() == day,
    decreases upto,
{
    if upto > 0 {
        lemma_day_scenarios_day(scope, day, manifest, include_examples, upto - 1);
        let prev = spec_day_scenarios_upto(scope, day, manifest, include_examples, upto - 1);
        let whole = spec_day_scenarios_upto(scope, day, manifest, include_examples, upto);
        assert forall|i: int| 0 <= i < whole.len() implies #[trigger] whole[i].spec_puzzle().spec_day()
            == day by {
            if i < prev.len() {
                assert(whole[i] == prev[i]);
            }
        }
    }
}

/// In a manifest without repeated days, looking up an entry's day finds
/// that entry.
proof fn lemma_find_day_present(entries: Seq<(Day, DayManifest)>, k: int)
    requires
        forall|i: int, j: int| 0 <= i < j < entries.len() ==> entries[i].0 != entries[j].0,
        0 <= k < entries.len(),
    ensures
        spec_find_day(entries, entries[k].0) == Some(entries[k].1),
    decreases k,
{
    if k > 0 {
        assert forall|i: int, j: int|
            0 <= i < j < entries.skip(1).len() implies entries.skip(1)[i].0 != entries.skip(
            1,
        )[j].0 by {
            assert(entries.skip(1)[i] == entries[i + 1]);
            assert(entries.skip(1)[j] == entries[j + 1]);
        }
        assert(entries.skip(1)[k - 1] == entries[k]);
        lemma_find_day_present(entries.skip(1), k - 1);
    }
}

/// The per-position contract of a batch: the scenario's day is found in
/// the manifest, and the outcome is the contracted outcome of the scenario
/// against that day's entry.
pub open spec fn spec_batch_outcome_at<F: Fn(String) -> SolverResult>(
    manifest: DataManifest,
    registry: SolverRegistry<F>,
    verify: bool,
    scenario: Scenario,
    outcome: Result,
) -> bool {
    match spec_find_day(manifest.entries@, scenario.spec_puzzle().spec_day()) {
        Some(day_manifest) => spec_scenario_outcome(
            scenario,
            day_manifest,
            registry,
            verify,
            outcome,
        ),
        None => false,
    }
}

/// Runs the whole batch: every scenario the scope asks for, in enumeration
/// order. The outcome at each position is the contracted outcome of the
/// scenario at that position, resolved against its own day's manifest
/// entry — which, as the ensures also states, the enumerator never leaves
/// dangling.
pub fn run_all<F: Fn(String) -> SolverResult>(
    options: ExecutionOptions,
    manifest: &DataManifest,
    registry: &SolverRegistry<F>,
) -> (r: Vec<Result>)
    requires
        registry.wf(),
        manifest.wf(),
    ensures
        ({
            let scenarios = spec_enumerate(options.scope, *manifest, options.examples);
            &&& r@.len() == scenarios.len()
            &&& forall|i: int|
                0 <= i < scenarios.len() ==> spec_batch_outcome_at(
                    *manifest,
                    *registry,
                    options.verify,
                    scenarios[i],
                    #[trigger] r@[i],
                )
        }),
{
    let mut r: Vec<Result> = Vec::new();
    let n = manifest.entries.len();
    let mut k: usize = 0;
    while k < n
        invariant
            registry.wf(),
            manifest.wf(),
            k <= n,
            n == manifest.entries@.len(),
            r@.len() == spec_enumerate_upto(
                options.scope,
                manifest.entries@,
                options.examples,
                k as int,
            ).len(),
            forall|i: int|
                0 <= i < spec_enumerate_upto(
                    options.scope,
                    manifest.entries@,
                    options.examples,
                    k as int,
                ).len() ==> spec_batch_outcome_at(
                    *manifest,
                    *registry,
                    options.verify,
                    spec_enumerate_upto(
                        options.scope,
                        manifest.entries@,
                        options.examples,
                        k as int,
                    )[i],
                    #[trigger] r@[i],
                ),
        decreases n - k,
    {
        let ghost prev = spec_enumerate_upto(
            options.scope,
            manifest.entries@,
            options.examples,
            k as int,
        );
        let ghost whole = spec_enumerate_upto(
            options.scope,
            manifest.entries@,
            options.examples,
            k + 1,
        );
        let entry = &manifest.entries[k];
        if options.scope.contains_day(entry.0) {
            let mut outcomes = execute_day(entry.0, &entry.1, registry, options);
            let ghost added = spec_day_scenarios(
                options.scope,
                entry.0,
                entry.1,
                options.examples,
            );
            let ghost r_prev = r@;
            let ghost outs = outcomes@;
            proof {
                assert(whole == prev + added);
                lemma_day_scenarios_day(
                    options.scope,
                    entry.0,
                    entry.1,
                    options.examples,
                    entry.1.parts@.len() as int,
                );
                lemma_find_day_present(manifest.entries@, k as int);
            }
            r.append(&mut outcomes);
            proof {
                assert forall|i: int| 0 <= i < whole.len() implies spec_batch_outcome_at(
                    *manifest,
                    *registry,
                    options.verify,
                    whole[i],
                    #[trigger] r@[i],
                ) by {
                    if i < prev.len() {
                        assert(whole[i] == prev[i]);
                        assert(r@[i] == r_prev[i]);
                    } else {
                        let j = i - prev.len();
                        assert(whole[i] == added[j]);
                        assert(r@[i] == outs[j]);
                        assert(added == spec_day_scenarios_upto(
                            options.scope,
                            entry.0,
                            entry.1,
                            options.examples,
                            entry.1.parts@.len() as int,
                        ));
                        assert(spec_day_scenarios_upto(
                            options.scope,
                            entry.0,
                            entry.1,
                            options.examples,
                            entry.1.parts@.len() as int,
                        )[j].spec_puzzle().spec_day() == entry.0);
                        assert(added[j].spec_puzzle().spec_day() == entry.0);
                        assert(spec_find_day(manifest.entries@, entry.0) == Some(entry.1));
                        assert(spec_scenario_outcome(
                            added[j],
                            entry.1,
                            *registry,
                            options.verify,
                            outs[j],
                        ));
                    }
                }
            }
        } else {
            proof {
                assert(whole == prev);
            }
        }
        k += 1;
    }
    proof {
        assert(spec_enumerate(options.scope, *manifest, options.examples)
            == spec_enumerate_upto(
            options.scope,
            manifest.entries@,
            options.examples,
            n as int,
        ));
    }
    r
}

/// The histogram of a batch: the total number of outcomes and how many fell
/// under each status.
#[derive(Debug, Clone, Copy, PartialEq, Eq, Structural)]
pub struct Summary {
    pub total: usize,
    pub succeeded: usize,
    pub failed: usize,
    pub skipped: usize,
}

/// How many of the outcomes fall under `status`.
pub open spec fn spec_count_status(outcomes: Seq<Result>, status: Status) -> nat
    decreases outcomes.len(),
{
    if outcomes.len() == 0 {
        0
    } else {
        spec_count_status(outcomes.drop_last(), status) + (
        if outcomes.last().spec_status() == status {
            1nat
        } else {
            0nat
        })
    }
}

/// Every outcome falls under exactly one status, so the three counts sum to
/// the number of outcomes.
pub proof fn lemma_histogram_total(outcomes: Seq<Result>)
    ensures
        spec_count_status(outcomes, Status::Success) + spec_count_status(outcomes, Status::Failure)
            + spec_count_status(outcomes, Status::Skipped) == outcomes.len(),
    decreases outcomes.len(),
{
    if outcomes.len() > 0 {
        lemma_histogram_total(outcomes.drop_last());
    }
}

impl Summary {
    /// This summary is the histogram of `outcomes`.
    pub open spec fn wf_for(self, outcomes: Seq<Result>) -> bool {
        &&& self.total == outcomes.len()
        &&& self.succeeded == spec_count_status(outcomes, Status::Success)
        &&& self.failed == spec_count_status(outcomes, Status::Failure)
        &&& self.skipped == spec_count_status(outcomes, Status::Skipped)
    }
}

/// Folds a batch of outcomes into its status histogram. The counts account
/// for every outcome: they sum to the total.
pub fn summarize(outcomes: &Vec<Result>) -> (r: Summary)
    ensures
        r.wf_for(outcomes@),
        r.succeeded + r.failed + r.skipped == outcomes@.len(),
{
    let n = outcomes.len();
    let mut succeeded: usize = 0;
    let mut failed: usize = 0;
    let mut skipped: usize = 0;
    let mut i: usize = 0;
    while i < n
        invariant
            i <= n,
            n == outcomes@.len(),
            succeeded == spec_count_status(outcomes@.take(i as int), Status::Success),
            failed == spec_count_status(outcomes@.take(i as int), Status::Failure),
            skipped == spec_count_status(outcomes@.take(i as int), Status::Skipped),
            succeeded + failed + skipped == i,
        decreases n - i,
    {
        proof {
            assert(outcomes@.take(i + 1).drop_last() =~= outcomes@.take(i as int));
            assert(outcomes@.take(i + 1).last() == outcomes@[i as int]);
        }
        match outcomes[i].status() {
            Status::Success => {
                succeeded += 1;
            },
            Status::Failure => {
                failed += 1;
            },
            Status::Skipped => {
                skipped += 1;
            },
        }
        i += 1;
    }
    proof {
        assert(outcomes@.take(n as int) =~= outcomes@);
        lemma_histogram_total(outcomes@);
    }
    Summary { total: n, succeeded, failed, skipped }
}

} // verus!
