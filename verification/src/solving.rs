//! The execution engine: the error taxonomy, the per-scenario `Result` and
//! its `Status`, the newline-insensitive comparison used when an answer is
//! verified, and the run/verify state machine itself.

use vstd::prelude::*;
use vstd::string::StrSliceExecFns;
use vstd::string::StringExecFns;

use crate::clock;
use crate::manifest::DayManifest;
use crate::puzzles::Scenario;
use crate::registry::lemma_found_solver_total;
use crate::registry::SolverRegistry;
use crate::scope::ExecutionOptions;

verus! {

/// A failure of one scenario: either the answer disagreed with the expected
/// solution, or the solver itself reported an error.
#[derive(Debug, Clone, PartialEq, Eq)]
pub enum Error {
    IncorrectAnswer { expected: String, actual: String },
    ExecutionError(String),
}

/// Why a scenario was skipped rather than run to completion: no registered
/// solver, no manifest entry for the puzzle, no input text, or (when
/// verifying) no expected solution.
#[derive(Debug, Clone, Copy, PartialEq, Eq, Structural, Hash)]
pub enum ResolutionError {
    Solver,
    Puzzle,
    Input,
    Solution,
}

/// The terminal classification of one scenario.
#[derive(Debug, Clone, Copy, PartialEq, Eq, Structural, Hash)]
pub enum Status {
    Success,
    Failure,
    Skipped,
}

/// Measurements taken around one solver invocation.
#[derive(Debug, Clone, Copy, PartialEq, Eq, Structural, Hash)]
pub struct Statistics {
    pub duration_micros: u128,
}

/// What a solver hands back: its stringified answer, or an error message.
pub type SolverResult = core::result::Result<String, String>;

/// The result of executing one scenario: the solver's answer, a failure, or
/// the reason it was skipped.
#[derive(Debug, Clone, PartialEq, Eq)]
pub enum Result {
    Success { result: String, stats: Statistics },
    Failure { error: Error, stats: Statistics },
    Skipped(ResolutionError),
}

impl Error {
    /// A human-readable account of the failure.
    pub fn message(&self) -> (s: String)
        ensures
            match self {
                Error::IncorrectAnswer { expected, actual } => s@ == (
                "Solver produced an incorrect answer, expected: `")@ + expected@ + ("` got `")@
                    + actual@ + ("`")@,
                Error::ExecutionError(inner) => s@ == (
                "An error occurred whilst executing the puzzle:\n\t")@ + inner@,
            },
    {
        match self {
            Error::IncorrectAnswer { expected, actual } => {
                let mut s = String::from_str("Solver produced an incorrect answer, expected: `");
                s.append(expected.as_str());
                s.append("` got `");
                s.append(actual.as_str());
                s.append("`");
                s
            },
            Error::ExecutionError(inner) => {
                let mut s = String::from_str("An error occurred whilst executing the puzzle:\n\t");
                s.append(inner.as_str());
                s
            },
        }
    }
}

impl ResolutionError {
    /// A human-readable account of why the scenario was skipped.
    pub fn message(&self) -> (s: String)
        ensures
            match self {
                ResolutionError::Solver => s@ == ("Failed to resolve solver")@,
                ResolutionError::Puzzle => s@ == ("Puzzle not found in data manifest")@,
                ResolutionError::Input => s@ == ("No input found for puzzle in data manifest")@,
                ResolutionError::Solution => s@ == (
                "No solution found for puzzle in data manifest")@,
            },
    {
        match self {
            ResolutionError::Solver => String::from_str("Failed to resolve solver"),
            ResolutionError::Puzzle => String::from_str("Puzzle not found in data manifest"),
            ResolutionError::Input => String::from_str("No input found for puzzle in data manifest"),
            ResolutionError::Solution => String::from_str(
                "No solution found for puzzle in data manifest",
            ),
        }
    }
}

impl Result {
    /// The status this outcome falls under.
    pub open spec fn spec_status(self) -> Status {
        match self {
            Result::Success { .. } => Status::Success,
            Result::Failure { .. } => Status::Failure,
            Result::Skipped(_) => Status::Skipped,
        }
    }

    /// The status this outcome falls under.
    pub fn status(&self) -> (r: Status)
        ensures
            r == self.spec_status(),
    {
        match self {
            Result::Success { .. } => Status::Success,
            Result::Failure { .. } => Status::Failure,
            Result::Skipped(_) => Status::Skipped,
        }
    }
}

/// `s` with every carriage-return and newline character removed: answers
/// that differ only in line-ending style are compared equal.
pub open spec fn normalized(s: Seq<char>) -> Seq<char>
    decreases s.len(),
{
    if s.len() == 0 {
        Seq::empty()
    } else {
        let rest = normalized(s.drop_last());
        if s.last() == '\r' || s.last() == '\n' {
            rest
        } else {
            rest.push(s.last())
        }
    }
}

/// Removes every carriage-return and newline character from `s`.
pub fn normalize(s: &str) -> (r: String)
    ensures
        r@ == normalized(s@),
{
    let n = s.unicode_len();
    let mut r = String::new();
    let mut i: usize = 0;
    while i < n
        invariant
            i <= n,
            n == s@.len(),
            r@ == normalized(s@.take(i as int)),
        decreases n - i,
    {
        let c = s.get_char(i);
        proof {
            assert(s@.take(i + 1).drop_last() =~= s@.take(i as int));
            assert(s@.take(i + 1).last() == s@[i as int]);
        }
        if !(c == '\r' || c == '\n') {
            r.push(c);
        }
        i += 1;
    }
    proof {
        assert(s@.take(n as int) =~= s@);
    }
    r
}

/// Whether two answers agree once line endings are disregarded.
pub fn normalized_eq(a: &str, b: &str) -> (r: bool)
    ensures
        r == (normalized(a@) == normalized(b@)),
{
    let na = normalize(a);
    let nb = normalize(b);
    na.eq(&nb)
}

/// One possible return of solver `f` on an input with text `input`.
pub open spec fn solver_may_return<F: Fn(String) -> SolverResult>(
    f: F,
    input: Seq<char>,
    out: SolverResult,
) -> bool {
    exists|arg: String| arg@ == input && #[trigger] call_ensures(f, (arg,), out)
}

/// What running a scenario produces once its solver and data are resolved:
/// exactly the solver's answer as a success, or exactly the solver's
/// reported error as an execution failure; never a skip.
pub open spec fn spec_run_classification<F: Fn(String) -> SolverResult>(
    f: F,
    input: Seq<char>,
    r: Result,
) -> bool {
    match r {
        Result::Success { result, .. } => solver_may_return(f, input, Ok(result)),
        Result::Failure { error, .. } => match error {
            Error::ExecutionError(message) => solver_may_return(f, input, Err(message)),
            Error::IncorrectAnswer { .. } => false,
        },
        Result::Skipped(_) => false,
    }
}

/// What verifying a scenario produces once its solver and data are
/// resolved. A successful run with no expected solution is skipped for that
/// reason alone; with one, the answer and the solution are compared with
/// line endings disregarded, agreeing exactly on success and disagreeing
/// exactly on an incorrect-answer failure, which carries the raw expected
/// and actual texts.
pub open spec fn spec_verify_classification<F: Fn(String) -> SolverResult>(
    f: F,
    input: Seq<char>,
    solution: Option<Seq<char>>,
    r: Result,
) -> bool {
    match r {
        Result::Success { result, .. } => solver_may_return(f, input, Ok(result)) && (
        solution matches Some(expected) && normalized(expected) == normalized(result@)),
        Result::Failure { error, .. } => match error {
            Error::ExecutionError(message) => solver_may_return(f, input, Err(message)),
            Error::IncorrectAnswer { expected, actual } => solver_may_return(f, input, Ok(actual))
                && solution == Some(expected@) && normalized(expected@) != normalized(actual@),
        },
        Result::Skipped(reason) => reason == ResolutionError::Solution && solution is None
            && exists|result: String| #[trigger] solver_may_return(f, input, Ok(result)),
    }
}

/// The full contract of executing one scenario against a day manifest and a
/// registry: a missing solver or a resolution failure skips the scenario
/// with that exact reason; otherwise the outcome classifies the solver's
/// return, checked against the expected solution when `verify` is set.
pub open spec fn spec_scenario_outcome<F: Fn(String) -> SolverResult>(
    scenario: Scenario,
    manifest: DayManifest,
    registry: SolverRegistry<F>,
    verify: bool,
    r: Result,
) -> bool {
    match registry.spec_get(scenario.spec_puzzle()) {
        None => r == Result::Skipped(ResolutionError::Solver),
        Some(f) => match manifest.spec_resolution(scenario) {
            Err(error) => r == Result::Skipped(error),
            Ok(data) => if verify {
                spec_verify_classification(f, data.0, data.1, r)
            } else {
                spec_run_classification(f, data.0, r)
            },
        },
    }
}

impl Scenario {
    /// Runs this scenario: resolves its solver and data, feeds the input to
    /// the solver, times the invocation, and classifies what came back.
    pub fn run<F: Fn(String) -> SolverResult>(
        self,
        manifest: &DayManifest,
        registry: &SolverRegistry<F>,
    ) -> (r: Result)
        requires
            registry.wf(),
        ensures
            spec_scenario_outcome(self, *manifest, *registry, false, r),
    {
        let puzzle = self.puzzle();
        let solver = match registry.get(puzzle) {
            None => {
                return Result::Skipped(ResolutionError::Solver);
            },
            Some(solver) => solver,
        };
        let data = match manifest.data_for_scenario(self) {
            Err(error) => {
                return Result::Skipped(error);
            },
            Ok(data) => data,
        };
        proof {
            lemma_found_solver_total(*registry, puzzle, *solver);
        }
        let ghost arg = data.input;
        let start = clock::now();
        let output = (solver)(data.input);
        let duration = clock::elapsed_micros(&start);
        proof {
            assert(call_ensures(*solver, (arg,), output));
        }
        let stats = Statistics { duration_micros: duration };
        match output {
            Ok(result) => Result::Success { result, stats },
            Err(message) => Result::Failure { error: Error::ExecutionError(message), stats },
        }
    }

    /// Verifies this scenario: runs it, and when the run succeeded compares
    /// the answer against the expected solution, with line endings
    /// disregarded. A non-success run outcome propagates unchanged; a
    /// missing expected solution skips the scenario.
    pub fn verify<F: Fn(String) -> SolverResult>(
        self,
        manifest: &DayManifest,
        registry: &SolverRegistry<F>,
    ) -> (r: Result)
        requires
            registry.wf(),
        ensures
            spec_scenario_outcome(self, *manifest, *registry, true, r),
    {
        let outcome = self.run(manifest, registry);
        let (result, stats) = match outcome {
            Result::Success { result, stats } => (result, stats),
            other => {
                return other;
            },
        };
        let data = match manifest.data_for_scenario(self) {
            Err(error) => {
                // A successful run means the data resolved, so this arm is
                // unreachable.
                proof {
                    assert(false);
                }
                return Result::Skipped(error);
            },
            Ok(data) => data,
        };
        let expected = match data.solution {
            None => {
                return Result::Skipped(ResolutionError::Solution);
            },
            Some(expected) => expected,
        };
        if normalized_eq(expected.as_str(), result.as_str()) {
            Result::Success { result, stats }
        } else {
            Result::Failure { error: Error::IncorrectAnswer { expected, actual: result }, stats }
        }
    }

    /// Runs or verifies this scenario, as the options ask.
    pub fn execute<F: Fn(String) -> SolverResult>(
        self,
        options: ExecutionOptions,
        manifest: &DayManifest,
        registry: &SolverRegistry<F>,
    ) -> (r: Result)
        requires
            registry.wf(),
        ensures
            spec_scenario_outcome(self, *manifest, *registry, options.verify, r),
    {
        if options.verify {
            self.verify(manifest, registry)
        } else {
            self.run(manifest, registry)
        }
    }
}

impl crate::puzzles::Puzzle {
    /// Runs the graded scenario of this puzzle.
    pub fn run<F: Fn(String) -> SolverResult>(
        self,
        manifest: &DayManifest,
        registry: &SolverRegistry<F>,
    ) -> (r: Result)
        requires
            registry.wf(),
        ensures
            spec_scenario_outcome(Scenario::Puzzle(self), *manifest, *registry, false, r),
    {
        Scenario::Puzzle(self).run(manifest, registry)
    }

    /// Verifies the graded scenario of this puzzle.
    pub fn verify<F: Fn(String) -> SolverResult>(
        self,
        manifest: &DayManifest,
        registry: &SolverRegistry<F>,
    ) -> (r: Result)
        requires
            registry.wf(),
        ensures
            spec_scenario_outcome(Scenario::Puzzle(self), *manifest, *registry, true, r),
    {
        Scenario::Puzzle(self).verify(manifest, registry)
    }
}

/// A pure solver: any two returns for inputs with the same text agree.
pub open spec fn solver_pure<F: Fn(String) -> SolverResult>(f: F) -> bool {
    forall|a1: String, a2: String, o1: SolverResult, o2: SolverResult|
        #[trigger] call_ensures(f, (a1,), o1) && #[trigger] call_ensures(f, (a2,), o2) && a1@
            == a2@ ==> outputs_agree(o1, o2)
}

/// Two solver returns with the same shape and the same text.
pub open spec fn outputs_agree(
    o1: SolverResult,
    o2: SolverResult,
) -> bool {
    match (o1, o2) {
        (Ok(r1), Ok(r2)) => r1@ == r2@,
        (Err(e1), Err(e2)) => e1@ == e2@,
        _ => false,
    }
}

/// Running the same scenario twice with the same resolved input and a pure
/// solver is idempotent: the two outcomes have the same status, equal
/// result strings on success, and equal error messages on failure. Only the
/// measured durations may differ.
pub proof fn lemma_run_deterministic<F: Fn(String) -> SolverResult>(
    f: F,
    input: Seq<char>,
    r1: Result,
    r2: Result,
)
    requires
        solver_pure(f),
        spec_run_classification(f, input, r1),
        spec_run_classification(f, input, r2),
    ensures
        r1.spec_status() == r2.spec_status(),
        match (r1, r2) {
            (Result::Success { result: a, .. }, Result::Success { result: b, .. }) => a@ == b@,
            (Result::Failure { error: e1, .. }, Result::Failure { error: e2, .. }) => (
            e1 matches Error::ExecutionError(m1) && e2 matches Error::ExecutionError(m2) && m1@
                == m2@),
            _ => true,
        },
{
    let out1 = run_output_witness(f, input, r1);
    let out2 = run_output_witness(f, input, r2);
    lemma_pure_outputs_agree(f, input, out1, out2);
}

/// The solver return that a run outcome classified, recovered from the
/// classification predicate.
proof fn run_output_witness<F: Fn(String) -> SolverResult>(
    f: F,
    input: Seq<char>,
    r: Result,
) -> (out: SolverResult)
    requires
        spec_run_classification(f, input, r),
    ensures
        solver_may_return(f, input, out),
        match r {
            Result::Success { result, .. } => out matches Ok(o) && o == result,
            Result::Failure { error, .. } => error matches Error::ExecutionError(m) && (
            out matches Err(e) && e == m),
            Result::Skipped(_) => false,
        },
{
    match r {
        Result::Success { result, .. } => Ok(result),
        Result::Failure { error, .. } => match error {
            Error::ExecutionError(message) => Err(message),
            Error::IncorrectAnswer { .. } => Err(arbitrary()),
        },
        Result::Skipped(_) => Err(arbitrary()),
    }
}

/// Purity carries over from call pairs to the `solver_may_return` relation.
proof fn lemma_pure_outputs_agree<F: Fn(String) -> SolverResult>(
    f: F,
    input: Seq<char>,
    out1: SolverResult,
    out2: SolverResult,
)
    requires
        solver_pure(f),
        solver_may_return(f, input, out1),
        solver_may_return(f, input, out2),
    ensures
        outputs_agree(out1, out2),
{
    let arg1 = choose|arg: String| arg@ == input && #[trigger] call_ensures(f, (arg,), out1);
    let arg2 = choose|arg: String| arg@ == input && #[trigger] call_ensures(f, (arg,), out2);
    assert(call_ensures(f, (arg1,), out1));
    assert(call_ensures(f, (arg2,), out2));
}

/// Verifying the same scenario twice with the same resolved input and
/// expected solution and a pure solver is deterministic: the outcomes have
/// the same status, and their answers, error messages and skip reasons
/// agree. Only the measured durations may differ.
pub proof fn lemma_verify_deterministic<F: Fn(String) -> SolverResult>(
    f: F,
    input: Seq<char>,
    solution: Option<Seq<char>>,
    r1: Result,
    r2: Result,
)
    requires
        solver_pure(f),
        spec_verify_classification(f, input, solution, r1),
        spec_verify_classification(f, input, solution, r2),
    ensures
        r1.spec_status() == r2.spec_status(),
        match (r1, r2) {
            (Result::Success { result: a, .. }, Result::Success { result: b, .. }) => a@ == b@,
            (Result::Failure { error: e1, .. }, Result::Failure { error: e2, .. }) => match (
                e1,
                e2,
            ) {
                (Error::ExecutionError(m1), Error::ExecutionError(m2)) => m1@ == m2@,
                (
                    Error::IncorrectAnswer { expected: x1, actual: a1 },
                    Error::IncorrectAnswer { expected: x2, actual: a2 },
                ) => x1@ == x2@ && a1@ == a2@,
                _ => false,
            },
            (Result::Skipped(reason1), Result::Skipped(reason2)) => reason1 == reason2,
            _ => false,
        },
{
    let out1 = verify_output_witness(f, input, solution, r1);
    let out2 = verify_output_witness(f, input, solution, r2);
    lemma_pure_outputs_agree(f, input, out1, out2);
}

/// The solver return that a verify outcome classified.
proof fn verify_output_witness<F: Fn(String) -> SolverResult>(
    f: F,
    input: Seq<char>,
    solution: Option<Seq<char>>,
    r: Result,
) -> (out: SolverResult)
    requires
        spec_verify_classification(f, input, solution, r),
    ensures
        solver_may_return(f, input, out),
        match r {
            Result::Success { result, .. } => out matches Ok(o) && o@ == result@ && (
            solution matches Some(expected) && normalized(expected) == normalized(result@)),
            Result::Failure { error, .. } => match error {
                Error::ExecutionError(m) => out matches Err(e) && e == m,
                Error::IncorrectAnswer { expected, actual } => out matches Ok(o) && o@ == actual@
                    && solution == Some(expected@) && normalized(expected@) != normalized(actual@),
            },
            Result::Skipped(reason) => out is Ok && reason == ResolutionError::Solution
                && solution is None,
        },
{
    match r {
        Result::Success { result, .. } => Ok(result),
        Result::Failure { error, .. } => match error {
            Error::ExecutionError(message) => Err(message),
            Error::IncorrectAnswer { actual, .. } => Ok(actual),
        },
        Result::Skipped(_) => {
            let result = choose|result: String|
                #[trigger] solver_may_return(f, input, Ok(result));
            Ok(result)
        },
    }
}

} // verus!
