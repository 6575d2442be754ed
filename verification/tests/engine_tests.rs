use puzzle_harness::normalize;
use puzzle_harness::normalized_eq;
use puzzle_harness::DayManifest;
use puzzle_harness::Error;
use puzzle_harness::Result as Outcome;
use puzzle_harness::Puzzle;
use puzzle_harness::PuzzleManifest;
use puzzle_harness::ResolutionError;
use puzzle_harness::Scenario;
use puzzle_harness::SolverRegistry;
use puzzle_harness::Status;

type Solver = fn(String) -> Result<String, String>;

fn answer_seven(_input: String) -> Result<String, String> {
    Ok("7".to_string())
}

fn echo(input: String) -> Result<String, String> {
    Ok(input)
}

fn broken(_input: String) -> Result<String, String> {
    Err("ran out of stars".to_string())
}

fn puzzle() -> Puzzle {
    Puzzle {
        year: 2023,
        day: 1,
        part: 1,
    }
}

fn manifest_with_solution(solution: Option<&str>) -> DayManifest {
    DayManifest {
        parts: vec![PuzzleManifest {
            examples: vec![],
            input: Some("abc".to_string()),
            solution: solution.map(|text| text.to_string()),
        }],
        input: None,
    }
}

fn registry_with(solver: Solver) -> SolverRegistry<Solver> {
    let mut registry: SolverRegistry<Solver> = SolverRegistry::new();
    registry.register(puzzle(), solver);
    registry
}

#[test]
fn run_returns_the_solver_answer() {
    let manifest = manifest_with_solution(None);
    let registry = registry_with(answer_seven);
    let outcome = Scenario::Puzzle(puzzle()).run(&manifest, &registry);
    match outcome {
        Outcome::Success { result, .. } => assert_eq!(result, "7"),
        other => panic!("expected a success, got {:?}", other),
    }
}

#[test]
fn run_skips_without_a_solver() {
    let manifest = manifest_with_solution(None);
    let registry: SolverRegistry<Solver> = SolverRegistry::new();
    let outcome = Scenario::Puzzle(puzzle()).run(&manifest, &registry);
    assert_eq!(outcome, Outcome::Skipped(ResolutionError::Solver));
}

#[test]
fn run_skips_without_any_input() {
    let manifest = DayManifest {
        parts: vec![PuzzleManifest {
            examples: vec![],
            input: None,
            solution: None,
        }],
        input: None,
    };
    let registry = registry_with(answer_seven);
    let outcome = Scenario::Puzzle(puzzle()).run(&manifest, &registry);
    assert_eq!(outcome, Outcome::Skipped(ResolutionError::Input));
}

#[test]
fn run_classifies_solver_errors_as_failures() {
    let manifest = manifest_with_solution(None);
    let registry = registry_with(broken);
    let outcome = Scenario::Puzzle(puzzle()).run(&manifest, &registry);
    match outcome {
        Outcome::Failure { error, .. } => {
            assert_eq!(
                error,
                Error::ExecutionError("ran out of stars".to_string())
            );
            assert_eq!(
                error.message(),
                "An error occurred whilst executing the puzzle:\n\tran out of stars"
            );
        }
        other => panic!("expected a failure, got {:?}", other),
    }
}

#[test]
fn verify_accepts_answers_up_to_line_endings() {
    // The expected solution ends in a newline; the solver's answer does not.
    let manifest = manifest_with_solution(Some("7\n"));
    let registry = registry_with(answer_seven);
    let outcome = puzzle().verify(&manifest, &registry);
    match outcome {
        Outcome::Success { result, .. } => assert_eq!(result, "7"),
        other => panic!("expected a success, got {:?}", other),
    }
}

#[test]
fn verify_reports_incorrect_answers() {
    let manifest = manifest_with_solution(Some("8"));
    let registry = registry_with(answer_seven);
    let outcome = puzzle().verify(&manifest, &registry);
    match outcome {
        Outcome::Failure { error, .. } => {
            assert_eq!(
                error,
                Error::IncorrectAnswer {
                    expected: "8".to_string(),
                    actual: "7".to_string(),
                }
            );
            assert_eq!(
                error.message(),
                "Solver produced an incorrect answer, expected: `8` got `7`"
            );
        }
        other => panic!("expected a failure, got {:?}", other),
    }
}

#[test]
fn verify_skips_without_an_expected_solution() {
    let manifest = manifest_with_solution(None);
    let registry = registry_with(answer_seven);
    let outcome = puzzle().verify(&manifest, &registry);
    assert_eq!(outcome, Outcome::Skipped(ResolutionError::Solution));
}

#[test]
fn verify_propagates_run_failures_unchanged() {
    let manifest = manifest_with_solution(Some("7"));
    let registry = registry_with(broken);
    let outcome = puzzle().verify(&manifest, &registry);
    match outcome {
        Outcome::Failure { error, .. } => assert_eq!(
            error,
            Error::ExecutionError("ran out of stars".to_string())
        ),
        other => panic!("expected a failure, got {:?}", other),
    }
}

#[test]
fn normalization_treats_line_endings_alike() {
    assert_eq!(normalize("42\r\n"), "42");
    assert_eq!(normalize("42\n"), "42");
    assert_eq!(normalize("42"), "42");
    assert!(normalized_eq("42\r\n", "42\n"));
    assert!(normalized_eq("42\n", "42"));
    assert!(normalized_eq("42\r\n", "42"));
    assert!(!normalized_eq("42", "24"));
    assert_eq!(normalize("a\nb\r\nc"), "abc");
}

#[test]
fn running_twice_yields_equal_results() {
    let manifest = manifest_with_solution(Some("abc"));
    let registry = registry_with(echo);
    let scenario = Scenario::Puzzle(puzzle());
    let first = scenario.run(&manifest, &registry);
    let second = scenario.run(&manifest, &registry);
    let first_result = match first {
        Outcome::Success { result, .. } => result,
        other => panic!("expected a success, got {:?}", other),
    };
    let second_result = match second {
        Outcome::Success { result, .. } => result,
        other => panic!("expected a success, got {:?}", other),
    };
    assert_eq!(first_result, second_result);
    // The verification outcome is deterministic as well.
    let verified_once = scenario.verify(&manifest, &registry).status();
    let verified_again = scenario.verify(&manifest, &registry).status();
    assert_eq!(verified_once, Status::Success);
    assert_eq!(verified_again, Status::Success);
}

#[test]
fn statuses_classify_outcomes() {
    let success = Outcome::Success {
        result: "7".to_string(),
        stats: puzzle_harness::Statistics { duration_micros: 5 },
    };
    let failure = Outcome::Failure {
        error: Error::ExecutionError("boom".to_string()),
        stats: puzzle_harness::Statistics { duration_micros: 5 },
    };
    let skipped = Outcome::Skipped(ResolutionError::Solver);
    assert_eq!(success.status(), Status::Success);
    assert_eq!(failure.status(), Status::Failure);
    assert_eq!(skipped.status(), Status::Skipped);
}

#[test]
fn resolution_error_messages_name_their_cause() {
    assert_eq!(
        ResolutionError::Solver.message(),
        "Failed to resolve solver"
    );
    assert_eq!(
        ResolutionError::Puzzle.message(),
        "Puzzle not found in data manifest"
    );
    assert_eq!(
        ResolutionError::Input.message(),
        "No input found for puzzle in data manifest"
    );
    assert_eq!(
        ResolutionError::Solution.message(),
        "No solution found for puzzle in data manifest"
    );
}

#[test]
fn example_scenarios_use_example_data() {
    let manifest = DayManifest {
        parts: vec![PuzzleManifest {
            examples: vec![puzzle_harness::Example {
                input: "tiny".to_string(),
                solution: Some("4".to_string()),
            }],
            input: Some("big".to_string()),
            solution: Some("7".to_string()),
        }],
        input: None,
    };
    let registry = registry_with(echo);
    let scenario = Scenario::Example {
        puzzle: puzzle(),
        number: 1,
    };
    // The echo solver hands the resolved input back: examples resolve to
    // their own input, never the puzzle-level one, and are checked against
    // their own solution, not the puzzle's.
    let outcome = scenario.verify(&manifest, &registry);
    match outcome {
        Outcome::Failure { error, .. } => assert_eq!(
            error,
            Error::IncorrectAnswer {
                expected: "4".to_string(),
                actual: "tiny".to_string(),
            }
        ),
        other => panic!("expected a failure, got {:?}", other),
    }
}
