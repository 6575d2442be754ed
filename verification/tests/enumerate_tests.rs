use puzzle_harness::enumerate;
use puzzle_harness::execute_day;
use puzzle_harness::format_duration;
use puzzle_harness::run_all;
use puzzle_harness::scenarios_for_puzzle;
use puzzle_harness::summarize;
use puzzle_harness::DataManifest;
use puzzle_harness::Day;
use puzzle_harness::DayManifest;
use puzzle_harness::Example;
use puzzle_harness::ExecutionOptions;
use puzzle_harness::Result as Outcome;
use puzzle_harness::Puzzle;
use puzzle_harness::PuzzleManifest;
use puzzle_harness::ResolutionError;
use puzzle_harness::Scenario;
use puzzle_harness::Scope;
use puzzle_harness::SolverRegistry;
use puzzle_harness::Statistics;

type Solver = fn(String) -> Result<String, String>;

fn answer_seven(_input: String) -> Result<String, String> {
    Ok("7".to_string())
}

fn example(input: &str) -> Example {
    Example {
        input: input.to_string(),
        solution: None,
    }
}

fn two_part_day(day_input: &str) -> DayManifest {
    DayManifest {
        parts: vec![
            PuzzleManifest {
                examples: vec![example("e1"), example("e2")],
                input: None,
                solution: None,
            },
            PuzzleManifest {
                examples: vec![],
                input: None,
                solution: None,
            },
        ],
        input: Some(day_input.to_string()),
    }
}

fn sample_manifest() -> DataManifest {
    let mut manifest = DataManifest::new();
    manifest.insert(Day { year: 2023, day: 1 }, two_part_day("abc"));
    manifest.insert(
        Day { year: 2024, day: 5 },
        DayManifest {
            parts: vec![PuzzleManifest {
                examples: vec![],
                input: Some("xyz".to_string()),
                solution: None,
            }],
            input: None,
        },
    );
    manifest
}

fn puzzle(part: usize) -> Puzzle {
    Puzzle {
        year: 2023,
        day: 1,
        part,
    }
}

#[test]
fn year_scope_enumerates_its_days_in_part_order() {
    let manifest = sample_manifest();
    let scenarios = enumerate(Scope::Year(2023), &manifest, false);
    assert_eq!(
        scenarios,
        vec![Scenario::Puzzle(puzzle(1)), Scenario::Puzzle(puzzle(2))]
    );
}

#[test]
fn year_scope_enumerates_examples_before_each_graded_scenario() {
    let manifest = sample_manifest();
    let scenarios = enumerate(Scope::Year(2023), &manifest, true);
    assert_eq!(
        scenarios,
        vec![
            Scenario::Example {
                puzzle: puzzle(1),
                number: 1
            },
            Scenario::Example {
                puzzle: puzzle(1),
                number: 2
            },
            Scenario::Puzzle(puzzle(1)),
            Scenario::Puzzle(puzzle(2)),
        ]
    );
}

#[test]
fn puzzle_scope_enumerates_exactly_one_scenario() {
    let manifest = sample_manifest();
    let scenarios = enumerate(
        Scope::Puzzle(Puzzle {
            year: 2023,
            day: 1,
            part: 2,
        }),
        &manifest,
        false,
    );
    assert_eq!(scenarios, vec![Scenario::Puzzle(puzzle(2))]);
}

#[test]
fn missing_day_or_part_enumerates_nothing() {
    let manifest = sample_manifest();
    assert!(enumerate(Scope::Year(1999), &manifest, true).is_empty());
    assert!(enumerate(
        Scope::Day(Day { year: 2025, day: 1 }),
        &manifest,
        true
    )
    .is_empty());
    assert!(enumerate(
        Scope::Puzzle(Puzzle {
            year: 2023,
            day: 1,
            part: 3
        }),
        &manifest,
        true
    )
    .is_empty());
}

#[test]
fn all_scope_enumerates_in_insertion_order() {
    let manifest = sample_manifest();
    let scenarios = enumerate(Scope::All, &manifest, false);
    assert_eq!(
        scenarios,
        vec![
            Scenario::Puzzle(puzzle(1)),
            Scenario::Puzzle(puzzle(2)),
            Scenario::Puzzle(Puzzle {
                year: 2024,
                day: 5,
                part: 1
            }),
        ]
    );
}

#[test]
fn scenarios_for_puzzle_puts_the_graded_scenario_last() {
    let part = PuzzleManifest {
        examples: vec![example("e1"), example("e2")],
        input: None,
        solution: None,
    };
    let with_examples = scenarios_for_puzzle(puzzle(1), &part, true);
    assert_eq!(
        with_examples,
        vec![
            Scenario::Example {
                puzzle: puzzle(1),
                number: 1
            },
            Scenario::Example {
                puzzle: puzzle(1),
                number: 2
            },
            Scenario::Puzzle(puzzle(1)),
        ]
    );
    let without = scenarios_for_puzzle(puzzle(1), &part, false);
    assert_eq!(without, vec![Scenario::Puzzle(puzzle(1))]);
}

#[test]
fn execute_day_produces_one_outcome_per_scenario() {
    let manifest = two_part_day("abc");
    let mut registry: SolverRegistry<Solver> = SolverRegistry::new();
    registry.register(puzzle(1), answer_seven);
    let options = ExecutionOptions {
        verify: false,
        examples: false,
        scope: Scope::All,
    };
    let outcomes = execute_day(Day { year: 2023, day: 1 }, &manifest, &registry, options);
    assert_eq!(outcomes.len(), 2);
    assert!(matches!(outcomes[0], Outcome::Success { .. }));
    assert_eq!(outcomes[1], Outcome::Skipped(ResolutionError::Solver));
}

#[test]
fn run_all_covers_the_whole_scope() {
    let manifest = sample_manifest();
    let mut registry: SolverRegistry<Solver> = SolverRegistry::new();
    registry.register(puzzle(1), answer_seven);
    let options = ExecutionOptions {
        verify: false,
        examples: false,
        scope: Scope::All,
    };
    let outcomes = run_all(options, &manifest, &registry);
    assert_eq!(outcomes.len(), 3);
    assert!(matches!(outcomes[0], Outcome::Success { .. }));
    assert_eq!(outcomes[1], Outcome::Skipped(ResolutionError::Solver));
    assert_eq!(outcomes[2], Outcome::Skipped(ResolutionError::Solver));
}

#[test]
fn summary_counts_account_for_every_outcome() {
    let stats = Statistics { duration_micros: 1 };
    let outcomes = vec![
        Outcome::Success {
            result: "7".to_string(),
            stats,
        },
        Outcome::Skipped(ResolutionError::Solver),
        Outcome::Success {
            result: "8".to_string(),
            stats,
        },
        Outcome::Failure {
            error: puzzle_harness::Error::ExecutionError("boom".to_string()),
            stats,
        },
        Outcome::Skipped(ResolutionError::Input),
    ];
    let summary = summarize(&outcomes);
    assert_eq!(summary.total, 5);
    assert_eq!(summary.succeeded, 2);
    assert_eq!(summary.failed, 1);
    assert_eq!(summary.skipped, 2);
    assert_eq!(
        summary.succeeded + summary.failed + summary.skipped,
        outcomes.len()
    );
}

#[test]
fn empty_batch_summarizes_to_zero() {
    let summary = summarize(&vec![]);
    assert_eq!(summary.total, 0);
    assert_eq!(summary.succeeded + summary.failed + summary.skipped, 0);
}

#[test]
fn scoped_days_deduplicates_in_first_registration_order() {
    let mut registry: SolverRegistry<Solver> = SolverRegistry::new();
    registry.register(puzzle(1), answer_seven);
    registry.register(puzzle(2), answer_seven);
    registry.register(
        Puzzle {
            year: 2024,
            day: 5,
            part: 1,
        },
        answer_seven,
    );
    let all_days = registry.scoped_days(Scope::All);
    assert_eq!(
        all_days,
        vec![Day { year: 2023, day: 1 }, Day { year: 2024, day: 5 }]
    );
    let year_days = registry.scoped_days(Scope::Year(2024));
    assert_eq!(year_days, vec![Day { year: 2024, day: 5 }]);
}

#[test]
fn format_duration_pads_each_field() {
    assert_eq!(format_duration(0), "[00:00.000000]");
    assert_eq!(format_duration(65_000_123), "[01:05.000123]");
    assert_eq!(format_duration(59_999_999), "[00:59.999999]");
    assert_eq!(format_duration(7_260_000_001), "[121:00.000001]");
}

#[test]
fn scenario_display_names_the_unit() {
    assert_eq!(
        Scenario::Puzzle(puzzle(2)).display(),
        "2023 day 01 part 2"
    );
    assert_eq!(
        Scenario::Example {
            puzzle: puzzle(1),
            number: 3
        }
        .display(),
        "2023 day 01 part 1 ex. 3"
    );
}
