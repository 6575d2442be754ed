use puzzle_harness::DataManifest;
use puzzle_harness::Day;
use puzzle_harness::DayManifest;
use puzzle_harness::Example;
use puzzle_harness::Puzzle;
use puzzle_harness::PuzzleManifest;
use puzzle_harness::ResolutionError;
use puzzle_harness::Scenario;

fn puzzle(part: usize) -> Puzzle {
    Puzzle {
        year: 2023,
        day: 1,
        part,
    }
}

fn day_manifest() -> DayManifest {
    DayManifest {
        parts: vec![
            PuzzleManifest {
                examples: vec![Example {
                    input: "example input".to_string(),
                    solution: Some("3".to_string()),
                }],
                input: None,
                solution: Some("41".to_string()),
            },
            PuzzleManifest {
                examples: vec![],
                input: Some("override".to_string()),
                solution: None,
            },
        ],
        input: Some("abc".to_string()),
    }
}

#[test]
fn graded_puzzle_falls_back_to_day_input() {
    let manifest = day_manifest();
    let data = manifest
        .data_for_scenario(Scenario::Puzzle(puzzle(1)))
        .unwrap();
    assert_eq!(data.input, "abc");
    assert_eq!(data.solution, Some("41".to_string()));
}

#[test]
fn puzzle_level_input_overrides_day_input() {
    let manifest = day_manifest();
    let data = manifest
        .data_for_scenario(Scenario::Puzzle(puzzle(2)))
        .unwrap();
    assert_eq!(data.input, "override");
    assert_eq!(data.solution, None);
}

#[test]
fn missing_both_inputs_is_an_input_error() {
    let manifest = DayManifest {
        parts: vec![PuzzleManifest {
            examples: vec![],
            input: None,
            solution: Some("41".to_string()),
        }],
        input: None,
    };
    let resolved = manifest.data_for_scenario(Scenario::Puzzle(puzzle(1)));
    assert_eq!(resolved, Err(ResolutionError::Input));
}

#[test]
fn example_takes_its_own_input_and_solution() {
    let manifest = day_manifest();
    let data = manifest
        .data_for_scenario(Scenario::Example {
            puzzle: puzzle(1),
            number: 1,
        })
        .unwrap();
    // No fallback in either direction: not the day input, not the
    // puzzle-level solution.
    assert_eq!(data.input, "example input");
    assert_eq!(data.solution, Some("3".to_string()));
}

#[test]
fn example_solution_does_not_fall_back_when_absent() {
    let mut manifest = day_manifest();
    manifest.parts[0].examples[0].solution = None;
    let data = manifest
        .data_for_scenario(Scenario::Example {
            puzzle: puzzle(1),
            number: 1,
        })
        .unwrap();
    assert_eq!(data.input, "example input");
    assert_eq!(data.solution, None);
}

#[test]
fn example_number_out_of_range_is_structural() {
    let manifest = day_manifest();
    let resolved = manifest.data_for_scenario(Scenario::Example {
        puzzle: puzzle(1),
        number: 2,
    });
    assert_eq!(resolved, Err(ResolutionError::Puzzle));
    let resolved = manifest.data_for_scenario(Scenario::Example {
        puzzle: puzzle(1),
        number: 0,
    });
    assert_eq!(resolved, Err(ResolutionError::Puzzle));
}

#[test]
fn part_out_of_range_is_structural() {
    let manifest = day_manifest();
    let resolved = manifest.data_for_scenario(Scenario::Puzzle(puzzle(3)));
    assert_eq!(resolved, Err(ResolutionError::Puzzle));
    let resolved = manifest.data_for_scenario(Scenario::Puzzle(puzzle(0)));
    assert_eq!(resolved, Err(ResolutionError::Puzzle));
}

#[test]
fn data_manifest_resolves_through_its_day_entry() {
    let mut manifest = DataManifest::new();
    manifest.insert(Day { year: 2023, day: 1 }, day_manifest());
    let data = manifest.resolve(Scenario::Puzzle(puzzle(1))).unwrap();
    assert_eq!(data.input, "abc");
}

#[test]
fn unknown_day_is_structural() {
    let mut manifest = DataManifest::new();
    manifest.insert(Day { year: 2024, day: 5 }, day_manifest());
    let resolved = manifest.resolve(Scenario::Puzzle(puzzle(1)));
    assert_eq!(resolved, Err(ResolutionError::Puzzle));
}

#[test]
fn manifest_lookup_finds_inserted_days() {
    let mut manifest = DataManifest::new();
    let first = Day { year: 2023, day: 1 };
    let second = Day { year: 2024, day: 5 };
    manifest.insert(first, day_manifest());
    manifest.insert(
        second,
        DayManifest {
            parts: vec![],
            input: None,
        },
    );
    assert!(manifest.get(first).is_some());
    assert!(manifest.get(second).is_some());
    assert!(manifest.get(Day { year: 2025, day: 1 }).is_none());
}
