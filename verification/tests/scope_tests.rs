use puzzle_harness::Day;
use puzzle_harness::Puzzle;
use puzzle_harness::Scope;

const FORMAT_MESSAGE: &str = "Scope should be in the format: [all|yyyy[-dd[-p]]]] ";

#[test]
fn parse_all_token() {
    assert_eq!(Scope::parse("all"), Ok(Scope::All));
}

#[test]
fn parse_year_token() {
    assert_eq!(Scope::parse("2023"), Ok(Scope::Year(2023)));
}

#[test]
fn parse_day_token() {
    assert_eq!(
        Scope::parse("2023-01"),
        Ok(Scope::Day(Day { year: 2023, day: 1 }))
    );
}

#[test]
fn parse_puzzle_token() {
    assert_eq!(
        Scope::parse("2023-01-2"),
        Ok(Scope::Puzzle(Puzzle {
            year: 2023,
            day: 1,
            part: 2
        }))
    );
}

#[test]
fn parse_bogus_token_fails_with_format_error() {
    let parsed = Scope::parse("bogus-x");
    assert_eq!(parsed, Err(FORMAT_MESSAGE));
}

#[test]
fn parse_empty_token_fails() {
    assert_eq!(Scope::parse(""), Err(FORMAT_MESSAGE));
}

#[test]
fn parse_four_components_fails() {
    assert_eq!(Scope::parse("2023-01-2-9"), Err(FORMAT_MESSAGE));
}

#[test]
fn parse_accepts_leading_plus() {
    assert_eq!(Scope::parse("+2023"), Ok(Scope::Year(2023)));
}

#[test]
fn parse_rejects_year_overflow() {
    assert_eq!(Scope::parse("99999999999"), Err(FORMAT_MESSAGE));
}

#[test]
fn parse_rejects_negative_component() {
    // The first dash is read as a separator, leaving an empty year token.
    assert_eq!(Scope::parse("-2023"), Err(FORMAT_MESSAGE));
}

#[test]
fn display_canonical_forms() {
    assert_eq!(Scope::All.display(), "all");
    assert_eq!(Scope::Year(5).display(), "0005");
    assert_eq!(Scope::Day(Day { year: 2023, day: 1 }).display(), "2023-01");
    assert_eq!(
        Scope::Puzzle(Puzzle {
            year: 2023,
            day: 1,
            part: 2
        })
        .display(),
        "2023-01-2"
    );
}

#[test]
fn display_then_parse_round_trips() {
    let scopes = vec![
        Scope::All,
        Scope::Year(0),
        Scope::Year(2023),
        Scope::Year(123456),
        Scope::Day(Day { year: 7, day: 25 }),
        Scope::Puzzle(Puzzle {
            year: 2015,
            day: 3,
            part: 11,
        }),
    ];
    for scope in scopes {
        assert_eq!(Scope::parse(&scope.display()), Ok(scope));
    }
}

#[test]
fn all_scope_contains_every_day_and_puzzle() {
    let day = Day { year: 1999, day: 31 };
    let puzzle = Puzzle {
        year: 1999,
        day: 31,
        part: 9,
    };
    assert!(Scope::All.contains_day(day));
    assert!(Scope::All.contains_puzzle(puzzle));
    assert!(Scope::All.contains_day(Day { year: 0, day: 0 }));
    assert!(Scope::All.contains_puzzle(Puzzle {
        year: 0,
        day: 0,
        part: 1
    }));
}

#[test]
fn year_scope_contains_only_its_year() {
    let scope = Scope::Year(2023);
    assert!(scope.contains_day(Day { year: 2023, day: 5 }));
    assert!(!scope.contains_day(Day { year: 2024, day: 5 }));
    assert!(scope.contains_puzzle(Puzzle {
        year: 2023,
        day: 5,
        part: 1
    }));
    assert!(!scope.contains_puzzle(Puzzle {
        year: 2024,
        day: 5,
        part: 1
    }));
}

#[test]
fn puzzle_scope_ignores_part_for_day_containment() {
    let scope = Scope::Puzzle(Puzzle {
        year: 2023,
        day: 1,
        part: 2,
    });
    assert!(scope.contains_day(Day { year: 2023, day: 1 }));
    assert!(!scope.contains_day(Day { year: 2023, day: 2 }));
    assert!(scope.contains_puzzle(Puzzle {
        year: 2023,
        day: 1,
        part: 2
    }));
    assert!(!scope.contains_puzzle(Puzzle {
        year: 2023,
        day: 1,
        part: 1
    }));
}

#[test]
fn scope_puzzles_filters_a_collection() {
    let all = vec![
        Puzzle {
            year: 2023,
            day: 1,
            part: 1,
        },
        Puzzle {
            year: 2023,
            day: 2,
            part: 1,
        },
        Puzzle {
            year: 2024,
            day: 1,
            part: 1,
        },
    ];
    assert_eq!(Scope::All.puzzles(&all), all);
    assert_eq!(Scope::Year(2023).puzzles(&all), vec![all[0], all[1]]);
    assert_eq!(
        Scope::Day(Day { year: 2024, day: 1 }).puzzles(&all),
        vec![all[2]]
    );
    let lone = Puzzle {
        year: 1980,
        day: 9,
        part: 4,
    };
    assert_eq!(Scope::Puzzle(lone).puzzles(&all), vec![lone]);
}

#[test]
fn day_parse_reads_year_dash_day() {
    assert_eq!(Day::parse("2023-01"), Ok(Day { year: 2023, day: 1 }));
    assert_eq!(
        Day::parse("2023"),
        Err("Day has to be in the format: yyyy-dd")
    );
    assert_eq!(
        Day::parse("2023-01-2"),
        Err("Day has to be in the format: yyyy-dd")
    );
}

#[test]
fn day_display_pads_year_and_day() {
    assert_eq!(Day { year: 7, day: 3 }.display(), "0007-03");
    assert_eq!(Day { year: 2023, day: 25 }.display(), "2023-25");
}

#[test]
fn day_ordering_is_lexicographic() {
    let early = Day { year: 2022, day: 30 };
    let late = Day { year: 2023, day: 1 };
    assert!(early.before(late));
    assert!(!late.before(early));
    assert!(!early.before(early));
}
