//! Identifier value types: a calendar `Day`, a graded `Puzzle` part within a
//! day, and a `Scenario`, the atomic unit of execution.

use vstd::prelude::*;
use vstd::string::StrSliceExecFns;
use vstd::string::StringExecFns;

use crate::text::dec_digits;
use crate::text::dec_digits_pad;
use crate::text::find_dash;
use crate::text::first_dash;
use crate::text::is_uint_token;
use crate::text::lemma_first_dash_is;
use crate::text::parse_u32;
use crate::text::u32_to_padded_string;
use crate::text::uint_token_val;
use crate::text::usize_to_string;

verus! {

/// One calendar day of puzzles, identified by year and day number.
#[derive(Debug, Clone, Copy, PartialEq, Eq, Structural, Hash)]
pub struct Day {
    pub year: u32,
    pub day: u32,
}

/// One graded sub-problem within a day; `part` is 1-based.
#[derive(Debug, Clone, Copy, PartialEq, Eq, Structural, Hash)]
pub struct Puzzle {
    pub year: u32,
    pub day: u32,
    pub part: usize,
}

/// One executable unit of work: either the graded puzzle itself or one of
/// its worked examples (`number` is 1-based).
#[derive(Debug, Clone, Copy, PartialEq, Eq, Structural, Hash)]
pub enum Scenario {
    Puzzle(Puzzle),
    Example { puzzle: Puzzle, number: usize },
}

impl Day {
    /// Days are totally ordered by `(year, day)`, lexicographically.
    pub open spec fn spec_before(self, other: Day) -> bool {
        self.year < other.year || (self.year == other.year && self.day < other.day)
    }

    /// Strict `(year, day)` ordering between two days.
    pub fn before(self, other: Day) -> (r: bool)
        ensures
            r == self.spec_before(other),
    {
        self.year < other.year || (self.year == other.year && self.day < other.day)
    }
}

impl Puzzle {
    /// The day this puzzle belongs to, obtained by dropping `part`.
    pub open spec fn spec_day(self) -> Day {
        Day { year: self.year, day: self.day }
    }
}

impl From<Puzzle> for Day {
    fn from(value: Puzzle) -> (d: Day)
        ensures
            d == value.spec_day(),
    {
        Day { year: value.year, day: value.day }
    }
}

impl vstd::std_specs::convert::FromSpecImpl<Puzzle> for Day {
    open spec fn obeys_from_spec() -> bool {
        true
    }

    open spec fn from_spec(t: Puzzle) -> Day {
        t.spec_day()
    }
}

/// The day-key grammar `yyyy-dd`: a year token, one dash, a day token.
/// The day token itself must parse as an unsigned integer, so a key with
/// more than one dash is rejected.
pub open spec fn spec_parse_day(s: Seq<char>) -> Option<Day> {
    let i = first_dash(s);
    if i == s.len() {
        None
    } else if is_uint_token(s.take(i), u32::MAX as nat) && is_uint_token(
        s.skip(i + 1),
        u32::MAX as nat,
    ) {
        Some(
            Day {
                year: uint_token_val(s.take(i)) as u32,
                day: uint_token_val(s.skip(i + 1)) as u32,
            },
        )
    } else {
        None
    }
}

/// The canonical text of a day: `yyyy-dd`, the year zero-padded to four
/// characters and the day to two.
pub open spec fn spec_display_day(day: Day) -> Seq<char> {
    dec_digits_pad(day.year as nat, 4) + seq!['-'] + dec_digits_pad(day.day as nat, 2)
}

impl Day {
    /// Parses a `yyyy-dd` day key; anything else is rejected with a message
    /// naming that format.
    pub fn parse(value: &str) -> (r: Result<Day, &'static str>)
        ensures
            match r {
                Ok(day) => spec_parse_day(value@) == Some(day),
                Err(message) => spec_parse_day(value@) is None && message@ == (
                "Day has to be in the format: yyyy-dd")@,
            },
    {
        let message = "Day has to be in the format: yyyy-dd";
        let n = value.unicode_len();
        let i = find_dash(value, 0);
        proof {
            lemma_first_dash_is(value@, i as int);
        }
        if i == n {
            return Err(message);
        }
        let year_str = value.substring_char(0, i);
        let day_str = value.substring_char(i + 1, n);
        proof {
            assert(year_str@ =~= value@.take(i as int));
            assert(day_str@ =~= value@.skip(i + 1));
        }
        match (parse_u32(year_str), parse_u32(day_str)) {
            (Some(year), Some(day)) => Ok(Day { year, day }),
            _ => Err(message),
        }
    }

    /// Renders the day in its canonical `yyyy-dd` form.
    pub fn display(self) -> (s: String)
        ensures
            s@ == spec_display_day(self),
    {
        let mut s = u32_to_padded_string(self.year, 4);
        proof {
            reveal_strlit("-");
        }
        s.append("-");
        let d = u32_to_padded_string(self.day, 2);
        s.append(d.as_str());
        proof {
            assert(s@ =~= spec_display_day(self));
        }
        s
    }
}

/// The canonical text of a scenario: `yyyy day dd part p`, with
/// ` ex. n` appended for a worked example.
pub open spec fn spec_display_scenario(scenario: Scenario) -> Seq<char> {
    let puzzle = scenario.spec_puzzle();
    let base = dec_digits_pad(puzzle.year as nat, 4) + seq![' ', 'd', 'a', 'y', ' ']
        + dec_digits_pad(puzzle.day as nat, 2) + seq![' ', 'p', 'a', 'r', 't', ' '] + dec_digits(
        puzzle.part as nat,
    );
    match scenario {
        Scenario::Puzzle(_) => base,
        Scenario::Example { number, .. } => base + seq![' ', 'e', 'x', '.', ' '] + dec_digits(
            number as nat,
        ),
    }
}

impl Scenario {
    /// Renders the scenario identifier line fragment.
    pub fn display(self) -> (s: String)
        ensures
            s@ == spec_display_scenario(self),
    {
        proof {
            reveal_strlit(" day ");
            reveal_strlit(" part ");
            reveal_strlit(" ex. ");
        }
        let puzzle = self.puzzle();
        let mut s = u32_to_padded_string(puzzle.year, 4);
        s.append(" day ");
        let d = u32_to_padded_string(puzzle.day, 2);
        s.append(d.as_str());
        s.append(" part ");
        let p = usize_to_string(puzzle.part);
        s.append(p.as_str());
        match self {
            Scenario::Puzzle(_) => {
                proof {
                    assert(s@ =~= spec_display_scenario(self));
                }
                s
            },
            Scenario::Example { number, .. } => {
                s.append(" ex. ");
                let e = usize_to_string(number);
                s.append(e.as_str());
                proof {
                    assert(s@ =~= spec_display_scenario(self));
                }
                s
            },
        }
    }

    /// The puzzle this scenario exercises, for either variant.
    pub open spec fn spec_puzzle(self) -> Puzzle {
        match self {
            Scenario::Puzzle(puzzle) => puzzle,
            Scenario::Example { puzzle, .. } => puzzle,
        }
    }

    /// The puzzle this scenario exercises, for either variant.
    pub fn puzzle(self) -> (p: Puzzle)
        ensures
            p == self.spec_puzzle(),
    {
        match self {
            Scenario::Puzzle(puzzle) => puzzle,
            Scenario::Example { puzzle, .. } => puzzle,
        }
    }
}

} // verus!
