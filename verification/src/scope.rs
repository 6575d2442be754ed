//! The `Scope` selector: which puzzles a harness invocation should run.
//! A scope is parsed from a compact token with the grammar
//! `[all|yyyy[-dd[-p]]]` and can render itself back to that canonical form.

use vstd::prelude::*;
use vstd::string::StrSliceExecFns;
use vstd::string::StringExecFns;

use crate::puzzles::Day;
use crate::puzzles::Puzzle;
use crate::text::dec_digits;
use crate::text::dec_digits_pad;
use crate::text::find_dash;
use crate::text::first_dash;
use crate::text::is_uint_token;
use crate::text::lemma_first_dash_is;
use crate::text::parse_u32;
use crate::text::parse_usize;
use crate::text::u32_to_padded_string;
use crate::text::uint_token_val;
use crate::text::usize_to_string;

verus! {

/// Options for one harness invocation: what to run, whether to verify
/// answers, and whether worked examples are included.
#[derive(Debug, Clone, Copy, PartialEq, Eq, Structural, Hash)]
pub struct ExecutionOptions {
    pub verify: bool,
    pub examples: bool,
    pub scope: Scope,
}

/// A selection predicate over puzzle identifiers: everything, one year,
/// one day, or one puzzle part.
#[derive(Debug, Clone, Copy, PartialEq, Eq, Structural, Hash)]
pub enum Scope {
    All,
    Year(u32),
    Day(Day),
    Puzzle(Puzzle),
}

/// The literal scope token that selects everything.
pub open spec fn is_all_token(s: Seq<char>) -> bool {
    s.len() == 3 && s[0] == 'a' && s[1] == 'l' && s[2] == 'l'
}

/// The scope grammar `[all|yyyy[-dd[-p]]]`: a token is split on dashes into
/// one, two or three components; one component is either the literal `all`
/// or a year, two are a day, three are a puzzle. Each numeric component must
/// parse as an unsigned decimal integer of the field's width.
pub open spec fn spec_parse_scope(s: Seq<char>) -> Option<Scope> {
    let i = first_dash(s);
    if i == s.len() {
        if is_all_token(s) {
            Some(Scope::All)
        } else if is_uint_token(s, u32::MAX as nat) {
            Some(Scope::Year(uint_token_val(s) as u32))
        } else {
            None
        }
    } else {
        let year_tok = s.take(i);
        let rest = s.skip(i + 1);
        let j = first_dash(rest);
        if j == rest.len() {
            if is_uint_token(year_tok, u32::MAX as nat) && is_uint_token(rest, u32::MAX as nat) {
                Some(
                    Scope::Day(
                        Day {
                            year: uint_token_val(year_tok) as u32,
                            day: uint_token_val(rest) as u32,
                        },
                    ),
                )
            } else {
                None
            }
        } else {
            let day_tok = rest.take(j);
            let part_tok = rest.skip(j + 1);
            if first_dash(part_tok) == part_tok.len() && is_uint_token(year_tok, u32::MAX as nat)
                && is_uint_token(day_tok, u32::MAX as nat) && is_uint_token(
                part_tok,
                usize::MAX as nat,
            ) {
                Some(
                    Scope::Puzzle(
                        Puzzle {
                            year: uint_token_val(year_tok) as u32,
                            day: uint_token_val(day_tok) as u32,
                            part: uint_token_val(part_tok) as usize,
                        },
                    ),
                )
            } else {
                None
            }
        }
    }
}

/// The canonical text of a scope: `all`, `yyyy`, `yyyy-dd` or `yyyy-dd-p`,
/// with the year zero-padded to four characters and the day to two.
pub open spec fn spec_display_scope(scope: Scope) -> Seq<char> {
    match scope {
        Scope::All => seq!['a', 'l', 'l'],
        Scope::Year(year) => dec_digits_pad(year as nat, 4),
        Scope::Day(day) => dec_digits_pad(day.year as nat, 4) + seq!['-'] + dec_digits_pad(
            day.day as nat,
            2,
        ),
        Scope::Puzzle(puzzle) => dec_digits_pad(puzzle.year as nat, 4) + seq!['-']
            + dec_digits_pad(puzzle.day as nat, 2) + seq!['-'] + dec_digits(puzzle.part as nat),
    }
}

impl Scope {
    /// Parses a scope token. Succeeds exactly on the tokens of the grammar
    /// `[all|yyyy[-dd[-p]]]`; everything else is rejected with a message
    /// naming that grammar.
    pub fn parse(value: &str) -> (r: Result<Scope, &'static str>)
        ensures
            match r {
                Ok(scope) => spec_parse_scope(value@) == Some(scope),
                Err(message) => spec_parse_scope(value@) is None && message@ == (
                "Scope should be in the format: [all|yyyy[-dd[-p]]]] ")@,
            },
    {
        let message = "Scope should be in the format: [all|yyyy[-dd[-p]]]] ";
        let n = value.unicode_len();
        let i = find_dash(value, 0);
        proof {
            lemma_first_dash_is(value@, i as int);
        }
        if i == n {
            if n == 3 && value.get_char(0) == 'a' && value.get_char(1) == 'l' && value.get_char(2)
                == 'l' {
                return Ok(Scope::All);
            }
            match parse_u32(value) {
                Some(year) => Ok(Scope::Year(year)),
                None => {
                    proof {
                        assert(!is_all_token(value@));
                    }
                    Err(message)
                },
            }
        } else {
            let year_str = value.substring_char(0, i);
            proof {
                assert(year_str@ =~= value@.take(i as int));
            }
            let j = find_dash(value, i + 1);
            let ghost rest = value@.skip(i + 1);
            proof {
                assert forall|k: int| 0 <= k < j - i - 1 implies rest[k] != '-' by {
                    assert(rest[k] == value@[k + i + 1]);
                }
                assert(j < n ==> rest[j - i - 1] == '-');
                lemma_first_dash_is(rest, j - i - 1);
            }
            if j == n {
                let day_str = value.substring_char(i + 1, n);
                proof {
                    assert(day_str@ =~= rest);
                }
                match (parse_u32(year_str), parse_u32(day_str)) {
                    (Some(year), Some(day)) => Ok(Scope::Day(Day { year, day })),
                    _ => Err(message),
                }
            } else {
                let k = find_dash(value, j + 1);
                let ghost part_tok = rest.skip(j - i - 1 + 1);
                proof {
                    assert(part_tok =~= value@.skip(j + 1));
                    assert forall|m: int| 0 <= m < k - j - 1 implies part_tok[m] != '-' by {
                        assert(part_tok[m] == value@[m + j + 1]);
                    }
                    assert(k < n ==> part_tok[k - j - 1] == '-');
                    lemma_first_dash_is(part_tok, k - j - 1);
                }
                if k < n {
                    proof {
                        assert(first_dash(part_tok) < part_tok.len());
                    }
                    return Err(message);
                }
                let day_str = value.substring_char(i + 1, j);
                let part_str = value.substring_char(j + 1, n);
                proof {
                    assert(day_str@ =~= rest.take(j - i - 1));
                    assert(part_str@ =~= part_tok);
                }
                match (parse_u32(year_str), parse_u32(day_str), parse_usize(part_str)) {
                    (Some(year), Some(day), Some(part)) => Ok(
                        Scope::Puzzle(Puzzle { year, day, part }),
                    ),
                    _ => Err(message),
                }
            }
        }
    }

    /// Renders the scope in its canonical textual form.
    pub fn display(self) -> (s: String)
        ensures
            s@ == spec_display_scope(self),
    {
        proof {
            reveal_strlit("all");
            reveal_strlit("-");
        }
        match self {
            Scope::All => {
                let s = String::from_str("all");
                proof {
                    assert(s@ =~= spec_display_scope(self));
                }
                s
            },
            Scope::Year(year) => u32_to_padded_string(year, 4),
            Scope::Day(day) => {
                let mut s = u32_to_padded_string(day.year, 4);
                s.append("-");
                let d = u32_to_padded_string(day.day, 2);
                s.append(d.as_str());
                proof {
                    assert(s@ =~= spec_display_scope(self));
                }
                s
            },
            Scope::Puzzle(puzzle) => {
                let mut s = u32_to_padded_string(puzzle.year, 4);
                s.append("-");
                let d = u32_to_padded_string(puzzle.day, 2);
                s.append(d.as_str());
                s.append("-");
                let p = usize_to_string(puzzle.part);
                s.append(p.as_str());
                proof {
                    assert(s@ =~= spec_display_scope(self));
                }
                s
            },
        }
    }
}

impl Scope {
    /// Whether this scope selects some puzzle of `day`. A puzzle-granular
    /// scope selects the whole day it points into: day-level containment
    /// ignores the part.
    pub open spec fn spec_contains_day(self, day: Day) -> bool {
        match self {
            Scope::All => true,
            Scope::Year(year) => day.year == year,
            Scope::Day(scope_day) => scope_day == day,
            Scope::Puzzle(puzzle) => day.day == puzzle.day && puzzle.year == day.year,
        }
    }

    /// Whether this scope selects some puzzle of `day`.
    pub fn contains_day(self, day: Day) -> (r: bool)
        ensures
            r == self.spec_contains_day(day),
    {
        match self {
            Scope::All => true,
            Scope::Year(year) => day.year == year,
            Scope::Day(scope_day) => scope_day == day,
            Scope::Puzzle(puzzle) => day.day == puzzle.day && puzzle.year == day.year,
        }
    }

    /// Whether this scope selects `puzzle`, compared at full puzzle
    /// granularity.
    pub open spec fn spec_contains_puzzle(self, puzzle: Puzzle) -> bool {
        match self {
            Scope::All => true,
            Scope::Year(year) => year == puzzle.year,
            Scope::Day(day) => puzzle.day == day.day && puzzle.year == day.year,
            Scope::Puzzle(scope_puzzle) => scope_puzzle == puzzle,
        }
    }

    /// Whether this scope selects `puzzle`.
    pub fn contains_puzzle(self, puzzle: Puzzle) -> (r: bool)
        ensures
            r == self.spec_contains_puzzle(puzzle),
    {
        match self {
            Scope::All => true,
            Scope::Year(year) => year == puzzle.year,
            Scope::Day(day) => puzzle.day == day.day && puzzle.year == day.year,
            Scope::Puzzle(scope_puzzle) => scope_puzzle == puzzle,
        }
    }

    /// The subsequence of `manifest` whose puzzles this scope contains,
    /// order kept.
    pub open spec fn filter_contained(self, manifest: Seq<Puzzle>) -> Seq<Puzzle>
        decreases manifest.len(),
    {
        if manifest.len() == 0 {
            Seq::empty()
        } else {
            let rest = self.filter_contained(manifest.drop_last());
            if self.spec_contains_puzzle(manifest.last()) {
                rest.push(manifest.last())
            } else {
                rest
            }
        }
    }

    /// The puzzles of a known collection that this scope asks to run: the
    /// whole collection for `All`, the matching subset for a year or a day,
    /// and for a puzzle scope that single puzzle, whether or not the
    /// collection lists it.
    pub open spec fn spec_puzzles(self, manifest: Seq<Puzzle>) -> Seq<Puzzle> {
        match self {
            Scope::All => manifest,
            Scope::Puzzle(puzzle) => seq![puzzle],
            _ => self.filter_contained(manifest),
        }
    }

    /// Selects from `manifest` the puzzles this scope asks to run.
    pub fn puzzles(self, manifest: &Vec<Puzzle>) -> (r: Vec<Puzzle>)
        ensures
            r@ == self.spec_puzzles(manifest@),
    {
        match self {
            Scope::Puzzle(puzzle) => {
                let mut r = Vec::new();
                r.push(puzzle);
                proof {
                    assert(r@ =~= seq![puzzle]);
                }
                r
            },
            scope => {
                let mut r: Vec<Puzzle> = Vec::new();
                let mut idx: usize = 0;
                while idx < manifest.len()
                    invariant
                        idx <= manifest.len(),
                        !(scope is Puzzle),
                        r@ == scope.spec_puzzles(manifest@.take(idx as int)),
                    decreases manifest.len() - idx,
                {
                    let puzzle = manifest[idx];
                    proof {
                        assert(manifest@.take(idx + 1).drop_last() =~= manifest@.take(idx as int));
                        assert(manifest@.take(idx + 1).last() == manifest@[idx as int]);
                        if scope is All {
                            assert(manifest@.take(idx + 1) =~= manifest@.take(idx as int).push(
                                manifest@[idx as int],
                            ));
                        }
                    }
                    if scope.contains_puzzle(puzzle) {
                        r.push(puzzle);
                    }
                    idx += 1;
                }
                proof {
                    assert(manifest@.take(manifest@.len() as int) =~= manifest@);
                }
                r
            },
        }
    }
}

/// The universal scope selects every day and every puzzle.
pub proof fn lemma_all_scope_contains_everything(day: Day, puzzle: Puzzle)
    ensures
        Scope::All.spec_contains_day(day),
        Scope::All.spec_contains_puzzle(puzzle),
{
}

/// Digit strings contain no dash.
proof fn lemma_digits_dash_free(s: Seq<char>)
    requires
        crate::text::all_digits(s),
    ensures
        first_dash(s) == s.len(),
{
    lemma_first_dash_is(s, s.len() as int);
}

/// Every scope parses back from its canonical textual form to itself.
#[verifier::rlimit(60)]
pub proof fn lemma_scope_display_parse_round_trip(scope: Scope)
    ensures
        spec_parse_scope(spec_display_scope(scope)) == Some(scope),
{
    match scope {
        Scope::All => {
            let s = seq!['a', 'l', 'l'];
            lemma_first_dash_is(s, 3);
            assert(is_all_token(s));
        },
        Scope::Year(year) => {
            let s = dec_digits_pad(year as nat, 4);
            crate::text::lemma_dec_digits_pad_token(year as nat, 4, u32::MAX as nat);
            lemma_digits_dash_free(s);
            assert(!is_all_token(s));
        },
        Scope::Day(day) => {
            let a = dec_digits_pad(day.year as nat, 4);
            let b = dec_digits_pad(day.day as nat, 2);
            let s = spec_display_scope(scope);
            crate::text::lemma_dec_digits_pad_token(day.year as nat, 4, u32::MAX as nat);
            crate::text::lemma_dec_digits_pad_token(day.day as nat, 2, u32::MAX as nat);
            assert forall|k: int| 0 <= k < a.len() implies s[k] != '-' by {
                assert(s[k] == a[k]);
            }
            assert(s[a.len() as int] == '-');
            lemma_first_dash_is(s, a.len() as int);
            assert(s.take(a.len() as int) =~= a);
            assert(s.skip(a.len() as int + 1) =~= b);
            lemma_digits_dash_free(b);
        },
        Scope::Puzzle(puzzle) => {
            let a = dec_digits_pad(puzzle.year as nat, 4);
            let b = dec_digits_pad(puzzle.day as nat, 2);
            let c = dec_digits(puzzle.part as nat);
            let s = spec_display_scope(scope);
            crate::text::lemma_dec_digits_pad_token(puzzle.year as nat, 4, u32::MAX as nat);
            crate::text::lemma_dec_digits_pad_token(puzzle.day as nat, 2, u32::MAX as nat);
            crate::text::lemma_dec_digits_pad_token(puzzle.part as nat, 0, usize::MAX as nat);
            assert(dec_digits_pad(puzzle.part as nat, 0) == c);
            assert forall|k: int| 0 <= k < a.len() implies s[k] != '-' by {
                assert(s[k] == a[k]);
            }
            assert(s[a.len() as int] == '-');
            lemma_first_dash_is(s, a.len() as int);
            assert(s.take(a.len() as int) =~= a);
            let rest = s.skip(a.len() as int + 1);
            assert(rest =~= b + seq!['-'] + c);
            assert forall|k: int| 0 <= k < b.len() implies rest[k] != '-' by {
                assert(rest[k] == b[k]);
            }
            assert(rest[b.len() as int] == '-');
            lemma_first_dash_is(rest, b.len() as int);
            assert(rest.take(b.len() as int) =~= b);
            assert(rest.skip(b.len() as int + 1) =~= c);
            lemma_digits_dash_free(c);
        },
    }
}

} // verus!
