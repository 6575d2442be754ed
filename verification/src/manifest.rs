//! The layered manifest data model: `Example` records inside a
//! `PuzzleManifest`, puzzle parts inside a `DayManifest`, days inside a
//! `DataManifest`, and the fallback rules that resolve a scenario to its
//! input text and optional expected solution.

use vstd::prelude::*;

use crate::puzzles::Day;
use crate::puzzles::Scenario;
use crate::solving::ResolutionError;

verus! {

/// One worked example of a puzzle: its input text is always present and an
/// expected solution is optional.
#[derive(Debug, Clone, PartialEq, Eq)]
pub struct Example {
    pub input: String,
    pub solution: Option<String>,
}

/// The manifest entry of one graded puzzle part: an optional input override,
/// an optional expected solution, and its worked examples.
#[derive(Debug, Clone, PartialEq, Eq)]
pub struct PuzzleManifest {
    pub examples: Vec<Example>,
    pub input: Option<String>,
    pub solution: Option<String>,
}

/// The manifest entry of one day: its puzzle parts, indexed by 1-based part
/// number through their position, and an optional day-level default input.
#[derive(Debug, Clone, PartialEq, Eq)]
pub struct DayManifest {
    pub parts: Vec<PuzzleManifest>,
    pub input: Option<String>,
}

/// The input and optional expected solution resolved for one scenario.
#[derive(Debug, Clone, PartialEq, Eq)]
pub struct ScenarioData {
    pub input: String,
    pub solution: Option<String>,
}

/// What resolution yields for a scenario, as mathematical text: the input
/// characters and the optional expected-solution characters.
pub type ResolvedData = (Seq<char>, Option<Seq<char>>);

impl DayManifest {
    /// The resolution rule of the manifest hierarchy. The scenario's part
    /// must exist (1-based) or resolution fails without an input. A graded
    /// puzzle takes the puzzle-level input if present, the day-level input
    /// otherwise, and fails if both are absent; its expected solution is
    /// puzzle-level only, with no fallback. An example takes its own input
    /// and solution, never falling back to puzzle or day data; an example
    /// number out of range is a structural failure.
    pub open spec fn spec_resolution(self, scenario: Scenario) -> Result<
        ResolvedData,
        ResolutionError,
    > {
        let puzzle = scenario.spec_puzzle();
        if puzzle.part < 1 || puzzle.part > self.parts@.len() {
            Err(ResolutionError::Puzzle)
        } else {
            let part = self.parts@[puzzle.part - 1];
            match scenario {
                Scenario::Puzzle(_) => if part.input is Some {
                    Ok((part.input->0@, part.solution.deep_view()))
                } else if self.input is Some {
                    Ok((self.input->0@, part.solution.deep_view()))
                } else {
                    Err(ResolutionError::Input)
                },
                Scenario::Example { number, .. } => if 1 <= number <= part.examples@.len() {
                    let example = part.examples@[number - 1];
                    Ok((example.input@, example.solution.deep_view()))
                } else {
                    Err(ResolutionError::Puzzle)
                },
            }
        }
    }

    /// Resolves the input text and expected solution for `scenario`, per the
    /// fallback rules of [`Self::spec_resolution`].
    pub fn data_for_scenario(&self, scenario: Scenario) -> (r: Result<
        ScenarioData,
        ResolutionError,
    >)
        ensures
            match r {
                Ok(data) => self.spec_resolution(scenario) == Ok::<ResolvedData, ResolutionError>(
                    (data.input@, data.solution.deep_view()),
                ),
                Err(error) => self.spec_resolution(scenario) == Err::<
                    ResolvedData,
                    ResolutionError,
                >(error),
            },
    {
        let puzzle = scenario.puzzle();
        if puzzle.part < 1 || puzzle.part > self.parts.len() {
            return Err(ResolutionError::Puzzle);
        }
        let part = &self.parts[puzzle.part - 1];
        match scenario {
            Scenario::Puzzle(_) => {
                let input = if let Some(input) = &part.input {
                    input.clone()
                } else if let Some(input) = &self.input {
                    input.clone()
                } else {
                    return Err(ResolutionError::Input);
                };
                let solution = match &part.solution {
                    Some(solution) => Some(solution.clone()),
                    None => None,
                };
                Ok(ScenarioData { input, solution })
            },
            Scenario::Example { number, .. } => {
                if number < 1 || number > part.examples.len() {
                    return Err(ResolutionError::Puzzle);
                }
                let example = &part.examples[number - 1];
                let solution = match &example.solution {
                    Some(solution) => Some(solution.clone()),
                    None => None,
                };
                Ok(ScenarioData { input: example.input.clone(), solution })
            },
        }
    }
}

/// The whole data manifest: day entries in insertion order, each day listed
/// at most once.
#[derive(Debug, Clone, PartialEq, Eq)]
pub struct DataManifest {
    pub entries: Vec<(Day, DayManifest)>,
}

/// The first day manifest recorded for `day`, if any.
pub open spec fn spec_find_day(entries: Seq<(Day, DayManifest)>, day: Day) -> Option<DayManifest>
    decreases entries.len(),
{
    if entries.len() == 0 {
        None
    } else if entries[0].0 == day {
        Some(entries[0].1)
    } else {
        spec_find_day(entries.skip(1), day)
    }
}

impl DataManifest {
    /// Each day appears at most once.
    pub open spec fn wf(self) -> bool {
        forall|i: int, j: int|
            0 <= i < j < self.entries@.len() ==> self.entries@[i].0 != self.entries@[j].0
    }

    /// An empty manifest.
    pub fn new() -> (r: DataManifest)
        ensures
            r.wf(),
            r.entries@.len() == 0,
    {
        DataManifest { entries: Vec::new() }
    }

    /// Records the manifest of a day not yet present; entries keep their
    /// insertion order.
    pub fn insert(&mut self, day: Day, manifest: DayManifest)
        requires
            old(self).wf(),
            spec_find_day(old(self).entries@, day) is None,
        ensures
            final(self).wf(),
            final(self).entries@ == old(self).entries@.push((day, manifest)),
    {
        proof {
            lemma_find_day_none_means_absent(self.entries@, day);
        }
        self.entries.push((day, manifest));
    }

    /// Looks up the manifest recorded for `day`.
    pub fn get(&self, day: Day) -> (r: Option<&DayManifest>)
        ensures
            match r {
                Some(manifest) => spec_find_day(self.entries@, day) == Some(*manifest),
                None => spec_find_day(self.entries@, day) is None,
            },
    {
        let n = self.entries.len();
        let mut i: usize = 0;
        proof {
            assert(self.entries@.skip(0) =~= self.entries@);
        }
        while i < n
            invariant
                i <= n,
                n == self.entries@.len(),
                spec_find_day(self.entries@, day) == spec_find_day(
                    self.entries@.skip(i as int),
                    day,
                ),
            decreases n - i,
        {
            proof {
                assert(self.entries@.skip(i as int)[0] == self.entries@[i as int]);
                assert(self.entries@.skip(i as int).skip(1) =~= self.entries@.skip(i + 1));
            }
            if self.entries[i].0 == day {
                return Some(&self.entries[i].1);
            }
            i += 1;
        }
        proof {
            assert(self.entries@.skip(n as int).len() == 0);
        }
        None
    }

    /// Resolves a scenario against the whole manifest: an unknown day is a
    /// structural failure, a known day resolves by the day's own rules.
    pub open spec fn spec_resolve(self, scenario: Scenario) -> Result<
        ResolvedData,
        ResolutionError,
    > {
        match spec_find_day(self.entries@, scenario.spec_puzzle().spec_day()) {
            None => Err(ResolutionError::Puzzle),
            Some(manifest) => manifest.spec_resolution(scenario),
        }
    }

    /// Resolves the input text and expected solution for `scenario` against
    /// the whole manifest.
    pub fn resolve(&self, scenario: Scenario) -> (r: Result<ScenarioData, ResolutionError>)
        ensures
            match r {
                Ok(data) => self.spec_resolve(scenario) == Ok::<ResolvedData, ResolutionError>(
                    (data.input@, data.solution.deep_view()),
                ),
                Err(error) => self.spec_resolve(scenario) == Err::<ResolvedData, ResolutionError>(
                    error,
                ),
            },
    {
        let puzzle = scenario.puzzle();
        match self.get(Day::from(puzzle)) {
            None => Err(ResolutionError::Puzzle),
            Some(manifest) => manifest.data_for_scenario(scenario),
        }
    }
}

/// When a day is not found, no entry carries it.
proof fn lemma_find_day_none_means_absent(entries: Seq<(Day, DayManifest)>, day: Day)
    requires
        spec_find_day(entries, day) is None,
    ensures
        forall|i: int| 0 <= i < entries.len() ==> entries[i].0 != day,
    decreases entries.len(),
{
    if entries.len() > 0 {
        assert(entries.skip(1).len() == entries.len() - 1);
        lemma_find_day_none_means_absent(entries.skip(1), day);
        assert forall|i: int| 0 <= i < entries.len() implies entries[i].0 != day by {
            if i > 0 {
                assert(entries.skip(1)[i - 1] == entries[i]);
            }
        }
    }
}

/// A source of day manifests, supplied by the embedding application.
pub trait ManifestProvider {
    /// Produces the manifest recorded for `day`, or an account of why none
    /// could be retrieved.
    fn get_manifest(day: Day) -> Result<DayManifest, String>;
}

/// Day-level fallback: a graded puzzle with no puzzle-level input override
/// resolves to the day-level input text, when the part exists and the day
/// input is present.
pub proof fn lemma_day_input_fallback(manifest: DayManifest, scenario: Scenario)
    requires
        scenario is Puzzle,
        1 <= scenario.spec_puzzle().part <= manifest.parts@.len(),
        manifest.parts@[scenario.spec_puzzle().part - 1].input is None,
        manifest.input is Some,
    ensures
        manifest.spec_resolution(scenario) == Ok::<ResolvedData, ResolutionError>(
            (
                manifest.input->0@,
                manifest.parts@[scenario.spec_puzzle().part - 1].solution.deep_view(),
            ),
        ),
{
}

/// Examples never fall back: a resolved example yields exactly its own
/// input and solution, whatever the day-level and puzzle-level inputs say.
pub proof fn lemma_example_never_falls_back(manifest: DayManifest, scenario: Scenario)
    requires
        scenario matches Scenario::Example { puzzle, number },
        1 <= scenario.spec_puzzle().part <= manifest.parts@.len(),
    ensures
        ({
            let part = manifest.parts@[scenario.spec_puzzle().part - 1];
            let number = scenario->number;
            if 1 <= number <= part.examples@.len() {
                manifest.spec_resolution(scenario) == Ok::<ResolvedData, ResolutionError>(
                    (
                        part.examples@[number - 1].input@,
                        part.examples@[number - 1].solution.deep_view(),
                    ),
                )
            } else {
                manifest.spec_resolution(scenario) == Err::<ResolvedData, ResolutionError>(
                    ResolutionError::Puzzle,
                )
            }
        }),
{
}

} // verus!
