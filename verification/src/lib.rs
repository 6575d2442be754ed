//! A harness that runs and verifies puzzle solver functions against a
//! layered manifest of inputs and expected answers, selecting the work set
//! with a compact scope expression and classifying each outcome.

mod clock;
mod execute;
mod manifest;
mod puzzles;
mod registry;
mod scope;
mod solving;
mod text;

pub use execute::day_scenarios;
pub use execute::enumerate;
pub use execute::execute_day;
pub use execute::lemma_enumerated_scenarios_resolve;
pub use execute::lemma_histogram_total;
pub use execute::run_all;
pub use execute::scenarios_for_puzzle;
pub use execute::spec_batch_outcome_at;
pub use execute::spec_count_status;
pub use execute::spec_day_scenarios;
pub use execute::spec_day_scenarios_upto;
pub use execute::spec_enumerate;
pub use execute::spec_enumerate_upto;
pub use execute::spec_scenarios_for_puzzle;
pub use execute::summarize;
pub use execute::Summary;
pub use manifest::lemma_day_input_fallback;
pub use manifest::lemma_example_never_falls_back;
pub use manifest::spec_find_day;
pub use manifest::DataManifest;
pub use manifest::DayManifest;
pub use manifest::Example;
pub use manifest::ManifestProvider;
pub use manifest::PuzzleManifest;
pub use manifest::ResolvedData;
pub use manifest::ScenarioData;
pub use puzzles::spec_display_day;
pub use puzzles::spec_display_scenario;
pub use puzzles::spec_parse_day;
pub use puzzles::Day;
pub use puzzles::Puzzle;
pub use puzzles::Scenario;
pub use registry::solver_total;
pub use registry::spec_days_in_scope;
pub use registry::spec_days_of;
pub use registry::spec_find_solver;
pub use registry::spec_unique_days;
pub use registry::SolverRegistry;
pub use scope::is_all_token;
pub use scope::lemma_all_scope_contains_everything;
pub use scope::lemma_scope_display_parse_round_trip;
pub use scope::spec_display_scope;
pub use scope::spec_parse_scope;
pub use scope::ExecutionOptions;
pub use scope::Scope;
pub use solving::lemma_run_deterministic;
pub use solving::lemma_verify_deterministic;
pub use solving::normalize;
pub use solving::normalized;
pub use solving::normalized_eq;
pub use solving::outputs_agree;
pub use solving::solver_may_return;
pub use solving::solver_pure;
pub use solving::spec_run_classification;
pub use solving::spec_scenario_outcome;
pub use solving::spec_verify_classification;
pub use solving::Error;
pub use solving::Result;
pub use solving::SolverResult;
pub use solving::ResolutionError;
pub use solving::Statistics;
pub use solving::Status;
pub use text::dec_digits;
pub use text::dec_digits_pad;
pub use text::digits_part;
pub use text::digits_val;
pub use text::first_dash;
pub use text::format_duration;
pub use text::is_uint_token;
pub use text::spec_format_duration;
pub use text::uint_token_val;
