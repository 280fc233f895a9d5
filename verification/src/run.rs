//! One run of the tool, from the resolved configuration and the text that
//! was read to the records to print and the status to exit with.

use vstd::prelude::*;
use vstd::string::*;
use crate::driver::{is_output, search, SearchConfig};
use crate::lines::{lines_of, split_lines};
use crate::pattern::{MatchError, PatternKind, PatternSpec, PatternView};
use crate::record::OutputRecord;
use crate::regex_engine::regex_accepts;
use crate::select::OutputMode;
use crate::style::StyleSpec;

verus! {

/// The configuration of a run as the command line gives it.
#[derive(Debug, PartialEq, Eq)]
pub struct RunConfig {
    /// The text of the pattern.
    pub pattern: String,
    /// How the text of the pattern is read.
    pub kind: PatternKind,
    /// Case is ignored.
    pub insensitive: bool,
    /// The emphasis given to matches.
    pub style: StyleSpec,
    /// Lines are shown with their number.
    pub line_numbers: bool,
    /// The number of lines shown in front of a match.
    pub before: usize,
    /// The number of lines shown behind a match.
    pub after: usize,
    /// The section of each match is shown.
    pub section: bool,
    /// The number of columns that a tab counts for.
    pub tab_width: usize,
}

/// What a run that found its pattern valid hands back.
#[derive(Debug, PartialEq, Eq)]
pub struct Report {
    /// The lines to print, in order.
    pub records: Vec<OutputRecord>,
    /// Sections were asked for together with context lines, and the context
    /// lines were dropped: the caller owes the user a warning.
    pub conflict: bool,
}

/// How a run ended.
#[derive(Clone, Copy, Debug, PartialEq, Eq, Structural)]
pub enum RunStatus {
    /// The search ran.
    Success,
    /// The run failed for a reason other than its pattern, such as an input
    /// that could not be read.
    Failure,
    /// The pattern is no valid regular expression.
    InvalidPattern,
}

/// Sections and context lines were asked for together.
pub open spec fn conflicting(section: bool, before: int, after: int) -> bool {
    section && (before != 0 || after != 0)
}

/// The output mode that the flags amount to. Sections take precedence over
/// context lines.
pub open spec fn resolved_mode(section: bool, before: usize, after: usize, tab_width: usize)
    -> OutputMode {
    if section {
        OutputMode::Section { tab_width }
    } else if before == 0 && after == 0 {
        OutputMode::Plain
    } else {
        OutputMode::Context { before, after }
    }
}

/// The pattern that a configuration asks for.
pub open spec fn pattern_of(config: RunConfig) -> PatternView {
    PatternView { kind: config.kind, text: config.pattern@, case_insensitive: config.insensitive }
}

/// The search that a configuration asks for.
pub open spec fn search_of(config: RunConfig) -> SearchConfig {
    SearchConfig {
        mode: resolved_mode(config.section, config.before, config.after, config.tab_width),
        line_numbers: config.line_numbers,
        style: config.style,
    }
}

/// The status with which a process exits.
pub open spec fn exit_code_of(status: RunStatus) -> int {
    match status {
        RunStatus::Success => 0,
        RunStatus::Failure => 1,
        RunStatus::InvalidPattern => 2,
    }
}

/// `outcome` is what running the search that `config` asks for hands back
/// for `content`: the error, and no record at all, exactly if the pattern
/// is a regular expression that does not compile; else the records of the
/// search.
pub open spec fn is_outcome(
    config: RunConfig,
    content: Seq<char>,
    outcome: Result<Report, MatchError>,
) -> bool {
    match outcome {
        Ok(report) => {
            &&& config.kind == PatternKind::Regex ==> regex_accepts(pattern_of(config).needle())
            &&& report.conflict == conflicting(
                config.section,
                config.before as int,
                config.after as int,
            )
            &&& is_output(pattern_of(config), search_of(config), lines_of(content), report.records@)
        },
        Err(MatchError::InvalidPattern { pattern }) => {
            &&& config.kind == PatternKind::Regex
            &&& !regex_accepts(pattern_of(config).needle())
            &&& pattern@ == pattern_of(config).needle()
        },
    }
}

/// How a run ended, from what it handed back.
pub open spec fn status_from(outcome: Result<Report, MatchError>) -> RunStatus {
    match outcome {
        Ok(_) => RunStatus::Success,
        Err(MatchError::InvalidPattern { .. }) => RunStatus::InvalidPattern,
    }
}

/// A regular expression that does not compile ends the run with the status
/// kept for it, whatever the input holds, and without a record.
pub proof fn lemma_invalid_pattern_ends_run(
    config: RunConfig,
    content: Seq<char>,
    outcome: Result<Report, MatchError>,
)
    requires
        is_outcome(config, content, outcome),
        config.kind == PatternKind::Regex,
        !regex_accepts(pattern_of(config).needle()),
    ensures
        outcome is Err,
        exit_code_of(status_from(outcome)) == 2,
{
}

/// A run ends with the status kept for an invalid pattern only if its
/// pattern is a regular expression that does not compile.
pub proof fn lemma_exit_status_tells_cause(
    config: RunConfig,
    content: Seq<char>,
    outcome: Result<Report, MatchError>,
)
    requires
        is_outcome(config, content, outcome),
    ensures
        exit_code_of(status_from(outcome)) == 2 <==> config.kind == PatternKind::Regex
            && !regex_accepts(pattern_of(config).needle()),
        exit_code_of(status_from(outcome)) == 0 <==> outcome is Ok,
{
}

/// Resolves the output mode from the flags, and tells whether sections and
/// context lines were asked for together, in which case the context lines
/// are dropped.
pub fn resolve_mode(section: bool, before: usize, after: usize, tab_width: usize) -> (resolved: (
    OutputMode,
    bool,
))
    ensures
        resolved.0 == resolved_mode(section, before, after, tab_width),
        resolved.1 == conflicting(section, before as int, after as int),
{
    if section {
        (OutputMode::Section { tab_width }, before != 0 || after != 0)
    } else if before == 0 && after == 0 {
        (OutputMode::Plain, false)
    } else {
        (OutputMode::Context { before, after }, false)
    }
}

/// The warning owed to the user when sections and context lines were asked
/// for together.
pub fn conflict_warning() -> (text: &'static str)
    ensures
        text@ == "Section is not compatible with after and or before. Ignoring After and or Before."@,
{
    "Section is not compatible with after and or before. Ignoring After and or Before."
}

/// Runs one search over `content`. The pattern is resolved first, once: if
/// it is no valid regular expression the run ends there, with the error and
/// without a single record. Else the content is split into lines and
/// searched.
pub fn run(config: &RunConfig, content: &str) -> (outcome: Result<Report, MatchError>)
    ensures
        is_outcome(*config, content@, outcome),
{
    let pattern = match PatternSpec::new(config.kind, config.pattern.as_str(), config.insensitive) {
        Ok(pattern) => pattern,
        Err(error) => {
            return Err(error);
        },
    };
    let resolved = resolve_mode(config.section, config.before, config.after, config.tab_width);
    let search_config = SearchConfig {
        mode: resolved.0,
        line_numbers: config.line_numbers,
        style: config.style,
    };
    let lines = split_lines(content);
    let records = search(&lines, &pattern, &search_config);
    Ok(Report { records, conflict: resolved.1 })
}

/// How a run ended, from what it handed back.
pub fn status_of(outcome: &Result<Report, MatchError>) -> (status: RunStatus)
    ensures
        status == status_from(*outcome),
{
    match outcome {
        Ok(_) => RunStatus::Success,
        Err(MatchError::InvalidPattern { .. }) => RunStatus::InvalidPattern,
    }
}

/// The status with which the process exits: 0 after a search, 2 for a
/// pattern that is no valid regular expression, 1 for any other failure.
pub fn exit_code(status: RunStatus) -> (code: u8)
    ensures
        code == exit_code_of(status),
{
    match status {
        RunStatus::Success => 0,
        RunStatus::Failure => 1,
        RunStatus::InvalidPattern => 2,
    }
}

} // verus!
