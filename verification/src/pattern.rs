//! Patterns: what is searched for, resolved once into a matcher that is
//! then applied to every line.

use vstd::prelude::*;
use vstd::string::*;
use vstd::utf8::*;
use crate::casefold::{fold, folded, lowercase_of};
use crate::literal::{
    contains_text, lemma_contains_iff_located, lemma_contains_text_iff_bytes,
    lemma_literal_ranges_exact, literal_contains, literal_locate, literal_ranges,
};
use crate::range::{fits, ordered_within, MatchRange};
use crate::regex_engine::{find_all, regex_accepts, regex_find_all, regex_is_match, regex_source};

verus! {

/// How the text of a pattern is read.
#[derive(Clone, Copy, Debug, PartialEq, Eq, Structural)]
pub enum PatternKind {
    /// A plain substring, no character of which has a special meaning.
    Literal,
    /// A regular expression.
    Regex,
}

/// Why a pattern cannot be searched for.
#[derive(Debug, PartialEq, Eq)]
pub enum MatchError {
    /// The text, as it would have been searched for, is no valid regular
    /// expression.
    InvalidPattern { pattern: String },
}

/// The diagnostic for a pattern that is no valid regular expression.
pub open spec fn invalid_pattern_message(pattern: Seq<char>) -> Seq<char> {
    "Pattern is not a valid regex:  "@ + pattern
}

impl MatchError {
    /// The diagnostic to show for this error, on one line.
    pub fn message(&self) -> (text: String)
        ensures
            text@ == match self {
                MatchError::InvalidPattern { pattern } => invalid_pattern_message(pattern@),
            },
    {
        match self {
            MatchError::InvalidPattern { pattern } => {
                let mut text = "Pattern is not a valid regex:  ".to_owned();
                text.append(pattern.as_str());
                text
            },
        }
    }
}

/// The mathematical content of a [`PatternSpec`].
pub struct PatternView {
    pub kind: PatternKind,
    pub text: Seq<char>,
    pub case_insensitive: bool,
}

impl PatternView {
    /// The text that is looked for in the prepared lines.
    pub open spec fn needle(self) -> Seq<char> {
        folded(self.text, self.case_insensitive)
    }

    /// The form in which `line` is searched.
    pub open spec fn haystack(self, line: Seq<char>) -> Seq<char> {
        folded(line, self.case_insensitive)
    }

    /// Whether the pattern matches in a line that is already prepared.
    pub open spec fn matches_prepared(self, haystack: Seq<char>) -> bool {
        match self.kind {
            PatternKind::Literal => contains_text(haystack, self.needle()),
            PatternKind::Regex => regex_is_match(self.needle(), haystack),
        }
    }

    /// The matches of the pattern in a line that is already prepared.
    pub open spec fn located_prepared(self, haystack: Seq<char>) -> Seq<MatchRange> {
        match self.kind {
            PatternKind::Literal => literal_ranges(
                encode_utf8(haystack),
                encode_utf8(self.needle()),
            ),
            PatternKind::Regex => regex_find_all(self.needle(), haystack),
        }
    }

    /// Whether the pattern matches in `line`.
    pub open spec fn matches(self, line: Seq<char>) -> bool {
        self.matches_prepared(self.haystack(line))
    }

    /// The matches of the pattern in `line`, as byte ranges of the form in
    /// which the line is searched.
    pub open spec fn located(self, line: Seq<char>) -> Seq<MatchRange> {
        self.located_prepared(self.haystack(line))
    }
}

/// Ignoring case amounts to searching the lower-cased line for the
/// lower-cased pattern with regard to case.
pub proof fn lemma_case_insensitive_is_lowercase(kind: PatternKind, text: Seq<char>, line: Seq<char>)
    ensures
        (PatternView { kind, text, case_insensitive: true }).matches(line) == (PatternView {
            kind,
            text: lowercase_of(text),
            case_insensitive: false,
        }).matches(lowercase_of(line)),
        (PatternView { kind, text, case_insensitive: true }).located(line) == (PatternView {
            kind,
            text: lowercase_of(text),
            case_insensitive: false,
        }).located(lowercase_of(line)),
{
}

/// The ranges located for a literal pattern do not overlap, are sorted by
/// strictly ascending start, and each spells, in the line as it was
/// searched, the pattern as it was searched for.
pub proof fn lemma_literal_located_exact(pattern: PatternView, line: Seq<char>)
    requires
        pattern.kind == PatternKind::Literal,
        encode_utf8(pattern.haystack(line)).len() <= usize::MAX,
    ensures
        ordered_within(pattern.located(line), encode_utf8(pattern.haystack(line)).len() as int),
        forall|j: int, k: int|
            0 <= j < k < pattern.located(line).len() ==> (#[trigger] pattern.located(
                line,
            )[j]).start < (#[trigger] pattern.located(line)[k]).start,
        forall|k: int|
            0 <= k < pattern.located(line).len() ==> encode_utf8(pattern.haystack(line)).subrange(
                (#[trigger] pattern.located(line)[k]).start as int,
                pattern.located(line)[k].end as int,
            ) == encode_utf8(pattern.needle()),
{
    lemma_literal_ranges_exact(encode_utf8(pattern.haystack(line)), encode_utf8(pattern.needle()));
}

/// A literal pattern matches in a line exactly if locating it in the line
/// reports a range.
pub proof fn lemma_literal_matches_iff_located(pattern: PatternView, line: Seq<char>)
    requires
        pattern.kind == PatternKind::Literal,
        encode_utf8(pattern.haystack(line)).len() <= usize::MAX,
    ensures
        pattern.matches(line) <==> pattern.located(line).len() > 0,
{
    encode_utf8_valid_utf8(pattern.haystack(line));
    encode_utf8_valid_utf8(pattern.needle());
    lemma_contains_text_iff_bytes(pattern.haystack(line), pattern.needle());
    lemma_contains_iff_located(
        encode_utf8(pattern.haystack(line)),
        encode_utf8(pattern.needle()),
    );
}

/// The matcher that a pattern resolves to, chosen once when the pattern is
/// made: the text to look for, or the compiled regular expression.
enum Matcher {
    Literal { needle: String },
    Regex { compiled: regex::Regex },
}

/// A pattern ready to be applied: its text, how the text is read, and
/// whether case is ignored. A regular expression is compiled when the
/// pattern is made, never while lines are searched.
///
/// Case is ignored by lower-casing both the pattern and each line before
/// they meet. The text of a regular expression is lower-cased as a whole,
/// its escapes and classes included. The ranges of the matches are offsets
/// into the lower-cased line; they carry over to the line itself only where
/// lower-casing left every character at its place, which it does for ASCII
/// text and need not for other text.
pub struct PatternSpec {
    text: String,
    case_insensitive: bool,
    matcher: Matcher,
}

impl View for PatternSpec {
    type V = PatternView;

    /// How the pattern was made.
    closed spec fn view(&self) -> PatternView {
        PatternView {
            kind: match self.matcher {
                Matcher::Literal { .. } => PatternKind::Literal,
                Matcher::Regex { .. } => PatternKind::Regex,
            },
            text: self.text@,
            case_insensitive: self.case_insensitive,
        }
    }
}

impl PatternSpec {
    /// The matcher is the one that the text of the pattern resolves to.
    #[verifier::type_invariant]
    spec fn well_formed(self) -> bool {
        match self.matcher {
            Matcher::Literal { needle } => needle@ == self@.needle(),
            Matcher::Regex { compiled } => regex_source(compiled) == self@.needle(),
        }
    }

    /// Resolves a pattern. A regular expression is compiled here, from the
    /// text as it will be searched for, and refused if it does not compile.
    pub fn new(kind: PatternKind, text: &str, case_insensitive: bool) -> (made: Result<
        PatternSpec,
        MatchError,
    >)
        ensures
            match made {
                Ok(pattern) => {
                    &&& pattern@ == (PatternView { kind, text: text@, case_insensitive })
                    &&& kind == PatternKind::Regex ==> regex_accepts(pattern@.needle())
                },
                Err(MatchError::InvalidPattern { pattern }) => {
                    &&& kind == PatternKind::Regex
                    &&& !regex_accepts(folded(text@, case_insensitive))
                    &&& pattern@ == folded(text@, case_insensitive)
                },
            },
    {
        let needle = fold(text, case_insensitive);
        match kind {
            PatternKind::Literal => Ok(
                PatternSpec {
                    text: text.to_owned(),
                    case_insensitive,
                    matcher: Matcher::Literal { needle },
                },
            ),
            PatternKind::Regex => match regex::Regex::new(needle.as_str()) {
                Ok(compiled) => Ok(
                    PatternSpec {
                        text: text.to_owned(),
                        case_insensitive,
                        matcher: Matcher::Regex { compiled },
                    },
                ),
                Err(_) => Err(MatchError::InvalidPattern { pattern: needle }),
            },
        }
    }

    /// How the text of the pattern is read.
    pub fn kind(&self) -> (kind: PatternKind)
        ensures
            kind == self@.kind,
    {
        match self.matcher {
            Matcher::Literal { .. } => PatternKind::Literal,
            Matcher::Regex { .. } => PatternKind::Regex,
        }
    }

    /// The text of the pattern as it was given.
    pub fn text(&self) -> (text: &str)
        ensures
            text@ == self@.text,
    {
        self.text.as_str()
    }

    /// Whether case is ignored.
    pub fn case_insensitive(&self) -> (yes: bool)
        ensures
            yes == self@.case_insensitive,
    {
        self.case_insensitive
    }

    /// Tells whether the pattern matches in a line that is already in the
    /// form in which it is searched.
    pub fn is_match_prepared(&self, haystack: &str) -> (found: bool)
        ensures
            found == self@.matches_prepared(haystack@),
    {
        proof {
            use_type_invariant(self);
        }
        match &self.matcher {
            Matcher::Literal { needle } => literal_contains(haystack, needle.as_str()),
            Matcher::Regex { compiled } => compiled.is_match(haystack),
        }
    }

    /// Locates the matches in a line that is already in the form in which it
    /// is searched. The ranges are in order and can be cut out of that line.
    pub fn locate_prepared(&self, haystack: &str) -> (ranges: Vec<MatchRange>)
        ensures
            ranges@ == self@.located_prepared(haystack@),
            fits(encode_utf8(haystack@), ranges@),
    {
        proof {
            use_type_invariant(self);
        }
        match &self.matcher {
            Matcher::Literal { needle } => literal_locate(haystack, needle.as_str()),
            Matcher::Regex { compiled } => find_all(compiled, haystack),
        }
    }

    /// Tells whether the pattern matches in `line`.
    pub fn is_match(&self, line: &str) -> (found: bool)
        ensures
            found == self@.matches(line@),
    {
        if self.case_insensitive {
            let haystack = fold(line, true);
            self.is_match_prepared(haystack.as_str())
        } else {
            self.is_match_prepared(line)
        }
    }

    /// Locates the matches of the pattern in `line`. Where case is ignored
    /// the ranges are offsets into the lower-cased line.
    pub fn locate(&self, line: &str) -> (ranges: Vec<MatchRange>)
        ensures
            ranges@ == self@.located(line@),
            fits(encode_utf8(self@.haystack(line@)), ranges@),
    {
        if self.case_insensitive {
            let haystack = fold(line, true);
            self.locate_prepared(haystack.as_str())
        } else {
            self.locate_prepared(line)
        }
    }
}

} // verus!
