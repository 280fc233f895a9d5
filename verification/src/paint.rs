//! Terminal styling: the `colored` crate. Whether it emits escape sequences
//! at all depends on where the process writes to and on how it was
//! started. In either case it writes out the text it was given, with
//! escape sequences in front of it, behind it and behind every reset
//! sequence inside it, or with none at all: it adds characters and takes
//! none away. That much, and no more, is stated of what these functions
//! return.

use vstd::prelude::*;
use vstd::string::*;
use crate::text::embedded;

verus! {

/// `colored::Colorize::color` on a `&str`, written out: `text` in the
/// foreground color that `color` names, or in white if it names none. The
/// result holds all of `text`.
#[verifier::external_body]
pub(crate) fn tinted(text: &str, color: &str) -> (styled: String)
    ensures
        embedded(text@, styled@),
{
    colored::Colorize::color(text, color).to_string()
}

/// `colored::Colorize::bold` on a `&str`, written out. The result holds
/// all of `text`.
#[verifier::external_body]
pub(crate) fn bold(text: &str) -> (styled: String)
    ensures
        embedded(text@, styled@),
{
    colored::Colorize::bold(text).to_string()
}

/// `colored::Colorize::underline` on a `&str`, written out. The result
/// holds all of `text`.
#[verifier::external_body]
pub(crate) fn underlined(text: &str) -> (styled: String)
    ensures
        embedded(text@, styled@),
{
    colored::Colorize::underline(text).to_string()
}

/// `colored::Colorize::italic` on a `&str`, written out. The result holds
/// all of `text`.
#[verifier::external_body]
pub(crate) fn italic(text: &str) -> (styled: String)
    ensures
        embedded(text@, styled@),
{
    colored::Colorize::italic(text).to_string()
}

/// `colored::Colorize::strikethrough` on a `&str`, written out. The result
/// holds all of `text`.
#[verifier::external_body]
pub(crate) fn struck(text: &str) -> (styled: String)
    ensures
        embedded(text@, styled@),
{
    colored::Colorize::strikethrough(text).to_string()
}

} // verus!
