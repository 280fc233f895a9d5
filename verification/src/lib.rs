//! Line-oriented text search: locating a pattern inside each line of a text,
//! choosing which surrounding lines accompany a match, and rendering the
//! result with the matched ranges emphasized.
//!
//! A run goes through the modules in this order. [`run`] resolves the
//! configuration and the pattern ([`pattern`]), splits the text into lines
//! ([`lines`]) and hands them to the search driver ([`driver`]). The driver
//! scans every line once: it asks the pattern whether the line matches and
//! where ([`literal`], [`regex_engine`], [`casefold`], [`range`]), renders a
//! matched line ([`render`], [`style`], [`label`]), and selects the lines
//! that go with it ([`select`], [`indent`], [`accumulator`]). What comes
//! out is a sequence of records ([`record`]) for the caller to print.
//!
//! Texts are handled as `str` and `String`; the byte ranges of matches are
//! offsets into their UTF-8 encoding ([`text`], [`utf8_facts`]).

pub mod accumulator;
pub mod casefold;
pub mod driver;
pub mod indent;
pub mod label;
pub mod lines;
pub mod literal;
mod paint;
pub mod pattern;
pub mod range;
pub mod record;
pub mod regex_engine;
pub mod render;
pub mod run;
pub mod select;
pub mod style;
pub mod text;
pub mod utf8_facts;
