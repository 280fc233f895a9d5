//! Emphasis: the color and the text attributes given to a match.

use vstd::prelude::*;
use vstd::string::*;
use crate::paint::{bold, italic, struck, tinted, underlined};
use crate::text::{embedded, lemma_embedded_further, lemma_embedded_in_itself};

verus! {

/// The foreground colors a match can be shown in.
#[derive(Clone, Copy, Debug, PartialEq, Eq, Structural)]
pub enum Color {
    Red,
    Green,
    Blue,
    Yellow,
    Magenta,
    Cyan,
    White,
    Black,
    BrightRed,
    BrightGreen,
    BrightBlue,
    BrightYellow,
    BrightMagenta,
    BrightCyan,
    BrightWhite,
}

/// The name under which the styling backend knows a color.
pub open spec fn color_name(color: Color) -> Seq<char> {
    match color {
        Color::Red => "red"@,
        Color::Green => "green"@,
        Color::Blue => "blue"@,
        Color::Yellow => "yellow"@,
        Color::Magenta => "magenta"@,
        Color::Cyan => "cyan"@,
        Color::White => "white"@,
        Color::Black => "black"@,
        Color::BrightRed => "bright red"@,
        Color::BrightGreen => "bright green"@,
        Color::BrightBlue => "bright blue"@,
        Color::BrightYellow => "bright yellow"@,
        Color::BrightMagenta => "bright magenta"@,
        Color::BrightCyan => "bright cyan"@,
        Color::BrightWhite => "bright white"@,
    }
}

impl Color {
    /// The name under which the styling backend knows this color.
    pub fn name(&self) -> (name: &'static str)
        ensures
            name@ == color_name(*self),
    {
        match self {
            Color::Red => "red",
            Color::Green => "green",
            Color::Blue => "blue",
            Color::Yellow => "yellow",
            Color::Magenta => "magenta",
            Color::Cyan => "cyan",
            Color::White => "white",
            Color::Black => "black",
            Color::BrightRed => "bright red",
            Color::BrightGreen => "bright green",
            Color::BrightBlue => "bright blue",
            Color::BrightYellow => "bright yellow",
            Color::BrightMagenta => "bright magenta",
            Color::BrightCyan => "bright cyan",
            Color::BrightWhite => "bright white",
        }
    }
}

/// How a match is emphasized: a color, and any of four text attributes.
#[derive(Clone, Copy, Debug, PartialEq, Eq, Structural)]
pub struct StyleSpec {
    pub color: Color,
    pub bold: bool,
    pub underline: bool,
    pub italic: bool,
    pub strike: bool,
}

impl Default for StyleSpec {
    /// Bold red.
    fn default() -> (style: StyleSpec)
        ensures
            style == (StyleSpec {
                color: Color::Red,
                bold: true,
                underline: false,
                italic: false,
                strike: false,
            }),
    {
        StyleSpec { color: Color::Red, bold: true, underline: false, italic: false, strike: false }
    }
}

/// One step of emphasis.
#[derive(Clone, Copy, Debug, PartialEq, Eq, Structural)]
pub enum Emphasis {
    Tint { color: Color },
    Bold,
    Underline,
    Italic,
    Strike,
}

/// The steps by which a style is applied, from the innermost to the
/// outermost: the color first, then each attribute that is asked for,
/// always in the order bold, underline, italic, strikethrough.
pub open spec fn emphasis_steps(style: StyleSpec) -> Seq<Emphasis> {
    seq![Emphasis::Tint { color: style.color }] + (if style.bold {
        seq![Emphasis::Bold]
    } else {
        Seq::empty()
    }) + (if style.underline {
        seq![Emphasis::Underline]
    } else {
        Seq::empty()
    }) + (if style.italic {
        seq![Emphasis::Italic]
    } else {
        Seq::empty()
    }) + (if style.strike {
        seq![Emphasis::Strike]
    } else {
        Seq::empty()
    })
}

impl StyleSpec {
    /// The steps by which this style is applied, innermost first.
    pub fn steps(&self) -> (steps: Vec<Emphasis>)
        ensures
            steps@ == emphasis_steps(*self),
    {
        let mut steps: Vec<Emphasis> = Vec::new();
        steps.push(Emphasis::Tint { color: self.color });
        if self.bold {
            steps.push(Emphasis::Bold);
        }
        if self.underline {
            steps.push(Emphasis::Underline);
        }
        if self.italic {
            steps.push(Emphasis::Italic);
        }
        if self.strike {
            steps.push(Emphasis::Strike);
        }
        assert(steps@ =~= emphasis_steps(*self));
        steps
    }
}

/// Applies one step of emphasis to `text`. What comes back depends on
/// whether the process is allowed to emit escape sequences; it holds all of
/// `text` either way.
fn apply(step: Emphasis, text: &str) -> (styled: String)
    ensures
        embedded(text@, styled@),
{
    match step {
        Emphasis::Tint { color } => tinted(text, color.name()),
        Emphasis::Bold => bold(text),
        Emphasis::Underline => underlined(text),
        Emphasis::Italic => italic(text),
        Emphasis::Strike => struck(text),
    }
}

/// Emphasizes `text` in `style`: each step of the style is applied to what
/// the step before it gave, so that the color lies innermost and the
/// attributes nest around it in their fixed order. Whatever the steps add,
/// the result holds all of `text`.
pub(crate) fn emphasize(text: &str, style: &StyleSpec) -> (styled: String)
    ensures
        embedded(text@, styled@),
{
    let steps = style.steps();
    let mut styled = text.to_owned();
    let mut k: usize = 0;
    proof {
        lemma_embedded_in_itself(text@);
    }
    while k < steps.len()
        invariant
            k <= steps.len(),
            embedded(text@, styled@),
        decreases steps.len() - k,
    {
        let ghost inner = styled@;
        styled = apply(steps[k], styled.as_str());
        proof {
            lemma_embedded_further(text@, inner, styled@);
        }
        k += 1;
    }
    styled
}

} // verus!
