//! Visual style of a banner: optional foreground and background colors and
//! text attributes, applied to a line as ANSI SGR escape sequences.

use vstd::prelude::*;
use crate::utils::{escape_free, lemma_styled_width_eq, line_width_spec, sgr_wrapped};

verus! {

/// A color, as a red/green/blue triple.
#[derive(Debug, Clone, Copy, PartialEq, Eq, Structural)]
pub enum Color {
    Rgb(u8, u8, u8),
}

/// Builds an RGB color.
pub fn rgb(r: u8, g: u8, b: u8) -> (c: Color)
    ensures
        c == Color::Rgb(r, g, b),
{
    Color::Rgb(r, g, b)
}

/// Text attributes a style can carry.
#[derive(Debug, Clone, Copy, PartialEq, Eq, Structural, Hash)]
pub enum Attribute {
    Bold,
    Italic,
    Underline,
}

/// The visual style of a banner.  A value type: applying it to a line is a
/// pure string transform, safe to reuse across frames.
#[derive(Debug, Clone, Copy, Default)]
pub struct Style {
    /// Foreground color, if any.
    pub foreground: Option<Color>,
    /// Background color, if any.
    pub background: Option<Color>,
    /// Whether the text is bold.
    pub bold: bool,
    /// Whether the text is italic.
    pub italic: bool,
    /// Whether the text is underlined.
    pub underline: bool,
}

/// Holds when the style sets nothing, so that applying it leaves a line
/// unchanged.
pub open spec fn is_plain(s: Style) -> bool {
    s.foreground is None && s.background is None && !s.bold && !s.italic && !s.underline
}

/// The line `text` decorated with the escape sequences of `style`, as the
/// styling engine produces it.
pub uninterp spec fn styled_of(style: Style, text: Seq<char>) -> Seq<char>;

/// Relies on owo_colors' `Style`: formatting a styled value writes one SGR
/// prefix, the unchanged text, then the reset suffix `ESC [ 0 m`, and
/// writes the text alone when the style sets nothing (dyn_styles.rs,
/// `fmt_prefix` and `fmt_suffix`).  The result depends on the style's
/// settings and the text alone.
#[verifier::external_body]
fn apply_owo(style: &Style, text: &str) -> (r: String)
    ensures
        r@ == styled_of(*style, text@),
        sgr_wrapped(r@, text@),
        is_plain(*style) ==> r@ == text@,
{
    let mut o = owo_colors::Style::new();
    if let Some(Color::Rgb(r, g, b)) = style.foreground { o = o.truecolor(r, g, b); }
    if let Some(Color::Rgb(r, g, b)) = style.background { o = o.on_truecolor(r, g, b); }
    if style.bold { o = o.bold(); }
    if style.italic { o = o.italic(); }
    if style.underline { o = o.underline(); }
    format!("{}", owo_colors::OwoColorize::style(&text, o))
}

impl Style {
    /// A style that sets nothing.
    pub fn new() -> (s: Self)
        ensures
            is_plain(s),
    {
        Self { foreground: None, background: None, bold: false, italic: false, underline: false }
    }

    /// Sets the foreground color.
    pub fn fg(self, color: Color) -> (s: Self)
        ensures
            s.foreground == Some(color),
            s.background == self.background,
            s.bold == self.bold,
            s.italic == self.italic,
            s.underline == self.underline,
    {
        Self { foreground: Some(color), ..self }
    }

    /// Sets the background color.
    pub fn bg(self, color: Color) -> (s: Self)
        ensures
            s.foreground == self.foreground,
            s.background == Some(color),
            s.bold == self.bold,
            s.italic == self.italic,
            s.underline == self.underline,
    {
        Self { background: Some(color), ..self }
    }

    /// Turns bold text on.
    pub fn bold(self) -> (s: Self)
        ensures
            s.foreground == self.foreground,
            s.background == self.background,
            s.bold,
            s.italic == self.italic,
            s.underline == self.underline,
    {
        Self { bold: true, ..self }
    }

    /// Turns italic text on.
    pub fn italic(self) -> (s: Self)
        ensures
            s.foreground == self.foreground,
            s.background == self.background,
            s.bold == self.bold,
            s.italic,
            s.underline == self.underline,
    {
        Self { italic: true, ..self }
    }

    /// Turns underlined text on.
    pub fn underline(self) -> (s: Self)
        ensures
            s.foreground == self.foreground,
            s.background == self.background,
            s.bold == self.bold,
            s.italic == self.italic,
            s.underline,
    {
        Self { underline: true, ..self }
    }

    /// Whether the style carries the given attribute.
    pub fn has_attribute(&self, attribute: Attribute) -> (b: bool)
        ensures
            b == match attribute {
                Attribute::Bold => self.bold,
                Attribute::Italic => self.italic,
                Attribute::Underline => self.underline,
            },
    {
        match attribute {
            Attribute::Bold => self.bold,
            Attribute::Italic => self.italic,
            Attribute::Underline => self.underline,
        }
    }

    /// Decorates one line with this style's escape sequences.
    ///
    /// The decorated line is the raw line wrapped in SGR sequences — or the
    /// raw line itself when the style sets nothing — so its measured
    /// display width equals that of the raw line.
    pub fn apply(&self, text: &str) -> (r: String)
        ensures
            r@ == styled_of(*self, text@),
            sgr_wrapped(r@, text@),
            is_plain(*self) ==> r@ == text@,
            escape_free(text@) ==> line_width_spec(r@) == line_width_spec(text@),
    {
        let r = apply_owo(self, text);
        proof {
            if escape_free(text@) {
                lemma_styled_width_eq(r@, text@);
            }
        }
        r
    }
}

} // verus!
