//! The style descriptor produced by the parser: a color variant and a flat
//! record of foreground, background and attribute toggles.

use vstd::prelude::*;

use crate::model::set_bg;
use crate::model::set_blink;
use crate::model::set_bold;
use crate::model::set_dim;
use crate::model::set_fg;
use crate::model::set_reverse;
use crate::model::set_ul;

verus! {

/// A terminal color: one of the eight named ANSI colors, a 256-color
/// palette index, or a 24-bit RGB literal.
#[derive(Clone, Copy, Debug, PartialEq, Eq)]
pub enum Color {
    Black,
    Red,
    Green,
    Yellow,
    Blue,
    Magenta,
    Cyan,
    White,
    /// A 256-color palette index.
    Indexed(u8),
    /// A 24-bit color literal, written `#RRGGBB` in the source syntax.
    Rgb(u8, u8, u8),
}

/// A resolved terminal text style: optional foreground and background
/// colors plus five independent attribute toggles, all off by default.
#[derive(Clone, Copy, Debug, PartialEq, Eq)]
pub struct Style {
    pub foreground: Option<Color>,
    pub background: Option<Color>,
    pub bold: bool,
    pub dim: bool,
    pub underline: bool,
    pub blink: bool,
    pub reverse: bool,
}

/// Classification of a single word by the color-literal resolver: not a
/// color at all, the "no color" sentinel (`normal` / `-1`), or a resolved
/// color.
#[derive(Clone, Copy, Debug, PartialEq, Eq)]
pub enum ColorResolution {
    NotAColor,
    NoColor,
    ResolvedColor(Color),
}

impl Style {
    /// The default style: no colors, no attributes.
    pub fn new() -> (r: Style)
        ensures
            r == crate::default_style(),
    {
        Style {
            foreground: None,
            background: None,
            bold: false,
            dim: false,
            underline: false,
            blink: false,
            reverse: false,
        }
    }

    /// This style with the foreground set to `c`.
    pub fn fg(self, c: Color) -> (r: Style)
        ensures
            r == set_fg(self, c),
    {
        Style { foreground: Some(c), ..self }
    }

    /// This style with the background set to `c`.
    pub fn on(self, c: Color) -> (r: Style)
        ensures
            r == set_bg(self, c),
    {
        Style { background: Some(c), ..self }
    }

    /// This style with the bold attribute set to `b`.
    pub fn with_bold(self, b: bool) -> (r: Style)
        ensures
            r == set_bold(self, b),
    {
        Style { bold: b, ..self }
    }

    /// This style with the dim attribute set to `b`.
    pub fn with_dim(self, b: bool) -> (r: Style)
        ensures
            r == set_dim(self, b),
    {
        Style { dim: b, ..self }
    }

    /// This style with the underline attribute set to `b`.
    pub fn with_underline(self, b: bool) -> (r: Style)
        ensures
            r == set_ul(self, b),
    {
        Style { underline: b, ..self }
    }

    /// This style with the blink attribute set to `b`.
    pub fn with_blink(self, b: bool) -> (r: Style)
        ensures
            r == set_blink(self, b),
    {
        Style { blink: b, ..self }
    }

    /// This style with the reverse attribute set to `b`.
    pub fn with_reverse(self, b: bool) -> (r: Style)
        ensures
            r == set_reverse(self, b),
    {
        Style { reverse: b, ..self }
    }

    /// This style with the bold attribute turned on.
    pub fn bold(self) -> (r: Style)
        ensures
            r == set_bold(self, true),
    {
        self.with_bold(true)
    }

    /// This style with the dim attribute turned on.
    pub fn dimmed(self) -> (r: Style)
        ensures
            r == set_dim(self, true),
    {
        self.with_dim(true)
    }

    /// This style with the underline attribute turned on.
    pub fn underline(self) -> (r: Style)
        ensures
            r == set_ul(self, true),
    {
        self.with_underline(true)
    }

    /// This style with the blink attribute turned on.
    pub fn blink(self) -> (r: Style)
        ensures
            r == set_blink(self, true),
    {
        self.with_blink(true)
    }

    /// This style with the reverse attribute turned on.
    pub fn reverse(self) -> (r: Style)
        ensures
            r == set_reverse(self, true),
    {
        self.with_reverse(true)
    }
}

impl Color {
    /// A style whose foreground is this color, with no other settings.
    pub fn normal(self) -> (r: Style)
        ensures
            r == set_fg(crate::default_style(), self),
    {
        Style::new().fg(self)
    }

    /// A style with this color as foreground and `bg` as background.
    pub fn on(self, bg: Color) -> (r: Style)
        ensures
            r == set_bg(set_fg(crate::default_style(), self), bg),
    {
        Style::new().fg(self).on(bg)
    }
}

} // verus!
