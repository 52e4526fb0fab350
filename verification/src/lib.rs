//! Parser for Git's color configuration syntax.
//!
//! A style specification is a whitespace-separated list of tokens: at most
//! two color tokens (foreground first, then background) and any number of
//! attribute keywords (`bold`/`nobold`, `dim`/`nodim`, `ul`/`noul`,
//! `blink`/`noblink`, `reverse`/`noreverse`). A color token is a color name
//! (`black`, `red`, ...), a 256-color palette index (`0`..`255`), a hex
//! literal (`#RRGGBB`), or the "no color" sentinel `normal` / `-1`, which
//! consumes a color slot without storing a color.

use vstd::prelude::*;

pub mod laws;
pub mod model;
mod parser;
mod resolver;
mod style;

pub use parser::parse;
pub use parser::Error;
pub use resolver::resolve;
pub use style::Color;
pub use style::ColorResolution;
pub use style::Style;

verus! {

/// The default style: no colors, no attributes set.
pub open spec fn default_style() -> Style {
    Style {
        foreground: None,
        background: None,
        bold: false,
        dim: false,
        underline: false,
        blink: false,
        reverse: false,
    }
}

} // verus!
