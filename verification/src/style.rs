//! Styles: a color-producing fill plus five tri-state text attributes.

use crate::color::Color;
use vstd::prelude::*;

verus! {

/// How a style colors text: not at all, one solid color, a linear
/// gradient between two colors, or a rainbow hue sweep.  The phases are
/// fixed-point angles in units of `crate::phase::SCALE`.
#[derive(Debug, Clone, Copy, PartialEq, Eq, Structural)]
pub enum Fill {
    Unset,
    Solid(Color),
    Gradient { start: Color, end: Color, phase: u32 },
    Rainbow { phase: u32, reverse: bool },
}

/// One entry of the style stack.  The attribute fields are tri-state:
/// `None` means "inherit/unspecified" and `Some(true)` means "explicitly
/// on"; there is no explicit "off" — an attribute reads as off only when
/// no enclosing scope ever turned it on.
#[derive(Debug, Clone, Copy)]
pub struct Style {
    pub fill: Fill,
    pub bold: Option<bool>,
    pub italic: Option<bool>,
    pub underlined: Option<bool>,
    pub strikethrough: Option<bool>,
    pub obfuscated: Option<bool>,
}

/// The root style: no fill, every attribute unset.
pub open spec fn default_style() -> Style {
    Style {
        fill: Fill::Unset,
        bold: None,
        italic: None,
        underlined: None,
        strikethrough: None,
        obfuscated: None,
    }
}

impl Style {
    /// The root style: no fill, every attribute unset.
    pub fn default() -> (s: Style)
        ensures
            s == default_style(),
    {
        Style {
            fill: Fill::Unset,
            bold: None,
            italic: None,
            underlined: None,
            strikethrough: None,
            obfuscated: None,
        }
    }
}

} // verus!
