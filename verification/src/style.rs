//! Plain style data the window layer renders from.

use vstd::prelude::*;

verus! {

/// The fill color of an icon, as red, green and blue channels.
pub struct SvgStyleSheet {
    pub r: u8,
    pub g: u8,
    pub b: u8,
}

impl SvgStyleSheet {
    /// Builds the style from its three channels.
    pub fn new(r: u8, g: u8, b: u8) -> (s: SvgStyleSheet)
        ensures
            s.r == r && s.g == g && s.b == b,
    {
        SvgStyleSheet { r, g, b }
    }
}

} // verus!
