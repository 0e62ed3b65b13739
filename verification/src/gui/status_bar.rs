//! The status bars at the top and bottom of the graphical front end.
use vstd::prelude::*;

verus! {

/// A status line: its text and whether it is the top bar.
#[derive(Debug, Clone)]
pub struct StatusBar {
    pub text: String,
    pub is_top: bool,
}

impl StatusBar {
    /// A bar showing `text`, at the top or at the bottom.
    pub fn new(text: String, is_top: bool) -> (r: Self)
        ensures
            r.text@ == text@,
            r.is_top == is_top,
    {
        StatusBar { text, is_top }
    }

    /// Background colour as 0xRRGGBB: grey for the top bar, dark blue for the bottom one.
    pub fn background_color(&self) -> (r: u32)
        ensures
            r == if self.is_top {
                0x4A4A4Au32
            } else {
                0x1E3A5Fu32
            },
    {
        if self.is_top {
            0x4A4A4A
        } else {
            0x1E3A5F
        }
    }

    /// Text colour as 0xRRGGBB.
    pub fn text_color(&self) -> (r: u32)
        ensures
            r == 0xCCCCCCu32,
    {
        0xCCCCCC
    }
}

} // verus!
