//! The colors and the layout of the sheet.

use vstd::prelude::*;

verus! {

/// Background, glyph and shadow colors as RGB bytes, and the number of cells
/// in a row of the sheet.
#[derive(Clone, Debug, PartialEq, Eq)]
pub struct Config {
    pub img_bg_color: [u8; 3],
    pub char_color: [u8; 3],
    pub char_shadow_color: [u8; 3],
    pub chars_per_line: usize,
}

impl Default for Config {
    fn default() -> (r: Self)
        ensures
            r.img_bg_color@ == seq![45u8, 45, 45],
            r.char_color@ == seq![250u8, 250, 245],
            r.char_shadow_color@ == seq![110u8, 110, 110],
            r.chars_per_line == 32,
    {
        let r = Config {
            img_bg_color: [45, 45, 45],
            char_color: [250, 250, 245],
            char_shadow_color: [110, 110, 110],
            chars_per_line: 32,
        };
        assert(r.img_bg_color@ =~= seq![45u8, 45, 45]);
        assert(r.char_color@ =~= seq![250u8, 250, 245]);
        assert(r.char_shadow_color@ =~= seq![110u8, 110, 110]);
        r
    }
}

} // verus!
