//! Where a glyph's pixels go inside its cell: a fixed table for the
//! punctuation marks, and a rule on the glyph's metrics for everything else.

use vstd::prelude::*;
use crate::chars::{is_punctuation, is_punctuation_mark};

verus! {

/// The size in pixels of the square that holds a glyph's ink.
pub const CHAR_SIZE: u32 = 9;

/// A rasterized glyph in whole pixels: its bounding box, its side bearings
/// rounded up, and the pixels that the rasterizer lit, in drawing order and
/// relative to the bounding box.
#[derive(Clone, Debug)]
pub struct GlyphRaster {
    pub width: u32,
    pub height: u32,
    pub h_bearing: i32,
    pub v_bearing: i32,
    pub lit: Vec<(u32, u32)>,
}

/// The (horizontal, vertical) offset of each punctuation mark; some marks sit
/// elsewhere in traditional script than in simplified script.
pub open spec fn punctuation_offset(c: char, zh_hant: bool) -> (u32, u32) {
    if c == '·' { (3, 4) }
    else if c == '—' { (0, 4) }
    else if c == '‘' { (5, 0) }
    else if c == '’' { (0, 0) }
    else if c == '“' { (2, 0) }
    else if c == '”' { (0, 0) }
    else if c == '…' { (0, 4) }
    else if c == '、' { if zh_hant { (3, 3) } else { (0, 6) } }
    else if c == '。' { if zh_hant { (2, 3) } else { (0, 5) } }
    else if c == '〈' { (4, 0) }
    else if c == '〉' { (0, 0) }
    else if c == '《' { (1, 0) }
    else if c == '》' { (0, 0) }
    else if c == '「' { (4, 0) }
    else if c == '」' { (0, 2) }
    else if c == '『' { (2, 0) }
    else if c == '』' { (0, 2) }
    else if c == '【' { (3, 0) }
    else if c == '】' { (0, 0) }
    else if c == '〔' { (4, 0) }
    else if c == '〕' { (0, 0) }
    else if c == '︰' { (3, 1) }
    else if c == '！' { if zh_hant { (3, 0) } else { (1, 0) } }
    else if c == '（' { (4, 0) }
    else if c == '）' { (0, 0) }
    else if c == '，' { if zh_hant { (3, 3) } else { (0, 5) } }
    else if c == '．' { if zh_hant { (3, 4) } else { (0, 6) } }
    else if c == '：' { if zh_hant { (3, 1) } else { (0, 1) } }
    else if c == '；' { if zh_hant { (3, 1) } else { (0, 1) } }
    else if c == '？' { if zh_hant { (1, 0) } else { (0, 0) } }
    else if c == '［' { (4, 0) }
    else { (0, 0) }
}

/// `v` where it is not negative, else 0.
pub open spec fn clamp0(v: int) -> int {
    if v < 0 { 0 } else { v }
}

/// Horizontal offset of an ideograph of width `w` and rounded-up bearing `hb`:
/// glyphs that would overflow the cell ignore the bearing, glyphs that exactly
/// fill it while being narrower than it move one pixel left.
pub open spec fn h_offset_spec(w: int, hb: int) -> int {
    if w + hb > CHAR_SIZE {
        0
    } else if w < CHAR_SIZE && w + hb == CHAR_SIZE {
        hb - 1
    } else {
        clamp0(hb)
    }
}

/// Vertical offset of an ideograph of height `h` and rounded-up bearing `vb`:
/// glyphs that would overflow the cell are pushed to its bottom.
pub open spec fn v_offset_spec(h: int, vb: int) -> int {
    if h + vb > CHAR_SIZE {
        clamp0(CHAR_SIZE - h)
    } else {
        clamp0(vb)
    }
}

/// The offset of the glyph of `c` inside its cell.
pub open spec fn placement_spec(c: char, g: GlyphRaster, zh_hant: bool) -> (u32, u32) {
    if is_punctuation(c) {
        punctuation_offset(c, zh_hant)
    } else {
        (
            h_offset_spec(g.width as int, g.h_bearing as int) as u32,
            v_offset_spec(g.height as int, g.v_bearing as int) as u32,
        )
    }
}

/// The table offset of a punctuation mark.
pub fn get_chinese_punctuation_offset(c: char, is_zh_hant: bool) -> (r: (u32, u32))
    requires
        is_punctuation(c),
    ensures
        r == punctuation_offset(c, is_zh_hant),
{
    match c {
        '·' => (3, 4),
        '—' => (0, 4),
        '‘' => (5, 0),
        '’' => (0, 0),
        '“' => (2, 0),
        '”' => (0, 0),
        '…' => (0, 4),
        '、' => if is_zh_hant { (3, 3) } else { (0, 6) },
        '。' => if is_zh_hant { (2, 3) } else { (0, 5) },
        '〈' => (4, 0),
        '〉' => (0, 0),
        '《' => (1, 0),
        '》' => (0, 0),
        '「' => (4, 0),
        '」' => (0, 2),
        '『' => (2, 0),
        '』' => (0, 2),
        '【' => (3, 0),
        '】' => (0, 0),
        '〔' => (4, 0),
        '〕' => (0, 0),
        '︰' => (3, 1),
        '！' => if is_zh_hant { (3, 0) } else { (1, 0) },
        '（' => (4, 0),
        '）' => (0, 0),
        '，' => if is_zh_hant { (3, 3) } else { (0, 5) },
        '．' => if is_zh_hant { (3, 4) } else { (0, 6) },
        '：' => if is_zh_hant { (3, 1) } else { (0, 1) },
        '；' => if is_zh_hant { (3, 1) } else { (0, 1) },
        '？' => if is_zh_hant { (1, 0) } else { (0, 0) },
        '［' => (4, 0),
        '］' => (0, 0),
        _ => (0, 0),
    }
}

/// Horizontal offset of an ideograph from its width and rounded-up bearing.
pub fn horizontal_offset(width: u32, h_bearing: i32) -> (r: u32)
    ensures
        r as int == h_offset_spec(width as int, h_bearing as int),
{
    let sum: i64 = width as i64 + h_bearing as i64;
    if sum > CHAR_SIZE as i64 {
        0
    } else if width < CHAR_SIZE && sum == CHAR_SIZE as i64 {
        (h_bearing - 1) as u32
    } else if h_bearing < 0 {
        0
    } else {
        h_bearing as u32
    }
}

/// Vertical offset of an ideograph from its height and rounded-up bearing.
pub fn vertical_offset(height: u32, v_bearing: i32) -> (r: u32)
    ensures
        r as int == v_offset_spec(height as int, v_bearing as int),
{
    let sum: i64 = height as i64 + v_bearing as i64;
    if sum > CHAR_SIZE as i64 {
        if height > CHAR_SIZE {
            0
        } else {
            CHAR_SIZE - height
        }
    } else if v_bearing < 0 {
        0
    } else {
        v_bearing as u32
    }
}

/// The offset of the glyph `g` of `c` inside its cell.
pub fn glyph_offset(c: char, g: &GlyphRaster, is_zh_hant: bool) -> (r: (u32, u32))
    ensures
        r == placement_spec(c, *g, is_zh_hant),
{
    if is_punctuation_mark(c) {
        get_chinese_punctuation_offset(c, is_zh_hant)
    } else {
        (horizontal_offset(g.width, g.h_bearing), vertical_offset(g.height, g.v_bearing))
    }
}

/// At the boundary where width and bearing exactly fill the cell, a glyph
/// narrower than the cell moves one pixel left of its bearing; one pixel wider
/// in total and the bearing is dropped; one pixel narrower in total and the
/// bearing is kept.
pub proof fn lemma_horizontal_boundary(bw: int, hb: int)
    requires
        0 <= bw < CHAR_SIZE,
    ensures
        bw + hb == CHAR_SIZE ==> h_offset_spec(bw, hb) == hb - 1,
        bw + hb == CHAR_SIZE + 1 ==> h_offset_spec(bw, hb) == 0,
        bw + hb == CHAR_SIZE - 1 && hb >= 0 ==> h_offset_spec(bw, hb) == hb,
{
}

/// Every punctuation mark has an entry in the table, in both scripts: its
/// offsets stay inside the cell.
pub proof fn lemma_punctuation_offsets_in_cell(c: char, zh_hant: bool)
    requires
        is_punctuation(c),
    ensures
        punctuation_offset(c, zh_hant).0 < CHAR_SIZE,
        punctuation_offset(c, zh_hant).1 < CHAR_SIZE,
{
}

} // verus!
