//! Builds bitmap font sheets from the Chinese characters of a text: which
//! characters go on the sheet, where each glyph is placed inside its cell, and
//! which pixels of the sheet are painted.

pub mod chars;
pub mod placement;
pub mod config;
pub mod sheet;
