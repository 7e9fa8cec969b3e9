use bitmap_font_sheet::chars::{get_unique_chinese_chars, is_punctuation_mark, is_sheet_char, sorted_unique};
use bitmap_font_sheet::config::Config;
use bitmap_font_sheet::placement::{
    get_chinese_punctuation_offset, glyph_offset, horizontal_offset, vertical_offset, GlyphRaster,
    CHAR_SIZE,
};
use bitmap_font_sheet::sheet::{canvas_size, missing_glyphs, render_sheet, Canvas, SheetError};

const MARKS: [char; 32] = [
    '·', '—', '‘', '’', '“', '”', '…', '、', '。', '〈', '〉', '《', '》', '「', '」', '『', '』',
    '【', '】', '〔', '〕', '︰', '！', '（', '）', '，', '．', '：', '；', '？', '［', '］',
];

fn dot() -> GlyphRaster {
    GlyphRaster { width: 1, height: 1, h_bearing: 0, v_bearing: 0, lit: vec![(0, 0)] }
}

fn is_blank_cell(c: &Canvas, col: u32, row: u32, size: u32, bg: [u8; 3]) -> bool {
    for y in row * size..(row + 1) * size {
        for x in col * size..(col + 1) * size {
            if c.get_pixel(x, y) != bg {
                return false;
            }
        }
    }
    true
}

#[test]
fn extraction_sorts_by_code_point() {
    assert_eq!(get_unique_chinese_chars("日。你"), vec!['。', '你', '日']);
}

#[test]
fn extraction_drops_duplicates_whitespace_and_latin() {
    let r = get_unique_chinese_chars("你 好，你好！ abc\n日×\t〈");
    assert_eq!(r, vec!['〈', '你', '好', '日', '！', '，']);
    for w in r.windows(2) {
        assert!((w[0] as u32) < (w[1] as u32));
    }
}

#[test]
fn extraction_of_empty_and_ascii_text_is_empty() {
    assert!(get_unique_chinese_chars("").is_empty());
    assert!(get_unique_chinese_chars("hello, world! 123").is_empty());
}

#[test]
fn extraction_twice_gives_the_same() {
    let text = "天地玄黄，宇宙洪荒。日月盈昃，辰宿列张。";
    assert_eq!(get_unique_chinese_chars(text), get_unique_chinese_chars(text));
}

#[test]
fn sorted_unique_merges_repeats() {
    assert_eq!(sorted_unique(&vec!['b', 'a', 'b', 'c', 'a']), vec!['a', 'b', 'c']);
    assert!(sorted_unique(&vec![]).is_empty());
}

#[test]
fn sheet_chars_follow_classifier_and_marks() {
    assert!(is_sheet_char('你'));
    assert!(is_sheet_char('·'));
    assert!(is_sheet_char('〈'));
    assert!(is_sheet_char('㐀'));
    assert!(!is_sheet_char('a'));
    assert!(!is_sheet_char('×'));
    assert!(!is_sheet_char(' '));
    assert!(!is_sheet_char('\u{3000}'));
    assert!(is_punctuation_mark('］'));
    assert!(!is_punctuation_mark('你'));
}

#[test]
fn canvas_size_rounds_rows_up() {
    assert_eq!(canvas_size(3, 32, 10), Some((320, 10)));
    assert_eq!(canvas_size(32, 32, 10), Some((320, 10)));
    assert_eq!(canvas_size(33, 32, 11), Some((352, 22)));
    assert_eq!(canvas_size(64, 32, 11), Some((352, 22)));
    assert_eq!(canvas_size(65, 32, 10), Some((320, 30)));
    assert_eq!(canvas_size(1, usize::MAX, 10), None);
}

#[test]
fn horizontal_offset_boundary() {
    assert_eq!(CHAR_SIZE, 9);
    assert_eq!(horizontal_offset(7, 2), 1);
    assert_eq!(horizontal_offset(8, 2), 0);
    assert_eq!(horizontal_offset(6, 2), 2);
    assert_eq!(horizontal_offset(9, 0), 0);
    assert_eq!(horizontal_offset(5, -1), 0);
}

#[test]
fn vertical_offset_rules() {
    assert_eq!(vertical_offset(8, 2), 1);
    assert_eq!(vertical_offset(5, 3), 3);
    assert_eq!(vertical_offset(10, 0), 0);
    assert_eq!(vertical_offset(6, -2), 0);
}

#[test]
fn punctuation_table_covers_all_marks() {
    let hans: [(u32, u32); 32] = [
        (3, 4), (0, 4), (5, 0), (0, 0), (2, 0), (0, 0), (0, 4), (0, 6), (0, 5), (4, 0), (0, 0),
        (1, 0), (0, 0), (4, 0), (0, 2), (2, 0), (0, 2), (3, 0), (0, 0), (4, 0), (0, 0), (3, 1),
        (1, 0), (4, 0), (0, 0), (0, 5), (0, 6), (0, 1), (0, 1), (0, 0), (4, 0), (0, 0),
    ];
    let hant: [(u32, u32); 32] = [
        (3, 4), (0, 4), (5, 0), (0, 0), (2, 0), (0, 0), (0, 4), (3, 3), (2, 3), (4, 0), (0, 0),
        (1, 0), (0, 0), (4, 0), (0, 2), (2, 0), (0, 2), (3, 0), (0, 0), (4, 0), (0, 0), (3, 1),
        (3, 0), (4, 0), (0, 0), (3, 3), (3, 4), (3, 1), (3, 1), (1, 0), (4, 0), (0, 0),
    ];
    for (i, c) in MARKS.iter().enumerate() {
        assert!(is_punctuation_mark(*c));
        assert_eq!(get_chinese_punctuation_offset(*c, false), hans[i], "{}", c);
        assert_eq!(get_chinese_punctuation_offset(*c, true), hant[i], "{}", c);
    }
}

#[test]
fn glyph_offset_uses_table_for_marks_and_metrics_otherwise() {
    let g = GlyphRaster { width: 7, height: 8, h_bearing: 2, v_bearing: 2, lit: vec![] };
    assert_eq!(glyph_offset('。', &g, false), (0, 5));
    assert_eq!(glyph_offset('日', &g, false), (1, 1));
}

#[test]
fn default_config_values() {
    let c = Config::default();
    assert_eq!(c.img_bg_color, [45, 45, 45]);
    assert_eq!(c.char_color, [250, 250, 245]);
    assert_eq!(c.char_shadow_color, [110, 110, 110]);
    assert_eq!(c.chars_per_line, 32);
}

#[test]
fn three_characters_on_one_row() {
    let cfg = Config::default();
    let chars = get_unique_chinese_chars("日。你");
    assert_eq!(chars, vec!['。', '你', '日']);
    let glyphs = vec![Some(dot()), Some(dot()), Some(dot())];
    let c = render_sheet(&chars, &glyphs, 10, false, &cfg).unwrap();
    assert_eq!((c.width(), c.height()), (320, 10));
    // '。' sits at its table offset (0, 5) in cell 0.
    assert_eq!(c.get_pixel(0, 5), cfg.char_color);
    assert_eq!(c.get_pixel(0, 6), cfg.char_shadow_color);
    assert_eq!(c.get_pixel(1, 6), cfg.char_shadow_color);
    assert_eq!(c.get_pixel(1, 5), cfg.char_shadow_color);
    // '你' and '日' sit at their bearings (0, 0) in cells 1 and 2.
    assert_eq!(c.get_pixel(10, 0), cfg.char_color);
    assert_eq!(c.get_pixel(20, 0), cfg.char_color);
    assert_eq!(c.get_pixel(21, 0), cfg.char_shadow_color);
    assert!(is_blank_cell(&c, 3, 0, 10, cfg.img_bg_color));
}

#[test]
fn missing_glyph_leaves_blank_cell() {
    let cfg = Config::default();
    let chars = vec!['你', '好', '日'];
    let glyphs = vec![Some(dot()), None, Some(dot())];
    assert_eq!(missing_glyphs(&glyphs), vec![1]);
    let c = render_sheet(&chars, &glyphs, 10, false, &cfg).unwrap();
    assert!(is_blank_cell(&c, 1, 0, 10, cfg.img_bg_color));
    assert_eq!(c.get_pixel(0, 0), cfg.char_color);
    assert_eq!(c.get_pixel(20, 0), cfg.char_color);
}

#[test]
fn size_eleven_draws_full_halo_under_glyph() {
    let cfg = Config::default();
    let g = GlyphRaster {
        width: 2,
        height: 1,
        h_bearing: 0,
        v_bearing: 0,
        lit: vec![(0, 0), (1, 0)],
    };
    let c = render_sheet(&vec!['你'], &vec![Some(g)], 11, false, &cfg).unwrap();
    assert_eq!((c.width(), c.height()), (352, 11));
    assert_eq!(c.get_pixel(1, 1), cfg.char_color);
    assert_eq!(c.get_pixel(2, 1), cfg.char_color);
    for (x, y) in [(0, 0), (1, 0), (2, 0), (3, 0), (0, 1), (3, 1), (0, 2), (1, 2), (2, 2), (3, 2)] {
        assert_eq!(c.get_pixel(x, y), cfg.char_shadow_color, "({}, {})", x, y);
    }
    assert_eq!(c.get_pixel(4, 1), cfg.img_bg_color);
}

#[test]
fn wrapping_after_a_full_row() {
    let mut cfg = Config::default();
    cfg.chars_per_line = 2;
    let chars = vec!['一', '二', '三'];
    let glyphs = vec![Some(dot()), Some(dot()), Some(dot())];
    let c = render_sheet(&chars, &glyphs, 10, false, &cfg).unwrap();
    assert_eq!((c.width(), c.height()), (20, 20));
    assert_eq!(c.get_pixel(0, 10), cfg.char_color);
    assert!(is_blank_cell(&c, 1, 1, 10, cfg.img_bg_color));
}

#[test]
fn sheet_errors() {
    let cfg = Config::default();
    let one = vec!['你'];
    let g = vec![Some(dot())];
    assert_eq!(render_sheet(&one, &g, 12, false, &cfg).unwrap_err(), SheetError::UnsupportedSize);
    assert_eq!(render_sheet(&vec![], &vec![], 10, false, &cfg).unwrap_err(), SheetError::NoCharacters);
    let mut zero = Config::default();
    zero.chars_per_line = 0;
    assert_eq!(render_sheet(&one, &g, 10, false, &zero).unwrap_err(), SheetError::ZeroColumns);
    let mut wide = Config::default();
    wide.chars_per_line = usize::MAX;
    assert_eq!(render_sheet(&one, &g, 10, false, &wide).unwrap_err(), SheetError::TooLarge);
}
