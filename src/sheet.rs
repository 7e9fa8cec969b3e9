//! The sheet: a pixel canvas laid out as a grid of cells, one per character,
//! and the painting of each glyph with its shadow.

use vstd::prelude::*;
use crate::config::Config;
use crate::placement::{glyph_offset, placement_spec, GlyphRaster};
use vstd::arithmetic::div_mod::{lemma_fundamental_div_mod, lemma_mod_pos_bound};

verus! {

/// One pixel write: column, row and color.
pub type PixelWrite = (int, int, [u8; 3]);

/// `px`, a `w` by `h` row-major pixel grid, after the write `wr`; a write
/// outside the grid changes nothing.
pub open spec fn write_px(px: Seq<[u8; 3]>, w: int, h: int, wr: PixelWrite) -> Seq<[u8; 3]> {
    if 0 <= wr.0 < w && 0 <= wr.1 < h {
        px.update(wr.1 * w + wr.0, wr.2)
    } else {
        px
    }
}

/// `px` after the writes `ws`, in order.
pub open spec fn apply_writes(px: Seq<[u8; 3]>, w: int, h: int, ws: Seq<PixelWrite>) -> Seq<
    [u8; 3],
>
    decreases ws.len(),
{
    if ws.len() == 0 {
        px
    } else {
        write_px(apply_writes(px, w, h, ws.drop_last()), w, h, ws.last())
    }
}

proof fn lemma_apply_writes_push(px: Seq<[u8; 3]>, w: int, h: int, ws: Seq<PixelWrite>, wr: PixelWrite)
    ensures
        apply_writes(px, w, h, ws.push(wr)) == write_px(apply_writes(px, w, h, ws), w, h, wr),
{
    assert(ws.push(wr).drop_last() =~= ws);
}

/// Applying `a + b` is applying `a`, then `b`.
proof fn lemma_apply_writes_concat(
    px: Seq<[u8; 3]>,
    w: int,
    h: int,
    a: Seq<PixelWrite>,
    b: Seq<PixelWrite>,
)
    ensures
        apply_writes(px, w, h, a + b) == apply_writes(apply_writes(px, w, h, a), w, h, b),
    decreases b.len(),
{
    if b.len() == 0 {
        assert(a + b =~= a);
    } else {
        assert((a + b).drop_last() =~= a + b.drop_last());
        lemma_apply_writes_concat(px, w, h, a, b.drop_last());
    }
}

/// An RGB image of the `image` crate. Verus sees nothing inside it: what the
/// library knows of it is what the functions below state.
#[verifier::external_body]
#[derive(Debug)]
pub struct SheetImage(pub image::RgbImage);

/// The pixels of an RGB image, row by row.
pub uninterp spec fn image_pixels(img: SheetImage) -> Seq<[u8; 3]>;

/// The width of an RGB image.
pub uninterp spec fn image_width(img: SheetImage) -> nat;

/// The height of an RGB image.
pub uninterp spec fn image_height(img: SheetImage) -> nat;

/// Relies on `ImageBuffer::from_pixel`: a `width` by `height` image whose every
/// pixel is `color`. It panics only where three bytes a pixel overflow the
/// buffer's length.
#[verifier::external_body]
fn image_from_pixel(width: u32, height: u32, color: [u8; 3]) -> (r: SheetImage)
    requires
        3 * width * height <= isize::MAX,
    ensures
        image_width(r) == width,
        image_height(r) == height,
        image_pixels(r) == Seq::new((width * height) as nat, |i: int| color),
{
    SheetImage(image::RgbImage::from_pixel(width, height, image::Rgb(color)))
}

/// Relies on `ImageBuffer::put_pixel`: sets the pixel at column `x`, row `y`,
/// stored row by row; it panics outside the image.
#[verifier::external_body]
fn image_put_pixel(img: &mut SheetImage, x: u32, y: u32, color: [u8; 3])
    requires
        x < image_width(*old(img)),
        y < image_height(*old(img)),
    ensures
        image_width(*final(img)) == image_width(*old(img)),
        image_height(*final(img)) == image_height(*old(img)),
        image_pixels(*final(img)) == image_pixels(*old(img)).update(
            y * image_width(*old(img)) + x,
            color,
        ),
{
    img.0.put_pixel(x, y, image::Rgb(color))
}

/// Relies on `ImageBuffer::get_pixel`: the pixel at column `x`, row `y`, stored
/// row by row; it panics outside the image.
#[verifier::external_body]
fn image_get_pixel(img: &SheetImage, x: u32, y: u32) -> (r: [u8; 3])
    requires
        x < image_width(*img),
        y < image_height(*img),
    ensures
        r == image_pixels(*img)[y * image_width(*img) + x],
{
    img.0.get_pixel(x, y).0
}

/// A pixel canvas of `width` by `height` RGB pixels, row by row.
#[derive(Debug)]
pub struct Canvas {
    width: u32,
    height: u32,
    image: SheetImage,
}

impl Canvas {
    pub closed spec fn spec_width(&self) -> int {
        self.width as int
    }

    pub closed spec fn spec_height(&self) -> int {
        self.height as int
    }

    /// The pixels, row by row.
    pub closed spec fn spec_pixels(&self) -> Seq<[u8; 3]> {
        image_pixels(self.image)
    }

    pub closed spec fn wf(&self) -> bool {
        &&& image_width(self.image) == self.width
        &&& image_height(self.image) == self.height
        &&& image_pixels(self.image).len() == self.width * self.height
    }

    /// A canvas of `width` by `height` pixels, all of color `color`.
    pub fn from_pixel(width: u32, height: u32, color: [u8; 3]) -> (r: Canvas)
        requires
            3 * width * height <= isize::MAX,
        ensures
            r.wf(),
            r.spec_width() == width,
            r.spec_height() == height,
            r.spec_pixels() == Seq::new((width * height) as nat, |i: int| color),
    {
        let image = image_from_pixel(width, height, color);
        Canvas { width, height, image }
    }

    pub fn width(&self) -> (r: u32)
        ensures
            r == self.spec_width(),
    {
        self.width
    }

    pub fn height(&self) -> (r: u32)
        ensures
            r == self.spec_height(),
    {
        self.height
    }

    /// The color at column `x` and row `y`.
    pub fn get_pixel(&self, x: u32, y: u32) -> (r: [u8; 3])
        requires
            self.wf(),
            x < self.spec_width(),
            y < self.spec_height(),
        ensures
            r == self.spec_pixels()[y * self.spec_width() + x],
    {
        image_get_pixel(&self.image, x, y)
    }

    /// The image that holds the canvas.
    pub fn into_image(self) -> (r: SheetImage)
        requires
            self.wf(),
        ensures
            image_pixels(r) == self.spec_pixels(),
            image_width(r) == self.spec_width(),
            image_height(r) == self.spec_height(),
    {
        self.image
    }

    /// Paints column `x` and row `y` with `color`; a place outside the canvas
    /// is left alone.
    pub fn put_pixel(&mut self, x: i64, y: i64, color: [u8; 3])
        requires
            old(self).wf(),
        ensures
            final(self).wf(),
            final(self).spec_width() == old(self).spec_width(),
            final(self).spec_height() == old(self).spec_height(),
            final(self).spec_pixels() == write_px(
                old(self).spec_pixels(),
                old(self).spec_width(),
                old(self).spec_height(),
                (x as int, y as int, color),
            ),
    {
        if 0 <= x && x < self.width as i64 && 0 <= y && y < self.height as i64 {
            proof {
                lemma_cell_index(x as int, y as int, self.width as int, self.height as int);
            }
            image_put_pixel(&mut self.image, x as u32, y as u32, color);
        }
    }
}

proof fn lemma_cell_index(x: int, y: int, w: int, h: int)
    requires
        0 <= x < w,
        0 <= y < h,
    ensures
        0 <= y * w + x < w * h,
        0 <= y * w <= y * w + x,
{
    assert(y * w + x < w * h) by (nonlinear_arith)
        requires
            0 <= x < w,
            0 <= y < h,
    ;
    assert(0 <= y * w) by (nonlinear_arith)
        requires
            0 <= y,
            0 <= w,
    ;
}

/// Why a sheet cannot be drawn.
#[derive(Clone, Copy, Debug, PartialEq, Eq)]
pub enum SheetError {
    /// The font size is neither 10 nor 11.
    UnsupportedSize,
    /// There is no character to draw.
    NoCharacters,
    /// A row holds no cell.
    ZeroColumns,
    /// The canvas would not fit in memory or in 32-bit dimensions.
    TooLarge,
}

/// Rows needed for `n` cells at `l` cells a row: `n / l` rounded up.
pub open spec fn ceil_div(n: int, l: int) -> int {
    if n % l == 0 {
        n / l
    } else {
        n / l + 1
    }
}

/// Canvas width for `l` cells a row.
pub open spec fn sheet_width(l: int, font_size: int) -> int {
    l * font_size
}

/// Canvas height for `n` characters at `l` cells a row.
pub open spec fn sheet_height(n: int, l: int, font_size: int) -> int {
    ceil_div(n, l) * font_size
}

/// Whether the canvas has 32-bit dimensions and its bytes, three a pixel, fit
/// in one buffer.
pub open spec fn sheet_fits(n: int, l: int, font_size: int) -> bool {
    &&& sheet_width(l, font_size) <= u32::MAX
    &&& sheet_height(n, l, font_size) <= u32::MAX
    &&& 3 * sheet_width(l, font_size) * sheet_height(n, l, font_size) <= isize::MAX
}

/// The error for `n` characters at `l` cells a row and size `font_size`, if any.
pub open spec fn sheet_error(n: int, l: int, font_size: u32) -> Option<SheetError> {
    if font_size != 10 && font_size != 11 {
        Some(SheetError::UnsupportedSize)
    } else if n == 0 {
        Some(SheetError::NoCharacters)
    } else if l == 0 {
        Some(SheetError::ZeroColumns)
    } else if !sheet_fits(n, l, font_size as int) {
        Some(SheetError::TooLarge)
    } else {
        None
    }
}

/// How many times the characters are painted: size 10 paints glyph and shadow
/// in one go; size 11 paints all halos first and all glyphs after.
pub open spec fn pass_count(font_size: u32) -> int {
    if font_size == 10 {
        1
    } else {
        2
    }
}

/// The writes for one lit pixel placed at (`x`, `y`). Size 10: a shadow below,
/// below right and right, then the pixel. Size 11, moved one pixel right and
/// down: in the first pass the eight neighbours in shadow color, in the second
/// the pixel.
pub open spec fn pixel_writes(font_size: u32, pass: int, x: int, y: int, cfg: Config) -> Seq<
    PixelWrite,
> {
    let sh = cfg.char_shadow_color;
    let fg = cfg.char_color;
    if font_size == 10 {
        seq![(x, y + 1, sh), (x + 1, y + 1, sh), (x + 1, y, sh), (x, y, fg)]
    } else if pass == 0 {
        let (x, y) = (x + 1, y + 1);
        seq![
            (x, y + 1, sh),
            (x + 1, y + 1, sh),
            (x + 1, y, sh),
            (x + 1, y - 1, sh),
            (x, y - 1, sh),
            (x - 1, y - 1, sh),
            (x - 1, y, sh),
            (x - 1, y + 1, sh),
        ]
    } else {
        seq![(x + 1, y + 1, fg)]
    }
}

/// The writes for the lit pixels `lit` of a glyph placed at (`ox`, `oy`), in order.
pub open spec fn glyph_writes(
    lit: Seq<(u32, u32)>,
    ox: int,
    oy: int,
    font_size: u32,
    pass: int,
    cfg: Config,
) -> Seq<PixelWrite>
    decreases lit.len(),
{
    if lit.len() == 0 {
        seq![]
    } else {
        glyph_writes(lit.drop_last(), ox, oy, font_size, pass, cfg) + pixel_writes(
            font_size,
            pass,
            ox + lit.last().0,
            oy + lit.last().1,
            cfg,
        )
    }
}

/// The writes for the `k`-th character in one pass: none where its glyph is
/// missing; else its glyph placed in cell (`k % l`, `k / l`) at its offset.
pub open spec fn cell_writes(
    chars: Seq<char>,
    glyphs: Seq<Option<GlyphRaster>>,
    k: int,
    font_size: u32,
    pass: int,
    zh_hant: bool,
    cfg: Config,
) -> Seq<PixelWrite> {
    match glyphs[k] {
        Some(g) => {
            let off = placement_spec(chars[k], g, zh_hant);
            let l = cfg.chars_per_line as int;
            glyph_writes(
                g.lit@,
                (k % l) * font_size + off.0,
                (k / l) * font_size + off.1,
                font_size,
                pass,
                cfg,
            )
        },
        None => seq![],
    }
}

/// The writes for the first `n` characters in one pass.
pub open spec fn pass_writes(
    chars: Seq<char>,
    glyphs: Seq<Option<GlyphRaster>>,
    n: int,
    font_size: u32,
    pass: int,
    zh_hant: bool,
    cfg: Config,
) -> Seq<PixelWrite>
    decreases n,
{
    if n <= 0 {
        seq![]
    } else {
        pass_writes(chars, glyphs, n - 1, font_size, pass, zh_hant, cfg) + cell_writes(
            chars,
            glyphs,
            n - 1,
            font_size,
            pass,
            zh_hant,
            cfg,
        )
    }
}

/// The writes of the first `passes` passes over all characters.
pub open spec fn sheet_writes(
    chars: Seq<char>,
    glyphs: Seq<Option<GlyphRaster>>,
    passes: int,
    font_size: u32,
    zh_hant: bool,
    cfg: Config,
) -> Seq<PixelWrite>
    decreases passes,
{
    if passes <= 0 {
        seq![]
    } else {
        sheet_writes(chars, glyphs, passes - 1, font_size, zh_hant, cfg) + pass_writes(
            chars,
            glyphs,
            chars.len() as int,
            font_size,
            passes - 1,
            zh_hant,
            cfg,
        )
    }
}

/// The canvas width and height for `n` characters at `chars_per_line` cells a
/// row, or `None` where the canvas would be too large.
pub fn canvas_size(n: usize, chars_per_line: usize, font_size: u32) -> (r: Option<(u32, u32)>)
    requires
        chars_per_line > 0,
    ensures
        (match r {
            Some(d) => sheet_fits(n as int, chars_per_line as int, font_size as int) && d.0
                == sheet_width(chars_per_line as int, font_size as int) && d.1 == sheet_height(
                n as int,
                chars_per_line as int,
                font_size as int,
            ),
            None => !sheet_fits(n as int, chars_per_line as int, font_size as int),
        }),
{
    let rows: usize = if n % chars_per_line == 0 {
        n / chars_per_line
    } else {
        assert(n / chars_per_line < n) by (nonlinear_arith)
            requires
                chars_per_line > 0,
                n % chars_per_line != 0,
        ;
        n / chars_per_line + 1
    };
    assert(rows * font_size <= 0x1_0000_0000_0000_0000 * 0x1_0000_0000) by (nonlinear_arith)
        requires
            rows <= usize::MAX,
            font_size <= u32::MAX,
            usize::MAX < 0x1_0000_0000_0000_0000,
    ;
    assert(chars_per_line * font_size <= 0x1_0000_0000_0000_0000 * 0x1_0000_0000) by (
    nonlinear_arith)
        requires
            chars_per_line <= usize::MAX,
            font_size <= u32::MAX,
            usize::MAX < 0x1_0000_0000_0000_0000,
    ;
    let w: u128 = chars_per_line as u128 * font_size as u128;
    let h: u128 = rows as u128 * font_size as u128;
    if w > u32::MAX as u128 || h > u32::MAX as u128 {
        return None;
    }
    assert(3 * w * h <= 3 * u32::MAX * u32::MAX) by (nonlinear_arith)
        requires
            w <= u32::MAX,
            h <= u32::MAX,
    ;
    if 3 * w * h > isize::MAX as u128 {
        return None;
    }
    Some((w as u32, h as u32))
}

/// The cell of the `j`-th of `n` characters lies inside the canvas.
proof fn lemma_cell_inside(j: int, n: int, l: int, font_size: int)
    requires
        0 <= j < n,
        l > 0,
        font_size > 0,
    ensures
        0 <= (j % l) * font_size,
        (j % l) * font_size + font_size <= sheet_width(l, font_size),
        0 <= (j / l) * font_size,
        (j / l) * font_size + font_size <= sheet_height(n, l, font_size),
{
    lemma_fundamental_div_mod(j, l);
    lemma_fundamental_div_mod(n, l);
    lemma_mod_pos_bound(j, l);
    lemma_mod_pos_bound(n, l);
    let a = j / l;
    let b = n / l;
    assert(a >= 0) by (nonlinear_arith)
        requires
            j == l * a + j % l,
            0 <= j,
            j % l < l,
            l > 0,
    ;
    assert(a < ceil_div(n, l)) by {
        if n % l == 0 {
            assert(l * a < l * b);
            assert(a < b) by (nonlinear_arith)
                requires
                    l * a < l * b,
                    l > 0,
            ;
        } else {
            assert(l * a < l * (b + 1)) by (nonlinear_arith)
                requires
                    l * a <= j,
                    j < n,
                    n == l * b + n % l,
                    n % l < l,
            ;
            assert(a < b + 1) by (nonlinear_arith)
                requires
                    l * a < l * (b + 1),
                    l > 0,
            ;
        }
    }
    assert((j % l) * font_size + font_size <= l * font_size) by (nonlinear_arith)
        requires
            j % l + 1 <= l,
            font_size > 0,
    ;
    assert(a * font_size + font_size <= ceil_div(n, l) * font_size) by (nonlinear_arith)
        requires
            a + 1 <= ceil_div(n, l),
            font_size > 0,
    ;
    assert(0 <= (j % l) * font_size) by (nonlinear_arith)
        requires
            0 <= j % l,
            font_size > 0,
    ;
    assert(0 <= a * font_size) by (nonlinear_arith)
        requires
            0 <= a,
            font_size > 0,
    ;
}

/// Paints one write, recording it after the writes `ws` already made on `start`.
fn put_write(
    canvas: &mut Canvas,
    x: i64,
    y: i64,
    color: [u8; 3],
    Ghost(start): Ghost<Seq<[u8; 3]>>,
    Ghost(ws): Ghost<Seq<PixelWrite>>,
)
    requires
        old(canvas).wf(),
        old(canvas).spec_pixels() == apply_writes(
            start,
            old(canvas).spec_width(),
            old(canvas).spec_height(),
            ws,
        ),
    ensures
        final(canvas).wf(),
        final(canvas).spec_width() == old(canvas).spec_width(),
        final(canvas).spec_height() == old(canvas).spec_height(),
        final(canvas).spec_pixels() == apply_writes(
            start,
            old(canvas).spec_width(),
            old(canvas).spec_height(),
            ws.push((x as int, y as int, color)),
        ),
{
    canvas.put_pixel(x, y, color);
    proof {
        lemma_apply_writes_push(
            start,
            canvas.spec_width(),
            canvas.spec_height(),
            ws,
            (x as int, y as int, color),
        );
    }
}

/// Paints the lit pixel placed at (`x`, `y`) in pass `pass`.
fn paint_pixel(canvas: &mut Canvas, font_size: u32, pass: usize, x: i64, y: i64, cfg: &Config)
    requires
        old(canvas).wf(),
        0 <= x < 0x100_0000_0000,
        0 <= y < 0x100_0000_0000,
    ensures
        final(canvas).wf(),
        final(canvas).spec_width() == old(canvas).spec_width(),
        final(canvas).spec_height() == old(canvas).spec_height(),
        final(canvas).spec_pixels() == apply_writes(
            old(canvas).spec_pixels(),
            old(canvas).spec_width(),
            old(canvas).spec_height(),
            pixel_writes(font_size, pass as int, x as int, y as int, *cfg),
        ),
{
    let ghost start = canvas.spec_pixels();
    let ghost mut ws: Seq<PixelWrite> = seq![];
    let sh = cfg.char_shadow_color;
    let fg = cfg.char_color;
    if font_size == 10 {
        put_write(canvas, x, y + 1, sh, Ghost(start), Ghost(ws));
        proof { ws = ws.push((x as int, y + 1 as int, sh)); }
        put_write(canvas, x + 1, y + 1, sh, Ghost(start), Ghost(ws));
        proof { ws = ws.push((x + 1 as int, y + 1 as int, sh)); }
        put_write(canvas, x + 1, y, sh, Ghost(start), Ghost(ws));
        proof { ws = ws.push((x + 1 as int, y as int, sh)); }
        put_write(canvas, x, y, fg, Ghost(start), Ghost(ws));
        proof { ws = ws.push((x as int, y as int, fg)); }
    } else {
        let x1: i64 = x + 1;
        let y1: i64 = y + 1;
        if pass == 0 {
            put_write(canvas, x1, y1 + 1, sh, Ghost(start), Ghost(ws));
            proof { ws = ws.push((x1 as int, y1 + 1 as int, sh)); }
            put_write(canvas, x1 + 1, y1 + 1, sh, Ghost(start), Ghost(ws));
            proof { ws = ws.push((x1 + 1 as int, y1 + 1 as int, sh)); }
            put_write(canvas, x1 + 1, y1, sh, Ghost(start), Ghost(ws));
            proof { ws = ws.push((x1 + 1 as int, y1 as int, sh)); }
            put_write(canvas, x1 + 1, y1 - 1, sh, Ghost(start), Ghost(ws));
            proof { ws = ws.push((x1 + 1 as int, y1 - 1 as int, sh)); }
            put_write(canvas, x1, y1 - 1, sh, Ghost(start), Ghost(ws));
            proof { ws = ws.push((x1 as int, y1 - 1 as int, sh)); }
            put_write(canvas, x1 - 1, y1 - 1, sh, Ghost(start), Ghost(ws));
            proof { ws = ws.push((x1 - 1 as int, y1 - 1 as int, sh)); }
            put_write(canvas, x1 - 1, y1, sh, Ghost(start), Ghost(ws));
            proof { ws = ws.push((x1 - 1 as int, y1 as int, sh)); }
            put_write(canvas, x1 - 1, y1 + 1, sh, Ghost(start), Ghost(ws));
            proof { ws = ws.push((x1 - 1 as int, y1 + 1 as int, sh)); }
        } else {
            put_write(canvas, x1, y1, fg, Ghost(start), Ghost(ws));
            proof { ws = ws.push((x1 as int, y1 as int, fg)); }
        }
    }
    assert(ws =~= pixel_writes(font_size, pass as int, x as int, y as int, *cfg));
}

/// Paints the lit pixels of `g`, placed at (`ox`, `oy`), in pass `pass`.
fn paint_glyph(
    canvas: &mut Canvas,
    g: &GlyphRaster,
    ox: i64,
    oy: i64,
    font_size: u32,
    pass: usize,
    cfg: &Config,
)
    requires
        old(canvas).wf(),
        0 <= ox < 0x10_0000_0000,
        0 <= oy < 0x10_0000_0000,
    ensures
        final(canvas).wf(),
        final(canvas).spec_width() == old(canvas).spec_width(),
        final(canvas).spec_height() == old(canvas).spec_height(),
        final(canvas).spec_pixels() == apply_writes(
            old(canvas).spec_pixels(),
            old(canvas).spec_width(),
            old(canvas).spec_height(),
            glyph_writes(g.lit@, ox as int, oy as int, font_size, pass as int, *cfg),
        ),
{
    let ghost start = canvas.spec_pixels();
    let ghost w = canvas.spec_width();
    let ghost h = canvas.spec_height();
    let mut i: usize = 0;
    assert(g.lit@.take(0) =~= seq![]);
    while i < g.lit.len()
        invariant
            i <= g.lit@.len(),
            canvas.wf(),
            canvas.spec_width() == w,
            canvas.spec_height() == h,
            0 <= ox < 0x10_0000_0000,
            0 <= oy < 0x10_0000_0000,
            canvas.spec_pixels() == apply_writes(
                start,
                w,
                h,
                glyph_writes(g.lit@.take(i as int), ox as int, oy as int, font_size, pass as int, *cfg),
            ),
        decreases g.lit@.len() - i,
    {
        let (lx, ly) = g.lit[i];
        paint_pixel(canvas, font_size, pass, ox + lx as i64, oy + ly as i64, cfg);
        proof {
            let pw = pixel_writes(font_size, pass as int, ox + lx, oy + ly, *cfg);
            let prev = glyph_writes(g.lit@.take(i as int), ox as int, oy as int, font_size, pass as int, *cfg);
            assert(g.lit@.take(i + 1).drop_last() =~= g.lit@.take(i as int));
            assert(g.lit@.take(i + 1).last() == (lx, ly));
            lemma_apply_writes_concat(start, w, h, prev, pw);
        }
        i = i + 1;
    }
    assert(g.lit@.take(g.lit@.len() as int) =~= g.lit@);
}

/// Draws the sheet for the characters `chars`, whose glyphs are `glyphs` (`None`
/// where the font has none): a canvas of `chars_per_line` cells a row in
/// background color, then, pass by pass and character by character, each glyph
/// painted at its offset in its cell.
pub fn render_sheet(
    chars: &Vec<char>,
    glyphs: &Vec<Option<GlyphRaster>>,
    font_size: u32,
    is_zh_hant: bool,
    config: &Config,
) -> (r: Result<Canvas, SheetError>)
    requires
        glyphs@.len() == chars@.len(),
    ensures
        (match r {
            Ok(c) => {
                let n = chars@.len() as int;
                let l = config.chars_per_line as int;
                let w = sheet_width(l, font_size as int);
                let h = sheet_height(n, l, font_size as int);
                &&& sheet_error(n, l, font_size) is None
                &&& c.wf()
                &&& c.spec_width() == w
                &&& c.spec_height() == h
                &&& c.spec_pixels() == apply_writes(
                    Seq::new((w * h) as nat, |i: int| config.img_bg_color),
                    w,
                    h,
                    sheet_writes(chars@, glyphs@, pass_count(font_size), font_size, is_zh_hant, *config),
                )
            },
            Err(e) => sheet_error(chars@.len() as int, config.chars_per_line as int, font_size)
                == Some(e),
        }),
{
    if font_size != 10 && font_size != 11 {
        return Err(SheetError::UnsupportedSize);
    }
    let n = chars.len();
    if n == 0 {
        return Err(SheetError::NoCharacters);
    }
    let l = config.chars_per_line;
    if l == 0 {
        return Err(SheetError::ZeroColumns);
    }
    let (w, h) = match canvas_size(n, l, font_size) {
        Some(d) => d,
        None => return Err(SheetError::TooLarge),
    };
    let mut canvas = Canvas::from_pixel(w, h, config.img_bg_color);
    let ghost bg = canvas.spec_pixels();
    let passes: usize = if font_size == 10 { 1 } else { 2 };
    let mut p: usize = 0;
    while p < passes
        invariant
            p <= passes,
            passes == pass_count(font_size),
            n == chars@.len(),
            glyphs@.len() == chars@.len(),
            l == config.chars_per_line,
            l > 0,
            n > 0,
            font_size == 10 || font_size == 11,
            sheet_fits(n as int, l as int, font_size as int),
            w == sheet_width(l as int, font_size as int),
            h == sheet_height(n as int, l as int, font_size as int),
            canvas.wf(),
            canvas.spec_width() == w,
            canvas.spec_height() == h,
            canvas.spec_pixels() == apply_writes(
                bg,
                w as int,
                h as int,
                sheet_writes(chars@, glyphs@, p as int, font_size, is_zh_hant, *config),
            ),
        decreases passes - p,
    {
        let ghost done = sheet_writes(chars@, glyphs@, p as int, font_size, is_zh_hant, *config);
        let mut j: usize = 0;
        assert(done + seq![] =~= done);
        while j < n
            invariant
                p < passes,
                j <= n,
                n == chars@.len(),
                glyphs@.len() == chars@.len(),
                l == config.chars_per_line,
                l > 0,
                font_size == 10 || font_size == 11,
                w == sheet_width(l as int, font_size as int),
                h == sheet_height(n as int, l as int, font_size as int),
                w <= u32::MAX,
                h <= u32::MAX,
                canvas.wf(),
                canvas.spec_width() == w,
                canvas.spec_height() == h,
                canvas.spec_pixels() == apply_writes(
                    bg,
                    w as int,
                    h as int,
                    done + pass_writes(chars@, glyphs@, j as int, font_size, p as int, is_zh_hant, *config),
                ),
            decreases n - j,
        {
            let ghost sofar = done + pass_writes(chars@, glyphs@, j as int, font_size, p as int, is_zh_hant, *config);
            let ghost cw = cell_writes(chars@, glyphs@, j as int, font_size, p as int, is_zh_hant, *config);
            if let Some(g) = &glyphs[j] {
                let off = glyph_offset(chars[j], g, is_zh_hant);
                proof {
                    lemma_cell_inside(j as int, n as int, l as int, font_size as int);
                }
                let ox: i64 = ((j % l) as u64 * font_size as u64) as i64 + off.0 as i64;
                let oy: i64 = ((j / l) as u64 * font_size as u64) as i64 + off.1 as i64;
                paint_glyph(&mut canvas, g, ox, oy, font_size, p, config);
                proof {
                    lemma_apply_writes_concat(bg, w as int, h as int, sofar, cw);
                }
            } else {
                assert(cw =~= seq![]);
                assert(sofar + cw =~= sofar);
            }
            proof {
                assert(done + pass_writes(chars@, glyphs@, j + 1, font_size, p as int, is_zh_hant, *config)
                    =~= sofar + cw);
            }
            j = j + 1;
        }
        p = p + 1;
    }
    proof {
        let w2 = sheet_width(l as int, font_size as int);
        let h2 = sheet_height(n as int, l as int, font_size as int);
        assert(bg =~= Seq::new((w2 * h2) as nat, |i: int| config.img_bg_color));
    }
    Ok(canvas)
}

/// The positions in `glyphs` that hold no glyph, ascending.
pub open spec fn missing_spec(glyphs: Seq<Option<GlyphRaster>>) -> Seq<usize>
    decreases glyphs.len(),
{
    if glyphs.len() == 0 {
        seq![]
    } else {
        let rest = missing_spec(glyphs.drop_last());
        if glyphs.last() is None {
            rest.push((glyphs.len() - 1) as usize)
        } else {
            rest
        }
    }
}

/// The indices of the characters whose glyph is missing, ascending.
pub fn missing_glyphs(glyphs: &Vec<Option<GlyphRaster>>) -> (r: Vec<usize>)
    ensures
        r@ == missing_spec(glyphs@),
{
    let mut r: Vec<usize> = Vec::new();
    let mut i: usize = 0;
    assert(glyphs@.take(0) =~= seq![]);
    while i < glyphs.len()
        invariant
            i <= glyphs@.len(),
            r@ == missing_spec(glyphs@.take(i as int)),
        decreases glyphs@.len() - i,
    {
        assert(glyphs@.take(i + 1).drop_last() =~= glyphs@.take(i as int));
        if glyphs[i].is_none() {
            r.push(i);
        }
        i = i + 1;
    }
    assert(glyphs@.take(glyphs@.len() as int) =~= glyphs@);
    r
}

/// A character without a glyph paints nothing, in any pass, and every other
/// character is painted exactly as it would be if that glyph were there.
pub proof fn lemma_missing_glyph_isolated(
    chars: Seq<char>,
    glyphs: Seq<Option<GlyphRaster>>,
    k: int,
    j: int,
    font_size: u32,
    pass: int,
    zh_hant: bool,
    cfg: Config,
)
    requires
        0 <= k < glyphs.len(),
        0 <= j < glyphs.len(),
        j != k,
    ensures
        cell_writes(chars, glyphs.update(k, None), k, font_size, pass, zh_hant, cfg) == Seq::<
            PixelWrite,
        >::empty(),
        cell_writes(chars, glyphs.update(k, None), j, font_size, pass, zh_hant, cfg)
            == cell_writes(chars, glyphs, j, font_size, pass, zh_hant, cfg),
{
    assert(seq![] =~= Seq::<PixelWrite>::empty());
}

/// The missing-glyph list names each character without a glyph exactly once,
/// in ascending order, and no other.
pub proof fn lemma_missing_listed_once(glyphs: Seq<Option<GlyphRaster>>)
    requires
        glyphs.len() <= usize::MAX,
    ensures
        forall|i: int, j: int|
            0 <= i < j < missing_spec(glyphs).len() ==> missing_spec(glyphs)[i] < missing_spec(
                glyphs,
            )[j],
        forall|i: int|
            0 <= i < missing_spec(glyphs).len() ==> missing_spec(glyphs)[i] < glyphs.len(),
        forall|k: int|
            0 <= k < glyphs.len() ==> (missing_spec(glyphs).contains(k as usize) <==> glyphs[k] is None),
    decreases glyphs.len(),
{
    if glyphs.len() > 0 {
        let rest = glyphs.drop_last();
        lemma_missing_listed_once(rest);
        let m = missing_spec(rest);
        let ms = missing_spec(glyphs);
        let last = (glyphs.len() - 1) as usize;
        if glyphs.last() is None {
            assert(ms == m.push(last));
        } else {
            assert(ms == m);
        }
        assert forall|k: int| 0 <= k < glyphs.len() implies (ms.contains(k as usize)
            <==> glyphs[k] is None) by {
            if k < glyphs.len() - 1 {
                assert(rest[k] == glyphs[k]);
                if ms.contains(k as usize) {
                    let i = choose|i: int| 0 <= i < ms.len() && ms[i] == k as usize;
                    assert(i < m.len());
                    assert(m[i] == k as usize);
                }
                if m.contains(k as usize) {
                    let i = choose|i: int| 0 <= i < m.len() && m[i] == k as usize;
                    assert(ms[i] == k as usize);
                }
            } else {
                if glyphs.last() is None {
                    assert(ms[m.len() as int] == last);
                } else if ms.contains(last) {
                    let i = choose|i: int| 0 <= i < m.len() && m[i] == last;
                    assert(m[i] < rest.len());
                }
            }
        }
    }
}

} // verus!
