//! The renderer: draws rasterized glyph rows onto an oversized RGBA canvas,
//! tracks the bounding box of drawn content, and crops the canvas to it.
//!
//! Glyph layout and rasterization are the font library's work and happen
//! outside this crate; the renderer takes the resulting coverage data as
//! plain values (`RowLayout`, `GlyphRaster`, `GlyphPixel`) and is verified
//! for every value of them.

use vstd::prelude::*;

use crate::AartError;
use crate::imgio;

verus! {

/// The factor by which the working canvas is oversized relative to the
/// character grid, so that every glyph fits regardless of font metrics.
pub const CANVAS_FACTOR: u32 = 99;

/// One covered pixel of a rasterized glyph: coordinates within the glyph's
/// bounding box and the green channel value its coverage scales to.
#[derive(Clone, Copy, Debug)]
pub struct GlyphPixel {
    pub x: u16,
    pub y: u16,
    pub green: u8,
}

/// One rasterized glyph: the left edge and the height of its bounding box,
/// and its covered pixels in drawing order.
pub struct GlyphRaster {
    pub min_x: i32,
    pub height: i32,
    pub pixels: Vec<GlyphPixel>,
}

/// One laid-out row of glyphs: the row's advance width (rightmost glyph
/// position plus advance width, rounded up) and its glyphs in drawing order.
pub struct RowLayout {
    pub width: i32,
    pub glyphs: Vec<GlyphRaster>,
}

/// The RGBA bytes of pixel (x, y) of a raster of width `w`.
pub open spec fn pixel_at(data: Seq<u8>, w: int, x: int, y: int) -> (u8, u8, u8, u8) {
    let base = 4 * (y * w + x);
    (data[base], data[base + 1], data[base + 2], data[base + 3])
}

/// `data` with pixel (x, y) written as an opaque green of value `g`, when
/// (x, y) lies within a `w` by `h` raster; an out-of-bounds write is
/// silently dropped.
pub open spec fn write_pixel(data: Seq<u8>, w: int, h: int, x: int, y: int, g: u8) -> Seq<u8> {
    if 0 <= x < w && 0 <= y < h {
        let base = 4 * (y * w + x);
        data.update(base, 0u8).update(base + 1, g).update(base + 2, 0u8).update(base + 3, 255u8)
    } else {
        data
    }
}

/// The canvas column at which a glyph pixel lands.
pub open spec fn dest_x(g: GlyphRaster, p: GlyphPixel) -> int {
    p.x + g.min_x
}

/// The canvas row at which a glyph pixel lands: rows stack at `line_height`
/// per grid row, the glyph sits on that line by its height, and a fixed
/// upward bias of two pixels is applied.
pub open spec fn dest_y(g: GlyphRaster, p: GlyphPixel, row: int, line_height: int) -> int {
    (row + 1) * line_height - g.height + p.y - 2
}

/// The canvas bytes after drawing a glyph's pixels, in order.
pub open spec fn apply_pixels(
    data: Seq<u8>,
    w: int,
    h: int,
    g: GlyphRaster,
    ps: Seq<GlyphPixel>,
    row: int,
    lh: int,
) -> Seq<u8>
    decreases ps.len(),
{
    if ps.len() == 0 {
        data
    } else {
        let p = ps.last();
        write_pixel(
            apply_pixels(data, w, h, g, ps.drop_last(), row, lh),
            w,
            h,
            dest_x(g, p),
            dest_y(g, p, row, lh),
            p.green,
        )
    }
}

/// The canvas bytes after drawing a row's glyphs, in order.
pub open spec fn apply_glyphs(
    data: Seq<u8>,
    w: int,
    h: int,
    gs: Seq<GlyphRaster>,
    row: int,
    lh: int,
) -> Seq<u8>
    decreases gs.len(),
{
    if gs.len() == 0 {
        data
    } else {
        apply_pixels(
            apply_glyphs(data, w, h, gs.drop_last(), row, lh),
            w,
            h,
            gs.last(),
            gs.last().pixels@,
            row,
            lh,
        )
    }
}

/// The canvas bytes after drawing every row, in order.
pub open spec fn apply_rows(data: Seq<u8>, w: int, h: int, rows: Seq<RowLayout>, lh: int) -> Seq<
    u8,
>
    decreases rows.len(),
{
    if rows.len() == 0 {
        data
    } else {
        apply_glyphs(
            apply_rows(data, w, h, rows.drop_last(), lh),
            w,
            h,
            rows.last().glyphs@,
            rows.len() - 1,
            lh,
        )
    }
}

/// The content height after drawing a glyph's pixels: every drawn pixel
/// moves it to that pixel's canvas row plus an eight-pixel padding, whether
/// or not the pixel landed within the canvas.
pub open spec fn vh_pixels(prev: int, g: GlyphRaster, ps: Seq<GlyphPixel>, row: int, lh: int) -> int {
    if ps.len() == 0 {
        prev
    } else {
        dest_y(g, ps.last(), row, lh) + 8
    }
}

/// The content height after drawing a row's glyphs.
pub open spec fn vh_glyphs(prev: int, gs: Seq<GlyphRaster>, row: int, lh: int) -> int
    decreases gs.len(),
{
    if gs.len() == 0 {
        prev
    } else {
        vh_pixels(
            vh_glyphs(prev, gs.drop_last(), row, lh),
            gs.last(),
            gs.last().pixels@,
            row,
            lh,
        )
    }
}

/// The content height after drawing every row: the canvas row of the last
/// drawn pixel plus an eight-pixel padding, or zero when nothing was drawn.
pub open spec fn vh_rows(rows: Seq<RowLayout>, lh: int) -> int
    decreases rows.len(),
{
    if rows.len() == 0 {
        0
    } else {
        vh_glyphs(vh_rows(rows.drop_last(), lh), rows.last().glyphs@, rows.len() - 1, lh)
    }
}

/// The content width: the maximum row advance width, at least zero.
pub open spec fn vw_rows(rows: Seq<RowLayout>) -> int
    decreases rows.len(),
{
    if rows.len() == 0 {
        0
    } else {
        let prev = vw_rows(rows.drop_last());
        if rows.last().width > prev {
            rows.last().width as int
        } else {
            prev
        }
    }
}

/// `v` clamped to the range `[0, hi]`.
pub open spec fn clamp_dim(v: int, hi: int) -> int {
    if v < 0 {
        0
    } else if v > hi {
        hi
    } else {
        v
    }
}

/// The cropped content height: the drawing pass's content height, floored
/// at one pixel for a non-empty grid — a grid whose glyphs draw no ink (a
/// row of spaces) still crops to a minimal non-empty region — and clamped
/// to the canvas.
pub open spec fn crop_height(rows: Seq<RowLayout>, lh: int, ch: int) -> int {
    let vh = vh_rows(rows, lh);
    let floored = if rows.len() > 0 && vh < 1 {
        1
    } else {
        vh
    };
    clamp_dim(floored, ch)
}

/// A fixed-format RGBA raster: four bytes per pixel, row-major.
pub struct Canvas {
    pub width: u32,
    pub height: u32,
    pub data: Vec<u8>,
}

impl Canvas {
    /// Four bytes per pixel.
    pub open spec fn wf(&self) -> bool {
        self.data@.len() == 4 * self.width * self.height
    }

    /// The RGBA bytes of pixel (x, y).
    pub open spec fn pixel(&self, x: int, y: int) -> (u8, u8, u8, u8)
        recommends
            self.wf(),
            0 <= x < self.width,
            0 <= y < self.height,
    {
        pixel_at(self.data@, self.width as int, x, y)
    }

    /// Allocates an all-zero (transparent black) canvas.
    pub fn new(width: u32, height: u32) -> (r: Canvas)
        requires
            4 * (width as int) * (height as int) <= usize::MAX,
        ensures
            r.wf(),
            r.width == width,
            r.height == height,
            r.data@ == Seq::new((4 * width * height) as nat, |i: int| 0u8),
    {
        proof {
            let wi = width as int;
            let hi = height as int;
            assert(wi * hi <= usize::MAX && 4 * (wi * hi) == 4 * wi * hi) by (nonlinear_arith)
                requires
                    wi >= 0,
                    hi >= 0,
                    4 * wi * hi <= usize::MAX;
        }
        let n: usize = 4 * ((width as usize) * (height as usize));
        let mut data: Vec<u8> = Vec::new();
        let mut i: usize = 0;
        while i < n
            invariant
                i <= n,
                data@.len() == i,
                forall|j: int| 0 <= j < i ==> data@[j] == 0u8,
            decreases n - i,
        {
            data.push(0u8);
            i += 1;
        }
        let r = Canvas { width, height, data };
        proof {
            assert(r.data@ =~= Seq::new((4 * width * height) as nat, |i: int| 0u8));
        }
        r
    }

    /// Reads pixel (x, y).
    pub fn get_pixel(&self, x: u32, y: u32) -> (r: (u8, u8, u8, u8))
        requires
            self.wf(),
            x < self.width,
            y < self.height,
        ensures
            r == self.pixel(x as int, y as int),
    {
        let w = self.width as usize;
        let h = self.height as usize;
        let xs = x as usize;
        let ys = y as usize;
        let len = self.data.len();
        proof {
            assert(ys * w + xs < len && 4 * (ys * w + xs) + 3 < len) by (nonlinear_arith)
                requires
                    0 <= xs < w,
                    0 <= ys < h,
                    (len as int) == 4 * (w as int) * (h as int);
        }
        let base: usize = 4 * (ys * w + xs);
        (self.data[base], self.data[base + 1], self.data[base + 2], self.data[base + 3])
    }

    /// Writes one glyph pixel onto the canvas as an opaque green of value
    /// `green`, silently dropping a write whose destination lies outside the
    /// canvas.
    fn draw_at(&mut self, ix: i64, iy: i64, green: u8)
        requires
            old(self).wf(),
        ensures
            final(self).wf(),
            final(self).width == old(self).width,
            final(self).height == old(self).height,
            final(self).data@ == write_pixel(
                old(self).data@,
                old(self).width as int,
                old(self).height as int,
                ix as int,
                iy as int,
                green,
            ),
    {
        if ix >= 0 && ix < self.width as i64 && iy >= 0 && iy < self.height as i64 {
            let w = self.width as usize;
            let h = self.height as usize;
            let xs = ix as usize;
            let ys = iy as usize;
            let len = self.data.len();
            proof {
                assert(ys * w + xs < len && 4 * (ys * w + xs) + 3 < len) by (nonlinear_arith)
                    requires
                        0 <= xs < w,
                        0 <= ys < h,
                        (len as int) == 4 * (w as int) * (h as int);
            }
            let base: usize = 4 * (ys * w + xs);
            self.data[base] = 0u8;
            self.data[base + 1] = green;
            self.data[base + 2] = 0u8;
            self.data[base + 3] = 255u8;
        }
    }

    /// A copy of the top-left `width` by `height` corner of the canvas.
    pub fn crop(&self, width: u32, height: u32) -> (r: Canvas)
        requires
            self.wf(),
            width <= self.width,
            height <= self.height,
        ensures
            r.wf(),
            r.width == width,
            r.height == height,
            forall|x: int, y: int|
                0 <= x < width && 0 <= y < height ==> r.pixel(x, y) == self.pixel(x, y),
    {
        let cw = width as usize;
        let ch = height as usize;
        let mut data: Vec<u8> = Vec::new();
        let mut y: usize = 0;
        while y < ch
            invariant
                self.wf(),
                cw == width,
                ch == height,
                width <= self.width,
                height <= self.height,
                y <= ch,
                data@.len() == 4 * (y * cw),
                forall|xx: int, yy: int|
                    0 <= xx < cw && 0 <= yy < y ==> pixel_at(data@, cw as int, xx, yy)
                        == self.pixel(xx, yy),
            decreases ch - y,
        {
            let mut x: usize = 0;
            while x < cw
                invariant
                    self.wf(),
                    cw == width,
                    ch == height,
                    width <= self.width,
                    height <= self.height,
                    y < ch,
                    x <= cw,
                    data@.len() == 4 * (y * cw + x),
                    forall|xx: int, yy: int|
                        0 <= xx < cw && 0 <= yy < y ==> pixel_at(data@, cw as int, xx, yy)
                            == self.pixel(xx, yy),
                    forall|xx: int|
                        0 <= xx < x ==> pixel_at(data@, cw as int, xx, y as int)
                            == self.pixel(xx, y as int),
                decreases cw - x,
            {
                proof {
                    assert(y * cw + x < cw * ch && 4 * (y * cw + x) + 4 <= 4 * (cw * ch))
                        by (nonlinear_arith)
                        requires 0 <= x < cw && 0 <= y < ch;
                }
                let ghost pre = data@;
                let px = self.get_pixel(x as u32, y as u32);
                data.push(px.0);
                data.push(px.1);
                data.push(px.2);
                data.push(px.3);
                proof {
                    assert forall|xx: int, yy: int|
                        0 <= xx < cw && 0 <= yy < y implies pixel_at(data@, cw as int, xx, yy)
                        == self.pixel(xx, yy) by {
                        assert(4 * (yy * cw + xx) + 3 < 4 * (y as int * cw + x as int))
                            by (nonlinear_arith)
                            requires 0 <= xx < cw && 0 <= yy < y as int && x as int >= 0;
                        assert(pixel_at(data@, cw as int, xx, yy) == pixel_at(pre, cw as int, xx, yy));
                    }
                    assert forall|xx: int|
                        0 <= xx < x + 1 implies pixel_at(data@, cw as int, xx, y as int)
                        == self.pixel(xx, y as int) by {
                        if xx < x {
                            assert(4 * (y as int * cw + xx) + 3 < 4 * (y as int * cw + x as int))
                                by (nonlinear_arith)
                                requires 0 <= xx < x as int;
                            assert(pixel_at(data@, cw as int, xx, y as int) == pixel_at(
                                pre,
                                cw as int,
                                xx,
                                y as int,
                            ));
                        } else {
                            assert(data@.len() == 4 * (y as int * cw + x as int) + 4);
                        }
                    }
                }
                x += 1;
            }
            proof {
                assert(y as int * cw + cw == (y as int + 1) * cw) by (nonlinear_arith);
            }
            y += 1;
        }
        proof {
            assert(data@.len() == 4 * ((ch as int) * (cw as int)));
            assert(4 * ((ch as int) * (cw as int)) == 4 * (width as int) * (height as int))
                by (nonlinear_arith)
                requires
                    (cw as int) == width as int,
                    (ch as int) == height as int;
        }
        let r = Canvas { width, height, data };
        r
    }
}

/// Checks the requested font size, given in hundredths of a point, and
/// returns the line height: the size rounded down to whole points. A size of
/// zero or less is refused before any canvas is allocated.
pub fn validate_font_size(size_centi: i64) -> (r: Result<i32, AartError>)
    requires
        size_centi <= 0x7FFF_FFFFi64 * 100 + 99,
    ensures
        r is Err <==> size_centi <= 0,
        r matches Err(e) ==> e == AartError::InvalidFontSize,
        r matches Ok(lh) ==> lh as int == size_centi as int / 100,
{
    if size_centi <= 0 {
        Err(AartError::InvalidFontSize)
    } else {
        Ok((size_centi / 100) as i32)
    }
}

/// Renders laid-out glyph rows onto an oversized canvas (the grid's
/// dimensions scaled by `CANVAS_FACTOR`) and crops the result to the
/// bounding box of drawn content: the maximum row advance width, and the
/// canvas row of the last drawn pixel plus an eight-pixel padding, each
/// clamped to the canvas bounds. A non-empty grid whose glyphs draw no ink
/// still crops to a minimal one-pixel content height, never to an empty
/// region.
pub fn render_rows(rows: &Vec<RowLayout>, line_height: i32, grid_w: u32, grid_h: u32) -> (r:
    Canvas)
    requires
        rows@.len() <= 0x7FFF_FFFF,
        grid_w <= u32::MAX / CANVAS_FACTOR,
        grid_h <= u32::MAX / CANVAS_FACTOR,
        4 * ((CANVAS_FACTOR * grid_w) as int) * ((CANVAS_FACTOR * grid_h) as int) <= usize::MAX,
    ensures
        ({
            let cw = (CANVAS_FACTOR * grid_w) as int;
            let ch = (CANVAS_FACTOR * grid_h) as int;
            let drawn = apply_rows(
                Seq::new((4 * cw * ch) as nat, |i: int| 0u8),
                cw,
                ch,
                rows@,
                line_height as int,
            );
            &&& r.wf()
            &&& r.width == clamp_dim(vw_rows(rows@), cw)
            &&& r.height == crop_height(rows@, line_height as int, ch)
            &&& r.width <= cw
            &&& r.height <= ch
            &&& forall|x: int, y: int|
                0 <= x < r.width && 0 <= y < r.height ==> r.pixel(x, y) == pixel_at(drawn, cw, x, y)
        }),
{
    let cw: u32 = CANVAS_FACTOR * grid_w;
    let ch: u32 = CANVAS_FACTOR * grid_h;
    let lh = line_height;
    let mut canvas = Canvas::new(cw, ch);
    let ghost d0 = canvas.data@;
    let mut valid_width: i32 = 0;
    let mut valid_height: i64 = 0;
    let mut row: usize = 0;
    while row < rows.len()
        invariant
            canvas.wf(),
            canvas.width == cw,
            canvas.height == ch,
            rows@.len() <= 0x7FFF_FFFF,
            row <= rows@.len(),
            canvas.data@ == apply_rows(d0, cw as int, ch as int, rows@.take(row as int), lh as int),
            valid_width as int == vw_rows(rows@.take(row as int)),
            valid_height as int == vh_rows(rows@.take(row as int), lh as int),
        decreases rows@.len() - row,
    {
        let rl = &rows[row];
        if rl.width > valid_width {
            valid_width = rl.width;
        }
        let ghost d_row = canvas.data@;
        let ghost vh_row = valid_height as int;
        let mut gi: usize = 0;
        while gi < rl.glyphs.len()
            invariant
                canvas.wf(),
                canvas.width == cw,
                canvas.height == ch,
                rows@.len() <= 0x7FFF_FFFF,
                row < rows@.len(),
                rl == &rows@[row as int],
                gi <= rl.glyphs@.len(),
                canvas.data@ == apply_glyphs(
                    d_row,
                    cw as int,
                    ch as int,
                    rl.glyphs@.take(gi as int),
                    row as int,
                    lh as int,
                ),
                valid_height as int == vh_glyphs(
                    vh_row,
                    rl.glyphs@.take(gi as int),
                    row as int,
                    lh as int,
                ),
            decreases rl.glyphs@.len() - gi,
        {
            let g = &rl.glyphs[gi];
            let ghost d_g = canvas.data@;
            let ghost vh_g = valid_height as int;
            let mut pi: usize = 0;
            while pi < g.pixels.len()
                invariant
                    canvas.wf(),
                    canvas.width == cw,
                    canvas.height == ch,
                    rows@.len() <= 0x7FFF_FFFF,
                    row < rows@.len(),
                    g == &rows@[row as int].glyphs@[gi as int],
                    0 <= gi < rows@[row as int].glyphs@.len(),
                    pi <= g.pixels@.len(),
                    canvas.data@ == apply_pixels(
                        d_g,
                        cw as int,
                        ch as int,
                        *g,
                        g.pixels@.take(pi as int),
                        row as int,
                        lh as int,
                    ),
                    valid_height as int == vh_pixels(
                        vh_g,
                        *g,
                        g.pixels@.take(pi as int),
                        row as int,
                        lh as int,
                    ),
                decreases g.pixels@.len() - pi,
            {
                let p = g.pixels[pi];
                let ix: i64 = p.x as i64 + g.min_x as i64;
                proof {
                    let rowp = row as int + 1;
                    let lhi = lh as int;
                    assert(-0x4000_0000_0000_0000 <= rowp * lhi <= 0x4000_0000_0000_0000)
                        by (nonlinear_arith)
                        requires
                            1 <= rowp <= 0x8000_0000,
                            -0x8000_0000 <= lhi <= 0x7FFF_FFFF;
                }
                let iy: i64 = (row as i64 + 1) * (lh as i64) - g.height as i64 + p.y as i64 - 2;
                valid_height = iy + 8;
                canvas.draw_at(ix, iy, p.green);
                proof {
                    assert(g.pixels@.take(pi as int + 1).drop_last() =~= g.pixels@.take(pi as int));
                    assert(g.pixels@.take(pi as int + 1).last() == p);
                }
                pi += 1;
            }
            proof {
                assert(g.pixels@.take(g.pixels@.len() as int) =~= g.pixels@);
                assert(rl.glyphs@.take(gi as int + 1).drop_last() =~= rl.glyphs@.take(gi as int));
                assert(rl.glyphs@.take(gi as int + 1).last() == rl.glyphs@[gi as int]);
            }
            gi += 1;
        }
        proof {
            assert(rl.glyphs@.take(rl.glyphs@.len() as int) =~= rl.glyphs@);
            assert(rows@.take(row as int + 1).drop_last() =~= rows@.take(row as int));
            assert(rows@.take(row as int + 1).last() == rows@[row as int]);
        }
        row += 1;
    }
    proof {
        assert(rows@.take(rows@.len() as int) =~= rows@);
    }
    if rows.len() > 0 && valid_height < 1 {
        valid_height = 1;
    }
    let fw: u32 = if valid_width < 0 {
        0
    } else if valid_width as u32 > cw {
        cw
    } else {
        valid_width as u32
    };
    let fh: u32 = if valid_height < 0 {
        0
    } else if valid_height > ch as i64 {
        ch
    } else {
        valid_height as u32
    };
    canvas.crop(fw, fh)
}

/// Whether an RGBA pixel is untouched background or an opaque green sample:
/// red zero, blue zero, alpha 255.
pub open spec fn background_or_green(px: (u8, u8, u8, u8)) -> bool {
    px == (0u8, 0u8, 0u8, 0u8) || (px.0 == 0u8 && px.2 == 0u8 && px.3 == 255u8)
}

proof fn lemma_write_pixel_green(
    data: Seq<u8>,
    w: int,
    h: int,
    x0: int,
    y0: int,
    g: u8,
    x: int,
    y: int,
)
    requires
        data.len() == 4 * w * h,
        0 <= x < w,
        0 <= y < h,
        background_or_green(pixel_at(data, w, x, y)),
    ensures
        write_pixel(data, w, h, x0, y0, g).len() == 4 * w * h,
        background_or_green(pixel_at(write_pixel(data, w, h, x0, y0, g), w, x, y)),
{
    if 0 <= x0 < w && 0 <= y0 < h {
        assert(4 * (y0 * w + x0) + 3 < 4 * w * h && 4 * (y * w + x) + 3 < 4 * w * h)
            by (nonlinear_arith)
            requires
                0 <= x0 < w,
                0 <= y0 < h,
                0 <= x < w,
                0 <= y < h;
        if x == x0 && y == y0 {
        } else {
            assert(y * w + x != y0 * w + x0) by (nonlinear_arith)
                requires
                    0 <= x < w,
                    0 <= y < h,
                    0 <= x0 < w,
                    0 <= y0 < h,
                    x != x0 || y != y0;
            assert(pixel_at(write_pixel(data, w, h, x0, y0, g), w, x, y) == pixel_at(
                data,
                w,
                x,
                y,
            ));
        }
    }
}

proof fn lemma_apply_pixels_green(
    data: Seq<u8>,
    w: int,
    h: int,
    gl: GlyphRaster,
    ps: Seq<GlyphPixel>,
    row: int,
    lh: int,
    x: int,
    y: int,
)
    requires
        data.len() == 4 * w * h,
        0 <= x < w,
        0 <= y < h,
        background_or_green(pixel_at(data, w, x, y)),
    ensures
        apply_pixels(data, w, h, gl, ps, row, lh).len() == 4 * w * h,
        background_or_green(pixel_at(apply_pixels(data, w, h, gl, ps, row, lh), w, x, y)),
    decreases ps.len(),
{
    if ps.len() > 0 {
        lemma_apply_pixels_green(data, w, h, gl, ps.drop_last(), row, lh, x, y);
        let p = ps.last();
        lemma_write_pixel_green(
            apply_pixels(data, w, h, gl, ps.drop_last(), row, lh),
            w,
            h,
            dest_x(gl, p),
            dest_y(gl, p, row, lh),
            p.green,
            x,
            y,
        );
    }
}

proof fn lemma_apply_glyphs_green(
    data: Seq<u8>,
    w: int,
    h: int,
    gs: Seq<GlyphRaster>,
    row: int,
    lh: int,
    x: int,
    y: int,
)
    requires
        data.len() == 4 * w * h,
        0 <= x < w,
        0 <= y < h,
        background_or_green(pixel_at(data, w, x, y)),
    ensures
        apply_glyphs(data, w, h, gs, row, lh).len() == 4 * w * h,
        background_or_green(pixel_at(apply_glyphs(data, w, h, gs, row, lh), w, x, y)),
    decreases gs.len(),
{
    if gs.len() > 0 {
        lemma_apply_glyphs_green(data, w, h, gs.drop_last(), row, lh, x, y);
        lemma_apply_pixels_green(
            apply_glyphs(data, w, h, gs.drop_last(), row, lh),
            w,
            h,
            gs.last(),
            gs.last().pixels@,
            row,
            lh,
            x,
            y,
        );
    }
}

/// Every pixel of the drawn canvas is untouched background or an opaque
/// green sample: the drawing pass writes red zero, a green coverage value,
/// blue zero and alpha 255, and touches nothing else.
pub proof fn lemma_rendered_background_or_green(
    rows: Seq<RowLayout>,
    lh: int,
    cw: int,
    ch: int,
    x: int,
    y: int,
)
    requires
        0 <= x < cw,
        0 <= y < ch,
    ensures
        background_or_green(
            pixel_at(
                apply_rows(Seq::new((4 * cw * ch) as nat, |i: int| 0u8), cw, ch, rows, lh),
                cw,
                x,
                y,
            ),
        ),
    decreases rows.len(),
{
    let zeros = Seq::new((4 * cw * ch) as nat, |i: int| 0u8);
    assert(4 * (y * cw + x) + 3 < 4 * cw * ch) by (nonlinear_arith)
        requires
            0 <= x < cw,
            0 <= y < ch;
    assert(pixel_at(zeros, cw, x, y) == (0u8, 0u8, 0u8, 0u8));
    if rows.len() > 0 {
        lemma_rendered_background_or_green(rows.drop_last(), lh, cw, ch, x, y);
        lemma_apply_rows_len(zeros, cw, ch, rows.drop_last(), lh);
        lemma_apply_glyphs_green(
            apply_rows(zeros, cw, ch, rows.drop_last(), lh),
            cw,
            ch,
            rows.last().glyphs@,
            rows.len() - 1,
            lh,
            x,
            y,
        );
    }
}

proof fn lemma_apply_rows_len(data: Seq<u8>, w: int, h: int, rows: Seq<RowLayout>, lh: int)
    requires
        data.len() == 4 * w * h,
    ensures
        apply_rows(data, w, h, rows, lh).len() == 4 * w * h,
    decreases rows.len(),
{
    if rows.len() > 0 {
        lemma_apply_rows_len(data, w, h, rows.drop_last(), lh);
        lemma_apply_glyphs_len(
            apply_rows(data, w, h, rows.drop_last(), lh),
            w,
            h,
            rows.last().glyphs@,
            rows.len() - 1,
            lh,
        );
    }
}

proof fn lemma_apply_glyphs_len(
    data: Seq<u8>,
    w: int,
    h: int,
    gs: Seq<GlyphRaster>,
    row: int,
    lh: int,
)
    requires
        data.len() == 4 * w * h,
    ensures
        apply_glyphs(data, w, h, gs, row, lh).len() == 4 * w * h,
    decreases gs.len(),
{
    if gs.len() > 0 {
        lemma_apply_glyphs_len(data, w, h, gs.drop_last(), row, lh);
        lemma_apply_pixels_len(
            apply_glyphs(data, w, h, gs.drop_last(), row, lh),
            w,
            h,
            gs.last(),
            gs.last().pixels@,
            row,
            lh,
        );
    }
}

proof fn lemma_apply_pixels_len(
    data: Seq<u8>,
    w: int,
    h: int,
    gl: GlyphRaster,
    ps: Seq<GlyphPixel>,
    row: int,
    lh: int,
)
    requires
        data.len() == 4 * w * h,
    ensures
        apply_pixels(data, w, h, gl, ps, row, lh).len() == 4 * w * h,
    decreases ps.len(),
{
    if ps.len() > 0 {
        lemma_apply_pixels_len(data, w, h, gl, ps.drop_last(), row, lh);
        let d2 = apply_pixels(data, w, h, gl, ps.drop_last(), row, lh);
        let p = ps.last();
        let dx = dest_x(gl, p);
        let dy = dest_y(gl, p, row, lh);
        if 0 <= dx < w && 0 <= dy < h {
            assert(4 * (dy * w + dx) + 3 < 4 * w * h) by (nonlinear_arith)
                requires
                    0 <= dx < w,
                    0 <= dy < h;
        }
        assert(write_pixel(d2, w, h, dx, dy, p.green).len() == d2.len());
    }
}

/// Rendering a single-row, single-glyph layout crops to a box that is
/// positive in both dimensions and within the canvas bounds: the row's
/// advance width is positive, and the glyph's last drawn pixel leaves the
/// content height at least the eight-pixel padding when the line height
/// covers the glyph's height.
pub proof fn lemma_single_glyph_crop_positive(rows: Seq<RowLayout>, lh: int, cw: int, ch: int)
    requires
        rows.len() == 1,
        rows[0].glyphs@.len() == 1,
        rows[0].glyphs@[0].pixels@.len() >= 1,
        rows[0].width >= 1,
        lh >= rows[0].glyphs@[0].height,
        cw >= 1,
        ch >= 1,
    ensures
        1 <= clamp_dim(vw_rows(rows), cw) <= cw,
        1 <= crop_height(rows, lh, ch) <= ch,
{
    let g = rows[0].glyphs@[0];
    assert(rows.drop_last().len() == 0);
    assert(rows.last() == rows[0]);
    assert(vw_rows(rows.drop_last()) == 0);
    assert(vh_rows(rows.drop_last(), lh) == 0);
    assert(vw_rows(rows) == rows[0].width as int);
    assert(rows[0].glyphs@.drop_last().len() == 0);
    assert(rows[0].glyphs@.last() == g);
    assert(vh_glyphs(0, rows[0].glyphs@.drop_last(), 0, lh) == 0);
    assert(vh_rows(rows, lh) == vh_pixels(0, g, g.pixels@, 0, lh));
    assert(vh_rows(rows, lh) == dest_y(g, g.pixels@.last(), 0, lh) + 8);
    assert(dest_y(g, g.pixels@.last(), 0, lh) == lh - g.height + g.pixels@.last().y - 2);
}

/// A non-empty grid never crops to an empty region: even when its glyphs
/// draw no ink (a grid of spaces), the cropped content height is at least
/// one pixel, as long as the canvas has any height at all.
pub proof fn lemma_nonempty_grid_crop_positive(rows: Seq<RowLayout>, lh: int, ch: int)
    requires
        rows.len() >= 1,
        ch >= 1,
    ensures
        1 <= crop_height(rows, lh, ch) <= ch,
{
}

/// Encodes the canvas as JPEG bytes, dropping the alpha channel: the output
/// is RGB even though the canvas is RGBA. Succeeds exactly when both canvas
/// dimensions lie in JPEG's `1..=65535` range; a dimension outside it is
/// reported as `EncodeError`.
pub fn encode_canvas_jpeg(canvas: &Canvas) -> (r: Result<Vec<u8>, AartError>)
    requires
        canvas.wf(),
    ensures
        r is Ok <==> imgio::jpeg_dims_ok(canvas.width, canvas.height),
        r matches Ok(b) ==> b@ == imgio::jpeg_bytes(rgb_bytes_spec(*canvas), canvas.width, canvas.height),
        r matches Err(e) ==> e == AartError::EncodeError,
{
    let rgb = canvas.to_rgb_bytes();
    imgio::encode_rgb_jpeg(&rgb, canvas.width, canvas.height)
}

/// The RGB bytes of a canvas in row-major order: the alpha channel dropped.
pub open spec fn rgb_bytes_spec(c: Canvas) -> Seq<u8> {
    Seq::new(
        (3 * c.width * c.height) as nat,
        |k: int|
            {
                let pi = k / 3;
                let x = pi % (c.width as int);
                let y = pi / (c.width as int);
                let ch = k % 3;
                if ch == 0 {
                    c.pixel(x, y).0
                } else if ch == 1 {
                    c.pixel(x, y).1
                } else {
                    c.pixel(x, y).2
                }
            },
    )
}

impl Canvas {
    /// The RGB bytes of the canvas, in row-major order, the alpha channel
    /// dropped.
    pub fn to_rgb_bytes(&self) -> (r: Vec<u8>)
        requires
            self.wf(),
        ensures
            r@ == rgb_bytes_spec(*self),
            r@.len() == 3 * self.width * self.height,
    {
        let w = self.width as usize;
        let h = self.height as usize;
        let len = self.data.len();
        proof {
            assert((w as int) * (h as int) <= len && 3 * ((w as int) * (h as int)) <= len)
                by (nonlinear_arith)
                requires
                    w >= 0,
                    h >= 0,
                    (len as int) == 4 * (w as int) * (h as int);
        }
        let total: usize = 3 * (w * h);
        proof {
            assert((total as int) == 3 * (w as int) * (h as int)) by (nonlinear_arith)
                requires (total as int) == 3 * ((w as int) * (h as int));
        }
        let mut out: Vec<u8> = Vec::new();
        let mut k: usize = 0;
        while k < total
            invariant
                self.wf(),
                w == self.width,
                h == self.height,
                (total as int) == 3 * ((w as int) * (h as int)),
                (total as int) == 3 * (w as int) * (h as int),
                k <= total,
                out@.len() == k,
                forall|j: int| 0 <= j < k ==> out@[j] == rgb_bytes_spec(*self)[j],
            decreases total - k,
        {
            proof {
                assert(w as int * (h as int) > 0 && w >= 1) by (nonlinear_arith)
                    requires
                        0 <= k,
                        (k as int) < 3 * ((w as int) * (h as int)),
                        w >= 0,
                        h >= 0;
            }
            let pi: usize = k / 3;
            let chn: usize = k % 3;
            proof {
                assert((pi as int) < (w as int) * (h as int)) by (nonlinear_arith)
                    requires
                        3 * (pi as int) <= k as int,
                        (k as int) < 3 * ((w as int) * (h as int)),
                ;
            }
            let x: usize = pi % w;
            let y: usize = pi / w;
            proof {
                vstd::arithmetic::div_mod::lemma_fundamental_div_mod(pi as int, w as int);
                vstd::arithmetic::div_mod::lemma_mod_division_less_than_divisor(
                    pi as int,
                    w as int,
                );
                assert((y as int) < (h as int)) by (nonlinear_arith)
                    requires
                        (pi as int) == (w as int) * (y as int) + (x as int),
                        0 <= (x as int) < (w as int),
                        (pi as int) < (w as int) * (h as int),
                        w >= 1;
            }
            let px = self.get_pixel(x as u32, y as u32);
            let b: u8 = if chn == 0 {
                px.0
            } else if chn == 1 {
                px.1
            } else {
                px.2
            };
            out.push(b);
            proof {
                assert(rgb_bytes_spec(*self)[k as int] == b);
            }
            k += 1;
        }
        proof {
            assert(out@ =~= rgb_bytes_spec(*self));
        }
        out
    }
}

} // verus!
