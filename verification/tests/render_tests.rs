use aart::render::{
    render_rows, validate_font_size, GlyphPixel, GlyphRaster, RowLayout,
};
use aart::AartError;

#[test]
fn font_size_zero_or_less_is_refused() {
    assert_eq!(validate_font_size(0).unwrap_err(), AartError::InvalidFontSize);
    assert_eq!(validate_font_size(-1).unwrap_err(), AartError::InvalidFontSize);
    assert_eq!(validate_font_size(-1800).unwrap_err(), AartError::InvalidFontSize);
}

#[test]
fn font_size_floors_to_whole_points() {
    assert_eq!(validate_font_size(1800).unwrap(), 18);
    assert_eq!(validate_font_size(1250).unwrap(), 12);
    assert_eq!(validate_font_size(99).unwrap(), 0);
    assert_eq!(validate_font_size(100).unwrap(), 1);
}

#[test]
fn single_glyph_crops_to_positive_box() {
    // One row, one glyph, two covered pixels. With line height 12 a pixel at
    // glyph row y lands at canvas row 1 * 12 - 8 + y - 2 = 2 + y.
    let rows = vec![RowLayout {
        width: 10,
        glyphs: vec![GlyphRaster {
            min_x: 1,
            height: 8,
            pixels: vec![
                GlyphPixel { x: 0, y: 0, green: 200 },
                GlyphPixel { x: 2, y: 7, green: 255 },
            ],
        }],
    }];
    let c = render_rows(&rows, 12, 1, 1);
    assert_eq!(c.width, 10);
    assert_eq!(c.height, 17); // last pixel lands at row 9, plus 8 padding
    assert!(c.width > 0 && c.height > 0);
    assert!(c.width <= 99 && c.height <= 99);
    assert_eq!(c.get_pixel(1, 2), (0, 200, 0, 255));
    assert_eq!(c.get_pixel(3, 9), (0, 255, 0, 255));
    assert_eq!(c.get_pixel(0, 0), (0, 0, 0, 0));
    assert_eq!(c.get_pixel(9, 16), (0, 0, 0, 0));
}

#[test]
fn rows_stack_by_line_height() {
    // Two rows of one glyph each: the second row's pixel lands one line
    // height lower than the first row's.
    let glyph = |green: u8| GlyphRaster {
        min_x: 0,
        height: 5,
        pixels: vec![GlyphPixel { x: 0, y: 0, green }],
    };
    let rows = vec![
        RowLayout { width: 3, glyphs: vec![glyph(100)] },
        RowLayout { width: 3, glyphs: vec![glyph(250)] },
    ];
    // dest_y = (row + 1) * 10 - 5 + 0 - 2 = 10 * row + 3
    let c = render_rows(&rows, 10, 1, 2);
    assert_eq!(c.get_pixel(0, 3), (0, 100, 0, 255));
    assert_eq!(c.get_pixel(0, 13), (0, 250, 0, 255));
    assert_eq!(c.height, 21); // 13 + 8
}

#[test]
fn out_of_bounds_writes_are_dropped_but_counted() {
    // The pixel lands at a negative column, so nothing is drawn, yet the
    // content height still advances past it, as the drawing pass does.
    let rows = vec![RowLayout {
        width: 5,
        glyphs: vec![GlyphRaster {
            min_x: -100,
            height: 0,
            pixels: vec![GlyphPixel { x: 0, y: 0, green: 255 }],
        }],
    }];
    let c = render_rows(&rows, 10, 1, 1);
    assert_eq!(c.width, 5);
    assert_eq!(c.height, 16); // 1 * 10 - 0 + 0 - 2 + 8
    for y in 0..c.height {
        for x in 0..c.width {
            assert_eq!(c.get_pixel(x, y), (0, 0, 0, 0));
        }
    }
}

#[test]
fn rows_without_glyphs_crop_to_minimal_height() {
    // A row of whitespace has an advance width but draws nothing: the crop
    // keeps the width and floors the content height at one pixel, so the
    // region stays non-empty.
    let rows = vec![RowLayout { width: 8, glyphs: vec![] }];
    let c = render_rows(&rows, 12, 1, 1);
    assert_eq!(c.width, 8);
    assert_eq!(c.height, 1);
    for x in 0..c.width {
        assert_eq!(c.get_pixel(x, 0), (0, 0, 0, 0));
    }
}

#[test]
fn overdraw_keeps_the_last_write() {
    let rows = vec![RowLayout {
        width: 4,
        glyphs: vec![GlyphRaster {
            min_x: 0,
            height: 4,
            pixels: vec![
                GlyphPixel { x: 1, y: 1, green: 10 },
                GlyphPixel { x: 1, y: 1, green: 240 },
            ],
        }],
    }];
    // dest_y = 1 * 8 - 4 + 1 - 2 = 3
    let c = render_rows(&rows, 8, 1, 1);
    assert_eq!(c.get_pixel(1, 3), (0, 240, 0, 255));
}

#[test]
fn crop_is_clamped_to_canvas_bounds() {
    // The reported row width exceeds the 99-fold oversized canvas: the crop
    // clamps to the canvas.
    let rows = vec![RowLayout {
        width: 1000,
        glyphs: vec![GlyphRaster {
            min_x: 0,
            height: 1,
            pixels: vec![GlyphPixel { x: 0, y: 0, green: 255 }],
        }],
    }];
    let c = render_rows(&rows, 500, 1, 1);
    assert_eq!(c.width, 99);
    assert_eq!(c.height, 99); // 1 * 500 - 1 + 0 - 2 + 8 clamps to 99
}
