use aart::imgio::load_gray_thumbnail;
use aart::quantize::quantize;
use aart::render::{encode_canvas_jpeg, render_rows, GlyphPixel, GlyphRaster, RowLayout};
use aart::AartError;

fn png_of_uniform(w: u32, h: u32, rgb: [u8; 3]) -> Vec<u8> {
    let mut img = image::RgbImage::new(w, h);
    for p in img.pixels_mut() {
        *p = image::Rgb(rgb);
    }
    let mut out = std::io::Cursor::new(Vec::new());
    image::DynamicImage::ImageRgb8(img)
        .write_to(&mut out, image::ImageFormat::Png)
        .unwrap();
    out.into_inner()
}

#[test]
fn white_image_quantizes_to_brightest_character() {
    let bytes = png_of_uniform(4, 4, [255, 255, 255]);
    let img = load_gray_thumbnail(&bytes, 4).unwrap();
    assert_eq!(img.width, 4);
    assert_eq!(img.height, 4);
    let grid = quantize(&img, &vec![' ', '·', '>', 'X']).unwrap();
    assert_eq!(grid.len(), 4);
    let expected: Vec<char> = "XXXX".chars().collect();
    for row in &grid {
        assert_eq!(row, &expected);
    }
}

#[test]
fn black_image_quantizes_to_darkest_character() {
    let bytes = png_of_uniform(4, 4, [0, 0, 0]);
    let img = load_gray_thumbnail(&bytes, 4).unwrap();
    let grid = quantize(&img, &vec![' ', '·', '>', 'X']).unwrap();
    assert_eq!(grid.len(), 4);
    let expected: Vec<char> = "    ".chars().collect();
    for row in &grid {
        assert_eq!(row, &expected);
    }
}

#[test]
fn garbage_bytes_fail_with_decode_error() {
    let junk: Vec<u8> = vec![1, 2, 3, 4, 5, 6, 7, 8];
    assert_eq!(load_gray_thumbnail(&junk, 40).unwrap_err(), AartError::DecodeError);
}

#[test]
fn thumbnail_keeps_one_byte_per_pixel() {
    let bytes = png_of_uniform(10, 6, [128, 128, 128]);
    let img = load_gray_thumbnail(&bytes, 10).unwrap();
    assert_eq!(img.pixels.len(), (img.width * img.height) as usize);
    assert_eq!(img.width, 10);
    assert_eq!(img.height, 6);
    for &p in &img.pixels {
        assert_eq!(p, 128);
    }
}

#[test]
fn zero_width_canvas_fails_to_encode() {
    // A grid whose rows report no advance width crops to width zero, and
    // JPEG refuses a zero dimension.
    let rows = vec![RowLayout { width: 0, glyphs: vec![] }];
    let canvas = render_rows(&rows, 12, 1, 1);
    assert_eq!(canvas.width, 0);
    assert_eq!(encode_canvas_jpeg(&canvas).unwrap_err(), AartError::EncodeError);
}

#[test]
fn inkless_grid_still_encodes_to_a_jpeg() {
    // A row of spaces draws no ink, yet the crop stays a non-empty region
    // and the output is still a valid raster.
    let rows = vec![RowLayout { width: 8, glyphs: vec![] }];
    let canvas = render_rows(&rows, 12, 1, 1);
    assert_eq!((canvas.width, canvas.height), (8, 1));
    let jpeg = encode_canvas_jpeg(&canvas).unwrap();
    let decoded = image::load_from_memory(&jpeg).unwrap().to_rgb8();
    assert_eq!(decoded.dimensions(), (8, 1));
}

#[test]
fn rendered_canvas_encodes_to_valid_jpeg() {
    let rows = vec![RowLayout {
        width: 12,
        glyphs: vec![GlyphRaster {
            min_x: 2,
            height: 6,
            pixels: vec![
                GlyphPixel { x: 0, y: 0, green: 255 },
                GlyphPixel { x: 3, y: 5, green: 180 },
            ],
        }],
    }];
    let canvas = render_rows(&rows, 10, 1, 1);
    let jpeg = encode_canvas_jpeg(&canvas).unwrap();
    assert!(!jpeg.is_empty());
    // JPEG start-of-image marker.
    assert_eq!(&jpeg[0..2], &[0xFF, 0xD8]);
    // The bytes decode back to an image of the cropped dimensions.
    let decoded = image::load_from_memory(&jpeg).unwrap().to_rgb8();
    assert_eq!(decoded.dimensions(), (canvas.width, canvas.height));
}
