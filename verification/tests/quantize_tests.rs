use aart::AartError;
use aart::quantize::{char_for_luminance, quantize, LumaImage};

fn alphabet4() -> Vec<char> {
    vec![' ', '·', '>', 'X']
}

#[test]
fn uniform_luminance_maps_every_cell() {
    // 256 / 3 = 85, 100 / 85 = 1: every cell of a uniform raster gets the
    // middle character.
    let img = LumaImage::new(vec![100u8; 6], 3, 2).unwrap();
    let alphabet = vec!['a', 'b', 'c'];
    let grid = quantize(&img, &alphabet).unwrap();
    for row in &grid {
        for &c in row {
            assert_eq!(c, 'b');
        }
    }
}

#[test]
fn grid_dimensions_match_thumbnail() {
    let img = LumaImage::new(vec![0u8; 15], 5, 3).unwrap();
    let grid = quantize(&img, &alphabet4()).unwrap();
    assert_eq!(grid.len(), 3);
    for row in &grid {
        assert_eq!(row.len(), 5);
    }
}

#[test]
fn single_char_alphabet_is_uniform() {
    let img = LumaImage::new(vec![0u8, 50, 100, 150, 200, 255], 3, 2).unwrap();
    let grid = quantize(&img, &vec!['Z']).unwrap();
    for row in &grid {
        for &c in row {
            assert_eq!(c, 'Z');
        }
    }
}

#[test]
fn empty_alphabet_is_refused() {
    let img = LumaImage::new(vec![7u8; 4], 2, 2).unwrap();
    let empty: Vec<char> = vec![];
    assert_eq!(quantize(&img, &empty).unwrap_err(), AartError::InvalidAlphabet);
}

#[test]
fn luminance_255_maps_to_last_index() {
    // 256 / 4 = 64 and 255 / 64 = 3: the brightest pixel stays in range.
    assert_eq!(char_for_luminance(255, &alphabet4()), 'X');
    // 256 / 5 = 51 and 255 / 51 = 5: here only the clamp keeps the index at 4.
    let a5 = vec!['a', 'b', 'c', 'd', 'e'];
    assert_eq!(char_for_luminance(255, &a5), 'e');
}

#[test]
fn bucket_boundaries_are_exact() {
    let a = alphabet4();
    assert_eq!(char_for_luminance(0, &a), ' ');
    assert_eq!(char_for_luminance(63, &a), ' ');
    assert_eq!(char_for_luminance(64, &a), '·');
    assert_eq!(char_for_luminance(127, &a), '·');
    assert_eq!(char_for_luminance(128, &a), '>');
    assert_eq!(char_for_luminance(191, &a), '>');
    assert_eq!(char_for_luminance(192, &a), 'X');
    assert_eq!(char_for_luminance(254, &a), 'X');
}

#[test]
fn long_alphabet_uses_one_bucket_per_luminance() {
    // 300 characters: the bucket width 256 / 300 rounds down to zero, so each
    // luminance value indexes the alphabet directly.
    let mut a: Vec<char> = Vec::new();
    for i in 0..300u32 {
        a.push(char::from_u32('A' as u32 + (i % 26)).unwrap());
    }
    assert_eq!(char_for_luminance(0, &a), a[0]);
    assert_eq!(char_for_luminance(37, &a), a[37]);
    assert_eq!(char_for_luminance(255, &a), a[255]);
}

#[test]
fn luma_image_refuses_wrong_byte_count() {
    assert!(LumaImage::new(vec![0u8; 5], 2, 2).is_none());
    assert!(LumaImage::new(vec![0u8; 4], 2, 2).is_some());
    assert!(LumaImage::new(Vec::new(), 0, 7).is_some());
}
