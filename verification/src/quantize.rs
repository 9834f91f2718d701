//! The quantizer: maps luminance bytes to characters of an ordered alphabet
//! and builds the character grid of a grayscale raster.

use vstd::prelude::*;

use crate::AartError;

verus! {

/// The luminance bucket that a pixel of luminance `lum` falls in when the
/// `0..=255` range is split into `n` buckets of width `256 / n` (integer
/// division; the last bucket absorbs the remainder). The index is clamped
/// to `n - 1`: when `256 % n != 0`, the brightest luminances would otherwise
/// index one past the alphabet. An alphabet longer than 256 characters gets
/// a bucket width of zero from the integer division; each luminance value is
/// then its own bucket and the brightest characters go unused.
pub open spec fn bucket_index(lum: int, n: int) -> int
    recommends
        0 <= lum < 256,
        n >= 1,
{
    let step = 256int / n;
    if step == 0 {
        lum
    } else if lum / step <= n - 1 {
        lum / step
    } else {
        n - 1
    }
}

/// Maps one luminance byte to its character of the alphabet.
pub fn char_for_luminance(lum: u8, alphabet: &Vec<char>) -> (c: char)
    requires
        alphabet@.len() >= 1,
    ensures
        c == alphabet@[bucket_index(lum as int, alphabet@.len() as int)],
{
    let n = alphabet.len();
    let step: usize = 256 / n;
    if step == 0 {
        assert(n > 256) by (nonlinear_arith)
            requires n >= 1 && 256int / (n as int) == 0;
        alphabet[lum as usize]
    } else {
        let q = (lum as usize) / step;
        if q <= n - 1 {
            alphabet[q]
        } else {
            alphabet[n - 1]
        }
    }
}

/// A grayscale raster: one luminance byte per pixel, row-major.
#[derive(Debug)]
pub struct LumaImage {
    pub pixels: Vec<u8>,
    pub width: u32,
    pub height: u32,
}

impl LumaImage {
    /// One byte per pixel.
    pub open spec fn wf(&self) -> bool {
        self.pixels@.len() == self.width * self.height
    }

    /// Builds a raster from raw luminance bytes; refuses a byte count that
    /// does not match the dimensions.
    pub fn new(pixels: Vec<u8>, width: u32, height: u32) -> (r: Option<LumaImage>)
        ensures
            r is Some <==> pixels@.len() == width * height,
            r matches Some(img) ==> img.wf() && img.pixels@ == pixels@
                && img.width == width && img.height == height,
    {
        let w64 = width as u64;
        let h64 = height as u64;
        proof {
            assert(w64 * h64 <= 0xFFFF_FFFFu64 * 0xFFFF_FFFFu64) by (nonlinear_arith)
                requires w64 <= 0xFFFF_FFFFu64 && h64 <= 0xFFFF_FFFFu64;
        }
        if pixels.len() as u64 == w64 * h64 {
            Some(LumaImage { pixels, width, height })
        } else {
            None
        }
    }
}

/// The character grid of a luminance raster: one row per raster row, one
/// character per pixel, chosen by `bucket_index`.
pub open spec fn grid_spec(
    pixels: Seq<u8>,
    width: nat,
    height: nat,
    alphabet: Seq<char>,
) -> Seq<Seq<char>>
    recommends
        pixels.len() == width * height,
        alphabet.len() >= 1,
{
    Seq::new(
        height,
        |r: int|
            Seq::new(
                width,
                |c: int|
                    alphabet[bucket_index(
                        pixels[r * width as int + c] as int,
                        alphabet.len() as int,
                    )],
            ),
    )
}

/// Builds the character grid of a grayscale raster: `height` rows of `width`
/// characters, each pixel mapped through `bucket_index`. An empty alphabet
/// admits no bucket and is refused before any row is built.
pub fn quantize(img: &LumaImage, alphabet: &Vec<char>) -> (r: Result<
    Vec<Vec<char>>,
    AartError,
>)
    requires
        img.wf(),
    ensures
        r is Err <==> alphabet@.len() == 0,
        r matches Err(e) ==> e == AartError::InvalidAlphabet,
        r matches Ok(g) ==> g.deep_view() == grid_spec(
            img.pixels@,
            img.width as nat,
            img.height as nat,
            alphabet@,
        ),
{
    if alphabet.len() == 0 {
        return Err(AartError::InvalidAlphabet);
    }
    let ghost gs = grid_spec(img.pixels@, img.width as nat, img.height as nat, alphabet@);
    let width = img.width as usize;
    let height = img.height as usize;
    let n_pixels = img.pixels.len();
    assert(width * height == n_pixels);
    let mut grid: Vec<Vec<char>> = Vec::new();
    let mut r: usize = 0;
    while r < height
        invariant
            img.wf(),
            alphabet@.len() >= 1,
            width == img.width,
            height == img.height,
            r <= height,
            width * height <= usize::MAX,
            gs == grid_spec(img.pixels@, img.width as nat, img.height as nat, alphabet@),
            grid.deep_view() == gs.take(r as int),
        decreases height - r,
    {
        let mut row: Vec<char> = Vec::new();
        let mut c: usize = 0;
        while c < width
            invariant
                img.wf(),
                alphabet@.len() >= 1,
                width == img.width,
                height == img.height,
                r < height,
                c <= width,
                width * height <= usize::MAX,
                gs == grid_spec(img.pixels@, img.width as nat, img.height as nat, alphabet@),
                row@ == gs[r as int].take(c as int),
            decreases width - c,
        {
            assert(r * width + c < width * height && r * width <= width * height)
                by (nonlinear_arith)
                requires r < height && c < width;
            let p = img.pixels[r * width + c];
            row.push(char_for_luminance(p, alphabet));
            assert(row@ =~= gs[r as int].take(c as int + 1));
            c += 1;
        }
        assert(row@ =~= gs[r as int]);
        let ghost rowval = row;
        let ghost prev = grid@;
        let ghost pre_dv = grid.deep_view();
        grid.push(row);
        proof {
            assert(pre_dv.len() == prev.len());
            assert(pre_dv.len() == r as int);
            assert(grid@ == prev.push(rowval));
            assert forall|i: int| 0 <= i < r + 1 implies grid.deep_view()[i] == gs.take(
                r as int + 1,
            )[i] by {
                if i < r {
                    assert(grid@[i] == prev[i]);
                    assert(grid.deep_view()[i] == pre_dv[i]);
                } else {
                    assert(grid@[i] == rowval);
                    assert(rowval.deep_view() =~= rowval@);
                }
            }
            assert(grid.deep_view() =~= gs.take(r as int + 1));
        }
        r += 1;
    }
    assert(gs.take(height as int) =~= gs);
    Ok(grid)
}

/// All pixels of one luminance map to one character: every cell of the grid
/// of a uniform raster equals `alphabet[bucket_index(v, N)]`, whatever the
/// dimensions and whatever the (non-empty) alphabet.
pub proof fn lemma_uniform_grid(
    pixels: Seq<u8>,
    width: nat,
    height: nat,
    alphabet: Seq<char>,
    v: u8,
)
    requires
        pixels.len() == width * height,
        alphabet.len() >= 1,
        forall|i: int| 0 <= i < pixels.len() ==> pixels[i] == v,
    ensures
        forall|r: int, c: int|
            0 <= r < height && 0 <= c < width ==> grid_spec(pixels, width, height, alphabet)[r][c]
                == alphabet[bucket_index(v as int, alphabet.len() as int)],
{
    assert forall|r: int, c: int| 0 <= r < height && 0 <= c < width implies grid_spec(
        pixels,
        width,
        height,
        alphabet,
    )[r][c] == alphabet[bucket_index(v as int, alphabet.len() as int)] by {
        assert(0 <= r * width + c < width * height) by (nonlinear_arith)
            requires 0 <= r < height && 0 <= c < width;
    }
}

/// The grid of a `width` by `height` raster has exactly `height` rows, each
/// of exactly `width` characters.
pub proof fn lemma_grid_dimensions(pixels: Seq<u8>, width: nat, height: nat, alphabet: Seq<char>)
    ensures
        grid_spec(pixels, width, height, alphabet).len() == height,
        forall|r: int|
            0 <= r < height ==> grid_spec(pixels, width, height, alphabet)[r].len() == width,
{
}

/// A one-character alphabet yields a uniform grid of that character,
/// whatever the luminances: the single bucket takes every value.
pub proof fn lemma_single_character(pixels: Seq<u8>, width: nat, height: nat, alphabet: Seq<char>)
    requires
        pixels.len() == width * height,
        alphabet.len() == 1,
    ensures
        forall|r: int, c: int|
            0 <= r < height && 0 <= c < width ==> grid_spec(pixels, width, height, alphabet)[r][c]
                == alphabet[0],
{
    assert forall|r: int, c: int| 0 <= r < height && 0 <= c < width implies grid_spec(
        pixels,
        width,
        height,
        alphabet,
    )[r][c] == alphabet[0] by {
        assert(0 <= r * width + c < width * height) by (nonlinear_arith)
            requires 0 <= r < height && 0 <= c < width;
        let lum = pixels[r * width as int + c] as int;
        assert(bucket_index(lum, 1) == 0);
    }
}

} // verus!
