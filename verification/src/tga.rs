//! The uncompressed true-colour image file that the pipeline writes.
//!
//! A file is a header of 18 bytes followed by the pixels. Rows are written
//! from the bottom of the image to its top, and each pixel as blue, green,
//! red and, at 32 bits, alpha.

use vstd::prelude::*;
use vstd::arithmetic::div_mod::lemma_fundamental_div_mod_converse;
use crate::image::Size;
use crate::palette::{Rgb, Rgba};

verus! {

/// Number of bytes of the header.
pub const HEADER_LEN: usize = 18;

/// The header of an image of `size` with `depth` bits per pixel: the marker
/// of an uncompressed true-colour image, no colour map, width and height as
/// 16-bit little-endian numbers, and the depth.
pub open spec fn header(size: Size, depth: u8) -> Seq<u8> {
    seq![
        0u8,
        0u8,
        2u8,
        0u8,
        0u8,
        0u8,
        0u8,
        0u8,
        0u8,
        0u8,
        0u8,
        0u8,
        (size.width % 256) as u8,
        (size.width / 256 % 256) as u8,
        (size.height % 256) as u8,
        (size.height / 256 % 256) as u8,
        depth,
        0u8,
    ]
}

/// The place in an image of `size`, counted row after row from the top, of
/// the pixel that is written as number `k`: rows are written from the bottom.
pub open spec fn flipped(size: Size, k: int) -> int {
    (size.height - 1 - k / (size.width as int)) * size.width + k % (size.width as int)
}

/// The bytes of one pixel at 24 bits.
pub open spec fn bgr(c: Rgb) -> Seq<u8> {
    seq![c.b, c.g, c.r]
}

/// The bytes of one pixel at 32 bits.
pub open spec fn bgra(c: Rgba) -> Seq<u8> {
    seq![c.b, c.g, c.r, c.a]
}

/// The pixel data of an image of `size` over `colors` at 24 bits.
pub open spec fn body24(size: Size, colors: Seq<Rgb>) -> Seq<u8> {
    Seq::new(3 * size.area(), |i: int| bgr(colors[flipped(size, i / 3)])[i % 3])
}

/// The pixel data of an image of `size` over `colors` at 32 bits.
pub open spec fn body32(size: Size, colors: Seq<Rgba>) -> Seq<u8> {
    Seq::new(4 * size.area(), |i: int| bgra(colors[flipped(size, i / 4)])[i % 4])
}

/// The file of an image of `size` over `colors` at 24 bits.
pub open spec fn file24(size: Size, colors: Seq<Rgb>) -> Seq<u8> {
    header(size, 24) + body24(size, colors)
}

/// The file of an image of `size` over `colors` at 32 bits.
pub open spec fn file32(size: Size, colors: Seq<Rgba>) -> Seq<u8> {
    header(size, 32) + body32(size, colors)
}

/// The pixel written as number `row * width + col` is the pixel at column
/// `col` of the row that lies `row` rows above the bottom row.
pub proof fn lemma_flipped(size: Size, row: int, col: int)
    requires
        0 <= row < size.height,
        0 <= col < size.width,
    ensures
        0 <= row * size.width + col < size.area(),
        flipped(size, row * size.width + col) == (size.height - 1 - row) * size.width + col,
        0 <= flipped(size, row * size.width + col) < size.area(),
{
    let w = size.width as int;
    let h = size.height as int;
    lemma_fundamental_div_mod_converse(row * w + col, w, row, col);
    assert(0 <= row * w && (row + 1) * w <= h * w) by (nonlinear_arith)
        requires
            0 <= row < h,
            0 < w,
    ;
    assert((row + 1) * w == row * w + w) by (nonlinear_arith);
    assert(0 <= (h - 1 - row) * w && (h - row) * w <= h * w) by (nonlinear_arith)
        requires
            0 <= row < h,
            0 < w,
    ;
    assert((h - row) * w == (h - 1 - row) * w + w) by (nonlinear_arith);
    assert(size.area() == w * h);
    assert(w * h == h * w) by (nonlinear_arith);
}

/// The layout of a file of 32 bits per pixel: width and height stand in
/// bytes 12 to 15, low byte first, and the pixels that follow the header
/// start with the bottom row of the image.
pub proof fn lemma_file32_layout(size: Size, colors: Seq<Rgba>, col: int)
    requires
        0 < size.height,
        0 <= col < size.width,
    ensures
        file32(size, colors).len() == HEADER_LEN + 4 * size.area(),
        file32(size, colors)[12] == size.width % 256,
        file32(size, colors)[13] == size.width / 256 % 256,
        file32(size, colors)[14] == size.height % 256,
        file32(size, colors)[15] == size.height / 256 % 256,
        file32(size, colors).subrange(HEADER_LEN + 4 * col, HEADER_LEN + 4 * col + 4) == bgra(
            colors[(size.height - 1) * size.width + col],
        ),
{
    lemma_flipped(size, 0, col);
    assert(0 * size.width + col == col) by (nonlinear_arith);
    assert((size.height - 1 - 0) * size.width == (size.height - 1) * size.width);
    let file = file32(size, colors);
    let pixel = bgra(colors[(size.height - 1) * size.width + col]);
    assert(file.subrange(HEADER_LEN + 4 * col, HEADER_LEN + 4 * col + 4) =~= pixel);
}

/// The layout of a file of 24 bits per pixel: the same header, and three
/// bytes per pixel, the bottom row first.
pub proof fn lemma_file24_layout(size: Size, colors: Seq<Rgb>, col: int)
    requires
        0 < size.height,
        0 <= col < size.width,
    ensures
        file24(size, colors).len() == HEADER_LEN + 3 * size.area(),
        file24(size, colors)[12] == size.width % 256,
        file24(size, colors)[13] == size.width / 256 % 256,
        file24(size, colors)[14] == size.height % 256,
        file24(size, colors)[15] == size.height / 256 % 256,
        file24(size, colors).subrange(HEADER_LEN + 3 * col, HEADER_LEN + 3 * col + 3) == bgr(
            colors[(size.height - 1) * size.width + col],
        ),
{
    lemma_flipped(size, 0, col);
    assert(0 * size.width + col == col) by (nonlinear_arith);
    assert((size.height - 1 - 0) * size.width == (size.height - 1) * size.width);
    let file = file24(size, colors);
    let pixel = bgr(colors[(size.height - 1) * size.width + col]);
    assert(file.subrange(HEADER_LEN + 3 * col, HEADER_LEN + 3 * col + 3) =~= pixel);
}

/// The header of an image of `size` with `depth` bits per pixel.
fn header_bytes(size: Size, depth: u8) -> (out: Vec<u8>)
    ensures
        out@ == header(size, depth),
{
    let mut out: Vec<u8> = Vec::new();
    out.push(0);
    out.push(0);
    out.push(2);
    let mut k: usize = 0;
    while k < 9
        invariant
            k <= 9,
            out@.len() == 3 + k,
            out@[0] == 0 && out@[1] == 0 && out@[2] == 2,
            forall|i: int| 3 <= i < 3 + k ==> out@[i] == 0,
        decreases 9 - k,
    {
        out.push(0);
        k += 1;
    }
    out.push((size.width % 256) as u8);
    out.push((size.width / 256 % 256) as u8);
    out.push((size.height % 256) as u8);
    out.push((size.height / 256 % 256) as u8);
    out.push(depth);
    out.push(0);
    proof {
        assert(out@ =~= header(size, depth));
    }
    out
}

/// Encodes an image of `size` over `colors`, which holds the colours row
/// after row from the top, as a file of 24 bits per pixel.
pub fn encode_rgb(size: Size, colors: &[Rgb]) -> (out: Vec<u8>)
    requires
        colors@.len() == size.area(),
        HEADER_LEN + 3 * size.area() <= usize::MAX,
    ensures
        out@ == file24(size, colors@),
{
    let width = size.width as usize;
    let height = size.height as usize;
    let len = colors.len();
    let mut out = header_bytes(size, 24);
    let ghost body = body24(size, colors@);
    let mut row: usize = 0;
    proof {
        assert(out@ =~= header(size, 24) + body.subrange(0, 0));
    }
    while row < height
        invariant
            row <= height,
            width == size.width,
            height == size.height,
            colors@.len() == size.area(),
            colors@.len() <= usize::MAX,
            body == body24(size, colors@),
            out@ == header(size, 24) + body.subrange(0, 3 * (row * width)),
        decreases height - row,
    {
        let mut col: usize = 0;
        while col < width
            invariant
                col <= width,
                row < height,
                width == size.width,
                height == size.height,
                colors@.len() == size.area(),
                colors@.len() <= usize::MAX,
                body == body24(size, colors@),
                out@ == header(size, 24) + body.subrange(0, 3 * (row * width + col)),
            decreases width - col,
        {
            proof {
                lemma_flipped(size, row as int, col as int);
            }
            let c = colors[(height - 1 - row) * width + col];
            let ghost before = out@;
            out.push(c.b);
            out.push(c.g);
            out.push(c.r);
            proof {
                let k = row * width + col;
                assert(out@ =~= before + bgr(c));
                assert(body.subrange(0, 3 * (k + 1)) =~= body.subrange(0, 3 * k) + bgr(c));
                assert(out@ =~= header(size, 24) + body.subrange(0, 3 * (k + 1)));
            }
            col += 1;
        }
        proof {
            assert((row + 1) * width == row * width + width) by (nonlinear_arith);
        }
        row += 1;
    }
    proof {
        assert(height * width == size.area()) by (nonlinear_arith)
            requires
                width == size.width,
                height == size.height,
                size.area() == size.width * size.height,
        ;
        assert(body.subrange(0, 3 * (height * width)) =~= body);
    }
    out
}

/// Encodes an image of `size` over `colors`, which holds the colours row
/// after row from the top, as a file of 32 bits per pixel.
pub fn encode_rgba(size: Size, colors: &[Rgba]) -> (out: Vec<u8>)
    requires
        colors@.len() == size.area(),
        HEADER_LEN + 4 * size.area() <= usize::MAX,
    ensures
        out@ == file32(size, colors@),
{
    let width = size.width as usize;
    let height = size.height as usize;
    let len = colors.len();
    let mut out = header_bytes(size, 32);
    let ghost body = body32(size, colors@);
    let mut row: usize = 0;
    proof {
        assert(out@ =~= header(size, 32) + body.subrange(0, 0));
    }
    while row < height
        invariant
            row <= height,
            width == size.width,
            height == size.height,
            colors@.len() == size.area(),
            colors@.len() <= usize::MAX,
            body == body32(size, colors@),
            out@ == header(size, 32) + body.subrange(0, 4 * (row * width)),
        decreases height - row,
    {
        let mut col: usize = 0;
        while col < width
            invariant
                col <= width,
                row < height,
                width == size.width,
                height == size.height,
                colors@.len() == size.area(),
                colors@.len() <= usize::MAX,
                body == body32(size, colors@),
                out@ == header(size, 32) + body.subrange(0, 4 * (row * width + col)),
            decreases width - col,
        {
            proof {
                lemma_flipped(size, row as int, col as int);
            }
            let c = colors[(height - 1 - row) * width + col];
            let ghost before = out@;
            out.push(c.b);
            out.push(c.g);
            out.push(c.r);
            out.push(c.a);
            proof {
                let k = row * width + col;
                assert(out@ =~= before + bgra(c));
                assert(body.subrange(0, 4 * (k + 1)) =~= body.subrange(0, 4 * k) + bgra(c));
                assert(out@ =~= header(size, 32) + body.subrange(0, 4 * (k + 1)));
            }
            col += 1;
        }
        proof {
            assert((row + 1) * width == row * width + width) by (nonlinear_arith);
        }
        row += 1;
    }
    proof {
        assert(height * width == size.area()) by (nonlinear_arith)
            requires
                width == size.width,
                height == size.height,
                size.area() == size.width * size.height,
        ;
        assert(body.subrange(0, 4 * (height * width)) =~= body);
    }
    out
}

} // verus!
