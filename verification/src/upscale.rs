//! Nearest-neighbor upscaling.

use vstd::arithmetic::div_mod::lemma_fundamental_div_mod_converse;
use vstd::prelude::*;
use vstd::slice::slice_subrange;

use crate::bytes::push_bytes;

verus! {

/// Where byte `i` of an image of width `w * scale` comes from in the image of
/// width `w`: the same channel of the pixel in whose `scale` x `scale` block it
/// lies.
pub open spec fn upscale_source(i: int, w: int, scale: int) -> int {
    let row = i / 3 / (w * scale);
    let col = i / 3 % (w * scale);
    (row / scale * w + col / scale) * 3 + i % 3
}

/// The tightly packed RGB888 image `src` of `w` columns and `h` rows with each
/// pixel replaced by a `scale` x `scale` block of itself.
pub open spec fn upscale_rgb(src: Seq<u8>, w: nat, h: nat, scale: nat) -> Seq<u8> {
    Seq::new(
        w * scale * (h * scale) * 3,
        |i: int| src[upscale_source(i, w as int, scale as int)],
    )
}

/// Byte `j` of scaled row `row` is byte `j` of that row.
proof fn lemma_source_in_row(row: int, j: int, w: int, scale: int, y: int)
    requires
        scale > 0,
        w > 0,
        0 <= j < w * scale * 3,
        y * scale <= row < y * scale + scale,
    ensures
        upscale_source(row * (w * scale * 3) + j, w, scale) == (y * w + j / 3 / scale) * 3 + j % 3,
{
    let sw = w * scale;
    let i = row * (sw * 3) + j;
    assert(i == (row * sw) * 3 + j) by (nonlinear_arith)
        requires
            i == row * (sw * 3) + j,
    ;
    assert(i / 3 == row * sw + j / 3 && i % 3 == j % 3);
    lemma_fundamental_div_mod_converse(i / 3, sw, row, j / 3);
    assert(row == y * scale + (row - y * scale));
    lemma_fundamental_div_mod_converse(row, scale, y, row - y * scale);
}

/// No product that is formed on the way exceeds the size of the result.
proof fn lemma_products_fit(w: int, h: int, scale: int)
    by (nonlinear_arith)
    requires
        w >= 0,
        h >= 0,
        scale >= 1,
    ensures
        0 <= w * scale <= w * scale * 3,
        0 <= w * scale * h <= w * scale * h * scale <= w * scale * h * scale * 3,
        w * scale * h * scale * 3 == w * scale * (h * scale) * 3,
{
}

/// Nearest-neighbor upscale of a tightly-packed RGB888 image. Each source
/// pixel becomes a `scale`x`scale` block of identical pixels in the output.
pub fn nearest_neighbor_upscale_rgb(src: &[u8], w: usize, h: usize, scale: usize) -> (out: Vec<u8>)
    requires
        scale >= 1,
        src.len() >= w * h * 3,
        w * scale * (h * scale) * 3 <= isize::MAX,
        w * scale * 3 <= isize::MAX,
    ensures
        out@ == upscale_rgb(src@, w as nat, h as nat, scale as nat),
{
    proof {
        lemma_products_fit(w as int, h as int, scale as int);
    }
    let sw: usize = w * scale;
    let ghost row_len: int = w * scale * 3;
    let mut out: Vec<u8> = Vec::with_capacity(sw * h * scale * 3);
    let mut scaled_row: Vec<u8> = Vec::with_capacity(sw * 3);
    assert(0 * scale * row_len == 0) by (nonlinear_arith);
    for y in 0..h
        invariant
            scale >= 1,
            src.len() >= w * h * 3,
            w * scale * (h * scale) * 3 <= isize::MAX,
            row_len == w * scale * 3 <= isize::MAX,
            out@.len() == y * scale * row_len,
            forall|i: int|
                0 <= i < out@.len() ==> #[trigger] out@[i] == src@[upscale_source(
                    i,
                    w as int,
                    scale as int,
                )],
    {
        scaled_row.clear();
        assert(0 <= y * w <= y * w * 3 && y * w * 3 + w * 3 <= w * h * 3) by (nonlinear_arith)
            requires
                y < h,
        ;
        let row = slice_subrange(src, y * w * 3, y * w * 3 + w * 3);
        assert(0 * scale * 3 == 0) by (nonlinear_arith);
        for x in 0..w
            invariant
                scale >= 1,
                src.len() >= w * h * 3,
                y * w * 3 + w * 3 <= w * h * 3,
                row@ == src@.subrange(y * w * 3, y * w * 3 + w * 3),
                row.len() == w * 3,
                scaled_row@.len() == x * scale * 3,
                forall|j: int|
                    0 <= j < scaled_row@.len() ==> #[trigger] scaled_row@[j] == src@[(y * w + j / 3
                        / (scale as int)) * 3 + j % 3],
        {
            let pix = slice_subrange(row, x * 3, x * 3 + 3);
            for k in 0..scale
                invariant
                    x < w,
                    scale >= 1,
                    src.len() >= w * h * 3,
                    y * w * 3 + w * 3 <= w * h * 3,
                    row@ == src@.subrange(y * w * 3, y * w * 3 + w * 3),
                    pix@ == row@.subrange(x * 3, x * 3 + 3),
                    scaled_row@.len() == (x * scale + k) * 3,
                    forall|j: int|
                        0 <= j < scaled_row@.len() ==> #[trigger] scaled_row@[j] == src@[(y * w + j
                            / 3 / (scale as int)) * 3 + j % 3],
            {
                push_bytes(&mut scaled_row, pix);
                proof {
                    lemma_fundamental_div_mod_converse(x * scale + k, scale as int, x as int, k as int);
                }
            }
            assert((x * scale + scale) * 3 == (x + 1) * scale * 3) by (nonlinear_arith);
        }
        assert(scaled_row@.len() == row_len);
        for k in 0..scale
            invariant
                y < h,
                scale >= 1,
                row_len == w * scale * 3,
                scaled_row@.len() == row_len,
                forall|j: int|
                    0 <= j < scaled_row@.len() ==> #[trigger] scaled_row@[j] == src@[(y * w + j / 3
                        / (scale as int)) * 3 + j % 3],
                out@.len() == (y * scale + k) * row_len,
                forall|i: int|
                    0 <= i < out@.len() ==> #[trigger] out@[i] == src@[upscale_source(
                        i,
                        w as int,
                        scale as int,
                    )],
        {
            let ghost before = out@;
            push_bytes(&mut out, scaled_row.as_slice());
            proof {
                let r: int = y * scale + k;
                assert((r + 1) * row_len == r * row_len + row_len) by (nonlinear_arith);
                assert forall|i: int| before.len() <= i < out@.len() implies #[trigger] out@[i]
                    == src@[upscale_source(i, w as int, scale as int)] by {
                    let j = i - before.len();
                    assert(w > 0) by (nonlinear_arith)
                        requires
                            row_len == w * scale * 3,
                            row_len > 0,
                            w >= 0,
                    ;
                    lemma_source_in_row(r, j, w as int, scale as int, y as int);
                    assert(out@[i] == scaled_row@[j]);
                }
            }
        }
        assert((y * scale + scale) * row_len == (y + 1) * scale * row_len) by (nonlinear_arith);
    }
    proof {
        assert(h * scale * row_len == w * scale * (h * scale) * 3) by (nonlinear_arith)
            requires
                row_len == w * scale * 3,
        ;
        assert(out@ =~= upscale_rgb(src@, w as nat, h as nat, scale as nat));
    }
    out
}

/// The upscaled image shows, at every row and column, the source pixel in whose
/// block that place lies.
pub proof fn upscaled_pixel_is_its_source(
    src: Seq<u8>,
    w: nat,
    h: nat,
    scale: nat,
    row: int,
    col: int,
    channel: int,
)
    requires
        scale >= 1,
        0 <= row < h * scale,
        0 <= col < w * scale,
        0 <= channel < 3,
    ensures
        0 <= (row * (w * scale) + col) * 3 + channel < upscale_rgb(src, w, h, scale).len(),
        upscale_rgb(src, w, h, scale)[(row * (w * scale) + col) * 3 + channel] == src[(row / (
        scale as int) * w + col / (scale as int)) * 3 + channel],
{
    let sw = w * scale;
    let at = (row * sw + col) * 3 + channel;
    assert(0 <= row * sw && row * sw + sw <= (h * scale) * sw) by (nonlinear_arith)
        requires
            0 <= row < h * scale,
            sw >= 0,
    ;
    assert((h * scale) * sw == w * scale * (h * scale)) by (nonlinear_arith)
        requires
            sw == w * scale,
    ;
    assert(at / 3 == row * sw + col && at % 3 == channel);
    lemma_fundamental_div_mod_converse(at / 3, sw as int, row, col);
}

/// Upscaling by `scale` multiplies the size of an image by the square of
/// `scale`.
pub proof fn upscaling_grows_quadratically(src: Seq<u8>, w: nat, h: nat, scale: nat)
    requires
        src.len() == w * h * 3,
    ensures
        upscale_rgb(src, w, h, scale).len() == src.len() * (scale * scale),
{
    assert(w * scale * (h * scale) * 3 == w * h * 3 * (scale * scale)) by (nonlinear_arith);
}

/// Upscaling by one changes nothing.
pub proof fn upscaling_by_one_is_identity(src: Seq<u8>, w: nat, h: nat)
    requires
        src.len() == w * h * 3,
    ensures
        upscale_rgb(src, w, h, 1) == src,
{
    assert(w * 1 == w && h * 1 == h);
    assert forall|i: int| 0 <= i < src.len() implies #[trigger] src[i] == upscale_rgb(
        src,
        w,
        h,
        1,
    )[i] by {
        let p = i / 3;
        assert(w > 0) by (nonlinear_arith)
            requires
                w * h * 3 > 0,
        ;
        vstd::arithmetic::div_mod::lemma_fundamental_div_mod(p, w as int);
        assert(w * (p / (w as int)) == p / (w as int) * w) by (nonlinear_arith);
        assert(p / (w as int) / 1 == p / (w as int));
        assert(p % (w as int) / 1 == p % (w as int));
    }
    assert(upscale_rgb(src, w, h, 1) =~= src);
}

} // verus!
