//! Decoded frames in the canonical form: 8-bit RGB pixels, row by row, with
//! nothing between the rows.

use crate::quality::calculate_frame_quality;
use crate::quality::frame_quality;
use crate::quality::QualityScore;
use vstd::arithmetic::div_mod::lemma_fundamental_div_mod_converse;
use vstd::prelude::*;

verus! {

/// One decoded video frame in the canonical form.
#[derive(Clone, Debug, PartialEq, Eq)]
pub struct CandidateFrame {
    /// Pixels to a row.
    pub width: u32,
    /// Rows.
    pub height: u32,
    /// The pixels, row by row from the top, each red, green, blue.
    pub pixels: Vec<(u8, u8, u8)>,
}

/// The pixel `(x, y)` of a buffer of interleaved RGB bytes whose rows start
/// `stride` bytes apart.
pub open spec fn pixel_in(data: Seq<u8>, stride: int, x: int, y: int) -> (u8, u8, u8) {
    (data[y * stride + 3 * x], data[y * stride + 3 * x + 1], data[y * stride + 3 * x + 2])
}

/// Whether a buffer of `data_len` bytes holds every pixel of a frame: whether
/// the last byte of the last pixel of the last row lies in it.
pub open spec fn holds_frame(data_len: int, stride: int, width: int, height: int) -> bool {
    width == 0 || height == 0 || (height - 1) * stride + 3 * (width - 1) + 2 < data_len
}

/// The pixels of a frame taken out of a buffer whose rows start `stride`
/// bytes apart: pixel `i` is the one at column `i % width` of row
/// `i / width`.
pub open spec fn normalized_pixels(data: Seq<u8>, stride: int, width: int, height: int) -> Seq<
    (u8, u8, u8),
> {
    Seq::new((width * height) as nat, |i: int| pixel_in(data, stride, i % width, i / width))
}

/// The pixels as bytes, three to a pixel.
pub open spec fn flatten(pixels: Seq<(u8, u8, u8)>) -> Seq<u8> {
    Seq::new(
        3 * pixels.len(),
        |k: int|
            if k % 3 == 0 {
                pixels[k / 3].0
            } else if k % 3 == 1 {
                pixels[k / 3].1
            } else {
                pixels[k / 3].2
            },
    )
}

/// Row `y` of a frame ends before row `y + 1` begins, and no pixel of the
/// frame lies behind the last one.
proof fn lemma_offsets(stride: int, width: int, height: int, x: int, y: int)
    by (nonlinear_arith)
    requires
        0 <= stride,
        0 <= x < width,
        0 <= y < height,
    ensures
        0 <= y * stride <= (height - 1) * stride,
        0 <= y * width + x < width * height,
        (y + 1) * width == y * width + width,
{
}

/// A product of two numbers is no more than the product of their bounds.
proof fn lemma_product_bounded(a: int, b: int, most_a: int, most_b: int)
    by (nonlinear_arith)
    requires
        0 <= a <= most_a,
        0 <= b <= most_b,
    ensures
        0 <= a * b <= most_a * most_b,
{
}

impl CandidateFrame {
    /// There is one pixel for each place in the frame, and no more of them
    /// than a `u32` counts.
    pub open spec fn wf(&self) -> bool {
        &&& self.pixels@.len() == self.width * self.height
        &&& self.pixels@.len() <= u32::MAX
    }

    /// The frame's three quality scores.
    pub fn quality(&self) -> (score: QualityScore)
        requires
            self.wf(),
        ensures
            score == frame_quality(self.pixels@, self.width as int, self.height as int),
            score.wf(),
    {
        calculate_frame_quality(self.pixels.as_slice(), self.width, self.height)
    }

    /// The frame as interleaved RGB bytes, row by row: three bytes to a
    /// pixel and `3 width` to a row.
    pub fn to_rgb(&self) -> (rgb: Vec<u8>)
        ensures
            rgb@ == flatten(self.pixels@),
    {
        let mut rgb: Vec<u8> = Vec::new();
        let mut i: usize = 0;
        while i < self.pixels.len()
            invariant
                i <= self.pixels@.len(),
                rgb@.len() == 3 * i,
                forall|k: int| 0 <= k < 3 * i ==> rgb@[k] == flatten(self.pixels@)[k],
            decreases self.pixels@.len() - i,
        {
            let p = self.pixels[i];
            rgb.push(p.0);
            rgb.push(p.1);
            rgb.push(p.2);
            i = i + 1;
        }
        assert(rgb@ =~= flatten(self.pixels@));
        rgb
    }
}

/// Brings a decoded frame into the canonical form. `data` holds the frame as
/// interleaved RGB bytes, its rows `stride` bytes apart; what lies between
/// the end of one row and the start of the next is left out. `None` where
/// `data` is too short to hold every pixel, or where the frame has more
/// pixels than a `u32` counts.
pub fn normalize(data: &[u8], stride: usize, width: u32, height: u32) -> (frame: Option<
    CandidateFrame,
>)
    ensures
        frame is Some <==> holds_frame(data@.len() as int, stride as int, width as int, height as int)
            && width * height <= u32::MAX,
        frame matches Some(f) ==> f.width == width && f.height == height && f.pixels@
            == normalized_pixels(data@, stride as int, width as int, height as int) && f.wf(),
{
    let len: usize = data.len();
    proof {
        lemma_product_bounded(width as int, height as int, u32::MAX as int, u32::MAX as int);
    }
    if (width as u64) * (height as u64) > u32::MAX as u64 {
        return None;
    }
    if width > 0 && height > 0 {
        proof {
            lemma_product_bounded(height - 1, stride as int, u32::MAX as int, usize::MAX as int);
        }
        let last: u128 = ((height - 1) as u128) * (stride as u128) + 3 * ((width - 1) as u128) + 2;
        if last >= len as u128 {
            return None;
        }
    }
    let mut pixels: Vec<(u8, u8, u8)> = Vec::new();
    let mut y: u32 = 0;
    while y < height
        invariant
            y <= height,
            len == data@.len(),
            width * height <= u32::MAX,
            holds_frame(data@.len() as int, stride as int, width as int, height as int),
            pixels@.len() == y * width,
            forall|k: int|
                0 <= k < pixels@.len() ==> pixels@[k] == pixel_in(
                    data@,
                    stride as int,
                    k % (width as int),
                    k / (width as int),
                ),
        decreases height - y,
    {
        let mut x: u32 = 0;
        while x < width
            invariant
                y < height,
                x <= width,
                len == data@.len(),
                width * height <= u32::MAX,
                holds_frame(data@.len() as int, stride as int, width as int, height as int),
                pixels@.len() == y * width + x,
                forall|k: int|
                    0 <= k < pixels@.len() ==> pixels@[k] == pixel_in(
                        data@,
                        stride as int,
                        k % (width as int),
                        k / (width as int),
                    ),
            decreases width - x,
        {
            proof {
                lemma_offsets(stride as int, width as int, height as int, x as int, y as int);
                lemma_fundamental_div_mod_converse(
                    y * width + x,
                    width as int,
                    y as int,
                    x as int,
                );
            }
            let at: usize = (y as usize) * stride + 3 * (x as usize);
            pixels.push((data[at], data[at + 1], data[at + 2]));
            x = x + 1;
        }
        proof {
            assert((y + 1) * width == y * width + width) by (nonlinear_arith);
        }
        y = y + 1;
    }
    proof {
        assert(height * width == width * height) by (nonlinear_arith);
        assert(pixels@ =~= normalized_pixels(data@, stride as int, width as int, height as int));
    }
    Some(CandidateFrame { width, height, pixels })
}

/// What the canonical form holds, byte by byte: byte `c` of the pixel
/// `(x, y)` stands at `3 (y width + x) + c`, and is the byte that the decoder's
/// buffer holds at `y stride + 3 x + c`. The canonical form has
/// `3 width height` bytes.
pub proof fn lemma_canonical_bytes(
    data: Seq<u8>,
    stride: int,
    width: int,
    height: int,
    x: int,
    y: int,
    c: int,
)
    requires
        0 <= x < width,
        0 <= y < height,
        0 <= c < 3,
    ensures
        flatten(normalized_pixels(data, stride, width, height)).len() == 3 * width * height,
        flatten(normalized_pixels(data, stride, width, height))[3 * (y * width + x) + c]
            == data[y * stride + 3 * x + c],
{
    let i = y * width + x;
    lemma_offsets(0, width, height, x, y);
    lemma_fundamental_div_mod_converse(i, width, y, x);
    assert((3 * i + c) / 3 == i && (3 * i + c) % 3 == c);
    assert(3 * (width * height) == 3 * width * height) by (nonlinear_arith);
}

} // verus!
