//! How good a frame looks, as three scores and their weighted sum.
//!
//! Everything here is integer arithmetic. Luminance is held in
//! ten-thousandths of a grey level, so that the BT.709 weights are whole
//! numbers and the sums over a frame are exact. A score is held in units of
//! `10^-18`, rounded down: the finest power of a thousand at which a score
//! fits 64 bits and every product on the way to it fits 128. So a score
//! falls short of its formula by less than `10^-18`, and the weighted sum of
//! the three by less than `10^-18` as well.

use vstd::arithmetic::div_mod::lemma_div_multiples_vanish_quotient;
use vstd::arithmetic::div_mod::lemma_fundamental_div_mod;
use vstd::prelude::*;

verus! {

/// The score 1.0: scores count units of `10^-18`.
pub const SCORE_ONE: u64 = 1_000_000_000_000_000_000;

/// One grey level: luminance counts ten-thousandths of it.
pub const LUMA_ONE: u64 = 10_000;

/// The weight of each of the three scores in the sum, in hundredths.
pub const WEIGHT: u64 = 33;

/// The variance at which the variance score reaches 1.0, in squared grey
/// levels.
pub const VARIANCE_FULL: u64 = 5000;

/// The mean squared Laplacian at which the sharpness score reaches 1.0, in
/// squared grey levels.
pub const SHARPNESS_FULL: u64 = 2000;

/// BT.709 luminance of a pixel, `0.2126 R + 0.7152 G + 0.0722 B`, in
/// ten-thousandths.
pub open spec fn luma(p: (u8, u8, u8)) -> int {
    2126 * p.0 + 7152 * p.1 + 722 * p.2
}

/// The luminance of all pixels, added up.
pub open spec fn luma_sum(pixels: Seq<(u8, u8, u8)>) -> int
    decreases pixels.len(),
{
    if pixels.len() == 0 {
        0
    } else {
        luma_sum(pixels.drop_last()) + luma(pixels.last())
    }
}

/// The squares of the luminance of all pixels, added up.
pub open spec fn luma_square_sum(pixels: Seq<(u8, u8, u8)>) -> int
    decreases pixels.len(),
{
    if pixels.len() == 0 {
        0
    } else {
        luma_square_sum(pixels.drop_last()) + luma(pixels.last()) * luma(pixels.last())
    }
}

/// The brightness score of a frame whose `count` pixels have luminance `sum`
/// in all, so whose mean grey level is `M = sum / (10000 count)`: 0 where
/// `M < 22`, `(M - 22) / 34` where `22 <= M < 56`, 1.0 where
/// `56 <= M <= 171`, `1 - (M - 171) / 23` where `171 < M <= 194`, and 0
/// where `M > 194`. A frame without pixels scores nothing.
pub open spec fn brightness_score(sum: int, count: int) -> int {
    if count <= 0 {
        0
    } else if sum < 220_000 * count {
        0
    } else if sum < 560_000 * count {
        ((sum - 220_000 * count) * 1_000_000_000_000_000_000) / (340_000 * count)
    } else if sum <= 1_710_000 * count {
        1_000_000_000_000_000_000
    } else if sum <= 1_940_000 * count {
        ((1_940_000 * count - sum) * 1_000_000_000_000_000_000) / (230_000 * count)
    } else {
        0
    }
}

/// A share `part / whole` of the score 1.0 lies between 0 and 1.0.
proof fn lemma_share_is_bounded(part: int, whole: int)
    by (nonlinear_arith)
    requires
        0 <= part <= whole,
        0 < whole,
    ensures
        0 <= (part * 1_000_000_000_000_000_000) / whole <= 1_000_000_000_000_000_000,
{
}

/// `luma`, computed.
pub fn luminance(p: (u8, u8, u8)) -> (l: u32)
    ensures
        l == luma(p),
        l <= 2_550_000,
{
    2126 * (p.0 as u32) + 7152 * (p.1 as u32) + 722 * (p.2 as u32)
}

/// `brightness_score`, computed.
pub fn brightness(sum: u64, count: u32) -> (score: u64)
    ensures
        score == brightness_score(sum as int, count as int),
        score <= SCORE_ONE,
{
    let s: u128 = sum as u128;
    let n: u128 = count as u128;
    if n == 0 || s < 220_000 * n {
        0
    } else if s < 560_000 * n {
        let above: u128 = s - 220_000 * n;
        let span: u128 = 340_000 * n;
        proof {
            lemma_share_is_bounded(above as int, span as int);
        }
        ((above * 1_000_000_000_000_000_000) / span) as u64
    } else if s <= 1_710_000 * n {
        1_000_000_000_000_000_000
    } else if s <= 1_940_000 * n {
        let below: u128 = 1_940_000 * n - s;
        let span: u128 = 230_000 * n;
        proof {
            lemma_share_is_bounded(below as int, span as int);
        }
        ((below * 1_000_000_000_000_000_000) / span) as u64
    } else {
        0
    }
}

/// The squared distances of the pixels' luminance from the mean
/// `sum / count`, added up, where each distance is taken `count` times so that
/// it is a whole number: the sum of `(count L - sum)^2`.
pub open spec fn deviation_square_sum(pixels: Seq<(u8, u8, u8)>, sum: int, count: int) -> int
    decreases pixels.len(),
{
    if pixels.len() == 0 {
        0
    } else {
        deviation_square_sum(pixels.drop_last(), sum, count) + (count * luma(pixels.last()) - sum)
            * (count * luma(pixels.last()) - sum)
    }
}

/// The variance score: the population variance of the luminance, as a share
/// of `VARIANCE_FULL`, and 1.0 at most. With `n` pixels the variance is the
/// deviation sum over `n^3`, in squared ten-thousandths of a grey level.
pub open spec fn variance_score(pixels: Seq<(u8, u8, u8)>) -> int {
    let n = pixels.len() as int;
    if n == 0 {
        0
    } else {
        let share = (deviation_square_sum(pixels, luma_sum(pixels), n) * SCORE_ONE) / (n * n * n
            * (LUMA_ONE * LUMA_ONE * VARIANCE_FULL));
        if share > SCORE_ONE {
            SCORE_ONE as int
        } else {
            share
        }
    }
}

/// The discrete Laplacian of the luminance at `(x, y)` in a frame `width`
/// pixels wide, held row by row: four times the pixel less its four
/// neighbours.
pub open spec fn laplacian(pixels: Seq<(u8, u8, u8)>, width: int, x: int, y: int) -> int {
    4 * luma(pixels[y * width + x]) - luma(pixels[(y - 1) * width + x]) - luma(
        pixels[(y + 1) * width + x],
    ) - luma(pixels[y * width + x - 1]) - luma(pixels[y * width + x + 1])
}

/// The squared Laplacian at the pixels `1 .. x_end` of row `y`, added up.
pub open spec fn row_energy(pixels: Seq<(u8, u8, u8)>, width: int, y: int, x_end: int) -> int
    decreases x_end,
{
    if x_end <= 1 {
        0
    } else {
        row_energy(pixels, width, y, x_end - 1) + laplacian(pixels, width, x_end - 1, y)
            * laplacian(pixels, width, x_end - 1, y)
    }
}

/// The squared Laplacian at the pixels `1 .. width - 1` of the rows
/// `1 .. y_end`, added up.
pub open spec fn frame_energy(pixels: Seq<(u8, u8, u8)>, width: int, y_end: int) -> int
    decreases y_end,
{
    if y_end <= 1 {
        0
    } else {
        frame_energy(pixels, width, y_end - 1) + row_energy(pixels, width, y_end - 1, width - 1)
    }
}

/// The sharpness score: the mean squared Laplacian over the pixels that are
/// not on the frame's edge, as a share of `SHARPNESS_FULL`, and 1.0 at most.
/// A frame that is all edge scores nothing.
pub open spec fn sharpness_score(pixels: Seq<(u8, u8, u8)>, width: int, height: int) -> int {
    if width <= 2 || height <= 2 {
        0
    } else {
        let interior = (width - 2) * (height - 2);
        let share = (frame_energy(pixels, width, height - 1) * SCORE_ONE) / (interior * (LUMA_ONE
            * LUMA_ONE * SHARPNESS_FULL));
        if share > SCORE_ONE {
            SCORE_ONE as int
        } else {
            share
        }
    }
}

/// The three scores of a frame, each from 0 to `SCORE_ONE`.
#[derive(Clone, Copy, Debug, PartialEq, Eq)]
pub struct QualityScore {
    /// How well exposed the frame is.
    pub brightness: u64,
    /// How much its brightness varies.
    pub variance: u64,
    /// How much fine detail it shows.
    pub sharpness: u64,
}

/// The weighted sum of three scores, in units of `10^-20`: each score weighs
/// 0.33, so three full scores give 0.99.
pub open spec fn composite_score(brightness: int, variance: int, sharpness: int) -> int {
    WEIGHT * brightness + WEIGHT * variance + WEIGHT * sharpness
}

impl QualityScore {
    /// Each score is 1.0 at most.
    pub open spec fn wf(&self) -> bool {
        &&& self.brightness <= SCORE_ONE
        &&& self.variance <= SCORE_ONE
        &&& self.sharpness <= SCORE_ONE
    }

    /// The weighted sum of the three scores.
    pub open spec fn composite_spec(&self) -> int {
        composite_score(self.brightness as int, self.variance as int, self.sharpness as int)
    }

    /// The weighted sum of the three scores, in units of `10^-20`: 0.99 at
    /// most where each score is 1.0 at most.
    pub fn composite(&self) -> (total: u128)
        ensures
            total == self.composite_spec(),
            self.wf() ==> total <= 99 * SCORE_ONE,
    {
        let weight: u128 = WEIGHT as u128;
        weight * (self.brightness as u128) + weight * (self.variance as u128) + weight * (
        self.sharpness as u128)
    }
}

/// The scores of the frame that `pixels` holds row by row.
pub open spec fn frame_quality(pixels: Seq<(u8, u8, u8)>, width: int, height: int) -> QualityScore {
    QualityScore {
        brightness: brightness_score(luma_sum(pixels), pixels.len() as int) as u64,
        variance: variance_score(pixels) as u64,
        sharpness: sharpness_score(pixels, width, height) as u64,
    }
}

/// Adding one pixel to a frame adds its luminance and its square to the sums.
proof fn lemma_sums_step(pixels: Seq<(u8, u8, u8)>, i: int)
    requires
        0 <= i < pixels.len(),
    ensures
        luma_sum(pixels.take(i + 1)) == luma_sum(pixels.take(i)) + luma(pixels[i]),
        luma_square_sum(pixels.take(i + 1)) == luma_square_sum(pixels.take(i)) + luma(pixels[i])
            * luma(pixels[i]),
{
    assert(pixels.take(i + 1).drop_last() =~= pixels.take(i));
    assert(pixels.take(i + 1).last() == pixels[i]);
}

/// The deviation sum, written out: `c^2 S2 - 2 c s S1 + n s^2`, where `S1` and
/// `S2` are the sums of the luminance and of its squares over the `n` pixels.
proof fn lemma_deviation_expanded(pixels: Seq<(u8, u8, u8)>, s: int, c: int)
    ensures
        deviation_square_sum(pixels, s, c) == c * c * luma_square_sum(pixels) - 2 * c * s
            * luma_sum(pixels) + pixels.len() * s * s,
        deviation_square_sum(pixels, s, c) >= 0,
    decreases pixels.len(),
{
    if pixels.len() > 0 {
        let rest = pixels.drop_last();
        let l = luma(pixels.last());
        let s1 = luma_sum(rest);
        let s2 = luma_square_sum(rest);
        let n = rest.len() as int;
        lemma_deviation_expanded(rest, s, c);
        assert((c * l - s) * (c * l - s) >= 0) by (nonlinear_arith);
        assert(c * c * s2 - 2 * c * s * s1 + n * s * s + (c * l - s) * (c * l - s) == c * c * (s2
            + l * l) - 2 * c * s * (s1 + l) + (n + 1) * s * s) by (nonlinear_arith);
    }
}

/// Around the mean itself the deviation sum is `n (n S2 - S1^2)`, so the
/// variance can be had from the two sums in one pass.
proof fn lemma_deviation_from_sums(pixels: Seq<(u8, u8, u8)>)
    ensures
        deviation_square_sum(pixels, luma_sum(pixels), pixels.len() as int) == pixels.len() * (
        pixels.len() * luma_square_sum(pixels) - luma_sum(pixels) * luma_sum(pixels)),
        pixels.len() * luma_square_sum(pixels) - luma_sum(pixels) * luma_sum(pixels) >= 0,
{
    let n = pixels.len() as int;
    let s1 = luma_sum(pixels);
    let s2 = luma_square_sum(pixels);
    lemma_deviation_expanded(pixels, s1, n);
    assert(n * n * s2 - 2 * n * s1 * s1 + n * s1 * s1 == n * (n * s2 - s1 * s1))
        by (nonlinear_arith);
    if n > 0 {
        assert(n * s2 - s1 * s1 >= 0) by (nonlinear_arith)
            requires
                n > 0,
                n * (n * s2 - s1 * s1) >= 0,
        ;
    } else {
        assert(pixels =~= Seq::empty());
    }
}

/// The sums of the luminance and of its squares over all pixels.
fn luma_totals(rgb_data: &[(u8, u8, u8)]) -> (totals: (u64, u128))
    requires
        rgb_data@.len() <= u32::MAX,
    ensures
        totals.0 == luma_sum(rgb_data@),
        totals.1 == luma_square_sum(rgb_data@),
        totals.0 <= 2_550_000 * rgb_data@.len(),
        totals.1 <= 6_502_500_000_000 * rgb_data@.len(),
{
    let mut sum: u64 = 0;
    let mut squares: u128 = 0;
    let mut i: usize = 0;
    while i < rgb_data.len()
        invariant
            i <= rgb_data@.len() <= u32::MAX,
            sum == luma_sum(rgb_data@.take(i as int)),
            squares == luma_square_sum(rgb_data@.take(i as int)),
            sum <= 2_550_000 * i,
            squares <= 6_502_500_000_000 * i,
        decreases rgb_data@.len() - i,
    {
        let l: u32 = luminance(rgb_data[i]);
        proof {
            lemma_sums_step(rgb_data@, i as int);
            assert(l * l <= 6_502_500_000_000) by (nonlinear_arith)
                requires
                    0 <= l <= 2_550_000,
            ;
        }
        sum = sum + l as u64;
        squares = squares + (l as u128) * (l as u128);
        i = i + 1;
    }
    proof {
        assert(rgb_data@.take(i as int) =~= rgb_data@);
    }
    (sum, squares)
}

/// `variance_score`, computed from the two sums.
fn variance(sum: u64, squares: u128, count: u32, Ghost(pixels): Ghost<Seq<(u8, u8, u8)>>) -> (score:
    u64)
    requires
        pixels.len() == count,
        sum == luma_sum(pixels),
        squares == luma_square_sum(pixels),
        sum <= 2_550_000 * count,
        squares <= 6_502_500_000_000 * count,
    ensures
        score == variance_score(pixels),
        score <= SCORE_ONE,
{
    if count == 0 {
        return 0;
    }
    let n: u128 = count as u128;
    let s: u128 = sum as u128;
    proof {
        lemma_deviation_from_sums(pixels);
        assert(n * squares <= 0x1_0000_0000 * (6_502_500_000_000 * 0x1_0000_0000))
            by (nonlinear_arith)
            requires
                0 <= n < 0x1_0000_0000,
                0 <= squares <= 6_502_500_000_000 * n,
        ;
        assert(n * n <= 0x1_0000_0000 * 0x1_0000_0000) by (nonlinear_arith)
            requires
                0 <= n < 0x1_0000_0000,
        ;
        assert(n * n >= 1) by (nonlinear_arith)
            requires
                n >= 1,
        ;
    }
    let spread: u128 = n * squares - s * s;
    let places: u128 = n * n;
    let share: u128 = (spread * 2_000_000) / places;
    proof {
        let k: int = n * 500_000_000_000;
        assert(k * (spread * 2_000_000) == deviation_square_sum(pixels, luma_sum(pixels), n as int)
            * SCORE_ONE) by (nonlinear_arith)
            requires
                k == n * 500_000_000_000,
                SCORE_ONE == 1_000_000_000_000_000_000,
                deviation_square_sum(pixels, luma_sum(pixels), n as int) == n * spread,
        ;
        assert(k * places == n * n * n * (LUMA_ONE * LUMA_ONE * VARIANCE_FULL)) by (nonlinear_arith)
            requires
                k == n * 500_000_000_000,
                places == n * n,
                LUMA_ONE == 10_000,
                VARIANCE_FULL == 5000,
        ;
        lemma_div_multiples_vanish_quotient(k, spread * 2_000_000, places as int);
    }
    if share > 1_000_000_000_000_000_000 {
        1_000_000_000_000_000_000
    } else {
        share as u64
    }
}

/// The place of the pixel `(x, y)` in a frame held row by row lies within the
/// frame.
proof fn lemma_pixel_index(width: int, height: int, x: int, y: int)
    by (nonlinear_arith)
    requires
        0 <= x < width,
        0 <= y < height,
    ensures
        0 <= y * width + x < width * height,
        (y + 1) * width == y * width + width,
        (y - 1) * width == y * width - width,
        y * width >= 0,
{
}

/// `laplacian`, computed.
fn laplacian_at(rgb_data: &[(u8, u8, u8)], width: u32, height: u32, x: u32, y: u32) -> (l: i64)
    requires
        rgb_data@.len() == width * height,
        rgb_data@.len() <= u32::MAX,
        1 <= x < width - 1,
        1 <= y < height - 1,
    ensures
        l == laplacian(rgb_data@, width as int, x as int, y as int),
        -10_200_000 <= l <= 10_200_000,
{
    proof {
        lemma_pixel_index(width as int, height as int, x as int, y - 1);
        lemma_pixel_index(width as int, height as int, x as int, y as int);
        lemma_pixel_index(width as int, height as int, x as int, y + 1);
    }
    let w: usize = width as usize;
    let here: usize = (y as usize) * w + (x as usize);
    let centre: i64 = luminance(rgb_data[here]) as i64;
    let top: i64 = luminance(rgb_data[here - w]) as i64;
    let bottom: i64 = luminance(rgb_data[here + w]) as i64;
    let left: i64 = luminance(rgb_data[here - 1]) as i64;
    let right: i64 = luminance(rgb_data[here + 1]) as i64;
    4 * centre - top - bottom - left - right
}

/// `row_energy` of the whole row `y`, computed.
fn row_energy_of(rgb_data: &[(u8, u8, u8)], width: u32, height: u32, y: u32) -> (energy: u128)
    requires
        rgb_data@.len() == width * height,
        rgb_data@.len() <= u32::MAX,
        width >= 3,
        1 <= y < height - 1,
    ensures
        energy == row_energy(rgb_data@, width as int, y as int, width - 1),
        energy <= 104_040_000_000_000 * (width - 2),
{
    let mut energy: u128 = 0;
    let mut x: u32 = 1;
    while x < width - 1
        invariant
            rgb_data@.len() == width * height,
            rgb_data@.len() <= u32::MAX,
            1 <= y < height - 1,
            1 <= x <= width - 1,
            energy == row_energy(rgb_data@, width as int, y as int, x as int),
            energy <= 104_040_000_000_000 * (x - 1),
        decreases width - x,
    {
        let l: i64 = laplacian_at(rgb_data, width, height, x, y);
        proof {
            assert(0 <= l * l <= 104_040_000_000_000) by (nonlinear_arith)
                requires
                    -10_200_000 <= l <= 10_200_000,
            ;
        }
        energy = energy + (l * l) as u128;
        x = x + 1;
    }
    energy
}

/// `sharpness_score`, computed.
fn sharpness(rgb_data: &[(u8, u8, u8)], width: u32, height: u32) -> (score: u64)
    requires
        rgb_data@.len() == width * height,
        rgb_data@.len() <= u32::MAX,
    ensures
        score == sharpness_score(rgb_data@, width as int, height as int),
        score <= SCORE_ONE,
{
    if width <= 2 || height <= 2 {
        return 0;
    }
    let mut energy: u128 = 0;
    let mut y: u32 = 1;
    while y < height - 1
        invariant
            rgb_data@.len() == width * height,
            rgb_data@.len() <= u32::MAX,
            width >= 3,
            1 <= y <= height - 1,
            energy == frame_energy(rgb_data@, width as int, y as int),
            energy <= 104_040_000_000_000 * (width - 2) * (y - 1),
        decreases height - y,
    {
        let row: u128 = row_energy_of(rgb_data, width, height, y);
        proof {
            assert(104_040_000_000_000 * (width - 2) * (y - 1) + 104_040_000_000_000 * (width - 2)
                == 104_040_000_000_000 * (width - 2) * y) by (nonlinear_arith);
            assert(104_040_000_000_000 * (width - 2) * y <= 104_040_000_000_000 * 0x1_0000_0000
                * 0x1_0000_0000) by (nonlinear_arith)
                requires
                    0 <= width - 2 < 0x1_0000_0000,
                    0 <= y < 0x1_0000_0000,
            ;
        }
        energy = energy + row;
        y = y + 1;
    }
    proof {
        assert(1 <= (width - 2) * (height - 2) <= width * height) by (nonlinear_arith)
            requires
                1 <= width - 2,
                1 <= height - 2,
        ;
    }
    let interior: u128 = ((width - 2) as u128) * ((height - 2) as u128);
    proof {
        assert(energy * 5_000_000 <= 104_040_000_000_000 * 0x1_0000_0000 * 5_000_000)
            by (nonlinear_arith)
            requires
                0 <= energy <= 104_040_000_000_000 * (width - 2) * (height - 2),
                0 <= (width - 2) * (height - 2) <= width * height,
                width * height < 0x1_0000_0000,
        ;
    }
    let share: u128 = (energy * 5_000_000) / interior;
    proof {
        let k: int = 200_000_000_000;
        assert(k * interior == interior * (LUMA_ONE * LUMA_ONE * SHARPNESS_FULL))
            by (nonlinear_arith)
            requires
                k == 200_000_000_000,
                LUMA_ONE == 10_000,
                SHARPNESS_FULL == 2000,
        ;
        assert(k * (energy * 5_000_000) == energy * SCORE_ONE);
        lemma_div_multiples_vanish_quotient(k, energy * 5_000_000, interior as int);
    }
    if share > 1_000_000_000_000_000_000 {
        1_000_000_000_000_000_000
    } else {
        share as u64
    }
}

/// The quality of the frame that `rgb_data` holds row by row, `width` pixels
/// to a row and `height` rows: its brightness, variance and sharpness scores.
pub fn calculate_frame_quality(rgb_data: &[(u8, u8, u8)], width: u32, height: u32) -> (score:
    QualityScore)
    requires
        rgb_data@.len() == width * height,
        rgb_data@.len() <= u32::MAX,
    ensures
        score == frame_quality(rgb_data@, width as int, height as int),
        score.brightness == brightness_score(luma_sum(rgb_data@), rgb_data@.len() as int),
        score.variance == variance_score(rgb_data@),
        score.sharpness == sharpness_score(rgb_data@, width as int, height as int),
        score.wf(),
{
    let count: u32 = rgb_data.len() as u32;
    let totals = luma_totals(rgb_data);
    QualityScore {
        brightness: brightness(totals.0, count),
        variance: variance(totals.0, totals.1, count, Ghost(rgb_data@)),
        sharpness: sharpness(rgb_data, width, height),
    }
}

/// The brightness score lies between 0 and 1.0, whatever the frame.
pub proof fn lemma_brightness_in_range(sum: int, count: int)
    ensures
        0 <= brightness_score(sum, count) <= SCORE_ONE,
{
    if count > 0 && 220_000 * count <= sum < 560_000 * count {
        lemma_share_is_bounded(sum - 220_000 * count, 340_000 * count);
    } else if count > 0 && 1_710_000 * count < sum <= 1_940_000 * count {
        lemma_share_is_bounded(1_940_000 * count - sum, 230_000 * count);
    }
}

/// At each of the four grey levels where the brightness score changes its
/// formula, 22, 56, 171 and 194, the formulas on both sides give the same
/// score: 0, 1.0, 1.0 and 0.
pub proof fn lemma_brightness_at_breakpoints(count: int)
    requires
        count > 0,
    ensures
        brightness_score(22 * LUMA_ONE * count, count) == 0,
        ((22 * LUMA_ONE * count - 220_000 * count) * 1_000_000_000_000_000_000) / (340_000 * count) == 0,
        brightness_score(56 * LUMA_ONE * count, count) == SCORE_ONE,
        ((56 * LUMA_ONE * count - 220_000 * count) * 1_000_000_000_000_000_000) / (340_000 * count) == SCORE_ONE,
        brightness_score(171 * LUMA_ONE * count, count) == SCORE_ONE,
        ((1_940_000 * count - 171 * LUMA_ONE * count) * 1_000_000_000_000_000_000) / (230_000 * count)
            == SCORE_ONE,
        brightness_score(194 * LUMA_ONE * count, count) == 0,
        ((1_940_000 * count - 194 * LUMA_ONE * count) * 1_000_000_000_000_000_000) / (230_000 * count) == 0,
{
    assert((0int * 1_000_000_000_000_000_000) / (340_000 * count) == 0) by (nonlinear_arith)
        requires
            count > 0,
    ;
    assert((0int * 1_000_000_000_000_000_000) / (230_000 * count) == 0) by (nonlinear_arith)
        requires
            count > 0,
    ;
    assert(((340_000 * count) * 1_000_000_000_000_000_000) / (340_000 * count) == 1_000_000_000_000_000_000) by (nonlinear_arith)
        requires
            count > 0,
    ;
    assert(((230_000 * count) * 1_000_000_000_000_000_000) / (230_000 * count) == 1_000_000_000_000_000_000) by (nonlinear_arith)
        requires
            count > 0,
    ;
}

/// The brightness score as a fraction over the one denominator
/// `7 820 000 count`: this is its numerator.
spec fn brightness_numerator(sum: int, count: int) -> int {
    if sum < 220_000 * count {
        0
    } else if sum < 560_000 * count {
        (sum - 220_000 * count) * 23_000_000_000_000_000_000
    } else if sum <= 1_710_000 * count {
        7_820_000_000_000_000_000_000_000 * count
    } else if sum <= 1_940_000 * count {
        (1_940_000 * count - sum) * 34_000_000_000_000_000_000
    } else {
        0
    }
}

proof fn lemma_brightness_as_fraction(sum: int, count: int)
    requires
        count > 0,
    ensures
        brightness_score(sum, count) == brightness_numerator(sum, count) / (7_820_000 * count),
{
    let d = 7_820_000 * count;
    if sum < 220_000 * count || sum > 1_940_000 * count {
        assert(0int / d == 0) by (nonlinear_arith)
            requires
                d > 0,
        ;
    } else if sum < 560_000 * count {
        lemma_div_multiples_vanish_quotient(
            23,
            (sum - 220_000 * count) * 1_000_000_000_000_000_000,
            340_000 * count,
        );
    } else if sum <= 1_710_000 * count {
        assert((1_000_000_000_000_000_000 * d) / d == 1_000_000_000_000_000_000) by (nonlinear_arith)
            requires
                d > 0,
        ;
    } else {
        lemma_div_multiples_vanish_quotient(
            34,
            (1_940_000 * count - sum) * 1_000_000_000_000_000_000,
            230_000 * count,
        );
    }
}

/// Rounding down moves a quotient by less than one: if `p <= q + t`, then
/// `p / d <= q / d + t / d + 1`.
proof fn lemma_quotients_follow(p: int, q: int, t: int, d: int)
    requires
        d > 0,
        p <= q + t,
    ensures
        p / d <= q / d + t / d + 1,
{
    lemma_fundamental_div_mod(p, d);
    lemma_fundamental_div_mod(q, d);
    lemma_fundamental_div_mod(t, d);
    let qp = p / d;
    let qq = q / d;
    let qt = t / d;
    assert(qp <= qq + qt + 1) by (nonlinear_arith)
        requires
            d > 0,
            p <= q + t,
            p == d * qp + p % d,
            q == d * qq + q % d,
            t == d * qt + t % d,
            0 <= p % d < d,
            0 <= q % d < d,
            0 <= t % d < d,
    ;
}

/// The brightness score is continuous in the mean grey level, at the four
/// breakpoints as everywhere else: between two frames of `count` pixels whose
/// means lie `d` grey levels apart, it differs by `d / 23` at most, and by the
/// one unit that rounding down may add.
pub proof fn lemma_brightness_continuous(sum_a: int, sum_b: int, count: int)
    requires
        count > 0,
        sum_a <= sum_b,
    ensures
        brightness_score(sum_b, count) - brightness_score(sum_a, count) <= ((sum_b - sum_a)
            * 1_000_000_000_000_000_000) / (230_000 * count) + 1,
        brightness_score(sum_a, count) - brightness_score(sum_b, count) <= ((sum_b - sum_a)
            * 1_000_000_000_000_000_000) / (230_000 * count) + 1,
{
    let d = 7_820_000 * count;
    let na = brightness_numerator(sum_a, count);
    let nb = brightness_numerator(sum_b, count);
    let step = (sum_b - sum_a) * 34_000_000_000_000_000_000;
    lemma_brightness_as_fraction(sum_a, count);
    lemma_brightness_as_fraction(sum_b, count);
    assert(nb <= na + step);
    assert(na <= nb + step);
    lemma_quotients_follow(nb, na, step, d);
    lemma_quotients_follow(na, nb, step, d);
    lemma_div_multiples_vanish_quotient(34, (sum_b - sum_a) * 1_000_000_000_000_000_000, 230_000 * count);
}

/// Squared Laplacians add up to nothing negative.
proof fn lemma_energy_not_negative(pixels: Seq<(u8, u8, u8)>, width: int, y: int, x_end: int)
    ensures
        row_energy(pixels, width, y, x_end) >= 0,
        frame_energy(pixels, width, y) >= 0,
    decreases y, x_end,
{
    if x_end > 1 {
        let l = laplacian(pixels, width, x_end - 1, y);
        lemma_energy_not_negative(pixels, width, y, x_end - 1);
        assert(l * l >= 0) by (nonlinear_arith);
    }
    if y > 1 {
        lemma_energy_not_negative(pixels, width, y - 1, width - 1);
        lemma_energy_not_negative(pixels, width, y - 1, 0);
    }
}

/// Each of the three scores of a frame lies between 0 and 1.0, and so their
/// weighted sum between 0 and 0.99.
pub proof fn lemma_scores_in_range(pixels: Seq<(u8, u8, u8)>, width: int, height: int)
    ensures
        0 <= brightness_score(luma_sum(pixels), pixels.len() as int) <= SCORE_ONE,
        0 <= variance_score(pixels) <= SCORE_ONE,
        0 <= sharpness_score(pixels, width, height) <= SCORE_ONE,
        frame_quality(pixels, width, height).wf(),
        0 <= frame_quality(pixels, width, height).composite_spec() <= 99 * SCORE_ONE,
{
    lemma_brightness_in_range(luma_sum(pixels), pixels.len() as int);
    let n = pixels.len() as int;
    if n > 0 {
        let spread = deviation_square_sum(pixels, luma_sum(pixels), n);
        let full = n * n * n * (LUMA_ONE * LUMA_ONE * VARIANCE_FULL);
        lemma_deviation_expanded(pixels, luma_sum(pixels), n);
        assert((spread * SCORE_ONE) / full >= 0) by (nonlinear_arith)
            requires
                spread >= 0,
                SCORE_ONE == 1_000_000_000_000_000_000,
                full == n * n * n * (LUMA_ONE * LUMA_ONE * VARIANCE_FULL),
                LUMA_ONE == 10_000,
                VARIANCE_FULL == 5000,
                n > 0,
        ;
    }
    if width > 2 && height > 2 {
        let energy = frame_energy(pixels, width, height - 1);
        let interior = (width - 2) * (height - 2);
        lemma_energy_not_negative(pixels, width, height - 1, 0);
        assert((energy * SCORE_ONE) / (interior * (LUMA_ONE * LUMA_ONE * SHARPNESS_FULL)) >= 0)
            by (nonlinear_arith)
            requires
                energy >= 0,
                SCORE_ONE == 1_000_000_000_000_000_000,
                interior == (width - 2) * (height - 2),
                width > 2,
                height > 2,
                LUMA_ONE == 10_000,
                SHARPNESS_FULL == 2000,
        ;
    }
}

/// Whether all pixels have one colour.
pub open spec fn uniform(pixels: Seq<(u8, u8, u8)>) -> bool {
    forall|i: int, j: int| 0 <= i < pixels.len() && 0 <= j < pixels.len() ==> pixels[i] == pixels[j]
}

/// In a frame of one colour, the luminance adds up to that of one pixel times
/// their number, and nothing deviates from it.
proof fn lemma_uniform_sums(pixels: Seq<(u8, u8, u8)>, l: int, sum: int, count: int)
    requires
        forall|i: int| 0 <= i < pixels.len() ==> luma(#[trigger] pixels[i]) == l,
        sum == count * l,
    ensures
        luma_sum(pixels) == pixels.len() * l,
        deviation_square_sum(pixels, sum, count) == 0,
    decreases pixels.len(),
{
    if pixels.len() > 0 {
        let rest = pixels.drop_last();
        lemma_uniform_sums(rest, l, sum, count);
        assert(luma(pixels.last()) == l);
        assert((rest.len() + 1) * l == rest.len() * l + l) by (nonlinear_arith);
        assert((count * l - sum) * (count * l - sum) == 0) by (nonlinear_arith)
            requires
                sum == count * l,
        ;
    }
}

/// In a frame of one colour the Laplacian is nothing at every pixel off the
/// edge, and so is its energy.
proof fn lemma_uniform_energy(
    pixels: Seq<(u8, u8, u8)>,
    width: int,
    height: int,
    y: int,
    x_end: int,
)
    requires
        uniform(pixels),
        pixels.len() == width * height,
        width > 2,
        1 <= y <= height - 1,
        x_end <= width - 1,
    ensures
        y < height - 1 ==> row_energy(pixels, width, y, x_end) == 0,
        frame_energy(pixels, width, y) == 0,
    decreases y, x_end,
{
    if x_end > 1 && y < height - 1 {
        let x = x_end - 1;
        lemma_uniform_energy(pixels, width, height, y, x_end - 1);
        lemma_pixel_index(width, height, x, y - 1);
        lemma_pixel_index(width, height, x, y);
        lemma_pixel_index(width, height, x, y + 1);
        let here = y * width + x;
        assert(pixels[here - width] == pixels[here]);
        assert(pixels[here + width] == pixels[here]);
        assert(pixels[here - 1] == pixels[here]);
        assert(pixels[here + 1] == pixels[here]);
        assert(laplacian(pixels, width, x, y) == 0);
    }
    if y > 1 {
        lemma_uniform_energy(pixels, width, height, y - 1, width - 1);
    }
}

/// A frame of one colour has no variance and no sharpness: both scores are 0.
pub proof fn lemma_uniform_frame(pixels: Seq<(u8, u8, u8)>, width: int, height: int)
    requires
        uniform(pixels),
        pixels.len() == width * height,
    ensures
        variance_score(pixels) == 0,
        sharpness_score(pixels, width, height) == 0,
{
    let n = pixels.len() as int;
    if n > 0 {
        let l = luma(pixels[0]);
        assert forall|i: int| 0 <= i < pixels.len() implies luma(#[trigger] pixels[i]) == l by {
            assert(pixels[i] == pixels[0]);
        }
        lemma_uniform_sums(pixels, l, n * l, n);
        assert((0 * SCORE_ONE) / (n * n * n * (LUMA_ONE * LUMA_ONE * VARIANCE_FULL)) == 0)
            by (nonlinear_arith)
            requires
                n > 0,
                LUMA_ONE == 10_000,
                VARIANCE_FULL == 5000,
        ;
    }
    if width > 2 && height > 2 {
        let interior = (width - 2) * (height - 2);
        lemma_uniform_energy(pixels, width, height, height - 1, 0);
        assert((0 * SCORE_ONE) / (interior * (LUMA_ONE * LUMA_ONE * SHARPNESS_FULL)) == 0)
            by (nonlinear_arith)
            requires
                interior == (width - 2) * (height - 2),
                width > 2,
                height > 2,
                LUMA_ONE == 10_000,
                SHARPNESS_FULL == 2000,
        ;
    }
}

/// Exposure decides between two frames that are alike otherwise: with the
/// same variance and sharpness scores, a frame whose mean grey level lies
/// from 56 to 171 has a greater weighted sum than one whose mean lies below
/// 22 or above 194.
pub proof fn lemma_exposure_decides(
    good: Seq<(u8, u8, u8)>,
    good_width: int,
    good_height: int,
    poor: Seq<(u8, u8, u8)>,
    poor_width: int,
    poor_height: int,
)
    requires
        good.len() > 0,
        56 * LUMA_ONE * good.len() <= luma_sum(good) <= 171 * LUMA_ONE * good.len(),
        luma_sum(poor) < 22 * LUMA_ONE * poor.len() || luma_sum(poor) > 194 * LUMA_ONE
            * poor.len(),
        variance_score(good) == variance_score(poor),
        sharpness_score(good, good_width, good_height) == sharpness_score(
            poor,
            poor_width,
            poor_height,
        ),
    ensures
        frame_quality(good, good_width, good_height).composite_spec() > frame_quality(
            poor,
            poor_width,
            poor_height,
        ).composite_spec(),
        frame_quality(good, good_width, good_height).composite_spec() - frame_quality(
            poor,
            poor_width,
            poor_height,
        ).composite_spec() == WEIGHT * SCORE_ONE,
{
    lemma_scores_in_range(good, good_width, good_height);
    lemma_scores_in_range(poor, poor_width, poor_height);
}

/// A frame of mean grey level 100 has a greater weighted sum than a frame of
/// mean grey level 10 with the same variance and sharpness scores.
pub proof fn lemma_mean_100_beats_mean_10(
    good: Seq<(u8, u8, u8)>,
    good_width: int,
    good_height: int,
    poor: Seq<(u8, u8, u8)>,
    poor_width: int,
    poor_height: int,
)
    requires
        good.len() > 0,
        poor.len() > 0,
        luma_sum(good) == 100 * LUMA_ONE * good.len(),
        luma_sum(poor) == 10 * LUMA_ONE * poor.len(),
        variance_score(good) == variance_score(poor),
        sharpness_score(good, good_width, good_height) == sharpness_score(
            poor,
            poor_width,
            poor_height,
        ),
    ensures
        frame_quality(good, good_width, good_height).composite_spec() > frame_quality(
            poor,
            poor_width,
            poor_height,
        ).composite_spec(),
{
    let n = good.len() as int;
    let m = poor.len() as int;
    assert(56 * LUMA_ONE * n <= 100 * LUMA_ONE * n <= 171 * LUMA_ONE * n) by (nonlinear_arith)
        requires
            n > 0,
            LUMA_ONE == 10_000,
    ;
    assert(10 * LUMA_ONE * m < 22 * LUMA_ONE * m) by (nonlinear_arith)
        requires
            m > 0,
            LUMA_ONE == 10_000,
    ;
    lemma_exposure_decides(good, good_width, good_height, poor, poor_width, poor_height);
}


/// Whether `q` is `numerator / denominator` rounded down: the quotient itself
/// is `q` or more, and less than `q + 1`.
pub open spec fn rounds_down(q: int, numerator: int, denominator: int) -> bool {
    denominator * q <= numerator < denominator * (q + 1)
}

/// A quotient by a number above 0 is the quotient rounded down.
proof fn lemma_quotient_rounds_down(numerator: int, denominator: int)
    requires
        denominator > 0,
    ensures
        rounds_down(numerator / denominator, numerator, denominator),
{
    lemma_fundamental_div_mod(numerator, denominator);
    let q = numerator / denominator;
    assert(denominator * (q + 1) == denominator * q + denominator) by (nonlinear_arith);
}

/// The brightness score is the score of the formula rounded down, so that it
/// falls short of it by less than one unit of `10^-18`: on the two slopes it
/// is `(M - 22) / 34` and `(194 - M) / 23` rounded down, and elsewhere it is
/// 0 or 1.0 itself.
pub proof fn lemma_brightness_rounds_down(sum: int, count: int)
    requires
        count > 0,
    ensures
        220_000 * count <= sum < 560_000 * count ==> rounds_down(
            brightness_score(sum, count),
            (sum - 220_000 * count) * SCORE_ONE,
            340_000 * count,
        ),
        1_710_000 * count < sum <= 1_940_000 * count ==> rounds_down(
            brightness_score(sum, count),
            (1_940_000 * count - sum) * SCORE_ONE,
            230_000 * count,
        ),
        sum < 220_000 * count || sum > 1_940_000 * count ==> brightness_score(sum, count) == 0,
        560_000 * count <= sum <= 1_710_000 * count ==> brightness_score(sum, count)
            == SCORE_ONE,
{
    if 220_000 * count <= sum < 560_000 * count {
        lemma_quotient_rounds_down((sum - 220_000 * count) * 1_000_000_000_000_000_000, 340_000 * count);
    }
    if 1_710_000 * count < sum <= 1_940_000 * count {
        lemma_quotient_rounds_down((1_940_000 * count - sum) * 1_000_000_000_000_000_000, 230_000 * count);
    }
}

/// The brightness score goes by the mean alone: `count` pixels of luminance
/// `level` each score what one of them scores.
pub proof fn lemma_brightness_of_mean(level: int, count: int)
    requires
        count > 0,
    ensures
        brightness_score(count * level, count) == brightness_score(level, 1),
{
    let sum = count * level;
    assert(sum - 220_000 * count == count * (level - 220_000)) by (nonlinear_arith)
        requires
            sum == count * level,
    ;
    assert(1_940_000 * count - sum == count * (1_940_000 - level)) by (nonlinear_arith)
        requires
            sum == count * level,
    ;
    assert(sum < 220_000 * count <==> level < 220_000) by (nonlinear_arith)
        requires
            sum == count * level,
            count > 0,
    ;
    assert(sum < 560_000 * count <==> level < 560_000) by (nonlinear_arith)
        requires
            sum == count * level,
            count > 0,
    ;
    assert(sum <= 1_710_000 * count <==> level <= 1_710_000) by (nonlinear_arith)
        requires
            sum == count * level,
            count > 0,
    ;
    assert(sum <= 1_940_000 * count <==> level <= 1_940_000) by (nonlinear_arith)
        requires
            sum == count * level,
            count > 0,
    ;
    if 220_000 <= level < 560_000 {
        let part = (level - 220_000) * 1_000_000_000_000_000_000;
        assert((sum - 220_000 * count) * 1_000_000_000_000_000_000 == count * part) by (nonlinear_arith)
            requires
                sum - 220_000 * count == count * (level - 220_000),
                part == (level - 220_000) * 1_000_000_000_000_000_000,
        ;
        assert(340_000 * count == count * 340_000);
        lemma_div_multiples_vanish_quotient(count, part, 340_000);
    } else if 1_710_000 < level <= 1_940_000 {
        let part = (1_940_000 - level) * 1_000_000_000_000_000_000;
        assert((1_940_000 * count - sum) * 1_000_000_000_000_000_000 == count * part) by (nonlinear_arith)
            requires
                1_940_000 * count - sum == count * (1_940_000 - level),
                part == (1_940_000 - level) * 1_000_000_000_000_000_000,
        ;
        assert(230_000 * count == count * 230_000);
        lemma_div_multiples_vanish_quotient(count, part, 230_000);
    }
}

/// A frame of one colour weighs 0.33 times the brightness score of that
/// colour, and nothing else.
pub proof fn lemma_uniform_frame_weight(pixels: Seq<(u8, u8, u8)>, width: int, height: int)
    requires
        uniform(pixels),
        pixels.len() == width * height,
        pixels.len() > 0,
    ensures
        frame_quality(pixels, width, height).composite_spec() == WEIGHT * brightness_score(
            luma(pixels[0]),
            1,
        ),
{
    let n = pixels.len() as int;
    let l = luma(pixels[0]);
    assert forall|i: int| 0 <= i < pixels.len() implies luma(#[trigger] pixels[i]) == l by {
        assert(pixels[i] == pixels[0]);
    }
    lemma_uniform_sums(pixels, l, n * l, n);
    lemma_uniform_frame(pixels, width, height);
    lemma_brightness_of_mean(l, n);
    lemma_brightness_in_range(l, 1);
}

/// The brightness score of a grey of level `v`, one grey level being 10 000
/// of luminance.
pub open spec fn grey_brightness(v: int) -> int {
    brightness_score(10_000 * v, 1)
}

/// One grey level more raises the brightness score by a 34th on the rising
/// slope and lowers it by a 23rd on the falling slope, each to within one
/// unit of `10^-18`, and changes nothing elsewhere; the slopes meet the levels
/// 0 and 1.0 without a jump.
pub proof fn lemma_grey_level_step(v: int)
    ensures
        22 <= v < 56 ==> SCORE_ONE - 34 < 34 * (grey_brightness(v + 1) - grey_brightness(v))
            < SCORE_ONE + 34,
        171 <= v < 194 ==> SCORE_ONE - 23 < 23 * (grey_brightness(v) - grey_brightness(v + 1))
            < SCORE_ONE + 23,
        v < 22 || 56 <= v < 171 || v >= 194 ==> grey_brightness(v + 1) == grey_brightness(v),
{
    lemma_brightness_rounds_down(10_000 * v, 1);
    lemma_brightness_rounds_down(10_000 * (v + 1), 1);
}

/// Between two frames of one grey each, one grey level apart, the weighted
/// sum differs by 0.33 times the step of the brightness score: by `0.33 / 34`
/// on the rising slope and by `-0.33 / 23` on the falling slope, each to
/// within 33 units of `10^-20`, and by nothing elsewhere.
pub proof fn lemma_uniform_grey_step(
    darker: Seq<(u8, u8, u8)>,
    lighter: Seq<(u8, u8, u8)>,
    width: int,
    height: int,
    v: u8,
)
    requires
        v < 255,
        darker.len() == width * height,
        lighter.len() == width * height,
        darker.len() > 0,
        forall|i: int| 0 <= i < darker.len() ==> #[trigger] darker[i] == (v, v, v),
        forall|i: int|
            0 <= i < lighter.len() ==> #[trigger] lighter[i] == ((v + 1) as u8, (v + 1) as u8, (v
                + 1) as u8),
    ensures
        ({
            let step = frame_quality(lighter, width, height).composite_spec() - frame_quality(
                darker,
                width,
                height,
            ).composite_spec();
            &&& 22 <= v < 56 ==> WEIGHT * (SCORE_ONE - 34) < 34 * step < WEIGHT * (SCORE_ONE + 34)
            &&& 171 <= v < 194 ==> WEIGHT * (SCORE_ONE - 23) < 23 * (-step) < WEIGHT * (SCORE_ONE
                + 23)
            &&& v < 22 || 56 <= v < 171 || v >= 194 ==> step == 0
        }),
{
    assert(uniform(darker)) by {
        assert forall|i: int, j: int|
            0 <= i < darker.len() && 0 <= j < darker.len() implies darker[i] == darker[j] by {
            assert(darker[i] == (v, v, v) && darker[j] == (v, v, v));
        }
    }
    assert(uniform(lighter)) by {
        assert forall|i: int, j: int|
            0 <= i < lighter.len() && 0 <= j < lighter.len() implies lighter[i] == lighter[j] by {
            assert(lighter[i] == lighter[0] && lighter[j] == lighter[0]);
        }
    }
    lemma_uniform_frame_weight(darker, width, height);
    lemma_uniform_frame_weight(lighter, width, height);
    assert(luma(darker[0]) == 10_000 * v);
    assert(luma(lighter[0]) == 10_000 * (v + 1));
    lemma_grey_level_step(v as int);
}


/// Of two quotients by one number, the greater has the greater numerator.
proof fn lemma_more_is_more(p: int, q: int, d: int)
    by (nonlinear_arith)
    requires
        d > 0,
        d * p < d * (q + 1),
    ensures
        p <= q,
{
}

/// On the slopes the brightness score tells any two means apart: of two
/// frames of one size, of no more pixels than a `u32` counts, the one with
/// the greater luminance has the greater score on the rising slope and the
/// smaller score on the falling slope. Rounding down makes no tie there.
pub proof fn lemma_brightness_tells_means_apart(sum_a: int, sum_b: int, count: int)
    requires
        0 < count <= u32::MAX,
        sum_a < sum_b,
    ensures
        220_000 * count <= sum_a && sum_b <= 560_000 * count ==> brightness_score(sum_a, count)
            < brightness_score(sum_b, count),
        1_710_000 * count <= sum_a && sum_b <= 1_940_000 * count ==> brightness_score(
            sum_a,
            count,
        ) > brightness_score(sum_b, count),
{
    lemma_brightness_rounds_down(sum_a, count);
    lemma_brightness_rounds_down(sum_b, count);
    let a = brightness_score(sum_a, count);
    let b = brightness_score(sum_b, count);
    if 220_000 * count <= sum_a && sum_b <= 560_000 * count {
        let d = 340_000 * count;
        let xa = (sum_a - 220_000 * count) * 1_000_000_000_000_000_000;
        let xb = (sum_b - 220_000 * count) * 1_000_000_000_000_000_000;
        assert(xb >= xa + d);
        if sum_b < 560_000 * count {
            assert(d * (a + 1) == d * a + d) by (nonlinear_arith);
            assert(d * (a + 1) < d * (b + 1));
            lemma_more_is_more(a + 1, b, d);
        } else {
            assert(d * 1_000_000_000_000_000_000 == xb) by (nonlinear_arith)
                requires
                    d == 340_000 * count,
                    xb == (560_000 * count - 220_000 * count) * 1_000_000_000_000_000_000,
            ;
            assert(d * a < d * (1_000_000_000_000_000_000 - 1 + 1));
            lemma_more_is_more(a, 1_000_000_000_000_000_000 - 1, d);
        }
    }
    if 1_710_000 * count <= sum_a && sum_b <= 1_940_000 * count {
        let d = 230_000 * count;
        let xa = (1_940_000 * count - sum_a) * 1_000_000_000_000_000_000;
        let xb = (1_940_000 * count - sum_b) * 1_000_000_000_000_000_000;
        assert(xa >= xb + d);
        if 1_710_000 * count < sum_a {
            assert(d * (b + 1) == d * b + d) by (nonlinear_arith);
            assert(d * (b + 1) < d * (a + 1));
            lemma_more_is_more(b + 1, a, d);
        } else {
            assert(d * 1_000_000_000_000_000_000 == xa) by (nonlinear_arith)
                requires
                    d == 230_000 * count,
                    xa == (1_940_000 * count - 1_710_000 * count) * 1_000_000_000_000_000_000,
            ;
            assert(d * b < d * (1_000_000_000_000_000_000 - 1 + 1));
            lemma_more_is_more(b, 1_000_000_000_000_000_000 - 1, d);
        }
    }
}


/// A quotient that is rounded down is less than 1.0 where the numerator is
/// less than the denominator, and 1.0 or more where it is not.
proof fn lemma_share_against_one(part: int, whole: int)
    by (nonlinear_arith)
    requires
        whole > 0,
        part >= 0,
    ensures
        part < whole ==> (part * SCORE_ONE) / whole < SCORE_ONE,
        part >= whole ==> (part * SCORE_ONE) / whole >= SCORE_ONE,
{
}

/// The variance score and the sharpness score are the shares of their
/// formulas rounded down, so that each falls short of its formula by less
/// than one unit of `10^-18`, and the weighted sum of the three scores by
/// less than 99 units of `10^-20`; a share of 1.0 or more is 1.0.
pub proof fn lemma_scores_round_down(pixels: Seq<(u8, u8, u8)>, width: int, height: int)
    requires
        pixels.len() > 0,
    ensures
        ({
            let n = pixels.len() as int;
            let spread = deviation_square_sum(pixels, luma_sum(pixels), n);
            let full = n * n * n * (LUMA_ONE * LUMA_ONE * VARIANCE_FULL);
            &&& full > 0
            &&& spread < full ==> rounds_down(variance_score(pixels), spread * SCORE_ONE, full)
            &&& spread >= full ==> variance_score(pixels) == SCORE_ONE
        }),
        width > 2 && height > 2 ==> ({
            let energy = frame_energy(pixels, width, height - 1);
            let full = (width - 2) * (height - 2) * (LUMA_ONE * LUMA_ONE * SHARPNESS_FULL);
            &&& full > 0
            &&& energy < full ==> rounds_down(
                sharpness_score(pixels, width, height),
                energy * SCORE_ONE,
                full,
            )
            &&& energy >= full ==> sharpness_score(pixels, width, height) == SCORE_ONE
        }),
{
    let n = pixels.len() as int;
    let spread = deviation_square_sum(pixels, luma_sum(pixels), n);
    let full = n * n * n * (LUMA_ONE * LUMA_ONE * VARIANCE_FULL);
    assert(full > 0) by (nonlinear_arith)
        requires
            n > 0,
            full == n * n * n * (LUMA_ONE * LUMA_ONE * VARIANCE_FULL),
            LUMA_ONE == 10_000,
            VARIANCE_FULL == 5000,
    ;
    lemma_deviation_expanded(pixels, luma_sum(pixels), n);
    lemma_quotient_rounds_down(spread * SCORE_ONE, full);
    lemma_share_against_one(spread, full);
    if width > 2 && height > 2 {
        let energy = frame_energy(pixels, width, height - 1);
        let inner = (width - 2) * (height - 2) * (LUMA_ONE * LUMA_ONE * SHARPNESS_FULL);
        assert(inner > 0) by (nonlinear_arith)
            requires
                width > 2,
                height > 2,
                inner == (width - 2) * (height - 2) * (LUMA_ONE * LUMA_ONE * SHARPNESS_FULL),
                LUMA_ONE == 10_000,
                SHARPNESS_FULL == 2000,
        ;
        lemma_energy_not_negative(pixels, width, height - 1, 0);
        lemma_quotient_rounds_down(energy * SCORE_ONE, inner);
        lemma_share_against_one(energy, inner);
    }
}

} // verus!
