//! The picture that stands for a video: a frame of it, or the drawing that
//! takes its place where no frame could be had.

use crate::frame::flatten;
use vstd::arithmetic::div_mod::lemma_fundamental_div_mod_converse;
use vstd::prelude::*;

verus! {

/// A picture as interleaved 8-bit RGB bytes, row by row, with nothing between
/// the rows.
#[derive(Clone, Debug, PartialEq, Eq)]
pub struct RgbImage {
    /// The bytes: red, green and blue of each pixel.
    pub pixels: Vec<u8>,
    /// Pixels to a row.
    pub width: u32,
    /// Rows.
    pub height: u32,
}

impl RgbImage {
    /// There are three bytes for each place in the picture.
    pub open spec fn wf(&self) -> bool {
        self.pixels@.len() == 3 * self.width * self.height
    }
}

/// The width of the drawing.
pub const PLACEHOLDER_WIDTH: u32 = 320;

/// The height of the drawing.
pub const PLACEHOLDER_HEIGHT: u32 = 240;

/// How far the sign in the middle of the drawing reaches above and below the
/// middle row, `across` columns from the middle column: 15 rows left of the
/// middle, and one row less with each column right of it.
pub open spec fn sign_reach(across: int) -> int {
    if across <= 0 {
        15
    } else {
        15 - across
    }
}

/// The colour of the drawing at `(x, y)`: a light triangle that points to the
/// right in the middle, a frame two pixels wide on the edge, and a dark
/// ground.
pub open spec fn placeholder_pixel(x: int, y: int) -> (u8, u8, u8) {
    let across = x - PLACEHOLDER_WIDTH / 2;
    let down = y - PLACEHOLDER_HEIGHT / 2;
    if -15 <= across <= 15 && -sign_reach(across) <= down <= sign_reach(across) {
        (220u8, 220u8, 220u8)
    } else if x < 2 || x >= PLACEHOLDER_WIDTH - 2 || y < 2 || y >= PLACEHOLDER_HEIGHT - 2 {
        (80u8, 80u8, 80u8)
    } else {
        (40u8, 40u8, 40u8)
    }
}

/// The pixels of the drawing, row by row.
pub open spec fn placeholder_pixels() -> Seq<(u8, u8, u8)> {
    Seq::new(
        (PLACEHOLDER_WIDTH * PLACEHOLDER_HEIGHT) as nat,
        |i: int| placeholder_pixel(i % (PLACEHOLDER_WIDTH as int), i / (PLACEHOLDER_WIDTH as int)),
    )
}

/// `placeholder_pixel`, computed.
fn placeholder_colour(x: u32, y: u32) -> (colour: (u8, u8, u8))
    requires
        x < PLACEHOLDER_WIDTH,
        y < PLACEHOLDER_HEIGHT,
    ensures
        colour == placeholder_pixel(x as int, y as int),
{
    let across: i32 = x as i32 - (PLACEHOLDER_WIDTH / 2) as i32;
    let down: i32 = y as i32 - (PLACEHOLDER_HEIGHT / 2) as i32;
    let reach: i32 = if across <= 0 {
        15
    } else {
        15 - across
    };
    if -15 <= across && across <= 15 && -reach <= down && down <= reach {
        (220, 220, 220)
    } else if x < 2 || x >= PLACEHOLDER_WIDTH - 2 || y < 2 || y >= PLACEHOLDER_HEIGHT - 2 {
        (80, 80, 80)
    } else {
        (40, 40, 40)
    }
}

/// The drawing that stands for a video of which no frame could be had: 320
/// by 240 pixels, the same at every call.
pub fn generate_placeholder_thumbnail() -> (image: RgbImage)
    ensures
        image.width == PLACEHOLDER_WIDTH,
        image.height == PLACEHOLDER_HEIGHT,
        image.pixels@ == flatten(placeholder_pixels()),
        image.wf(),
{
    let mut pixels: Vec<u8> = Vec::new();
    let mut y: u32 = 0;
    while y < PLACEHOLDER_HEIGHT
        invariant
            y <= PLACEHOLDER_HEIGHT,
            pixels@.len() == 3 * (y * PLACEHOLDER_WIDTH),
            forall|k: int| 0 <= k < pixels@.len() ==> pixels@[k] == flatten(placeholder_pixels())[k],
        decreases PLACEHOLDER_HEIGHT - y,
    {
        let mut x: u32 = 0;
        while x < PLACEHOLDER_WIDTH
            invariant
                y < PLACEHOLDER_HEIGHT,
                x <= PLACEHOLDER_WIDTH,
                pixels@.len() == 3 * (y * PLACEHOLDER_WIDTH + x),
                forall|k: int|
                    0 <= k < pixels@.len() ==> pixels@[k] == flatten(placeholder_pixels())[k],
            decreases PLACEHOLDER_WIDTH - x,
        {
            let colour = placeholder_colour(x, y);
            proof {
                let i = y * PLACEHOLDER_WIDTH + x;
                lemma_fundamental_div_mod_converse(
                    i,
                    PLACEHOLDER_WIDTH as int,
                    y as int,
                    x as int,
                );
                assert(placeholder_pixels()[i] == colour);
            }
            pixels.push(colour.0);
            pixels.push(colour.1);
            pixels.push(colour.2);
            x = x + 1;
        }
        y = y + 1;
    }
    assert(pixels@ =~= flatten(placeholder_pixels()));
    RgbImage { pixels, width: PLACEHOLDER_WIDTH, height: PLACEHOLDER_HEIGHT }
}

/// `egui::ColorImage`, an image in memory: what it holds goes by the names
/// `image_texels` and `image_size`.
#[verifier::external_type_specification]
#[verifier::external_body]
pub struct ExColorImage(egui::ColorImage);

/// The texels that an `egui::ColorImage` holds, row by row from the top: of
/// each its red, green, blue and alpha.
pub uninterp spec fn image_texels(image: egui::ColorImage) -> Seq<(u8, u8, u8, u8)>;

/// The width and the height of an `egui::ColorImage`, in texels.
pub uninterp spec fn image_size(image: egui::ColorImage) -> (usize, usize);

/// Bytes of RGB as opaque texels: three bytes make one, with alpha 255.
pub open spec fn opaque_texels(rgb: Seq<u8>) -> Seq<(u8, u8, u8, u8)> {
    Seq::new(rgb.len() / 3, |i: int| (rgb[3 * i], rgb[3 * i + 1], rgb[3 * i + 2], 255u8))
}

/// Calls `egui::ColorImage::from_rgb`, which takes three bytes for each texel
/// and makes the texel opaque, and which panics unless there are three bytes
/// for each place in the picture.
#[verifier::external_body]
fn color_image_from_rgb(width: usize, height: usize, rgb: &[u8]) -> (image: egui::ColorImage)
    requires
        width * height * 3 == rgb@.len(),
    ensures
        image_size(image) == (width, height),
        image_texels(image) == opaque_texels(rgb@),
{
    egui::ColorImage::from_rgb([width, height], rgb)
}

impl RgbImage {
    /// The picture as an image that `egui` can show, every texel opaque.
    /// `None` where the bytes are not three to each place in the picture.
    pub fn to_color_image(&self) -> (image: Option<egui::ColorImage>)
        ensures
            image is Some <==> self.wf(),
            image matches Some(shown) ==> image_size(shown) == (
                self.width as usize,
                self.height as usize,
            ) && image_texels(shown) == opaque_texels(self.pixels@),
    {
        proof {
            assert(0 <= self.width * self.height <= 0xffff_ffff * 0xffff_ffff) by (nonlinear_arith)
                requires
                    0 <= self.width <= 0xffff_ffff,
                    0 <= self.height <= 0xffff_ffff,
            ;
        }
        let places: u128 = 3 * ((self.width as u128) * (self.height as u128));
        proof {
            assert(3 * (self.width * self.height) == 3 * self.width * self.height)
                by (nonlinear_arith);
            assert((self.width * self.height) * 3 == 3 * self.width * self.height)
                by (nonlinear_arith);
        }
        if self.pixels.len() as u128 != places {
            return None;
        }
        Some(color_image_from_rgb(self.width as usize, self.height as usize, self.pixels.as_slice()))
    }
}

} // verus!
