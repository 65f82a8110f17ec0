//! What an opened video stream reports of itself: the size of its frames,
//! the shape of its pixels, and how long it lasts.

use vstd::prelude::*;

verus! {

/// The size of a stream's frames and the shape of its pixels.
#[derive(Clone, Copy, Debug, PartialEq, Eq)]
pub struct StreamGeometry {
    /// Pixels to a row, as stored.
    pub width: u32,
    /// Rows, as stored.
    pub height: u32,
    /// How wide a pixel is to how high, where the stream says so.
    pub pixel_aspect_ratio: Option<(u32, u32)>,
}

impl StreamGeometry {
    /// Whether frames have to be stretched to be shown with square pixels:
    /// whether a ratio is given, with neither part 0, that is not 1:1.
    pub open spec fn corrects(&self) -> bool {
        self.pixel_aspect_ratio matches Some(ratio) && ratio.0 != 0 && ratio.1 != 0 && !(ratio.0
            == 1 && ratio.1 == 1)
    }

    /// The size at which frames are shown with square pixels: the width
    /// times the ratio, rounded down and no more than a `u32` holds, where
    /// the frames have to be stretched; the stored size where they do not.
    pub open spec fn output_size(&self) -> (u32, u32) {
        if self.corrects() {
            let ratio = self.pixel_aspect_ratio->0;
            let stretched = (self.width * ratio.0) / (ratio.1 as int);
            if stretched > u32::MAX {
                (u32::MAX, self.height)
            } else {
                (stretched as u32, self.height)
            }
        } else {
            (self.width, self.height)
        }
    }

    /// The geometry of a stream whose decoder reports the frame size and the
    /// pixel aspect ratio `aspect`. A ratio with a part that is 0 or less
    /// says nothing, and is left out.
    pub fn from_decoder(width: u32, height: u32, aspect: (i32, i32)) -> (geometry: StreamGeometry)
        ensures
            geometry.width == width,
            geometry.height == height,
            geometry.pixel_aspect_ratio == if aspect.0 > 0 && aspect.1 > 0 {
                Some((aspect.0 as u32, aspect.1 as u32))
            } else {
                None::<(u32, u32)>
            },
    {
        let pixel_aspect_ratio = if aspect.0 > 0 && aspect.1 > 0 {
            Some((aspect.0 as u32, aspect.1 as u32))
        } else {
            None
        };
        StreamGeometry { width, height, pixel_aspect_ratio }
    }

    /// Whether frames have to be stretched to be shown with square pixels.
    pub fn has_correction(&self) -> (yes: bool)
        ensures
            yes == self.corrects(),
    {
        match self.pixel_aspect_ratio {
            Some(ratio) => ratio.0 != 0 && ratio.1 != 0 && !(ratio.0 == 1 && ratio.1 == 1),
            None => false,
        }
    }

    /// The size at which frames are shown with square pixels.
    pub fn output_dimensions(&self) -> (size: (u32, u32))
        ensures
            size == self.output_size(),
            size.1 == self.height,
            !self.corrects() ==> size.0 == self.width,
    {
        match self.pixel_aspect_ratio {
            Some(ratio) => {
                if ratio.0 != 0 && ratio.1 != 0 && !(ratio.0 == 1 && ratio.1 == 1) {
                    assert(self.width * ratio.0 <= 0xffff_ffff * 0xffff_ffff) by (nonlinear_arith)
                        requires
                            0 <= self.width <= 0xffff_ffff,
                            0 <= ratio.0 <= 0xffff_ffff,
                    ;
                    let stretched: u64 = ((self.width as u64) * (ratio.0 as u64)) / (ratio.1 as u64);
                    if stretched > u32::MAX as u64 {
                        (u32::MAX, self.height)
                    } else {
                        (stretched as u32, self.height)
                    }
                } else {
                    (self.width, self.height)
                }
            },
            None => (self.width, self.height),
        }
    }
}

/// Frames with square pixels are shown at the size at which they are stored.
pub proof fn lemma_square_pixels_keep_size(geometry: StreamGeometry)
    requires
        geometry.pixel_aspect_ratio == Some((1u32, 1u32)) || geometry.pixel_aspect_ratio
            == None::<(u32, u32)>,
    ensures
        geometry.output_size() == (geometry.width, geometry.height),
{
}

/// How long a stream lasts: a number of ticks, and the length of a tick in
/// seconds as a fraction.
#[derive(Clone, Copy, Debug, PartialEq, Eq)]
pub struct StreamDuration {
    /// The duration in ticks.
    pub ticks: i64,
    /// Numerator and denominator of the seconds to a tick.
    pub time_base: (i32, i32),
}

/// `a / b` rounded towards 0.
pub open spec fn truncated_quotient(a: int, b: int) -> int {
    let magnitude = (if a < 0 {
        -a
    } else {
        a
    }) / (if b < 0 {
        -b
    } else {
        b
    });
    if (a < 0) == (b < 0) {
        magnitude
    } else {
        -magnitude
    }
}

/// `value`, or the nearest of the two bounds.
pub open spec fn clamped(value: int, least: int, most: int) -> int {
    if value < least {
        least
    } else if value > most {
        most
    } else {
        value
    }
}

/// The positions at which frames are sampled, in quarters of the duration.
pub const SAMPLE_COUNT: usize = 4;

impl StreamDuration {
    /// The seconds that lie `quarters` quarters of the duration into the
    /// stream, rounded towards 0; 0 where the time base has no denominator
    /// and the duration is unknown.
    pub open spec fn seconds_at(&self, quarters: int) -> int {
        if self.time_base.1 == 0 {
            0
        } else {
            truncated_quotient(self.ticks * self.time_base.0 * quarters, self.time_base.1 * 4)
        }
    }

    /// The duration in whole seconds, rounded down; 0 where it is negative
    /// or unknown.
    pub open spec fn whole_seconds_spec(&self) -> int {
        clamped(self.seconds_at(4), 0, u64::MAX as int)
    }

    /// The second to seek to for the sample at `sample` quarters of the
    /// duration.
    pub open spec fn seek_target_spec(&self, sample: int) -> int {
        clamped(self.seconds_at(sample), i64::MIN as int, i64::MAX as int)
    }

    /// The magnitude and the sign of `seconds_at`: the seconds, and whether
    /// they count backwards.
    fn seconds_parts(&self, quarters: u8) -> (parts: (u128, bool))
        requires
            quarters <= 4,
        ensures
            self.seconds_at(quarters as int) == if parts.1 {
                -(parts.0 as int)
            } else {
                parts.0 as int
            },
    {
        let base = self.time_base;
        if base.1 == 0 {
            return (0, false);
        }
        let ticks: u128 = if self.ticks < 0 {
            (-(self.ticks as i128)) as u128
        } else {
            self.ticks as u128
        };
        let numerator: u128 = if base.0 < 0 {
            (-(base.0 as i128)) as u128
        } else {
            base.0 as u128
        };
        let denominator: u128 = if base.1 < 0 {
            (-(base.1 as i128)) as u128
        } else {
            base.1 as u128
        };
        proof {
            lemma_magnitudes(
                self.ticks as int,
                base.0 as int,
                quarters as int,
                ticks as int,
                numerator as int,
            );
        }
        let magnitude: u128 = (ticks * numerator * (quarters as u128)) / (denominator * 4);
        let product_negative = (self.ticks < 0) != (base.0 < 0) && self.ticks != 0 && base.0 != 0
            && quarters != 0;
        let negative = product_negative != (base.1 < 0);
        proof {
            let a = self.ticks * base.0 * quarters;
            let b = base.1 * 4;
            assert((a < 0) == product_negative);
            assert((if a < 0 {
                -a
            } else {
                a
            }) == ticks * numerator * quarters);
            if magnitude == 0 {
                assert(truncated_quotient(a, b) == 0);
            }
        }
        (magnitude, negative && magnitude != 0)
    }

    /// The duration in whole seconds.
    pub fn whole_seconds(&self) -> (seconds: u64)
        ensures
            seconds == self.whole_seconds_spec(),
    {
        let parts = self.seconds_parts(4);
        if parts.1 {
            0
        } else if parts.0 > u64::MAX as u128 {
            u64::MAX
        } else {
            parts.0 as u64
        }
    }

    /// The second to seek to for the sample at `sample` quarters of the
    /// duration: 0, a quarter, a half and three quarters of it for the
    /// samples 0 to 3.
    pub fn seek_target(&self, sample: usize) -> (seconds: i64)
        requires
            sample < SAMPLE_COUNT,
        ensures
            seconds == self.seek_target_spec(sample as int),
    {
        let parts = self.seconds_parts(sample as u8);
        if parts.1 {
            if parts.0 > 0x8000_0000_0000_0000u128 {
                i64::MIN
            } else {
                (-(parts.0 as i128)) as i64
            }
        } else if parts.0 > i64::MAX as u128 {
            i64::MAX
        } else {
            parts.0 as i64
        }
    }
}

/// The magnitude of a product is the product of the magnitudes, and it is
/// small enough to be held.
proof fn lemma_magnitudes(ticks: int, numerator: int, quarters: int, t: int, n: int)
    by (nonlinear_arith)
    requires
        -0x8000_0000_0000_0000 <= ticks < 0x8000_0000_0000_0000,
        -0x8000_0000 <= numerator < 0x8000_0000,
        0 <= quarters <= 4,
        t == if ticks < 0 {
            -ticks
        } else {
            ticks
        },
        n == if numerator < 0 {
            -numerator
        } else {
            numerator
        },
    ensures
        0 <= t * n <= 0x8000_0000_0000_0000 * 0x8000_0000,
        0 <= t * n * quarters <= 0x8000_0000_0000_0000 * 0x8000_0000 * 4,
        ticks * numerator * quarters < 0 <==> ((ticks < 0) != (numerator < 0) && ticks != 0
            && numerator != 0 && quarters != 0),
        (if ticks * numerator * quarters < 0 {
            -(ticks * numerator * quarters)
        } else {
            ticks * numerator * quarters
        }) == t * n * quarters,
{
}

/// A stream without duration has every sample at its start.
pub proof fn lemma_no_duration_seeks_to_start(duration: StreamDuration, sample: int)
    requires
        duration.ticks == 0 || duration.time_base.0 == 0 || duration.time_base.1 == 0,
    ensures
        duration.seek_target_spec(sample) == 0,
        duration.whole_seconds_spec() == 0,
{
    if duration.time_base.1 != 0 {
        assert(duration.ticks * duration.time_base.0 == 0) by (nonlinear_arith)
            requires
                duration.ticks == 0 || duration.time_base.0 == 0,
        ;
        assert(duration.ticks * duration.time_base.0 * sample == 0) by (nonlinear_arith)
            requires
                duration.ticks * duration.time_base.0 == 0,
        ;
        assert(duration.ticks * duration.time_base.0 * 4 == 0) by (nonlinear_arith)
            requires
                duration.ticks * duration.time_base.0 == 0,
        ;
    }
}

} // verus!
