//! Pixels, and the small differences by which one pixel is told from the
//! one before it.

use vstd::prelude::*;
use vstd::wrapping::u8_specs;

verus! {

/// A pixel "diff": what separates a pixel from a reference pixel of the same
/// alpha, where the separation is small enough to be stored in one or two
/// bytes. Each field is stored with a bias, so that it is never negative.
#[derive(Clone, Copy, Debug, PartialEq, Eq, Structural)]
pub enum PixelDiff {
    /// The red, green and blue differences, each from -2 to 1, each stored
    /// with a bias of 2.
    Color(u8, u8, u8),
    /// The green difference, from -32 to 31, stored with a bias of 32; then
    /// red minus green and blue minus green, each from -8 to 7, each stored
    /// with a bias of 8.
    Luma(u8, u8, u8),
}

/// A colour of four 8-bit channels.
#[derive(Clone, Copy, Debug, PartialEq, Eq, Structural)]
pub struct Pixel {
    /// Red channel value.
    pub r: u8,
    /// Green channel value.
    pub g: u8,
    /// Blue channel value.
    pub b: u8,
    /// Alpha channel value.
    pub a: u8,
}

/// The distance from `reference` to `candidate` on the circle of the 256
/// channel values, as a signed number from -128 to 127.
pub open spec fn delta(candidate: u8, reference: u8) -> int {
    let d = candidate - reference;
    if d >= 128 {
        d - 256
    } else if d < -128 {
        d + 256
    } else {
        d
    }
}

/// The channel value that `i` falls on, counting modulo 256.
pub open spec fn wrap(i: int) -> u8 {
    (i % 256) as u8
}

/// `count` times the same pixel.
pub open spec fn repeat(pixel: Pixel, count: nat) -> Seq<Pixel> {
    Seq::new(count, |i: int| pixel)
}

/// A difference stored with a bias of 2 fits two bits exactly when it lies
/// from -2 to 1.
pub proof fn lemma_color_field(candidate: u8, reference: u8)
    ensures
        ({
            let d = delta(candidate, reference);
            let v = u8_specs::wrapping_add(u8_specs::wrapping_sub(candidate, reference), 2);
            &&& v <= 3 <==> -2 <= d <= 1
            &&& v <= 3 ==> v == d + 2
        }),
{
}

/// A difference stored with a bias of 32 fits six bits exactly when it lies
/// from -32 to 31.
pub proof fn lemma_luma_green_field(candidate: u8, reference: u8)
    ensures
        ({
            let d = delta(candidate, reference);
            let v = u8_specs::wrapping_add(u8_specs::wrapping_sub(candidate, reference), 32);
            &&& v <= 63 <==> -32 <= d <= 31
            &&& v <= 63 ==> v == d + 32
        }),
{
}

/// The difference of a channel, less that of green, stored with a bias of 8,
/// fits four bits exactly when it lies from -8 to 7. Because the green
/// difference is small, wrapping cannot bring a distant value into range.
pub proof fn lemma_luma_relative_field(candidate: u8, reference: u8, green: u8, green_reference: u8)
    requires
        -32 <= delta(green, green_reference) <= 31,
    ensures
        ({
            let d = delta(candidate, reference) - delta(green, green_reference);
            let v = u8_specs::wrapping_sub(
                u8_specs::wrapping_add(u8_specs::wrapping_sub(candidate, reference), 8),
                u8_specs::wrapping_sub(green, green_reference),
            );
            &&& v <= 15 <==> -8 <= d <= 7
            &&& v <= 15 ==> v == d + 8
        }),
{
}

/// Adding a biased field to a channel, the bias taken off, with wrapping
/// at each step, is adding their difference modulo 256.
pub proof fn lemma_unbias(channel: u8, field: u8, bias: u8)
    ensures
        u8_specs::wrapping_add(channel, u8_specs::wrapping_sub(field, bias)) == wrap(
            channel + field - bias,
        ),
{
}

/// The same for a channel that moves with green: two biased fields are
/// added, each with its bias taken off.
pub proof fn lemma_unbias_relative(channel: u8, field: u8, green_field: u8)
    ensures
        u8_specs::wrapping_add(
            channel,
            u8_specs::wrapping_add(
                u8_specs::wrapping_sub(field, 8),
                u8_specs::wrapping_sub(green_field, 32),
            ),
        ) == wrap(channel + (green_field - 32) + (field - 8)),
{
}

/// Going the signed distance from `reference` leads to `candidate`.
pub proof fn lemma_wrap_delta(candidate: u8, reference: u8)
    ensures
        wrap(reference + delta(candidate, reference)) == candidate,
{
}

impl Default for Pixel {
    /// Opaque black, the pixel that every stream starts from.
    fn default() -> (p: Self)
        ensures
            p == (Pixel { r: 0, g: 0, b: 0, a: 255 }),
    {
        Pixel { r: 0, g: 0, b: 0, a: 255 }
    }
}

impl Pixel {
    /// Opaque black, as a specification value.
    pub open spec fn opaque_black() -> Pixel {
        Pixel { r: 0, g: 0, b: 0, a: 255 }
    }

    /// Whether `self` is within the range of a colour diff from `other`.
    pub open spec fn near(self, other: Pixel) -> bool {
        &&& self.a == other.a
        &&& -2 <= delta(self.r, other.r) <= 1
        &&& -2 <= delta(self.g, other.g) <= 1
        &&& -2 <= delta(self.b, other.b) <= 1
    }

    /// Whether `self` is within the range of a luma diff from `other`.
    pub open spec fn luma_near(self, other: Pixel) -> bool {
        let dg = delta(self.g, other.g);
        &&& self.a == other.a
        &&& -32 <= dg <= 31
        &&& -8 <= delta(self.r, other.r) - dg <= 7
        &&& -8 <= delta(self.b, other.b) - dg <= 7
    }

    /// The diff of `self` against `other`: a colour diff where that is in
    /// range, else a luma diff where that is in range, else none.
    pub open spec fn diff_spec(self, other: Pixel) -> Option<PixelDiff> {
        let dr = delta(self.r, other.r);
        let dg = delta(self.g, other.g);
        let db = delta(self.b, other.b);
        if self.near(other) {
            Some(PixelDiff::Color((dr + 2) as u8, (dg + 2) as u8, (db + 2) as u8))
        } else if self.luma_near(other) {
            Some(PixelDiff::Luma((dg + 32) as u8, (dr - dg + 8) as u8, (db - dg + 8) as u8))
        } else {
            None
        }
    }

    /// The pixel that lies `diff` away from `reference`.
    pub open spec fn from_diff_spec(diff: PixelDiff, reference: Pixel) -> Pixel {
        match diff {
            PixelDiff::Color(r, g, b) => Pixel {
                r: wrap(reference.r + r - 2),
                g: wrap(reference.g + g - 2),
                b: wrap(reference.b + b - 2),
                a: reference.a,
            },
            PixelDiff::Luma(g, rg, bg) => Pixel {
                r: wrap(reference.r + (g - 32) + (rg - 8)),
                g: wrap(reference.g + (g - 32)),
                b: wrap(reference.b + (g - 32) + (bg - 8)),
                a: reference.a,
            },
        }
    }

    /// A diff is exact: the pixel that lies `self.diff(other)` away from
    /// `other` is `self`. The fields of the diff fit their bits.
    pub proof fn lemma_diff_inverts(self, other: Pixel)
        requires
            self.diff_spec(other) is Some,
        ensures
            Pixel::from_diff_spec(self.diff_spec(other).unwrap(), other) == self,
            self.diff_spec(other) matches Some(PixelDiff::Color(r, g, b)) ==> r <= 3 && g <= 3 && b
                <= 3,
            self.diff_spec(other) matches Some(PixelDiff::Luma(g, rg, bg)) ==> g <= 63 && rg <= 15
                && bg <= 15,
    {
        lemma_wrap_delta(self.r, other.r);
        lemma_wrap_delta(self.g, other.g);
        lemma_wrap_delta(self.b, other.b);
    }

    /// A channel that lies exactly 3 below the reference, counting modulo
    /// 256, is out of the range of a colour diff: the range ends at -2.
    pub proof fn lemma_color_range_ends(self, other: Pixel)
        requires
            self.r == wrap(other.r - 3) || self.g == wrap(other.g - 3) || self.b == wrap(
                other.b - 3,
            ),
        ensures
            !(self.diff_spec(other) matches Some(PixelDiff::Color(_, _, _))),
    {
    }

    /// The channels, each taken in full from 0 to 255, weighted by 3, 5, 7
    /// and 11 and added up without wrapping.
    pub open spec fn weighted_sum(self) -> int {
        self.r * 3 + self.g * 5 + self.b * 7 + self.a * 11
    }

    /// The hash of a pixel: its weighted channel sum modulo 64. It is the
    /// one cache slot, from 0 to 63, in which `self` can be held.
    pub open spec fn slot(self) -> int {
        self.weighted_sum() % 64
    }

    /// Attempts to produce a `PixelDiff` against the provided `other` pixel.
    /// Returns `Some(PixelDiff)` when there is a diff within range, otherwise
    /// `None` is returned. A colour diff is preferred to a luma diff.
    pub fn diff(&self, other: &Pixel) -> (d: Option<PixelDiff>)
        ensures
            d == self.diff_spec(*other),
    {
        if self.a != other.a {
            return None;
        }
        let diff_r: u8 = self.r.wrapping_sub(other.r);
        let diff_g: u8 = self.g.wrapping_sub(other.g);
        let diff_b: u8 = self.b.wrapping_sub(other.b);

        let color_r: u8 = diff_r.wrapping_add(2);
        let color_g: u8 = diff_g.wrapping_add(2);
        let color_b: u8 = diff_b.wrapping_add(2);

        proof {
            lemma_color_field(self.r, other.r);
            lemma_color_field(self.g, other.g);
            lemma_color_field(self.b, other.b);
        }
        if color_r <= 3 && color_g <= 3 && color_b <= 3 {
            return Some(PixelDiff::Color(color_r, color_g, color_b));
        }
        let luma_g: u8 = diff_g.wrapping_add(32);

        proof {
            lemma_luma_green_field(self.g, other.g);
        }
        if luma_g > 63 {
            return None;
        }
        let luma_rg: u8 = diff_r.wrapping_add(8).wrapping_sub(diff_g);
        let luma_bg: u8 = diff_b.wrapping_add(8).wrapping_sub(diff_g);

        proof {
            lemma_luma_relative_field(self.r, other.r, self.g, other.g);
            lemma_luma_relative_field(self.b, other.b, self.g, other.g);
        }
        if luma_rg <= 15 && luma_bg <= 15 {
            return Some(PixelDiff::Luma(luma_g, luma_rg, luma_bg));
        }
        None
    }

    /// Recreates a `Pixel` from the provided `diff` and `diff_pixel`. The
    /// alpha channel is that of `diff_pixel`.
    pub fn from_diff(diff: PixelDiff, diff_pixel: &Pixel) -> (p: Self)
        ensures
            p == Pixel::from_diff_spec(diff, *diff_pixel),
    {
        proof {
            match diff {
                PixelDiff::Color(r, g, b) => {
                    lemma_unbias(diff_pixel.r, r, 2);
                    lemma_unbias(diff_pixel.g, g, 2);
                    lemma_unbias(diff_pixel.b, b, 2);
                },
                PixelDiff::Luma(g, rg, bg) => {
                    lemma_unbias_relative(diff_pixel.r, rg, g);
                    lemma_unbias(diff_pixel.g, g, 32);
                    lemma_unbias_relative(diff_pixel.b, bg, g);
                },
            }
        }
        match diff {
            PixelDiff::Color(diff_r, diff_g, diff_b) => Pixel {
                r: diff_pixel.r.wrapping_add(diff_r.wrapping_sub(2)),
                g: diff_pixel.g.wrapping_add(diff_g.wrapping_sub(2)),
                b: diff_pixel.b.wrapping_add(diff_b.wrapping_sub(2)),
                a: diff_pixel.a,
            },
            PixelDiff::Luma(luma_g, luma_rg, luma_bg) => {
                let diff_g: u8 = luma_g.wrapping_sub(32);
                let diff_r: u8 = luma_rg.wrapping_sub(8).wrapping_add(diff_g);
                let diff_b: u8 = luma_bg.wrapping_sub(8).wrapping_add(diff_g);

                Pixel {
                    r: diff_pixel.r.wrapping_add(diff_r),
                    g: diff_pixel.g.wrapping_add(diff_g),
                    b: diff_pixel.b.wrapping_add(diff_b),
                    a: diff_pixel.a,
                }
            },
        }
    }

    /// The QOI colour hash: the weighted channel sum modulo 64, which is the
    /// pixel's cache slot. It serves to select that slot and nothing else.
    pub fn qoi_hash(&self) -> (h: usize)
        ensures
            h == self.slot(),
            h < 64,
    {
        let r: usize = self.r as usize;
        let g: usize = self.g as usize;
        let b: usize = self.b as usize;
        let a: usize = self.a as usize;

        (r * 3 + g * 5 + b * 7 + a * 11) % 64
    }
}

} // verus!
