//! RGB colors and their conversion to the perceptual spaces (a luma/chroma
//! space and a CIELAB-like space) that the delta codecs use as distance
//! metrics. All transforms are exact integer arithmetic; spec functions give
//! each channel's value in closed form.

use vstd::prelude::*;

verus! {

/// An RGB color with three 8-bit channels; a plain value type.
#[derive(Debug, PartialEq, Eq, Structural, Clone, Copy, Hash)]
pub struct Color {
    pub r: u8,
    pub g: u8,
    pub b: u8,
}

/// Divides a fixed-point channel term by its scale of 100000 and saturates
/// the quotient into the 8-bit range, as a saturating cast does.
pub open spec fn scale_clamp(t: int) -> int {
    if t < 0 {
        0
    } else if t / 100000 > 255 {
        255
    } else {
        t / 100000
    }
}

/// Luma (Y) of a color: the BT.601 weighted sum of the channels.
pub open spec fn yuv_y(c: Color) -> int {
    (299 * (c.r as int) + 587 * (c.g as int) + 114 * (c.b as int)) / 1000
}

/// First chroma channel (U), biased by 128 and saturated to 0..255.
pub open spec fn yuv_u(c: Color) -> int {
    scale_clamp(12800000 - 14713 * (c.r as int) - 28886 * (c.g as int) + 43600 * (c.b as int))
}

/// Second chroma channel (V), biased by 128 and saturated to 0..255.
pub open spec fn yuv_v(c: Color) -> int {
    scale_clamp(12800000 + 61500 * (c.r as int) - 51499 * (c.g as int) - 10001 * (c.b as int))
}

impl Color {
    pub fn new(r: u8, g: u8, b: u8) -> (c: Color)
        ensures
            c == (Color { r, g, b }),
    {
        Color { r, g, b }
    }

    /// Converts RGB to the luma/chroma (YUV) space used as a distance metric.
    pub fn to_yuv(&self) -> (yuv: (u8, u8, u8))
        ensures
            yuv.0 as int == yuv_y(*self),
            yuv.1 as int == yuv_u(*self),
            yuv.2 as int == yuv_v(*self),
    {
        let r = self.r as u64;
        let g = self.g as u64;
        let b = self.b as u64;

        let y = (299 * r + 587 * g + 114 * b) / 1000;

        let un = 12800000 - 14713 * r - 28886 * g + 43600 * b;
        let u = if un / 100000 > 255 {
            255
        } else {
            (un / 100000) as u8
        };

        let vbase = 12800000 + 61500 * r;
        let vsub = 51499 * g + 10001 * b;
        let v = if vbase < vsub {
            0
        } else if (vbase - vsub) / 100000 > 255 {
            255
        } else {
            ((vbase - vsub) / 100000) as u8
        };

        (y as u8, u, v)
    }

    /// Converts RGB to the CIELAB-like space used as a distance metric: a
    /// gamma-expanded XYZ transform followed by cube roots, everything in
    /// 8-bit fixed point, channels saturated as a saturating cast does.
    pub fn to_cielab(&self) -> (lab: (u8, u8, u8))
        ensures
            lab.0 as int == lab_l(*self),
            lab.1 as int == lab_a(*self),
            lab.2 as int == lab_b(*self),
    {
        let lr = lin_channel(self.r);
        let lg = lin_channel(self.g);
        let lb = lin_channel(self.b);

        let x = (4124 * lr + 3576 * lg + 1804 * lb) / 9505;
        let y = (2127 * lr + 7152 * lg + 722 * lb) / 10001;
        let z = (193 * lr + 1192 * lg + 9503 * lb) / 10888;

        let fx = cbrt_fixed(65025 * x);
        let fy = cbrt_fixed(65025 * y);
        let fz = cbrt_fixed(65025 * z);

        let lt = (116 * fy as u32) / 255;
        let l = if lt < 16 {
            0
        } else {
            (lt - 16) as u8
        };

        let a = diff_scale_clamp(fx, fy, 500);
        let b = diff_scale_clamp(fy, fz, 200);

        (l, a, b)
    }
}

/// Gamma-expands an 8-bit channel into a linear 0..255 value, with a square
/// in place of the sRGB exponent.
pub open spec fn srgb_lin(c: int) -> int {
    (c * c) / 255
}

/// The gamma-expanded XYZ coordinates of a color, each scaled to 0..255 and
/// normalized by its white-point weight.
pub open spec fn lab_xyz_x(c: Color) -> int {
    (4124 * srgb_lin(c.r as int) + 3576 * srgb_lin(c.g as int) + 1804 * srgb_lin(c.b as int))
        / 9505
}

pub open spec fn lab_xyz_y(c: Color) -> int {
    (2127 * srgb_lin(c.r as int) + 7152 * srgb_lin(c.g as int) + 722 * srgb_lin(c.b as int))
        / 10001
}

pub open spec fn lab_xyz_z(c: Color) -> int {
    (193 * srgb_lin(c.r as int) + 1192 * srgb_lin(c.g as int) + 9503 * srgb_lin(c.b as int))
        / 10888
}

/// The largest root not above `n` whose cube is at most `x`.
pub open spec fn cbrt_down(x: int, n: int) -> int
    decreases n,
{
    if n <= 0 {
        0
    } else if n * n * n <= x {
        n
    } else {
        cbrt_down(x, n - 1)
    }
}

/// The integer cube root of a value in 0 ..= 255^3.
pub open spec fn spec_cbrt(x: int) -> int {
    cbrt_down(x, 255)
}

/// The CIELAB `f` transfer: a cube root over the 0..255 fixed-point scale.
pub open spec fn lab_f(t: int) -> int {
    spec_cbrt(65025 * t)
}

/// Clamps an integer into the 8-bit channel range, as a saturating cast does.
pub open spec fn clamp255(x: int) -> int {
    if x < 0 {
        0
    } else if x > 255 {
        255
    } else {
        x
    }
}

/// Lightness: the cube-rooted Y coordinate, offset as CIELAB defines.
pub open spec fn lab_l(c: Color) -> int {
    clamp255((116 * lab_f(lab_xyz_y(c))) / 255 - 16)
}

/// The green-red axis, saturated into 8 bits.
pub open spec fn lab_a(c: Color) -> int {
    clamp255((500 * (lab_f(lab_xyz_x(c)) - lab_f(lab_xyz_y(c)))) / 255)
}

/// The blue-yellow axis, saturated into 8 bits.
pub open spec fn lab_b(c: Color) -> int {
    clamp255((200 * (lab_f(lab_xyz_y(c)) - lab_f(lab_xyz_z(c)))) / 255)
}

/// Gamma-expands one channel.
fn lin_channel(c: u8) -> (r: u32)
    ensures
        r as int == srgb_lin(c as int),
        r <= 255,
{
    proof {
        assert(0 <= c as int * c as int <= 65025) by (nonlinear_arith)
            requires
                0 <= c as int <= 255,
        ;
    }
    (c as u32 * c as u32) / 255
}

/// Any root not above the true cube root is found by the bounded descent.
proof fn lemma_cbrt_down_eq(x: int, n: int, r: int)
    requires
        0 <= r <= n <= 255,
        r * r * r <= x,
        (r + 1) * (r + 1) * (r + 1) > x,
    ensures
        cbrt_down(x, n) == r,
    decreases n,
{
    if n > r {
        assert(n * n * n >= (r + 1) * (r + 1) * (r + 1)) by (nonlinear_arith)
            requires
                n >= r + 1 >= 1,
        ;
        lemma_cbrt_down_eq(x, n - 1, r);
    }
}

/// The integer cube root over the fixed-point scale: the largest `r` with
/// `r^3 <= x`.
fn cbrt_fixed(x: u32) -> (r: u8)
    requires
        x <= 16581375,
    ensures
        r as int == spec_cbrt(x as int),
{
    let mut r: u8 = 0;
    loop
        invariant
            x <= 16581375,
            r <= 255,
            r as int * r as int * r as int <= x as int,
        ensures
            r <= 255,
            r as int * r as int * r as int <= x as int,
            (r as int + 1) * (r as int + 1) * (r as int + 1) > x as int,
        decreases 255 - r as int,
    {
        let c = r as u32 + 1;
        proof {
            assert(c as int * c as int <= 65536 && 0 <= c as int * c as int * c as int
                <= 16777216) by (nonlinear_arith)
                requires
                    1 <= c as int <= 256,
            ;
        }
        if r == 255 {
            proof {
                assert((r as int + 1) * (r as int + 1) * (r as int + 1) == 16777216)
                    by (nonlinear_arith)
                    requires
                        r as int == 255,
                ;
            }
            break ;
        }
        if c * c * c <= x {
            r = r + 1;
        } else {
            break ;
        }
    }
    proof {
        lemma_cbrt_down_eq(x as int, 255, r as int);
    }
    r
}

/// Scales the difference of two transfer values and saturates it into 8 bits;
/// a difference that is not positive saturates to zero.
fn diff_scale_clamp(hi: u8, lo: u8, factor: u32) -> (r: u8)
    requires
        factor <= 500,
    ensures
        r as int == clamp255((factor * (hi as int - lo as int)) / 255),
{
    if hi <= lo {
        proof {
            let d = hi as int - lo as int;
            let t = factor as int * d;
            if d == 0 || factor == 0 {
                assert(t == 0) by (nonlinear_arith)
                    requires
                        d == 0 || factor as int == 0,
                        t == factor as int * d,
                ;
                vstd::arithmetic::div_mod::lemma_div_of0(255);
            } else {
                assert(t <= -(factor as int)) by (nonlinear_arith)
                    requires
                        d <= -1,
                        factor as int >= 1,
                        t == factor as int * d,
                ;
                assert(t / 255 < 0) by {
                    vstd::arithmetic::div_mod::lemma_fundamental_div_mod(t, 255);
                    vstd::arithmetic::div_mod::lemma_mod_division_less_than_divisor(t, 255);
                }
            }
        }
        0
    } else {
        proof {
            assert(0 <= factor as int * (hi as int - lo as int) <= 127500) by (nonlinear_arith)
                requires
                    0 <= factor as int <= 500,
                    0 <= hi as int - lo as int <= 255,
            ;
        }
        let q = (factor * (hi - lo) as u32) / 255;
        if q > 255 {
            255
        } else {
            q as u8
        }
    }
}

} // verus!
