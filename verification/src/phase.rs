//! Fixed-point color math: linear interpolation, HSV conversion, and
//! the gradient/rainbow phase engine.
//!
//! All angles and blend factors are fixed-point with `SCALE` (1024)
//! standing for 1.0; no floating point is used.

use crate::color::Color;
use vstd::prelude::*;

verus! {

/// Fixed-point unit: this value represents 1.0.
pub const SCALE: u32 = 1024;

/// The gradient/rainbow activation context of one render pass.
///
/// At most one sweep is active at a time.  `depth` is the style-stack
/// index at which the sweep was opened; `count` counts the characters
/// rendered since activation; `total` is the character count of the
/// input remaining at activation time, measured once (at least 1).
#[derive(Debug, Clone, Copy)]
pub struct Sweep {
    pub active: bool,
    pub depth: usize,
    pub count: usize,
    pub total: usize,
}

/// The sweep with no activation: the state at the start of a render.
pub open spec fn sweep_init() -> Sweep {
    Sweep { active: false, depth: 0, count: 0, total: 1 }
}

/// Fixed-point linear interpolation from `a` to `b` by `t/1024`.
pub open spec fn lerp_spec(a: u8, b: u8, t: int) -> u8 {
    if b >= a {
        (a + (b - a) * t / 1024) as u8
    } else {
        (a - (a - b) * t / 1024) as u8
    }
}

/// One output channel of the HSV conversion: `base` plus the match
/// value `m`, rescaled from `[0, 1024]` to `[0, 255]`.
pub open spec fn hsv_channel(base: int, m: int) -> u8 {
    ((base + m) * 255 / 1024) as u8
}

/// Fixed-point HSV to RGB: the standard six-sector decomposition, with
/// hue wrapping at 1024 and saturation/value in `[0, 1024]`.
pub open spec fn hsv_spec(h: int, s: int, v: int) -> Color {
    let hm = h % 1024;
    let c = v * s / 1024;
    let hp = hm * 6 / 1024;
    let hr = (hm * 6) % 1024;
    let w = if hp % 2 == 0 {
        1024 - hr
    } else {
        hr
    };
    let x = c * (1024 - w) / 1024;
    let m = v - c;
    if hp == 0 {
        Color { r: hsv_channel(c, m), g: hsv_channel(x, m), b: hsv_channel(0, m) }
    } else if hp == 1 {
        Color { r: hsv_channel(x, m), g: hsv_channel(c, m), b: hsv_channel(0, m) }
    } else if hp == 2 {
        Color { r: hsv_channel(0, m), g: hsv_channel(c, m), b: hsv_channel(x, m) }
    } else if hp == 3 {
        Color { r: hsv_channel(0, m), g: hsv_channel(x, m), b: hsv_channel(c, m) }
    } else if hp == 4 {
        Color { r: hsv_channel(x, m), g: hsv_channel(0, m), b: hsv_channel(c, m) }
    } else {
        Color { r: hsv_channel(c, m), g: hsv_channel(0, m), b: hsv_channel(x, m) }
    }
}

/// The normalized sweep position for the character at index `count` of
/// `total`, shifted by `phase` and wrapped: `(count*1024/total + phase) % 1024`.
pub open spec fn sweep_t(count: int, total: int, phase: int) -> int {
    (count * 1024 / total + phase) % 1024
}

/// The gradient color at one sweep position: each channel interpolated
/// independently between `start` and `end`.
#[verifier::opaque]
pub open spec fn gradient_color_spec(
    start: Color,
    end: Color,
    phase: int,
    count: int,
    total: int,
) -> Color {
    let t = sweep_t(count, total, phase);
    Color {
        r: lerp_spec(start.r, end.r, t),
        g: lerp_spec(start.g, end.g, t),
        b: lerp_spec(start.b, end.b, t),
    }
}

/// The rainbow hue at one sweep position, optionally running backwards.
pub open spec fn rainbow_hue(phase: int, reverse: bool, count: int, total: int) -> int {
    let t = sweep_t(count, total, phase);
    if reverse {
        (1024 - t) % 1024
    } else {
        t
    }
}

/// The rainbow color at one sweep position: the hue at full saturation
/// and value.
#[verifier::opaque]
pub open spec fn rainbow_color_spec(phase: int, reverse: bool, count: int, total: int) -> Color {
    hsv_spec(rainbow_hue(phase, reverse, count, total), 1024, 1024)
}

/// Fixed-point linear interpolation from `a` to `b` by `t/SCALE`.
pub fn lerp_u8(a: u8, b: u8, t: u32) -> (r: u8)
    requires
        t <= 1024,
    ensures
        r == lerp_spec(a, b, t as int),
{
    if b >= a {
        let d = (b - a) as u32;
        proof {
            assert(d * t <= d * 1024) by (nonlinear_arith)
                requires
                    t <= 1024,
            ;
            assert(d * t / 1024 <= d * 1024 / 1024) by (nonlinear_arith)
                requires
                    d * t <= d * 1024,
            ;
        }
        let step = d * t / SCALE;
        (a as u32 + step) as u8
    } else {
        let d = (a - b) as u32;
        proof {
            assert(d * t <= d * 1024) by (nonlinear_arith)
                requires
                    t <= 1024,
            ;
            assert(d * t / 1024 <= d * 1024 / 1024) by (nonlinear_arith)
                requires
                    d * t <= d * 1024,
            ;
        }
        let step = d * t / SCALE;
        (a as u32 - step) as u8
    }
}

/// Fixed-point HSV to RGB conversion.
pub fn hsv_to_rgb(h_fixed: u32, s_fixed: u32, v_fixed: u32) -> (out: Color)
    requires
        s_fixed <= 1024,
        v_fixed <= 1024,
    ensures
        out == hsv_spec(h_fixed as int, s_fixed as int, v_fixed as int),
{
    let h = h_fixed % SCALE;
    proof {
        assert(v_fixed * s_fixed <= 1024 * 1024) by (nonlinear_arith)
            requires
                s_fixed <= 1024,
                v_fixed <= 1024,
        ;
        assert(v_fixed * s_fixed / 1024 <= v_fixed) by (nonlinear_arith)
            requires
                s_fixed <= 1024,
        ;
    }
    let c = (v_fixed * s_fixed) / SCALE;
    let h6 = h * 6;
    let h_prime = h6 / SCALE;
    let h_rem = h6 % SCALE;
    let w = if h_prime % 2 == 0 {
        SCALE - h_rem
    } else {
        h_rem
    };
    proof {
        assert(c * (1024 - w) <= c * 1024) by (nonlinear_arith)
            requires
                w <= 1024,
        ;
        assert(c * (1024 - w) / 1024 <= c * 1024 / 1024) by (nonlinear_arith)
            requires
                c * (1024 - w) <= c * 1024,
        ;
    }
    let x = (c * (SCALE - w)) / SCALE;
    let m = v_fixed - c;
    if h_prime == 0 {
        Color::new(channel(c, m), channel(x, m), channel(0, m))
    } else if h_prime == 1 {
        Color::new(channel(x, m), channel(c, m), channel(0, m))
    } else if h_prime == 2 {
        Color::new(channel(0, m), channel(c, m), channel(x, m))
    } else if h_prime == 3 {
        Color::new(channel(0, m), channel(x, m), channel(c, m))
    } else if h_prime == 4 {
        Color::new(channel(x, m), channel(0, m), channel(c, m))
    } else {
        Color::new(channel(c, m), channel(0, m), channel(x, m))
    }
}

/// Rescale one channel from `[0, 1024]` to `[0, 255]`.
fn channel(base: u32, m: u32) -> (r: u8)
    requires
        base + m <= 1024,
    ensures
        r == hsv_channel(base as int, m as int),
{
    (((base + m) * 255) / SCALE) as u8
}

/// The sweep position for the character at index `count` of `total`.
pub fn sweep_pos(count: usize, total: usize, phase: u32) -> (t: u32)
    requires
        total >= 1,
    ensures
        t == sweep_t(count as int, total as int, phase as int),
        t < 1024,
{
    let num: u128 = (count as u128) * 1024;
    let step: u128 = num / (total as u128);
    let shifted: u128 = step + (phase as u128);
    (shifted % 1024) as u32
}

/// The gradient color for the character at index `count` of `total`.
pub fn gradient_color(start: Color, end: Color, phase: u32, count: usize, total: usize) -> (c:
    Color)
    requires
        total >= 1,
    ensures
        c == gradient_color_spec(start, end, phase as int, count as int, total as int),
{
    proof {
        reveal(gradient_color_spec);
    }
    let t = sweep_pos(count, total, phase);
    Color::new(lerp_u8(start.r, end.r, t), lerp_u8(start.g, end.g, t), lerp_u8(start.b, end.b, t))
}

/// The rainbow color for the character at index `count` of `total`.
pub fn rainbow_color(phase: u32, reverse: bool, count: usize, total: usize) -> (c: Color)
    requires
        total >= 1,
    ensures
        c == rainbow_color_spec(phase as int, reverse, count as int, total as int),
{
    proof {
        reveal(rainbow_color_spec);
    }
    let t = sweep_pos(count, total, phase);
    let hue = if reverse {
        (SCALE - t) % SCALE
    } else {
        t
    };
    hsv_to_rgb(hue, SCALE, SCALE)
}

} // verus!
