//! Small metric helpers: DPI scaling, 64-bit scaling, clamping, corner radii and the
//! opacity arithmetic of recolors.
use vstd::prelude::*;
use crate::geom::Rect;
use crate::scroll::tdiv;

verus! {

/// `px` pixels at 160 DPI scaled to `dpi` (LVGL `LV_DPX_CALC`): 0 stays 0, positive values
/// are `(px · dpi + 80) / 160` and at least 1, negative values are scaled symmetrically.
pub open spec fn dpx_model(px: int, dpi: int) -> int {
    if px == 0 {
        0
    } else if px > 0 {
        let v = (dpi * px + 80) / 160;
        if v > 1 { v } else { 1 }
    } else {
        let v = (dpi * (-px) + 80) / 160;
        -(if v > 1 { v } else { 1 })
    }
}

/// `px` pixels at 160 DPI scaled to `dpi` (see [`dpx_model`]); the scaled value must fit
/// the `i32` arithmetic of LVGL.
pub fn dpx(px: i32, dpi: u16) -> (r: i32)
    requires
        px > i32::MIN,
        dpi * (if px < 0 { -(px as int) } else { px as int }) + 80 <= i32::MAX,
    ensures
        r == dpx_model(px as int, dpi as int),
{
    if px == 0 {
        0
    } else if px > 0 {
        let v = (dpi as i32 * px + 80) / 160;
        if v > 1 { v } else { 1 }
    } else {
        let v = (dpi as i32 * (-px) + 80) / 160;
        -(if v > 1 { v } else { 1 })
    }
}

/// `v · factor / divisor` in 64 bits (LVGL `mul_div`), rounded towards zero; the quotient
/// must fit `i32`.
pub fn mul_div(v: i32, factor: i32, divisor: i32) -> (r: i32)
    requires
        divisor != 0,
        i32::MIN <= tdiv(v * factor, divisor as int) <= i32::MAX || divisor < 0,
        divisor < 0 ==> i32::MIN <= -tdiv(v * factor, -(divisor as int)) <= i32::MAX,
    ensures
        divisor > 0 ==> r == tdiv(v * factor, divisor as int),
        divisor < 0 ==> r == -tdiv(v * factor, -(divisor as int)),
{
    assert(-0x4000_0000_0000_0000 <= (v as int) * (factor as int) <= 0x4000_0000_0000_0000) by (nonlinear_arith)
        requires i32::MIN <= v <= i32::MAX, i32::MIN <= factor <= i32::MAX;
    let p: i64 = v as i64 * factor as i64;
    let d: i64 = divisor as i64;
    let q = p / d;
    proof {
        if d < 0 {
            let a: int = if p >= 0 { p as int } else { -(p as int) };
            let e: int = -(d as int);
            let k = a / e;
            assert(a == e * k + a % e && 0 <= a % e < e) by (nonlinear_arith) requires e > 0, a >= 0, k == a / e;
            assert(a == (d as int) * (-k) + a % e) by (nonlinear_arith) requires a == e * k + a % e, e == -(d as int);
            assert(a / (d as int) == -k) by (nonlinear_arith)
                requires a == (d as int) * (-k) + a % e, 0 <= a % e < e, e == -(d as int), d < 0;
        }
    }
    q as i32
}

/// `v` clamped to `0..=max` (`max ≥ 0`).
pub fn clamp_u(v: i32, max: i32) -> (r: i32)
    requires
        max >= 0,
    ensures
        r == (if v < 0 { 0 } else if v > max { max } else { v }),
{
    if v < 0 { 0 } else if v > max { max } else { v }
}

/// The radius actually drawn: `radius` clamped to `0..=` half the shorter side (0 for an
/// empty area).
pub fn effective_radius(area: Rect, radius: i32) -> (r: i32)
    requires
        area.wf(),
    ensures
        ({
            let w = area.x1 - area.x0;
            let h = area.y1 - area.y0;
            let m = if w < h { w } else { h };
            let lim = (if m > 0 { m } else { 0 }) / 2;
            r == (if radius < 0 { 0 } else if radius > lim { lim } else { radius as int })
        }),
{
    let w = area.x1 - area.x0;
    let h = area.y1 - area.y0;
    let m = if w < h { w } else { h };
    let lim = (if m > 0 { m } else { 0 }) / 2;
    if radius < 0 { 0 } else if radius > lim { lim } else { radius }
}

/// LVGL `LV_OPA_MIN` / `LV_OPA_MAX`: below / above counts as fully transparent / opaque.
pub const OPA_MIN: u8 = 2;
pub const OPA_MAX: u8 = 253;

/// How two colors with their own alphas combine (LVGL `lv_color_over32`, `fg` over `bg`).
#[derive(Clone, Copy, Debug, PartialEq, Eq, Structural)]
pub enum Over {
    /// The result is `fg`.
    Fg,
    /// The result is `bg`.
    Bg,
    /// `fg`'s color mixed over `bg`'s with this ratio, with this alpha (LVGL
    /// `lv_color_mix32`; a ratio at or above [`OPA_MAX`] keeps `fg`'s color, at or below
    /// [`OPA_MIN`] `bg`'s).
    Mix { ratio: u8, alpha: u8 },
}

/// The combination of `fg` over `bg` by their alphas (see [`Over`]): an opaque `fg` or a
/// transparent `bg` gives `fg`; a transparent `fg` gives `bg`; over an opaque `bg` the colors
/// mix with `fg`'s alpha and keep alpha 255; else the alpha is `255 − (255 − a_fg)(255 −
/// a_bg) / 256` and the ratio `a_fg · 255 / alpha` (at most 255).
pub open spec fn over_model(fa: int, ba: int) -> Over {
    if fa >= OPA_MAX || ba <= OPA_MIN {
        Over::Fg
    } else if fa <= OPA_MIN {
        Over::Bg
    } else if ba == 255 {
        Over::Mix { ratio: fa as u8, alpha: 255 }
    } else {
        let alpha = 255 - ((255 - fa) * (255 - ba)) / 256;
        let ratio = fa * 255 / (if alpha > 1 { alpha } else { 1 });
        Over::Mix { ratio: (if ratio < 255 { ratio } else { 255 }) as u8, alpha: alpha as u8 }
    }
}

/// The combination of two alphas (see [`over_model`]).
pub fn over32(fg_alpha: u8, bg_alpha: u8) -> (r: Over)
    ensures
        r == over_model(fg_alpha as int, bg_alpha as int),
{
    if fg_alpha >= OPA_MAX || bg_alpha <= OPA_MIN {
        return Over::Fg;
    }
    if fg_alpha <= OPA_MIN {
        return Over::Bg;
    }
    if bg_alpha == 255 {
        return Over::Mix { ratio: fg_alpha, alpha: 255 };
    }
    let inv_f: u32 = 255 - fg_alpha as u32;
    let inv_b: u32 = 255 - bg_alpha as u32;
    assert(inv_f * inv_b <= 65025) by (nonlinear_arith) requires inv_f <= 255, inv_b <= 255;
    let prod: u32 = inv_f * inv_b;
    assert((prod >> 8u32) == prod / 256) by (bit_vector);
    let alpha: u32 = 255 - (prod >> 8u32);
    let ratio: u32 = fg_alpha as u32 * 255 / (if alpha > 1 { alpha } else { 1 });
    Over::Mix { ratio: if ratio < 255 { ratio as u8 } else { 255 }, alpha: alpha as u8 }
}

/// LVGL `LV_DPX_CALC(dpi, n)` as used for scrollbars: 0 stays 0, any other `n` gives
/// `(dpi · n + 80) / 160` and at least 1 (also for negative `n`).
pub fn dpx_min1(dpi: u16, n: i32) -> (r: i32)
    requires
        i32::MIN <= dpi * n && dpi * n + 80 <= i32::MAX,
    ensures
        n == 0 ==> r == 0,
        n != 0 ==> r == (if tdiv(dpi * n + 80, 160) > 1 { tdiv(dpi * n + 80, 160) } else { 1 }),
{
    if n == 0 {
        return 0;
    }
    let v = (dpi as i32 * n + 80) / 160;
    if v > 1 { v } else { 1 }
}

} // verus!
