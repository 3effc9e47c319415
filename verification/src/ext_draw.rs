//! The extra draw size of a node (LVGL `lv_obj_refresh_ext_draw_size`): how far its drawing
//! reaches beyond its coordinates (shadow, outline, transform size, the widget's own
//! extent, and the growth caused by a transform), and resolved lengths.
use vstd::prelude::*;
use crate::geom::Rect;
use crate::scroll::tdiv;

verus! {

/// A style value where a length is expected.
#[derive(Clone, Copy, Debug, PartialEq, Eq, Structural, Hash)]
pub enum LengthValue {
    /// Pixels.
    Px(i32),
    /// Percent of a basis.
    Pct(i32),
    /// The content size.
    Content,
    /// A plain integer value.
    Int(i32),
    /// A value that is no number.
    Other,
}

/// A resolved length in pixels: `Px` as is, `Pct` of `basis` (rounded towards zero), a plain
/// integer as is, `Content` and anything else as 0.
pub open spec fn length_px_model(v: LengthValue, basis: int) -> int {
    match v {
        LengthValue::Px(p) => p as int,
        LengthValue::Pct(p) => tdiv(basis * p, 100),
        LengthValue::Int(i) => i as int,
        _ => 0,
    }
}

/// A resolved length in pixels (see [`length_px_model`]); the percentage must fit `i32`.
pub fn length_px(v: LengthValue, basis: i32) -> (r: i32)
    requires
        v matches LengthValue::Pct(p) ==> i32::MIN <= tdiv(basis * p, 100) <= i32::MAX,
    ensures
        r == length_px_model(v, basis as int),
{
    match v {
        LengthValue::Px(p) => p,
        LengthValue::Pct(p) => {
            let prod: i64 = basis as i64 * p as i64;
            assert(-0x4000_0000_0000_0000 <= (basis as int) * (p as int) <= 0x4000_0000_0000_0000) by (nonlinear_arith)
                requires i32::MIN <= basis <= i32::MAX, i32::MIN <= p <= i32::MAX;
            (prod / 100) as i32
        },
        LengthValue::Int(i) => i,
        _ => 0,
    }
}

/// The larger of two integers.
pub open spec fn max2(a: int, b: int) -> int {
    if a >= b { a } else { b }
}

/// The extra draw size before any transform: the largest of the shadow's extent (when the
/// shadow is visible), the outline width plus its non-negative padding (when the outline
/// has a width and is visible), the transform width and height, and the widget's own
/// extent; never below 0.
pub open spec fn base_ext(shadow: Option<i32>, outline_width: i32, outline_visible: bool, outline_pad: i32,
    tw: i32, th: i32, widget: u16) -> int {
    let e0 = match shadow { Some(s) => max2(0, s as int), None => 0 };
    let e1 = if outline_width > 0 && outline_visible { max2(e0, outline_width + max2(outline_pad as int, 0)) } else { e0 };
    max2(max2(max2(e1, tw as int), th as int), widget as int)
}

/// The extra draw size before any transform (see [`base_ext`]); the outline's width plus
/// padding must fit `i32`.
pub fn ext_draw_base(shadow: Option<i32>, outline_width: i32, outline_visible: bool, outline_pad: i32,
    tw: i32, th: i32, widget: u16) -> (r: i32)
    requires
        outline_width + max2(outline_pad as int, 0) <= i32::MAX,
    ensures
        r == base_ext(shadow, outline_width, outline_visible, outline_pad, tw, th, widget),
{
    let mut ext: i32 = 0;
    if let Some(s) = shadow {
        ext = if s > ext { s } else { ext };
    }
    if outline_width > 0 && outline_visible {
        let pad = if outline_pad > 0 { outline_pad } else { 0 };
        let o = outline_width + pad;
        ext = if o > ext { o } else { ext };
    }
    ext = if tw > ext { tw } else { ext };
    ext = if th > ext { th } else { ext };
    let w = widget as i32;
    if w > ext { w } else { ext }
}

/// How far the transformed `bounds` of the area `base` reach beyond it on its widest side
/// (never below 0).
pub open spec fn growth(base: Rect, bounds: Rect) -> int {
    max2(max2(max2(max2(base.x0 - bounds.x0, base.y0 - bounds.y0), bounds.x1 - base.x1), bounds.y1 - base.y1), 0)
}

/// The final extra draw size: `ext`, plus the growth of the transformed area when the node
/// is transformed (`bounds` of the area `base`, the coordinates grown by `ext`), clamped to
/// `0..=65535`.
pub fn ext_draw_final(ext: i32, transform: Option<(Rect, Rect)>) -> (r: u16)
    requires
        transform matches Some((base, bounds)) ==> {
            &&& i32::MIN <= base.x0 - bounds.x0 <= i32::MAX
            &&& i32::MIN <= base.y0 - bounds.y0 <= i32::MAX
            &&& i32::MIN <= bounds.x1 - base.x1 <= i32::MAX
            &&& i32::MIN <= bounds.y1 - base.y1 <= i32::MAX
            &&& ext + growth(base, bounds) <= i32::MAX
        },
    ensures
        ({
            let e = match transform { Some((base, bounds)) => ext + growth(base, bounds), None => ext as int };
            r == (if e < 0 { 0 } else if e > 65535 { 65535 } else { e })
        }),
{
    let mut e = ext;
    if let Some((base, b)) = transform {
        let g0 = base.x0 - b.x0;
        let g1 = base.y0 - b.y0;
        let g2 = b.x1 - base.x1;
        let g3 = b.y1 - base.y1;
        let m01 = if g0 >= g1 { g0 } else { g1 };
        let m012 = if m01 >= g2 { m01 } else { g2 };
        let m = if m012 >= g3 { m012 } else { g3 };
        let grow = if m >= 0 { m } else { 0 };
        e = e + grow;
    }
    if e < 0 { 0 } else if e > 65535 { 65535 } else { e as u16 }
}

} // verus!
