//! Scrollbars (LVGL `lv_obj_get_scrollbar_area`): which bars a node shows, their geometry
//! from the scroll extents and the `Part::Scrollbar` styles, and the strips to redraw when
//! the content moves.
use vstd::prelude::*;
use crate::event::{Dir, DIR_HOR, DIR_VER};
use crate::geom::Rect;
use crate::metrics::{OPA_MIN, mul_div};
use crate::scroll::tdiv;

verus! {

/// When the scrollbars are shown (LVGL `lv_scrollbar_mode_t`).
#[derive(Clone, Copy, Debug, PartialEq, Eq, Structural, Hash)]
pub enum ScrollbarMode {
    /// Never.
    Off,
    /// Always, on the axes of the scroll direction.
    On,
    /// While a pointer scrolls the node on that axis.
    Active,
    /// When there is content to scroll to on the axis.
    Auto,
}

/// What decides whether a node shows its scrollbars.
#[derive(Clone, Copy, Debug, PartialEq, Eq, Structural)]
pub struct BarShow {
    /// The node has `SCROLLABLE`.
    pub scrollable: bool,
    pub mode: ScrollbarMode,
    /// The axis a pointer is scrolling the node on, if any.
    pub indev_dir: Option<Dir>,
    /// `Width` of `Part::Scrollbar`.
    pub thickness: i32,
    /// `BgOpa` and `BorderOpa` of `Part::Scrollbar`.
    pub bg_opa: u8,
    pub border_opa: u8,
    /// The node's scroll direction.
    pub dir: Dir,
    pub scroll_top: i32,
    pub scroll_bottom: i32,
    pub scroll_left: i32,
    pub scroll_right: i32,
}

/// Whether the bar of the axis `axis` (`DIR_HOR` or `DIR_VER`) is shown, given the scroll
/// extents `before` and `after` on that axis.
pub open spec fn axis_shown(s: BarShow, axis: u8, before: int, after: int) -> bool {
    &&& s.dir.bits & axis != 0
    &&& match s.mode {
        ScrollbarMode::On => true,
        ScrollbarMode::Auto => before > 0 || after > 0,
        ScrollbarMode::Active => s.indev_dir == Some(Dir { bits: axis }),
        ScrollbarMode::Off => false,
    }
}

/// Whether the part can be drawn at all: a positive thickness and a visible background or
/// border.
pub open spec fn bar_drawable(s: BarShow) -> bool {
    s.thickness > 0 && (s.bg_opa > OPA_MIN || s.border_opa > OPA_MIN)
}

/// Whether a pointer scrolls the node on exactly the axis `axis`.
fn active_on(indev_dir: Option<Dir>, axis: u8) -> (b: bool)
    ensures
        b == (indev_dir == Some(Dir { bits: axis })),
{
    match indev_dir {
        Some(d) => d.bits == axis,
        None => false,
    }
}

/// The shown bars `(horizontal, vertical)` of a node (LVGL `lv_obj_get_scrollbar_area`):
/// only on `SCROLLABLE` nodes whose bar part can be drawn, for the axes of the scroll
/// direction, always with `On`, with `Auto` when there is content to scroll to on the axis,
/// with `Active` while a pointer scrolls the node on that axis, never with `Off`.
pub fn bars_shown(s: &BarShow) -> (r: (bool, bool))
    ensures
        r.0 == (s.scrollable && bar_drawable(*s) && axis_shown(*s, DIR_HOR, s.scroll_left as int, s.scroll_right as int)),
        r.1 == (s.scrollable && bar_drawable(*s) && axis_shown(*s, DIR_VER, s.scroll_top as int, s.scroll_bottom as int)),
{
    if !s.scrollable {
        return (false, false);
    }
    match s.mode {
        ScrollbarMode::Off => { return (false, false); },
        ScrollbarMode::Active => {
            if s.indev_dir.is_none() {
                return (false, false);
            }
        },
        _ => {},
    }
    if s.thickness <= 0 || (s.bg_opa <= OPA_MIN && s.border_opa <= OPA_MIN) {
        return (false, false);
    }
    let ver = s.dir.intersects(DIR_VER) && match s.mode {
        ScrollbarMode::On => true,
        ScrollbarMode::Auto => s.scroll_top > 0 || s.scroll_bottom > 0,
        ScrollbarMode::Active => active_on(s.indev_dir, DIR_VER),
        ScrollbarMode::Off => false,
    };
    let hor = s.dir.intersects(DIR_HOR) && match s.mode {
        ScrollbarMode::On => true,
        ScrollbarMode::Auto => s.scroll_left > 0 || s.scroll_right > 0,
        ScrollbarMode::Active => active_on(s.indev_dir, DIR_HOR),
        ScrollbarMode::Off => false,
    };
    (hor, ver)
}

/// The geometry inputs of the bars: the node's coordinates, its scroll extents and the
/// `Part::Scrollbar` style values (thickness = `Width`, distances and insets = paddings,
/// `Length`), the shortest bar (10 px at 160 dpi, scaled) and the bar side for
/// right-to-left nodes.
#[derive(Clone, Copy, Debug, PartialEq, Eq, Structural)]
pub struct BarGeom {
    pub coords: Rect,
    pub scroll_top: i32,
    pub scroll_bottom: i32,
    pub scroll_left: i32,
    pub scroll_right: i32,
    pub thickness: i32,
    pub pad_top: i32,
    pub pad_bottom: i32,
    pub pad_left: i32,
    pub pad_right: i32,
    pub length: i32,
    pub min_size: i32,
    pub rtl: bool,
}

/// `v · f / d` rounded towards zero (`d != 0`), as LVGL's `mul_div` computes it.
pub open spec fn md(v: int, f: int, d: int) -> int {
    if d > 0 { tdiv(v * f, d) } else { -tdiv(v * f, -d) }
}

/// A bound far beyond any screen, within which the `i32` arithmetic of the bar geometry
/// cannot overflow.
pub open spec fn small(v: int) -> bool {
    -0x100_0000 <= v <= 0x100_0000
}

/// The inclusive LVGL area `(x1, y1)–(x2, y2)` as a rectangle, `None` when empty.
pub open spec fn incl_rect(x1: int, y1: int, x2: int, y2: int) -> Option<Rect> {
    if x2 + 1 <= x1 || y2 + 1 <= y1 {
        None
    } else {
        Some(Rect { x0: x1 as i32, y0: y1 as i32, x1: (x2 + 1) as i32, y1: (y2 + 1) as i32 })
    }
}

/// `v` clamped below by `lo`, then above by `hi` (LVGL `LV_MAX` then `LV_MIN`).
pub open spec fn max_then_min(v: int, lo: int, hi: int) -> int {
    let m = if v > lo { v } else { lo };
    if m < hi { m } else { hi }
}

/// The span `(a, b)` of a bar of `size` pixels that starts `offset` pixels into the track
/// `start..=end`, pushed back inside the track at both ends but kept at least `min` long.
pub open spec fn bar_span(offset: int, size: int, start: int, end: int, min: int) -> (int, int) {
    let a0 = offset;
    let b0 = a0 + size - 1;
    let (a1, b1) = if a0 < start { (start, if start + min > b0 { start + min } else { b0 }) } else { (a0, b0) };
    if b1 > end { (if end - min < a1 { end - min } else { a1 }, end) } else { (a1, b1) }
}

impl BarGeom {
    pub open spec fn obj_w(self) -> int { self.coords.x1 - self.coords.x0 }
    pub open spec fn obj_h(self) -> int { self.coords.y1 - self.coords.y0 }
    pub open spec fn content_w(self) -> int { self.obj_w() + self.scroll_left + self.scroll_right }
    pub open spec fn content_h(self) -> int { self.obj_h() + self.scroll_top + self.scroll_bottom }

    /// The vertical track length (without the space the horizontal bar takes, `hreq`).
    pub open spec fn ver_track(self, hreq: int) -> int {
        self.obj_h() - self.pad_top - self.pad_bottom - hreq
    }

    pub open spec fn hor_track(self, vreq: int) -> int {
        self.obj_w() - self.pad_left - self.pad_right - vreq
    }

    /// The vertical bar's length: the visible fraction of the track (or `Length`), at least
    /// the shortest bar, at most the node's height.
    pub open spec fn ver_size(self, hreq: int) -> int {
        let sz = if self.length > 0 { self.length as int } else { md(self.ver_track(hreq), self.obj_h(), self.content_h()) };
        max_then_min(sz, self.min_size as int, self.obj_h())
    }

    pub open spec fn hor_size(self, vreq: int) -> int {
        let sz = if self.length > 0 { self.length as int } else { md(self.hor_track(vreq), self.obj_w(), self.content_w()) };
        max_then_min(sz, self.min_size as int, self.obj_w())
    }

    /// The vertical bar (drawn when `content_h != 0`); `hreq` is the thickness of a shown
    /// horizontal bar, else 0.
    pub open spec fn ver_bar(self, hreq: int) -> Option<Rect> {
        let (x1, y1) = (self.coords.x0 as int, self.coords.y0 as int);
        let (x2, y2) = (self.coords.x1 - 1, self.coords.y1 - 1);
        let t = self.thickness as int;
        let (vx1, vx2) = if self.rtl {
            (x1 + self.pad_left, x1 + self.pad_left + t - 1)
        } else {
            (x2 - self.pad_right - t + 1, x2 - self.pad_right)
        };
        let size = self.ver_size(hreq);
        let rem = self.ver_track(hreq) - size;
        let scroll_h = self.content_h() - self.obj_h();
        let (vy1, vy2) = if scroll_h <= 0 {
            (y1 + self.pad_top, y2 - self.pad_bottom - hreq - 1)
        } else {
            let sb_y = rem - md(rem, self.scroll_bottom as int, scroll_h);
            bar_span(y1 + sb_y + self.pad_top, size, y1 + self.pad_top, y2 - hreq - self.pad_bottom, self.min_size as int)
        };
        incl_rect(vx1, vy1, vx2, vy2)
    }

    /// The horizontal bar (drawn when `content_w != 0`); `vreq` is the thickness of a shown
    /// vertical bar, else 0.
    pub open spec fn hor_bar(self, vreq: int) -> Option<Rect> {
        let x1 = self.coords.x0 as int;
        let (x2, y2) = (self.coords.x1 - 1, self.coords.y1 - 1);
        let hy2 = y2 - self.pad_bottom;
        let hy1 = hy2 - self.thickness + 1;
        let size = self.hor_size(vreq);
        let rem = self.hor_track(vreq) - size;
        let scroll_w = self.content_w() - self.obj_w();
        let (hx1, hx2) = if scroll_w <= 0 {
            if self.rtl {
                (x1 + self.pad_left + vreq - 1, x2 - self.pad_right)
            } else {
                (x1 + self.pad_left, x2 - self.pad_right - vreq - 1)
            }
        } else {
            let sb_x = rem - md(rem, self.scroll_right as int, scroll_w);
            let start = if self.rtl { x1 + self.pad_left + vreq } else { x1 + self.pad_left };
            let end = if self.rtl { x2 - self.pad_right } else { x2 - vreq - self.pad_right };
            let off = x1 + sb_x + self.pad_left + (if self.rtl { vreq } else { 0 });
            bar_span(off, size, start, end, self.min_size as int)
        };
        incl_rect(hx1, hy1, hx2, hy2)
    }

    /// The scalings of the vertical bar stay within [`small`].
    pub open spec fn ver_fits(self, hreq: int) -> bool {
        self.content_h() != 0 ==> {
            &&& (self.length <= 0 ==> small(md(self.ver_track(hreq), self.obj_h(), self.content_h())))
            &&& (self.content_h() - self.obj_h() > 0 ==> small(md(
                self.ver_track(hreq) - self.ver_size(hreq), self.scroll_bottom as int, self.content_h() - self.obj_h())))
        }
    }

    /// The scalings of the horizontal bar stay within [`small`].
    pub open spec fn hor_fits(self, vreq: int) -> bool {
        self.content_w() != 0 ==> {
            &&& (self.length <= 0 ==> small(md(self.hor_track(vreq), self.obj_w(), self.content_w())))
            &&& (self.content_w() - self.obj_w() > 0 ==> small(md(
                self.hor_track(vreq) - self.hor_size(vreq), self.scroll_right as int, self.content_w() - self.obj_w())))
        }
    }

    /// The inputs for which the bar geometry is computed without overflow: every value, and
    /// the quotients of the two scalings on each axis, within [`small`].
    pub open spec fn fits(self) -> bool {
        &&& small(self.coords.x0 as int) && small(self.coords.y0 as int)
        &&& small(self.coords.x1 as int) && small(self.coords.y1 as int)
        &&& small(self.scroll_top as int) && small(self.scroll_bottom as int)
        &&& small(self.scroll_left as int) && small(self.scroll_right as int)
        &&& small(self.thickness as int) && small(self.pad_top as int) && small(self.pad_bottom as int)
        &&& small(self.pad_left as int) && small(self.pad_right as int)
        &&& small(self.length as int) && small(self.min_size as int)
        &&& self.ver_fits(0) && self.ver_fits(self.thickness as int)
        &&& self.hor_fits(0) && self.hor_fits(self.thickness as int)
    }
}

/// `v · f / d` as LVGL computes it, for values within [`small`] and a quotient within it.
fn scale(v: i32, f: i32, d: i32) -> (r: i32)
    requires
        d != 0,
        -0x1000_0000 <= v <= 0x1000_0000,
        small(md(v as int, f as int, d as int)),
    ensures
        r == md(v as int, f as int, d as int),
{
    mul_div(v, f, d)
}

/// The span of a bar in its track (see [`bar_span`]).
fn span(offset: i32, size: i32, start: i32, end: i32, min: i32) -> (r: (i32, i32))
    requires
        -0x1000_0000 <= offset <= 0x1000_0000,
        -0x1000_0000 <= size <= 0x1000_0000,
        -0x1000_0000 <= start <= 0x1000_0000,
        -0x1000_0000 <= end <= 0x1000_0000,
        small(min as int),
    ensures
        (r.0 as int, r.1 as int) == bar_span(offset as int, size as int, start as int, end as int, min as int),
{
    let mut a = offset;
    let mut b = a + size - 1;
    if a < start {
        a = start;
        if a + min > b {
            b = a + min;
        }
    }
    if b > end {
        b = end;
        if b - min < a {
            a = b - min;
        }
    }
    (a, b)
}

/// The rectangle of the inclusive area `(x1, y1)–(x2, y2)`, `None` when empty.
fn from_incl(x1: i32, y1: i32, x2: i32, y2: i32) -> (r: Option<Rect>)
    requires
        x2 < i32::MAX,
        y2 < i32::MAX,
    ensures
        r == incl_rect(x1 as int, y1 as int, x2 as int, y2 as int),
{
    let r = Rect::new(x1, y1, x2 + 1, y2 + 1);
    if r.is_empty() { None } else { Some(r) }
}

/// The vertical bar of `g` (see [`BarGeom::ver_bar`]).
fn ver_area(g: &BarGeom, hreq: i32) -> (r: Option<Rect>)
    requires
        g.fits(),
        hreq == 0 || hreq == g.thickness,
        g.content_h() != 0,
    ensures
        r == g.ver_bar(hreq as int),
{
    let c = g.coords;
    let (x1, y1, x2, y2) = (c.x0, c.y0, c.x1 - 1, c.y1 - 1);
    let obj_h = c.y1 - c.y0;
    let content_h = obj_h + g.scroll_top + g.scroll_bottom;
    let t = g.thickness;
    let (vx1, vx2) = if g.rtl {
        (x1 + g.pad_left, x1 + g.pad_left + t - 1)
    } else {
        (x2 - g.pad_right - t + 1, x2 - g.pad_right)
    };
    let track = obj_h - g.pad_top - g.pad_bottom - hreq;
    let sz = if g.length > 0 { g.length } else { scale(track, obj_h, content_h) };
    let lo = if sz > g.min_size { sz } else { g.min_size };
    let size = if lo < obj_h { lo } else { obj_h };
    assert(size == g.ver_size(hreq as int));
    let rem = track - size;
    let scroll_h = content_h - obj_h;
    let (vy1, vy2) = if scroll_h <= 0 {
        (y1 + g.pad_top, y2 - g.pad_bottom - hreq - 1)
    } else {
        let sb_y = rem - scale(rem, g.scroll_bottom, scroll_h);
        span(y1 + sb_y + g.pad_top, size, y1 + g.pad_top, y2 - hreq - g.pad_bottom, g.min_size)
    };
    from_incl(vx1, vy1, vx2, vy2)
}

/// The horizontal bar of `g` (see [`BarGeom::hor_bar`]).
fn hor_area(g: &BarGeom, vreq: i32) -> (r: Option<Rect>)
    requires
        g.fits(),
        vreq == 0 || vreq == g.thickness,
        g.content_w() != 0,
    ensures
        r == g.hor_bar(vreq as int),
{
    let c = g.coords;
    let (x1, x2, y2) = (c.x0, c.x1 - 1, c.y1 - 1);
    let obj_w = c.x1 - c.x0;
    let content_w = obj_w + g.scroll_left + g.scroll_right;
    let hy2 = y2 - g.pad_bottom;
    let hy1 = hy2 - g.thickness + 1;
    let track = obj_w - g.pad_left - g.pad_right - vreq;
    let sz = if g.length > 0 { g.length } else { scale(track, obj_w, content_w) };
    let lo = if sz > g.min_size { sz } else { g.min_size };
    let size = if lo < obj_w { lo } else { obj_w };
    assert(size == g.hor_size(vreq as int));
    let rem = track - size;
    let scroll_w = content_w - obj_w;
    let (hx1, hx2) = if scroll_w <= 0 {
        if g.rtl {
            (x1 + g.pad_left + vreq - 1, x2 - g.pad_right)
        } else {
            (x1 + g.pad_left, x2 - g.pad_right - vreq - 1)
        }
    } else {
        let sb_x = rem - scale(rem, g.scroll_right, scroll_w);
        let start = if g.rtl { x1 + g.pad_left + vreq } else { x1 + g.pad_left };
        let end = if g.rtl { x2 - g.pad_right } else { x2 - vreq - g.pad_right };
        let off = x1 + sb_x + g.pad_left + if g.rtl { vreq } else { 0 };
        span(off, size, start, end, g.min_size)
    };
    from_incl(hx1, hy1, hx2, hy2)
}

/// The horizontal and the vertical scrollbar `(hor, ver)` in absolute coordinates, for the
/// bars that [`bars_shown`] shows (LVGL `lv_obj_get_scrollbar_area`): the thickness is the
/// part's `Width`, the paddings are the distances from the node's edges (vertical bar:
/// `pad_right`, or `pad_left` for right-to-left nodes; horizontal bar: `pad_bottom`) and
/// the insets at the ends; the length is the visible fraction of the track (or `Length`),
/// at least `min_size`; the position follows the scroll offset. A bar is `None` when not
/// shown, when there is no content on its axis, or when its area is empty.
pub fn scrollbar_areas(g: &BarGeom, hor_draw: bool, ver_draw: bool) -> (r: (Option<Rect>, Option<Rect>))
    requires
        g.fits(),
    ensures
        r.0 == (if hor_draw && g.content_w() != 0 { g.hor_bar(if ver_draw { g.thickness as int } else { 0 }) } else { None }),
        r.1 == (if ver_draw && g.content_h() != 0 { g.ver_bar(if hor_draw { g.thickness as int } else { 0 }) } else { None }),
{
    let ver_req = if ver_draw { g.thickness } else { 0 };
    let hor_req = if hor_draw { g.thickness } else { 0 };
    let c = g.coords;
    let content_h = (c.y1 - c.y0) + g.scroll_top + g.scroll_bottom;
    let content_w = (c.x1 - c.x0) + g.scroll_left + g.scroll_right;
    let ver = if ver_draw && content_h != 0 { ver_area(g, hor_req) } else { None };
    let hor = if hor_draw && content_w != 0 { hor_area(g, ver_req) } else { None };
    (hor, ver)
}

/// The strips along the edges of a node where its bars can be, whatever their length: the
/// vertical track (at the right edge, or the left one for right-to-left nodes) and the
/// horizontal one at the bottom, both `thickness` plus the padding wide (negative paddings
/// count as 0). Redrawn when the content changes size or place, since the old and the new
/// bars both lie there. `None` when the node cannot show bars (not `SCROLLABLE`, mode
/// `Off`, no thickness).
pub fn scrollbar_tracks(coords: Rect, scrollable: bool, mode: ScrollbarMode, thickness: i32, pad_left: i32, pad_right: i32, pad_bottom: i32, rtl: bool) -> (r: Option<(Rect, Rect)>)
    requires
        small(coords.x0 as int) && small(coords.y0 as int) && small(coords.x1 as int) && small(coords.y1 as int),
        small(thickness as int) && small(pad_left as int) && small(pad_right as int) && small(pad_bottom as int),
    ensures
        r is None <==> !scrollable || mode == ScrollbarMode::Off || thickness <= 0,
        r matches Some((ver, hor)) ==> {
            let pl = if pad_left > 0 { pad_left as int } else { 0 };
            let pr = if pad_right > 0 { pad_right as int } else { 0 };
            let pb = if pad_bottom > 0 { pad_bottom as int } else { 0 };
            &&& ver == (if rtl {
                Rect { x0: coords.x0, y0: coords.y0, x1: (coords.x0 + pl + thickness) as i32, y1: coords.y1 }
            } else {
                Rect { x0: (coords.x1 - pr - thickness) as i32, y0: coords.y0, x1: coords.x1, y1: coords.y1 }
            })
            &&& hor == Rect { x0: coords.x0, y0: (coords.y1 - pb - thickness) as i32, x1: coords.x1, y1: coords.y1 }
        },
{
    if !scrollable || mode == ScrollbarMode::Off || thickness <= 0 {
        return None;
    }
    let pl = if pad_left > 0 { pad_left } else { 0 };
    let pr = if pad_right > 0 { pad_right } else { 0 };
    let pb = if pad_bottom > 0 { pad_bottom } else { 0 };
    let ver = if rtl {
        Rect::new(coords.x0, coords.y0, coords.x0 + pl + thickness, coords.y1)
    } else {
        Rect::new(coords.x1 - pr - thickness, coords.y0, coords.x1, coords.y1)
    };
    let hor = Rect::new(coords.x0, coords.y1 - pb - thickness, coords.x1, coords.y1);
    Some((ver, hor))
}

} // verus!
