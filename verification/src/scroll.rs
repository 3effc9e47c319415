//! The arithmetic of the scroll model (LVGL `lv_obj_scroll.c`): animation times, bounded
//! scrolling and snap points.
use vstd::prelude::*;
use crate::time::Duration;
use crate::geom::{Point, Rect};
use crate::event::{Dir, DIR_LEFT, DIR_RIGHT, DIR_TOP, DIR_BOTTOM};

verus! {

/// Dragging or throwing beyond an edge of an elastic node moves the content this many times
/// slower (LVGL `LV_INDEV_DEF_SCROLL_ELASTIC_FACTOR`).
pub const SCROLL_ELASTIC_FACTOR: i32 = 4;

/// The largest coordinate, used as "no limit" (LVGL `LV_COORD_MAX`).
pub const COORD_MAX: i32 = 536870911;

/// The smallest coordinate, used as "no limit".
pub const COORD_MIN: i32 = -536870911;

/// Shortest duration of an animated scroll (LVGL `SCROLL_ANIM_TIME_MIN`).
pub fn scroll_anim_time_min() -> (d: Duration)
    ensures
        d.us == 200_000,
{
    Duration::ms(200)
}

/// Longest duration of an animated scroll (LVGL `SCROLL_ANIM_TIME_MAX`).
pub fn scroll_anim_time_max() -> (d: Duration)
    ensures
        d.us == 400_000,
{
    Duration::ms(400)
}

/// Snapping of the children of a scrollable node (LVGL `lv_scroll_snap_t`).
#[derive(Clone, Copy, Debug, PartialEq, Eq, Structural, Hash)]
pub enum ScrollSnap {
    /// No snapping.
    Off,
    Start,
    End,
    Center,
}

/// The duration of an animated scroll over `d` pixels at `speed` (pixels per second, stored
/// with a resolution of 10), clamped between `min_ms` and `max_ms` (each rounded to 10 ms;
/// LVGL `lv_anim_speed_clamped` resolved by `lv_anim_resolve_speed`).
pub open spec fn speed_time_ms(speed: int, min_ms: int, max_ms: int, d: int) -> int {
    let s = (if speed < 10230 { speed } else { 10230 } + 5) / 10;
    let lo = (if min_ms < 10230 { min_ms } else { 10230 } + 5) / 10 * 10;
    let hi0 = (if max_ms < 10230 { max_ms } else { 10230 } + 5) / 10 * 10;
    let hi = if hi0 > lo { hi0 } else { lo };
    if s == 0 {
        lo
    } else {
        let t = (if d * 100 <= u32::MAX { d * 100 } else { u32::MAX as int }) / s;
        if t < lo { lo } else if t > hi { hi } else { t }
    }
}

/// The duration of an animated scroll (see [`speed_time_ms`]).
pub fn speed_clamped_time(speed: u32, min: Duration, max: Duration, d: u32) -> (r: Duration)
    ensures
        r.us == speed_time_ms(speed as int, (min.us / 1000) as int, (max.us / 1000) as int, d as int) * 1000,
{
    let s = (if speed < 10230 { speed } else { 10230 } + 5) / 10;
    let min_ms0 = min.as_millis();
    let max_ms0 = max.as_millis();
    let min_ms: u32 = ((if min_ms0 < 10230 { min_ms0 } else { 10230 }) as u32 + 5) / 10 * 10;
    let max_ms: u32 = ((if max_ms0 < 10230 { max_ms0 } else { 10230 }) as u32 + 5) / 10 * 10;
    if s == 0 {
        return Duration::ms(min_ms as u64);
    }
    let dm: u32 = if d <= 42949672 { d * 100 } else { u32::MAX };
    let t = dm / s;
    let hi = if max_ms > min_ms { max_ms } else { min_ms };
    let c = if t < min_ms { min_ms } else if t > hi { hi } else { t };
    Duration::ms(c as u64)
}

/// Division rounding towards zero, as Rust's `/` on integers (`b > 0`).
pub open spec fn tdiv(a: int, b: int) -> int {
    if a >= 0 { a / b } else { -((-a) / b) }
}

/// The snap position of an extent `lo..=hi` (inclusive, `size` pixels) for `align`: its start,
/// end or middle.
pub open spec fn snap_pos(align: ScrollSnap, lo: int, hi: int, size: int) -> int {
    match align {
        ScrollSnap::Start => lo,
        ScrollSnap::End => hi,
        _ => lo + tdiv(size, 2),
    }
}

/// The snap position of an extent (see [`snap_pos`]).
pub fn snap_position(align: ScrollSnap, lo: i32, hi: i32, size: i32) -> (r: i32)
    requires
        COORD_MIN <= lo <= COORD_MAX,
        COORD_MIN <= hi <= COORD_MAX,
        -2 * COORD_MAX <= size <= 2 * COORD_MAX,
    ensures
        r == snap_pos(align, lo as int, hi as int, size as int),
{
    match align {
        ScrollSnap::Start => lo,
        ScrollSnap::End => hi,
        _ => lo + size / 2,
    }
}

/// The absolute value.
pub open spec fn iabs(v: int) -> int {
    if v < 0 { -v } else { v }
}

/// Whether `j` is the first of `points` (those in `min..=max`) nearest to `target`.
pub open spec fn nearest_at(points: Seq<i32>, min: int, max: int, target: int, j: int) -> bool {
    &&& 0 <= j < points.len()
    &&& min <= points[j] <= max
    &&& forall|k: int| 0 <= k < points.len() && min <= #[trigger] points[k] <= max ==> iabs(points[j] - target) <= iabs(points[k] - target)
    &&& forall|k: int| 0 <= k < j && min <= #[trigger] points[k] <= max ==> iabs(points[j] - target) < iabs(points[k] - target)
}

/// LVGL `find_snap_point`: the scroll distance that brings the snap point nearest to
/// `target` (the parent's snap position) among `points` in `min..=max` onto it, i.e.
/// `target - point`; [`COORD_MAX`] when no point lies in the range. Points are the
/// snappable children's snap positions moved by the scroll offset being tried; all lie
/// in the coordinate range.
pub fn nearest_snap(points: &Vec<i32>, min: i32, max: i32, target: i32) -> (r: i32)
    requires
        COORD_MIN <= target <= COORD_MAX,
        forall|k: int| 0 <= k < points@.len() ==> COORD_MIN <= #[trigger] points@[k] <= COORD_MAX,
    ensures
        (forall|k: int| 0 <= k < points@.len() ==> !(min <= #[trigger] points@[k] <= max)) ==> r == COORD_MAX,
        (exists|k: int| 0 <= k < points@.len() && min <= #[trigger] points@[k] <= max) ==> exists|j: int|
            nearest_at(points@, min as int, max as int, target as int, j) && r == target - points@[j],
{
    let mut best: Option<usize> = None;
    let mut dist: i32 = COORD_MAX;
    let mut i: usize = 0;
    while i < points.len()
        invariant
            i <= points@.len(),
            COORD_MIN <= target <= COORD_MAX,
            forall|k: int| 0 <= k < points@.len() ==> COORD_MIN <= #[trigger] points@[k] <= COORD_MAX,
            match best {
                None => forall|k: int| 0 <= k < i ==> !(min <= #[trigger] points@[k] <= max),
                Some(j) => j < i && min <= points@[j as int] <= max && dist == points@[j as int] - target
                    && (forall|k: int| 0 <= k < i && min <= #[trigger] points@[k] <= max ==> iabs(points@[j as int] - target) <= iabs(points@[k] - target))
                    && (forall|k: int| 0 <= k < j && min <= #[trigger] points@[k] <= max ==> iabs(points@[j as int] - target) < iabs(points@[k] - target)),
            },
            best is None ==> dist == COORD_MAX,
        decreases points@.len() - i,
    {
        let p = points[i];
        if p >= min && p <= max {
            let d = p - target;
            let ad = if d < 0 { -d } else { d };
            let cur = if dist < 0 { -dist } else { dist };
            let better = match best {
                None => true,
                Some(_) => ad < cur,
            };
            if better {
                best = Some(i);
                dist = d;
            }
        }
        i = i + 1;
    }
    match best {
        None => COORD_MAX,
        Some(j) => {
            proof {
                assert(nearest_at(points@, min as int, max as int, target as int, j as int));
            }
            -dist
        },
    }
}

/// The content offsets of a bounded scroll on one axis: the current content offset `cur`
/// (the negated scroll offset) moved by `d`, kept within `-room..=0` where `room` is the
/// total scrollable extent (clamped at 0); mirrored (`0..=room`) for right-to-left bases.
pub open spec fn bounded_offset(cur: int, d: int, room: int, rtl: bool) -> int {
    let r = if room > 0 { room } else { 0 };
    if rtl {
        let b = if cur + d > 0 { cur + d } else { 0 };
        if b > 0 && b > r { r } else { b }
    } else {
        let b = if cur + d < 0 { cur + d } else { 0 };
        if b < 0 && b < -r { -r } else { b }
    }
}

/// The delta of a bounded scroll on one axis (LVGL `lv_obj_scroll_by_bounded`): how far the
/// content really moves when asked to move by `d` (see [`bounded_offset`]).
pub fn bounded_delta(cur: i32, d: i32, room: i32, rtl: bool) -> (r: i32)
    requires
        COORD_MIN <= cur <= COORD_MAX,
        COORD_MIN <= d <= COORD_MAX,
        -2 * COORD_MAX <= room <= 2 * COORD_MAX,
    ensures
        r == bounded_offset(cur as int, d as int, room as int, rtl) - cur,
{
    let r = if room > 0 { room } else { 0 };
    let s = cur + d;
    let b = if rtl {
        let b0 = if s > 0 { s } else { 0 };
        if b0 > 0 && b0 > r { r } else { b0 }
    } else {
        let b0 = if s < 0 { s } else { 0 };
        if b0 < 0 && b0 < -r { -r } else { b0 }
    };
    b - cur
}

/// Whether `v` is within a bound far beyond any screen, where the `i32` arithmetic of
/// scrolling into view cannot overflow.
pub open spec fn in_view_range(v: int) -> bool {
    -0x100_0000 <= v <= 0x100_0000
}

/// The scroll along one axis that brings the span `a0..a1` into view inside the parent
/// span `p0..p1` minus its paddings `pad0` / `pad1` (LVGL `scroll_area_into_view`), with
/// `pending` the scroll already requested and `room0` / `room1` the content beyond the
/// start / end. Without snapping: 0 when the span is in view, else the shift that aligns
/// its start (or end) with the parent's, unless that would scroll past the content; with
/// snapping the span's start, end or center is aligned with the parent's.
pub open spec fn into_view_model(snap: ScrollSnap, p0: int, p1: int, pad0: int, pad1: int, a0: int, a1: int,
    pending: int, room0: int, room1: int) -> int {
    let d0 = p0 + pad0 - a0 - pending;
    let d1 = -(p1 - pad1 - a1 - pending);
    let s = if d0 >= 0 && d1 >= 0 {
        0
    } else if d0 > 0 {
        if room0 - d0 < 0 { 0 } else { d0 }
    } else if d1 > 0 {
        if room1 - d1 < 0 { 0 } else { -d1 }
    } else {
        0
    };
    match snap {
        ScrollSnap::Off => s,
        ScrollSnap::Start => p0 + pad0 - a0,
        ScrollSnap::End => p1 - pad1 - a1,
        ScrollSnap::Center => p0 + pad0 + tdiv((p1 - p0) - pad0 - pad1, 2) - (tdiv(a1 - a0, 2) + a0),
    }
}

/// The scroll along one axis that brings a span into view (see [`into_view_model`]).
pub fn into_view_delta(snap: ScrollSnap, p0: i32, p1: i32, pad0: i32, pad1: i32, a0: i32, a1: i32,
    pending: i32, room0: i32, room1: i32) -> (r: i32)
    requires
        in_view_range(p0 as int) && in_view_range(p1 as int) && in_view_range(pad0 as int) && in_view_range(pad1 as int),
        in_view_range(a0 as int) && in_view_range(a1 as int) && in_view_range(pending as int),
        in_view_range(room0 as int) && in_view_range(room1 as int),
    ensures
        r == into_view_model(snap, p0 as int, p1 as int, pad0 as int, pad1 as int, a0 as int, a1 as int,
            pending as int, room0 as int, room1 as int),
{
    let d0 = p0 + pad0 - a0 - pending;
    let d1 = -(p1 - pad1 - a1 - pending);
    let mut s: i32 = 0;
    if d0 >= 0 && d1 >= 0 {
        s = 0;
    } else if d0 > 0 {
        s = d0;
        if room0 - s < 0 {
            s = 0;
        }
    } else if d1 > 0 {
        s = -d1;
        if room1 + s < 0 {
            s = 0;
        }
    }
    match snap {
        ScrollSnap::Off => s,
        ScrollSnap::Start => s + (p0 + pad0 - (a0 + s)),
        ScrollSnap::End => s + (p1 - pad1 - (a1 + s)),
        ScrollSnap::Center => {
            let parent_len = (p1 - p0) - pad0 - pad1;
            s + (p0 + pad0 + parent_len / 2 - ((a1 - a0) / 2 + a0 + s))
        },
    }
}

/// A scroll `d` on one axis, dropped when the parent does not scroll that way: towards
/// negative values only with `neg`, towards positive ones only with `pos`.
pub open spec fn dir_clamped(d: int, neg: bool, pos: bool) -> int {
    if (d < 0 && !neg) || (d > 0 && !pos) { 0 } else { d }
}

/// Whether a rectangle's corners are in [`in_view_range`].
pub open spec fn rect_in_view_range(r: Rect) -> bool {
    in_view_range(r.x0 as int) && in_view_range(r.y0 as int) && in_view_range(r.x1 as int) && in_view_range(r.y1 as int)
}

/// The scroll of a parent that brings `area` of its child into view (LVGL
/// `scroll_area_into_view`): on each axis [`into_view_model`] with the parent's coordinates
/// `parent` minus its paddings `space` (left, top, right, bottom), the scroll `pending`
/// already requested and the parent's scroll room `room` (left, top, right, bottom); a
/// snapping axis aligns the child's coordinates `child` rather than `area`. A scroll in a
/// direction the parent's scroll directions `dir` leave out is dropped.
pub open spec fn into_view_scroll_model(area: Rect, child: Rect, parent: Rect, space: (i32, i32, i32, i32),
    pending: Point, room: (i32, i32, i32, i32), snap_x: ScrollSnap, snap_y: ScrollSnap, dir: Dir) -> (int, int) {
    let ay = if snap_y == ScrollSnap::Off { area } else { child };
    let ax = if snap_x == ScrollSnap::Off { area } else { child };
    let y = into_view_model(snap_y, parent.y0 as int, parent.y1 as int, space.1 as int, space.3 as int,
        ay.y0 as int, ay.y1 as int, pending.y as int, room.1 as int, room.3 as int);
    let x = into_view_model(snap_x, parent.x0 as int, parent.x1 as int, space.0 as int, space.2 as int,
        ax.x0 as int, ax.x1 as int, pending.x as int, room.0 as int, room.2 as int);
    (dir_clamped(x, dir.bits & DIR_LEFT != 0, dir.bits & DIR_RIGHT != 0),
        dir_clamped(y, dir.bits & DIR_TOP != 0, dir.bits & DIR_BOTTOM != 0))
}

/// The scroll of a parent that brings an area of its child into view (see
/// [`into_view_scroll_model`]).
pub fn into_view_scroll(area: Rect, child: Rect, parent: Rect, space: (i32, i32, i32, i32), pending: Point,
    room: (i32, i32, i32, i32), snap_x: ScrollSnap, snap_y: ScrollSnap, dir: Dir) -> (r: Point)
    requires
        rect_in_view_range(area) && rect_in_view_range(child) && rect_in_view_range(parent),
        in_view_range(space.0 as int) && in_view_range(space.1 as int) && in_view_range(space.2 as int)
            && in_view_range(space.3 as int),
        in_view_range(pending.x as int) && in_view_range(pending.y as int),
        in_view_range(room.0 as int) && in_view_range(room.1 as int) && in_view_range(room.2 as int)
            && in_view_range(room.3 as int),
    ensures
        r.x as int == into_view_scroll_model(area, child, parent, space, pending, room, snap_x, snap_y, dir).0,
        r.y as int == into_view_scroll_model(area, child, parent, space, pending, room, snap_x, snap_y, dir).1,
{
    let ay = if snap_y == ScrollSnap::Off { area } else { child };
    let ax = if snap_x == ScrollSnap::Off { area } else { child };
    let mut y = into_view_delta(snap_y, parent.y0, parent.y1, space.1, space.3, ay.y0, ay.y1, pending.y, room.1, room.3);
    let mut x = into_view_delta(snap_x, parent.x0, parent.x1, space.0, space.2, ax.x0, ax.x1, pending.x, room.0, room.2);
    if dir.bits & DIR_LEFT == 0 && x < 0 {
        x = 0;
    }
    if dir.bits & DIR_RIGHT == 0 && x > 0 {
        x = 0;
    }
    if dir.bits & DIR_TOP == 0 && y < 0 {
        y = 0;
    }
    if dir.bits & DIR_BOTTOM == 0 && y > 0 {
        y = 0;
    }
    Point { x, y }
}

/// A bounded scroll never leaves the content: the new offset `cur + r` of
/// [`bounded_delta`] (here `bounded_offset(cur, d, room, rtl)`) lies between the start (0)
/// and the end of the scrollable room (`-room`, or `+room` right-to-left; no room when it is
/// negative); it is the asked offset `cur + d` whenever that lies inside, and the nearer
/// end of the range otherwise.
pub proof fn lemma_bounded_stays_in_content(cur: int, d: int, room: int, rtl: bool)
    ensures
        ({
            let lim = if room > 0 { room } else { 0 };
            let b = bounded_offset(cur, d, room, rtl);
            &&& !rtl ==> -lim <= b <= 0
            &&& rtl ==> 0 <= b <= lim
            &&& !rtl && -lim <= cur + d <= 0 ==> b == cur + d
            &&& rtl && 0 <= cur + d <= lim ==> b == cur + d
            &&& !rtl && cur + d < -lim ==> b == -lim
            &&& rtl && cur + d > lim ==> b == lim
            &&& cur + d < 0 && !rtl ==> b <= 0
            &&& (!rtl && cur + d > 0) || (rtl && cur + d < 0) ==> b == 0
        }),
{
}

} // verus!
