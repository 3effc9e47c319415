//! Scrolling with a pointer (LVGL `lv_indev_scroll.c`): the throw vector, elastic edges,
//! `SCROLL_ONE` limits, the throw prediction, finding the node to scroll and swipe gestures.
use vstd::prelude::*;
use crate::event::{Dir, DIR_HOR, DIR_VER, DIR_LEFT, DIR_RIGHT, DIR_TOP, DIR_BOTTOM};
use crate::geom::Point;
use crate::input::Timing;
use crate::scroll::{tdiv, iabs, ScrollSnap, SCROLL_ELASTIC_FACTOR, COORD_MAX, COORD_MIN};
use crate::time::Instant;

verus! {

/// Number of pointer movements the throw vector is computed from (LVGL
/// `LV_INDEV_VECT_HIST_SIZE`).
pub const VECT_HIST_SIZE: usize = 8;

/// Movements this old (in ms) or older do not count for the throw.
pub const THROW_DECAY_MS: i64 = 99;

/// A movement component `x` decayed by its age `t` in ms (LVGL `indev_scroll_throw_decay`):
/// full at 0 ms, nothing from 99 ms on, linearly (in 1/512 steps) in between.
pub open spec fn decayed(x: int, t: int) -> int {
    if t <= 0 {
        x
    } else if t >= 99 {
        0
    } else {
        tdiv(x * (512 - (512 * t) / 99), 512)
    }
}

/// A movement component decayed by its age (see [`decayed`]).
pub fn throw_decay(x: i32, t_ms: i64) -> (r: i32)
    ensures
        r == decayed(x as int, t_ms as int),
{
    if t_ms <= 0 {
        return x;
    }
    if t_ms >= THROW_DECAY_MS {
        return 0;
    }
    let k: i64 = 512 - (512 * t_ms) / THROW_DECAY_MS;
    assert(0 < k <= 512);
    assert(-0x1_0000_0000_0000 <= (x as int) * (k as int) <= 0x1_0000_0000_0000) by (nonlinear_arith)
        requires 0 < k <= 512, i32::MIN <= x <= i32::MAX;
    let p: i64 = x as i64 * k;
    assert(-0x1_0000_0000_0000 <= p <= 0x1_0000_0000_0000) by (nonlinear_arith)
        requires p == x as i64 * k, 0 < k <= 512, i32::MIN <= x <= i32::MAX;
    let q = p / 512;
    assert(q == tdiv(p as int, 512));
    assert(i32::MIN <= q <= i32::MAX) by (nonlinear_arith)
        requires q == tdiv(p as int, 512), p == x as i64 * k, 0 < k <= 512, i32::MIN <= x <= i32::MAX;
    q as i32
}

/// LVGL `elastic_diff`: the part of a movement `diff` applied to a node with `start` / `end`
/// pixels of room before / after its content. Without `elastic` the content stops at the
/// edges; with it the movement is slowed down while the content is scrolled out (with
/// snapping, `snapped`: while there is no further snap point on one side, `more_start` /
/// `more_end`).
pub open spec fn elastic_model(diff: int, start: int, end: int, elastic: bool, snapped: bool, more_start: bool, more_end: bool) -> int {
    if diff == 0 {
        0
    } else if !elastic {
        let ended = if diff > 0 { start } else { end };
        if ended <= 0 { 0 } else if ended < iabs(diff) { if diff > 0 { ended } else { -ended } } else { diff }
    } else if !snapped {
        if end < 0 || start < 0 { tdiv(if diff < 0 { diff - 2 } else { diff + 2 }, 4) } else { diff }
    } else if !more_start || !more_end {
        tdiv(if diff < 0 { diff - 2 } else { diff + 2 }, 4)
    } else {
        diff
    }
}

/// The part of a movement applied to a scrolled node (see [`elastic_model`]).
pub fn elastic_diff(diff: i32, start: i32, end: i32, elastic: bool, snapped: bool, more_start: bool, more_end: bool) -> (r: i32)
    requires
        i32::MIN + 2 <= diff <= i32::MAX - 2,
    ensures
        r == elastic_model(diff as int, start as int, end as int, elastic, snapped, more_start, more_end),
{
    if diff == 0 {
        return 0;
    }
    if !elastic {
        let ended = if diff > 0 { start } else { end };
        let ad = if diff < 0 { -diff } else { diff };
        return if ended <= 0 {
            0
        } else if ended < ad {
            if diff > 0 { ended } else { -ended }
        } else {
            diff
        };
    }
    let slow = (if diff < 0 { diff - SCROLL_ELASTIC_FACTOR / 2 } else { diff + SCROLL_ELASTIC_FACTOR / 2 }) / SCROLL_ELASTIC_FACTOR;
    if !snapped {
        if end < 0 || start < 0 { slow } else { diff }
    } else if !more_start || !more_end {
        slow
    } else {
        diff
    }
}

/// Limits of the scroll sum while dragging (LVGL `pointer.scroll_area`): with `SCROLL_ONE`
/// the scroll stops at the neighbouring snap points.
#[derive(Clone, Copy, Debug, PartialEq, Eq, Structural)]
pub struct ScrollLimits {
    pub x1: i32,
    pub y1: i32,
    pub x2: i32,
    pub y2: i32,
}

impl ScrollLimits {
    /// No limits.
    pub fn none() -> (a: ScrollLimits)
        ensures
            a.x1 == COORD_MIN && a.y1 == COORD_MIN && a.x2 == COORD_MAX && a.y2 == COORD_MAX,
    {
        ScrollLimits { x1: COORD_MIN, y1: COORD_MIN, x2: COORD_MAX, y2: COORD_MAX }
    }

    /// The final adjustment of LVGL `init_scroll_limits`: a missing lower snap point
    /// (`COORD_MAX`) or a limit at 0 means no limit on that side.
    pub fn opened(self) -> (a: ScrollLimits)
        ensures
            a.x1 == (if self.x1 == COORD_MAX || self.x1 == 0 { COORD_MIN } else { self.x1 }),
            a.y1 == (if self.y1 == COORD_MAX || self.y1 == 0 { COORD_MIN } else { self.y1 }),
            a.x2 == (if self.x2 == 0 { COORD_MAX } else { self.x2 }),
            a.y2 == (if self.y2 == 0 { COORD_MAX } else { self.y2 }),
    {
        let mut a = self;
        if a.x1 == COORD_MAX {
            a.x1 = COORD_MIN;
        }
        if a.y1 == COORD_MAX {
            a.y1 = COORD_MIN;
        }
        if a.x1 == 0 {
            a.x1 = COORD_MIN;
        }
        if a.x2 == 0 {
            a.x2 = COORD_MAX;
        }
        if a.y1 == 0 {
            a.y1 = COORD_MIN;
        }
        if a.y2 == 0 {
            a.y2 = COORD_MAX;
        }
        a
    }
}

/// The snap point searches that bound a `SCROLL_ONE` drag on one axis (LVGL
/// `init_scroll_limits`), for a node spanning `c0..c1` that snaps with `snap`: the range
/// whose nearest snap point is the lower limit, and the one whose nearest snap point is the
/// upper limit; `None` without snapping. The start of a vertical axis excludes the node's
/// own start, that of a horizontal axis includes it.
pub open spec fn one_windows_model(snap: ScrollSnap, c0: int, c1: int, vertical: bool) -> Option<((int, int), (int, int))> {
    match snap {
        ScrollSnap::Off => None,
        ScrollSnap::Start => if vertical {
            Some(((c0 + 1, COORD_MAX as int), (COORD_MIN as int, c0 - 1)))
        } else {
            Some(((c0, COORD_MAX as int), (COORD_MIN as int, c0)))
        },
        ScrollSnap::End => Some(((c1 - 1, COORD_MAX as int), (COORD_MIN as int, c1 - 1))),
        ScrollSnap::Center => {
            let mid = c0 + tdiv(c1 - c0, 2);
            Some(((mid + 1, COORD_MAX as int), (COORD_MIN as int, mid - 1)))
        },
    }
}

/// The snap point searches that bound a `SCROLL_ONE` drag on one axis (see
/// [`one_windows_model`]).
pub fn one_windows(snap: ScrollSnap, c0: i32, c1: i32, vertical: bool) -> (r: Option<((i32, i32), (i32, i32))>)
    requires
        COORD_MIN <= c0 <= COORD_MAX,
        COORD_MIN <= c1 <= COORD_MAX,
    ensures
        match one_windows_model(snap, c0 as int, c1 as int, vertical) {
            Some(((a, b), (c, d))) => r == Some(((a as i32, b as i32), (c as i32, d as i32))),
            None => r is None,
        },
{
    match snap {
        ScrollSnap::Off => None,
        ScrollSnap::Start => if vertical {
            Some(((c0 + 1, COORD_MAX), (COORD_MIN, c0 - 1)))
        } else {
            Some(((c0, COORD_MAX), (COORD_MIN, c0)))
        },
        ScrollSnap::End => Some(((c1 - 1, COORD_MAX), (COORD_MIN, c1 - 1))),
        ScrollSnap::Center => {
            let mid = c0 + (c1 - c0) / 2;
            Some(((mid + 1, COORD_MAX), (COORD_MIN, mid - 1)))
        },
    }
}

/// `d` changed so that `sum + d` lies in `lo..=hi` when it fell outside (the lower limit is
/// applied first, then the upper one).
pub open spec fn limited(sum: int, d: int, lo: int, hi: int) -> int {
    let d1 = if sum + d < lo { lo - sum } else { d };
    if sum + d1 > hi { hi - sum } else { d1 }
}

/// LVGL `scroll_limit_diff` on one axis: keeps `sum + d` inside the limits `lo..=hi`.
pub fn limit_diff(sum: i32, d: i32, lo: i32, hi: i32) -> (r: i32)
    requires
        COORD_MIN <= sum <= COORD_MAX,
        COORD_MIN <= lo <= COORD_MAX,
        COORD_MIN <= hi <= COORD_MAX,
    ensures
        r == limited(sum as int, d as int, lo as int, hi as int),
{
    let mut d1: i64 = d as i64;
    if sum as i64 + d1 < lo as i64 {
        d1 = lo as i64 - sum as i64;
    }
    if sum as i64 + d1 > hi as i64 {
        d1 = hi as i64 - sum as i64;
    }
    d1 as i32
}

/// The total of a throw starting with speed `v` that keeps `keep` percent of its speed per
/// read, added up with saturation onto `acc`.
pub open spec fn throw_total(acc: i32, v: int, keep: int) -> i32
    decreases iabs(v),
{
    if v == 0 || !(0 <= keep < 100) {
        acc
    } else {
        let s = acc + v;
        let acc1: i32 = if s > i32::MAX { i32::MAX } else if s < i32::MIN { i32::MIN } else { s as i32 };
        proof {
            lemma_keep_shrinks(v, keep);
        }
        throw_total(acc1, tdiv(v * keep, 100), keep)
    }
}

/// A speed that keeps less than all of itself shrinks strictly.
pub proof fn lemma_keep_shrinks(v: int, keep: int)
    requires
        v != 0,
        0 <= keep < 100,
    ensures
        iabs(tdiv(v * keep, 100)) < iabs(v),
{
    if v > 0 {
        assert(0 <= v * keep < v * 100) by (nonlinear_arith) requires v > 0, 0 <= keep < 100;
    } else {
        assert(0 <= (-v) * keep < (-v) * 100) by (nonlinear_arith) requires v < 0, 0 <= keep < 100;
        assert(v * keep == -((-v) * keep)) by (nonlinear_arith);
    }
}

/// LVGL `lv_indev_scroll_throw_predict` on one axis: the distance a throw with speed `v`
/// travels when it loses `throw` percent (at most 100) of its speed per read.
pub fn throw_predict(v: i32, throw: u8) -> (r: i32)
    requires
        throw > 0 || v == 0,
    ensures
        r == throw_total(0, v as int, 100 - (if throw < 100 { throw as int } else { 100 })),
{
    let keep: i32 = 100 - (if throw < 100 { throw as i32 } else { 100 });
    let ghost k = keep as int;
    let mut sum: i32 = 0;
    let mut cur: i32 = v;
    while cur != 0
        invariant
            0 <= keep < 100 || cur == 0,
            0 <= keep <= 100,
            keep == k,
            throw_total(sum, cur as int, k) == throw_total(0, v as int, k),
        decreases iabs(cur as int),
    {
        let s: i64 = sum as i64 + cur as i64;
        sum = if s > i32::MAX as i64 { i32::MAX } else if s < i32::MIN as i64 { i32::MIN } else { s as i32 };
        assert(-0x1_0000_0000_0000 <= (cur as int) * (keep as int) <= 0x1_0000_0000_0000) by (nonlinear_arith)
            requires 0 <= keep <= 100, i32::MIN <= cur <= i32::MAX;
        let p: i64 = cur as i64 * keep as i64;
        assert(-0x1_0000_0000_0000 <= p <= 0x1_0000_0000_0000) by (nonlinear_arith)
            requires p == cur as i64 * keep as i64, 0 <= keep <= 100, i32::MIN <= cur <= i32::MAX;
        let next = p / 100;
        proof {
            lemma_keep_shrinks(cur as int, k);
            assert(next == tdiv(cur * keep, 100));
        }
        cur = next as i32;
    }
    sum
}

/// What a node on the path from the pressed node to its root offers for scrolling
/// (LVGL `lv_indev_find_scroll_obj`).
#[derive(Clone, Copy, Debug, PartialEq, Eq, Structural)]
pub struct ScrollCandidate {
    /// The node has `SCROLLABLE`.
    pub scrollable: bool,
    /// The node has `SCROLL_CHAIN_HOR` / `SCROLL_CHAIN_VER`.
    pub chain_hor: bool,
    pub chain_ver: bool,
    /// The directions it may be scrolled in.
    pub dir: Dir,
    /// Room to scroll at each side (for snapping nodes: 1 when there are more snap points on
    /// that side, else -1).
    pub left: i32,
    pub right: i32,
    pub top: i32,
    pub bottom: i32,
}

/// The search of LVGL `lv_indev_find_scroll_obj` from position `i` of `path` on, with the
/// movement `sum` since the press and the scroll limit `lim`; `cand` is the candidate found
/// so far. A scrollable node that can scroll in the drag direction (the dominant axis of
/// `sum`, once it reaches `lim`) ends the search; one that merely can scroll on that axis
/// becomes the candidate; a node without the scroll chain flag of the axis ends the search.
/// The result is the last candidate: its position and locked direction.
pub open spec fn scroll_search(path: Seq<ScrollCandidate>, i: int, sum: Point, lim: int, cand: Option<(int, u8)>) -> Option<(int, u8)>
    decreases path.len() - i,
{
    if i < 0 || i >= path.len() {
        cand
    } else {
        let o = path[i];
        let hor = iabs(sum.x as int) > iabs(sum.y as int);
        let ver = !hor;
        if !o.scrollable {
            if (!o.chain_hor && hor) || (!o.chain_ver && ver) {
                cand
            } else {
                scroll_search(path, i + 1, sum, lim, cand)
            }
        } else {
            let up = ver && o.dir.bits & DIR_TOP == DIR_TOP;
            let down = ver && o.dir.bits & DIR_BOTTOM == DIR_BOTTOM;
            let left = hor && o.dir.bits & DIR_LEFT == DIR_LEFT;
            let right = hor && o.dir.bits & DIR_RIGHT == DIR_RIGHT;
            let c1 = if (o.top > 0 || o.bottom > 0) && ((up && sum.y >= lim) || (down && sum.y <= -lim)) {
                Some((i, DIR_VER))
            } else {
                cand
            };
            let c2 = if (o.left > 0 || o.right > 0) && ((left && sum.x >= lim) || (right && sum.x <= -lim)) {
                Some((i, DIR_HOR))
            } else {
                c1
            };
            if (left && o.left > 0 && sum.x >= lim) || (right && o.right > 0 && sum.x <= -lim)
                || (up && o.top > 0 && sum.y >= lim) || (down && o.bottom > 0 && sum.y <= -lim) {
                c2
            } else if (!o.chain_hor && hor) || (!o.chain_ver && ver) {
                c2
            } else {
                scroll_search(path, i + 1, sum, lim, c2)
            }
        }
    }
}

/// The node to scroll among `path` (the pressed node first, then its ancestors) and the
/// locked direction (see [`scroll_search`]).
pub fn find_scroll_target(path: &Vec<ScrollCandidate>, sum: Point, lim: i32) -> (r: Option<(usize, Dir)>)
    requires
        sum.wf(),
    ensures
        match scroll_search(path@, 0, sum, lim as int, None) {
            Some((i, d)) => r == Some((i as usize, Dir { bits: d })),
            None => r is None,
        },
{
    let hor = (if sum.x < 0 { -sum.x } else { sum.x }) > (if sum.y < 0 { -sum.y } else { sum.y });
    let ver = !hor;
    let mut cand: Option<(usize, u8)> = None;
    let mut i: usize = 0;
    let mut done = false;
    while i < path.len() && !done
        invariant
            i <= path@.len(),
            sum.wf(),
            hor == (iabs(sum.x as int) > iabs(sum.y as int)),
            ver == !hor,
            !done ==> scroll_search(path@, 0, sum, lim as int, None) == scroll_search(path@, i as int, sum, lim as int,
                match cand { Some((j, d)) => Some((j as int, d)), None => None }),
            done ==> scroll_search(path@, 0, sum, lim as int, None) == (match cand { Some((j, d)) => Some((j as int, d)), None => None }),
        decreases path@.len() - i + (if done { 0int } else { 1 }),
    {
        let o = path[i];
        if !o.scrollable {
            if (!o.chain_hor && hor) || (!o.chain_ver && ver) {
                done = true;
            } else {
                i = i + 1;
            }
        } else {
            let up = ver && o.dir.bits & DIR_TOP == DIR_TOP;
            let down = ver && o.dir.bits & DIR_BOTTOM == DIR_BOTTOM;
            let left = hor && o.dir.bits & DIR_LEFT == DIR_LEFT;
            let right = hor && o.dir.bits & DIR_RIGHT == DIR_RIGHT;
            if (o.top > 0 || o.bottom > 0) && ((up && sum.y >= lim) || (down && sum.y as i64 <= -(lim as i64))) {
                cand = Some((i, DIR_VER));
            }
            if (o.left > 0 || o.right > 0) && ((left && sum.x >= lim) || (right && sum.x as i64 <= -(lim as i64))) {
                cand = Some((i, DIR_HOR));
            }
            if (left && o.left > 0 && sum.x >= lim) || (right && o.right > 0 && sum.x as i64 <= -(lim as i64))
                || (up && o.top > 0 && sum.y >= lim) || (down && o.bottom > 0 && sum.y as i64 <= -(lim as i64)) {
                done = true;
            } else if (!o.chain_hor && hor) || (!o.chain_ver && ver) {
                done = true;
            } else {
                i = i + 1;
            }
        }
    }
    match cand {
        Some((j, d)) => Some((j, Dir { bits: d })),
        None => None,
    }
}

/// The gesture accumulation of one read (LVGL `indev_gesture`): a slow read (both
/// components of `vect` under the minimum velocity) restarts the sum; the movement is added;
/// once a component of the sum exceeds the limit, the direction of the dominant component.
pub open spec fn gesture_model(sum: Point, vect: Point, t: Timing) -> (Point, Option<u8>) {
    let base = if iabs(vect.x as int) < t.gesture_min_velocity && iabs(vect.y as int) < t.gesture_min_velocity {
        Point { x: 0, y: 0 }
    } else {
        sum
    };
    let s = Point { x: (base.x + vect.x) as i32, y: (base.y + vect.y) as i32 };
    if iabs(s.x as int) <= t.gesture_limit && iabs(s.y as int) <= t.gesture_limit {
        (s, None)
    } else if iabs(s.x as int) > iabs(s.y as int) {
        (s, Some(if s.x > 0 { DIR_RIGHT } else { DIR_LEFT }))
    } else {
        (s, Some(if s.y > 0 { DIR_BOTTOM } else { DIR_TOP }))
    }
}

/// One read of the gesture detection (see [`gesture_model`]); the sum and the movement stay
/// in the coordinate range.
pub fn gesture_step(sum: Point, vect: Point, t: &Timing) -> (r: (Point, Option<Dir>))
    requires
        sum.wf(),
        vect.wf(),
    ensures
        r.0 == gesture_model(sum, vect, *t).0,
        r.1 == (match gesture_model(sum, vect, *t).1 { Some(d) => Some(Dir { bits: d }), None => None::<Dir> }),
{
    let ax = if vect.x < 0 { -vect.x } else { vect.x };
    let ay = if vect.y < 0 { -vect.y } else { vect.y };
    let base = if ax < t.gesture_min_velocity && ay < t.gesture_min_velocity { Point { x: 0, y: 0 } } else { sum };
    let s = Point { x: base.x + vect.x, y: base.y + vect.y };
    let sx = if s.x < 0 { -s.x } else { s.x };
    let sy = if s.y < 0 { -s.y } else { s.y };
    if sx <= t.gesture_limit && sy <= t.gesture_limit {
        (s, None)
    } else if sx > sy {
        (s, Some(Dir { bits: if s.x > 0 { DIR_RIGHT } else { DIR_LEFT } }))
    } else {
        (s, Some(Dir { bits: if s.y > 0 { DIR_BOTTOM } else { DIR_TOP } }))
    }
}

/// What an edge does to a movement `diff` (see [`elastic_model`]): the movement keeps its
/// direction and never grows; without `elastic` the content stops at the edge it moves
/// towards (never more than the room `start` / `end` left on that side, nothing when there
/// is none) and moves freely while there is room; with `elastic` it moves freely while
/// neither edge is passed and a quarter (rounded) as fast beyond one.
pub proof fn lemma_edges(diff: int, start: int, end: int, elastic: bool, snapped: bool, more_start: bool, more_end: bool)
    ensures
        ({
            let r = elastic_model(diff, start, end, elastic, snapped, more_start, more_end);
            let room = if diff > 0 { start } else { end };
            &&& diff >= 0 ==> 0 <= r <= diff
            &&& diff <= 0 ==> diff <= r <= 0
            &&& !elastic && diff != 0 ==> iabs(r) <= (if room > 0 { room } else { 0 })
            &&& !elastic && diff != 0 && room >= iabs(diff) ==> r == diff
            &&& elastic && !snapped && start >= 0 && end >= 0 ==> r == diff
            &&& elastic && !snapped && (start < 0 || end < 0) ==> r == tdiv(diff + (if diff < 0 { -2int } else { 2int }), 4) || diff == 0
        }),
{
}

} // verus!
