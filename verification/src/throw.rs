//! Scrolling content with a pointer: the scroll of each movement while pressed
//! ([`drag_delta`]) and the throw after the pointer let go (LVGL
//! `lv_indev_scroll_throw_handler`), as a step function: the engine reports what it sees, the
//! step says what to do next. One read of the released pointer starts with
//! [`ThrowEvent::Read`] and ends with the step [`ScrollStep::Finish`]; in between the engine
//! answers each batch of steps with a [`ThrowEvent::SnapPoint`] (after `FindSnapX/Y`) or a
//! [`ThrowEvent::Seen`] (after the others).
use vstd::prelude::*;
use crate::event::{Dir, DIR_NONE, DIR_HOR, DIR_VER};
use crate::geom::Point;
use crate::pointer::PointerProc;
use crate::event::{DIR_LEFT, DIR_RIGHT, DIR_TOP, DIR_BOTTOM};
use crate::scroll::{tdiv, iabs, dir_clamped, COORD_MAX, COORD_MIN};
use crate::scroll_drag::{elastic_model, elastic_diff, limited, limit_diff, throw_total, throw_predict, lemma_keep_shrinks, ScrollLimits};

verus! {

/// How far the scrolled node's content can still scroll towards each edge (negative: it is
/// scrolled in beyond that edge).
#[derive(Clone, Copy, Debug, PartialEq, Eq, Structural)]
pub struct Edges {
    pub top: i32,
    pub bottom: i32,
    pub left: i32,
    pub right: i32,
}

/// What the engine reports to the throw.
#[derive(Clone, Copy, Debug, PartialEq, Eq, Structural)]
pub enum ThrowEvent {
    /// A read of the released pointer. `throw`: the input's `scroll_throw` percentage;
    /// `alive`: the scrolled node exists; `momentum` / `elastic`: it has `SCROLL_MOMENTUM` /
    /// `SCROLL_ELASTIC`; `snap_x` / `snap_y`: it snaps its children on that axis; `edges`: its
    /// scroll room.
    Read { throw: u8, alive: bool, momentum: bool, elastic: bool, snap_x: bool, snap_y: bool, edges: Edges },
    /// The snap point nearest to the predicted end of the throw (`COORD_MAX`: there is none).
    SnapPoint(i32),
    /// After the steps asked for: whether a reset of the input is pending, whether the
    /// scrolled node exists, and its scroll room now.
    Seen { reset: bool, alive: bool, edges: Edges },
}

/// Where a read of the throw stands.
#[derive(Clone, Copy, Debug, PartialEq, Eq, Structural)]
pub enum ThrowPhase {
    /// Waiting for the next read.
    Idle,
    /// Waiting for the snap point near the end `d` of a snapped throw on one axis.
    Snap { vertical: bool, d: i32, snap_x: bool, snap_y: bool },
    /// The content was moved for this read.
    Moved { snap_x: bool, snap_y: bool },
    /// The throw ended and the content is scrolled back vertically.
    BackY { snap_x: bool },
    /// The throw ended and the content is scrolled back horizontally.
    BackX,
    /// `ScrollEnd` was sent.
    Ended,
}

/// One thing the throw asks the engine to do.
#[derive(Clone, Copy, Debug, PartialEq, Eq, Structural)]
pub enum ScrollStep {
    /// Scroll the node by `(dx, dy)` at once, sending only the `Scroll` event.
    Raw(i32, i32),
    /// Look for the horizontal snap point nearest to `d` pixels of scrolling.
    FindSnapX(i32),
    /// Look for the vertical snap point nearest to `d` pixels of scrolling.
    FindSnapY(i32),
    /// Scroll the node by `(dx, dy)` with an animation.
    Animate(i32, i32),
    /// Send `ScrollEnd` to the node.
    SendScrollEnd,
    /// Forget the scrolled node (also in the engine's record of scrolls).
    ClearScroll,
    /// This read is handled; `true`: the processing of the input goes on.
    Finish(bool),
}

/// The pointer and the phase of its throw.
#[derive(Clone, Copy, Debug)]
pub struct ThrowState {
    pub ptr: PointerProc,
    pub phase: ThrowPhase,
}

impl ThrowState {
    /// The throw of `p` stopped by a new press: without speed, so that the next read ends
    /// it (LVGL zeroes the throw vector and runs the throw handler once).
    pub fn stopped(p: &PointerProc) -> (r: ThrowState)
        ensures
            r.ptr == (PointerProc { scroll_throw_vect: Point { x: 0, y: 0 }, ..*p }),
            r.phase == ThrowPhase::Idle,
    {
        ThrowState { ptr: PointerProc { scroll_throw_vect: Point { x: 0, y: 0 }, ..*p }, phase: ThrowPhase::Idle }
    }
}

/// A coordinate the engine can hold.
pub open spec fn coord(v: int) -> bool {
    COORD_MIN <= v <= COORD_MAX
}

/// A throw speed component whose slowed-down value stays within `i32`.
pub open spec fn speed_ok(v: int) -> bool {
    i32::MIN + 2 <= v <= i32::MAX - 2
}

/// Scroll room the engine can report.
pub open spec fn edges_ok(e: Edges) -> bool {
    coord(e.top as int) && coord(e.bottom as int) && coord(e.left as int) && coord(e.right as int)
}

impl ThrowState {
    /// The bounds the throw's arithmetic needs.
    pub open spec fn wf(self) -> bool {
        let p = self.ptr;
        &&& speed_ok(p.scroll_throw_vect.x as int) && speed_ok(p.scroll_throw_vect.y as int)
        &&& coord(p.scroll_sum.x as int) && coord(p.scroll_sum.y as int)
        &&& coord(p.scroll_area.x1 as int) && coord(p.scroll_area.x2 as int)
        &&& coord(p.scroll_area.y1 as int) && coord(p.scroll_area.y2 as int)
        &&& (self.phase matches ThrowPhase::Snap { d, .. } ==> -2 * COORD_MAX <= d <= 2 * COORD_MAX)
    }
}

/// What the engine may report: coordinates in range; and a snapped throw that keeps all
/// of its speed (`throw` 0) only when it has no speed on the thrown axis (the prediction of
/// its end would never finish).
pub open spec fn event_ok(s: ThrowState, ev: ThrowEvent) -> bool {
    match ev {
        ThrowEvent::Read { throw, edges, snap_x, snap_y, .. } => {
            &&& edges_ok(edges)
            &&& throw == 0 && s.ptr.scroll_dir.bits == DIR_VER && snap_y ==> s.ptr.scroll_throw_vect_ori.y == 0
            &&& throw == 0 && s.ptr.scroll_dir.bits == DIR_HOR && snap_x ==> s.ptr.scroll_throw_vect_ori.x == 0
        },
        ThrowEvent::SnapPoint(at) => coord(at as int),
        ThrowEvent::Seen { edges, .. } => edges_ok(edges),
    }
}

/// The percentage of its speed a throw keeps per read.
pub open spec fn keep_of(throw: u8) -> int {
    100 - (if throw < 100 { throw as int } else { 100 })
}

/// A speed `v` slowed down to `keep` percent (rounded towards zero).
pub open spec fn kept(v: int, keep: int) -> int {
    tdiv(v * keep, 100)
}

/// The pointer without a scrolled node.
pub open spec fn cleared(p: PointerProc) -> PointerProc {
    PointerProc { scroll_obj: None, scroll_dir: Dir { bits: DIR_NONE }, ..p }
}

/// After a throw ended, the scroll that brings content scrolled in beyond an edge back, on
/// one axis with room `start` / `end`: only when some room is positive, towards the edge
/// with negative room (the start edge first).
pub open spec fn back(start: int, end: int) -> Option<int> {
    if start > 0 || end > 0 {
        if start < 0 { Some(start) } else if end < 0 { Some(-end) } else { None }
    } else {
        None
    }
}

/// The end of a read once the content is back: stop on a pending reset; else `ScrollEnd`
/// to a node that still exists, or forget a node that is gone.
pub open spec fn end_model(s: ThrowState, reset: bool, alive: bool) -> (ThrowState, Seq<ScrollStep>) {
    if reset {
        (ThrowState { phase: ThrowPhase::Idle, ..s }, seq![ScrollStep::Finish(false)])
    } else if alive {
        (ThrowState { phase: ThrowPhase::Ended, ..s }, seq![ScrollStep::SendScrollEnd])
    } else {
        (ThrowState { ptr: cleared(s.ptr), phase: ThrowPhase::Idle }, seq![ScrollStep::ClearScroll, ScrollStep::Finish(true)])
    }
}

/// The horizontal scroll back of an ended throw (none when the node snaps horizontally or
/// is gone), then [`end_model`].
pub open spec fn back_x_model(s: ThrowState, snap_x: bool, reset: bool, alive: bool, e: Edges) -> (ThrowState, Seq<ScrollStep>) {
    match back(e.left as int, e.right as int) {
        Some(b) if !snap_x && alive => (ThrowState { phase: ThrowPhase::BackX, ..s }, seq![ScrollStep::Animate(b as i32, 0)]),
        _ => end_model(s, reset, alive),
    }
}

/// The vertical scroll back of an ended throw (none when the node snaps vertically), then
/// [`back_x_model`].
pub open spec fn back_y_model(s: ThrowState, snap_x: bool, snap_y: bool, e: Edges) -> (ThrowState, Seq<ScrollStep>) {
    match back(e.top as int, e.bottom as int) {
        Some(b) if !snap_y => (ThrowState { phase: ThrowPhase::BackY { snap_x }, ..s }, seq![ScrollStep::Animate(0, b as i32)]),
        _ => back_x_model(s, snap_x, false, true, e),
    }
}

/// A read of the released pointer. Nothing happens without a scroll; a scrolled node that
/// is gone is forgotten. Else the throw speed (zero without `SCROLL_MOMENTUM`) moves the
/// content on the scroll's axis, the other component dropping to zero: unsnapped, the speed
/// slows down to `keep` percent, passes the elastic edges ([`elastic_model`]) and scrolls
/// at once; snapped, the whole predicted throw ([`throw_total`] of the speed at release,
/// kept inside the scroll limits) is to be snapped and animated, and the speed drops to
/// zero.
pub open spec fn read_model(s: ThrowState, throw: u8, alive: bool, momentum: bool, elastic: bool, snap_x: bool, snap_y: bool, e: Edges) -> (ThrowState, Seq<ScrollStep>) {
    let p = s.ptr;
    if p.scroll_obj is None || p.scroll_dir.bits == DIR_NONE {
        (s, seq![ScrollStep::Finish(true)])
    } else if !alive {
        (ThrowState { ptr: cleared(p), phase: ThrowPhase::Idle }, seq![ScrollStep::ClearScroll, ScrollStep::Finish(true)])
    } else {
        let v = if momentum { p.scroll_throw_vect } else { Point { x: 0, y: 0 } };
        let keep = keep_of(throw);
        let moved = ThrowPhase::Moved { snap_x, snap_y };
        if p.scroll_dir.bits == DIR_VER {
            if !snap_y {
                let vy = elastic_model(kept(v.y as int, keep), e.top as int, e.bottom as int, elastic, false, false, false) as i32;
                (ThrowState { ptr: PointerProc { scroll_throw_vect: Point { x: 0, y: vy }, ..p }, phase: moved }, seq![ScrollStep::Raw(0, vy)])
            } else {
                let d = limited(p.scroll_sum.y as int, throw_total(0, p.scroll_throw_vect_ori.y as int, keep) as int, p.scroll_area.y1 as int, p.scroll_area.y2 as int) as i32;
                (ThrowState { ptr: PointerProc { scroll_throw_vect: Point { x: 0, y: 0 }, ..p }, phase: ThrowPhase::Snap { vertical: true, d, snap_x, snap_y } },
                    seq![ScrollStep::FindSnapY(d)])
            }
        } else if p.scroll_dir.bits == DIR_HOR {
            if !snap_x {
                let vx = elastic_model(kept(v.x as int, keep), e.left as int, e.right as int, elastic, false, false, false) as i32;
                (ThrowState { ptr: PointerProc { scroll_throw_vect: Point { x: vx, y: 0 }, ..p }, phase: moved }, seq![ScrollStep::Raw(vx, 0)])
            } else {
                let d = limited(p.scroll_sum.x as int, throw_total(0, p.scroll_throw_vect_ori.x as int, keep) as int, p.scroll_area.x1 as int, p.scroll_area.x2 as int) as i32;
                (ThrowState { ptr: PointerProc { scroll_throw_vect: Point { x: 0, y: 0 }, ..p }, phase: ThrowPhase::Snap { vertical: false, d, snap_x, snap_y } },
                    seq![ScrollStep::FindSnapX(d)])
            }
        } else {
            (ThrowState { ptr: PointerProc { scroll_throw_vect: v, ..p }, phase: moved }, Seq::empty())
        }
    }
}

/// What the throw does on `ev` (LVGL `lv_indev_scroll_throw_handler`, cut where the engine
/// acts). The snap point found ends a snapped throw with one animated scroll to it (to the
/// predicted end when there is none). After the moves of a read, a pending reset stops the
/// processing, a node that is gone is forgotten, and a throw with speed left waits for the
/// next read. A throw without speed has ended: the content is scrolled back from beyond
/// its edges ([`back`], not on a snapped axis), `ScrollEnd` is sent and the scroll is over.
/// An event the phase does not wait for changes nothing.
pub open spec fn throw_model(s: ThrowState, ev: ThrowEvent) -> (ThrowState, Seq<ScrollStep>) {
    match (s.phase, ev) {
        (ThrowPhase::Idle, ThrowEvent::Read { throw, alive, momentum, elastic, snap_x, snap_y, edges }) =>
            read_model(s, throw, alive, momentum, elastic, snap_x, snap_y, edges),
        (ThrowPhase::Snap { vertical, d, snap_x, snap_y }, ThrowEvent::SnapPoint(at)) => {
            let t = (d + (if at == COORD_MAX { 0 } else { at as int })) as i32;
            (ThrowState { phase: ThrowPhase::Moved { snap_x, snap_y }, ..s },
                seq![if vertical { ScrollStep::Animate(0, t) } else { ScrollStep::Animate(t, 0) }])
        },
        (ThrowPhase::Moved { snap_x, snap_y }, ThrowEvent::Seen { reset, alive, edges }) => {
            if reset {
                (ThrowState { phase: ThrowPhase::Idle, ..s }, seq![ScrollStep::Finish(false)])
            } else if !alive {
                (ThrowState { ptr: cleared(s.ptr), phase: ThrowPhase::Idle }, seq![ScrollStep::ClearScroll, ScrollStep::Finish(true)])
            } else if s.ptr.scroll_throw_vect != (Point { x: 0, y: 0 }) {
                (ThrowState { phase: ThrowPhase::Idle, ..s }, seq![ScrollStep::Finish(true)])
            } else {
                back_y_model(s, snap_x, snap_y, edges)
            }
        },
        (ThrowPhase::BackY { snap_x }, ThrowEvent::Seen { reset, alive, edges }) => back_x_model(s, snap_x, reset, alive, edges),
        (ThrowPhase::BackX, ThrowEvent::Seen { reset, alive, .. }) => end_model(s, reset, alive),
        (ThrowPhase::Ended, ThrowEvent::Seen { reset, .. }) => {
            if reset {
                (ThrowState { phase: ThrowPhase::Idle, ..s }, seq![ScrollStep::Finish(false)])
            } else {
                (ThrowState { ptr: cleared(s.ptr), phase: ThrowPhase::Idle }, seq![ScrollStep::ClearScroll, ScrollStep::Finish(true)])
            }
        },
        _ => (s, Seq::empty()),
    }
}

/// Slowing down keeps a speed's sign and does not grow it.
proof fn lemma_kept_bound(v: int, keep: int)
    requires
        0 <= keep <= 100,
    ensures
        v >= 0 ==> 0 <= kept(v, keep) <= v,
        v < 0 ==> v <= kept(v, keep) <= 0,
{
    if v >= 0 {
        assert(0 <= v * keep <= v * 100) by (nonlinear_arith) requires v >= 0, 0 <= keep <= 100;
    } else {
        assert(0 <= (-v) * keep <= (-v) * 100) by (nonlinear_arith) requires v < 0, 0 <= keep <= 100;
        assert(v * keep == -((-v) * keep)) by (nonlinear_arith);
    }
}

/// The unsnapped elastic edge does not grow a movement.
proof fn lemma_elastic_bound(d: int, start: int, end: int, elastic: bool)
    ensures
        iabs(elastic_model(d, start, end, elastic, false, false, false)) <= iabs(d),
{
}

/// A read never speeds a throw up, and while it keeps less than all of its speed
/// (`throw > 0`) a read of a throw in progress on a scrolled node that still exists takes
/// some of every nonzero speed component away: the throw dies out.
pub proof fn lemma_throw_slows(s: ThrowState, throw: u8, alive: bool, momentum: bool, elastic: bool, snap_x: bool,
    snap_y: bool, e: Edges)
    requires
        s.wf(),
        s.phase == ThrowPhase::Idle,
    ensures
        ({
            let v = s.ptr.scroll_throw_vect;
            let r = throw_model(s, ThrowEvent::Read { throw, alive, momentum, elastic, snap_x, snap_y, edges: e }).0.ptr.scroll_throw_vect;
            &&& iabs(r.x as int) <= iabs(v.x as int)
            &&& iabs(r.y as int) <= iabs(v.y as int)
            &&& (throw > 0 && alive && s.ptr.scroll_obj is Some
                && (s.ptr.scroll_dir.bits == DIR_VER || s.ptr.scroll_dir.bits == DIR_HOR)) ==> {
                &&& v.x != 0 ==> iabs(r.x as int) < iabs(v.x as int)
                &&& v.y != 0 ==> iabs(r.y as int) < iabs(v.y as int)
            }
        }),
{
    let v = s.ptr.scroll_throw_vect;
    let keep = keep_of(throw);
    if momentum {
        lemma_kept_bound(v.x as int, keep);
        lemma_kept_bound(v.y as int, keep);
        lemma_elastic_bound(kept(v.x as int, keep), e.left as int, e.right as int, elastic);
        lemma_elastic_bound(kept(v.y as int, keep), e.top as int, e.bottom as int, elastic);
        if throw > 0 {
            if v.x != 0 {
                lemma_keep_shrinks(v.x as int, keep);
            }
            if v.y != 0 {
                lemma_keep_shrinks(v.y as int, keep);
            }
        }
    }
}

fn back_of(start: i32, end: i32) -> (r: Option<i32>)
    requires
        coord(start as int),
        coord(end as int),
    ensures
        r matches Some(b) ==> back(start as int, end as int) == Some(b as int),
        r is None ==> back(start as int, end as int) is None,
{
    if start > 0 || end > 0 {
        if start < 0 {
            Some(start)
        } else if end < 0 {
            Some(-end)
        } else {
            None
        }
    } else {
        None
    }
}

fn end_step(s: &ThrowState, reset: bool, alive: bool) -> (r: (ThrowState, Vec<ScrollStep>))
    requires
        s.wf(),
    ensures
        r.0 == end_model(*s, reset, alive).0,
        r.1@ == end_model(*s, reset, alive).1,
        r.0.wf(),
{
    let mut steps: Vec<ScrollStep> = Vec::new();
    if reset {
        steps.push(ScrollStep::Finish(false));
        proof { assert(steps@ =~= end_model(*s, reset, alive).1); }
        (ThrowState { phase: ThrowPhase::Idle, ..*s }, steps)
    } else if alive {
        steps.push(ScrollStep::SendScrollEnd);
        proof { assert(steps@ =~= end_model(*s, reset, alive).1); }
        (ThrowState { phase: ThrowPhase::Ended, ..*s }, steps)
    } else {
        steps.push(ScrollStep::ClearScroll);
        steps.push(ScrollStep::Finish(true));
        proof { assert(steps@ =~= end_model(*s, reset, alive).1); }
        let p = PointerProc { scroll_obj: None, scroll_dir: Dir { bits: DIR_NONE }, ..s.ptr };
        (ThrowState { ptr: p, phase: ThrowPhase::Idle }, steps)
    }
}

fn back_x_step(s: &ThrowState, snap_x: bool, reset: bool, alive: bool, e: Edges) -> (r: (ThrowState, Vec<ScrollStep>))
    requires
        s.wf(),
        edges_ok(e),
    ensures
        r.0 == back_x_model(*s, snap_x, reset, alive, e).0,
        r.1@ == back_x_model(*s, snap_x, reset, alive, e).1,
        r.0.wf(),
{
    if !snap_x && alive {
        match back_of(e.left, e.right) {
            Some(b) => {
                let mut steps: Vec<ScrollStep> = Vec::new();
                steps.push(ScrollStep::Animate(b, 0));
                proof { assert(steps@ =~= back_x_model(*s, snap_x, reset, alive, e).1); }
                return (ThrowState { phase: ThrowPhase::BackX, ..*s }, steps);
            },
            None => {},
        }
    }
    end_step(s, reset, alive)
}

fn back_y_step(s: &ThrowState, snap_x: bool, snap_y: bool, e: Edges) -> (r: (ThrowState, Vec<ScrollStep>))
    requires
        s.wf(),
        edges_ok(e),
    ensures
        r.0 == back_y_model(*s, snap_x, snap_y, e).0,
        r.1@ == back_y_model(*s, snap_x, snap_y, e).1,
        r.0.wf(),
{
    if !snap_y {
        match back_of(e.top, e.bottom) {
            Some(b) => {
                let mut steps: Vec<ScrollStep> = Vec::new();
                steps.push(ScrollStep::Animate(0, b));
                proof { assert(steps@ =~= back_y_model(*s, snap_x, snap_y, e).1); }
                return (ThrowState { phase: ThrowPhase::BackY { snap_x }, ..*s }, steps);
            },
            None => {},
        }
    }
    back_x_step(s, snap_x, false, true, e)
}

/// A speed slowed down to `keep` percent.
fn slow_down(v: i32, keep: i32) -> (r: i32)
    requires
        0 <= keep <= 100,
    ensures
        r == kept(v as int, keep as int),
{
    assert(-0x1_0000_0000_0000 <= (v as int) * (keep as int) <= 0x1_0000_0000_0000) by (nonlinear_arith)
        requires 0 <= keep <= 100, i32::MIN <= v <= i32::MAX;
    let p: i64 = v as i64 * keep as i64;
    let q = p / 100;
    proof {
        assert(p as int == (v as int) * (keep as int));
        lemma_kept_bound(v as int, keep as int);
        assert(q == tdiv(p as int, 100));
    }
    q as i32
}

fn read_step(s: &ThrowState, throw: u8, alive: bool, momentum: bool, elastic: bool, snap_x: bool, snap_y: bool, e: Edges) -> (r: (ThrowState, Vec<ScrollStep>))
    requires
        s.wf(),
        event_ok(*s, ThrowEvent::Read { throw, alive, momentum, elastic, snap_x, snap_y, edges: e }),
    ensures
        r.0 == read_model(*s, throw, alive, momentum, elastic, snap_x, snap_y, e).0,
        r.1@ == read_model(*s, throw, alive, momentum, elastic, snap_x, snap_y, e).1,
        r.0.wf(),
{
    let ghost model = read_model(*s, throw, alive, momentum, elastic, snap_x, snap_y, e);
    let p = s.ptr;
    let mut steps: Vec<ScrollStep> = Vec::new();
    if p.scroll_obj.is_none() || p.scroll_dir.bits == DIR_NONE {
        steps.push(ScrollStep::Finish(true));
        proof { assert(steps@ =~= model.1); }
        return (*s, steps);
    }
    if !alive {
        steps.push(ScrollStep::ClearScroll);
        steps.push(ScrollStep::Finish(true));
        proof { assert(steps@ =~= model.1); }
        let c = PointerProc { scroll_obj: None, scroll_dir: Dir { bits: DIR_NONE }, ..p };
        return (ThrowState { ptr: c, phase: ThrowPhase::Idle }, steps);
    }
    let v = if momentum { p.scroll_throw_vect } else { Point { x: 0, y: 0 } };
    let keep: i32 = 100 - (if throw < 100 { throw as i32 } else { 100 });
    let moved = ThrowPhase::Moved { snap_x, snap_y };
    if p.scroll_dir.bits == DIR_VER {
        if !snap_y {
            let k = slow_down(v.y, keep);
            proof {
                lemma_kept_bound(v.y as int, keep as int);
                lemma_elastic_bound(k as int, e.top as int, e.bottom as int, elastic);
            }
            let vy = elastic_diff(k, e.top, e.bottom, elastic, false, false, false);
            steps.push(ScrollStep::Raw(0, vy));
            proof { assert(steps@ =~= model.1); }
            (ThrowState { ptr: PointerProc { scroll_throw_vect: Point { x: 0, y: vy }, ..p }, phase: moved }, steps)
        } else {
            let total = throw_predict(p.scroll_throw_vect_ori.y, throw);
            let d = limit_diff(p.scroll_sum.y, total, p.scroll_area.y1, p.scroll_area.y2);
            steps.push(ScrollStep::FindSnapY(d));
            proof { assert(steps@ =~= model.1); }
            (ThrowState { ptr: PointerProc { scroll_throw_vect: Point { x: 0, y: 0 }, ..p }, phase: ThrowPhase::Snap { vertical: true, d, snap_x, snap_y } }, steps)
        }
    } else if p.scroll_dir.bits == DIR_HOR {
        if !snap_x {
            let k = slow_down(v.x, keep);
            proof {
                lemma_kept_bound(v.x as int, keep as int);
                lemma_elastic_bound(k as int, e.left as int, e.right as int, elastic);
            }
            let vx = elastic_diff(k, e.left, e.right, elastic, false, false, false);
            steps.push(ScrollStep::Raw(vx, 0));
            proof { assert(steps@ =~= model.1); }
            (ThrowState { ptr: PointerProc { scroll_throw_vect: Point { x: vx, y: 0 }, ..p }, phase: moved }, steps)
        } else {
            let total = throw_predict(p.scroll_throw_vect_ori.x, throw);
            let d = limit_diff(p.scroll_sum.x, total, p.scroll_area.x1, p.scroll_area.x2);
            steps.push(ScrollStep::FindSnapX(d));
            proof { assert(steps@ =~= model.1); }
            (ThrowState { ptr: PointerProc { scroll_throw_vect: Point { x: 0, y: 0 }, ..p }, phase: ThrowPhase::Snap { vertical: false, d, snap_x, snap_y } }, steps)
        }
    } else {
        proof { assert(steps@ =~= model.1); }
        (ThrowState { ptr: PointerProc { scroll_throw_vect: v, ..p }, phase: moved }, steps)
    }
}

/// One step of the throw (see [`throw_model`]).
pub fn throw_step(s: &ThrowState, ev: ThrowEvent) -> (r: (ThrowState, Vec<ScrollStep>))
    requires
        s.wf(),
        event_ok(*s, ev),
    ensures
        r.0 == throw_model(*s, ev).0,
        r.1@ == throw_model(*s, ev).1,
        r.0.wf(),
{
    let ghost model = throw_model(*s, ev);
    let mut steps: Vec<ScrollStep> = Vec::new();
    match (s.phase, ev) {
        (ThrowPhase::Idle, ThrowEvent::Read { throw, alive, momentum, elastic, snap_x, snap_y, edges }) =>
            read_step(s, throw, alive, momentum, elastic, snap_x, snap_y, edges),
        (ThrowPhase::Snap { vertical, d, snap_x, snap_y }, ThrowEvent::SnapPoint(at)) => {
            let t: i32 = d + (if at == COORD_MAX { 0 } else { at });
            steps.push(if vertical { ScrollStep::Animate(0, t) } else { ScrollStep::Animate(t, 0) });
            proof { assert(steps@ =~= model.1); }
            (ThrowState { phase: ThrowPhase::Moved { snap_x, snap_y }, ..*s }, steps)
        },
        (ThrowPhase::Moved { snap_x, snap_y }, ThrowEvent::Seen { reset, alive, edges }) => {
            if reset {
                steps.push(ScrollStep::Finish(false));
                proof { assert(steps@ =~= model.1); }
                (ThrowState { phase: ThrowPhase::Idle, ..*s }, steps)
            } else if !alive {
                steps.push(ScrollStep::ClearScroll);
                steps.push(ScrollStep::Finish(true));
                proof { assert(steps@ =~= model.1); }
                let c = PointerProc { scroll_obj: None, scroll_dir: Dir { bits: DIR_NONE }, ..s.ptr };
                (ThrowState { ptr: c, phase: ThrowPhase::Idle }, steps)
            } else if s.ptr.scroll_throw_vect.x != 0 || s.ptr.scroll_throw_vect.y != 0 {
                steps.push(ScrollStep::Finish(true));
                proof { assert(steps@ =~= model.1); }
                (ThrowState { phase: ThrowPhase::Idle, ..*s }, steps)
            } else {
                back_y_step(s, snap_x, snap_y, edges)
            }
        },
        (ThrowPhase::BackY { snap_x }, ThrowEvent::Seen { reset, alive, edges }) => back_x_step(s, snap_x, reset, alive, edges),
        (ThrowPhase::BackX, ThrowEvent::Seen { reset, alive, .. }) => end_step(s, reset, alive),
        (ThrowPhase::Ended, ThrowEvent::Seen { reset, .. }) => {
            if reset {
                steps.push(ScrollStep::Finish(false));
                proof { assert(steps@ =~= model.1); }
                (ThrowState { phase: ThrowPhase::Idle, ..*s }, steps)
            } else {
                steps.push(ScrollStep::ClearScroll);
                steps.push(ScrollStep::Finish(true));
                proof { assert(steps@ =~= model.1); }
                let c = PointerProc { scroll_obj: None, scroll_dir: Dir { bits: DIR_NONE }, ..s.ptr };
                (ThrowState { ptr: c, phase: ThrowPhase::Idle }, steps)
            }
        },
        _ => {
            proof { assert(steps@ =~= model.1); }
            (*s, steps)
        },
    }
}

/// The scroll that one movement `vect` of a pressed pointer makes (LVGL
/// `lv_indev_scroll_handler`): on the locked axis (`horizontal`, else vertical) the movement
/// passes the node's edges (room `start` / `end`, [`elastic_model`] with the node's
/// `elastic` flag, whether it snaps on that axis and has more snap points before / after);
/// a direction the node's scroll directions `dir` leave out is dropped (content moving
/// right or down scrolls towards the left or top); then the scroll sum `sum` is kept inside
/// the limits `area`.
pub open spec fn drag_model(vect: Point, horizontal: bool, start: int, end: int, elastic: bool, snapped: bool,
    more_start: bool, more_end: bool, dir: Dir, sum: Point, area: ScrollLimits) -> (int, int) {
    let d = elastic_model(if horizontal { vect.x as int } else { vect.y as int }, start, end, elastic, snapped, more_start, more_end);
    let dx = if horizontal { dir_clamped(d, dir.bits & DIR_RIGHT != 0, dir.bits & DIR_LEFT != 0) } else { 0 };
    let dy = if horizontal { 0 } else { dir_clamped(d, dir.bits & DIR_BOTTOM != 0, dir.bits & DIR_TOP != 0) };
    (limited(sum.x as int, dx, area.x1 as int, area.x2 as int), limited(sum.y as int, dy, area.y1 as int, area.y2 as int))
}

/// The scroll of one movement of a pressed pointer (see [`drag_model`]).
pub fn drag_delta(vect: Point, horizontal: bool, start: i32, end: i32, elastic: bool, snapped: bool,
    more_start: bool, more_end: bool, dir: Dir, sum: Point, area: ScrollLimits) -> (r: Point)
    requires
        speed_ok(vect.x as int) && speed_ok(vect.y as int),
        coord(sum.x as int) && coord(sum.y as int),
        coord(area.x1 as int) && coord(area.x2 as int) && coord(area.y1 as int) && coord(area.y2 as int),
    ensures
        r.x as int == drag_model(vect, horizontal, start as int, end as int, elastic, snapped, more_start, more_end, dir, sum, area).0,
        r.y as int == drag_model(vect, horizontal, start as int, end as int, elastic, snapped, more_start, more_end, dir, sum, area).1,
{
    let d = elastic_diff(if horizontal { vect.x } else { vect.y }, start, end, elastic, snapped, more_start, more_end);
    let mut dx: i32 = 0;
    let mut dy: i32 = 0;
    if horizontal {
        dx = d;
        if dir.bits & DIR_LEFT == 0 && dx > 0 {
            dx = 0;
        }
        if dir.bits & DIR_RIGHT == 0 && dx < 0 {
            dx = 0;
        }
    } else {
        dy = d;
        if dir.bits & DIR_TOP == 0 && dy > 0 {
            dy = 0;
        }
        if dir.bits & DIR_BOTTOM == 0 && dy < 0 {
            dy = 0;
        }
    }
    let ly = limit_diff(sum.y, dy, area.y1, area.y2);
    let lx = limit_diff(sum.x, dx, area.x1, area.x2);
    Point { x: lx, y: ly }
}

/// A snapped throw ends on a snap point, on either axis: a read of a throw on a node that
/// snaps on the thrown axis asks for the snap point nearest to the predicted distance `d`
/// (on that axis), and the snap point found (its offset `at`; `COORD_MAX`: none) makes
/// the one animated scroll that follows move exactly `d + at` on the thrown axis (just `d`
/// without a snap point) and nothing on the other one.
pub proof fn lemma_snapped_throw_lands(s: ThrowState, throw: u8, momentum: bool, elastic: bool, snap_x: bool,
    snap_y: bool, e: Edges, at: i32)
    requires
        s.wf(),
        s.phase == ThrowPhase::Idle,
        s.ptr.scroll_obj is Some,
        (s.ptr.scroll_dir.bits == DIR_VER && snap_y) || (s.ptr.scroll_dir.bits == DIR_HOR && snap_x),
        coord(at as int),
    ensures
        ({
            let vertical = s.ptr.scroll_dir.bits == DIR_VER;
            let (s1, first) = throw_model(s, ThrowEvent::Read { throw, alive: true, momentum, elastic, snap_x, snap_y, edges: e });
            let then = throw_model(s1, ThrowEvent::SnapPoint(at)).1;
            let off = if at == COORD_MAX { 0 } else { at as int };
            &&& first.len() == 1 && then.len() == 1 && then[0] is Animate
            &&& vertical ==> first[0] is FindSnapY && then[0]->Animate_0 == 0 && then[0]->Animate_1 == first[0]->FindSnapY_0 + off
            &&& !vertical ==> first[0] is FindSnapX && then[0]->Animate_1 == 0 && then[0]->Animate_0 == first[0]->FindSnapX_0 + off
        }),
{
    let (s1, first) = throw_model(s, ThrowEvent::Read { throw, alive: true, momentum, elastic, snap_x, snap_y, edges: e });
    match s1.phase {
        ThrowPhase::Snap { d, .. } => {
            assert(-2 * COORD_MAX <= d <= 2 * COORD_MAX) by {
                assert(-2 * COORD_MAX <= limited(s.ptr.scroll_sum.y as int, throw_total(0, s.ptr.scroll_throw_vect_ori.y as int, keep_of(throw)) as int,
                    s.ptr.scroll_area.y1 as int, s.ptr.scroll_area.y2 as int) <= 2 * COORD_MAX);
                assert(-2 * COORD_MAX <= limited(s.ptr.scroll_sum.x as int, throw_total(0, s.ptr.scroll_throw_vect_ori.x as int, keep_of(throw)) as int,
                    s.ptr.scroll_area.x1 as int, s.ptr.scroll_area.x2 as int) <= 2 * COORD_MAX);
            }
        },
        _ => {},
    }
}

/// Each read keeps `100 - throw` percent of the throw speed (rounded towards zero): on a
/// node that neither snaps nor is elastic on the thrown axis and has room for the whole
/// movement towards the edge it moves to, the new speed is the old one times the kept
/// percentage, it scrolls the content by exactly that much, and the other component drops
/// to zero.
pub proof fn lemma_throw_decay(s: ThrowState, throw: u8, e: Edges)
    requires
        s.wf(),
        s.phase == ThrowPhase::Idle,
        s.ptr.scroll_obj is Some,
        s.ptr.scroll_dir.bits == DIR_VER || s.ptr.scroll_dir.bits == DIR_HOR,
    ensures
        ({
            let vertical = s.ptr.scroll_dir.bits == DIR_VER;
            let v = if vertical { s.ptr.scroll_throw_vect.y as int } else { s.ptr.scroll_throw_vect.x as int };
            let keep = 100 - (if throw < 100 { throw as int } else { 100 });
            let want = tdiv(v * keep, 100);
            let room = if vertical { if want > 0 { e.top as int } else { e.bottom as int } } else { if want > 0 { e.left as int } else { e.right as int } };
            let (s1, steps) = throw_model(s, ThrowEvent::Read { throw, alive: true, momentum: true, elastic: false,
                snap_x: false, snap_y: false, edges: e });
            room >= iabs(want) ==> {
                &&& vertical ==> s1.ptr.scroll_throw_vect == (Point { x: 0, y: want as i32 }) && steps == seq![ScrollStep::Raw(0, want as i32)]
                &&& !vertical ==> s1.ptr.scroll_throw_vect == (Point { x: want as i32, y: 0 }) && steps == seq![ScrollStep::Raw(want as i32, 0)]
            }
        }),
{
    lemma_kept_bound(s.ptr.scroll_throw_vect.x as int, 100 - (if throw < 100 { throw as int } else { 100 }));
    lemma_kept_bound(s.ptr.scroll_throw_vect.y as int, 100 - (if throw < 100 { throw as int } else { 100 }));
}

} // verus!
