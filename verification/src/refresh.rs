//! Dirty-area helpers of the refresh: rounding to the display alignment, splitting into
//! buffer-sized horizontal chunks, and which nodes clip their children.
use vstd::prelude::*;
use crate::flags::{ObjFlags, OVERFLOW_VISIBLE, LAYOUT_PASSTHROUGH};
use crate::geom::{Rect, floor_to, ceil_to, imax, imin};

verus! {

/// Expands `r` to multiples of `align` (x0/y0 down, x1/y1 up; `align ≤ 1` leaves it
/// unchanged) and clips it to `bounds` (the empty rectangle at the origin when nothing is
/// left).
pub fn round_area(r: Rect, align: u8, bounds: Rect) -> (out: Rect)
    requires
        r.wf(),
    ensures
        ({
            let ro = if align <= 1 { r } else {
                Rect {
                    x0: floor_to(r.x0 as int, align as int) as i32,
                    y0: floor_to(r.y0 as int, align as int) as i32,
                    x1: ceil_to(r.x1 as int, align as int) as i32,
                    y1: ceil_to(r.y1 as int, align as int) as i32,
                }
            };
            let x0 = imax(ro.x0 as int, bounds.x0 as int);
            let y0 = imax(ro.y0 as int, bounds.y0 as int);
            let x1 = imin(ro.x1 as int, bounds.x1 as int);
            let y1 = imin(ro.y1 as int, bounds.y1 as int);
            if x0 < x1 && y0 < y1 {
                out == (Rect { x0: x0 as i32, y0: y0 as i32, x1: x1 as i32, y1: y1 as i32 })
            } else {
                out == (Rect { x0: 0, y0: 0, x1: 0, y1: 0 })
            }
        }),
{
    let ro = r.round_out(align);
    match ro.intersection(&bounds) {
        Some(i) => i,
        None => Rect::zero(),
    }
}

/// The rows of one chunk: `max_rows` rounded down to a multiple of `align` (at least
/// `align`, at least 1).
pub open spec fn rows_of(max_rows: int, align: int) -> int {
    let a = if align > 1 { align } else { 1 };
    let m = (if max_rows >= 0 { max_rows / a } else { -((-max_rows) / a) }) * a;
    let m1 = if m > a { m } else { a };
    if m1 > 1 { m1 } else { 1 }
}

/// The rows of one chunk (see [`rows_of`]).
pub fn chunk_rows(max_rows: i32, align: u8) -> (r: i32)
    ensures
        r == rows_of(max_rows as int, align as int),
        r >= 1,
{
    let a: i32 = if align > 1 { align as i32 } else { 1 };
    let q = max_rows / a;
    assert(q * a <= i32::MAX && q * a >= i32::MIN) by (nonlinear_arith)
        requires 1 <= a <= 255, i32::MIN <= max_rows <= i32::MAX,
            q == (if max_rows >= 0 { max_rows as int / a as int } else { -((-(max_rows as int)) / a as int) });
    let m = q * a;
    let m1 = if m > a { m } else { a };
    if m1 > 1 { m1 } else { 1 }
}

/// The chunk of `area` starting at row `y`: full width, `chunk_rows` tall, cut at the
/// bottom of `area`.
pub fn chunk_at(area: Rect, y: i32, max_rows: i32, align: u8) -> (r: Rect)
    ensures
        r.x0 == area.x0 && r.x1 == area.x1 && r.y0 == y,
        r.y1 == imin(y + rows_of(max_rows as int, align as int), area.y1 as int),
{
    let rows = chunk_rows(max_rows, align);
    let y1 = if y as i64 + rows as i64 <= area.y1 as i64 { y + rows } else { area.y1 };
    Rect { x0: area.x0, y0: y, x1: area.x1, y1 }
}

/// Horizontal strips of `area`, each `area`'s width and `chunk_rows` rows tall (the last
/// one cut at the bottom), top to bottom.
pub fn chunks(area: Rect, max_rows: i32, align: u8) -> (r: Vec<Rect>)
    requires
        area.wf(),
        crate::geom::coord_ok(max_rows as int),
    ensures
        area.y0 < area.y1 ==> r@.len() > 0 && r@[0].y0 == area.y0 && r@.last().y1 == area.y1,
        area.y0 >= area.y1 ==> r@.len() == 0,
        forall|k: int| 0 <= k < r@.len() ==> (#[trigger] r@[k]).x0 == area.x0 && r@[k].x1 == area.x1
            && r@[k].y0 < r@[k].y1 && r@[k].y1 == imin(r@[k].y0 + rows_of(max_rows as int, align as int), area.y1 as int),
        forall|k: int| 0 <= k < r@.len() - 1 ==> #[trigger] r@[k].y1 == r@[k + 1].y0,
        area.y0 < area.y1 ==> tiles(r@, area),
{
    let rows = chunk_rows(max_rows, align);
    let mut out: Vec<Rect> = Vec::new();
    let mut y = area.y0;
    while y < area.y1
        invariant
            area.wf(),
            crate::geom::coord_ok(max_rows as int),
            rows == rows_of(max_rows as int, align as int),
            rows >= 1,
            area.y0 <= y <= area.y1 || (area.y0 >= area.y1 && y == area.y0),
            out@.len() == 0 <==> y == area.y0,
            out@.len() > 0 ==> out@[0].y0 == area.y0 && out@.last().y1 == y,
            forall|k: int| 0 <= k < out@.len() ==> (#[trigger] out@[k]).x0 == area.x0 && out@[k].x1 == area.x1
                && out@[k].y0 < out@[k].y1 && out@[k].y1 == imin(out@[k].y0 + rows_of(max_rows as int, align as int), area.y1 as int),
            forall|k: int| 0 <= k < out@.len() - 1 ==> #[trigger] out@[k].y1 == out@[k + 1].y0,
        decreases area.y1 - y,
    {
        let c = chunk_at(area, y, max_rows, align);
        out.push(c);
        y = c.y1;
    }
    out
}

/// Whether the strips `r` tile `area` from top to bottom: full width, each non-empty, each
/// starting where the one before ends, the first at the top and the last at the bottom.
pub open spec fn tiles(r: Seq<Rect>, area: Rect) -> bool {
    &&& r.len() > 0
    &&& r[0].y0 == area.y0
    &&& r.last().y1 == area.y1
    &&& forall|k: int| 0 <= k < r.len() ==> (#[trigger] r[k]).x0 == area.x0 && r[k].x1 == area.x1 && r[k].y0 < r[k].y1
    &&& forall|k: int| 0 <= k < r.len() - 1 ==> #[trigger] r[k].y1 == r[k + 1].y0
}

proof fn lemma_strips_ordered(r: Seq<Rect>, area: Rect, j: int, k: int)
    requires
        tiles(r, area),
        0 <= j < k < r.len(),
    ensures
        r[j].y1 <= r[k].y0,
    decreases k - j,
{
    if j + 1 < k {
        lemma_strips_ordered(r, area, j + 1, k);
        assert(r[j + 1].y0 < r[j + 1].y1);
    }
}

proof fn lemma_strip_of(r: Seq<Rect>, area: Rect, y: int, k: int) -> (i: int)
    requires
        tiles(r, area),
        0 <= k < r.len(),
        r[k].y0 <= y < area.y1,
    ensures
        k <= i < r.len(),
        r[i].y0 <= y < r[i].y1,
    decreases r.len() - k,
{
    if y < r[k].y1 {
        k
    } else {
        if k + 1 >= r.len() {
            assert(r[k].y1 == area.y1);
        }
        lemma_strip_of(r, area, y, k + 1)
    }
}

/// Splitting an area into chunks renders every pixel exactly once: each pixel of `area`
/// lies in one strip of a tiling (as [`chunks`] returns it), and in no other.
pub proof fn lemma_chunks_cover(r: Seq<Rect>, area: Rect, x: int, y: int)
    requires
        tiles(r, area),
        area.has(x, y),
    ensures
        exists|k: int| 0 <= k < r.len() && (#[trigger] r[k]).has(x, y),
        forall|j: int, k: int| 0 <= j < r.len() && 0 <= k < r.len() && (#[trigger] r[j]).has(x, y) && (#[trigger] r[k]).has(x, y) ==> j == k,
{
    let i = lemma_strip_of(r, area, y, 0);
    assert(r[i].has(x, y));
    assert forall|j: int, k: int| 0 <= j < r.len() && 0 <= k < r.len() && (#[trigger] r[j]).has(x, y) && (#[trigger] r[k]).has(x, y) implies j == k by {
        if j < k {
            lemma_strips_ordered(r, area, j, k);
        } else if k < j {
            lemma_strips_ordered(r, area, k, j);
        }
    }
}

/// Whether a node with `flags` clips its children to its coordinates (not with
/// `OVERFLOW_VISIBLE`, and never for `LAYOUT_PASSTHROUGH` wrappers).
pub fn clips_children(flags: ObjFlags) -> (b: bool)
    ensures
        b == (flags.bits & (OVERFLOW_VISIBLE | LAYOUT_PASSTHROUGH) == 0),
{
    !flags.intersects(OVERFLOW_VISIBLE | LAYOUT_PASSTHROUGH)
}

/// Why an area was invalidated (kept in the invalidation log).
#[derive(Clone, Copy, Debug, PartialEq, Eq)]
pub enum InvalidateReason {
    /// A style, local property or state changed.
    StyleChange,
    /// The node moved or was resized (layout or `place`).
    Layout,
    /// Scrolling.
    Scroll,
    /// A widget setter (named).
    WidgetSetter(&'static str),
    /// An animation.
    Anim,
    /// The node is being deleted.
    Delete,
    /// The node was created.
    Create,
    /// An explicit `invalidate` call (also: flags, screen loads, overlays).
    Explicit,
}

/// A frame started by a refresh.
#[derive(Clone, Copy, Debug, PartialEq, Eq, Structural)]
pub struct FrameInfo {
    /// The display the frame is for.
    pub display: crate::ids::DisplayId,
    /// The display's frame counter.
    pub frame: u32,
    /// Number of (merged, aligned) areas to render.
    pub areas: u16,
    /// Pixels of the areas.
    pub px: u32,
}

/// Result of a refresh.
#[derive(Clone, Copy, Debug, PartialEq, Eq, Structural, Default)]
pub struct RefreshOutcome {
    /// At least one frame was rendered (completely or partly).
    pub rendered: bool,
    /// Earliest instant a display needs another refresh.
    pub next_due: Option<crate::time::Instant>,
    /// A frame is only partly rendered: call again as soon as a draw buffer can be free.
    pub in_progress: bool,
}

} // verus!
