//! Grid navigation (LVGL `lv_gridnav`): arrow keys move the focus among the children of a
//! container by their position on screen.
use vstd::prelude::*;
use crate::event::{EventCode, Key};
use crate::geom::Rect;
use crate::ids::NodeId;
use crate::scroll::{tdiv, iabs};

verus! {

/// At the end of a row / column continue on the next / previous one (and wrap around at the
/// ends); without it, the group focus moves on instead.
pub const GRIDNAV_ROLLOVER: u8 = 0x1;
/// If the focused child can be scrolled in the key's direction, scroll it by a quarter of its
/// size instead of moving the focus.
pub const GRIDNAV_SCROLL_FIRST: u8 = 0x2;
/// Only `Left`/`Right` move the focus.
pub const GRIDNAV_HORIZONTAL_MOVE_ONLY: u8 = 0x4;
/// Only `Up`/`Down` move the focus.
pub const GRIDNAV_VERTICAL_MOVE_ONLY: u8 = 0x8;

/// Gridnav options (LVGL `lv_gridnav_ctrl_t`).
#[derive(Clone, Copy, Debug, PartialEq, Eq, Structural, Hash, Default)]
pub struct GridnavCtrl {
    pub bits: u8,
}

/// Which child [`find_child`] looks for (LVGL `find_mode_t`).
#[derive(Clone, Copy, Debug, PartialEq, Eq, Structural)]
pub enum Find {
    Left,
    Right,
    Top,
    Bottom,
    NextRowFirst,
    PrevRowLast,
    FirstRow,
    LastRow,
}

/// What [`find_child`] knows of a child of the container.
#[derive(Clone, Copy, Debug, PartialEq, Eq, Structural)]
pub struct ChildGeom {
    pub id: NodeId,
    /// Not hidden, `CLICKABLE` and `CLICK_FOCUSABLE` (LVGL `obj_is_focusable`).
    pub focusable: bool,
    pub coords: Rect,
}

/// The horizontal center of a rectangle (rounded towards its start).
pub open spec fn cx(r: Rect) -> int {
    r.x0 + tdiv(r.x1 - r.x0, 2)
}

/// The vertical center of a rectangle.
pub open spec fn cy(r: Rect) -> int {
    r.y0 + tdiv(r.y1 - r.y0, 2)
}

/// The position error of a child with coordinates `c` relative to the start child `s` in
/// mode `mode`, or `None` when the child is not in the searched direction. `cont` is the
/// container, `h_max` its height plus its scrollable extent.
pub open spec fn find_err(mode: Find, s: Rect, c: Rect, cont: Rect, h_max: int) -> Option<(int, int)> {
    let xe = cx(c) - cx(s);
    let ye = cy(c) - cy(s);
    let h_half = tdiv(s.y1 - s.y0, 2);
    match mode {
        Find::Left => if xe >= 0 || iabs(ye) > h_half { None } else { Some((xe, ye)) },
        Find::Right => if xe <= 0 || iabs(ye) > h_half { None } else { Some((xe, ye)) },
        Find::Top => if ye >= 0 { None } else { Some((xe, ye)) },
        Find::Bottom => if ye <= 0 { None } else { Some((xe, ye)) },
        Find::NextRowFirst => if ye <= 0 { None } else { Some((c.x0 - cont.x0, ye)) },
        Find::PrevRowLast => if ye >= 0 { None } else { Some((cont.x1 - c.x1, ye)) },
        Find::FirstRow => Some((xe, c.y0 - cont.y0)),
        Find::LastRow => Some((xe, h_max - (c.y0 - cont.y0))),
    }
}

/// The squared distance of child `k` for the search, `None` when it does not take part.
pub open spec fn child_dist(ch: Seq<ChildGeom>, k: int, start: NodeId, mode: Find, s: Rect, cont: Rect, h_max: int) -> Option<int> {
    if ch[k].id == start || !ch[k].focusable {
        None
    } else {
        match find_err(mode, s, ch[k].coords, cont, h_max) {
            Some((x, y)) => Some(x * x + y * y),
            None => None,
        }
    }
}

/// LVGL `find_chid`: the first of the focusable children (other than `start`) in the
/// direction `mode` with the smallest squared center distance (see [`find_err`]).
pub fn find_child(ch: &Vec<ChildGeom>, start: NodeId, s: Rect, cont: Rect, scroll_top: i32, scroll_bottom: i32, mode: Find) -> (r: Option<NodeId>)
    requires
        s.wf(),
        cont.wf(),
        forall|k: int| 0 <= k < ch@.len() ==> (#[trigger] ch@[k]).coords.wf(),
        crate::geom::coord_ok(scroll_top as int),
        crate::geom::coord_ok(scroll_bottom as int),
    ensures
        ({
            let h_max = (cont.y1 - cont.y0) + scroll_top + scroll_bottom;
            match r {
                None => forall|k: int| 0 <= k < ch@.len() ==> #[trigger] child_dist(ch@, k, start, mode, s, cont, h_max) is None,
                Some(n) => exists|j: int| 0 <= j < ch@.len() && ch@[j].id == n && {
                    let dj = child_dist(ch@, j, start, mode, s, cont, h_max);
                    &&& dj is Some
                    &&& forall|k: int| 0 <= k < ch@.len() && #[trigger] child_dist(ch@, k, start, mode, s, cont, h_max) is Some
                        ==> dj->0 <= child_dist(ch@, k, start, mode, s, cont, h_max)->0
                    &&& forall|k: int| 0 <= k < j && #[trigger] child_dist(ch@, k, start, mode, s, cont, h_max) is Some
                        ==> dj->0 < child_dist(ch@, k, start, mode, s, cont, h_max)->0
                },
            }
        }),
{
    let ghost h_max = (cont.y1 - cont.y0) + scroll_top + scroll_bottom;
    let xs: i64 = s.x0 as i64 + (s.x1 as i64 - s.x0 as i64) / 2;
    let ys: i64 = s.y0 as i64 + (s.y1 as i64 - s.y0 as i64) / 2;
    let h_half: i64 = (s.y1 as i64 - s.y0 as i64) / 2;
    let hm: i64 = (cont.y1 as i64 - cont.y0 as i64) + scroll_top as i64 + scroll_bottom as i64;
    let mut best: Option<(usize, i128)> = None;
    let mut i: usize = 0;
    while i < ch.len()
        invariant
            i <= ch@.len(),
            s.wf(),
            cont.wf(),
            forall|k: int| 0 <= k < ch@.len() ==> (#[trigger] ch@[k]).coords.wf(),
            xs == cx(s),
            ys == cy(s),
            h_half == tdiv(s.y1 - s.y0, 2),
            hm == h_max,
            crate::geom::coord_ok(scroll_top as int),
            crate::geom::coord_ok(scroll_bottom as int),
            h_max == (cont.y1 - cont.y0) + scroll_top + scroll_bottom,
            match best {
                None => forall|k: int| 0 <= k < i ==> #[trigger] child_dist(ch@, k, start, mode, s, cont, h_max) is None,
                Some((j, d)) => j < i && child_dist(ch@, j as int, start, mode, s, cont, h_max) == Some(d as int)
                    && (forall|k: int| 0 <= k < i && #[trigger] child_dist(ch@, k, start, mode, s, cont, h_max) is Some
                        ==> d <= child_dist(ch@, k, start, mode, s, cont, h_max)->0)
                    && (forall|k: int| 0 <= k < j && #[trigger] child_dist(ch@, k, start, mode, s, cont, h_max) is Some
                        ==> d < child_dist(ch@, k, start, mode, s, cont, h_max)->0),
            },
        decreases ch@.len() - i,
    {
        let c = ch[i];
        let same = c.id.slot == start.slot && c.id.gen == start.gen;
        if !same && c.focusable {
            let r = c.coords;
            let xc: i64 = r.x0 as i64 + (r.x1 as i64 - r.x0 as i64) / 2;
            let yc: i64 = r.y0 as i64 + (r.y1 as i64 - r.y0 as i64) / 2;
            let xe = xc - xs;
            let ye = yc - ys;
            let aye = if ye < 0 { -ye } else { ye };
            let err: Option<(i64, i64)> = match mode {
                Find::Left => if xe >= 0 || aye > h_half { None } else { Some((xe, ye)) },
                Find::Right => if xe <= 0 || aye > h_half { None } else { Some((xe, ye)) },
                Find::Top => if ye >= 0 { None } else { Some((xe, ye)) },
                Find::Bottom => if ye <= 0 { None } else { Some((xe, ye)) },
                Find::NextRowFirst => if ye <= 0 { None } else { Some((r.x0 as i64 - cont.x0 as i64, ye)) },
                Find::PrevRowLast => if ye >= 0 { None } else { Some((cont.x1 as i64 - r.x1 as i64, ye)) },
                Find::FirstRow => Some((xe, r.y0 as i64 - cont.y0 as i64)),
                Find::LastRow => Some((xe, hm - (r.y0 as i64 - cont.y0 as i64))),
            };
            proof {
                assert(err == (match find_err(mode, s, r, cont, h_max) {
                    Some((x, y)) => Some((x as i64, y as i64)),
                    None => None::<(i64, i64)>,
                }));
            }
            match err {
                Some((x0, y0)) => {
                    let x = x0 as i128;
                    let y = y0 as i128;
                    assert(0 <= x * x <= 0x100_0000_0000_0000_0000_0000) by (nonlinear_arith)
                        requires -0x10_0000_0000 <= x <= 0x10_0000_0000;
                    assert(0 <= y * y <= 0x100_0000_0000_0000_0000_0000) by (nonlinear_arith)
                        requires -0x10_0000_0000 <= y <= 0x10_0000_0000;
                    let d = x * x + y * y;
                    let better = match best {
                        None => true,
                        Some((_, bd)) => d < bd,
                    };
                    if better {
                        best = Some((i, d));
                    }
                },
                None => {},
            }
        }
        i = i + 1;
    }
    match best {
        None => None,
        Some((j, _)) => {
            proof {
                assert(ch@[j as int].id == ch@[j as int].id);
            }
            Some(ch[j].id)
        },
    }
}

/// What an arrow key does in a gridnav container.
#[derive(Clone, Copy, Debug, PartialEq, Eq, Structural)]
pub enum KeyMove {
    /// Scroll the focused child by `(dx, dy)` (animated, bounded).
    Scroll(i32, i32),
    /// Look for the nearest child with `primary`; when there is none, with `secondary` (then
    /// the first (`Some(true)`) or last (`Some(false)`) focusable child when `fallback` says
    /// so), or else move the group focus forward (`Some(true)`) or backward.
    Find { primary: Find, secondary: Option<Find>, fallback: Option<bool>, group_forward: Option<bool> },
    /// Not an arrow this container moves on: forward the key to the focused child.
    Forward,
}

/// The decision of the gridnav key handler (LVGL `gridnav_event_cb` for `LV_EVENT_KEY`):
/// `scroll_first` = `SCROLL_FIRST` is set and the focused child is scrollable; `right`,
/// `left`, `bottom`, `top` = the child's scrollable content in each direction; `qw` / `qh` =
/// a quarter of its width / height (at least 1).
pub open spec fn key_move_model(key: Key, ctrl: u8, scroll_first: bool, right: int, left: int, bottom: int, top: int, qw: int, qh: int) -> KeyMove {
    let roll = ctrl & GRIDNAV_ROLLOVER == GRIDNAV_ROLLOVER;
    let vonly = ctrl & GRIDNAV_VERTICAL_MOVE_ONLY == GRIDNAV_VERTICAL_MOVE_ONLY;
    let honly = ctrl & GRIDNAV_HORIZONTAL_MOVE_ONLY == GRIDNAV_HORIZONTAL_MOVE_ONLY;
    match key {
        Key::Right if !vonly => if scroll_first && right > 0 {
            KeyMove::Scroll(-qw as i32, 0)
        } else if roll {
            KeyMove::Find { primary: Find::Right, secondary: Some(Find::NextRowFirst), fallback: Some(true), group_forward: None }
        } else {
            KeyMove::Find { primary: Find::Right, secondary: None, fallback: None, group_forward: Some(true) }
        },
        Key::Left if !vonly => if scroll_first && left > 0 {
            KeyMove::Scroll(qw as i32, 0)
        } else if roll {
            KeyMove::Find { primary: Find::Left, secondary: Some(Find::PrevRowLast), fallback: Some(false), group_forward: None }
        } else {
            KeyMove::Find { primary: Find::Left, secondary: None, fallback: None, group_forward: Some(false) }
        },
        Key::Down if !honly => if scroll_first && bottom > 0 {
            KeyMove::Scroll(0, -qh as i32)
        } else if roll {
            KeyMove::Find { primary: Find::Bottom, secondary: Some(Find::FirstRow), fallback: None, group_forward: None }
        } else {
            KeyMove::Find { primary: Find::Bottom, secondary: None, fallback: None, group_forward: Some(true) }
        },
        Key::Up if !honly => if scroll_first && top > 0 {
            KeyMove::Scroll(0, qh as i32)
        } else if roll {
            KeyMove::Find { primary: Find::Top, secondary: Some(Find::LastRow), fallback: None, group_forward: None }
        } else {
            KeyMove::Find { primary: Find::Top, secondary: None, fallback: None, group_forward: Some(false) }
        },
        _ => KeyMove::Forward,
    }
}

/// What an arrow key does in a gridnav container (see [`key_move_model`]).
pub fn key_move(key: Key, ctrl: GridnavCtrl, scroll_first: bool, right: i32, left: i32, bottom: i32, top: i32, qw: i32, qh: i32) -> (r: KeyMove)
    requires
        1 <= qw <= i32::MAX,
        1 <= qh <= i32::MAX,
    ensures
        r == key_move_model(key, ctrl.bits, scroll_first, right as int, left as int, bottom as int, top as int, qw as int, qh as int),
{
    let roll = ctrl.bits & GRIDNAV_ROLLOVER == GRIDNAV_ROLLOVER;
    let vonly = ctrl.bits & GRIDNAV_VERTICAL_MOVE_ONLY == GRIDNAV_VERTICAL_MOVE_ONLY;
    let honly = ctrl.bits & GRIDNAV_HORIZONTAL_MOVE_ONLY == GRIDNAV_HORIZONTAL_MOVE_ONLY;
    match key {
        Key::Right if !vonly => if scroll_first && right > 0 {
            KeyMove::Scroll(-qw, 0)
        } else if roll {
            KeyMove::Find { primary: Find::Right, secondary: Some(Find::NextRowFirst), fallback: Some(true), group_forward: None }
        } else {
            KeyMove::Find { primary: Find::Right, secondary: None, fallback: None, group_forward: Some(true) }
        },
        Key::Left if !vonly => if scroll_first && left > 0 {
            KeyMove::Scroll(qw, 0)
        } else if roll {
            KeyMove::Find { primary: Find::Left, secondary: Some(Find::PrevRowLast), fallback: Some(false), group_forward: None }
        } else {
            KeyMove::Find { primary: Find::Left, secondary: None, fallback: None, group_forward: Some(false) }
        },
        Key::Down if !honly => if scroll_first && bottom > 0 {
            KeyMove::Scroll(0, -qh)
        } else if roll {
            KeyMove::Find { primary: Find::Bottom, secondary: Some(Find::FirstRow), fallback: None, group_forward: None }
        } else {
            KeyMove::Find { primary: Find::Bottom, secondary: None, fallback: None, group_forward: Some(true) }
        },
        Key::Up if !honly => if scroll_first && top > 0 {
            KeyMove::Scroll(0, qh)
        } else if roll {
            KeyMove::Find { primary: Find::Top, secondary: Some(Find::LastRow), fallback: None, group_forward: None }
        } else {
            KeyMove::Find { primary: Find::Top, secondary: None, fallback: None, group_forward: Some(false) }
        },
        _ => KeyMove::Forward,
    }
}

/// A quarter of `size`, at least 1 (the scroll step of `SCROLL_FIRST`).
pub fn quarter(size: i32) -> (r: i32)
    ensures
        r == (if tdiv(size as int, 4) >= 1 { tdiv(size as int, 4) } else { 1 }),
{
    let q = size / 4;
    if q >= 1 { q } else { 1 }
}

/// The first focusable child (forward) or the last (backward) among `focusable`.
pub fn first_focusable_child(focusable: &Vec<bool>, forward: bool) -> (r: Option<usize>)
    ensures
        match r {
            Some(i) => crate::group::first_in_range(focusable@, 0, focusable@.len() as int, forward, i as int),
            None => !crate::group::any_in_range(focusable@, 0, focusable@.len() as int),
        },
{
    crate::group::focus_search(focusable, None, forward, false)
}

/// What the gridnav handler asks the engine to do.
#[derive(Clone, Copy, Debug, PartialEq, Eq, Structural)]
pub enum GridAction {
    /// Remember this child as the container's focused one.
    SetFocused(Option<NodeId>),
    /// Give the node the `FOCUSED` and `FOCUS_KEY` states.
    AddFocus(NodeId),
    /// Take the `FOCUSED` and `FOCUS_KEY` states from the node.
    ClearFocus(NodeId),
    /// Clear the node's `PRESSED` state.
    ClearPressed(NodeId),
    /// Scroll the node into view (animated or not) if it still exists.
    ScrollToView(NodeId, bool),
    /// Send the event to the node.
    Send(EventCode, NodeId),
    /// Send the event being handled, with its parameter, on to the node.
    Forward(NodeId),
    /// Forget the container's gridnav.
    Remove,
    /// End the plan here unless the node still exists.
    EndUnlessAlive(NodeId),
}

/// What the gridnav handler of container `obj` knows when an event other than a key
/// reaches it.
#[derive(Clone, Copy, Debug, PartialEq, Eq, Structural)]
pub struct GridEvent {
    pub code: EventCode,
    pub obj: NodeId,
    /// The remembered focused child, if it still exists and is still a child of `obj`.
    pub focused: Option<NodeId>,
    /// The first focusable child of `obj`.
    pub first_focusable: Option<NodeId>,
    /// The event's original target and the node now handling it.
    pub target: NodeId,
    pub current_target: NodeId,
    /// The target is a child of `obj`.
    pub target_is_child: bool,
    /// `obj` has the `FOCUSED` state.
    pub obj_focused: bool,
    /// The input sending the event is a keypad or an encoder.
    pub keys: bool,
    /// `obj` has the focus of its group.
    pub group_focused: bool,
}

/// Whether `code` is one of the press events a gridnav passes on to its focused child.
pub open spec fn is_press_event(code: EventCode) -> bool {
    code == EventCode::Pressed || code == EventCode::Pressing || code == EventCode::PressLost
        || code == EventCode::ShortClicked || code == EventCode::LongPressed
        || code == EventCode::LongPressedRepeat || code == EventCode::Clicked || code == EventCode::Released
}

/// The gridnav handler for events other than keys (LVGL `gridnav_event_cb`): `Focused`
/// focuses the remembered child (else the first focusable one), clears its press and
/// scrolls it into view; `Defocused` takes the focus states from it; a child created
/// while no child is remembered becomes the focused one (with the focus states when the
/// container is focused); after a child was deleted without a remembered one left, the
/// first focusable child is remembered; the container's own `Delete` forgets the gridnav;
/// press events from keys and encoders go on to the focused child while the container has
/// its group's focus.
pub open spec fn grid_event_model(ev: GridEvent) -> Seq<GridAction> {
    if ev.code == EventCode::Focused {
        let f = if ev.focused is Some { ev.focused } else { ev.first_focusable };
        match f {
            Some(x) => seq![GridAction::SetFocused(f), GridAction::AddFocus(x), GridAction::ClearPressed(x), GridAction::ScrollToView(x, false)],
            None => seq![GridAction::SetFocused(f)],
        }
    } else if ev.code == EventCode::Defocused {
        match ev.focused {
            Some(x) => seq![GridAction::ClearFocus(x)],
            None => Seq::empty(),
        }
    } else if ev.code == EventCode::ChildCreated {
        if ev.current_target == ev.obj && ev.target_is_child && ev.focused is None {
            if ev.obj_focused {
                seq![GridAction::SetFocused(Some(ev.target)), GridAction::AddFocus(ev.target), GridAction::ScrollToView(ev.target, false)]
            } else {
                seq![GridAction::SetFocused(Some(ev.target))]
            }
        } else {
            Seq::empty()
        }
    } else if ev.code == EventCode::ChildDeleted {
        if ev.current_target == ev.obj && ev.focused is None { seq![GridAction::SetFocused(ev.first_focusable)] } else { Seq::empty() }
    } else if ev.code == EventCode::Delete && ev.target == ev.obj {
        seq![GridAction::Remove]
    } else if is_press_event(ev.code) && ev.keys && ev.group_focused && ev.focused is Some {
        seq![GridAction::Forward(ev.focused.unwrap())]
    } else {
        Seq::empty()
    }
}

/// The gridnav handler for events other than keys (see [`grid_event_model`]).
pub fn grid_event(ev: &GridEvent) -> (r: Vec<GridAction>)
    ensures
        r@ == grid_event_model(*ev),
{
    let mut r: Vec<GridAction> = Vec::new();
    let code = ev.code;
    if code == EventCode::Focused {
        let f = if ev.focused.is_some() { ev.focused } else { ev.first_focusable };
        r.push(GridAction::SetFocused(f));
        if let Some(x) = f {
            r.push(GridAction::AddFocus(x));
            r.push(GridAction::ClearPressed(x));
            r.push(GridAction::ScrollToView(x, false));
        }
    } else if code == EventCode::Defocused {
        if let Some(x) = ev.focused {
            r.push(GridAction::ClearFocus(x));
        }
    } else if code == EventCode::ChildCreated {
        if ev.current_target == ev.obj && ev.target_is_child && ev.focused.is_none() {
            r.push(GridAction::SetFocused(Some(ev.target)));
            if ev.obj_focused {
                r.push(GridAction::AddFocus(ev.target));
                r.push(GridAction::ScrollToView(ev.target, false));
            }
        }
    } else if code == EventCode::ChildDeleted {
        if ev.current_target == ev.obj && ev.focused.is_none() {
            r.push(GridAction::SetFocused(ev.first_focusable));
        }
    } else if code == EventCode::Delete && ev.target == ev.obj {
        r.push(GridAction::Remove);
    } else {
        let press = code == EventCode::Pressed || code == EventCode::Pressing || code == EventCode::PressLost
            || code == EventCode::ShortClicked || code == EventCode::LongPressed
            || code == EventCode::LongPressedRepeat || code == EventCode::Clicked || code == EventCode::Released;
        if press && ev.keys && ev.group_focused {
            if let Some(x) = ev.focused {
                r.push(GridAction::Forward(x));
            }
        }
    }
    proof {
        assert(r@ =~= grid_event_model(*ev));
    }
    r
}

/// The end of the gridnav key handler, once the focused child `cur` has been scrolled or
/// the next child `guess` looked for: when the container lost its group's focus meanwhile
/// (`keeps_group_focus` false), `cur` loses the focus states; when a child other than
/// `cur` was found and `cur` still exists, `cur` loses the focus states and gets
/// `Defocused`, then, if the new child still exists, it gets the focus states and
/// `Focused`, is scrolled into view with an animation and is remembered.
pub open spec fn key_finish_model(cur: NodeId, guess: Option<NodeId>, keeps_group_focus: bool, cur_alive: bool) -> Seq<GridAction> {
    let lost: Seq<GridAction> = if keeps_group_focus { Seq::empty() } else { seq![GridAction::ClearFocus(cur)] };
    match guess {
        Some(new) if new != cur && cur_alive => lost + seq![
            GridAction::ClearFocus(cur), GridAction::Send(EventCode::Defocused, cur), GridAction::EndUnlessAlive(new),
            GridAction::AddFocus(new), GridAction::Send(EventCode::Focused, new), GridAction::ScrollToView(new, true),
            GridAction::SetFocused(Some(new))],
        _ => lost,
    }
}

/// The end of the gridnav key handler (see [`key_finish_model`]).
pub fn key_finish(cur: NodeId, guess: Option<NodeId>, keeps_group_focus: bool, cur_alive: bool) -> (r: Vec<GridAction>)
    ensures
        r@ == key_finish_model(cur, guess, keeps_group_focus, cur_alive),
{
    let mut r: Vec<GridAction> = Vec::new();
    if !keeps_group_focus {
        r.push(GridAction::ClearFocus(cur));
    }
    if let Some(new) = guess {
        if new != cur && cur_alive {
            r.push(GridAction::ClearFocus(cur));
            r.push(GridAction::Send(EventCode::Defocused, cur));
            r.push(GridAction::EndUnlessAlive(new));
            r.push(GridAction::AddFocus(new));
            r.push(GridAction::Send(EventCode::Focused, new));
            r.push(GridAction::ScrollToView(new, true));
            r.push(GridAction::SetFocused(Some(new)));
        }
    }
    proof {
        assert(r@ =~= key_finish_model(cur, guess, keeps_group_focus, cur_alive));
    }
    r
}

/// How the searches of a gridnav key end (LVGL `gridnav_event_cb`): for
/// `KeyMove::Find { primary, secondary, fallback, group_forward }`, the child `found` by the
/// primary search; else the one `found_next` by the secondary search, else the first (or
/// last) focusable child when `fallback` asks for it; without a secondary search, a miss
/// moves the focus of the container's group (when it has one, `has_group`) forward or
/// back. The result is the child to move the focus to, and the group step to take.
pub open spec fn key_target_model(m: KeyMove, found: Option<NodeId>, found_next: Option<NodeId>, first: Option<NodeId>,
    last: Option<NodeId>, has_group: bool) -> (Option<NodeId>, Option<bool>) {
    match m {
        KeyMove::Find { primary, secondary, fallback, group_forward } => {
            if found is Some {
                (found, None)
            } else if secondary is Some {
                if found_next is Some {
                    (found_next, None)
                } else {
                    (match fallback { Some(true) => first, Some(false) => last, None => None }, None)
                }
            } else {
                (None, if has_group { group_forward } else { None })
            }
        },
        _ => (None, None),
    }
}

/// How the searches of a gridnav key end (see [`key_target_model`]).
pub fn key_target(m: KeyMove, found: Option<NodeId>, found_next: Option<NodeId>, first: Option<NodeId>,
    last: Option<NodeId>, has_group: bool) -> (r: (Option<NodeId>, Option<bool>))
    ensures
        r == key_target_model(m, found, found_next, first, last, has_group),
{
    match m {
        KeyMove::Find { primary, secondary, fallback, group_forward } => {
            if found.is_some() {
                (found, None)
            } else if secondary.is_some() {
                if found_next.is_some() {
                    (found_next, None)
                } else {
                    (match fallback { Some(true) => first, Some(false) => last, None => None }, None)
                }
            } else {
                (None, if has_group { group_forward } else { None })
            }
        },
        _ => (None, None),
    }
}

/// An arrow key moves the focus in its own direction, whatever the options: when it
/// searches, the first search looks towards the arrow (`Left` → [`Find::Left`], `Right` →
/// [`Find::Right`], `Up` → [`Find::Top`], `Down` → [`Find::Bottom`]) and a miss moves the
/// group focus backwards for `Left` / `Up` and forwards for `Right` / `Down`; when it
/// scrolls the focused child instead, the content moves against the arrow on the arrow's
/// axis only, revealing what lies in its direction.
pub proof fn lemma_arrow_goes_its_way(key: Key, ctrl: u8, scroll_first: bool, right: int, left: int, bottom: int, top: int, qw: int, qh: int)
    requires
        1 <= qw <= i32::MAX,
        1 <= qh <= i32::MAX,
    ensures
        ({
            let m = key_move_model(key, ctrl, scroll_first, right, left, bottom, top, qw, qh);
            &&& m matches KeyMove::Find { primary, group_forward, .. } ==> {
                &&& key == Key::Left ==> primary == Find::Left && group_forward != Some(true)
                &&& key == Key::Right ==> primary == Find::Right && group_forward != Some(false)
                &&& key == Key::Up ==> primary == Find::Top && group_forward != Some(true)
                &&& key == Key::Down ==> primary == Find::Bottom && group_forward != Some(false)
            }
            &&& m matches KeyMove::Find { secondary, fallback, .. } ==> {
                &&& key == Key::Right ==> (secondary is None || secondary == Some(Find::NextRowFirst)) && fallback != Some(false)
                &&& key == Key::Left ==> (secondary is None || secondary == Some(Find::PrevRowLast)) && fallback != Some(true)
                &&& key == Key::Down ==> (secondary is None || secondary == Some(Find::FirstRow)) && fallback is None
                &&& key == Key::Up ==> (secondary is None || secondary == Some(Find::LastRow)) && fallback is None
                &&& (secondary is Some <==> ctrl & GRIDNAV_ROLLOVER == GRIDNAV_ROLLOVER)
            }
            &&& m matches KeyMove::Scroll(dx, dy) ==> {
                &&& key == Key::Left ==> dx > 0 && dy == 0
                &&& key == Key::Right ==> dx < 0 && dy == 0
                &&& key == Key::Up ==> dy > 0 && dx == 0
                &&& key == Key::Down ==> dy < 0 && dx == 0
            }
            &&& (m is Find || m is Scroll) ==> key == Key::Left || key == Key::Right || key == Key::Up || key == Key::Down
        }),
{
}

} // verus!
