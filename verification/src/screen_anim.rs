//! Animated screen loads (LVGL `lv_screen_load_anim`): [`ScreenAnim`], [`ScreenLoad`], the
//! motion of the two screens, and the state of a load in progress on a display.
//!
//! A screen load animation moves the screens (their position, the whole subtree with them)
//! or fades their opacity, never re-laying them out. While it runs both screens are drawn —
//! the new one above the old one, except for the `Out*` and `FadeOut` animations where the
//! old one leaves above the new one.
use vstd::prelude::*;
use crate::geom::{Rect, coord_ok};
use crate::ids::NodeId;
use crate::time::Duration;

verus! {

/// How a new screen replaces the active one (LVGL `lv_screen_load_anim_t`); every variant but
/// `Off` carries the animation time.
///
/// | Variant | New screen | Old screen | Drawn on top |
/// |---------|------------|------------|--------------|
/// | `OverLeft/Right/Top/Bottom` | slides in from the right / left / bottom / top | stays | new |
/// | `MoveLeft/Right/Top/Bottom` | slides in | slides out the other side | new |
/// | `FadeIn` | fades in (opacity 0 → 255) | stays | new |
/// | `FadeOut` | stays | fades out | old |
/// | `OutLeft/Right/Top/Bottom` | stays | slides out to the left / right / top / bottom | old |
#[derive(Clone, Copy, Debug, PartialEq, Eq, Structural, Hash)]
pub enum ScreenAnim {
    /// Switch at once (after the delay).
    Off,
    /// The new screen slides in from the right, over the old one.
    OverLeft(Duration),
    /// The new screen slides in from the left, over the old one.
    OverRight(Duration),
    /// The new screen slides in from the bottom, over the old one.
    OverTop(Duration),
    /// The new screen slides in from the top, over the old one.
    OverBottom(Duration),
    /// Both screens move to the left.
    MoveLeft(Duration),
    /// Both screens move to the right.
    MoveRight(Duration),
    /// Both screens move up.
    MoveTop(Duration),
    /// Both screens move down.
    MoveBottom(Duration),
    /// The new screen fades in over the old one.
    FadeIn(Duration),
    /// The old screen fades out, revealing the new one.
    FadeOut(Duration),
    /// The old screen slides out to the left, revealing the new one.
    OutLeft(Duration),
    /// The old screen slides out to the right, revealing the new one.
    OutRight(Duration),
    /// The old screen slides out to the top, revealing the new one.
    OutTop(Duration),
    /// The old screen slides out to the bottom, revealing the new one.
    OutBottom(Duration),
}

/// The animation time of `a` (zero for `Off`).
pub open spec fn anim_time(a: ScreenAnim) -> Duration {
    match a {
        ScreenAnim::Off => Duration { us: 0 },
        ScreenAnim::OverLeft(d) => d,
        ScreenAnim::OverRight(d) => d,
        ScreenAnim::OverTop(d) => d,
        ScreenAnim::OverBottom(d) => d,
        ScreenAnim::MoveLeft(d) => d,
        ScreenAnim::MoveRight(d) => d,
        ScreenAnim::MoveTop(d) => d,
        ScreenAnim::MoveBottom(d) => d,
        ScreenAnim::FadeIn(d) => d,
        ScreenAnim::FadeOut(d) => d,
        ScreenAnim::OutLeft(d) => d,
        ScreenAnim::OutRight(d) => d,
        ScreenAnim::OutTop(d) => d,
        ScreenAnim::OutBottom(d) => d,
    }
}

/// Whether the old screen of `a` is drawn above the new one (LVGL `is_out_anim`).
pub open spec fn leaves_on_top(a: ScreenAnim) -> bool {
    a is FadeOut || a is OutLeft || a is OutRight || a is OutTop || a is OutBottom
}

/// What an animation value drives.
#[derive(Clone, Copy, Debug, PartialEq, Eq, Structural, Hash)]
pub enum Axis {
    /// The horizontal position.
    X,
    /// The vertical position.
    Y,
    /// The opacity.
    Opa,
}

/// The motion of one screen: what it drives and the values at the start and the end.
#[derive(Clone, Copy, Debug, PartialEq, Eq, Structural, Hash)]
pub struct Motion {
    pub axis: Axis,
    pub from: i32,
    pub to: i32,
}

/// The motions `(new, old)` of `a` on a display of `w × h` pixels.
pub open spec fn motions(a: ScreenAnim, w: int, h: int) -> (Option<Motion>, Option<Motion>) {
    let m = |axis: Axis, from: int, to: int| Some(Motion { axis, from: from as i32, to: to as i32 });
    match a {
        ScreenAnim::Off => (m(Axis::X, 0, 0), None),
        ScreenAnim::OverLeft(_) => (m(Axis::X, w, 0), None),
        ScreenAnim::OverRight(_) => (m(Axis::X, -w, 0), None),
        ScreenAnim::OverTop(_) => (m(Axis::Y, h, 0), None),
        ScreenAnim::OverBottom(_) => (m(Axis::Y, -h, 0), None),
        ScreenAnim::MoveLeft(_) => (m(Axis::X, w, 0), m(Axis::X, 0, -w)),
        ScreenAnim::MoveRight(_) => (m(Axis::X, -w, 0), m(Axis::X, 0, w)),
        ScreenAnim::MoveTop(_) => (m(Axis::Y, h, 0), m(Axis::Y, 0, -h)),
        ScreenAnim::MoveBottom(_) => (m(Axis::Y, -h, 0), m(Axis::Y, 0, h)),
        ScreenAnim::FadeIn(_) => (m(Axis::Opa, 0, 255), None),
        ScreenAnim::FadeOut(_) => (None, m(Axis::Opa, 255, 0)),
        ScreenAnim::OutLeft(_) => (None, m(Axis::X, 0, -w)),
        ScreenAnim::OutRight(_) => (None, m(Axis::X, 0, w)),
        ScreenAnim::OutTop(_) => (None, m(Axis::Y, 0, -h)),
        ScreenAnim::OutBottom(_) => (None, m(Axis::Y, 0, h)),
    }
}

impl ScreenAnim {
    /// Every animated variant (with `d`), in LVGL enum order, then `Off`.
    pub fn all(d: Duration) -> (r: [ScreenAnim; 15])
        ensures
            r@ == seq![
                ScreenAnim::OverLeft(d), ScreenAnim::OverRight(d), ScreenAnim::OverTop(d), ScreenAnim::OverBottom(d),
                ScreenAnim::MoveLeft(d), ScreenAnim::MoveRight(d), ScreenAnim::MoveTop(d), ScreenAnim::MoveBottom(d),
                ScreenAnim::FadeIn(d), ScreenAnim::FadeOut(d),
                ScreenAnim::OutLeft(d), ScreenAnim::OutRight(d), ScreenAnim::OutTop(d), ScreenAnim::OutBottom(d),
                ScreenAnim::Off,
            ],
    {
        let r = [
            ScreenAnim::OverLeft(d), ScreenAnim::OverRight(d), ScreenAnim::OverTop(d), ScreenAnim::OverBottom(d),
            ScreenAnim::MoveLeft(d), ScreenAnim::MoveRight(d), ScreenAnim::MoveTop(d), ScreenAnim::MoveBottom(d),
            ScreenAnim::FadeIn(d), ScreenAnim::FadeOut(d),
            ScreenAnim::OutLeft(d), ScreenAnim::OutRight(d), ScreenAnim::OutTop(d), ScreenAnim::OutBottom(d),
            ScreenAnim::Off,
        ];
        assert(r@ =~= seq![
            ScreenAnim::OverLeft(d), ScreenAnim::OverRight(d), ScreenAnim::OverTop(d), ScreenAnim::OverBottom(d),
            ScreenAnim::MoveLeft(d), ScreenAnim::MoveRight(d), ScreenAnim::MoveTop(d), ScreenAnim::MoveBottom(d),
            ScreenAnim::FadeIn(d), ScreenAnim::FadeOut(d),
            ScreenAnim::OutLeft(d), ScreenAnim::OutRight(d), ScreenAnim::OutTop(d), ScreenAnim::OutBottom(d),
            ScreenAnim::Off,
        ]);
        r
    }

    /// The animation time (zero for `Off`).
    pub fn duration(self) -> (r: Duration)
        ensures
            r == anim_time(self),
    {
        match self {
            ScreenAnim::Off => Duration { us: 0 },
            ScreenAnim::OverLeft(d) | ScreenAnim::OverRight(d) | ScreenAnim::OverTop(d) | ScreenAnim::OverBottom(d)
            | ScreenAnim::MoveLeft(d) | ScreenAnim::MoveRight(d) | ScreenAnim::MoveTop(d) | ScreenAnim::MoveBottom(d)
            | ScreenAnim::FadeIn(d) | ScreenAnim::FadeOut(d)
            | ScreenAnim::OutLeft(d) | ScreenAnim::OutRight(d) | ScreenAnim::OutTop(d) | ScreenAnim::OutBottom(d) => d,
        }
    }

    /// A short lowercase name (`"over_left"`, `"fade_in"`, …) for logs and file names.
    pub fn name(self) -> (r: &'static str)
        ensures
            r@ == (match self {
                ScreenAnim::Off => "none"@,
                ScreenAnim::OverLeft(_) => "over_left"@,
                ScreenAnim::OverRight(_) => "over_right"@,
                ScreenAnim::OverTop(_) => "over_top"@,
                ScreenAnim::OverBottom(_) => "over_bottom"@,
                ScreenAnim::MoveLeft(_) => "move_left"@,
                ScreenAnim::MoveRight(_) => "move_right"@,
                ScreenAnim::MoveTop(_) => "move_top"@,
                ScreenAnim::MoveBottom(_) => "move_bottom"@,
                ScreenAnim::FadeIn(_) => "fade_in"@,
                ScreenAnim::FadeOut(_) => "fade_out"@,
                ScreenAnim::OutLeft(_) => "out_left"@,
                ScreenAnim::OutRight(_) => "out_right"@,
                ScreenAnim::OutTop(_) => "out_top"@,
                ScreenAnim::OutBottom(_) => "out_bottom"@,
            }),
    {
        match self {
            ScreenAnim::Off => "none",
            ScreenAnim::OverLeft(_) => "over_left",
            ScreenAnim::OverRight(_) => "over_right",
            ScreenAnim::OverTop(_) => "over_top",
            ScreenAnim::OverBottom(_) => "over_bottom",
            ScreenAnim::MoveLeft(_) => "move_left",
            ScreenAnim::MoveRight(_) => "move_right",
            ScreenAnim::MoveTop(_) => "move_top",
            ScreenAnim::MoveBottom(_) => "move_bottom",
            ScreenAnim::FadeIn(_) => "fade_in",
            ScreenAnim::FadeOut(_) => "fade_out",
            ScreenAnim::OutLeft(_) => "out_left",
            ScreenAnim::OutRight(_) => "out_right",
            ScreenAnim::OutTop(_) => "out_top",
            ScreenAnim::OutBottom(_) => "out_bottom",
        }
    }

    /// Whether the old screen is drawn above the new one (LVGL `is_out_anim`).
    pub fn old_on_top(self) -> (b: bool)
        ensures
            b == leaves_on_top(self),
    {
        match self {
            ScreenAnim::FadeOut(_) | ScreenAnim::OutLeft(_) | ScreenAnim::OutRight(_) | ScreenAnim::OutTop(_)
            | ScreenAnim::OutBottom(_) => true,
            _ => false,
        }
    }

    /// This animation after a delay.
    pub fn delay(self, d: Duration) -> (l: ScreenLoad)
        ensures
            l == (ScreenLoad { anim: self, delay: d, auto_delete: false }),
    {
        ScreenLoad { anim: self, delay: d, auto_delete: false }
    }

    /// This animation, deleting the old screen at the end (`auto_delete`).
    pub fn auto_delete(self, on: bool) -> (l: ScreenLoad)
        ensures
            l == (ScreenLoad { anim: self, delay: Duration { us: 0 }, auto_delete: on }),
    {
        ScreenLoad { anim: self, delay: Duration { us: 0 }, auto_delete: on }
    }

    /// The motions `(new, old)` of the two screens on a display of `w × h` pixels: what each
    /// value drives and its start and end (`None`: that screen does not move).
    pub fn motion(self, w: i32, h: i32) -> (r: (Option<Motion>, Option<Motion>))
        requires
            w > i32::MIN,
            h > i32::MIN,
        ensures
            r == motions(self, w as int, h as int),
    {
        let x = |from: i32, to: i32| -> (m: Option<Motion>)
            ensures
                m == Some(Motion { axis: Axis::X, from, to }),
        { Some(Motion { axis: Axis::X, from, to }) };
        let y = |from: i32, to: i32| -> (m: Option<Motion>)
            ensures
                m == Some(Motion { axis: Axis::Y, from, to }),
        { Some(Motion { axis: Axis::Y, from, to }) };
        match self {
            ScreenAnim::Off => (x(0, 0), None),
            ScreenAnim::OverLeft(_) => (x(w, 0), None),
            ScreenAnim::OverRight(_) => (x(-w, 0), None),
            ScreenAnim::OverTop(_) => (y(h, 0), None),
            ScreenAnim::OverBottom(_) => (y(-h, 0), None),
            ScreenAnim::MoveLeft(_) => (x(w, 0), x(0, -w)),
            ScreenAnim::MoveRight(_) => (x(-w, 0), x(0, w)),
            ScreenAnim::MoveTop(_) => (y(h, 0), y(0, -h)),
            ScreenAnim::MoveBottom(_) => (y(-h, 0), y(0, h)),
            ScreenAnim::FadeIn(_) => (Some(Motion { axis: Axis::Opa, from: 0, to: 255 }), None),
            ScreenAnim::FadeOut(_) => (None, Some(Motion { axis: Axis::Opa, from: 255, to: 0 })),
            ScreenAnim::OutLeft(_) => (None, x(0, -w)),
            ScreenAnim::OutRight(_) => (None, x(0, w)),
            ScreenAnim::OutTop(_) => (None, y(0, -h)),
            ScreenAnim::OutBottom(_) => (None, y(0, h)),
        }
    }
}

/// A screen load request: the animation, a delay before it starts and whether the old screen
/// is deleted at the end (LVGL `lv_screen_load_anim` arguments).
#[derive(Clone, Copy, Debug, PartialEq, Eq, Structural, Hash)]
pub struct ScreenLoad {
    /// The animation.
    pub anim: ScreenAnim,
    /// Delay before the animation (and the switch of the active screen) starts.
    pub delay: Duration,
    /// Delete the old screen when the load completes.
    pub auto_delete: bool,
}

impl ScreenLoad {
    /// Sets whether the old screen is deleted at the end.
    pub fn auto_delete(self, on: bool) -> (l: ScreenLoad)
        ensures
            l == (ScreenLoad { auto_delete: on, ..self }),
    {
        ScreenLoad { auto_delete: on, ..self }
    }

    /// Whether the load happens at once: no animation time and no delay.
    pub fn is_instant(&self) -> (b: bool)
        ensures
            b == (anim_time(self.anim).us == 0 && self.delay.us == 0),
    {
        self.anim.duration().us == 0 && self.delay.us == 0
    }
}

impl From<ScreenAnim> for ScreenLoad {
    fn from(anim: ScreenAnim) -> (l: ScreenLoad) {
        ScreenLoad { anim, delay: Duration { us: 0 }, auto_delete: false }
    }
}

impl vstd::std_specs::convert::FromSpecImpl<ScreenAnim> for ScreenLoad {
    open spec fn obeys_from_spec() -> bool {
        true
    }

    open spec fn from_spec(anim: ScreenAnim) -> ScreenLoad {
        ScreenLoad { anim, delay: Duration { us: 0 }, auto_delete: false }
    }
}

/// Which screen an animation value is for.
#[derive(Clone, Copy, Debug, PartialEq, Eq, Structural, Hash)]
pub enum Which {
    New,
    Old,
}

/// Events of a screen load animation.
#[derive(Clone, Copy, Debug, PartialEq, Eq, Structural, Hash)]
pub enum ScreenOp {
    /// The delay is over: the new screen becomes active (LVGL `scr_load_anim_start`).
    Start,
    /// A new value for one of the screens.
    Value(Which, i32),
    /// Done (LVGL `scr_anim_completed`).
    Done,
}

/// What an animation value does to its screen: its place, or its opacity.
#[derive(Clone, Copy, Debug, PartialEq, Eq, Structural, Hash)]
pub enum Placement {
    /// The screen's area.
    At(Rect),
    /// The screen's local `Opa`.
    Opa(u8),
}

/// The effect of the value `v` of motion `m` on a screen of a display covering `area`: the
/// area shifted by `v` along the axis, or the opacity `v` clamped to `0..=255`.
pub fn placement(m: Motion, area: Rect, v: i32) -> (r: Placement)
    requires
        area.wf(),
        coord_ok(v as int),
    ensures
        r == (match m.axis {
            Axis::X => Placement::At(Rect { x0: (area.x0 + v) as i32, y0: area.y0, x1: (area.x1 + v) as i32, y1: area.y1 }),
            Axis::Y => Placement::At(Rect { x0: area.x0, y0: (area.y0 + v) as i32, x1: area.x1, y1: (area.y1 + v) as i32 }),
            Axis::Opa => Placement::Opa((if v < 0 { 0 } else if v > 255 { 255 } else { v }) as u8),
        }),
{
    match m.axis {
        Axis::X => Placement::At(Rect { x0: area.x0 + v, y0: area.y0, x1: area.x1 + v, y1: area.y1 }),
        Axis::Y => Placement::At(Rect { x0: area.x0, y0: area.y0 + v, x1: area.x1, y1: area.y1 + v }),
        Axis::Opa => Placement::Opa(if v < 0 { 0 } else if v > 255 { 255 } else { v as u8 }),
    }
}

/// A screen load animation in progress on a display.
#[derive(Clone, Copy, Debug, PartialEq, Eq, Structural)]
pub struct ScreenLoadRun {
    /// The screen being loaded (LVGL `scr_to_load`).
    pub new: NodeId,
    /// The screen being left.
    pub old: NodeId,
    pub anim: ScreenAnim,
    pub auto_delete: bool,
    /// Whether the delay is over and the new screen is active.
    pub started: bool,
}

/// The screens of one display: the active one, the one shown with it during a load
/// animation, the load in progress and whether the previous screen is drawn on top.
#[derive(Clone, Copy, Debug, PartialEq, Eq, Structural)]
pub struct ScreenState {
    pub active: NodeId,
    pub prev: Option<NodeId>,
    pub load: Option<ScreenLoadRun>,
    pub draw_prev_over_act: bool,
}

/// What completing a load leaves to do, in order: send `ScreenLoadStart` to `started` when
/// the delay had not ended yet, put `new` and `prev` back at their normal place and
/// opacity, redraw the display, send `ScreenLoaded` to `new` and `ScreenUnloaded` to `prev`
/// (those still alive), and delete `prev` when `auto_delete` (if it is alive and not the
/// active screen any more).
#[derive(Clone, Copy, Debug, PartialEq, Eq, Structural)]
pub struct LoadDone {
    pub started: Option<NodeId>,
    pub new: NodeId,
    pub prev: Option<NodeId>,
    pub auto_delete: bool,
}

/// What deleting nodes does to a load in progress.
#[derive(Clone, Copy, Debug, PartialEq, Eq, Structural)]
pub enum LoadForget {
    /// No load runs, or neither of its screens was deleted.
    Untouched,
    /// The screen being loaded was deleted: the load is cancelled (its animations are
    /// removed and the old screen goes back to its normal place and opacity).
    Cancelled { old: NodeId },
    /// The old screen was deleted: its animation is removed, the load goes on.
    OldGone,
}

/// What a screen load request does first (LVGL `lv_screen_load_anim`).
#[derive(Clone, Copy, Debug, PartialEq, Eq, Structural)]
pub enum LoadDecision {
    /// Nothing: the node is no screen of the display, or it is active or being loaded.
    Ignore,
    /// A load is running: finish it at once ([`ScreenState::done`]), then ask again.
    FinishRunning,
    /// Load at once (no animation time, no delay): both screens back to their normal place
    /// and opacity, the screen becomes active, and `old` is deleted afterwards when
    /// `auto_delete` (if it still exists and is not active).
    Instant { old: NodeId, auto_delete: bool },
    /// Animate: both screens back to normal, `ScreenUnloadStart` to `old`, then (if no load
    /// began and the screen is not active meanwhile) the animations start, the input
    /// devices are reset and the load is recorded ([`ScreenState::begin_load`]).
    Animate { old: NodeId },
}

/// What a request to load `screen` with `req` does first (see [`LoadDecision`]);
/// `is_screen`: the node is a screen of the display.
pub open spec fn load_start_model(s: ScreenState, screen: NodeId, is_screen: bool, req: ScreenLoad) -> LoadDecision {
    if !is_screen || s.active == screen || (s.load matches Some(run) && run.new == screen) {
        LoadDecision::Ignore
    } else if s.load is Some {
        LoadDecision::FinishRunning
    } else if anim_time(req.anim).us == 0 && req.delay.us == 0 {
        LoadDecision::Instant { old: s.active, auto_delete: req.auto_delete }
    } else {
        LoadDecision::Animate { old: s.active }
    }
}

impl ScreenState {
    /// The delay is over (LVGL `scr_load_anim_start`): the new screen becomes active, the old
    /// one stays visible as the previous screen (if it still is a screen of the display),
    /// drawn on top for the leaving animations. Returns the new screen, which then receives
    /// `ScreenLoadStart` after a redraw of the display; `None` (no change) without a load
    /// or when it has started already.
    pub fn start(&mut self, old_is_screen: bool) -> (r: Option<NodeId>)
        ensures
            match old(self).load {
                Some(run) if !run.started => {
                    &&& r == Some(run.new)
                    &&& *final(self) == (ScreenState {
                        active: run.new,
                        prev: if old_is_screen { Some(run.old) } else { None },
                        load: Some(ScreenLoadRun { started: true, ..run }),
                        draw_prev_over_act: leaves_on_top(run.anim),
                    })
                },
                _ => r is None && *final(self) == *old(self),
            },
    {
        match self.load {
            Some(run) => {
                if run.started {
                    return None;
                }
                self.load = Some(ScreenLoadRun { started: true, ..run });
                self.prev = if old_is_screen { Some(run.old) } else { None };
                self.active = run.new;
                self.draw_prev_over_act = run.anim.old_on_top();
                Some(run.new)
            },
            None => None,
        }
    }

    /// The load completes (LVGL `scr_anim_completed`): it starts first if its delay had not
    /// ended, then the load and the previous screen are cleared. Returns what is left to do
    /// (see [`LoadDone`]); `None` (no change) without a load.
    pub fn done(&mut self, old_is_screen: bool) -> (r: Option<LoadDone>)
        ensures
            match old(self).load {
                None => r is None && *final(self) == *old(self),
                Some(run) => {
                    let prev = if run.started { old(self).prev } else if old_is_screen { Some(run.old) } else { None };
                    let active = if run.started { old(self).active } else { run.new };
                    &&& r == Some(LoadDone {
                        started: if run.started { None } else { Some(run.new) },
                        new: run.new,
                        prev,
                        auto_delete: run.auto_delete,
                    })
                    &&& *final(self) == (ScreenState { active, prev: None, load: None, draw_prev_over_act: false })
                },
            },
    {
        let run = match self.load {
            Some(run) => run,
            None => { return None; },
        };
        let started = self.start(old_is_screen);
        self.load = None;
        self.draw_prev_over_act = false;
        let prev = self.prev;
        self.prev = None;
        Some(LoadDone { started, new: run.new, prev, auto_delete: run.auto_delete })
    }

    /// Cleans up the load after `deleted` nodes were deleted: deleting the screen being
    /// loaded (possible during the delay) cancels the load; deleting the old screen only
    /// stops its animation.
    pub fn forget(&mut self, deleted: &Vec<NodeId>) -> (r: LoadForget)
        ensures
            match old(self).load {
                None => r == LoadForget::Untouched && *final(self) == *old(self),
                Some(run) => if deleted@.contains(run.new) {
                    &&& r == (LoadForget::Cancelled { old: run.old })
                    &&& *final(self) == (ScreenState { load: None, draw_prev_over_act: false, prev: None, ..*old(self) })
                } else if deleted@.contains(run.old) {
                    r == LoadForget::OldGone && *final(self) == *old(self)
                } else {
                    r == LoadForget::Untouched && *final(self) == *old(self)
                },
            },
    {
        let run = match self.load {
            Some(run) => run,
            None => { return LoadForget::Untouched; },
        };
        if contains_node(deleted, run.new) {
            self.load = None;
            self.draw_prev_over_act = false;
            self.prev = None;
            LoadForget::Cancelled { old: run.old }
        } else if contains_node(deleted, run.old) {
            LoadForget::OldGone
        } else {
            LoadForget::Untouched
        }
    }

    /// What a request to load `screen` with `req` does first (see [`load_start_model`]).
    pub fn load_start(&self, screen: NodeId, is_screen: bool, req: ScreenLoad) -> (r: LoadDecision)
        ensures
            r == load_start_model(*self, screen, is_screen, req),
    {
        let loading_it = match self.load {
            Some(run) => run.new.slot == screen.slot && run.new.gen == screen.gen,
            None => false,
        };
        if !is_screen || (self.active.slot == screen.slot && self.active.gen == screen.gen) || loading_it {
            LoadDecision::Ignore
        } else if self.load.is_some() {
            LoadDecision::FinishRunning
        } else if req.is_instant() {
            LoadDecision::Instant { old: self.active, auto_delete: req.auto_delete }
        } else {
            LoadDecision::Animate { old: self.active }
        }
    }

    /// Records an animated load of `screen` (after `ScreenUnloadStart` reached the old
    /// screen): refused (returns `false`, nothing changes) when a load began meanwhile or
    /// `screen` became active; else the load waits for its delay (not started yet).
    pub fn begin_load(&mut self, screen: NodeId, req: ScreenLoad) -> (ok: bool)
        ensures
            ok == (old(self).load is None && old(self).active != screen),
            ok ==> *final(self) == (ScreenState {
                load: Some(ScreenLoadRun { new: screen, old: old(self).active, anim: req.anim, auto_delete: req.auto_delete, started: false }),
                ..*old(self)
            }),
            !ok ==> *final(self) == *old(self),
    {
        if self.load.is_some() || (self.active.slot == screen.slot && self.active.gen == screen.gen) {
            return false;
        }
        self.load = Some(ScreenLoadRun { new: screen, old: self.active, anim: req.anim, auto_delete: req.auto_delete, started: false });
        true
    }

    /// Whether pointer input must skip the screens of the display: a load (or its delay) is
    /// in progress.
    pub fn input_blocked(&self) -> (b: bool)
        ensures
            b == self.load is Some,
    {
        self.load.is_some()
    }
}

/// Whether `v` holds `id`.
fn contains_node(v: &Vec<NodeId>, id: NodeId) -> (b: bool)
    ensures
        b == v@.contains(id),
{
    let mut i: usize = 0;
    while i < v.len()
        invariant
            i <= v@.len(),
            forall|k: int| 0 <= k < i ==> v@[k] != id,
        decreases v@.len() - i,
    {
        if v[i].slot == id.slot && v[i].gen == id.gen {
            assert(v@[i as int] == id);
            return true;
        }
        i = i + 1;
    }
    false
}

/// The screen animations move in the direction their name says, and the moves push: the
/// new screen of an `Over*` or `Move*` animation ends in place (`to == 0`) coming from the
/// named side's opposite, the old screen of a `Move*` or `Out*` animation starts in place
/// (`from == 0`), and in a `Move*` animation both screens travel the same way by the same
/// distance (the display's width or height) on the same axis, so that the new one pushes
/// the old one out.
pub proof fn lemma_moves_push(a: ScreenAnim, w: int, h: int)
    requires
        0 < w <= i32::MAX,
        0 < h <= i32::MAX,
    ensures
        ({
            let (new, old) = motions(a, w, h);
            let moving = a is MoveLeft || a is MoveRight || a is MoveTop || a is MoveBottom;
            let toward_x = if a is MoveLeft || a is OverLeft || a is OutLeft { -w }
                else if a is MoveRight || a is OverRight || a is OutRight { w } else { 0 };
            let toward_y = if a is MoveTop || a is OverTop || a is OutTop { -h }
                else if a is MoveBottom || a is OverBottom || a is OutBottom { h } else { 0 };
            &&& moving ==> new is Some && old is Some && new->0.axis == old->0.axis
                && new->0.to - new->0.from == old->0.to - old->0.from
                && new->0.to == 0 && old->0.from == 0
            &&& toward_x != 0 && new is Some ==> new->0.axis == Axis::X && new->0.to == 0 && new->0.to - new->0.from == toward_x
            &&& toward_x != 0 && old is Some ==> old->0.axis == Axis::X && old->0.from == 0 && old->0.to - old->0.from == toward_x
            &&& toward_y != 0 && new is Some ==> new->0.axis == Axis::Y && new->0.to == 0 && new->0.to - new->0.from == toward_y
            &&& toward_y != 0 && old is Some ==> old->0.axis == Axis::Y && old->0.from == 0 && old->0.to - old->0.from == toward_y
            &&& a is FadeIn ==> old is None && new == Some(Motion { axis: Axis::Opa, from: 0, to: 255 })
            &&& a is FadeOut ==> new is None && old == Some(Motion { axis: Axis::Opa, from: 255, to: 0 })
            &&& (a is OverLeft || a is OverRight || a is OverTop || a is OverBottom) ==> new is Some && old is None
            &&& (a is OutLeft || a is OutRight || a is OutTop || a is OutBottom) ==> new is None && old is Some
        }),
{
}

} // verus!
