//! The state of a pointer device (touch panel or mouse, LVGL `lv_indev_t::pointer`) and the
//! decisions of its processing that depend on that state alone.
use vstd::prelude::*;
use crate::event::{Dir, DIR_NONE};
use crate::geom::Point;
use crate::ids::NodeId;
use crate::event::EventCode;
use crate::input::{ClickCounter, Timing, timer_deadline, StopCheck, multi_click_code, LongPress, long_press_timer, long_press_step};
use crate::scroll_drag::{ScrollLimits, VECT_HIST_SIZE, decayed, throw_decay};
use crate::scroll::{COORD_MAX, COORD_MIN};
use crate::time::Instant;

verus! {

/// Which node references a reset drops (besides the pressed node).
#[derive(Clone, Copy, Debug, PartialEq, Eq, Structural)]
pub enum Forget {
    /// Keep the last pressed and hovered nodes.
    Nothing,
    /// Drop references to this node.
    Node(NodeId),
    /// Drop every reference.
    All,
}

/// The largest movement component the throw history holds (eight of them add up within
/// `i32`).
pub const MAX_VECT: i32 = 0x0fff_ffff;

/// Whether a movement fits in the throw history.
pub open spec fn small(p: Point) -> bool {
    -MAX_VECT <= p.x <= MAX_VECT && -MAX_VECT <= p.y <= MAX_VECT
}

/// The state of one pointer.
#[derive(Clone, Copy, Debug)]
pub struct PointerProc {
    pub act_point: Point,
    pub last_point: Point,
    pub pressed: bool,
    pub act_obj: Option<NodeId>,
    pub last_obj: Option<NodeId>,
    pub hovered: Option<NodeId>,
    pub press_time: Instant,
    pub long_pr_sent: bool,
    pub longpr_rep_time: Instant,
    pub vect: Point,
    pub scroll_sum: Point,
    pub scroll_obj: Option<NodeId>,
    pub scroll_dir: Dir,
    pub scroll_throw_vect: Point,
    pub scroll_throw_vect_ori: Point,
    pub scroll_area: ScrollLimits,
    pub vect_hist: [(Point, Instant); 8],
    pub vect_hist_index: u8,
    pub gesture_sum: Point,
    pub gesture_sent: bool,
    pub gesture_dir: Option<Dir>,
    pub clicks: ClickCounter,
    pub press_started_here: bool,
    pub wait_until_release: bool,
}

/// The throw vector of a movement history at `now`: each recorded movement decayed by its
/// age in whole milliseconds, summed over the first `k` entries.
pub open spec fn hist_sum_x(h: Seq<(Point, Instant)>, now: Instant, k: int) -> int
    decreases k,
{
    if k <= 0 || k > h.len() {
        0
    } else {
        hist_sum_x(h, now, k - 1) + decayed(h[k - 1].0.x as int, (if now.us >= h[k - 1].1.us { (now.us - h[k - 1].1.us) / 1000 } else { 0 }) as int)
    }
}

/// The vertical counterpart of [`hist_sum_x`].
pub open spec fn hist_sum_y(h: Seq<(Point, Instant)>, now: Instant, k: int) -> int
    decreases k,
{
    if k <= 0 || k > h.len() {
        0
    } else {
        hist_sum_y(h, now, k - 1) + decayed(h[k - 1].0.y as int, (if now.us >= h[k - 1].1.us { (now.us - h[k - 1].1.us) / 1000 } else { 0 }) as int)
    }
}

proof fn lemma_decayed_bound(x: int, t: int)
    requires
        -MAX_VECT <= x <= MAX_VECT,
    ensures
        -MAX_VECT <= decayed(x, t) <= MAX_VECT,
{
    if 0 < t < 99 {
        let k = 512 - (512 * t) / 99;
        assert(0 < k <= 512);
        if x >= 0 {
            assert(0 <= x * k <= x * 512) by (nonlinear_arith) requires x >= 0, 0 < k <= 512;
        } else {
            assert(0 <= (-x) * k <= (-x) * 512) by (nonlinear_arith) requires x < 0, 0 < k <= 512;
            assert(x * k == -((-x) * k)) by (nonlinear_arith);
        }
    }
}

proof fn lemma_hist_bound(h: Seq<(Point, Instant)>, now: Instant, k: int)
    requires
        0 <= k <= h.len(),
        forall|i: int| 0 <= i < h.len() ==> small(#[trigger] h[i].0),
    ensures
        -k * MAX_VECT <= hist_sum_x(h, now, k) <= k * MAX_VECT,
        -k * MAX_VECT <= hist_sum_y(h, now, k) <= k * MAX_VECT,
    decreases k,
{
    if k > 0 {
        lemma_hist_bound(h, now, k - 1);
        let t = (if now.us >= h[k - 1].1.us { (now.us - h[k - 1].1.us) / 1000 } else { 0 }) as int;
        assert(small(h[k - 1].0));
        lemma_decayed_bound(h[k - 1].0.x as int, t);
        lemma_decayed_bound(h[k - 1].0.y as int, t);
    }
}

impl PointerProc {
    /// A pointer that never saw a sample.
    pub fn new() -> (p: PointerProc)
        ensures
            !p.pressed && p.act_obj is None && p.last_obj is None && p.hovered is None && p.scroll_obj is None,
            p.scroll_dir.bits == DIR_NONE && !p.long_pr_sent && !p.gesture_sent && p.gesture_dir is None,
            !p.wait_until_release && !p.press_started_here && p.vect_hist_index == 0,
            forall|i: int| 0 <= i < 8 ==> small(#[trigger] p.vect_hist@[i].0),
            p.scroll_area == (ScrollLimits { x1: COORD_MIN, y1: COORD_MIN, x2: COORD_MAX, y2: COORD_MAX }),
    {
        let z = Point { x: 0, y: 0 };
        let t0 = Instant { us: 0 };
        PointerProc {
            act_point: z,
            last_point: z,
            pressed: false,
            act_obj: None,
            last_obj: None,
            hovered: None,
            press_time: t0,
            long_pr_sent: false,
            longpr_rep_time: t0,
            vect: z,
            scroll_sum: z,
            scroll_obj: None,
            scroll_dir: Dir { bits: DIR_NONE },
            scroll_throw_vect: z,
            scroll_throw_vect_ori: z,
            scroll_area: ScrollLimits::none(),
            vect_hist: [(z, t0); 8],
            vect_hist_index: 0,
            gesture_sum: z,
            gesture_sent: false,
            gesture_dir: None,
            clicks: ClickCounter { count: 0, last_time: None, last_point: z },
            press_started_here: false,
            wait_until_release: false,
        }
    }

    /// LVGL `indev_proc_reset_query_handler`: forgets the pressed node, a long press, the
    /// scroll and the gesture sum; drops the last pressed and hovered nodes per `forget`.
    pub fn reset(&mut self, forget: Forget)
        ensures
            final(self).act_obj is None && !final(self).long_pr_sent && final(self).scroll_obj is None,
            final(self).scroll_sum == (Point { x: 0, y: 0 }) && final(self).scroll_throw_vect == (Point { x: 0, y: 0 }),
            final(self).gesture_sum == (Point { x: 0, y: 0 }) && final(self).scroll_dir.bits == DIR_NONE,
            final(self).last_obj == (match forget {
                Forget::Nothing => old(self).last_obj,
                Forget::All => None,
                Forget::Node(n) => if old(self).last_obj == Some(n) { None } else { old(self).last_obj },
            }),
            final(self).hovered == (match forget {
                Forget::Nothing => old(self).hovered,
                Forget::All => None,
                Forget::Node(n) => if old(self).hovered == Some(n) { None } else { old(self).hovered },
            }),
            *final(self) == (PointerProc { act_obj: final(self).act_obj, long_pr_sent: false, scroll_sum: final(self).scroll_sum,
                scroll_obj: None, scroll_dir: final(self).scroll_dir, scroll_throw_vect: final(self).scroll_throw_vect,
                gesture_sum: final(self).gesture_sum, last_obj: final(self).last_obj, hovered: final(self).hovered, ..*old(self) }),
    {
        let z = Point { x: 0, y: 0 };
        self.act_obj = None;
        self.long_pr_sent = false;
        self.scroll_sum = z;
        self.scroll_obj = None;
        self.scroll_dir = Dir { bits: DIR_NONE };
        self.scroll_throw_vect = z;
        self.gesture_sum = z;
        match forget {
            Forget::Nothing => {},
            Forget::All => {
                self.last_obj = None;
                self.hovered = None;
            },
            Forget::Node(n) => {
                if Self::same(self.last_obj, n) {
                    self.last_obj = None;
                }
                if Self::same(self.hovered, n) {
                    self.hovered = None;
                }
            },
        }
    }

    fn same(a: Option<NodeId>, b: NodeId) -> (r: bool)
        ensures
            r == (a == Some(b)),
    {
        match a {
            Some(x) => x.slot == b.slot && x.gen == b.gen,
            None => false,
        }
    }

    /// The next long press (repeat) instant while a node is pressed (not while scrolling).
    pub fn deadline(&self, t: &Timing) -> (r: Option<Instant>)
        ensures
            r == (if self.act_obj is None || self.scroll_obj is Some { None } else {
                timer_deadline(self.pressed, self.wait_until_release, self.long_pr_sent, self.press_time, self.longpr_rep_time, *t)
            }),
    {
        if !self.pressed || self.act_obj.is_none() || self.scroll_obj.is_some() || self.wait_until_release {
            return None;
        }
        Some(if self.long_pr_sent {
            self.longpr_rep_time.add(t.long_press_repeat)
        } else {
            self.press_time.add(t.long_press)
        })
    }

    /// Forgets nodes that were deleted (`*_alive`: whether each referenced node still
    /// exists). A deleted pressed node resets the pointer, which then waits for the release
    /// if it is pressed.
    pub fn drop_dead(&mut self, act_alive: bool, last_alive: bool, hovered_alive: bool, scroll_alive: bool)
        ensures
            ({
                let o = *old(self);
                let dead_act = o.act_obj is Some && !act_alive;
                let f = *final(self);
                &&& dead_act ==> f.act_obj is None && !f.long_pr_sent && f.scroll_sum == (Point { x: 0, y: 0 })
                    && f.gesture_sum == (Point { x: 0, y: 0 }) && f.scroll_obj is None
                    && f.scroll_dir.bits == DIR_NONE && f.scroll_throw_vect == (Point { x: 0, y: 0 })
                    && f.wait_until_release == (o.wait_until_release || o.pressed)
                &&& !dead_act ==> f.act_obj == o.act_obj && f.long_pr_sent == o.long_pr_sent && f.scroll_sum == o.scroll_sum
                    && f.gesture_sum == o.gesture_sum && f.wait_until_release == o.wait_until_release
                    && (if o.scroll_obj is Some && !scroll_alive {
                        f.scroll_obj is None && f.scroll_dir.bits == DIR_NONE && f.scroll_throw_vect == (Point { x: 0, y: 0 })
                    } else {
                        f.scroll_obj == o.scroll_obj && f.scroll_dir == o.scroll_dir && f.scroll_throw_vect == o.scroll_throw_vect
                    })
                &&& f.last_obj == (if last_alive { o.last_obj } else { None })
                &&& f.hovered == (if hovered_alive { o.hovered } else { None })
                &&& f.vect_hist == o.vect_hist && f.pressed == o.pressed && f.clicks == o.clicks
            }),
    {
        if self.act_obj.is_some() && !act_alive {
            self.reset(Forget::Nothing);
            if self.pressed {
                self.wait_until_release = true;
            }
        }
        if !last_alive {
            self.last_obj = None;
        }
        if !hovered_alive {
            self.hovered = None;
        }
        if self.scroll_obj.is_some() && !scroll_alive {
            self.scroll_obj = None;
            self.scroll_dir = Dir { bits: DIR_NONE };
            self.scroll_throw_vect = Point { x: 0, y: 0 };
        }
    }

    /// The start of a press on a new node `found` (LVGL `indev_proc_press`): the long press,
    /// the scroll sum, the gesture and the movement history start again at `now`.
    pub fn begin_press(&mut self, found: NodeId, now: Instant)
        ensures
            *final(self) == (PointerProc {
                act_obj: Some(found),
                press_time: now,
                long_pr_sent: false,
                scroll_sum: Point { x: 0, y: 0 },
                scroll_obj: None,
                scroll_dir: Dir { bits: DIR_NONE },
                gesture_dir: None,
                gesture_sent: false,
                gesture_sum: Point { x: 0, y: 0 },
                vect: Point { x: 0, y: 0 },
                vect_hist: vstd::array::spec_array_fill_for_copy_type::<(Point, Instant), 8>((Point { x: 0, y: 0 }, now)),
                ..*old(self)
            }),
            forall|i: int| 0 <= i < 8 ==> #[trigger] final(self).vect_hist@[i] == (Point { x: 0, y: 0 }, now),
    {
        let z = Point { x: 0, y: 0 };
        self.act_obj = Some(found);
        self.press_time = now;
        self.long_pr_sent = false;
        self.scroll_sum = z;
        self.scroll_obj = None;
        self.scroll_dir = Dir { bits: DIR_NONE };
        self.gesture_dir = None;
        self.gesture_sent = false;
        self.gesture_sum = z;
        self.vect = z;
        self.vect_hist = [(z, now); 8];
    }

    /// Records the movement of this read and recomputes the throw vector: the sum of the
    /// last [`VECT_HIST_SIZE`] movements, each decayed by its age.
    pub fn record_vect(&mut self, now: Instant)
        requires
            small(old(self).vect),
            forall|i: int| 0 <= i < 8 ==> small(#[trigger] old(self).vect_hist@[i].0),
        ensures
            ({
                let i = (old(self).vect_hist_index % 8) as int;
                let h = old(self).vect_hist@.update(i, (old(self).vect, now));
                &&& final(self).vect_hist@ == h
                &&& final(self).vect_hist_index == ((i + 1) % 8) as u8
                &&& final(self).scroll_throw_vect.x == hist_sum_x(h, now, 8)
                &&& final(self).scroll_throw_vect.y == hist_sum_y(h, now, 8)
                &&& final(self).scroll_throw_vect_ori == final(self).scroll_throw_vect
                &&& *final(self) == (PointerProc { vect_hist: final(self).vect_hist, vect_hist_index: final(self).vect_hist_index,
                    scroll_throw_vect: final(self).scroll_throw_vect, scroll_throw_vect_ori: final(self).scroll_throw_vect_ori, ..*old(self) })
            }),
            forall|i: int| 0 <= i < 8 ==> small(#[trigger] final(self).vect_hist@[i].0),
    {
        let i = (self.vect_hist_index % 8) as usize;
        let v = self.vect;
        self.vect_hist[i] = (v, now);
        self.vect_hist_index = ((i + 1) % 8) as u8;
        let ghost h = self.vect_hist@;
        proof {
            assert(h == old(self).vect_hist@.update(i as int, (old(self).vect, now)));
            assert forall|k: int| 0 <= k < 8 implies small(#[trigger] h[k].0) by {
                if k != i {
                    assert(h[k] == old(self).vect_hist@[k]);
                }
            }
        }
        let mut sx: i32 = 0;
        let mut sy: i32 = 0;
        let mut k: usize = 0;
        while k < 8
            invariant
                k <= 8,
                self.vect_hist@ == h,
                h.len() == 8,
                forall|j: int| 0 <= j < 8 ==> small(#[trigger] h[j].0),
                sx == hist_sum_x(h, now, k as int),
                sy == hist_sum_y(h, now, k as int),
            decreases 8 - k,
        {
            let (p, at) = self.vect_hist[k];
            let t = now.saturating_duration_since(at).as_millis() as i64;
            proof {
                lemma_hist_bound(h, now, (k + 1) as int);
                assert(small(h[k as int].0));
            }
            sx = sx + throw_decay(p.x, t);
            sy = sy + throw_decay(p.y, t);
            k = k + 1;
        }
        self.scroll_throw_vect = Point { x: sx, y: sy };
        self.scroll_throw_vect_ori = Point { x: sx, y: sy };
    }
}

/// One thing the pointer processing asks to be done.
#[derive(Clone, Copy, Debug, PartialEq, Eq, Structural)]
pub enum PtrAction {
    /// Send the event to the node.
    Send(EventCode, NodeId),
    /// Send the event to the node if it still exists.
    SendIfAlive(EventCode, NodeId),
    /// Forget the scrolled node (also in the engine's record of scrolls).
    ClearScroll,
    /// Run the click focus of the node (see [`click_focus_steps`]).
    ClickFocus(NodeId),
}

/// A step of a pointer plan.
#[derive(Clone, Copy, Debug)]
pub struct PtrStep {
    pub action: PtrAction,
    /// `Node`: the processing ends when the step's node is gone or a reset is pending;
    /// `Reset`: when a reset is pending.
    pub check: StopCheck,
    /// The pointer's state when this step ends the processing.
    pub on_stop: PointerProc,
}

/// A pointer step.
pub open spec fn pstep(a: PtrAction, c: StopCheck, s: PointerProc) -> PtrStep {
    PtrStep { action: a, check: c, on_stop: s }
}

impl PointerProc {
    /// The hover part of a release read (LVGL `indev_proc_release`), with `under` the node
    /// under the released pointer: when it changed, `HoverOver` to the new one and
    /// `HoverLeave` to the old one (if it still exists); then, when the pointer waited for
    /// its release, `PressLost` to the pressed node, which is forgotten.
    pub open spec fn hover_model(self, under: Option<NodeId>) -> (PointerProc, Seq<PtrStep>) {
        let (s1, hover) = if under != self.hovered {
            let s1 = PointerProc { hovered: under, ..self };
            let over: Seq<PtrStep> = match under {
                Some(h) => seq![pstep(PtrAction::Send(EventCode::HoverOver, h), StopCheck::Reset, s1)],
                None => Seq::empty(),
            };
            let leave: Seq<PtrStep> = match self.hovered {
                Some(o) => seq![pstep(PtrAction::SendIfAlive(EventCode::HoverLeave, o), StopCheck::Reset, s1)],
                None => Seq::empty(),
            };
            (s1, over + leave)
        } else {
            (self, Seq::empty())
        };
        if s1.wait_until_release {
            let s2 = PointerProc { act_obj: None, wait_until_release: false, long_pr_sent: false, ..s1 };
            match s1.act_obj {
                Some(a) => (s2, hover.push(pstep(PtrAction::Send(EventCode::PressLost, a), StopCheck::Reset, s2))),
                None => (s2, hover),
            }
        } else {
            (s1, hover)
        }
    }

    /// The hover part of a release read (see [`PointerProc::hover_model`]).
    pub fn release_hover(&self, under: Option<NodeId>) -> (r: (PointerProc, Vec<PtrStep>))
        ensures
            r.0 == self.hover_model(under).0,
            r.1@ == self.hover_model(under).1,
    {
        let mut steps: Vec<PtrStep> = Vec::new();
        let mut s = *self;
        let changed = match (under, self.hovered) {
            (Some(a), Some(b)) => !(a.slot == b.slot && a.gen == b.gen),
            (None, None) => false,
            _ => true,
        };
        if changed {
            s.hovered = under;
            match under {
                Some(h) => steps.push(PtrStep { action: PtrAction::Send(EventCode::HoverOver, h), check: StopCheck::Reset, on_stop: s }),
                None => {},
            }
            match self.hovered {
                Some(o) => steps.push(PtrStep { action: PtrAction::SendIfAlive(EventCode::HoverLeave, o), check: StopCheck::Reset, on_stop: s }),
                None => {},
            }
        }
        if s.wait_until_release {
            let a = s.act_obj;
            s.act_obj = None;
            s.wait_until_release = false;
            s.long_pr_sent = false;
            match a {
                Some(x) => steps.push(PtrStep { action: PtrAction::Send(EventCode::PressLost, x), check: StopCheck::Reset, on_stop: s }),
                None => {},
            }
        }
        proof {
            assert(steps@ =~= self.hover_model(under).1);
        }
        (s, steps)
    }

    /// The main part of a release read (LVGL `indev_proc_release`), `enabled`: the pressed
    /// node is not disabled. Without a pressed node nothing is sent (a throw in progress goes
    /// on: the third result). Else an enabled node gets `Released`, then, when the press
    /// started on it and did not scroll, `ShortClicked` + multi-click (unless long pressed)
    /// and `Clicked`; a scrolled node gets `ScrollThrowBegin`. The pressed node and the long
    /// press are forgotten; a step that ends the processing forgets the pressed node only.
    pub open spec fn release_model(self, now: Instant, t: Timing, enabled: bool) -> (PointerProc, Seq<PtrStep>, bool) {
        match self.act_obj {
            None => (self, Seq::empty(), self.scroll_obj is Some),
            Some(obj) => {
                let fail = PointerProc { act_obj: None, ..self };
                let done = PointerProc { act_obj: None, long_pr_sent: false, ..self };
                if !enabled {
                    (done, Seq::empty(), false)
                } else {
                    let rel = pstep(PtrAction::Send(EventCode::Released, obj), StopCheck::Node, fail);
                    match self.scroll_obj {
                        None => if self.press_started_here {
                            if !self.long_pr_sent {
                                let c = self.clicks.after_click(now, Some(self.act_point), t);
                                let fail2 = PointerProc { clicks: c, ..fail };
                                let done2 = PointerProc { clicks: c, ..done };
                                (done2, seq![rel,
                                    pstep(PtrAction::Send(EventCode::ShortClicked, obj), StopCheck::Node, fail2),
                                    pstep(PtrAction::Send(multi_click_code(c.count), obj), StopCheck::Node, fail2),
                                    pstep(PtrAction::Send(EventCode::Clicked, obj), StopCheck::Node, fail2)], false)
                            } else {
                                (done, seq![rel, pstep(PtrAction::Send(EventCode::Clicked, obj), StopCheck::Node, fail)], false)
                            }
                        } else {
                            (done, seq![rel], false)
                        },
                        Some(sc) => (done, seq![rel, pstep(PtrAction::Send(EventCode::ScrollThrowBegin, sc), StopCheck::Reset, fail)], false),
                    }
                }
            },
        }
    }

    /// The main part of a release read (see [`PointerProc::release_model`]).
    pub fn release_main(&self, now: Instant, t: &Timing, enabled: bool) -> (r: (PointerProc, Vec<PtrStep>, bool))
        ensures
            r.0 == self.release_model(now, *t, enabled).0,
            r.1@ == self.release_model(now, *t, enabled).1,
            r.2 == self.release_model(now, *t, enabled).2,
    {
        let mut steps: Vec<PtrStep> = Vec::new();
        let obj = match self.act_obj {
            None => {
                return (*self, steps, self.scroll_obj.is_some());
            },
            Some(o) => o,
        };
        let fail = PointerProc { act_obj: None, ..*self };
        let done = PointerProc { act_obj: None, long_pr_sent: false, ..*self };
        if !enabled {
            return (done, steps, false);
        }
        steps.push(PtrStep { action: PtrAction::Send(EventCode::Released, obj), check: StopCheck::Node, on_stop: fail });
        match self.scroll_obj {
            None => if self.press_started_here {
                if !self.long_pr_sent {
                    let mut c = self.clicks;
                    let multi = c.click(now, Some(self.act_point), t);
                    let fail2 = PointerProc { clicks: c, ..fail };
                    let done2 = PointerProc { clicks: c, ..done };
                    steps.push(PtrStep { action: PtrAction::Send(EventCode::ShortClicked, obj), check: StopCheck::Node, on_stop: fail2 });
                    steps.push(PtrStep { action: PtrAction::Send(multi, obj), check: StopCheck::Node, on_stop: fail2 });
                    steps.push(PtrStep { action: PtrAction::Send(EventCode::Clicked, obj), check: StopCheck::Node, on_stop: fail2 });
                    proof { assert(steps@ =~= self.release_model(now, *t, enabled).1); }
                    (done2, steps, false)
                } else {
                    steps.push(PtrStep { action: PtrAction::Send(EventCode::Clicked, obj), check: StopCheck::Node, on_stop: fail });
                    proof { assert(steps@ =~= self.release_model(now, *t, enabled).1); }
                    (done, steps, false)
                }
            } else {
                proof { assert(steps@ =~= self.release_model(now, *t, enabled).1); }
                (done, steps, false)
            },
            Some(sc) => {
                steps.push(PtrStep { action: PtrAction::Send(EventCode::ScrollThrowBegin, sc), check: StopCheck::Reset, on_stop: fail });
                proof { assert(steps@ =~= self.release_model(now, *t, enabled).1); }
                (done, steps, false)
            },
        }
    }

    /// The long-press part of a press read (LVGL `indev_proc_press`, while the press is not
    /// scrolling): `LongPressed` once after the long press time, then `LongPressedRepeat`
    /// every repeat period, to an enabled pressed node.
    pub fn long_press(&mut self, now: Instant, t: &Timing, enabled: bool) -> (r: Option<EventCode>)
        ensures
            ({
                let (fired, sent, rep) = long_press_timer(old(self).long_pr_sent, old(self).press_time, old(self).longpr_rep_time, now, *t);
                &&& *final(self) == (PointerProc { long_pr_sent: sent, longpr_rep_time: rep, ..*old(self) })
                &&& r == (if !enabled { None } else {
                    match fired {
                        LongPress::First => Some(EventCode::LongPressed),
                        LongPress::Repeat => Some(EventCode::LongPressedRepeat),
                        LongPress::Nothing => None,
                    }
                })
            }),
    {
        let (fired, sent, rep) = long_press_step(self.long_pr_sent, self.press_time, self.longpr_rep_time, now, t);
        self.long_pr_sent = sent;
        self.longpr_rep_time = rep;
        if !enabled {
            return None;
        }
        match fired {
            LongPress::First => Some(EventCode::LongPressed),
            LongPress::Repeat => Some(EventCode::LongPressedRepeat),
            LongPress::Nothing => None,
        }
    }
}

impl PointerProc {
    /// The switch of a press to the node `found` under the pointer when it differs from the
    /// pressed node (LVGL `indev_proc_press`); `enabled`: `found` is not disabled. A hovered
    /// node other than `found` gets `HoverLeave`, the pressed node `PressLost`; then `found`
    /// becomes the pressed node and its press starts (see [`PointerProc::begin_press`]):
    /// the scroll is forgotten, a new press (not a drag onto it) sends `Pressed` to an
    /// enabled node, and the click focus runs.
    pub open spec fn switch_model(self, found: Option<NodeId>, now: Instant, enabled: bool) -> (PointerProc, Seq<PtrStep>) {
        let (s2, ab) = self.leave_model(found);
        match found {
            None => (s2, ab),
            Some(obj) => {
                let z = Point { x: 0, y: 0 };
                let s3 = PointerProc { act_obj: Some(obj), press_time: now, long_pr_sent: false, scroll_sum: z,
                    scroll_obj: None, scroll_dir: Dir { bits: DIR_NONE }, gesture_dir: None, gesture_sent: false,
                    gesture_sum: z, vect: z, vect_hist: vstd::array::spec_array_fill_for_copy_type::<(Point, Instant), 8>((z, now)), ..s2 };
                let c: Seq<PtrStep> = seq![pstep(PtrAction::ClearScroll, StopCheck::Never, s3)];
                let d: Seq<PtrStep> = if !self.pressed && enabled {
                    seq![pstep(PtrAction::Send(EventCode::Pressed, obj), StopCheck::Node, s3)]
                } else {
                    Seq::empty()
                };
                (s3, ab + c + d + seq![pstep(PtrAction::ClickFocus(obj), StopCheck::Node, s3)])
            },
        }
    }

    /// The first part of a press switch: the hovered node other than `found` gets
    /// `HoverLeave` and the pressed node `PressLost`; both are forgotten.
    pub open spec fn leave_model(self, found: Option<NodeId>) -> (PointerProc, Seq<PtrStep>) {
        let s0 = PointerProc {
            last_point: if self.act_obj is None { self.act_point } else { self.last_point },
            press_started_here: !self.pressed,
            ..self
        };
        let h_leave = match s0.hovered { Some(h) => found != Some(h), None => false };
        let s1 = if h_leave { PointerProc { hovered: None, ..s0 } } else { s0 };
        let a: Seq<PtrStep> = if h_leave { seq![pstep(PtrAction::Send(EventCode::HoverLeave, s0.hovered->0), StopCheck::Reset, s1)] } else { Seq::empty() };
        let s2 = PointerProc { act_obj: None, ..s1 };
        let b: Seq<PtrStep> = match s1.act_obj {
            Some(old) => seq![pstep(PtrAction::Send(EventCode::PressLost, old), StopCheck::Reset, s2)],
            None => Seq::empty(),
        };
        (s2, a + b)
    }

    /// The first part of a press switch (see [`PointerProc::leave_model`]).
    fn switch_leave(&self, found: Option<NodeId>, steps: &mut Vec<PtrStep>) -> (r: PointerProc)
        ensures
            r == self.leave_model(found).0,
            final(steps)@ == old(steps)@ + self.leave_model(found).1,
    {
        let ghost st0 = steps@;
        let mut s = *self;
        if s.act_obj.is_none() {
            s.last_point = s.act_point;
        }
        s.press_started_here = !s.pressed;
        match s.hovered {
            Some(h) => {
                let other = match found {
                    Some(f) => !(f.slot == h.slot && f.gen == h.gen),
                    None => true,
                };
                if other {
                    s.hovered = None;
                    steps.push(PtrStep { action: PtrAction::Send(EventCode::HoverLeave, h), check: StopCheck::Reset, on_stop: s });
                }
            },
            None => {},
        }
        let old_act = s.act_obj;
        s.act_obj = None;
        match old_act {
            Some(old) => {
                steps.push(PtrStep { action: PtrAction::Send(EventCode::PressLost, old), check: StopCheck::Reset, on_stop: s });
            },
            None => {},
        }
        proof { assert(steps@ =~= st0 + self.leave_model(found).1); }
        s
    }

    /// The switch of a press to a new node (see [`PointerProc::switch_model`]).
    pub fn switch_press(&self, found: Option<NodeId>, now: Instant, enabled: bool) -> (r: (PointerProc, Vec<PtrStep>))
        ensures
            r.0 == self.switch_model(found, now, enabled).0,
            r.1@ == self.switch_model(found, now, enabled).1,
    {
        let mut steps: Vec<PtrStep> = Vec::new();
        let mut s = self.switch_leave(found, &mut steps);
        proof { assert(steps@ =~= self.leave_model(found).1); }
        match found {
            None => (s, steps),
            Some(obj) => {
                let ghost ab = steps@;
                s.begin_press(obj, now);
                steps.push(PtrStep { action: PtrAction::ClearScroll, check: StopCheck::Never, on_stop: s });
                if !self.pressed && enabled {
                    steps.push(PtrStep { action: PtrAction::Send(EventCode::Pressed, obj), check: StopCheck::Node, on_stop: s });
                }
                steps.push(PtrStep { action: PtrAction::ClickFocus(obj), check: StopCheck::Node, on_stop: s });
                proof { assert(steps@ =~= self.switch_model(found, now, enabled).1); }
                (s, steps)
            },
        }
    }
}

/// How a press read finds its node (LVGL `indev_proc_press`).
#[derive(Clone, Copy, Debug, PartialEq, Eq, Structural)]
pub enum PressStart {
    /// Keep the pressed node: it holds the press (`PRESS_LOCK`) or is being scrolled.
    Keep(NodeId),
    /// Look for the node under the point; `stop_throw`: a throw still goes on, and a new
    /// press stops it (its speed drops to zero and it ends at once).
    Search { stop_throw: bool },
}

impl PointerProc {
    /// How a press read finds its node, `press_lock`: the pressed node has `PRESS_LOCK`.
    pub fn press_start(&self, press_lock: bool) -> (r: PressStart)
        ensures
            r == (match self.act_obj {
                Some(a) if self.scroll_obj is Some || press_lock => PressStart::Keep(a),
                _ => PressStart::Search { stop_throw: self.scroll_obj is Some },
            }),
    {
        match self.act_obj {
            Some(a) => if self.scroll_obj.is_some() || press_lock {
                return PressStart::Keep(a);
            },
            None => {},
        }
        PressStart::Search { stop_throw: self.scroll_obj.is_some() }
    }
}

/// The parts of a press read once the pressed node is settled and the movement recorded
/// (LVGL `indev_proc_press`).
#[derive(Clone, Copy, Debug, PartialEq, Eq, Structural)]
pub enum PressStage {
    /// Send `Pressing` to the pressed node.
    Pressing,
    /// Stop the scroll animations of the scrolled node and scroll by the movement.
    Scroll,
    /// Detect a gesture.
    Gesture,
    /// Send the long press events that are due.
    LongPress,
    /// The read is done.
    End,
}

/// What the engine reports before the first part of a press read and after each one.
#[derive(Clone, Copy, Debug, PartialEq, Eq, Structural)]
pub struct PressSeen {
    /// The part just run lets the processing go on (no pending reset, node still there).
    pub go_on: bool,
    /// The pointer waits for its release.
    pub waiting: bool,
    /// A node is being scrolled.
    pub scrolling: bool,
    /// The pressed node exists (before the first part: there is a pressed node).
    pub alive: bool,
    /// The pressed node is not disabled.
    pub enabled: bool,
}

/// The part of a press read that follows `done` (`None`: before the first): `Pressing`
/// to an enabled pressed node; then, unless the pointer waits for its release, the scroll;
/// a gesture only while nothing scrolls; the long press only while nothing scrolls and the
/// node exists. A part that stops the processing ends the read.
pub open spec fn press_next_model(done: Option<PressStage>, seen: PressSeen) -> PressStage {
    match done {
        None => if !seen.alive {
            PressStage::End
        } else if seen.enabled {
            PressStage::Pressing
        } else if seen.waiting {
            PressStage::End
        } else {
            PressStage::Scroll
        },
        Some(PressStage::Pressing) => if !seen.go_on || seen.waiting { PressStage::End } else { PressStage::Scroll },
        Some(PressStage::Scroll) => if !seen.go_on {
            PressStage::End
        } else if !seen.scrolling {
            PressStage::Gesture
        } else {
            PressStage::End
        },
        Some(PressStage::Gesture) => if !seen.go_on || seen.scrolling || !seen.alive { PressStage::End } else { PressStage::LongPress },
        Some(_) => PressStage::End,
    }
}

/// The part of a press read that follows (see [`press_next_model`]).
pub fn press_next(done: Option<PressStage>, seen: PressSeen) -> (r: PressStage)
    ensures
        r == press_next_model(done, seen),
{
    match done {
        None => if !seen.alive {
            PressStage::End
        } else if seen.enabled {
            PressStage::Pressing
        } else if seen.waiting {
            PressStage::End
        } else {
            PressStage::Scroll
        },
        Some(PressStage::Pressing) => if !seen.go_on || seen.waiting { PressStage::End } else { PressStage::Scroll },
        Some(PressStage::Scroll) => if !seen.go_on {
            PressStage::End
        } else if !seen.scrolling {
            PressStage::Gesture
        } else {
            PressStage::End
        },
        Some(PressStage::Gesture) => if !seen.go_on || seen.scrolling || !seen.alive { PressStage::End } else { PressStage::LongPress },
        Some(_) => PressStage::End,
    }
}

/// LVGL `indev_click_focus` for a pressed `CLICK_FOCUSABLE`, enabled node `obj`: `g_act` /
/// `g_prev` = the groups of `obj` and of the previously pressed node `last` (if it still
/// exists). In one group `obj` takes the group focus; without groups `last` gets `Defocused`
/// and `obj` `Focused`; across groups `last` gets `Defocused` (it had no group) or `Leave`,
/// then `obj` takes the focus of its group or gets `Focused`.
#[derive(Clone, Copy, Debug, PartialEq, Eq, Structural)]
pub enum FocusStep {
    /// Focus the node in its group.
    Focus(NodeId),
    /// Send the event to the node; the processing ends when `obj` is gone or a reset is
    /// pending (when the flag is set).
    Send(EventCode, NodeId, bool),
}

/// The steps of a click focus (see [`FocusStep`]).
pub open spec fn click_focus_model(obj: NodeId, last: Option<NodeId>, g_act: Option<u8>, g_prev: Option<u8>) -> Seq<FocusStep> {
    if g_act == g_prev {
        if g_act is Some {
            seq![FocusStep::Focus(obj)]
        } else if last != Some(obj) {
            match last {
                Some(l) => seq![FocusStep::Send(EventCode::Defocused, l, true), FocusStep::Send(EventCode::Focused, obj, false)],
                None => seq![FocusStep::Send(EventCode::Focused, obj, false)],
            }
        } else {
            Seq::empty()
        }
    } else {
        let first: Seq<FocusStep> = match last {
            Some(l) => seq![FocusStep::Send(if g_prev is None { EventCode::Defocused } else { EventCode::Leave }, l, true)],
            None => Seq::empty(),
        };
        first.push(if g_act is Some { FocusStep::Focus(obj) } else { FocusStep::Send(EventCode::Focused, obj, false) })
    }
}

/// The steps of a click focus (see [`click_focus_model`]); groups are given by index.
pub fn click_focus_steps(obj: NodeId, last: Option<NodeId>, g_act: Option<u8>, g_prev: Option<u8>) -> (r: Vec<FocusStep>)
    ensures
        r@ == click_focus_model(obj, last, g_act, g_prev),
{
    let mut out: Vec<FocusStep> = Vec::new();
    let same_group = match (g_act, g_prev) {
        (Some(a), Some(b)) => a == b,
        (None, None) => true,
        _ => false,
    };
    if same_group {
        if g_act.is_some() {
            out.push(FocusStep::Focus(obj));
        } else {
            let same_node = match last {
                Some(l) => l.slot == obj.slot && l.gen == obj.gen,
                None => false,
            };
            if !same_node {
                match last {
                    Some(l) => out.push(FocusStep::Send(EventCode::Defocused, l, true)),
                    None => {},
                }
                out.push(FocusStep::Send(EventCode::Focused, obj, false));
            }
        }
    } else {
        match last {
            Some(l) => out.push(FocusStep::Send(if g_prev.is_none() { EventCode::Defocused } else { EventCode::Leave }, l, true)),
            None => {},
        }
        if g_act.is_some() {
            out.push(FocusStep::Focus(obj));
        } else {
            out.push(FocusStep::Send(EventCode::Focused, obj, false));
        }
    }
    proof {
        assert(out@ =~= click_focus_model(obj, last, g_act, g_prev));
    }
    out
}

} // verus!
