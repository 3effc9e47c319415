//! Input processing decisions (LVGL `lv_indev`): the click counter, the long-press timer and
//! the keypad and encoder processors.
//!
//! A processor turns one device sample into a *plan*: its next state and the steps (events
//! to send, focus moves, edit mode changes) to perform in order. Performing a step may run
//! event handlers that delete the focused node or reset the device; a step marked with a
//! [`StopCheck`] ends the processing when that happened, and the processor then keeps the
//! state the step carries instead of the planned one.
use vstd::prelude::*;
use crate::event::{EventCode, Key};
use crate::geom::Point;
use crate::time::{Duration, Instant};

verus! {

/// The timing configuration the processors use.
#[derive(Clone, Copy, Debug, PartialEq, Eq, Structural)]
pub struct Timing {
    pub long_press: Duration,
    pub long_press_repeat: Duration,
    pub multi_click: Duration,
    pub multi_click_distance: i32,
    pub scroll_limit: i32,
    pub scroll_throw: u8,
    pub gesture_limit: i32,
    pub gesture_min_velocity: i32,
}

/// The time from `a` to `b`, zero when `a` is later.
pub open spec fn elapsed(b: Instant, a: Instant) -> int {
    if b.us >= a.us { b.us - a.us } else { 0 }
}

/// Counts short clicks into single / double / triple clicks (LVGL `indev_proc_short_click`).
#[derive(Clone, Copy, Debug, PartialEq, Eq, Structural, Default)]
pub struct ClickCounter {
    pub count: u8,
    pub last_time: Option<Instant>,
    pub last_point: Point,
}

/// The multi-click event of the `n`-th click of a series (`n` counted modulo 256).
pub open spec fn multi_click_code(n: u8) -> EventCode {
    let k = ((n as int + 255) % 256) % 3;
    if k == 0 { EventCode::SingleClicked } else if k == 1 { EventCode::DoubleClicked } else { EventCode::TripleClicked }
}

/// Whether a click at `p` is too far from the previous click at `q` to continue a series.
pub open spec fn too_far(q: Point, p: Point, d: i32) -> bool {
    (q.x - p.x) * (q.x - p.x) + (q.y - p.y) * (q.y - p.y) > d * d
}

impl ClickCounter {
    /// The counter after a short click at `now` (at `point` for pointers).
    pub open spec fn after_click(self, now: Instant, point: Option<Point>, t: Timing) -> ClickCounter {
        let in_time = match self.last_time {
            Some(l) => elapsed(now, l) <= t.multi_click.us,
            None => false,
        };
        let count = if !in_time {
            1u8
        } else {
            match point {
                Some(p) => if too_far(self.last_point, p, t.multi_click_distance) { 1u8 } else { ((self.count + 1) % 256) as u8 },
                None => ((self.count + 1) % 256) as u8,
            }
        };
        ClickCounter {
            count,
            last_time: Some(now),
            last_point: match point { Some(p) => p, None => self.last_point },
        }
    }

    /// Registers a short click at `now` (at `point` for pointers) and returns which multi-click
    /// event it is: clicks within the multi-click time (and distance, for pointers) of the
    /// previous one continue the series.
    pub fn click(&mut self, now: Instant, point: Option<Point>, t: &Timing) -> (code: EventCode)
        ensures
            *final(self) == old(self).after_click(now, point, *t),
            code == multi_click_code(final(self).count),
    {
        let mut count = self.count.wrapping_add(1);
        let in_time = match self.last_time {
            Some(l) => now.saturating_duration_since(l).us <= t.multi_click.us,
            None => false,
        };
        if !in_time {
            count = 1;
        } else {
            match point {
                Some(p) => {
                    let dx: i128 = self.last_point.x as i128 - p.x as i128;
                    let dy: i128 = self.last_point.y as i128 - p.y as i128;
                    let d: i128 = t.multi_click_distance as i128;
                    assert(0 <= dx * dx <= 0x1_0000_0000_0000_0000) by (nonlinear_arith)
                        requires -0x1_0000_0000 <= dx <= 0x1_0000_0000;
                    assert(0 <= dy * dy <= 0x1_0000_0000_0000_0000) by (nonlinear_arith)
                        requires -0x1_0000_0000 <= dy <= 0x1_0000_0000;
                    assert(0 <= d * d <= 0x1_0000_0000_0000_0000) by (nonlinear_arith)
                        requires -0x1_0000_0000 <= d <= 0x1_0000_0000;
                    if dx * dx + dy * dy > d * d {
                        count = 1;
                    }
                },
                None => {},
            }
        }
        self.count = count;
        self.last_time = Some(now);
        match point {
            Some(p) => {
                self.last_point = p;
            },
            None => {},
        }
        let k = count.wrapping_sub(1) % 3;
        if k == 0 {
            EventCode::SingleClicked
        } else if k == 1 {
            EventCode::DoubleClicked
        } else {
            EventCode::TripleClicked
        }
    }
}

/// The multi-click event that follows `c` in a series: single, double, triple, then single
/// again.
pub open spec fn next_in_series(c: EventCode) -> EventCode {
    match c {
        EventCode::SingleClicked => EventCode::DoubleClicked,
        EventCode::DoubleClicked => EventCode::TripleClicked,
        _ => EventCode::SingleClicked,
    }
}

/// Clicks in a series cycle through single, double and triple clicks: a click within the
/// multi-click time (and distance) of the previous one reports the event after the previous
/// one's, and a click after a pause starts over with a single click. (The count wraps at
/// 256 clicks, so the cycle holds for the first 255 clicks of a series.)
pub proof fn lemma_click_series(c: ClickCounter, now: Instant, point: Option<Point>, t: Timing)
    requires
        1 <= c.count <= 254,
    ensures
        ({
            let a = c.after_click(now, point, t);
            let in_time = match c.last_time { Some(l) => elapsed(now, l) <= t.multi_click.us, None => false };
            let close = match point { Some(p) => !too_far(c.last_point, p, t.multi_click_distance), None => true };
            &&& in_time && close ==> multi_click_code(a.count) == next_in_series(multi_click_code(c.count))
            &&& !in_time ==> multi_click_code(a.count) == EventCode::SingleClicked
        }),
{
}

/// What the long-press timer of a held button fires.
#[derive(Clone, Copy, Debug, PartialEq, Eq, Structural)]
pub enum LongPress {
    /// Nothing yet.
    Nothing,
    /// The long press time elapsed since the press.
    First,
    /// A repeat period elapsed since the last long press (repeat).
    Repeat,
}

/// The long-press timer: with the long press not sent yet, it fires `First` once the long
/// press time has elapsed since `press_time`; afterwards `Repeat` every repeat period.
/// Returns what fired, whether the long press is sent and the time of the last firing.
pub open spec fn long_press_timer(sent: bool, press_time: Instant, rep_time: Instant, now: Instant, t: Timing) -> (LongPress, bool, Instant) {
    if !sent {
        if elapsed(now, press_time) >= t.long_press.us { (LongPress::First, true, now) } else { (LongPress::Nothing, false, rep_time) }
    } else if elapsed(now, rep_time) >= t.long_press_repeat.us {
        (LongPress::Repeat, true, now)
    } else {
        (LongPress::Nothing, true, rep_time)
    }
}

/// Runs the long-press timer (see [`long_press_timer`]).
pub fn long_press_step(sent: bool, press_time: Instant, rep_time: Instant, now: Instant, t: &Timing) -> (r: (LongPress, bool, Instant))
    ensures
        r == long_press_timer(sent, press_time, rep_time, now, *t),
{
    if !sent {
        if now.saturating_duration_since(press_time).us >= t.long_press.us {
            (LongPress::First, true, now)
        } else {
            (LongPress::Nothing, false, rep_time)
        }
    } else if now.saturating_duration_since(rep_time).us >= t.long_press_repeat.us {
        (LongPress::Repeat, true, now)
    } else {
        (LongPress::Nothing, true, rep_time)
    }
}

/// The next instant a held button's long-press timer fires (`None` when not held, or while
/// the device waits for its release).
pub open spec fn timer_deadline(pressed: bool, wait: bool, sent: bool, press_time: Instant, rep_time: Instant, t: Timing) -> Option<Instant> {
    if !pressed || wait {
        None
    } else if sent {
        Some(Instant { us: if rep_time.us + t.long_press_repeat.us <= u64::MAX { (rep_time.us + t.long_press_repeat.us) as u64 } else { u64::MAX } })
    } else {
        Some(Instant { us: if press_time.us + t.long_press.us <= u64::MAX { (press_time.us + t.long_press.us) as u64 } else { u64::MAX } })
    }
}

/// One thing a processor asks to be done.
#[derive(Clone, Copy, Debug, PartialEq, Eq, Structural)]
pub enum InputAction {
    /// Send the event to the focused node.
    Send(EventCode),
    /// Send `Key(k)` to the focused node of the group unless it is disabled (LVGL
    /// `lv_group_send_data`).
    SendKey(Key),
    /// Leave edit mode, then move the focus to the next (`true`) or previous node.
    EditOffFocus(bool),
    /// Move the focus to the next (`true`) or previous node.
    Focus(bool),
    /// Set the group's edit mode.
    SetEditing(bool),
    /// Clear the `PRESSED` state of the focused node.
    ClearPressed,
}

/// When a step ends the processing.
#[derive(Clone, Copy, Debug, PartialEq, Eq, Structural)]
pub enum StopCheck {
    /// Never.
    Never,
    /// When the focused node is gone or a reset of the device is pending.
    Node,
    /// When a reset of the device is pending.
    Reset,
}

/// A step of a keypad plan.
#[derive(Clone, Copy, Debug, PartialEq, Eq, Structural)]
pub struct KeyStep {
    pub action: InputAction,
    pub check: StopCheck,
    /// The processor's state when this step ends the processing.
    pub on_stop: KeypadProc,
}

/// The state of one keypad (LVGL `indev_keypad_proc`).
#[derive(Clone, Copy, Debug, PartialEq, Eq, Structural)]
pub struct KeypadProc {
    pub last_key: Option<Key>,
    /// Whether the last key event was a press.
    pub pressed: bool,
    pub press_time: Instant,
    pub long_pr_sent: bool,
    pub longpr_rep_time: Instant,
    pub clicks: ClickCounter,
    pub wait_until_release: bool,
}

/// A step that never stops the processing.
pub open spec fn go(a: InputAction, s: KeypadProc) -> KeyStep {
    KeyStep { action: a, check: StopCheck::Never, on_stop: s }
}

/// A step that stops the processing (keeping `s`) when the focused node is gone or a reset
/// is pending.
pub open spec fn checked(a: InputAction, s: KeypadProc) -> KeyStep {
    KeyStep { action: a, check: StopCheck::Node, on_stop: s }
}

impl KeypadProc {
    /// A keypad that never saw a key.
    pub fn new() -> (k: KeypadProc)
        ensures
            k.last_key is None && !k.pressed && k.press_time.us == 0 && !k.long_pr_sent
                && k.longpr_rep_time.us == 0 && k.clicks == (ClickCounter { count: 0, last_time: None, last_point: Point { x: 0, y: 0 } })
                && !k.wait_until_release,
    {
        KeypadProc {
            last_key: None,
            pressed: false,
            press_time: Instant { us: 0 },
            long_pr_sent: false,
            longpr_rep_time: Instant { us: 0 },
            clicks: ClickCounter { count: 0, last_time: None, last_point: Point { x: 0, y: 0 } },
            wait_until_release: false,
        }
    }

    /// Forgets a long press in progress (LVGL reset query).
    pub fn reset(&mut self)
        ensures
            *final(self) == (KeypadProc { long_pr_sent: false, ..*old(self) }),
    {
        self.long_pr_sent = false;
    }

    /// The next instant the long-press timer fires.
    pub fn deadline(&self, t: &Timing) -> (r: Option<Instant>)
        ensures
            r == timer_deadline(self.pressed, self.wait_until_release, self.long_pr_sent, self.press_time, self.longpr_rep_time, *t),
    {
        if !self.pressed || self.wait_until_release {
            return None;
        }
        Some(if self.long_pr_sent {
            self.longpr_rep_time.add(t.long_press_repeat)
        } else {
            self.press_time.add(t.long_press)
        })
    }

    /// The state after the wait-for-release handling and the recording of a sample.
    pub open spec fn recorded(self, key: Key, pressed: bool) -> KeypadProc {
        let s = if self.wait_until_release {
            KeypadProc { wait_until_release: false, long_pr_sent: false, pressed: false, ..self }
        } else {
            self
        };
        KeypadProc { last_key: Some(key), pressed, ..s }
    }

    /// The plan for one key sample `(key, pressed)` at `now`. `target`: the device has a group
    /// with a focused node (else keys go nowhere); `enabled`: that node is not disabled.
    ///
    /// - Press: `Next`/`Prev` leave edit mode and move the focus; `Enter` sends `Key(Enter)`
    ///   then `Pressed`; `Esc` sends `Key(Esc)` then `Cancel`; other keys send `Key`.
    /// - Held: `Enter` sends `Pressing`, then `LongPressed` after the long press time and
    ///   `LongPressedRepeat` every repeat period; other keys repeat their action.
    /// - `Enter` release: `Released`, `ShortClicked` + multi-click (unless long pressed),
    ///   `Clicked`.
    pub open spec fn plan_model(self, key: Key, pressed: bool, now: Instant, t: Timing, target: bool, enabled: bool) -> (KeypadProc, Seq<KeyStep>) {
        if pressed && self.wait_until_release {
            (self, Seq::empty())
        } else {
            let prev_key = self.last_key;
            let prev_pressed = if self.wait_until_release { false } else { self.pressed };
            let s = self.recorded(key, pressed);
            if !target {
                (s, Seq::empty())
            } else if !prev_pressed && pressed {
                let s1 = KeypadProc { press_time: now, long_pr_sent: false, ..s };
                let steps = match key {
                    Key::Next => seq![go(InputAction::EditOffFocus(true), s1)],
                    Key::Prev => seq![go(InputAction::EditOffFocus(false), s1)],
                    _ => if !enabled {
                        Seq::empty()
                    } else {
                        match key {
                            Key::Enter => seq![checked(InputAction::SendKey(Key::Enter), s1), go(InputAction::Send(EventCode::Pressed), s1)],
                            Key::Esc => seq![checked(InputAction::SendKey(Key::Esc), s1), go(InputAction::Send(EventCode::Cancel), s1)],
                            _ => seq![go(InputAction::SendKey(key), s1)],
                        }
                    },
                };
                (s1, steps)
            } else if prev_pressed && pressed && enabled {
                let enter = key == Key::Enter;
                let first: Seq<KeyStep> = if enter { seq![checked(InputAction::Send(EventCode::Pressing), s)] } else { Seq::empty() };
                let (fired, sent, rep) = long_press_timer(s.long_pr_sent, s.press_time, s.longpr_rep_time, now, t);
                let s1 = KeypadProc { long_pr_sent: sent, longpr_rep_time: rep, ..s };
                let more: Seq<KeyStep> = match fired {
                    LongPress::Nothing => Seq::empty(),
                    LongPress::First => if enter { seq![go(InputAction::Send(EventCode::LongPressed), s1)] } else { Seq::empty() },
                    LongPress::Repeat => match key {
                        Key::Enter => seq![go(InputAction::Send(EventCode::LongPressedRepeat), s1)],
                        Key::Next => seq![go(InputAction::EditOffFocus(true), s1)],
                        Key::Prev => seq![go(InputAction::EditOffFocus(false), s1)],
                        _ => seq![go(InputAction::SendKey(key), s1)],
                    },
                };
                (s1, first + more)
            } else if prev_pressed && !pressed && enabled {
                let k = match prev_key { Some(p) => p, None => key };
                let s1 = KeypadProc { last_key: Some(k), ..s };
                let done = KeypadProc { long_pr_sent: false, ..s1 };
                if k == Key::Enter {
                    if !s1.long_pr_sent {
                        let c = s1.clicks.after_click(now, None, t);
                        let s2 = KeypadProc { clicks: c, long_pr_sent: false, ..s1 };
                        (s2, seq![
                            checked(InputAction::Send(EventCode::Released), done),
                            checked(InputAction::Send(EventCode::ShortClicked), s2),
                            checked(InputAction::Send(multi_click_code(c.count)), s2),
                            go(InputAction::Send(EventCode::Clicked), s2),
                        ])
                    } else {
                        (done, seq![checked(InputAction::Send(EventCode::Released), done), go(InputAction::Send(EventCode::Clicked), done)])
                    }
                } else {
                    (done, Seq::empty())
                }
            } else {
                (s, Seq::empty())
            }
        }
    }

    /// The plan for one key sample (see [`KeypadProc::plan_model`]).
    pub fn plan(&self, key: Key, pressed: bool, now: Instant, t: &Timing, target: bool, enabled: bool) -> (r: (KeypadProc, Vec<KeyStep>))
        ensures
            r.0 == self.plan_model(key, pressed, now, *t, target, enabled).0,
            r.1@ == self.plan_model(key, pressed, now, *t, target, enabled).1,
    {
        let mut steps: Vec<KeyStep> = Vec::new();
        if pressed && self.wait_until_release {
            return (*self, steps);
        }
        let mut s = *self;
        if s.wait_until_release {
            s.wait_until_release = false;
            s.long_pr_sent = false;
            s.pressed = false;
        }
        let prev_key = s.last_key;
        s.last_key = Some(key);
        let prev_pressed = s.pressed;
        s.pressed = pressed;
        if !target {
            return (s, steps);
        }
        if !prev_pressed && pressed {
            s.press_time = now;
            s.long_pr_sent = false;
            match key {
                Key::Next => steps.push(KeyStep { action: InputAction::EditOffFocus(true), check: StopCheck::Never, on_stop: s }),
                Key::Prev => steps.push(KeyStep { action: InputAction::EditOffFocus(false), check: StopCheck::Never, on_stop: s }),
                _ => if enabled {
                    match key {
                        Key::Enter => {
                            steps.push(KeyStep { action: InputAction::SendKey(Key::Enter), check: StopCheck::Node, on_stop: s });
                            steps.push(KeyStep { action: InputAction::Send(EventCode::Pressed), check: StopCheck::Never, on_stop: s });
                        },
                        Key::Esc => {
                            steps.push(KeyStep { action: InputAction::SendKey(Key::Esc), check: StopCheck::Node, on_stop: s });
                            steps.push(KeyStep { action: InputAction::Send(EventCode::Cancel), check: StopCheck::Never, on_stop: s });
                        },
                        _ => steps.push(KeyStep { action: InputAction::SendKey(key), check: StopCheck::Never, on_stop: s }),
                    }
                },
            }
            proof {
                assert(steps@ =~= self.plan_model(key, pressed, now, *t, target, enabled).1);
            }
            (s, steps)
        } else if prev_pressed && pressed && enabled {
            let enter = match key { Key::Enter => true, _ => false };
            if enter {
                steps.push(KeyStep { action: InputAction::Send(EventCode::Pressing), check: StopCheck::Node, on_stop: s });
            }
            let (fired, sent, rep) = long_press_step(s.long_pr_sent, s.press_time, s.longpr_rep_time, now, t);
            s.long_pr_sent = sent;
            s.longpr_rep_time = rep;
            match fired {
                LongPress::Nothing => {},
                LongPress::First => if enter {
                    steps.push(KeyStep { action: InputAction::Send(EventCode::LongPressed), check: StopCheck::Never, on_stop: s });
                },
                LongPress::Repeat => match key {
                    Key::Enter => steps.push(KeyStep { action: InputAction::Send(EventCode::LongPressedRepeat), check: StopCheck::Never, on_stop: s }),
                    Key::Next => steps.push(KeyStep { action: InputAction::EditOffFocus(true), check: StopCheck::Never, on_stop: s }),
                    Key::Prev => steps.push(KeyStep { action: InputAction::EditOffFocus(false), check: StopCheck::Never, on_stop: s }),
                    _ => steps.push(KeyStep { action: InputAction::SendKey(key), check: StopCheck::Never, on_stop: s }),
                },
            }
            proof {
                assert(steps@ =~= self.plan_model(key, pressed, now, *t, target, enabled).1);
            }
            (s, steps)
        } else if prev_pressed && !pressed && enabled {
            let k = match prev_key { Some(p) => p, None => key };
            s.last_key = Some(k);
            let done = KeypadProc { long_pr_sent: false, ..s };
            let is_enter = match k { Key::Enter => true, _ => false };
            if is_enter {
                if !s.long_pr_sent {
                    let mut c = s.clicks;
                    let multi = c.click(now, None, t);
                    let s2 = KeypadProc { clicks: c, long_pr_sent: false, ..s };
                    steps.push(KeyStep { action: InputAction::Send(EventCode::Released), check: StopCheck::Node, on_stop: done });
                    steps.push(KeyStep { action: InputAction::Send(EventCode::ShortClicked), check: StopCheck::Node, on_stop: s2 });
                    steps.push(KeyStep { action: InputAction::Send(multi), check: StopCheck::Node, on_stop: s2 });
                    steps.push(KeyStep { action: InputAction::Send(EventCode::Clicked), check: StopCheck::Never, on_stop: s2 });
                    proof {
                        assert(steps@ =~= self.plan_model(key, pressed, now, *t, target, enabled).1);
                    }
                    (s2, steps)
                } else {
                    steps.push(KeyStep { action: InputAction::Send(EventCode::Released), check: StopCheck::Node, on_stop: done });
                    steps.push(KeyStep { action: InputAction::Send(EventCode::Clicked), check: StopCheck::Never, on_stop: done });
                    proof {
                        assert(steps@ =~= self.plan_model(key, pressed, now, *t, target, enabled).1);
                    }
                    (done, steps)
                }
            } else {
                (done, steps)
            }
        } else {
            (s, steps)
        }
    }
}

/// A step of an encoder plan.
#[derive(Clone, Copy, Debug, PartialEq, Eq, Structural)]
pub struct EncStep {
    pub action: InputAction,
    pub check: StopCheck,
    /// The processor's state when this step ends the processing.
    pub on_stop: EncoderProc,
}

/// The state of one rotary encoder with a push button (LVGL `indev_encoder_proc`).
#[derive(Clone, Copy, Debug, PartialEq, Eq, Structural)]
pub struct EncoderProc {
    /// Whether the button was pressed at the last read.
    pub pressed: bool,
    pub press_time: Instant,
    pub long_pr_sent: bool,
    pub longpr_rep_time: Instant,
    pub clicks: ClickCounter,
    pub wait_until_release: bool,
}

/// An encoder step.
pub open spec fn estep(a: InputAction, c: StopCheck, s: EncoderProc) -> EncStep {
    EncStep { action: a, check: c, on_stop: s }
}

/// The click of an encoder release in state `s`: `Released`, `ShortClicked` + multi-click
/// (unless `long`), `Clicked`, each ending the processing when the node is gone.
pub open spec fn enc_click(s: EncoderProc, long: bool, now: Instant, t: Timing) -> (EncoderProc, Seq<EncStep>) {
    if long {
        (s, seq![estep(InputAction::Send(EventCode::Released), StopCheck::Node, s),
            estep(InputAction::Send(EventCode::Clicked), StopCheck::Node, s)])
    } else {
        let c = s.clicks.after_click(now, None, t);
        let s2 = EncoderProc { clicks: c, ..s };
        (s2, seq![estep(InputAction::Send(EventCode::Released), StopCheck::Node, s),
            estep(InputAction::Send(EventCode::ShortClicked), StopCheck::Node, s2),
            estep(InputAction::Send(multi_click_code(c.count)), StopCheck::Node, s2),
            estep(InputAction::Send(EventCode::Clicked), StopCheck::Node, s2)])
    }
}

/// The rotation steps of an encoder: in edit mode `Key(Right)` / `Key(Left)` `|diff|` times,
/// in navigate mode `|diff|` focus moves; each ends the processing when a reset is pending.
pub open spec fn rotation_model(diff: int, editing: bool) -> Seq<InputAction> {
    let n = if diff < 0 { -diff } else { diff };
    let a = if editing {
        InputAction::SendKey(if diff > 0 { Key::Right } else { Key::Left })
    } else {
        InputAction::Focus(diff > 0)
    };
    Seq::new(n as nat, |i: int| a)
}

/// The steps of an encoder rotation by `diff` (see [`rotation_model`]).
pub fn rotation_steps(diff: i32, editing: bool) -> (r: Vec<InputAction>)
    requires
        diff > i32::MIN,
    ensures
        r@ == rotation_model(diff as int, editing),
{
    let n: u32 = if diff < 0 { (-diff) as u32 } else { diff as u32 };
    let a = if editing {
        InputAction::SendKey(if diff > 0 { Key::Right } else { Key::Left })
    } else {
        InputAction::Focus(diff > 0)
    };
    let mut out: Vec<InputAction> = Vec::new();
    let mut k: u32 = 0;
    while k < n
        invariant
            k <= n,
            out@ == Seq::new(k as nat, |i: int| a),
        decreases n - k,
    {
        out.push(a);
        proof {
            assert(out@ =~= Seq::new((k + 1) as nat, |i: int| a));
        }
        k = k + 1;
    }
    proof {
        assert(out@ =~= rotation_model(diff as int, editing));
    }
    out
}

impl EncoderProc {
    /// An encoder that never saw a sample.
    pub fn new() -> (e: EncoderProc)
        ensures
            !e.pressed && e.press_time.us == 0 && !e.long_pr_sent && e.longpr_rep_time.us == 0
                && e.clicks == (ClickCounter { count: 0, last_time: None, last_point: Point { x: 0, y: 0 } })
                && !e.wait_until_release,
    {
        EncoderProc {
            pressed: false,
            press_time: Instant { us: 0 },
            long_pr_sent: false,
            longpr_rep_time: Instant { us: 0 },
            clicks: ClickCounter { count: 0, last_time: None, last_point: Point { x: 0, y: 0 } },
            wait_until_release: false,
        }
    }

    /// Forgets a long press in progress.
    pub fn reset(&mut self)
        ensures
            *final(self) == (EncoderProc { long_pr_sent: false, ..*old(self) }),
    {
        self.long_pr_sent = false;
    }

    /// The next instant the long-press timer fires.
    pub fn deadline(&self, t: &Timing) -> (r: Option<Instant>)
        ensures
            r == timer_deadline(self.pressed, self.wait_until_release, self.long_pr_sent, self.press_time, self.longpr_rep_time, *t),
    {
        if !self.pressed || self.wait_until_release {
            return None;
        }
        Some(if self.long_pr_sent {
            self.longpr_rep_time.add(t.long_press_repeat)
        } else {
            self.press_time.add(t.long_press)
        })
    }

    /// The button part of one encoder sample, and the rotation to apply afterwards (`0`: none;
    /// rotation only counts with the button up). `target`: the device has a group with a
    /// focused node; `enabled`: that node is not disabled; `editable`: it has an edit mode
    /// (or scrolls); `editing`: the group is in edit mode; `many`: the group has more than
    /// one node.
    ///
    /// - Press: `Pressed` to non-editable nodes, or to any node in edit mode.
    /// - Long press: toggles edit mode on editable nodes (not when the group has a single
    ///   node), else `LongPressed`; then `LongPressedRepeat` every repeat period.
    /// - Release: non-editable nodes get `Released`, `ShortClicked` + multi-click (unless long
    ///   pressed) and `Clicked`; in edit mode the same plus `Key(Enter)`; an editable node in
    ///   navigate mode enters edit mode.
    pub open spec fn plan_model(self, pressed: bool, diff: i16, now: Instant, t: Timing, target: bool,
        enabled: bool, editable: bool, editing: bool, many: bool) -> (EncoderProc, Seq<EncStep>, i32) {
        if pressed && self.wait_until_release {
            (self, Seq::empty(), 0)
        } else {
            let prev = if self.wait_until_release { false } else { self.pressed };
            let s0 = if self.wait_until_release {
                EncoderProc { wait_until_release: false, long_pr_sent: false, ..self }
            } else {
                self
            };
            let s = EncoderProc { pressed, ..s0 };
            let rot: i32 = if pressed { 0 } else { diff as i32 };
            if !target {
                (s, Seq::empty(), 0)
            } else if !prev && pressed {
                let s1 = EncoderProc { press_time: now, long_pr_sent: false, ..s };
                (s1, if (editing || !editable) && enabled {
                    seq![estep(InputAction::Send(EventCode::Pressed), StopCheck::Never, s1)]
                } else {
                    Seq::empty()
                }, rot)
            } else if prev && pressed {
                let (fired, sent, rep) = long_press_timer(s.long_pr_sent, s.press_time, s.longpr_rep_time, now, t);
                let s1 = EncoderProc { long_pr_sent: sent, longpr_rep_time: rep, ..s };
                (s1, match fired {
                    LongPress::Nothing => Seq::empty(),
                    LongPress::First => if editable {
                        if many {
                            seq![estep(InputAction::SetEditing(!editing), StopCheck::Never, s1),
                                estep(InputAction::ClearPressed, StopCheck::Never, s1)]
                        } else {
                            Seq::empty()
                        }
                    } else if enabled {
                        seq![estep(InputAction::Send(EventCode::LongPressed), StopCheck::Never, s1)]
                    } else {
                        Seq::empty()
                    },
                    LongPress::Repeat => if enabled {
                        seq![estep(InputAction::Send(EventCode::LongPressedRepeat), StopCheck::Never, s1)]
                    } else {
                        Seq::empty()
                    },
                }, rot)
            } else if prev && !pressed {
                let long = s.long_pr_sent;
                let s1 = EncoderProc { long_pr_sent: false, ..s };
                if !editable {
                    if enabled {
                        let (s2, c) = enc_click(s1, long, now, t);
                        (s2, c, rot)
                    } else {
                        (s1, Seq::empty(), rot)
                    }
                } else if editing {
                    if !long || !many {
                        let (s2, c) = if enabled { enc_click(s1, long, now, t) } else { (s1, Seq::empty()) };
                        (s2, c.push(estep(InputAction::SendKey(Key::Enter), StopCheck::Reset, s2)), rot)
                    } else {
                        (s1, seq![estep(InputAction::ClearPressed, StopCheck::Never, s1)], rot)
                    }
                } else if !long {
                    (s1, seq![estep(InputAction::SetEditing(true), StopCheck::Never, s1)], rot)
                } else {
                    (s1, Seq::empty(), rot)
                }
            } else {
                (s, Seq::empty(), rot)
            }
        }
    }

    fn click_steps(s: EncoderProc, long: bool, now: Instant, t: &Timing, steps: &mut Vec<EncStep>) -> (r: EncoderProc)
        ensures
            r == enc_click(s, long, now, *t).0,
            final(steps)@ == old(steps)@ + enc_click(s, long, now, *t).1,
    {
        let ghost s0 = steps@;
        if long {
            steps.push(EncStep { action: InputAction::Send(EventCode::Released), check: StopCheck::Node, on_stop: s });
            steps.push(EncStep { action: InputAction::Send(EventCode::Clicked), check: StopCheck::Node, on_stop: s });
            proof {
                assert(steps@ =~= s0 + enc_click(s, long, now, *t).1);
            }
            s
        } else {
            let mut c = s.clicks;
            let multi = c.click(now, None, t);
            let s2 = EncoderProc { clicks: c, ..s };
            steps.push(EncStep { action: InputAction::Send(EventCode::Released), check: StopCheck::Node, on_stop: s });
            steps.push(EncStep { action: InputAction::Send(EventCode::ShortClicked), check: StopCheck::Node, on_stop: s2 });
            steps.push(EncStep { action: InputAction::Send(multi), check: StopCheck::Node, on_stop: s2 });
            steps.push(EncStep { action: InputAction::Send(EventCode::Clicked), check: StopCheck::Node, on_stop: s2 });
            proof {
                assert(steps@ =~= s0 + enc_click(s, long, now, *t).1);
            }
            s2
        }
    }

    /// The button part of one encoder sample (see [`EncoderProc::plan_model`]).
    pub fn plan(&self, pressed: bool, diff: i16, now: Instant, t: &Timing, target: bool, enabled: bool,
        editable: bool, editing: bool, many: bool) -> (r: (EncoderProc, Vec<EncStep>, i32))
        ensures
            r.0 == self.plan_model(pressed, diff, now, *t, target, enabled, editable, editing, many).0,
            r.1@ == self.plan_model(pressed, diff, now, *t, target, enabled, editable, editing, many).1,
            r.2 == self.plan_model(pressed, diff, now, *t, target, enabled, editable, editing, many).2,
    {
        let ghost m = self.plan_model(pressed, diff, now, *t, target, enabled, editable, editing, many);
        let mut steps: Vec<EncStep> = Vec::new();
        if pressed && self.wait_until_release {
            return (*self, steps, 0);
        }
        let mut s = *self;
        if s.wait_until_release {
            s.wait_until_release = false;
            s.long_pr_sent = false;
            s.pressed = false;
        }
        let prev = s.pressed;
        s.pressed = pressed;
        let rot: i32 = if pressed { 0 } else { diff as i32 };
        if !target {
            return (s, steps, 0);
        }
        if !prev && pressed {
            s.press_time = now;
            s.long_pr_sent = false;
            if (editing || !editable) && enabled {
                steps.push(EncStep { action: InputAction::Send(EventCode::Pressed), check: StopCheck::Never, on_stop: s });
            }
            proof { assert(steps@ =~= m.1); }
            (s, steps, rot)
        } else if prev && pressed {
            let (fired, sent, rep) = long_press_step(s.long_pr_sent, s.press_time, s.longpr_rep_time, now, t);
            s.long_pr_sent = sent;
            s.longpr_rep_time = rep;
            match fired {
                LongPress::Nothing => {},
                LongPress::First => if editable {
                    if many {
                        steps.push(EncStep { action: InputAction::SetEditing(!editing), check: StopCheck::Never, on_stop: s });
                        steps.push(EncStep { action: InputAction::ClearPressed, check: StopCheck::Never, on_stop: s });
                    }
                } else if enabled {
                    steps.push(EncStep { action: InputAction::Send(EventCode::LongPressed), check: StopCheck::Never, on_stop: s });
                },
                LongPress::Repeat => if enabled {
                    steps.push(EncStep { action: InputAction::Send(EventCode::LongPressedRepeat), check: StopCheck::Never, on_stop: s });
                },
            }
            proof { assert(steps@ =~= m.1); }
            (s, steps, rot)
        } else if prev && !pressed {
            let long = s.long_pr_sent;
            s.long_pr_sent = false;
            if !editable {
                if enabled {
                    let s2 = Self::click_steps(s, long, now, t, &mut steps);
                    proof { assert(steps@ =~= m.1); }
                    (s2, steps, rot)
                } else {
                    (s, steps, rot)
                }
            } else if editing {
                if !long || !many {
                    let s2 = if enabled { Self::click_steps(s, long, now, t, &mut steps) } else { s };
                    steps.push(EncStep { action: InputAction::SendKey(Key::Enter), check: StopCheck::Reset, on_stop: s2 });
                    proof { assert(steps@ =~= m.1); }
                    (s2, steps, rot)
                } else {
                    steps.push(EncStep { action: InputAction::ClearPressed, check: StopCheck::Never, on_stop: s });
                    proof { assert(steps@ =~= m.1); }
                    (s, steps, rot)
                }
            } else if !long {
                steps.push(EncStep { action: InputAction::SetEditing(true), check: StopCheck::Never, on_stop: s });
                proof { assert(steps@ =~= m.1); }
                (s, steps, rot)
            } else {
                (s, steps, rot)
            }
        } else {
            (s, steps, rot)
        }
    }
}

/// Most input devices registered at once.
pub const MAX_INPUTS: usize = 8;

/// Keypad events read in one update while the device reports more; the rest is read at
/// the next update, which is requested at once.
pub const MAX_KEYPAD_READS: usize = 16;

/// How a device wants to be polled.
#[derive(Clone, Copy, Debug, PartialEq, Eq, Structural, Hash)]
pub enum PollHint {
    /// Read every read period.
    Periodic,
    /// Read after an interrupt, then every read period while active.
    Interrupt,
}

/// Whether a device is due for a read at `now` (LVGL timer of `lv_indev_read`): a periodic
/// device when it was never read, its next read time came or a long-press timer fired; an
/// interrupt device when it was notified, its next read time came or a timer fired.
pub fn read_due(hint: PollHint, notified: bool, next_read: Option<Instant>, timer: Option<Instant>, now: Instant) -> (r: bool)
    ensures
        r == ({
            let timer_due = match timer { Some(d) => now.us >= d.us, None => false };
            let read_due = match next_read { Some(d) => now.us >= d.us, None => false };
            match hint {
                PollHint::Periodic => next_read is None || read_due || timer_due,
                PollHint::Interrupt => notified || read_due || timer_due,
            }
        }),
{
    let timer_due = match timer {
        Some(d) => now.us >= d.us,
        None => false,
    };
    let rd = match next_read {
        Some(d) => now.us >= d.us,
        None => false,
    };
    match hint {
        PollHint::Periodic => next_read.is_none() || rd || timer_due,
        PollHint::Interrupt => notified || rd || timer_due,
    }
}

/// When a device is read next after a read at `now`, and whether its interrupt is re-armed:
/// right away when a keypad has more queued events; one period later for periodic devices
/// and for active interrupt devices; an idle interrupt device waits for its interrupt.
pub fn next_read_after(hint: PollHint, more: bool, active: bool, now: Instant, period: Duration) -> (r: (Option<Instant>, bool))
    ensures
        r == (if more { (Some(now), false) } else {
            match hint {
                PollHint::Periodic => (Some(Instant { us: if now.us + period.us <= u64::MAX { (now.us + period.us) as u64 } else { u64::MAX } }), false),
                PollHint::Interrupt => if active {
                    (Some(Instant { us: if now.us + period.us <= u64::MAX { (now.us + period.us) as u64 } else { u64::MAX } }), false)
                } else {
                    (None, true)
                },
            }
        }),
{
    if more {
        return (Some(now), false);
    }
    match hint {
        PollHint::Periodic => (Some(now.add(period)), false),
        PollHint::Interrupt => if active { (Some(now.add(period)), false) } else { (None, true) },
    }
}

/// The slot a new device takes among `used` (whether each existing slot holds a device):
/// the first free slot, else a new slot while fewer than [`MAX_INPUTS`] exist; `None`: too
/// many devices.
pub fn input_slot(used: &Vec<bool>) -> (r: Option<usize>)
    ensures
        match r {
            Some(i) => (i < used@.len() && !used@[i as int] && forall|k: int| 0 <= k < i ==> used@[k])
                || (i == used@.len() && i < MAX_INPUTS && forall|k: int| 0 <= k < used@.len() ==> used@[k]),
            None => used@.len() >= MAX_INPUTS && forall|k: int| 0 <= k < used@.len() ==> used@[k],
        },
{
    let mut i: usize = 0;
    while i < used.len()
        invariant
            i <= used@.len(),
            forall|k: int| 0 <= k < i ==> used@[k],
        decreases used@.len() - i,
    {
        if !used[i] {
            return Some(i);
        }
        i = i + 1;
    }
    if used.len() < MAX_INPUTS { Some(used.len()) } else { None }
}

/// The device slots of the engine: whether each slot holds an input device. There are never
/// more than [`MAX_INPUTS`] slots, so every device index is below it.
#[derive(Clone, Debug)]
pub struct InputSlots {
    pub used: Vec<bool>,
}

impl InputSlots {
    /// At most [`MAX_INPUTS`] slots.
    pub open spec fn wf(&self) -> bool {
        self.used@.len() <= MAX_INPUTS
    }

    /// No slots.
    pub fn new() -> (r: InputSlots)
        ensures
            r.wf(),
            r.used@.len() == 0,
    {
        InputSlots { used: Vec::new() }
    }

    /// Takes the slot of a new device (LVGL-like `add_input`, see [`input_slot`]): the lowest
    /// free slot, else a new one while fewer than [`MAX_INPUTS`] exist; `None` (nothing
    /// changes) when all [`MAX_INPUTS`] slots are used. The slot taken is below
    /// [`MAX_INPUTS`].
    pub fn take(&mut self) -> (r: Option<usize>)
        requires
            old(self).wf(),
        ensures
            final(self).wf(),
            match r {
                Some(i) => {
                    &&& i < MAX_INPUTS
                    &&& forall|k: int| 0 <= k < i ==> old(self).used@[k]
                    &&& i < old(self).used@.len() ==> !old(self).used@[i as int] && final(self).used@ == old(self).used@.update(i as int, true)
                    &&& i >= old(self).used@.len() ==> i == old(self).used@.len() && final(self).used@ == old(self).used@.push(true)
                },
                None => old(self).used@.len() == MAX_INPUTS && (forall|k: int| 0 <= k < old(self).used@.len() ==> old(self).used@[k])
                    && final(self).used@ == old(self).used@,
            },
    {
        match input_slot(&self.used) {
            Some(i) => {
                if i < self.used.len() {
                    self.used.set(i, true);
                } else {
                    self.used.push(true);
                }
                Some(i)
            },
            None => None,
        }
    }

    /// Frees slot `i` when its device is removed (later devices may reuse it).
    pub fn free(&mut self, i: usize)
        requires
            old(self).wf(),
        ensures
            final(self).wf(),
            final(self).used@ == (if i < old(self).used@.len() { old(self).used@.update(i as int, false) } else { old(self).used@ }),
    {
        if i < self.used.len() {
            self.used.set(i, false);
        }
    }
}

/// The earliest of two optional instants (`None` when both are).
pub fn earliest(a: Option<Instant>, b: Option<Instant>) -> (r: Option<Instant>)
    ensures
        r == (match (a, b) {
            (Some(x), Some(y)) => Some(if x.us <= y.us { x } else { y }),
            (Some(x), None) => Some(x),
            (None, Some(y)) => Some(y),
            (None, None) => None::<Instant>,
        }),
{
    match (a, b) {
        (Some(x), Some(y)) => Some(if x.us <= y.us { x } else { y }),
        (Some(x), None) => Some(x),
        (None, Some(y)) => Some(y),
        (None, None) => None,
    }
}

/// An action of an encoder rotation mirrored: the keys `Left` and `Right` swap, and a focus
/// move goes the other way.
pub open spec fn mirrored(a: InputAction) -> InputAction {
    match a {
        InputAction::SendKey(Key::Right) => InputAction::SendKey(Key::Left),
        InputAction::SendKey(Key::Left) => InputAction::SendKey(Key::Right),
        InputAction::Focus(f) => InputAction::Focus(!f),
        _ => a,
    }
}

/// Turning an encoder takes one step per detent (`|diff|` steps), in the direction of the
/// turn: a turn to the right (`diff > 0`) sends `Key::Right` in edit mode and moves the
/// focus forward otherwise, and turning the other way by as much mirrors every step.
pub proof fn lemma_rotation_direction(diff: int, editing: bool)
    ensures
        rotation_model(diff, editing).len() == (if diff < 0 { -diff } else { diff }),
        diff > 0 ==> forall|i: int| 0 <= i < rotation_model(diff, editing).len() ==> #[trigger] rotation_model(diff, editing)[i]
            == (if editing { InputAction::SendKey(Key::Right) } else { InputAction::Focus(true) }),
        diff != 0 ==> forall|i: int| 0 <= i < rotation_model(diff, editing).len()
            ==> #[trigger] rotation_model(-diff, editing)[i] == mirrored(rotation_model(diff, editing)[i]),
{
}

} // verus!
