use lib::event::{EventCode, Key};
use lib::geom::Point;
use lib::input::{InputSlots, MAX_INPUTS, ClickCounter, Timing, KeypadProc, EncoderProc, InputAction, StopCheck, LongPress, long_press_step,
    rotation_steps, read_due, next_read_after, input_slot, earliest, PollHint};
use lib::time::{Duration, Instant};

fn timing() -> Timing {
    Timing {
        long_press: Duration::ms(400),
        long_press_repeat: Duration::ms(100),
        multi_click: Duration::ms(300),
        multi_click_distance: 5,
        scroll_limit: 10,
        scroll_throw: 10,
        gesture_limit: 50,
        gesture_min_velocity: 3,
    }
}

fn ms(v: u64) -> Instant {
    Instant::from_millis(v)
}

#[test]
fn clicks_count_into_double_and_triple() {
    let t = timing();
    let mut c = ClickCounter::default();
    assert_eq!(c.click(ms(1000), None, &t), EventCode::SingleClicked);
    assert_eq!(c.click(ms(1200), None, &t), EventCode::DoubleClicked);
    assert_eq!(c.click(ms(1400), None, &t), EventCode::TripleClicked);
    assert_eq!(c.click(ms(1500), None, &t), EventCode::SingleClicked);
    // Too late: a new series.
    assert_eq!(c.click(ms(2000), None, &t), EventCode::SingleClicked);
    // Too far for a pointer: a new series.
    let mut p = ClickCounter::default();
    assert_eq!(p.click(ms(0), Some(Point::new(0, 0)), &t), EventCode::SingleClicked);
    assert_eq!(p.click(ms(100), Some(Point::new(3, 4)), &t), EventCode::DoubleClicked);
    assert_eq!(p.click(ms(200), Some(Point::new(10, 4)), &t), EventCode::SingleClicked);
}

#[test]
fn long_press_timer_fires_then_repeats() {
    let t = timing();
    assert_eq!(long_press_step(false, ms(0), ms(0), ms(399), &t), (LongPress::Nothing, false, ms(0)));
    assert_eq!(long_press_step(false, ms(0), ms(0), ms(400), &t), (LongPress::First, true, ms(400)));
    assert_eq!(long_press_step(true, ms(0), ms(400), ms(450), &t), (LongPress::Nothing, true, ms(400)));
    assert_eq!(long_press_step(true, ms(0), ms(400), ms(500), &t), (LongPress::Repeat, true, ms(500)));
}

fn actions(steps: &[lib::input::KeyStep]) -> Vec<InputAction> {
    steps.iter().map(|s| s.action).collect()
}

#[test]
fn keypad_enter_press_and_release() {
    let t = timing();
    let k = KeypadProc::new();
    let (k, steps) = k.plan(Key::Enter, true, ms(10), &t, true, true);
    assert_eq!(actions(&steps), vec![InputAction::SendKey(Key::Enter), InputAction::Send(EventCode::Pressed)]);
    assert_eq!(steps[0].check, StopCheck::Node);
    assert!(k.pressed);
    // Held: Pressing every read, LongPressed after the long press time.
    let (k, steps) = k.plan(Key::Enter, true, ms(200), &t, true, true);
    assert_eq!(actions(&steps), vec![InputAction::Send(EventCode::Pressing)]);
    let (k, steps) = k.plan(Key::Enter, true, ms(420), &t, true, true);
    assert_eq!(actions(&steps), vec![InputAction::Send(EventCode::Pressing), InputAction::Send(EventCode::LongPressed)]);
    assert!(k.long_pr_sent);
    // Release after a long press: no short click.
    let (k, steps) = k.plan(Key::Enter, false, ms(600), &t, true, true);
    assert_eq!(actions(&steps), vec![InputAction::Send(EventCode::Released), InputAction::Send(EventCode::Clicked)]);
    assert!(!k.long_pr_sent && !k.pressed);
    // A short press: ShortClicked and SingleClicked.
    let (k, _) = k.plan(Key::Enter, true, ms(1000), &t, true, true);
    let (_, steps) = k.plan(Key::Enter, false, ms(1050), &t, true, true);
    assert_eq!(actions(&steps), vec![InputAction::Send(EventCode::Released), InputAction::Send(EventCode::ShortClicked),
        InputAction::Send(EventCode::SingleClicked), InputAction::Send(EventCode::Clicked)]);
}

#[test]
fn keypad_navigation_keys_move_the_focus() {
    let t = timing();
    let k = KeypadProc::new();
    let (k, steps) = k.plan(Key::Next, true, ms(0), &t, true, false);
    assert_eq!(actions(&steps), vec![InputAction::EditOffFocus(true)]);
    let (k, _) = k.plan(Key::Next, false, ms(10), &t, true, true);
    let (_, steps) = k.plan(Key::Left, true, ms(20), &t, true, true);
    assert_eq!(actions(&steps), vec![InputAction::SendKey(Key::Left)]);
    // Disabled focused node: keys other than Next/Prev go nowhere.
    let (_, steps) = KeypadProc::new().plan(Key::Left, true, ms(20), &t, true, false);
    assert!(steps.is_empty());
    // No group: nothing.
    let (k, steps) = KeypadProc::new().plan(Key::Enter, true, ms(20), &t, false, true);
    assert!(steps.is_empty() && k.pressed);
}

#[test]
fn keypad_waits_for_the_release() {
    let t = timing();
    let mut k = KeypadProc::new();
    k.wait_until_release = true;
    let (k2, steps) = k.plan(Key::Enter, true, ms(0), &t, true, true);
    assert!(steps.is_empty() && k2.wait_until_release);
    let (k3, steps) = k.plan(Key::Enter, false, ms(0), &t, true, true);
    assert!(steps.is_empty() && !k3.wait_until_release);
}

fn enc_actions(steps: &[lib::input::EncStep]) -> Vec<InputAction> {
    steps.iter().map(|s| s.action).collect()
}

#[test]
fn encoder_press_click_and_edit_mode() {
    let t = timing();
    let e = EncoderProc::new();
    // Non-editable node: Pressed, then a click on release.
    let (e, steps, rot) = e.plan(true, 0, ms(0), &t, true, true, false, false, true);
    assert_eq!(enc_actions(&steps), vec![InputAction::Send(EventCode::Pressed)]);
    assert_eq!(rot, 0);
    let (e, steps, _) = e.plan(false, 0, ms(50), &t, true, true, false, false, true);
    assert_eq!(enc_actions(&steps), vec![InputAction::Send(EventCode::Released), InputAction::Send(EventCode::ShortClicked),
        InputAction::Send(EventCode::SingleClicked), InputAction::Send(EventCode::Clicked)]);
    // Editable node in navigate mode: a click enters edit mode.
    let (e, steps, _) = e.plan(true, 0, ms(1000), &t, true, true, true, false, true);
    assert!(steps.is_empty());
    let (e, steps, _) = e.plan(false, 0, ms(1050), &t, true, true, true, false, true);
    assert_eq!(enc_actions(&steps), vec![InputAction::SetEditing(true)]);
    // A long press toggles edit mode.
    let (e, _, _) = e.plan(true, 0, ms(2000), &t, true, true, true, true, true);
    let (e, steps, _) = e.plan(true, 0, ms(2400), &t, true, true, true, true, true);
    assert_eq!(enc_actions(&steps), vec![InputAction::SetEditing(false), InputAction::ClearPressed]);
    let (_, steps, _) = e.plan(false, 0, ms(2500), &t, true, true, true, false, true);
    assert!(steps.is_empty());
}

#[test]
fn encoder_rotation() {
    let t = timing();
    let (_, steps, rot) = EncoderProc::new().plan(false, -2, ms(0), &t, true, true, false, false, true);
    assert!(steps.is_empty());
    assert_eq!(rot, -2);
    assert_eq!(rotation_steps(rot, false), vec![InputAction::Focus(false), InputAction::Focus(false)]);
    assert_eq!(rotation_steps(3, true), vec![InputAction::SendKey(Key::Right); 3]);
    // Rotation with the button down does not count.
    let (_, _, rot) = EncoderProc::new().plan(true, 5, ms(0), &t, true, true, false, false, true);
    assert_eq!(rot, 0);
}

#[test]
fn polling_decisions() {
    assert!(read_due(PollHint::Periodic, false, None, None, ms(0)));
    assert!(!read_due(PollHint::Periodic, false, Some(ms(30)), None, ms(10)));
    assert!(read_due(PollHint::Periodic, false, Some(ms(30)), None, ms(30)));
    assert!(!read_due(PollHint::Interrupt, false, None, None, ms(10)));
    assert!(read_due(PollHint::Interrupt, true, None, None, ms(10)));
    assert!(read_due(PollHint::Interrupt, false, None, Some(ms(5)), ms(10)));
    let p = Duration::ms(30);
    assert_eq!(next_read_after(PollHint::Periodic, false, false, ms(10), p), (Some(ms(40)), false));
    assert_eq!(next_read_after(PollHint::Interrupt, false, false, ms(10), p), (None, true));
    assert_eq!(next_read_after(PollHint::Interrupt, false, true, ms(10), p), (Some(ms(40)), false));
    assert_eq!(next_read_after(PollHint::Interrupt, true, false, ms(10), p), (Some(ms(10)), false));
    assert_eq!(input_slot(&vec![true, false, true]), Some(1));
    assert_eq!(input_slot(&vec![true; 3]), Some(3));
    assert_eq!(input_slot(&vec![true; 8]), None);
    assert_eq!(earliest(Some(ms(3)), Some(ms(2))), Some(ms(2)));
    assert_eq!(earliest(None, None), None);
}

#[test]
fn deadlines_follow_the_long_press_timer() {
    let t = timing();
    let mut k = KeypadProc::new();
    assert_eq!(k.deadline(&t), None);
    k.pressed = true;
    k.press_time = ms(100);
    assert_eq!(k.deadline(&t), Some(ms(500)));
    k.long_pr_sent = true;
    k.longpr_rep_time = ms(600);
    assert_eq!(k.deadline(&t), Some(ms(700)));
    let e = EncoderProc::new();
    assert_eq!(e.deadline(&t), None);
}

#[test]
fn input_slots_reuse_the_lowest_free_slot_up_to_the_limit() {
    let mut s = InputSlots::new();
    for i in 0..MAX_INPUTS {
        assert_eq!(s.take(), Some(i));
    }
    assert_eq!(s.take(), None);
    s.free(3);
    s.free(5);
    assert_eq!(s.take(), Some(3));
    assert_eq!(s.take(), Some(5));
    assert_eq!(s.take(), None);
    assert_eq!(s.used.len(), MAX_INPUTS);
}
