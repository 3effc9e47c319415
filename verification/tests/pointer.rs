use lib::event::EventCode;
use lib::geom::Point;
use lib::ids::NodeId;
use lib::input::{StopCheck, Timing};
use lib::pointer::{PointerProc, PtrAction, Forget, FocusStep, click_focus_steps};
use lib::time::{Duration, Instant};

fn timing() -> Timing {
    Timing {
        long_press: Duration::ms(400),
        long_press_repeat: Duration::ms(100),
        multi_click: Duration::ms(300),
        multi_click_distance: 5,
        scroll_limit: 10,
        scroll_throw: 10,
        gesture_limit: 50,
        gesture_min_velocity: 3,
    }
}

fn id(n: u16) -> NodeId {
    NodeId::from_raw((1 << 16) | n as u32)
}

#[test]
fn press_switch_and_release_click() {
    let t = timing();
    let mut p = PointerProc::new();
    let a = id(1);
    let (q, steps) = p.switch_press(Some(a), Instant::from_millis(10), true);
    let acts: Vec<PtrAction> = steps.iter().map(|s| s.action).collect();
    assert_eq!(acts, vec![PtrAction::ClearScroll, PtrAction::Send(EventCode::Pressed, a), PtrAction::ClickFocus(a)]);
    assert_eq!(q.act_obj, Some(a));
    assert!(q.press_started_here);
    p = q;
    p.pressed = true;
    let (q, steps, throw) = p.release_main(Instant::from_millis(50), &t, true);
    assert!(!throw);
    let acts: Vec<PtrAction> = steps.iter().map(|s| s.action).collect();
    assert_eq!(acts, vec![PtrAction::Send(EventCode::Released, a), PtrAction::Send(EventCode::ShortClicked, a),
        PtrAction::Send(EventCode::SingleClicked, a), PtrAction::Send(EventCode::Clicked, a)]);
    assert_eq!(steps[0].check, StopCheck::Node);
    assert_eq!(q.act_obj, None);
    // Disabled: released silently.
    let (q, steps, _) = p.release_main(Instant::from_millis(50), &t, false);
    assert!(steps.is_empty() && q.act_obj.is_none());
}

#[test]
fn dragging_onto_another_node_loses_the_press() {
    let mut p = PointerProc::new();
    let (a, b) = (id(1), id(2));
    p = p.switch_press(Some(a), Instant::from_millis(0), true).0;
    p.pressed = true;
    let (q, steps) = p.switch_press(Some(b), Instant::from_millis(20), true);
    let acts: Vec<PtrAction> = steps.iter().map(|s| s.action).collect();
    assert_eq!(acts, vec![PtrAction::Send(EventCode::PressLost, a), PtrAction::ClearScroll, PtrAction::ClickFocus(b)]);
    assert!(!q.press_started_here);
}

#[test]
fn hover_changes_send_over_and_leave() {
    let mut p = PointerProc::new();
    let (a, b) = (id(1), id(2));
    let (q, steps) = p.release_hover(Some(a));
    assert_eq!(steps.iter().map(|s| s.action).collect::<Vec<_>>(), vec![PtrAction::Send(EventCode::HoverOver, a)]);
    p = q;
    let (q, steps) = p.release_hover(Some(b));
    assert_eq!(steps.iter().map(|s| s.action).collect::<Vec<_>>(),
        vec![PtrAction::Send(EventCode::HoverOver, b), PtrAction::SendIfAlive(EventCode::HoverLeave, a)]);
    assert_eq!(q.hovered, Some(b));
    let (_, steps) = q.release_hover(Some(b));
    assert!(steps.is_empty());
}

#[test]
fn reset_and_dead_nodes() {
    let mut p = PointerProc::new();
    let a = id(1);
    p = p.switch_press(Some(a), Instant::from_millis(0), true).0;
    p.last_obj = Some(a);
    p.hovered = Some(id(2));
    p.reset(Forget::Node(a));
    assert_eq!(p.act_obj, None);
    assert_eq!(p.last_obj, None);
    assert_eq!(p.hovered, Some(id(2)));
    p.reset(Forget::All);
    assert_eq!(p.hovered, None);
    let mut p = PointerProc::new();
    p = p.switch_press(Some(a), Instant::from_millis(0), true).0;
    p.pressed = true;
    p.drop_dead(false, true, true, true);
    assert_eq!(p.act_obj, None);
    assert!(p.wait_until_release);
}

#[test]
fn throw_vector_decays_with_age() {
    let mut p = PointerProc::new();
    p = p.switch_press(Some(id(1)), Instant::from_millis(0), true).0;
    p.vect = Point::new(20, -20);
    p.record_vect(Instant::from_millis(0));
    assert_eq!(p.scroll_throw_vect, Point::new(20, -20));
    p.vect = Point::new(0, 0);
    p.record_vect(Instant::from_millis(30));
    assert_eq!(p.scroll_throw_vect, Point::new(20 * (512 - 155) / 512, -(20 * (512 - 155) / 512)));
    assert_eq!(p.scroll_throw_vect_ori, p.scroll_throw_vect);
}

#[test]
fn long_press_while_pressed() {
    let t = timing();
    let mut p = PointerProc::new();
    p = p.switch_press(Some(id(1)), Instant::from_millis(0), true).0;
    assert_eq!(p.long_press(Instant::from_millis(100), &t, true), None);
    assert_eq!(p.long_press(Instant::from_millis(400), &t, true), Some(EventCode::LongPressed));
    assert_eq!(p.long_press(Instant::from_millis(450), &t, true), None);
    assert_eq!(p.long_press(Instant::from_millis(500), &t, false), None);
    assert!(p.long_pr_sent);
}

#[test]
fn click_focus_steps_by_group() {
    let (a, b) = (id(1), id(2));
    assert_eq!(click_focus_steps(a, Some(b), Some(0), Some(0)), vec![FocusStep::Focus(a)]);
    assert_eq!(click_focus_steps(a, Some(b), None, None),
        vec![FocusStep::Send(EventCode::Defocused, b, true), FocusStep::Send(EventCode::Focused, a, false)]);
    assert!(click_focus_steps(a, Some(a), None, None).is_empty());
    assert_eq!(click_focus_steps(a, Some(b), Some(1), Some(0)),
        vec![FocusStep::Send(EventCode::Leave, b, true), FocusStep::Focus(a)]);
    assert_eq!(click_focus_steps(a, Some(b), None, Some(0)),
        vec![FocusStep::Send(EventCode::Leave, b, true), FocusStep::Send(EventCode::Focused, a, false)]);
    assert_eq!(click_focus_steps(a, None, Some(1), None), vec![FocusStep::Focus(a)]);
}
