use lib::event::{Dir, DIR_ALL, DIR_HOR, DIR_LEFT, DIR_NONE, DIR_TOP, DIR_VER};
use lib::geom::Point;
use lib::ids::NodeId;
use lib::pointer::{press_next, PointerProc, PressSeen, PressStage, PressStart};
use lib::scroll::COORD_MAX;
use lib::scroll_drag::ScrollLimits;
use lib::throw::{throw_step, drag_delta, Edges, ScrollStep, ThrowEvent, ThrowPhase, ThrowState};

fn scrolling(dir: u8, vect: Point) -> ThrowState {
    let mut p = PointerProc::new();
    p.scroll_obj = Some(NodeId::from_raw((1 << 16) | 3));
    p.scroll_dir = Dir { bits: dir };
    p.scroll_throw_vect = vect;
    p.scroll_throw_vect_ori = vect;
    p.scroll_area = ScrollLimits::none();
    ThrowState { ptr: p, phase: ThrowPhase::Idle }
}

fn room(top: i32, bottom: i32, left: i32, right: i32) -> Edges {
    Edges { top, bottom, left, right }
}

fn read(throw: u8, snap: bool, edges: Edges) -> ThrowEvent {
    ThrowEvent::Read { throw, alive: true, momentum: true, elastic: false, snap_x: snap, snap_y: snap, edges }
}

fn seen(edges: Edges) -> ThrowEvent {
    ThrowEvent::Seen { reset: false, alive: true, edges }
}

#[test]
fn throw_slows_down_each_read() {
    let s = scrolling(DIR_VER, Point { x: 7, y: 40 });
    let (s, steps) = throw_step(&s, read(10, false, room(500, 500, 0, 0)));
    assert_eq!(steps, vec![ScrollStep::Raw(0, 36)]);
    assert_eq!(s.ptr.scroll_throw_vect, Point { x: 0, y: 36 });
    let (s, steps) = throw_step(&s, seen(room(464, 536, 0, 0)));
    assert_eq!(steps, vec![ScrollStep::Finish(true)]);
    assert_eq!(s.phase, ThrowPhase::Idle);
    let (s, steps) = throw_step(&s, read(10, false, room(464, 536, 0, 0)));
    assert_eq!(steps, vec![ScrollStep::Raw(0, 32)]);
    assert_eq!(s.ptr.scroll_throw_vect.y, 32);
}

#[test]
fn throw_stops_at_a_hard_edge_and_ends() {
    let s = scrolling(DIR_HOR, Point { x: -50, y: 9 });
    let (s, steps) = throw_step(&s, read(50, false, room(0, 0, 100, 10)));
    assert_eq!(steps, vec![ScrollStep::Raw(-10, 0)]);
    assert_eq!(s.ptr.scroll_throw_vect, Point { x: -10, y: 0 });
    let (s, _) = throw_step(&s, seen(room(0, 0, 110, 0)));
    let (s, steps) = throw_step(&s, read(50, false, room(0, 0, 110, 0)));
    assert_eq!(steps, vec![ScrollStep::Raw(0, 0)]);
    let (s, steps) = throw_step(&s, seen(room(0, 0, 110, 0)));
    assert_eq!(steps, vec![ScrollStep::SendScrollEnd]);
    assert_eq!(s.phase, ThrowPhase::Ended);
    let (s, steps) = throw_step(&s, seen(room(0, 0, 110, 0)));
    assert_eq!(steps, vec![ScrollStep::ClearScroll, ScrollStep::Finish(true)]);
    assert_eq!(s.ptr.scroll_obj, None);
    assert_eq!(s.ptr.scroll_dir.bits, DIR_NONE);
}

#[test]
fn ended_throw_scrolls_back_from_beyond_the_edge() {
    let mut s = scrolling(DIR_VER, Point { x: 0, y: 1 });
    s.ptr.scroll_throw_vect = Point { x: 0, y: 0 };
    let (s, steps) = throw_step(&s, read(10, false, room(-30, 80, 0, 0)));
    assert_eq!(steps, vec![ScrollStep::Raw(0, 0)]);
    let (s, steps) = throw_step(&s, seen(room(-30, 80, -5, 20)));
    assert_eq!(steps, vec![ScrollStep::Animate(0, -30)]);
    let (s, steps) = throw_step(&s, seen(room(-30, 80, -5, 20)));
    assert_eq!(steps, vec![ScrollStep::Animate(-5, 0)]);
    let (s, steps) = throw_step(&s, seen(room(0, 50, 0, 15)));
    assert_eq!(steps, vec![ScrollStep::SendScrollEnd]);
    let (_, steps) = throw_step(&s, ThrowEvent::Seen { reset: true, alive: true, edges: room(0, 50, 0, 15) });
    assert_eq!(steps, vec![ScrollStep::Finish(false)]);
}

#[test]
fn snapped_throw_animates_to_the_snap_point() {
    let s = scrolling(DIR_VER, Point { x: 0, y: 20 });
    let (s, steps) = throw_step(&s, read(50, true, room(500, 500, 0, 0)));
    // 20 + 10 + 5 + 2 + 1
    assert_eq!(steps, vec![ScrollStep::FindSnapY(38)]);
    assert_eq!(s.ptr.scroll_throw_vect, Point { x: 0, y: 0 });
    let (s, steps) = throw_step(&s, ThrowEvent::SnapPoint(-3));
    assert_eq!(steps, vec![ScrollStep::Animate(0, 35)]);
    let (s2, steps) = throw_step(&s, seen(room(0, 0, 0, 0)));
    assert_eq!(steps, vec![ScrollStep::SendScrollEnd]);
    let (_, steps) = throw_step(&s2, seen(room(0, 0, 0, 0)));
    assert_eq!(steps, vec![ScrollStep::ClearScroll, ScrollStep::Finish(true)]);
    let (s3, _) = throw_step(&scrolling(DIR_VER, Point { x: 0, y: 20 }), read(50, true, room(0, 0, 0, 0)));
    let (_, steps) = throw_step(&s3, ThrowEvent::SnapPoint(COORD_MAX));
    assert_eq!(steps, vec![ScrollStep::Animate(0, 38)]);
}

#[test]
fn throw_of_a_gone_node_forgets_it() {
    let s = scrolling(DIR_VER, Point { x: 0, y: 20 });
    let ev = ThrowEvent::Read { throw: 10, alive: false, momentum: true, elastic: true, snap_x: false, snap_y: false, edges: room(0, 0, 0, 0) };
    let (s, steps) = throw_step(&s, ev);
    assert_eq!(steps, vec![ScrollStep::ClearScroll, ScrollStep::Finish(true)]);
    assert_eq!(s.ptr.scroll_obj, None);
    let (_, steps) = throw_step(&s, read(10, false, room(0, 0, 0, 0)));
    assert_eq!(steps, vec![ScrollStep::Finish(true)]);
}

#[test]
fn elastic_throw_slows_beyond_the_edge() {
    let s = scrolling(DIR_VER, Point { x: 0, y: 40 });
    let ev = ThrowEvent::Read { throw: 0, alive: true, momentum: true, elastic: true, snap_x: false, snap_y: false, edges: room(-4, 100, 0, 0) };
    let (s, steps) = throw_step(&s, ev);
    assert_eq!(steps, vec![ScrollStep::Raw(0, 10)]);
    assert_eq!(s.ptr.scroll_throw_vect.y, 10);
    let ev = ThrowEvent::Read { throw: 10, alive: true, momentum: false, elastic: true, snap_x: false, snap_y: false, edges: room(5, 5, 0, 0) };
    let s = scrolling(DIR_VER, Point { x: 0, y: 40 });
    let (_, steps) = throw_step(&s, ev);
    assert_eq!(steps, vec![ScrollStep::Raw(0, 0)]);
}

#[test]
fn a_new_press_keeps_or_searches() {
    let mut p = PointerProc::new();
    assert_eq!(p.press_start(true), PressStart::Search { stop_throw: false });
    let n = NodeId::from_raw((1 << 16) | 9);
    p.act_obj = Some(n);
    assert_eq!(p.press_start(true), PressStart::Keep(n));
    assert_eq!(p.press_start(false), PressStart::Search { stop_throw: false });
    p.scroll_obj = Some(n);
    assert_eq!(p.press_start(false), PressStart::Keep(n));
    p.act_obj = None;
    assert_eq!(p.press_start(false), PressStart::Search { stop_throw: true });
}

#[test]
fn a_stopped_throw_ends_at_the_next_read() {
    let s = scrolling(DIR_VER, Point { x: 0, y: 40 });
    let s = ThrowState::stopped(&s.ptr);
    assert_eq!(s.ptr.scroll_throw_vect, Point { x: 0, y: 0 });
    assert_eq!(s.ptr.scroll_throw_vect_ori, Point { x: 0, y: 40 });
    let (s, steps) = throw_step(&s, read(10, false, room(50, 50, 0, 0)));
    assert_eq!(steps, vec![ScrollStep::Raw(0, 0)]);
    let (_, steps) = throw_step(&s, seen(room(50, 50, 0, 0)));
    assert_eq!(steps, vec![ScrollStep::SendScrollEnd]);
}

#[test]
fn a_drag_scrolls_on_its_axis_within_directions_and_limits() {
    let all = Dir { bits: DIR_ALL };
    let zero = Point { x: 0, y: 0 };
    let none = ScrollLimits::none();
    // Vertical: the horizontal part is dropped.
    assert_eq!(drag_delta(Point { x: 5, y: 12 }, false, 100, 100, false, false, false, false, all, zero, none), Point { x: 0, y: 12 });
    // A hard edge stops the content.
    assert_eq!(drag_delta(Point { x: 0, y: 12 }, false, 7, 100, false, false, false, false, all, zero, none), Point { x: 0, y: 7 });
    // An elastic edge slows it down beyond the edge.
    assert_eq!(drag_delta(Point { x: 0, y: 12 }, false, -3, 100, true, false, false, false, all, zero, none), Point { x: 0, y: 3 });
    // Content moving right scrolls towards the left: only with LEFT.
    assert_eq!(drag_delta(Point { x: 9, y: 0 }, true, 100, 100, false, false, false, false, Dir { bits: DIR_TOP }, zero, none), Point { x: 0, y: 0 });
    assert_eq!(drag_delta(Point { x: 9, y: 0 }, true, 100, 100, false, false, false, false, Dir { bits: DIR_LEFT }, zero, none), Point { x: 9, y: 0 });
    // The scroll limits of SCROLL_ONE.
    let lim = ScrollLimits { x1: -5, y1: -20, x2: 5, y2: 20 };
    assert_eq!(drag_delta(Point { x: 9, y: 0 }, true, 100, 100, false, false, false, false, all, Point { x: 2, y: 0 }, lim), Point { x: 3, y: 0 });
}

#[test]
fn a_press_read_runs_pressing_then_scroll_or_gesture_then_long_press() {
    let seen = |go_on: bool, scrolling: bool| PressSeen { go_on, waiting: false, scrolling, alive: true, enabled: true };
    assert_eq!(press_next(None, seen(true, false)), PressStage::Pressing);
    assert_eq!(press_next(None, PressSeen { enabled: false, ..seen(true, false) }), PressStage::Scroll);
    assert_eq!(press_next(None, PressSeen { alive: false, ..seen(true, false) }), PressStage::End);
    assert_eq!(press_next(Some(PressStage::Pressing), seen(true, false)), PressStage::Scroll);
    assert_eq!(press_next(Some(PressStage::Pressing), seen(false, false)), PressStage::End);
    assert_eq!(press_next(Some(PressStage::Pressing), PressSeen { waiting: true, ..seen(true, false) }), PressStage::End);
    assert_eq!(press_next(Some(PressStage::Scroll), seen(true, false)), PressStage::Gesture);
    assert_eq!(press_next(Some(PressStage::Scroll), seen(true, true)), PressStage::End);
    assert_eq!(press_next(Some(PressStage::Gesture), seen(true, false)), PressStage::LongPress);
    assert_eq!(press_next(Some(PressStage::Gesture), PressSeen { alive: false, ..seen(true, false) }), PressStage::End);
    assert_eq!(press_next(Some(PressStage::LongPress), seen(true, false)), PressStage::End);
}
