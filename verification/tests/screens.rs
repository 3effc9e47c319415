use lib::event::{Dir, DIR_ALL, DIR_HOR, DIR_VER};
use lib::geom::Rect;
use lib::ids::NodeId;
use lib::screen_anim::{placement, Axis, LoadDecision, LoadDone, LoadForget, Motion, Placement, ScreenAnim, ScreenLoad,
    ScreenLoadRun, ScreenState};
use lib::scrollbar::{bars_shown, scrollbar_areas, scrollbar_tracks, BarGeom, BarShow, ScrollbarMode};
use lib::time::Duration;
use lib::transition::{select_transitions, TransList, TransPick, TransSource};

fn id(n: u16) -> NodeId {
    NodeId::from_raw((1 << 16) | n as u32)
}

#[test]
fn screen_load_builders() {
    let load = ScreenAnim::MoveLeft(Duration::ms(300)).delay(Duration::ms(50)).auto_delete(true);
    assert_eq!(load.anim.duration(), Duration::ms(300));
    assert_eq!(load.delay, Duration::ms(50));
    assert!(load.auto_delete);
    let plain: ScreenLoad = ScreenAnim::FadeIn(Duration::ms(10)).into();
    assert_eq!(plain, ScreenLoad { anim: ScreenAnim::FadeIn(Duration::ms(10)), delay: Duration::ms(0), auto_delete: false });
    assert!(ScreenLoad::from(ScreenAnim::Off).is_instant());
    assert!(!ScreenAnim::Off.delay(Duration::ms(1)).is_instant());
    assert_eq!(ScreenAnim::Off.duration(), Duration::ms(0));
}

#[test]
fn screen_anim_names_and_order() {
    let all = ScreenAnim::all(Duration::ms(5));
    assert_eq!(all.len(), 15);
    assert_eq!(all[0], ScreenAnim::OverLeft(Duration::ms(5)));
    assert_eq!(all[14], ScreenAnim::Off);
    let names: Vec<&str> = all.iter().map(|a| a.name()).collect();
    assert_eq!(names[..3], ["over_left", "over_right", "over_top"]);
    assert_eq!(ScreenAnim::Off.name(), "none");
    assert_eq!(ScreenAnim::FadeOut(Duration::ms(1)).name(), "fade_out");
    let on_top: Vec<bool> = all.iter().map(|a| a.old_on_top()).collect();
    assert_eq!(on_top.iter().filter(|b| **b).count(), 5);
    assert!(ScreenAnim::OutBottom(Duration::ms(1)).old_on_top());
    assert!(!ScreenAnim::MoveTop(Duration::ms(1)).old_on_top());
}

#[test]
fn screen_motions() {
    let d = Duration::ms(1);
    let x = |from, to| Some(Motion { axis: Axis::X, from, to });
    let y = |from, to| Some(Motion { axis: Axis::Y, from, to });
    assert_eq!(ScreenAnim::MoveLeft(d).motion(320, 240), (x(320, 0), x(0, -320)));
    assert_eq!(ScreenAnim::OverBottom(d).motion(320, 240), (y(-240, 0), None));
    assert_eq!(ScreenAnim::OutTop(d).motion(320, 240), (None, y(0, -240)));
    assert_eq!(ScreenAnim::FadeOut(d).motion(320, 240), (None, Some(Motion { axis: Axis::Opa, from: 255, to: 0 })));
    assert_eq!(ScreenAnim::Off.motion(320, 240), (x(0, 0), None));
    let area = Rect::new(0, 0, 320, 240);
    assert_eq!(placement(Motion { axis: Axis::X, from: 320, to: 0 }, area, 100), Placement::At(Rect::new(100, 0, 420, 240)));
    assert_eq!(placement(Motion { axis: Axis::Y, from: 0, to: -240 }, area, -10), Placement::At(Rect::new(0, -10, 320, 230)));
    assert_eq!(placement(Motion { axis: Axis::Opa, from: 0, to: 255 }, area, 300), Placement::Opa(255));
    assert_eq!(placement(Motion { axis: Axis::Opa, from: 0, to: 255 }, area, -3), Placement::Opa(0));
}

#[test]
fn screen_load_start_and_done() {
    let run = ScreenLoadRun { new: id(2), old: id(1), anim: ScreenAnim::OutLeft(Duration::ms(100)), auto_delete: true, started: false };
    let mut s = ScreenState { active: id(1), prev: None, load: Some(run), draw_prev_over_act: false };
    assert!(s.input_blocked());
    assert_eq!(s.start(true), Some(id(2)));
    assert_eq!(s.active, id(2));
    assert_eq!(s.prev, Some(id(1)));
    assert!(s.draw_prev_over_act);
    assert_eq!(s.start(true), None);
    let done = s.done(true).unwrap();
    assert_eq!(done, LoadDone { started: None, new: id(2), prev: Some(id(1)), auto_delete: true });
    assert_eq!(s, ScreenState { active: id(2), prev: None, load: None, draw_prev_over_act: false });
    assert!(!s.input_blocked());
    assert_eq!(s.done(true), None);
    // Completed before its delay ended: it starts first.
    let mut s = ScreenState { active: id(1), prev: None, load: Some(ScreenLoadRun { started: false, ..run }), draw_prev_over_act: false };
    let done = s.done(false).unwrap();
    assert_eq!(done.started, Some(id(2)));
    assert_eq!(done.prev, None);
    assert_eq!(s.active, id(2));
}

#[test]
fn deleting_a_loading_screen_cancels_the_load() {
    let run = ScreenLoadRun { new: id(2), old: id(1), anim: ScreenAnim::MoveLeft(Duration::ms(100)), auto_delete: false, started: true };
    let mut s = ScreenState { active: id(2), prev: Some(id(1)), load: Some(run), draw_prev_over_act: false };
    assert_eq!(s.forget(&vec![id(7)]), LoadForget::Untouched);
    assert_eq!(s.forget(&vec![id(1)]), LoadForget::OldGone);
    assert!(s.load.is_some());
    assert_eq!(s.forget(&vec![id(9), id(2)]), LoadForget::Cancelled { old: id(1) });
    assert_eq!(s.load, None);
    assert_eq!(s.prev, None);
}

fn show(mode: ScrollbarMode) -> BarShow {
    BarShow { scrollable: true, mode, indev_dir: None, thickness: 4, bg_opa: 255, border_opa: 0, dir: Dir::from_bits(DIR_ALL),
        scroll_top: 0, scroll_bottom: 200, scroll_left: 0, scroll_right: 0 }
}

#[test]
fn scrollbar_visibility_follows_the_mode() {
    assert_eq!(bars_shown(&show(ScrollbarMode::Auto)), (false, true));
    assert_eq!(bars_shown(&show(ScrollbarMode::On)), (true, true));
    assert_eq!(bars_shown(&show(ScrollbarMode::Off)), (false, false));
    assert_eq!(bars_shown(&show(ScrollbarMode::Active)), (false, false));
    let active = BarShow { indev_dir: Some(Dir::from_bits(DIR_HOR)), ..show(ScrollbarMode::Active) };
    assert_eq!(bars_shown(&active), (true, false));
    let ver_only = BarShow { dir: Dir::from_bits(DIR_VER), ..show(ScrollbarMode::On) };
    assert_eq!(bars_shown(&ver_only), (false, true));
    let faint = BarShow { bg_opa: 2, ..show(ScrollbarMode::On) };
    assert_eq!(bars_shown(&faint), (false, false));
    let thin = BarShow { thickness: 0, ..show(ScrollbarMode::On) };
    assert_eq!(bars_shown(&thin), (false, false));
    let fixed = BarShow { scrollable: false, ..show(ScrollbarMode::On) };
    assert_eq!(bars_shown(&fixed), (false, false));
}

fn geom(st: i32, sb: i32) -> BarGeom {
    BarGeom { coords: Rect::new(0, 0, 100, 200), scroll_top: st, scroll_bottom: sb, scroll_left: 0, scroll_right: 0,
        thickness: 4, pad_top: 2, pad_bottom: 2, pad_left: 2, pad_right: 2, length: 0, min_size: 8, rtl: false }
}

#[test]
fn vertical_bar_tracks_the_scroll_position() {
    // Half of the content is visible: the bar is half the track, at the top, then at the bottom.
    assert_eq!(scrollbar_areas(&geom(0, 200), false, true), (None, Some(Rect::new(94, 2, 98, 100))));
    assert_eq!(scrollbar_areas(&geom(200, 0), false, true), (None, Some(Rect::new(94, 100, 98, 198))));
    assert_eq!(scrollbar_areas(&geom(100, 100), false, true), (None, Some(Rect::new(94, 51, 98, 149))));
    // Right-to-left: the bar moves to the left edge.
    let rtl = BarGeom { rtl: true, ..geom(0, 200) };
    assert_eq!(scrollbar_areas(&rtl, false, true).1, Some(Rect::new(2, 2, 6, 100)));
    // A fixed length, and the shortest bar.
    let long = BarGeom { length: 30, ..geom(0, 200) };
    assert_eq!(scrollbar_areas(&long, false, true).1, Some(Rect::new(94, 2, 98, 32)));
    let tall = BarGeom { scroll_bottom: 100_000, ..geom(0, 0) };
    assert_eq!(scrollbar_areas(&tall, false, true).1, Some(Rect::new(94, 2, 98, 10)));
    assert_eq!(scrollbar_areas(&geom(0, 200), false, false), (None, None));
}

#[test]
fn horizontal_bar_leaves_room_for_the_vertical_one() {
    let g = BarGeom { scroll_right: 100, ..geom(0, 200) };
    let (hor, ver) = scrollbar_areas(&g, true, true);
    // Track 100 - 2 - 2 - 4 = 92 px, half of it visible.
    assert_eq!(hor, Some(Rect::new(2, 194, 48, 198)));
    assert_eq!(ver, Some(Rect::new(94, 2, 98, 98)));
}

#[test]
fn scrollbar_tracks_span_the_edges() {
    let c = Rect::new(10, 20, 110, 220);
    assert_eq!(scrollbar_tracks(c, true, ScrollbarMode::Auto, 4, 2, 3, -1, false),
        Some((Rect::new(103, 20, 110, 220), Rect::new(10, 216, 110, 220))));
    assert_eq!(scrollbar_tracks(c, true, ScrollbarMode::Auto, 4, 2, 3, 1, true),
        Some((Rect::new(10, 20, 16, 220), Rect::new(10, 215, 110, 220))));
    assert_eq!(scrollbar_tracks(c, true, ScrollbarMode::Off, 4, 2, 3, 1, false), None);
    assert_eq!(scrollbar_tracks(c, false, ScrollbarMode::On, 4, 2, 3, 1, false), None);
}

fn src(part: u8, state: u16, props: Option<Vec<u16>>) -> TransSource {
    TransSource { transition_entry: false, part, state, item_part: false, props, dsc: state as u32 }
}

#[test]
fn transitions_of_a_state_change() {
    const PRESSED: u16 = 0x20;
    let es = vec![
        src(0, PRESSED, Some(vec![7, 8])),
        src(0, 0, Some(vec![8, 9])),
        src(1, 0, Some(vec![8])),
        src(0, 0x80, Some(vec![10])),
        TransSource { transition_entry: true, ..src(0, 0, Some(vec![11])) },
        TransSource { item_part: true, ..src(2, 0, Some(vec![12])) },
        src(0, 0, None),
    ];
    let picks = select_transitions(&es, PRESSED);
    let p = |part, state, prop| TransPick { part, state, prop, dsc: state as u32 };
    assert_eq!(picks, vec![p(0, PRESSED, 7), p(0, PRESSED, 8), p(0, 0, 9), p(1, 0, 8)]);
    // At most 32 properties.
    let many = vec![src(0, 0, Some((0..40).collect()))];
    assert_eq!(select_transitions(&many, 0).len(), 32);
}

#[test]
fn cancelling_transitions() {
    let mut t = TransList::new();
    let a = t.add(id(1), 0, 5);
    let b = t.add(id(1), 0, 5);
    let c = t.add(id(1), 0, 6);
    let d = t.add(id(2), 0, 5);
    assert_eq!((a, b, c, d), (0, 1, 2, 3));
    assert_eq!(t.position(c), Some(2));
    assert!(t.running(id(2), 0, 5));
    // A starting transition cancels the older ones of its property only.
    let gone = t.cancel(id(1), Some(0), Some(5), Some(b));
    assert_eq!(gone.iter().map(|r| r.serial).collect::<Vec<_>>(), vec![a]);
    assert_eq!(t.list.iter().map(|r| r.serial).collect::<Vec<_>>(), vec![b, c, d]);
    let gone = t.forget_nodes(&vec![id(2)]);
    assert_eq!(gone.len(), 1);
    assert_eq!(t.transition_count(), 2);
    let all = t.cancel(id(1), None, None, None);
    assert_eq!(all.len(), 2);
    assert_eq!(t.transition_count(), 0);
    // Serials compare in wrapping order.
    let mut w = TransList { list: Vec::new(), next_serial: u32::MAX };
    let old = w.add(id(3), 0, 1);
    let new = w.add(id(3), 0, 1);
    assert_eq!((old, new, w.next_serial), (u32::MAX, 0, 1));
    assert_eq!(w.cancel(id(3), None, None, Some(new)).len(), 1);
    assert_eq!(w.list[0].serial, new);
}

#[test]
fn load_requests_decide_what_happens_first() {
    let idle = ScreenState { active: id(1), prev: None, load: None, draw_prev_over_act: false };
    let anim = ScreenAnim::MoveLeft(Duration::ms(100)).auto_delete(true);
    assert_eq!(idle.load_start(id(2), false, anim), LoadDecision::Ignore);
    assert_eq!(idle.load_start(id(1), true, anim), LoadDecision::Ignore);
    assert_eq!(idle.load_start(id(2), true, anim), LoadDecision::Animate { old: id(1) });
    assert_eq!(idle.load_start(id(2), true, ScreenAnim::Off.auto_delete(true)), LoadDecision::Instant { old: id(1), auto_delete: true });
    assert_eq!(idle.load_start(id(2), true, ScreenAnim::Off.delay(Duration::ms(5))), LoadDecision::Animate { old: id(1) });
    let run = ScreenLoadRun { new: id(2), old: id(1), anim: ScreenAnim::FadeIn(Duration::ms(10)), auto_delete: false, started: false };
    let busy = ScreenState { load: Some(run), ..idle };
    assert_eq!(busy.load_start(id(2), true, anim), LoadDecision::Ignore);
    assert_eq!(busy.load_start(id(3), true, anim), LoadDecision::FinishRunning);
    let mut s = idle;
    assert!(s.begin_load(id(2), anim));
    assert_eq!(s.load, Some(ScreenLoadRun { new: id(2), old: id(1), anim: anim.anim, auto_delete: true, started: false }));
    assert!(!s.begin_load(id(3), anim));
    let mut t = idle;
    assert!(!t.begin_load(id(1), anim));
    assert_eq!(t, idle);
}
