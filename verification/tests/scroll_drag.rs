use lib::event::{Dir, DIR_HOR, DIR_VER, DIR_ALL, DIR_LEFT, DIR_RIGHT, DIR_TOP, DIR_BOTTOM};
use lib::geom::Point;
use lib::input::Timing;
use lib::scroll_drag::{one_windows, throw_decay, elastic_diff, limit_diff, throw_predict, find_scroll_target, gesture_step,
    ScrollCandidate, ScrollLimits};
use lib::scroll::{ScrollSnap, COORD_MAX, COORD_MIN};
use lib::time::Duration;

#[test]
fn throw_decay_matches_lvgl() {
    assert_eq!(throw_decay(20, 0), 20);
    assert_eq!(throw_decay(20, 30), 20 * (512 - 155) / 512);
    assert_eq!(throw_decay(20, 99), 0);
    assert_eq!(throw_decay(-20, 60), -(20 * (512 - 310) / 512));
}

#[test]
fn elastic_edges() {
    // Without elasticity the content stops at the edge.
    assert_eq!(elastic_diff(10, 4, 100, false, false, true, true), 4);
    assert_eq!(elastic_diff(-10, 100, 3, false, false, true, true), -3);
    assert_eq!(elastic_diff(10, 0, 100, false, false, true, true), 0);
    assert_eq!(elastic_diff(10, 40, 100, false, false, true, true), 10);
    // Elastic and scrolled out: four times slower, rounded half away from zero.
    assert_eq!(elastic_diff(10, -1, 100, true, false, true, true), 3);
    assert_eq!(elastic_diff(-10, -1, 100, true, false, true, true), -3);
    assert_eq!(elastic_diff(10, 5, 100, true, false, true, true), 10);
    // Snapping: slowed while one side has no more snap points.
    assert_eq!(elastic_diff(8, 5, 5, true, true, false, true), 2);
    assert_eq!(elastic_diff(8, 5, 5, true, true, true, true), 8);
}

#[test]
fn scroll_limits_clamp_the_sum() {
    assert_eq!(limit_diff(0, 30, -20, 20), 20);
    assert_eq!(limit_diff(0, -30, -20, 20), -20);
    assert_eq!(limit_diff(5, 3, -20, 20), 3);
    let a = ScrollLimits::none();
    assert_eq!((a.x1, a.y1, a.x2, a.y2), (COORD_MIN, COORD_MIN, COORD_MAX, COORD_MAX));
    let b = ScrollLimits { x1: COORD_MAX, y1: 0, x2: 0, y2: 7 }.opened();
    assert_eq!((b.x1, b.y1, b.x2, b.y2), (COORD_MIN, COORD_MIN, COORD_MAX, 7));
}

#[test]
fn throw_prediction_sums_the_decaying_speed() {
    // 100, 90, 81, 72, 64, 57, 51, 45, 40, 36, 32, 28, 25, 22, 19, 17, 15, 13, 11, 9, 8, 7, 6, 5, 4, 3, 2, 1
    let expected: i32 = {
        let mut v = 100i32;
        let mut s = 0i32;
        while v != 0 {
            s += v;
            v = v * 90 / 100;
        }
        s
    };
    assert_eq!(throw_predict(100, 10), expected);
    assert_eq!(throw_predict(-100, 10), -expected);
    assert_eq!(throw_predict(0, 0), 0);
    assert_eq!(throw_predict(50, 100), 50);
}

fn cand(scrollable: bool, dir: u8, room: i32) -> ScrollCandidate {
    ScrollCandidate {
        scrollable,
        chain_hor: true,
        chain_ver: true,
        dir: Dir::from_bits(dir),
        left: room,
        right: room,
        top: room,
        bottom: room,
    }
}

#[test]
fn scroll_target_is_the_first_node_that_can_scroll() {
    // A plain button inside a vertical list inside a screen.
    let path = vec![cand(false, 0, 0), cand(true, DIR_VER, 50), cand(true, DIR_ALL, 50)];
    let r = find_scroll_target(&path, Point::new(0, 12), 10).unwrap();
    assert_eq!(r.0, 1);
    assert_eq!(r.1.bits, DIR_VER);
    // A horizontal drag skips the vertical list.
    let r = find_scroll_target(&path, Point::new(-15, 2), 10).unwrap();
    assert_eq!(r.0, 2);
    assert_eq!(r.1.bits, DIR_HOR);
    // Below the scroll limit nothing scrolls.
    assert!(find_scroll_target(&path, Point::new(0, 5), 10).is_none());
    // A node without the chain flag ends the search.
    let mut stop = cand(false, 0, 0);
    stop.chain_ver = false;
    let path = vec![stop, cand(true, DIR_VER, 50)];
    assert!(find_scroll_target(&path, Point::new(0, 12), 10).is_none());
    let _ = (DIR_LEFT, DIR_RIGHT, DIR_TOP, DIR_BOTTOM);
}

fn timing() -> Timing {
    Timing {
        long_press: Duration::ms(400),
        long_press_repeat: Duration::ms(100),
        multi_click: Duration::ms(300),
        multi_click_distance: 5,
        scroll_limit: 10,
        scroll_throw: 10,
        gesture_limit: 50,
        gesture_min_velocity: 3,
    }
}

#[test]
fn gesture_needs_enough_movement() {
    let t = timing();
    let (s, d) = gesture_step(Point::new(0, 0), Point::new(30, 2), &t);
    assert_eq!((s.x, s.y), (30, 2));
    assert!(d.is_none());
    let (s, d) = gesture_step(s, Point::new(30, 2), &t);
    assert_eq!((s.x, s.y), (60, 4));
    assert_eq!(d.unwrap().bits, DIR_RIGHT);
    // A slow read restarts the sum.
    let (s, d) = gesture_step(Point::new(40, 0), Point::new(1, -2), &t);
    assert_eq!((s.x, s.y), (1, -2));
    assert!(d.is_none());
    let (_, d) = gesture_step(Point::new(0, -45), Point::new(0, -10), &t);
    assert_eq!(d.unwrap().bits, DIR_TOP);
}

#[test]
fn scroll_one_looks_for_the_neighbouring_snap_points() {
    assert_eq!(one_windows(ScrollSnap::Off, 10, 50, true), None);
    assert_eq!(one_windows(ScrollSnap::Start, 10, 50, true), Some(((11, COORD_MAX), (COORD_MIN, 9))));
    assert_eq!(one_windows(ScrollSnap::Start, 10, 50, false), Some(((10, COORD_MAX), (COORD_MIN, 10))));
    assert_eq!(one_windows(ScrollSnap::End, 10, 50, false), Some(((49, COORD_MAX), (COORD_MIN, 49))));
    assert_eq!(one_windows(ScrollSnap::Center, 10, 50, true), Some(((31, COORD_MAX), (COORD_MIN, 29))));
}
