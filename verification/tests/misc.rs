use lib::config::EngineConfig;
use lib::error::EngineError;
use lib::flags::{ObjFlags, HIDDEN, USER_4, SCROLL_CHAIN, SCROLL_CHAIN_HOR, SCROLL_CHAIN_VER, CHECKABLE,
    CLICKABLE, CLICK_FOCUSABLE, SCROLLABLE, SCROLL_ELASTIC, SCROLL_MOMENTUM, SCROLL_WITH_ARROW, SCROLL_ON_FOCUS,
    SNAPPABLE, PRESS_LOCK, GESTURE_BUBBLE, SCROLL_ONE, EVENT_BUBBLE, ADV_HITTEST, IGNORE_LAYOUT, FLOATING,
    SEND_DRAW_TASK_EVENTS, OVERFLOW_VISIBLE, FLEX_IN_NEW_TRACK, LAYOUT_PASSTHROUGH, LAYOUT_1, LAYOUT_2, WIDGET_1,
    WIDGET_2, USER_1, USER_2, USER_3, STATE_PRESSED, STATE_CHECKED, State};
use lib::geom::Rect;
use lib::names::{flag_names, state_names};
use lib::obj::{obj_class, Obj, OBJ_FLAGS};
use lib::refresh::{round_area, chunks, chunk_rows, chunk_at, clips_children};
use lib::scroll::{into_view_delta, into_view_scroll, speed_clamped_time, scroll_anim_time_min, scroll_anim_time_max, ScrollSnap};
use lib::event::{Dir, DIR_ALL, DIR_HOR, DIR_BOTTOM, DIR_VER};
use lib::geom::Point;
use lib::stats::PerfMonitor;
use lib::time::{Duration, Instant};
use lib::wake::Wake;
use lib::widget::{WidgetClass, GroupDef, Editable, Part};

#[test]
fn wake_min_ordering() {
    let t1 = Wake::At(Instant::from_millis(1));
    let t2 = Wake::At(Instant::from_millis(2));
    let order = [Wake::Now, t1, t2, Wake::Idle];
    for (i, a) in order.iter().enumerate() {
        for (j, b) in order.iter().enumerate() {
            let expect = order[i.min(j)];
            assert_eq!(a.min(*b), expect, "{a:?}.min({b:?})");
        }
    }
    assert!(Wake::Idle.is_idle());
    assert!(!t1.is_idle());
}

#[test]
fn round_expands_and_clips() {
    let b = Rect::new(0, 0, 100, 50);
    assert_eq!(round_area(Rect::new(3, 5, 10, 12), 8, b), Rect::new(0, 0, 16, 16));
    assert_eq!(round_area(Rect::new(3, 5, 10, 12), 1, b), Rect::new(3, 5, 10, 12));
    assert_eq!(round_area(Rect::new(90, 45, 99, 49), 8, b), Rect::new(88, 40, 100, 50));
}

#[test]
fn chunks_split_rows() {
    let a = Rect::new(0, 0, 320, 100);
    let c = chunks(a, 40, 1);
    assert_eq!(c.iter().map(|r| r.height()).collect::<Vec<_>>(), [40, 40, 20]);
    let c = chunks(Rect::new(0, 8, 16, 40), 12, 8);
    assert_eq!(c.iter().map(|r| r.height()).collect::<Vec<_>>(), [8, 8, 8, 8]);
    assert_eq!(chunk_rows(3, 8), 8);
    assert_eq!(chunk_at(a, 80, 40, 1), Rect::new(0, 80, 320, 100));
}

#[test]
fn clipping_of_children() {
    assert!(clips_children(ObjFlags::from_bits(CLICKABLE)));
    assert!(!clips_children(ObjFlags::from_bits(OVERFLOW_VISIBLE)));
    assert!(!clips_children(ObjFlags::from_bits(LAYOUT_PASSTHROUGH | CLICKABLE)));
}

#[test]
fn speed_clamped_matches_lvgl() {
    let t = |d| speed_clamped_time(160, scroll_anim_time_min(), scroll_anim_time_max(), d);
    assert_eq!(t(10), Duration::ms(200));
    assert_eq!(t(40), Duration::ms(250));
    assert_eq!(t(100), Duration::ms(400));
    assert_eq!(speed_clamped_time(0, scroll_anim_time_min(), scroll_anim_time_max(), 5), Duration::ms(200));
}

#[test]
fn window_needs_a_second() {
    let mut m = PerfMonitor::default();
    assert!(!m.window_done(Instant::from_millis(5000)));
    m.frame(Instant::from_millis(0), 500_000);
    assert!(!m.window_done(Instant::from_millis(999)));
    assert!(m.window_done(Instant::from_millis(1000)));
    assert_eq!((m.fps(), m.cpu_percent()), (1, 50));
    assert!(m.window_done(Instant::from_millis(2000)));
    assert_eq!((m.fps(), m.cpu_percent()), (0, 0));
}

#[test]
fn perf_monitor_counts_frames_per_second() {
    let mut m = PerfMonitor::default();
    let mut t = 0u64;
    for _ in 0..=62 {
        m.frame(Instant::from_millis(t), 4_000);
        t += 16;
    }
    assert!(m.window_done(Instant::from_millis(t)));
    assert_eq!(m.fps(), 62);
    assert_eq!(m.cpu_percent(), 25);
}

#[test]
fn config_default_is_valid() {
    let c = EngineConfig::default();
    assert!(c.validate().is_ok());
    assert_eq!(c.refr_period, Duration::ms(16));
    assert_eq!(c.layer_buf_bytes, 24 * 1024);
    assert_eq!(c.long_press_time, Duration::ms(400));
    assert_eq!(c.render_config().layer_buf_bytes, 24 * 1024);
}

#[test]
fn config_validate_rejects_zero_period() {
    let c = EngineConfig { refr_period: Duration::ms(0), ..EngineConfig::default() };
    assert!(matches!(c.validate(), Err(EngineError::InvalidConfig(_))));
    let c = EngineConfig { max_dirty_areas: 33, ..EngineConfig::default() };
    assert!(c.validate().is_err());
    let c = EngineConfig { max_dirty_areas: 0, ..EngineConfig::default() };
    assert!(c.validate().is_err());
    let c = EngineConfig { layer_buf_bytes: 1024, ..EngineConfig::default() };
    assert!(c.validate().is_err());
}

#[test]
fn input_timing_comes_from_the_config() {
    let t = EngineConfig::default().input_timing();
    assert_eq!(t.long_press, Duration::ms(400));
    assert_eq!(t.multi_click_distance, 5);
    assert_eq!(t.scroll_throw, 10);
}

#[test]
fn scroll_chain_is_both_directions() {
    assert_eq!(SCROLL_CHAIN, SCROLL_CHAIN_HOR | SCROLL_CHAIN_VER);
    assert_eq!(flag_names(ObjFlags::empty()), "-");
    assert_eq!(flag_names(ObjFlags::from_bits(HIDDEN | USER_4)), "HIDDEN|USER_4");
}

#[test]
fn all_flags_distinct() {
    let all = [HIDDEN, CLICKABLE, CLICK_FOCUSABLE, CHECKABLE, SCROLLABLE, SCROLL_ELASTIC, SCROLL_MOMENTUM,
        SCROLL_ONE, SCROLL_CHAIN_HOR, SCROLL_CHAIN_VER, SCROLL_ON_FOCUS, SCROLL_WITH_ARROW, SNAPPABLE, PRESS_LOCK,
        EVENT_BUBBLE, GESTURE_BUBBLE, ADV_HITTEST, IGNORE_LAYOUT, FLOATING, SEND_DRAW_TASK_EVENTS, OVERFLOW_VISIBLE,
        FLEX_IN_NEW_TRACK, LAYOUT_PASSTHROUGH, LAYOUT_1, LAYOUT_2, WIDGET_1, WIDGET_2, USER_1, USER_2, USER_3, USER_4];
    let mut seen = 0u32;
    for f in all {
        assert_eq!(seen & f, 0, "{f:#x} overlaps");
        seen |= f;
    }
    assert_eq!(seen.count_ones(), 31);
    // Every flag has its own name, composites never show.
    assert_eq!(flag_names(ObjFlags::from_bits(SCROLL_CHAIN)), "SCROLL_CHAIN_HOR|SCROLL_CHAIN_VER");
    assert_eq!(flag_names(ObjFlags::from_bits(seen)).split('|').count(), 31);
}

#[test]
fn state_names_list_the_set_states() {
    assert_eq!(state_names(State::from_bits(0)), "-");
    assert_eq!(state_names(State::from_bits(STATE_CHECKED | STATE_PRESSED)), "CHECKED|PRESSED");
}

#[test]
fn class_builder_is_const() {
    let c = WidgetClass::new("c")
        .parts(&[Part::Main, Part::Knob])
        .default_flags(ObjFlags::from_bits(CHECKABLE))
        .group_def(GroupDef::False)
        .editable(Editable::True)
        .theme_inheritable(false);
    assert_eq!(c.name, "c");
    assert_eq!(c.parts, &[Part::Main, Part::Knob]);
    assert_eq!(c.default_flags, ObjFlags::from_bits(CHECKABLE));
    assert_eq!(c.group_def, GroupDef::False);
    assert_eq!(c.editable, Editable::True);
    assert!(!c.theme_inheritable);
    let d = WidgetClass::new("d");
    assert_eq!(d.parts, &[Part::Main]);
    assert_eq!(d.group_def, GroupDef::Default);
    assert_eq!(d.editable, Editable::Inherit);
}

#[test]
fn obj_class_default_flags_match_lvgl() {
    let expected = CLICKABLE | CLICK_FOCUSABLE | SCROLLABLE | SCROLL_ELASTIC | SCROLL_MOMENTUM | SCROLL_WITH_ARROW
        | SCROLL_CHAIN_HOR | SCROLL_CHAIN_VER | SCROLL_ON_FOCUS | SNAPPABLE | PRESS_LOCK | GESTURE_BUBBLE;
    assert_eq!(obj_class().default_flags.bits, expected);
    assert_eq!(OBJ_FLAGS, expected);
    assert!(!obj_class().default_flags.contains(HIDDEN));
    assert_eq!(Obj.class().name, "obj");
}

#[test]
fn driver_error_truncates() {
    let long = "x".repeat(200);
    let EngineError::Driver(s) = EngineError::driver(&long) else {
        panic!("variant");
    };
    assert_eq!(s.len(), 64);
    assert!(EngineError::TooManyDisplays.message().contains("displays"));
    // Multi-byte characters are never split.
    let EngineError::Driver(s) = EngineError::driver(&"é".repeat(40)) else {
        panic!("variant");
    };
    assert_eq!(s.len(), 64);
    assert_eq!(s.chars().count(), 32);
}

#[test]
fn error_messages() {
    assert_eq!(EngineError::BufferTooSmall { needed: 100, got: 10 }.message(), "buffer too small: 10 bytes, 100 needed");
    assert_eq!(EngineError::InvalidConfig("cycle").message(), "invalid configuration: cycle");
    assert_eq!(EngineError::NodeNotFound(lib::ids::NodeId::from_raw((1 << 16) | 5)).message(), "node n5g1 not found");
}

#[test]
fn scrolling_a_child_into_view() {
    // Parent 0..100 with 10 px paddings; a child at 95..105 below the visible part.
    assert_eq!(into_view_delta(ScrollSnap::Off, 0, 100, 10, 10, 95, 105, 0, 0, 50), -15);
    assert_eq!(into_view_delta(ScrollSnap::Off, 0, 100, 10, 10, 95, 105, 0, 0, 10), 0);
    assert_eq!(into_view_delta(ScrollSnap::Start, 0, 100, 10, 10, 95, 105, 0, 0, 50), -85);
    assert_eq!(into_view_delta(ScrollSnap::End, 0, 100, 10, 10, 95, 105, 0, 0, 50), -15);
    assert_eq!(into_view_delta(ScrollSnap::Center, 0, 100, 10, 10, 95, 105, 0, 0, 50), -50);
    // Above the visible part, with and without room to scroll back.
    assert_eq!(into_view_delta(ScrollSnap::Off, 0, 100, 10, 10, -20, -10, 0, 30, 0), 30);
    assert_eq!(into_view_delta(ScrollSnap::Off, 0, 100, 10, 10, -20, -10, 0, 20, 0), 0);
    // Already visible.
    assert_eq!(into_view_delta(ScrollSnap::Off, 0, 100, 10, 10, 20, 30, 0, 0, 0), 0);
}

#[test]
fn into_view_scroll_takes_both_axes_and_scroll_directions() {
    let parent = Rect { x0: 0, y0: 0, x1: 100, y1: 100 };
    let area = Rect { x0: 20, y0: 95, x1: 30, y1: 105 };
    let space = (10, 10, 10, 10);
    let zero = Point { x: 0, y: 0 };
    let room = (0, 0, 0, 50);
    let all = Dir { bits: DIR_ALL };
    assert_eq!(into_view_scroll(area, area, parent, space, zero, room, ScrollSnap::Off, ScrollSnap::Off, all), Point { x: 0, y: -15 });
    let no_up = Dir { bits: DIR_HOR | DIR_BOTTOM };
    assert_eq!(into_view_scroll(area, area, parent, space, zero, room, ScrollSnap::Off, ScrollSnap::Off, no_up), Point { x: 0, y: 0 });
    // A snapping axis aligns the child's coordinates, not the area.
    let child = Rect { x0: 20, y0: 60, x1: 30, y1: 70 };
    assert_eq!(into_view_scroll(area, child, parent, space, zero, room, ScrollSnap::Off, ScrollSnap::Start, all), Point { x: 0, y: -50 });
    assert_eq!(into_view_scroll(area, child, parent, space, zero, room, ScrollSnap::Start, ScrollSnap::Off, Dir { bits: DIR_VER }), Point { x: 0, y: -15 });
    assert_eq!(into_view_scroll(area, child, parent, space, zero, room, ScrollSnap::Start, ScrollSnap::Off, all), Point { x: -10, y: -15 });
}
