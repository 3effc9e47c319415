use lib::geom::Rect;
use lib::metrics::{dpx, dpx_min1, mul_div, clamp_u, effective_radius, over32, Over};
use lib::ext_draw::{ext_draw_base, ext_draw_final, length_px, LengthValue};

#[test]
fn dpx_rounds_like_lvgl() {
    assert_eq!(dpx(1, 130), 1);
    assert_eq!(dpx(10, 160), 10);
    assert_eq!(dpx(10, 320), 20);
    assert_eq!(dpx(-5, 160), -5);
    assert_eq!(dpx(0, 300), 0);
    assert_eq!(dpx(12, 130), 10);
}

#[test]
fn scrollbar_dpx_is_at_least_one() {
    assert_eq!(dpx_min1(130, 0), 0);
    assert_eq!(dpx_min1(130, 1), 1);
    assert_eq!(dpx_min1(320, 10), 20);
    assert_eq!(dpx_min1(160, -5), 1);
}

#[test]
fn mul_div_is_exact_in_64_bits() {
    assert_eq!(mul_div(100_000, 100_000, 1_000_000), 10_000);
    assert_eq!(mul_div(-7, 3, 2), -10);
    assert_eq!(mul_div(7, 3, -2), -10);
}

#[test]
fn clamp_u_clamps() {
    assert_eq!(clamp_u(-3, 10), 0);
    assert_eq!(clamp_u(13, 10), 10);
    assert_eq!(clamp_u(4, 10), 4);
}

#[test]
fn effective_radius_clamps() {
    let r = Rect::from_xywh(0, 0, 10, 30);
    assert_eq!(effective_radius(r, 100), 5);
    assert_eq!(effective_radius(r, -3), 0);
    assert_eq!(effective_radius(r, 3), 3);
}

#[test]
fn over32_matches_lvgl_rules() {
    // An opaque foreground wins; a transparent one leaves the background.
    assert_eq!(over32(255, 128), Over::Fg);
    assert_eq!(over32(0, 128), Over::Bg);
    assert_eq!(over32(128, 0), Over::Fg);
    // Two half-transparent layers: alpha 255 - (127 * 127 >> 8) = 192.
    match over32(128, 128) {
        Over::Mix { alpha, ratio } => {
            assert_eq!(alpha, 192);
            assert_eq!(ratio, (128u32 * 255 / 192) as u8);
        }
        other => panic!("{other:?}"),
    }
    assert_eq!(over32(100, 255), Over::Mix { ratio: 100, alpha: 255 });
}

#[test]
fn extra_draw_size_takes_the_widest_part() {
    assert_eq!(ext_draw_base(Some(10), 3, true, 2, 0, 0, 4), 10);
    assert_eq!(ext_draw_base(Some(-4), 3, true, -5, 0, 0, 0), 3);
    assert_eq!(ext_draw_base(Some(1), 3, false, 9, 0, 0, 0), 1);
    assert_eq!(ext_draw_base(None, 0, true, 9, 20, 5, 0), 20);
    assert_eq!(ext_draw_base(None, 0, true, 9, 0, 0, 30), 30);
    let base = Rect::new(0, 0, 100, 100);
    assert_eq!(ext_draw_final(10, Some((base, Rect::new(-5, -2, 107, 100)))), 17);
    assert_eq!(ext_draw_final(10, Some((base, Rect::new(5, 5, 95, 95)))), 10);
    assert_eq!(ext_draw_final(70_000, None), 65535);
    assert_eq!(ext_draw_final(-3, None), 0);
    assert_eq!(length_px(LengthValue::Pct(50), 200), 100);
    assert_eq!(length_px(LengthValue::Pct(-50), 3), -1);
    assert_eq!(length_px(LengthValue::Px(-4), 3), -4);
    assert_eq!(length_px(LengthValue::Int(7), 3), 7);
    assert_eq!(length_px(LengthValue::Content, 300), 0);
    assert_eq!(length_px(LengthValue::Other, 300), 0);
}
