use beam_agent::input::{
    self, key_inject_params, FakeInput, InputInjector, BUTTON_PRESS_EVENT, BUTTON_RELEASE_EVENT,
    MOTION_NOTIFY_EVENT, PIXELS_PER_NOTCH, SCROLL_DEADZONE,
};
use x11rb::protocol::xproto;

fn mouse_abs_to_pixels(x: f64, y: f64, width: u32, height: u32) -> (i16, i16) {
    input::mouse_abs_to_pixels(x.to_bits(), y.to_bits(), width, height)
}

fn mouse_rel_round(dx: f64, dy: f64) -> Option<(i16, i16)> {
    input::mouse_rel_round(dx.to_bits(), dy.to_bits())
}

fn accumulate_scroll(accum: &mut f64, notches: f64) -> i32 {
    let mut bits = accum.to_bits();
    let discrete = InputInjector::accumulate_scroll(&mut bits, notches.to_bits());
    *accum = f64::from_bits(bits);
    discrete
}

fn scroll_delta_is_active(delta: f64) -> bool {
    InputInjector::scroll_delta_is_active(delta.to_bits())
}

fn injector() -> InputInjector {
    InputInjector::new(42, true).unwrap()
}

#[test]
fn key_inject_params_press_is_key_press_event() {
    let (event_type, x_keycode) = key_inject_params(30, true);
    assert_eq!(event_type, xproto::KEY_PRESS_EVENT);
    assert_eq!(x_keycode, 38); // 30 + 8
}

#[test]
fn key_inject_params_release_is_key_release_event() {
    let (event_type, x_keycode) = key_inject_params(30, false);
    assert_eq!(event_type, xproto::KEY_RELEASE_EVENT);
    assert_eq!(x_keycode, 38);
}

#[test]
fn key_inject_params_applies_evdev_offset() {
    let (_, x_keycode) = key_inject_params(0, true);
    assert_eq!(x_keycode, 8);
}

#[test]
fn key_inject_params_max_u8_keycode() {
    // 247 + 8 = 255 = u8::MAX
    let (_, x_keycode) = key_inject_params(247, true);
    assert_eq!(x_keycode, 255);
}

#[test]
fn button_left() {
    assert_eq!(InputInjector::map_button(0).unwrap(), 1);
}

#[test]
fn button_middle() {
    assert_eq!(InputInjector::map_button(1).unwrap(), 2);
}

#[test]
fn button_right() {
    assert_eq!(InputInjector::map_button(2).unwrap(), 3);
}

#[test]
fn button_unknown_rejected() {
    assert!(InputInjector::map_button(3).is_err());
    assert!(InputInjector::map_button(255).is_err());
}

#[test]
fn map_button_known_buttons_are_offset_by_one() {
    // Browser button index → X11 button: 0→1, 1→2, 2→3.
    for browser in 0u8..3 {
        let x11 = InputInjector::map_button(browser).unwrap();
        assert_eq!(
            x11,
            browser + 1,
            "Browser button {browser} should map to X11 {}",
            browser + 1
        );
    }
}

#[test]
fn map_button_errors_for_each_unknown_index() {
    // Anything from 3 upwards must fail, not silently map to a stale button.
    for b in [3u8, 4, 5, 10, 100] {
        assert!(
            InputInjector::map_button(b).is_err(),
            "Browser button {b} should be rejected"
        );
    }
}

#[test]
fn map_button_rejects_u8_max() {
    assert!(InputInjector::map_button(u8::MAX).is_err());
}

#[test]
fn map_button_rejects_three_specifically() {
    // 3 is the first invalid value (the next one after 2=right).
    // Browser events never produce 3+, but defensive check.
    let err = InputInjector::map_button(3).unwrap_err();
    assert!(
        err.contains('3'),
        "Error must mention the bad index"
    );
}

#[test]
fn vertical_scroll_positive_yields_button_4() {
    // Positive discrete = scroll up = X11 button 4.
    let (button, count) = InputInjector::vertical_scroll_button(1).unwrap();
    assert_eq!(button, 4);
    assert_eq!(count, 1);
}

#[test]
fn vertical_scroll_negative_yields_button_5() {
    // Negative discrete = scroll down = X11 button 5.
    let (button, count) = InputInjector::vertical_scroll_button(-3).unwrap();
    assert_eq!(button, 5);
    assert_eq!(count, 3, "Count must be the absolute value, not negative");
}

#[test]
fn vertical_scroll_zero_yields_none() {
    assert!(InputInjector::vertical_scroll_button(0).is_none());
}

#[test]
fn vertical_scroll_large_magnitude() {
    let (button, count) = InputInjector::vertical_scroll_button(120).unwrap();
    assert_eq!(button, 4);
    assert_eq!(count, 120);
    let (button, count) = InputInjector::vertical_scroll_button(-120).unwrap();
    assert_eq!(button, 5);
    assert_eq!(count, 120);
}

#[test]
fn vertical_scroll_imin_does_not_panic() {
    let (button, count) = InputInjector::vertical_scroll_button(i32::MIN).unwrap();
    assert_eq!(button, 5);
    assert_eq!(count, i32::MIN.unsigned_abs());
}

#[test]
fn horizontal_scroll_positive_yields_button_7() {
    // Positive discrete = scroll right = X11 button 7.
    let (button, count) = InputInjector::horizontal_scroll_button(1).unwrap();
    assert_eq!(button, 7);
    assert_eq!(count, 1);
}

#[test]
fn horizontal_scroll_negative_yields_button_6() {
    // Negative discrete = scroll left = X11 button 6.
    let (button, count) = InputInjector::horizontal_scroll_button(-5).unwrap();
    assert_eq!(button, 6);
    assert_eq!(count, 5);
}

#[test]
fn horizontal_scroll_zero_yields_none() {
    assert!(InputInjector::horizontal_scroll_button(0).is_none());
}

#[test]
fn horizontal_scroll_imin_does_not_panic() {
    let (button, count) = InputInjector::horizontal_scroll_button(i32::MIN).unwrap();
    assert_eq!(button, 6);
    assert_eq!(count, i32::MIN.unsigned_abs());
}

#[test]
fn vertical_scroll_imax_does_not_overflow() {
    // i32::MAX as u32 is safe (no sign issue); verify the cast holds.
    let (button, count) = InputInjector::vertical_scroll_button(i32::MAX).unwrap();
    assert_eq!(button, 4);
    assert_eq!(count, i32::MAX as u32);
}

#[test]
fn horizontal_scroll_imax_does_not_overflow() {
    let (button, count) = InputInjector::horizontal_scroll_button(i32::MAX).unwrap();
    assert_eq!(button, 7);
    assert_eq!(count, i32::MAX as u32);
}

#[test]
fn event_codes_are_those_of_the_protocol() {
    assert_eq!(BUTTON_PRESS_EVENT, xproto::BUTTON_PRESS_EVENT);
    assert_eq!(BUTTON_RELEASE_EVENT, xproto::BUTTON_RELEASE_EVENT);
    assert_eq!(MOTION_NOTIFY_EVENT, xproto::MOTION_NOTIFY_EVENT);
}

#[test]
fn injector_needs_xtest() {
    assert_eq!(
        InputInjector::new(42, false).unwrap_err(),
        "XTEST extension not available"
    );
}

#[test]
fn unknown_button_error_is_exact() {
    assert_eq!(
        InputInjector::map_button(9).unwrap_err(),
        "Unknown mouse button: 9"
    );
    assert!(injector().inject_button(9, true).is_err());
}

fn event(event_type: u8, detail: u8, root: u32, x: i16, y: i16) -> FakeInput {
    FakeInput {
        event_type,
        detail,
        root,
        x,
        y,
    }
}

#[test]
fn keys_and_buttons_become_events() {
    assert_eq!(
        injector().inject_key(30, true),
        event(xproto::KEY_PRESS_EVENT, 38, 42, 0, 0)
    );
    assert_eq!(
        injector().inject_button(2, false).unwrap(),
        event(xproto::BUTTON_RELEASE_EVENT, 3, 42, 0, 0)
    );
}

#[test]
fn motion_becomes_an_event() {
    assert_eq!(
        injector().inject_mouse_move_abs(0.5f64.to_bits(), 0.5f64.to_bits(), 1920, 1080),
        event(MOTION_NOTIFY_EVENT, 0, 42, 960, 540)
    );
    assert_eq!(
        injector().inject_mouse_move_rel(1.4f64.to_bits(), (-2.6f64).to_bits()),
        Some(event(MOTION_NOTIFY_EVENT, 1, 0, 1, -3))
    );
    assert_eq!(
        injector().inject_mouse_move_rel(0.4f64.to_bits(), (-0.4f64).to_bits()),
        None
    );
}

#[test]
fn scrolling_clicks_once_per_notch() {
    let mut injector = injector();
    let press = |button| event(BUTTON_PRESS_EVENT, button, 42, 0, 0);
    let release = |button| event(BUTTON_RELEASE_EVENT, button, 42, 0, 0);
    assert_eq!(
        injector.inject_scroll(30.0f64.to_bits(), 75.0f64.to_bits()),
        vec![press(5), release(5), press(5), release(5), press(7), release(7)]
    );
    // Half a notch down is left.
    assert_eq!(
        injector.inject_scroll(0.0f64.to_bits(), 15.0f64.to_bits()),
        vec![press(5), release(5)]
    );
    assert!(injector
        .inject_scroll(f64::NAN.to_bits(), 0.001f64.to_bits())
        .is_empty());
    assert_eq!(
        injector.inject_scroll((-30.0f64).to_bits(), (-30.0f64).to_bits()),
        vec![press(4), release(4), press(6), release(6)]
    );
}

#[test]
fn pixels_are_those_of_floating_point_products() {
    for step in 0..=2000u32 {
        let x = f64::from(step) / 1999.0 - 0.0001;
        for size in [1u32, 7, 800, 1080, 1920, 3840, 40_000, u32::MAX] {
            let want = (x.clamp(0.0, 1.0) * f64::from(size)) as i16;
            assert_eq!(mouse_abs_to_pixels(x, x, size, size), (want, want), "{x} {size}");
        }
    }
    assert_eq!(mouse_abs_to_pixels(0.3, 0.7, 1920, 10), (576, 7));
    assert_eq!(mouse_abs_to_pixels(f64::NAN, f64::INFINITY, 10, 10), (0, 10));
    assert_eq!(mouse_abs_to_pixels(5e-324, -0.0, 1920, 1080), (0, 0));
}

#[test]
fn relative_motion_is_held_to_16_bits() {
    assert_eq!(mouse_rel_round(1e300, -1e300), Some((32767, -32768)));
    assert_eq!(mouse_rel_round(f64::INFINITY, f64::NAN), Some((32767, 0)));
    assert_eq!(mouse_rel_round(32767.5, -32768.5), Some((32767, -32768)));
    assert_eq!(mouse_rel_round(0.5, -0.5), Some((1, -1)));
    for step in -4000..4000i32 {
        let dx = f64::from(step) * 0.37;
        assert_eq!(mouse_rel_round(dx, 40.0), Some((dx.round() as i16, 40)));
    }
}

/// The scroll of one axis as the hardware computes it.
fn native_scroll(accum: &mut f64, notches: f64) -> i32 {
    *accum += notches;
    let discrete = *accum as i32;
    if discrete != 0 {
        *accum -= discrete as f64;
    }
    discrete
}

#[test]
fn scrolling_is_exact_to_the_last_bit() {
    let mut seed: u64 = 7;
    let (mut ours, mut native) = (0.0f64, 0.0f64);
    for _ in 0..5000 {
        seed = seed.wrapping_mul(6364136223846793005).wrapping_add(1442695040888963407);
        let step = ((seed >> 11) as f64 / (1u64 << 53) as f64 - 0.5) * 9.0;
        assert_eq!(accumulate_scroll(&mut ours, step), native_scroll(&mut native, step));
        assert_eq!(ours, native);
        assert!(ours.abs() < 1.0);
    }
}

#[test]
fn mouse_abs_to_pixels_center() {
    let (px, py) = mouse_abs_to_pixels(0.5, 0.5, 1920, 1080);
    assert_eq!(px, 960);
    assert_eq!(py, 540);
}

#[test]
fn mouse_abs_to_pixels_top_left() {
    let (px, py) = mouse_abs_to_pixels(0.0, 0.0, 1920, 1080);
    assert_eq!(px, 0);
    assert_eq!(py, 0);
}

#[test]
fn mouse_abs_to_pixels_bottom_right() {
    let (px, py) = mouse_abs_to_pixels(1.0, 1.0, 1920, 1080);
    assert_eq!(px, 1920);
    assert_eq!(py, 1080);
}

#[test]
fn mouse_abs_to_pixels_clamps_out_of_range_high() {
    let (px, py) = mouse_abs_to_pixels(2.0, 5.0, 1920, 1080);
    assert_eq!(px, 1920);
    assert_eq!(py, 1080);
}

#[test]
fn mouse_abs_to_pixels_clamps_out_of_range_low() {
    let (px, py) = mouse_abs_to_pixels(-1.5, -10.0, 1920, 1080);
    assert_eq!(px, 0);
    assert_eq!(py, 0);
}

#[test]
fn mouse_abs_to_pixels_small_viewport() {
    let (px, py) = mouse_abs_to_pixels(0.5, 0.5, 800, 600);
    assert_eq!(px, 400);
    assert_eq!(py, 300);
}

#[test]
fn mouse_rel_round_nonzero_returns_some() {
    let result = mouse_rel_round(1.4, -2.6);
    assert_eq!(result, Some((1, -3)));
}

#[test]
fn mouse_rel_round_zero_returns_none() {
    assert_eq!(mouse_rel_round(0.0, 0.0), None);
}

#[test]
fn mouse_rel_round_sub_half_returns_none() {
    // 0.4 rounds to 0, 0.4 rounds to 0 → None
    assert_eq!(mouse_rel_round(0.4, 0.4), None);
}

#[test]
fn mouse_rel_round_one_zero_one_nonzero() {
    // dx rounds to nonzero, dy rounds to zero → Some
    let r = mouse_rel_round(1.0, 0.0);
    assert_eq!(r, Some((1, 0)));
}

#[test]
fn mouse_rel_round_zero_then_nonzero() {
    let r = mouse_rel_round(0.0, -5.5);
    assert_eq!(r, Some((0, -6)));
}

#[test]
fn mouse_rel_round_at_negative_boundary_returns_some() {
    // -0.5 rounds away from zero per Rust's f64::round() semantics
    let r = mouse_rel_round(-0.6, 0.0);
    assert_eq!(r, Some((-1, 0)));
}

#[test]
fn accumulate_scroll_single_full_notch() {
    let mut accum: f64 = 0.0;
    let discrete = accumulate_scroll(&mut accum, 1.0);
    assert_eq!(discrete, 1);
    assert!(accum.abs() < 0.001);
}

#[test]
fn accumulate_scroll_fractional_accumulates() {
    let mut accum: f64 = 0.0;
    assert_eq!(accumulate_scroll(&mut accum, 0.3), 0);
    assert_eq!(accumulate_scroll(&mut accum, 0.3), 0);
    assert_eq!(accumulate_scroll(&mut accum, 0.3), 0);
    assert_eq!(accumulate_scroll(&mut accum, 0.3), 1);
    assert!((accum - 0.2).abs() < 0.001);
}

#[test]
fn accumulate_scroll_negative_direction() {
    let mut accum: f64 = 0.0;
    assert_eq!(accumulate_scroll(&mut accum, -1.0), -1);
    assert!(accum.abs() < 0.001);
}

#[test]
fn accumulate_scroll_large_jump() {
    let mut accum: f64 = 0.0;
    let discrete = accumulate_scroll(&mut accum, 5.7);
    assert_eq!(discrete, 5);
    assert!((accum - 0.7).abs() < 0.001);
}

#[test]
fn accumulate_scroll_preserves_fraction_across_calls() {
    let mut accum: f64 = 0.0;
    accumulate_scroll(&mut accum, 0.5);
    assert!((accum - 0.5).abs() < 0.001);
    accumulate_scroll(&mut accum, 0.5);
    assert!(accum.abs() < 0.001);
}

#[test]
fn accumulate_scroll_direction_change() {
    let mut accum: f64 = 0.0;
    accumulate_scroll(&mut accum, 0.5);
    assert!((accum - 0.5).abs() < 0.001);
    accumulate_scroll(&mut accum, -0.5);
    assert!(accum.abs() < 0.001);
}

#[test]
fn accumulate_scroll_exact_zero_input_returns_zero() {
    // A 0.0 push should be a no-op and leave the accumulator untouched.
    let mut accum: f64 = 0.5;
    let discrete = accumulate_scroll(&mut accum, 0.0);
    assert_eq!(discrete, 0);
    assert!((accum - 0.5).abs() < 0.001);
}

#[test]
fn accumulate_scroll_just_under_one_notch_stays_subnotch() {
    let mut accum: f64 = 0.0;
    let discrete = accumulate_scroll(&mut accum, 0.999);
    assert_eq!(discrete, 0);
    assert!((accum - 0.999).abs() < 0.001);
}

#[test]
fn accumulate_scroll_two_subnotch_pushes_yield_one_notch() {
    let mut accum: f64 = 0.0;
    assert_eq!(accumulate_scroll(&mut accum, 0.6), 0);
    // First push leaves 0.6 in the bank.
    let discrete = accumulate_scroll(&mut accum, 0.6);
    assert_eq!(discrete, 1);
    // 0.6 + 0.6 = 1.2 → 1 notch emitted, 0.2 left in the accumulator.
    assert!((accum - 0.2).abs() < 0.001);
}

#[test]
fn accumulate_scroll_large_negative_jump() {
    // Symmetric to the positive large-jump case: -5.7 → -5 with -0.7 carry.
    let mut accum: f64 = 0.0;
    let discrete = accumulate_scroll(&mut accum, -5.7);
    assert_eq!(discrete, -5);
    assert!((accum - (-0.7)).abs() < 0.001);
}

#[test]
fn accumulate_scroll_negative_then_positive_returns_to_zero() {
    let mut accum: f64 = 0.0;
    let _ = accumulate_scroll(&mut accum, -0.3);
    let _ = accumulate_scroll(&mut accum, 0.3);
    assert!(accum.abs() < 0.001);
}

#[test]
fn accumulate_scroll_keeps_sign_of_residual() {
    // Negative pushes should leave a negative residual (no sign flip from `as i32`).
    let mut accum: f64 = 0.0;
    let _ = accumulate_scroll(&mut accum, -1.4);
    // 1 negative notch emitted, residual is between -1 and 0.
    assert!(accum < 0.0, "residual should be negative, got {accum}");
    assert!(accum > -1.0, "residual should be > -1, got {accum}");
}

#[test]
fn accumulate_scroll_handles_very_large_positive() {
    // 1000 pixels of scroll should yield 1000 notches.
    let mut accum: f64 = 0.0;
    let discrete = accumulate_scroll(&mut accum, 1000.0);
    assert_eq!(discrete, 1000);
    assert!(accum.abs() < 0.001);
}

#[test]
fn accumulate_scroll_handles_very_large_negative() {
    let mut accum: f64 = 0.0;
    let discrete = accumulate_scroll(&mut accum, -1000.0);
    assert_eq!(discrete, -1000);
    assert!(accum.abs() < 0.001);
}

#[test]
fn accumulate_scroll_converges_after_thousand_subnotch_pushes() {
    // Stress: 1000 pushes of 0.001 = 1.000 total, which should produce
    // exactly 1 notch with residue close to zero.
    let mut accum: f64 = 0.0;
    let mut total = 0i32;
    for _ in 0..1000 {
        total += accumulate_scroll(&mut accum, 0.001);
    }
    assert_eq!(total, 1);
    assert!(accum.abs() < 0.01);
}

#[test]
fn accumulate_scroll_zero_input_with_positive_residue() {
    // Zero input should NOT clear the existing residue.
    let mut accum: f64 = 0.4;
    assert_eq!(accumulate_scroll(&mut accum, 0.0), 0);
    assert!((accum - 0.4).abs() < 0.001);
}

#[test]
fn accumulate_scroll_pixel_to_notch_division() {
    // Calling sites use `dy / 30.0` to convert pixels-to-notches. Verify
    // that exactly 30 pixels produce 1 notch.
    let mut accum: f64 = 0.0;
    let discrete = accumulate_scroll(&mut accum, 30.0 / 30.0);
    assert_eq!(discrete, 1);
}

#[test]
fn scroll_delta_active_above_deadzone() {
    assert!(scroll_delta_is_active(0.002));
    assert!(scroll_delta_is_active(-0.002));
    assert!(scroll_delta_is_active(30.0));
    assert!(scroll_delta_is_active(-30.0));
}

#[test]
fn scroll_delta_inactive_at_or_below_deadzone() {
    // Strict `> 0.001`, so 0.001 itself is inactive.
    assert!(!scroll_delta_is_active(0.0));
    assert!(!scroll_delta_is_active(0.001));
    assert!(!scroll_delta_is_active(-0.001));
    assert!(!scroll_delta_is_active(0.0001));
    assert!(!scroll_delta_is_active(-0.0001));
}

#[test]
fn scroll_pixels_per_notch_locks_to_30() {
    // The constant pins the "30 pixels = 1 notch" UX agreed across the
    // browser + agent. Changing it without a paired browser update
    // produces visibly different scroll speed.
    assert_eq!(f64::from(PIXELS_PER_NOTCH), 30.0);
}

#[test]
fn scroll_deadzone_locks_to_one_thousandth() {
    // Browsers occasionally emit residual sub-pixel deltas (~1e-5);
    // the dead-zone must be small enough that intentional scrolls
    // (≥0.01) always fire, but big enough that noise doesn't.
    assert_eq!(f64::from_bits(SCROLL_DEADZONE), 0.001);
}

#[test]
fn pixels_stay_on_the_screen() {
    for x in [-1.0, 0.0, 0.3, 0.999_999_999, 1.0, 7.5, f64::INFINITY, f64::NAN] {
        for size in [0u32, 1, 1920, 32_767, 40_000, u32::MAX] {
            let (px, py) = mouse_abs_to_pixels(x, x, size, size);
            assert!(px >= 0 && px as u32 <= size);
            assert_eq!(px, py);
        }
    }
}
