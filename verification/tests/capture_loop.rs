use beam_agent::capture_loop::{
    capture_active_should_sleep, capture_state_transition_message, capture_wait_should_use_condvar,
    self, command_step, encoder_reset_cooldown_elapsed, encoder_reset_cooldown_remaining_ms,
    format_processing_resize_message, format_xrandr_resize_failure,
    frame_duration_ns_from_framerate, frame_wait, is_idle_state, is_resize_noop,
    select_frame_duration_ns, should_break_capture_loop, should_log_capture_error,
    should_log_capture_recovery, should_log_first_frame, should_recreate_encoder,
    should_warn_keyframe_while_backgrounded, CaptureCommand, CaptureLoop, CaptureStep, CommandStep,
    DrainStep, Drained, Recreation, Wait,
};

fn format_capture_heartbeat_fps(frame_count: u64, elapsed_secs: f64) -> String {
    capture_loop::format_capture_heartbeat_fps(frame_count, elapsed_secs.to_bits())
}

fn capture_command_kind(cmd: &CaptureCommand) -> &'static str {
    match cmd {
        CaptureCommand::Resize { .. } => "Resize",
        CaptureCommand::ResetEncoder => "ResetEncoder",
    }
}

#[test]
fn capture_command_resize_is_constructable() {
    let cmd = CaptureCommand::Resize {
        width: 1920,
        height: 1080,
    };
    if let CaptureCommand::Resize { width, height } = cmd {
        assert_eq!(width, 1920);
        assert_eq!(height, 1080);
    } else {
        panic!("Expected Resize variant");
    }
}

#[test]
fn capture_command_reset_encoder_is_constructable() {
    let cmd = CaptureCommand::ResetEncoder;
    assert!(matches!(cmd, CaptureCommand::ResetEncoder));
}

#[test]
fn capture_command_sends_through_std_mpsc() {
    // The capture thread uses a std::sync::mpsc channel for commands.
    // Verify the variant survives a round-trip through the channel.
    let (tx, rx) = std::sync::mpsc::channel::<CaptureCommand>();
    tx.send(CaptureCommand::ResetEncoder).unwrap();
    tx.send(CaptureCommand::Resize {
        width: 800,
        height: 600,
    })
    .unwrap();
    match rx.recv().unwrap() {
        CaptureCommand::ResetEncoder => {}
        other => panic!(
            "Expected ResetEncoder, got {:?}",
            capture_command_kind(&other)
        ),
    }
    match rx.recv().unwrap() {
        CaptureCommand::Resize { width, height } => {
            assert_eq!(width, 800);
            assert_eq!(height, 600);
        }
        other => panic!("Expected Resize, got {:?}", capture_command_kind(&other)),
    }
}

#[test]
fn capture_command_kind_classifies_resize() {
    let cmd = CaptureCommand::Resize {
        width: 1,
        height: 2,
    };
    assert_eq!(capture_command_kind(&cmd), "Resize");
}

#[test]
fn capture_command_kind_classifies_reset_encoder() {
    assert_eq!(
        capture_command_kind(&CaptureCommand::ResetEncoder),
        "ResetEncoder"
    );
}

#[test]
fn frame_duration_active_when_neither_idle_nor_backgrounded() {
    // Standard hot-path: foreground + recently-active tab uses the
    // configured framerate.
    assert_eq!(
        select_frame_duration_ns(false, false, 16_666_666, 200_000_000, 1_000_000_000),
        16_666_666
    );
}

#[test]
fn frame_duration_idle_uses_idle_ns() {
    // Foreground but no input for >5 min: drop to ~5fps.
    assert_eq!(
        select_frame_duration_ns(false, true, 16_666_666, 200_000_000, 1_000_000_000),
        200_000_000
    );
}

#[test]
fn frame_duration_backgrounded_takes_priority_over_idle() {
    // Even if idle, backgrounded wins → ~1fps.
    assert_eq!(
        select_frame_duration_ns(true, true, 16_666_666, 200_000_000, 1_000_000_000),
        1_000_000_000
    );
}

#[test]
fn frame_duration_backgrounded_active_uses_background_ns() {
    // Active input but tab backgrounded — still throttle to ~1fps.
    assert_eq!(
        select_frame_duration_ns(true, false, 16_666_666, 200_000_000, 1_000_000_000),
        1_000_000_000
    );
}

#[test]
fn frame_duration_lockstep_with_inputs() {
    // The three inputs are passed through verbatim — no scaling or
    // capping inside the selector itself.
    let active = 33_333_333u64;
    let idle = 250_000_000u64;
    let background = 2_000_000_000u64;
    assert_eq!(
        select_frame_duration_ns(false, false, active, idle, background),
        active
    );
    assert_eq!(
        select_frame_duration_ns(false, true, active, idle, background),
        idle
    );
    assert_eq!(
        select_frame_duration_ns(true, false, active, idle, background),
        background
    );
}

#[test]
fn idle_state_false_when_no_input_yet() {
    // last_input_ms == 0 means "no input observed since startup" —
    // not idle by definition.
    assert!(!is_idle_state(0, 1_000_000, 300_000));
}

#[test]
fn idle_state_false_when_within_timeout() {
    // 100s ago, timeout is 300s → still active.
    let now = 1_000_000u64;
    let last = now - 100_000;
    assert!(!is_idle_state(last, now, 300_000));
}

#[test]
fn idle_state_true_when_beyond_timeout() {
    // 400s ago, timeout is 300s → idle.
    let now = 1_000_000u64;
    let last = now - 400_000;
    assert!(is_idle_state(last, now, 300_000));
}

#[test]
fn idle_state_handles_now_before_last_input_gracefully() {
    // Clock skew: if now somehow precedes last_input_ms, the saturating
    // subtraction floors to zero → not idle.
    assert!(!is_idle_state(2000, 1000, 300));
}

#[test]
fn idle_state_exactly_at_timeout_boundary_is_not_idle() {
    // The condition is `>` not `>=` — exactly the timeout still counts
    // as active. One millisecond more flips to idle.
    let now = 1_000_000u64;
    assert!(!is_idle_state(now - 300_000, now, 300_000));
    assert!(is_idle_state(now - 300_001, now, 300_000));
}

#[test]
fn resize_noop_when_dims_match() {
    assert!(is_resize_noop(1920, 1080, 1920, 1080));
    assert!(is_resize_noop(640, 480, 640, 480));
    assert!(is_resize_noop(0, 0, 0, 0));
}

#[test]
fn resize_noop_false_when_width_differs() {
    assert!(!is_resize_noop(1920, 1080, 1280, 1080));
}

#[test]
fn resize_noop_false_when_height_differs() {
    assert!(!is_resize_noop(1920, 1080, 1920, 720));
}

#[test]
fn resize_noop_false_when_both_differ() {
    assert!(!is_resize_noop(1920, 1080, 2560, 1440));
}

#[test]
fn capture_error_log_first_three() {
    // First 3 errors always log.
    assert!(should_log_capture_error(1));
    assert!(should_log_capture_error(2));
    assert!(should_log_capture_error(3));
}

#[test]
fn capture_error_log_skip_until_multiple_of_100() {
    // After 3, only multiples of 100 log to keep the log volume tame.
    assert!(!should_log_capture_error(4));
    assert!(!should_log_capture_error(50));
    assert!(!should_log_capture_error(99));
    assert!(should_log_capture_error(100));
    assert!(!should_log_capture_error(101));
    assert!(should_log_capture_error(200));
    assert!(should_log_capture_error(300));
}

#[test]
fn capture_error_log_zero_is_multiple_of_100() {
    // Zero is divisible by 100 (mathematically), so the predicate logs.
    // (Production never asks at consecutive_errors=0, but the fn is
    // deterministic.)
    assert!(should_log_capture_error(0));
}

#[test]
fn capture_break_threshold_300_by_default() {
    assert!(!should_break_capture_loop(299, 300));
    assert!(should_break_capture_loop(300, 300));
    assert!(should_break_capture_loop(1000, 300));
}

#[test]
fn capture_break_threshold_is_customizable() {
    // Defensive: caller can tighten/loosen the threshold per env.
    assert!(should_break_capture_loop(50, 50));
    assert!(!should_break_capture_loop(49, 50));
    assert!(should_break_capture_loop(1, 1));
}

#[test]
fn encoder_reset_cooldown_blocks_within_window() {
    // 1 second elapsed, 5 second cooldown — still cooling.
    assert!(!encoder_reset_cooldown_elapsed(1_000, 5_000));
    assert!(!encoder_reset_cooldown_elapsed(4_999, 5_000));
}

#[test]
fn encoder_reset_cooldown_passes_exactly_at_boundary() {
    // The condition is `>=` so equal value is allowed.
    assert!(encoder_reset_cooldown_elapsed(5_000, 5_000));
}

#[test]
fn encoder_reset_cooldown_passes_after_window() {
    assert!(encoder_reset_cooldown_elapsed(5_001, 5_000));
    assert!(encoder_reset_cooldown_elapsed(60_000, 5_000));
    assert!(encoder_reset_cooldown_elapsed(u64::MAX, 5_000));
}

#[test]
fn encoder_reset_cooldown_zero_value_blocks() {
    // last_reset_elapsed_ms=0 means we just reset — blocked.
    assert!(!encoder_reset_cooldown_elapsed(0, 5_000));
}

#[test]
fn encoder_reset_cooldown_zero_cooldown_always_passes() {
    // cooldown=0 disables throttling.
    assert!(encoder_reset_cooldown_elapsed(0, 0));
    assert!(encoder_reset_cooldown_elapsed(1, 0));
}

#[test]
fn should_log_first_frame_when_not_yet_logged() {
    assert!(should_log_first_frame(false));
}

#[test]
fn should_log_first_frame_skips_when_already_logged() {
    assert!(!should_log_first_frame(true));
}

#[test]
fn condvar_when_idle() {
    assert!(capture_wait_should_use_condvar(true, false));
}

#[test]
fn condvar_when_backgrounded() {
    assert!(capture_wait_should_use_condvar(false, true));
}

#[test]
fn condvar_when_both_idle_and_backgrounded() {
    assert!(capture_wait_should_use_condvar(true, true));
}

#[test]
fn spinloop_when_active() {
    assert!(!capture_wait_should_use_condvar(false, false));
}

#[test]
fn active_sleep_above_2ms_remaining() {
    assert!(capture_active_should_sleep(3));
    assert!(capture_active_should_sleep(16));
    assert!(capture_active_should_sleep(100));
}

#[test]
fn active_no_sleep_at_or_below_2ms() {
    // Strict `>` so 2ms is the boundary — spin only.
    assert!(!capture_active_should_sleep(0));
    assert!(!capture_active_should_sleep(1));
    assert!(!capture_active_should_sleep(2));
}

#[test]
fn recovery_log_when_streak_positive() {
    assert!(should_log_capture_recovery(1));
    assert!(should_log_capture_recovery(100));
    assert!(should_log_capture_recovery(u64::MAX));
}

#[test]
fn recovery_log_skipped_when_no_streak() {
    // The first successful capture (consecutive=0) should NOT emit
    // the recovery line — there was no failure to recover from.
    assert!(!should_log_capture_recovery(0));
}

#[test]
fn frame_duration_at_60fps() {
    // 1s / 60 = 16.666ms = 16_666_666ns (integer division).
    assert_eq!(frame_duration_ns_from_framerate(60), 16_666_666);
}

#[test]
fn frame_duration_at_30fps() {
    assert_eq!(frame_duration_ns_from_framerate(30), 33_333_333);
}

#[test]
fn frame_duration_at_1fps_locks_to_1s() {
    assert_eq!(frame_duration_ns_from_framerate(1), 1_000_000_000);
}

#[test]
fn frame_duration_zero_framerate_safe_fallback() {
    // Production never sends 0 — but the guard MUST not divide-by-zero.
    let d = frame_duration_ns_from_framerate(0);
    assert_eq!(d, 1_000_000_000, "Fallback should be 1fps duration");
}

#[test]
fn frame_duration_at_high_framerates() {
    // 120fps = ~8.33ms per frame
    assert_eq!(frame_duration_ns_from_framerate(120), 8_333_333);
}

#[test]
fn frame_duration_max_framerate_does_not_overflow() {
    // u32::MAX fps is silly but must not panic. Should produce 0
    // (1s/u32::MAX rounds down to 0 with integer math).
    let d = frame_duration_ns_from_framerate(u32::MAX);
    assert_eq!(d, 1_000_000_000 / u32::MAX as u64);
}

#[test]
fn warn_keyframe_when_was_backgrounded() {
    assert!(should_warn_keyframe_while_backgrounded(true));
}

#[test]
fn no_warn_keyframe_when_not_backgrounded() {
    assert!(!should_warn_keyframe_while_backgrounded(false));
}

#[test]
fn xrandr_resize_failure_includes_error() {
    let m = format_xrandr_resize_failure("BadMatch (invalid mode)");
    assert!(m.contains("xrandr resize failed"));
    assert!(m.contains("BadMatch"));
}

#[test]
fn xrandr_resize_failure_handles_empty() {
    let m = format_xrandr_resize_failure("");
    assert!(m.starts_with("xrandr resize failed"));
}

#[test]
fn processing_resize_message_includes_dims() {
    let m = format_processing_resize_message(1920, 1080);
    assert!(m.contains("1920"));
    assert!(m.contains("1080"));
    assert!(m.contains("Processing resize"));
}

#[test]
fn processing_resize_message_handles_zero_dims() {
    // Defensive — the helper just formats; clamping is upstream.
    let m = format_processing_resize_message(0, 0);
    assert!(m.contains("0x0"));
}

#[test]
fn should_recreate_after_cooldown() {
    assert!(should_recreate_encoder(5_000, 5_000));
    assert!(should_recreate_encoder(10_000, 5_000));
}

#[test]
fn should_not_recreate_within_cooldown() {
    assert!(!should_recreate_encoder(2_000, 5_000));
    assert!(!should_recreate_encoder(0, 5_000));
}

#[test]
fn cooldown_remaining_zero_when_elapsed_exceeds() {
    assert_eq!(encoder_reset_cooldown_remaining_ms(6_000, 5_000), 0);
    assert_eq!(encoder_reset_cooldown_remaining_ms(5_000, 5_000), 0);
}

#[test]
fn cooldown_remaining_subtraction() {
    assert_eq!(encoder_reset_cooldown_remaining_ms(1_000, 5_000), 4_000);
    assert_eq!(encoder_reset_cooldown_remaining_ms(0, 5_000), 5_000);
}

#[test]
fn cooldown_remaining_handles_saturate_to_zero() {
    // u64 saturating_sub — large elapsed values produce 0, not panic.
    assert_eq!(encoder_reset_cooldown_remaining_ms(u64::MAX, 5_000), 0);
}

#[test]
fn transition_msg_none_when_no_change() {
    // No state change → no message.
    let m = capture_state_transition_message(false, false, false, false, 60, 5, 1);
    assert!(m.is_none());
}

#[test]
fn transition_msg_backgrounded_enter() {
    let m = capture_state_transition_message(false, true, false, false, 60, 5, 1).unwrap();
    assert!(m.contains("Tab backgrounded"));
    assert!(m.contains("1fps"), "Should mention background framerate");
}

#[test]
fn transition_msg_backgrounded_exit() {
    // is_backgrounded false now, was true.
    let m = capture_state_transition_message(false, false, false, true, 60, 5, 1).unwrap();
    assert!(m.contains("Tab foregrounded"));
    assert!(m.contains("60"), "Should mention current framerate");
}

#[test]
fn transition_msg_idle_enter() {
    let m = capture_state_transition_message(true, false, false, false, 60, 5, 1).unwrap();
    assert!(m.contains("Entering idle"));
    assert!(m.contains("5fps"));
}

#[test]
fn transition_msg_idle_exit() {
    let m = capture_state_transition_message(false, false, true, false, 60, 5, 1).unwrap();
    assert!(m.contains("Resuming active"));
    assert!(m.contains("60fps"));
}

#[test]
fn transition_msg_background_takes_priority_over_idle() {
    // Both flags changed; background transition wins.
    let m = capture_state_transition_message(true, true, false, false, 60, 5, 1).unwrap();
    assert!(m.contains("Tab backgrounded"));
    assert!(!m.contains("Entering idle"));
}

#[test]
fn transition_msg_idle_change_suppressed_when_backgrounded() {
    // Tab is backgrounded — idle transitions don't log.
    let m = capture_state_transition_message(true, true, false, true, 60, 5, 1);
    assert!(m.is_none());
}

#[test]
fn commands_are_answered() {
    let resize = |width: u32, height: u32| CaptureCommand::Resize { width, height };
    assert_eq!(
        command_step(resize(1920, 1080), 1920, 1080, 0),
        CommandStep::Skip
    );
    assert_eq!(
        command_step(resize(1280, 720), 1920, 1080, 0),
        CommandStep::Resize {
            width: 1280,
            height: 720
        }
    );
    assert_eq!(
        command_step(CaptureCommand::ResetEncoder, 1920, 1080, 5_000),
        CommandStep::Recreate
    );
    assert_eq!(
        command_step(CaptureCommand::ResetEncoder, 1920, 1080, 1_200),
        CommandStep::ForceKeyframe {
            cooldown_remaining_ms: 3_800
        }
    );
}

#[test]
fn waits_fill_the_frame() {
    assert_eq!(frame_wait(16_000_000, 16_000_000, false, false), Wait::Over);
    assert_eq!(frame_wait(16_000_000, 20_000_000, true, true), Wait::Over);
    assert_eq!(
        frame_wait(200_000_000, 50_000_000, true, false),
        Wait::UntilWoken(150_000_000)
    );
    assert_eq!(
        frame_wait(16_000_000, 4_000_000, false, false),
        Wait::SleepThenSpin(11_000_000)
    );
    assert_eq!(frame_wait(16_000_000, 13_000_001, false, false), Wait::Spin);
}

#[test]
fn loop_gives_up_after_300_failures_in_a_row() {
    let mut l = CaptureLoop::new(60);
    for n in 1..300u64 {
        let log = n <= 3 || n % 100 == 0;
        assert_eq!(
            l.capture(false),
            CaptureStep::Retry {
                consecutive: n,
                log
            }
        );
    }
    assert_eq!(
        l.capture(false),
        CaptureStep::GiveUp {
            consecutive: 300,
            log: true
        }
    );
}

#[test]
fn success_ends_a_row_of_failures() {
    let mut l = CaptureLoop::new(60);
    let encode = |recovered_after: u64, first: bool| CaptureStep::Encode {
        recovered_after,
        first,
    };
    assert_eq!(l.capture(true), encode(0, true));
    l.capture(false);
    l.capture(false);
    assert_eq!(l.capture(true), encode(2, false));
    assert_eq!(
        l.capture(false),
        CaptureStep::Retry {
            consecutive: 1,
            log: true
        }
    );
}

#[test]
fn pace_follows_the_session() {
    let mut l = CaptureLoop::new(60);
    let p = l.pace(false, 0, 1_000_000);
    assert_eq!((p.is_idle, p.frame_duration_ns), (false, 16_666_666));
    assert_eq!(p.message, None);
    let p = l.pace(false, 1, 1_000_000);
    assert_eq!((p.is_idle, p.frame_duration_ns), (true, 200_000_000));
    assert_eq!(p.message.as_deref(), Some("Entering idle mode (5fps)"));
    // The message comes once.
    assert_eq!(l.pace(false, 1, 1_000_001).message, None);
    let p = l.pace(true, 1, 1_000_002);
    assert_eq!(p.frame_duration_ns, 1_000_000_000);
    assert_eq!(
        p.message.as_deref(),
        Some("Tab backgrounded, reducing to 1fps")
    );
    // Input in the background is not noted as the end of idleness.
    assert_eq!(l.pace(true, 1_000_003, 1_000_003).message, None);
    let p = l.pace(false, 1_000_003, 1_000_004);
    assert_eq!(
        p.message.as_deref(),
        Some("Tab foregrounded, restoring framerate 60fps")
    );
    assert_eq!(l.pace(false, 1_000_003, 1_000_005).message, None);
}

#[test]
fn encoded_frames_are_drained() {
    let mut l = CaptureLoop::new(60);
    assert_eq!(l.drain(Drained::Empty, false, false), (DrainStep::Again, false));
    assert_eq!(l.drain(Drained::Empty, false, true), (DrainStep::Done, false));
    assert_eq!(l.drain(Drained::Frame, false, false), (DrainStep::Again, true));
    assert_eq!(l.drain(Drained::Frame, true, false), (DrainStep::Again, false));
    assert_eq!(l.drain(Drained::Empty, true, false), (DrainStep::Done, false));
    assert_eq!(l.drain(Drained::Closed, true, false), (DrainStep::Stop, false));
    assert_eq!(l.drain(Drained::Failed, false, false), (DrainStep::Stop, false));
    assert_eq!(l.finish(4_999), None);
    assert_eq!(l.finish(5_000), Some((2, 3)));
}

#[test]
fn new_encoder_logs_its_first_frame() {
    let mut l = CaptureLoop::new(60);
    l.capture(true);
    l.drain(Drained::Frame, false, false);
    assert_eq!(l.recreated(Recreation::Reset), 60);
    assert_eq!(l.drain(Drained::Frame, false, false), (DrainStep::Again, true));
    assert_eq!(
        l.capture(true),
        CaptureStep::Encode {
            recovered_after: 0,
            first: false
        }
    );
    assert_eq!(l.recreated(Recreation::Failure), 60);
    assert_eq!(l.recreated(Recreation::Resize), 120);
    assert_eq!(
        l.capture(true),
        CaptureStep::Encode {
            recovered_after: 0,
            first: true
        }
    );
}

#[test]
fn heartbeat_fps_zero_elapsed_returns_zero_string() {
    // Avoid divide-by-zero in the format.
    let s = format_capture_heartbeat_fps(120, 0.0);
    assert_eq!(s, "0.0");
}

#[test]
fn heartbeat_fps_negative_elapsed_returns_zero_string() {
    // Defensive: Instant::elapsed is monotonic in production but the
    // helper is defensive for testability — negative or zero both
    // return the safe fallback.
    let s = format_capture_heartbeat_fps(120, -1.0);
    assert_eq!(s, "0.0");
}

#[test]
fn heartbeat_fps_formats_one_decimal() {
    // 120 frames in 2.0s = 60.0 fps
    assert_eq!(format_capture_heartbeat_fps(120, 2.0), "60.0");
    // 90 frames in 1.5s = 60.0 fps
    assert_eq!(format_capture_heartbeat_fps(90, 1.5), "60.0");
}

#[test]
fn heartbeat_fps_handles_fractional_rate() {
    // 100 frames in 1.5s = 66.6 fps
    let s = format_capture_heartbeat_fps(100, 1.5);
    assert!(s.starts_with("66.") && s.len() >= 4, "got: {s}");
}

#[test]
fn heartbeat_fps_handles_large_counts() {
    // 1M frames in 1000s = 1000 fps
    assert_eq!(format_capture_heartbeat_fps(1_000_000, 1000.0), "1000.0");
}

#[test]
fn heartbeat_fps_handles_zero_frames() {
    assert_eq!(format_capture_heartbeat_fps(0, 5.0), "0.0");
}

#[test]
fn heartbeat_rates_are_those_of_floating_point_quotients() {
    for frames in [1u64, 7, 300, 599, 601, 12_345, 1 << 40, u64::MAX] {
        for elapsed in [0.001, 0.3, 4.999_999, 5.0, 5.000_1, 77.7, 86_400.0] {
            assert_eq!(
                format_capture_heartbeat_fps(frames, elapsed),
                format!("{:.1}", frames as f64 / elapsed)
            );
        }
    }
}
