use beam_agent::display::{pulse_server_socket_url, DEFAULT_OUTPUT_NAME};
use beam_agent::encoder::EncoderType;
use beam_agent::session::{
    audio_retry_delay_ms, audio_step, build_cursor_message, cap_software_encoder_params,
    now_unix_millis, parse_display_num, pulse_server_for, pulse_server_path, pulse_server_url,
    resolve_home_dir, resolve_output_name, sched_fifo_log_message, should_give_up_audio_retry,
    should_log_audio_retry, wait_step, AudioStep, WaitStep,
};

/// Whole seconds and nanoseconds since the Unix epoch.
fn since_epoch(t: std::time::SystemTime) -> Option<(u64, u32)> {
    t.duration_since(std::time::UNIX_EPOCH)
        .ok()
        .map(|d| (d.as_secs(), d.subsec_nanos()))
}

#[test]
fn parse_display_num_strips_colon_prefix() {
    assert_eq!(parse_display_num(":10"), 10);
    assert_eq!(parse_display_num(":99"), 99);
    assert_eq!(parse_display_num(":0"), 0);
}

#[test]
fn parse_display_num_handles_no_colon() {
    // Some callers may pass the display number without a leading colon.
    assert_eq!(parse_display_num("42"), 42);
}

#[test]
fn parse_display_num_falls_back_to_10_for_garbage() {
    // Anything unparseable → default Beam display 10.
    assert_eq!(parse_display_num(":not-a-number"), 10);
    assert_eq!(parse_display_num("garbage"), 10);
    assert_eq!(parse_display_num(""), 10);
    assert_eq!(parse_display_num(":"), 10);
    assert_eq!(parse_display_num(":-5"), 10);
}

#[test]
fn parse_display_num_caps_at_u32_max_via_overflow_fallback() {
    // 2^32 overflows u32 and falls back to 10.
    assert_eq!(parse_display_num(":4294967296"), 10);
}

#[test]
fn parse_display_num_accepts_max_u32() {
    // u32::MAX is parseable, so it should round-trip.
    assert_eq!(parse_display_num(":4294967295"), u32::MAX);
}

#[test]
fn pulse_server_path_includes_display_num() {
    assert_eq!(pulse_server_path(10), "/tmp/beam-pulse-10/native");
    assert_eq!(pulse_server_path(0), "/tmp/beam-pulse-0/native");
    assert_eq!(
        pulse_server_path(u32::MAX),
        format!("/tmp/beam-pulse-{}/native", u32::MAX)
    );
}

#[test]
fn pulse_server_url_prefixes_unix_scheme() {
    assert_eq!(pulse_server_url(10), "unix:/tmp/beam-pulse-10/native");
    assert_eq!(pulse_server_url(42), "unix:/tmp/beam-pulse-42/native");
}

#[test]
fn pulse_server_url_is_path_prefixed_with_unix() {
    // The URL is always the path with an `unix:` prefix — never a host
    // form (PulseAudio's Simple API takes server in this format).
    for n in [0u32, 1, 10, 42, 100, 1000] {
        let url = pulse_server_url(n);
        let path = pulse_server_path(n);
        assert_eq!(url, format!("unix:{path}"));
        assert!(url.starts_with("unix:"));
    }
}

#[test]
fn cap_software_encoder_caps_at_60fps_and_20mbps() {
    // Software + >60 fps → 60fps. Bitrate at 30k → capped to 20k.
    let (fps, br) = cap_software_encoder_params(EncoderType::Software, 120, 30_000);
    assert_eq!(fps, 60);
    assert_eq!(br, 20_000);
}

#[test]
fn cap_software_encoder_passes_through_below_60fps() {
    // Software at 30fps is fine — no cap applied.
    let (fps, br) = cap_software_encoder_params(EncoderType::Software, 30, 5_000);
    assert_eq!(fps, 30);
    assert_eq!(br, 5_000);
}

#[test]
fn cap_software_encoder_at_exactly_60fps_does_not_cap() {
    // The threshold is > 60, so 60 itself passes through.
    let (fps, br) = cap_software_encoder_params(EncoderType::Software, 60, 8_000);
    assert_eq!(fps, 60);
    assert_eq!(br, 8_000);
}

#[test]
fn cap_software_encoder_caps_only_software() {
    // Nvidia/CUDA/VAAPI all pass through unchanged even at 120fps.
    for enc_type in [
        EncoderType::Nvidia,
        EncoderType::NvidiaCuda,
        EncoderType::VaApi,
    ] {
        let (fps, br) = cap_software_encoder_params(enc_type, 120, 50_000);
        assert_eq!(fps, 120, "{enc_type:?} fps should not be capped");
        assert_eq!(br, 50_000, "{enc_type:?} bitrate should not be capped");
    }
}

#[test]
fn cap_software_encoder_bitrate_below_cap_is_preserved() {
    // Software at 120 fps, 10000 kbps → fps capped to 60, bitrate
    // unchanged (already below 20000 cap).
    let (fps, br) = cap_software_encoder_params(EncoderType::Software, 120, 10_000);
    assert_eq!(fps, 60);
    assert_eq!(br, 10_000);
}

#[test]
fn cap_software_encoder_bitrate_min_takes_the_smaller_value() {
    // Software at 120 fps, 19999 kbps → bitrate stays 19999.
    let (fps, br) = cap_software_encoder_params(EncoderType::Software, 120, 19_999);
    assert_eq!(fps, 60);
    assert_eq!(br, 19_999);
}

#[test]
fn default_output_name_constant() {
    // Stay locked at DUMMY0 — the agent + display code assume this string.
    assert_eq!(DEFAULT_OUTPUT_NAME, "DUMMY0");
}

#[test]
fn audio_retry_delay_500ms_for_first_20_attempts() {
    for n in 0..20 {
        assert_eq!(audio_retry_delay_ms(n), 500, "attempt {n}");
    }
}

#[test]
fn audio_retry_delay_2s_at_attempt_20() {
    // Boundary: attempt 20 (the 21st attempt) flips to 2000ms.
    assert_eq!(audio_retry_delay_ms(20), 2000);
    assert_eq!(audio_retry_delay_ms(21), 2000);
    assert_eq!(audio_retry_delay_ms(100), 2000);
}

#[test]
fn audio_retry_log_first_20_attempts() {
    for n in 0..20 {
        assert!(should_log_audio_retry(n), "attempt {n} should log");
    }
}

#[test]
fn audio_retry_log_every_10th_after_20() {
    assert!(should_log_audio_retry(20), "n=20 is divisible by 10");
    assert!(!should_log_audio_retry(21));
    assert!(!should_log_audio_retry(29));
    assert!(should_log_audio_retry(30));
    assert!(!should_log_audio_retry(31));
    assert!(should_log_audio_retry(40));
    assert!(should_log_audio_retry(50));
}

#[test]
fn audio_retry_give_up_after_60() {
    assert!(!should_give_up_audio_retry(0));
    assert!(!should_give_up_audio_retry(60));
    assert!(should_give_up_audio_retry(61));
    assert!(should_give_up_audio_retry(1000));
}

#[test]
fn audio_retry_total_time_to_giveup_is_predictable() {
    // Sum of delays over attempts 0..=60: attempts 0..20 give 20 × 500ms,
    // attempts 20..=60 give 41 × 2000ms. The math should be deterministic
    // for the runbook (and reproducibly bug-free).
    let mut total = 0u64;
    for n in 0..=60 {
        total += audio_retry_delay_ms(n);
    }
    // 20 * 500ms + 41 * 2000ms = 10_000 + 82_000 = 92_000ms (~92s)
    assert_eq!(total, 20 * 500 + 41 * 2000);
    assert_eq!(total, 92_000);
}

#[test]
fn cursor_message_format_is_t_cur_css() {
    // The browser expects {"t":"cur", "css":"..."} so the cursor-shape
    // dispatcher key matches.
    let msg = build_cursor_message("default");
    let v: serde_json::Value = serde_json::from_str(&msg).unwrap();
    assert_eq!(v["t"], "cur");
    assert_eq!(v["css"], "default");
}

#[test]
fn cursor_message_handles_empty_css() {
    let msg = build_cursor_message("");
    let v: serde_json::Value = serde_json::from_str(&msg).unwrap();
    assert_eq!(v["css"], "");
}

#[test]
fn cursor_message_escapes_special_chars() {
    // CSS strings can contain quotes that JSON must escape.
    let msg = build_cursor_message(r#"url("data:image/png;base64,X") 0 0, default"#);
    let v: serde_json::Value = serde_json::from_str(&msg).unwrap();
    assert_eq!(v["css"], r#"url("data:image/png;base64,X") 0 0, default"#);
}

#[test]
fn cursor_message_preserves_unicode() {
    // Unicode in CSS should survive the JSON encode round-trip.
    let css = "cursor: pointer; /* ✓ */";
    let msg = build_cursor_message(css);
    let v: serde_json::Value = serde_json::from_str(&msg).unwrap();
    assert_eq!(v["css"], css);
}

#[test]
fn home_dir_uses_env_value_when_set() {
    assert_eq!(
        resolve_home_dir(Some("/home/test")),
        String::from("/home/test"),
    );
}

#[test]
fn home_dir_falls_back_when_none() {
    // HOME not set → fall back to /tmp.
    assert_eq!(resolve_home_dir(None), String::from("/tmp"));
}

#[test]
fn home_dir_falls_back_when_empty() {
    // HOME="" → empty string also falls back (production avoids using
    // CWD-relative paths in this case).
    assert_eq!(resolve_home_dir(Some("")), String::from("/tmp"));
}

#[test]
fn home_dir_accepts_absolute_paths_with_trailing_slash() {
    // A trailing slash is kept.
    assert_eq!(
        resolve_home_dir(Some("/home/test/")),
        String::from("/home/test/"),
    );
}

#[test]
fn output_name_uses_virtual_display_when_some() {
    assert_eq!(resolve_output_name(Some("DFP-1")), "DFP-1");
    assert_eq!(resolve_output_name(Some("DUMMY0")), "DUMMY0");
    assert_eq!(resolve_output_name(Some("HDMI-A-1")), "HDMI-A-1");
}

#[test]
fn output_name_falls_back_when_none() {
    assert_eq!(resolve_output_name(None), "DUMMY0");
}

#[test]
fn output_name_falls_back_when_empty() {
    // Empty output name shouldn't pass through — fall back to default.
    assert_eq!(resolve_output_name(Some("")), "DUMMY0");
}

#[test]
fn output_name_fallback_matches_default_constant() {
    // The fallback must equal DEFAULT_OUTPUT_NAME so the rest of the
    // capture pipeline stays in sync.
    assert_eq!(resolve_output_name(None), DEFAULT_OUTPUT_NAME);
}

#[test]
fn now_unix_millis_is_positive_for_current_time() {
    let now = std::time::SystemTime::now();
    let ms = now_unix_millis(since_epoch(now));
    // Sanity-check we're past 2020 (1.6e12 ms past epoch).
    assert!(ms > 1_600_000_000_000);
}

#[test]
fn now_unix_millis_returns_zero_for_epoch() {
    let ms = now_unix_millis(since_epoch(std::time::UNIX_EPOCH));
    assert_eq!(ms, 0);
}

#[test]
fn now_unix_millis_returns_zero_for_pre_epoch_time() {
    let pre = std::time::UNIX_EPOCH - std::time::Duration::from_secs(1);
    let ms = now_unix_millis(since_epoch(pre));
    assert_eq!(ms, 0);
}

#[test]
fn sched_fifo_log_success_for_ret_zero() {
    let msg = sched_fifo_log_message(0, 50);
    assert!(msg.contains("elevated to SCHED_FIFO"));
    assert!(msg.contains("50"));
}

#[test]
fn sched_fifo_log_failure_for_nonzero_ret() {
    let msg = sched_fifo_log_message(-1, 50);
    assert!(msg.contains("Could not set SCHED_FIFO"));
    assert!(msg.contains("CAP_SYS_NICE"));
    assert!(msg.contains("50"));
}

#[test]
fn sched_fifo_log_includes_priority_value() {
    // The priority is part of the message — if it ever changes the
    // test should remind whoever changes it to look here too.
    let msg = sched_fifo_log_message(0, 99);
    assert!(msg.contains("99"));
}

#[test]
fn audio_address_is_that_of_the_display() {
    for n in [0u32, 10, u32::MAX] {
        assert_eq!(pulse_server_url(n), pulse_server_socket_url(n));
    }
}

#[test]
fn reused_display_needs_its_pulse_socket() {
    assert_eq!(pulse_server_for(10, true, false), None);
    assert_eq!(
        pulse_server_for(10, true, true).as_deref(),
        Some("unix:/tmp/beam-pulse-10/native")
    );
    assert_eq!(
        pulse_server_for(10, false, false).as_deref(),
        Some("unix:/tmp/beam-pulse-10/native")
    );
}

#[test]
fn audio_steps_follow_the_attempts() {
    assert_eq!(audio_step(0, true), AudioStep::Start);
    assert_eq!(audio_step(61, true), AudioStep::Start);
    let retry = |delay_ms: u64, log: bool| AudioStep::Retry { delay_ms, log };
    assert_eq!(audio_step(0, false), retry(500, true));
    assert_eq!(audio_step(19, false), retry(500, true));
    assert_eq!(audio_step(20, false), retry(2000, true));
    assert_eq!(audio_step(21, false), retry(2000, false));
    assert_eq!(audio_step(60, false), retry(2000, true));
    assert_eq!(audio_step(61, false), AudioStep::GiveUp);
}

#[test]
fn messages_are_exact() {
    assert_eq!(
        sched_fifo_log_message(0, 50),
        "Capture thread elevated to SCHED_FIFO priority 50"
    );
    assert_eq!(
        sched_fifo_log_message(-1, -5),
        "Could not set SCHED_FIFO (need CAP_SYS_NICE), priority -5 not applied"
    );
    assert_eq!(
        build_cursor_message("text"),
        "{\"css\":\"text\",\"t\":\"cur\"}"
    );
}

#[test]
fn milliseconds_are_whole() {
    assert_eq!(now_unix_millis(Some((12, 345_999_999))), 12_345);
    assert_eq!(now_unix_millis(None), 0);
    // 64 bits are kept.
    assert_eq!(now_unix_millis(Some((u64::MAX, 0))), u64::MAX - 999);
}

#[test]
fn waits_end_after_twenty_looks() {
    assert_eq!(wait_step(0, true), WaitStep::Ready);
    assert_eq!(wait_step(0, false), WaitStep::Again);
    assert_eq!(wait_step(19, false), WaitStep::Again);
    assert_eq!(wait_step(20, false), WaitStep::Over);
    assert_eq!(wait_step(20, true), WaitStep::Ready);
}
