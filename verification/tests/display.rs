use beam_agent::display::{
    clamp_resize_dimensions, detect_xrandr_output, display_name, display_not_ready_error,
    generate_modeline, generate_nvidia_xorg_config, generate_xorg_config, is_benign_xrandr_stderr,
    keyring_control_dir, keyring_data_dir, keyrings_dir, lock_file_pid, mode_name, pa_config,
    parse_xrandr_connected_output, probe_step, pulse_config_path, pulse_runtime_dir,
    pulse_server_socket_url, resolution_error, resolve_xorg_invocation, set_display_resolution,
    should_signal_child, systemd_user_bus_address, systemd_user_bus_path, tmp_xorg_config_path,
    x_lock_path, xdg_runtime_dir, xorg_config_needs_cleanup, xorg_stderr_log_path, ChildState,
    OutputStep, ProbeStep, VirtualDisplay,
};
use beam_agent::gpu::{NvidiaProbe, ProcGpu, ProcListing};

#[test]
fn xorg_config_has_generous_vram_for_dynamic_resize() {
    // Even at a small initial resolution, VRAM must be large enough
    // for fullscreen (e.g. 4K). Otherwise xrandr --output fails with
    // BadMatch when the user enters fullscreen.
    let config = generate_xorg_config(800, 600);
    assert!(
        config.contains("VideoRam    262144"),
        "VRAM should be 256MB"
    );
    // Check Virtual max size is set for dynamic resolution
    assert!(
        config.contains("Virtual 7680 4320"),
        "Virtual screen should support up to 8K"
    );
}

#[test]
fn xorg_config_includes_initial_modeline() {
    let config = generate_xorg_config(1920, 1080);
    assert!(config.contains("Modeline    \"1920x1080\""));
    assert!(config.contains("Modes   \"1920x1080\""));
}

#[test]
fn modeline_format_is_valid() {
    let ml = generate_modeline(1920, 1080, 60);
    let parts: Vec<&str> = ml.split_whitespace().collect();
    // Should be: clock h h_sync_start h_sync_end h_total v v_sync_start v_sync_end v_total +hsync +vsync
    assert_eq!(parts.len(), 11, "Modeline should have 11 fields: {ml}");
    // Pixel clock should be positive
    let clock: f64 = parts[0].parse().expect("clock should be a float");
    assert!(clock > 0.0, "Pixel clock should be positive");
    // h_total > width
    let h_total: u32 = parts[4].parse().unwrap();
    assert!(h_total > 1920, "h_total should be > width");
    // v_total > height
    let v_total: u32 = parts[8].parse().unwrap();
    assert!(v_total > 1080, "v_total should be > height");
    // Sync flags
    assert_eq!(parts[9], "+hsync");
    assert_eq!(parts[10], "+vsync");
}

#[test]
fn modeline_dimensions_are_correct() {
    let ml = generate_modeline(1800, 1168, 60);
    let parts: Vec<&str> = ml.split_whitespace().collect();
    assert_eq!(parts[1], "1800", "hdisp should match width");
    assert_eq!(parts[5], "1168", "vdisp should match height");
}

#[test]
fn clamp_resize_rejects_too_small() {
    assert_eq!(clamp_resize_dimensions(100, 100, 0, 0), None);
    assert_eq!(clamp_resize_dimensions(319, 480, 0, 0), None);
    assert_eq!(clamp_resize_dimensions(640, 239, 0, 0), None);
}

#[test]
fn clamp_resize_rejects_too_large() {
    assert_eq!(clamp_resize_dimensions(7681, 1080, 0, 0), None);
    assert_eq!(clamp_resize_dimensions(1920, 4321, 0, 0), None);
}

#[test]
fn clamp_resize_enforces_max_bounds() {
    // max_width=1920, max_height=1080
    let (w, h) = clamp_resize_dimensions(2560, 1440, 1920, 1080).unwrap();
    assert_eq!(w, 1920);
    assert_eq!(h, 1080);
}

#[test]
fn clamp_resize_unlimited_max() {
    // max=0 means unlimited
    let (w, h) = clamp_resize_dimensions(3840, 2160, 0, 0).unwrap();
    assert_eq!(w, 3840);
    assert_eq!(h, 2160);
}

#[test]
fn clamp_resize_enforces_min_640x480() {
    let (w, h) = clamp_resize_dimensions(320, 240, 0, 0).unwrap();
    assert_eq!(w, 640);
    assert_eq!(h, 480);
}

#[test]
fn clamp_resize_enforces_even_dimensions() {
    // Odd dimensions should be rounded down to even
    let (w, h) = clamp_resize_dimensions(1921, 1081, 0, 0).unwrap();
    assert_eq!(w, 1920);
    assert_eq!(h, 1080);
}

#[test]
fn clamp_resize_passthrough_normal() {
    let (w, h) = clamp_resize_dimensions(1920, 1080, 3840, 2160).unwrap();
    assert_eq!(w, 1920);
    assert_eq!(h, 1080);
}

#[test]
fn clamp_resize_even_after_max_clamp() {
    // If max bound produces an odd number, still round to even
    let (w, h) = clamp_resize_dimensions(2000, 1200, 1921, 1081).unwrap();
    assert_eq!(w, 1920);
    assert_eq!(h, 1080);
}

#[test]
fn pa_config_inserts_runtime_dir_into_socket_path() {
    let config = pa_config("/tmp/beam-pulse-42");
    assert!(
        config.contains("socket=/tmp/beam-pulse-42/native"),
        "pa_config must template the runtime dir into the socket path"
    );
}

#[test]
fn pa_config_loads_required_modules() {
    let config = pa_config("/tmp/beam-pulse-42");
    // The 3 modules + set-default-sink line are all required.
    assert!(config.contains("module-null-sink"));
    assert!(config.contains("module-native-protocol-unix"));
    assert!(config.contains("module-always-sink"));
    assert!(config.contains("set-default-sink beam"));
}

#[test]
fn pa_config_uses_auth_anonymous_for_local_socket() {
    // The agent runs in the same user namespace as PulseAudio; the socket
    // is permission-bound at the filesystem level, so auth-anonymous=1 is
    // correct (no shared-cookie dance needed).
    let config = pa_config("/tmp/beam-pulse-1");
    assert!(config.contains("auth-anonymous=1"));
}

#[test]
fn pa_config_uses_beam_sink_name() {
    // The sink name "beam" is referenced by name in audio capture code;
    // changing it requires coordination with the agent's audio side.
    let config = pa_config("/tmp/beam-pulse-1");
    assert!(config.contains("sink_name=beam"));
}

#[test]
fn nvidia_xorg_config_includes_bus_id() {
    let cfg = generate_nvidia_xorg_config("PCI:42:0:0", "DFP-1", "/tmp/edid.bin");
    assert!(cfg.contains("BusID       \"PCI:42:0:0\""));
}

#[test]
fn nvidia_xorg_config_includes_dfp_output() {
    let cfg = generate_nvidia_xorg_config("PCI:1:0:0", "DFP-2", "/tmp/edid.bin");
    assert!(cfg.contains(r#"ConnectedMonitor" "DFP-2""#));
    assert!(cfg.contains("DFP-2:/tmp/edid.bin"));
}

#[test]
fn nvidia_xorg_config_uses_nvidia_driver() {
    let cfg = generate_nvidia_xorg_config("PCI:0:0:0", "DFP-0", "/tmp/edid.bin");
    assert!(cfg.contains("Driver      \"nvidia\""));
}

#[test]
fn nvidia_xorg_config_sets_24bit_depth() {
    let cfg = generate_nvidia_xorg_config("PCI:0:0:0", "DFP-0", "/tmp/edid.bin");
    assert!(cfg.contains("DefaultDepth 24"));
}

#[test]
fn nvidia_xorg_config_disables_auto_devices() {
    let cfg = generate_nvidia_xorg_config("PCI:0:0:0", "DFP-0", "/tmp/edid.bin");
    // ServerFlags section must disable autodetection so Xorg uses our
    // explicit Device entry.
    assert!(cfg.contains(r#""AutoAddDevices" "false""#));
    assert!(cfg.contains(r#""AutoAddGPU" "false""#));
    assert!(cfg.contains(r#""DontVTSwitch" "true""#));
}

#[test]
fn modeline_pixel_clock_scales_with_refresh() {
    // Pixel clock = width * height * refresh / 1M * 1.2. At 30Hz it's
    // exactly half what it is at 60Hz.
    let ml30 = generate_modeline(1920, 1080, 30);
    let ml60 = generate_modeline(1920, 1080, 60);
    let clock30: f64 = ml30.split_whitespace().next().unwrap().parse().unwrap();
    let clock60: f64 = ml60.split_whitespace().next().unwrap().parse().unwrap();
    // Allow a small float tolerance.
    assert!(
        (clock60 - clock30 * 2.0).abs() < 0.01,
        "60Hz clock should be exactly 2x 30Hz clock"
    );
}

#[test]
fn modeline_high_resolution_does_not_overflow() {
    // 7680x4320 @ 120Hz — biggest sane resolution. Make sure no overflow
    // and the structure is still well-formed.
    let ml = generate_modeline(7680, 4320, 120);
    let parts: Vec<&str> = ml.split_whitespace().collect();
    assert_eq!(parts.len(), 11);
    let clock: f64 = parts[0].parse().unwrap();
    assert!(
        clock > 0.0 && clock.is_finite(),
        "Pixel clock must be a finite positive number"
    );
}

#[test]
fn xorg_config_uses_dummy_driver() {
    let cfg = generate_xorg_config(1920, 1080);
    assert!(cfg.contains("Driver      \"dummy\""));
}

#[test]
fn xorg_config_locks_auto_devices_disabled() {
    // ServerFlags must keep AutoAddDevices off to prevent Xorg from
    // grabbing real input devices on hosts with a physical keyboard.
    let cfg = generate_xorg_config(800, 600);
    assert!(cfg.contains(r#""AutoAddDevices" "false""#));
    assert!(cfg.contains(r#""DontVTSwitch" "true""#));
}

#[test]
fn clamp_resize_minimum_valid_input() {
    // 320x240 is on the lower boundary of the validation window.
    // It must pass through and be clamped UP to the 640x480 floor.
    let (w, h) = clamp_resize_dimensions(320, 240, 0, 0).unwrap();
    assert!(w >= 640);
    assert!(h >= 480);
}

#[test]
fn clamp_resize_maximum_valid_input() {
    let (w, h) = clamp_resize_dimensions(7680, 4320, 0, 0).unwrap();
    assert_eq!(w, 7680);
    assert_eq!(h, 4320);
}

#[test]
fn clamp_resize_lower_width_boundary() {
    // Exactly 320 passes; 319 fails.
    assert!(clamp_resize_dimensions(320, 480, 0, 0).is_some());
    assert!(clamp_resize_dimensions(319, 480, 0, 0).is_none());
}

#[test]
fn clamp_resize_upper_width_boundary() {
    // Exactly 7680 passes; 7681 fails.
    assert!(clamp_resize_dimensions(7680, 1080, 0, 0).is_some());
    assert!(clamp_resize_dimensions(7681, 1080, 0, 0).is_none());
}

#[test]
fn clamp_resize_lower_height_boundary() {
    // Exactly 240 passes; 239 fails.
    assert!(clamp_resize_dimensions(640, 240, 0, 0).is_some());
    assert!(clamp_resize_dimensions(640, 239, 0, 0).is_none());
}

#[test]
fn clamp_resize_upper_height_boundary() {
    assert!(clamp_resize_dimensions(1920, 4320, 0, 0).is_some());
    assert!(clamp_resize_dimensions(1920, 4321, 0, 0).is_none());
}

#[test]
fn clamp_resize_max_zero_is_unlimited() {
    // max=0 must NOT clamp anything; only the absolute validation window
    // matters.
    let (w, h) = clamp_resize_dimensions(5000, 3000, 0, 0).unwrap();
    assert_eq!(w, 5000);
    assert_eq!(h, 3000);
}

#[test]
fn clamp_resize_partial_max_constraints() {
    // Only max_width set; height passes through.
    let (w, h) = clamp_resize_dimensions(3000, 1500, 1920, 0).unwrap();
    assert_eq!(w, 1920);
    assert_eq!(h, 1500);
}

#[test]
fn clamp_resize_partial_max_height_only() {
    let (w, h) = clamp_resize_dimensions(2000, 1500, 0, 1080).unwrap();
    assert_eq!(w, 2000);
    assert_eq!(h, 1080);
}

#[test]
fn pa_config_uses_runtime_dir_in_socket_path() {
    // Socket path must reference the runtime dir verbatim.
    let cfg = pa_config("/tmp/beam-pulse-10");
    assert!(cfg.contains("/tmp/beam-pulse-10/native"));
}

#[test]
fn pa_config_contains_required_modules() {
    let cfg = pa_config("/tmp/test-runtime");
    // null-sink — virtual sink so beam-agent can capture from monitor
    assert!(cfg.contains("module-null-sink"));
    // native-protocol-unix — actual TCP-replacement socket
    assert!(cfg.contains("module-native-protocol-unix"));
    // always-sink — ensures something is always playing if not specified
    assert!(cfg.contains("module-always-sink"));
    // default sink — apps fall through to this if they don't pick one
    assert!(cfg.contains("set-default-sink beam"));
}

#[test]
fn pa_config_enables_anonymous_auth() {
    // auth-anonymous=1 lets the beam-agent process talk to PulseAudio
    // without exchanging cookies — fine because the socket is in a
    // 0700 runtime dir and only beam-agent can reach it.
    let cfg = pa_config("/tmp/x");
    assert!(cfg.contains("auth-anonymous=1"));
}

#[test]
fn pa_config_handles_paths_with_spaces() {
    let cfg = pa_config("/tmp/beam pulse");
    assert!(cfg.contains("/tmp/beam pulse/native"));
}

#[test]
fn nvidia_config_includes_bus_id() {
    let cfg = generate_nvidia_xorg_config("PCI:1:0:0", "DFP-1", "/etc/X11/beam/edid.bin");
    assert!(cfg.contains("PCI:1:0:0"));
}

#[test]
fn nvidia_config_includes_dfp_output() {
    let cfg = generate_nvidia_xorg_config("PCI:0:0:0", "DFP-2", "/etc/X11/beam/edid.bin");
    assert!(cfg.contains("DFP-2"));
    // ConnectedMonitor is the NVIDIA option that names the virtual output
    assert!(cfg.contains("ConnectedMonitor"));
}

#[test]
fn nvidia_config_includes_custom_edid() {
    let cfg =
        generate_nvidia_xorg_config("PCI:0:0:0", "DFP-1", "/etc/X11/beam/beam-edid-10.bin");
    assert!(cfg.contains("CustomEDID"));
    assert!(cfg.contains("/etc/X11/beam/beam-edid-10.bin"));
}

#[test]
fn nvidia_config_pairs_dfp_with_edid_path() {
    // The CustomEDID syntax is "{output}:{edid_path}" — verify both ends.
    let cfg = generate_nvidia_xorg_config("PCI:0:0:0", "DFP-3", "/path/to/edid.bin");
    assert!(cfg.contains("DFP-3:/path/to/edid.bin"));
}

#[test]
fn nvidia_config_uses_nvidia_driver() {
    let cfg = generate_nvidia_xorg_config("PCI:0:0:0", "DFP-1", "/edid");
    // Section "Device" must declare driver "nvidia"
    assert!(cfg.contains(r#"Driver      "nvidia""#));
}

#[test]
fn nvidia_config_disables_auto_devices() {
    let cfg = generate_nvidia_xorg_config("PCI:0:0:0", "DFP-1", "/edid");
    // No keyboards/mice — beam-agent injects via XTEST only.
    assert!(cfg.contains(r#"Option "AutoAddDevices" "false""#));
    assert!(cfg.contains(r#"Option "AutoEnableDevices" "false""#));
}

#[test]
fn nvidia_config_disables_vt_switching() {
    // DontVTSwitch prevents the X server from grabbing the console.
    let cfg = generate_nvidia_xorg_config("PCI:0:0:0", "DFP-1", "/edid");
    assert!(cfg.contains(r#"Option "DontVTSwitch" "true""#));
}

#[test]
fn nvidia_config_allows_empty_initial_config() {
    // AllowEmptyInitialConfiguration is required for headless boot —
    // without it Xorg refuses to start if no monitor is connected.
    let cfg = generate_nvidia_xorg_config("PCI:0:0:0", "DFP-1", "/edid");
    assert!(cfg.contains(r#"Option      "AllowEmptyInitialConfiguration" "True""#));
}

#[test]
fn dummy_xorg_config_uses_dummy_driver() {
    let cfg = generate_xorg_config(1920, 1080);
    assert!(cfg.contains(r#"Driver      "dummy""#));
}

#[test]
fn dummy_xorg_config_no_auto_devices() {
    let cfg = generate_xorg_config(1280, 720);
    assert!(cfg.contains(r#"Option "AutoAddDevices" "false""#));
    assert!(cfg.contains(r#"Option "AutoEnableDevices" "false""#));
}

#[test]
fn dummy_xorg_config_dont_vt_switch() {
    let cfg = generate_xorg_config(800, 600);
    assert!(cfg.contains(r#"Option "DontVTSwitch" "true""#));
}

#[test]
fn dummy_xorg_config_depth_24() {
    let cfg = generate_xorg_config(1920, 1080);
    assert!(cfg.contains("DefaultDepth 24"));
}

#[test]
fn modeline_pixel_clock_scales_with_area() {
    let small = generate_modeline(800, 600, 60);
    let large = generate_modeline(1920, 1080, 60);
    let small_clock: f64 = small.split_whitespace().next().unwrap().parse().unwrap();
    let large_clock: f64 = large.split_whitespace().next().unwrap().parse().unwrap();
    assert!(large_clock > small_clock);
}

#[test]
fn modeline_includes_refresh_dependent_clock() {
    let m30 = generate_modeline(1920, 1080, 30);
    let m60 = generate_modeline(1920, 1080, 60);
    let c30: f64 = m30.split_whitespace().next().unwrap().parse().unwrap();
    let c60: f64 = m60.split_whitespace().next().unwrap().parse().unwrap();
    assert!(c60 > c30, "60Hz should have higher pixel clock than 30Hz");
}

#[test]
fn modeline_blanking_intervals_present() {
    // h_sync_start = width + 48
    let ml = generate_modeline(1920, 1080, 60);
    let parts: Vec<&str> = ml.split_whitespace().collect();
    let h_sync_start: u32 = parts[2].parse().unwrap();
    assert_eq!(h_sync_start, 1920 + 48);
    let h_sync_end: u32 = parts[3].parse().unwrap();
    assert_eq!(h_sync_end, 1920 + 48 + 32);
    let v_sync_start: u32 = parts[6].parse().unwrap();
    assert_eq!(v_sync_start, 1080 + 3);
}

#[test]
fn modeline_4k_dimensions_work() {
    let ml = generate_modeline(3840, 2160, 60);
    let parts: Vec<&str> = ml.split_whitespace().collect();
    assert_eq!(parts[1], "3840");
    assert_eq!(parts[5], "2160");
}

#[test]
fn parse_xrandr_extracts_first_connected_output() {
    let output = "\
Screen 0: minimum 1 x 1, current 1920 x 1080, maximum 7680 x 4320
DUMMY0 connected primary 1920x1080+0+0 (normal left inverted right x axis y axis) 0mm x 0mm
   1920x1080     60.00*+
";
    assert_eq!(
        parse_xrandr_connected_output(output),
        Some("DUMMY0".to_string())
    );
}

#[test]
fn parse_xrandr_extracts_dfp_output_for_nvidia() {
    let output = "\
Screen 0: minimum 8 x 8, current 1920 x 1080, maximum 32767 x 32767
DFP-1 connected 1920x1080+0+0 (normal left inverted right x axis y axis) 0mm x 0mm
   1920x1080     60.00 +
";
    assert_eq!(
        parse_xrandr_connected_output(output),
        Some("DFP-1".to_string())
    );
}

#[test]
fn parse_xrandr_returns_none_when_no_connected_output() {
    let output = "\
Screen 0: minimum 1 x 1, current 1920 x 1080, maximum 7680 x 4320
DUMMY0 disconnected (normal left inverted right x axis y axis)
DFP-1 disconnected
";
    assert_eq!(parse_xrandr_connected_output(output), None);
}

#[test]
fn parse_xrandr_returns_none_for_empty_stdout() {
    assert_eq!(parse_xrandr_connected_output(""), None);
}

#[test]
fn parse_xrandr_first_connected_wins_among_many() {
    let output = "\
Screen 0: minimum 1 x 1, current 1920 x 1080, maximum 7680 x 4320
HDMI-A-1 connected primary 1920x1080+0+0 (normal)
DP-1 connected 1280x720+0+0 (normal)
";
    assert_eq!(
        parse_xrandr_connected_output(output),
        Some("HDMI-A-1".to_string())
    );
}

#[test]
fn parse_xrandr_handles_no_space_before_connected() {
    // "disconnected" should NOT match — the " connected" pattern
    // requires a space before to distinguish from "disconnected".
    let output = "\
Screen 0
DP-1 disconnected
DP-2 disconnected (normal)
";
    assert_eq!(parse_xrandr_connected_output(output), None);
}

#[test]
fn benign_xrandr_stderr_recognizes_already_exists() {
    assert!(is_benign_xrandr_stderr(
        "xrandr: Mode \"1920x1080\" already exists"
    ));
    assert!(is_benign_xrandr_stderr("already exists"));
}

#[test]
fn benign_xrandr_stderr_rejects_real_errors() {
    assert!(!is_benign_xrandr_stderr(
        "xrandr: Failed to get size of gamma for output"
    ));
    assert!(!is_benign_xrandr_stderr(
        "xrandr: cannot find mode \"3840x2160\""
    ));
    assert!(!is_benign_xrandr_stderr(""));
}

#[test]
fn benign_xrandr_stderr_substring_match() {
    // The check is substring-based, so any line containing the phrase
    // counts as benign even if preceded by other text.
    assert!(is_benign_xrandr_stderr(
        "X Error of failed request: BadMatch\n\
         Major opcode: 153 (XRandR)\n\
         already exists\n"
    ));
}

#[test]
fn xorg_invocation_etc_x11_uses_wrapper_and_relative() {
    // /etc/X11/beam-xorg.conf → Xorg + "beam-xorg.conf" (relative)
    let (bin, arg) = resolve_xorg_invocation("/etc/X11/beam-xorg.conf", true);
    assert_eq!(bin, "Xorg");
    assert_eq!(arg, "beam-xorg.conf");
}

#[test]
fn xorg_invocation_etc_x11_subdir_relative() {
    // Multi-level path under /etc/X11/
    let (bin, arg) = resolve_xorg_invocation("/etc/X11/beam/beam-xorg-20.conf", true);
    assert_eq!(bin, "Xorg");
    assert_eq!(arg, "beam/beam-xorg-20.conf");
}

#[test]
fn xorg_invocation_tmp_uses_direct_binary_when_present() {
    let (bin, arg) = resolve_xorg_invocation("/tmp/beam-xorg-10.conf", true);
    assert_eq!(bin, "/usr/lib/xorg/Xorg");
    assert_eq!(arg, "/tmp/beam-xorg-10.conf");
}

#[test]
fn xorg_invocation_tmp_falls_back_to_xorg_wrapper_when_missing() {
    // When the direct binary doesn't exist, fall back to "Xorg" (PATH lookup).
    let (bin, arg) = resolve_xorg_invocation("/tmp/beam-xorg-10.conf", false);
    assert_eq!(bin, "Xorg");
    assert_eq!(arg, "/tmp/beam-xorg-10.conf");
}

#[test]
fn xorg_invocation_other_path_uses_absolute() {
    // Some custom dev path that isn't /etc/X11 or /tmp — full path passes.
    let (bin, arg) = resolve_xorg_invocation("/home/dev/xorg.conf", true);
    assert_eq!(bin, "/usr/lib/xorg/Xorg");
    assert_eq!(arg, "/home/dev/xorg.conf");
}

#[test]
fn xorg_cleanup_true_for_tmp_paths() {
    assert!(xorg_config_needs_cleanup("/tmp/beam-xorg-10.conf"));
    assert!(xorg_config_needs_cleanup("/tmp/anything"));
}

#[test]
fn xorg_cleanup_false_for_etc_paths() {
    // Package configs in /etc/X11/ must not be deleted on drop.
    assert!(!xorg_config_needs_cleanup("/etc/X11/beam-xorg.conf"));
    assert!(!xorg_config_needs_cleanup("/etc/X11/beam/x.conf"));
}

#[test]
fn xorg_cleanup_false_for_other_paths() {
    assert!(!xorg_config_needs_cleanup("/home/dev/xorg.conf"));
    assert!(!xorg_config_needs_cleanup(""));
    assert!(!xorg_config_needs_cleanup("relative/path"));
}

#[test]
fn pulse_runtime_dir_format_locks_to_tmp() {
    assert_eq!(pulse_runtime_dir(10), "/tmp/beam-pulse-10");
    assert_eq!(pulse_runtime_dir(99), "/tmp/beam-pulse-99");
    assert_eq!(pulse_runtime_dir(0), "/tmp/beam-pulse-0");
}

#[test]
fn pulse_runtime_dir_handles_max_display() {
    let result = pulse_runtime_dir(u32::MAX);
    assert!(result.starts_with("/tmp/beam-pulse-"));
    assert!(result.contains(&u32::MAX.to_string()));
}

#[test]
fn pulse_config_path_ends_with_pa() {
    assert_eq!(pulse_config_path(10), "/tmp/beam-pulse-10.pa");
    assert_eq!(pulse_config_path(42), "/tmp/beam-pulse-42.pa");
}

#[test]
fn pulse_server_socket_url_locks_to_unix_scheme() {
    assert_eq!(
        pulse_server_socket_url(10),
        "unix:/tmp/beam-pulse-10/native"
    );
}

#[test]
fn pulse_server_socket_url_is_unix_subpath_of_runtime_dir() {
    // The socket lives at <runtime_dir>/native — verify the helpers
    // stay consistent.
    let runtime = pulse_runtime_dir(7);
    let url = pulse_server_socket_url(7);
    assert!(url.contains(&runtime));
    assert!(url.ends_with("/native"));
}

#[test]
fn xdg_runtime_dir_is_tmp_keyed_by_display() {
    assert_eq!(xdg_runtime_dir(10), "/tmp/beam-run-10");
}

#[test]
fn keyring_control_dir_format() {
    assert_eq!(keyring_control_dir(10), "/tmp/beam-keyring-10");
}

#[test]
fn xorg_stderr_log_path_includes_display() {
    assert_eq!(xorg_stderr_log_path(99), "/tmp/beam-xorg-stderr-99.log");
}

#[test]
fn tmp_xorg_config_path_format() {
    assert_eq!(tmp_xorg_config_path(10), "/tmp/beam-xorg-10.conf");
}

#[test]
fn cleanup_paths_are_unique_per_display() {
    // Spot-check that two different display numbers produce different
    // cleanup paths so concurrent agents don't clobber each other.
    assert_ne!(pulse_runtime_dir(10), pulse_runtime_dir(11));
    assert_ne!(xdg_runtime_dir(10), xdg_runtime_dir(11));
    assert_ne!(keyring_control_dir(10), keyring_control_dir(11));
}

#[test]
fn keyring_data_dir_under_local_share() {
    let p = keyring_data_dir("/home/alice");
    assert_eq!(p, "/home/alice/.local/share/beam/keyring");
}

#[test]
fn keyrings_dir_is_subdir_of_keyring_data_dir() {
    let p = keyrings_dir("/home/alice");
    assert!(p.starts_with(&keyring_data_dir("/home/alice")));
    assert!(p.ends_with("/keyrings"));
}

#[test]
fn keyring_paths_handle_empty_home() {
    // If HOME is unset, env::var falls back to "" and we still build
    // a (relative) path. Verify it doesn't panic.
    let p = keyring_data_dir("");
    assert!(p.contains(".local/share/beam"));
}

#[test]
fn systemd_user_bus_path_includes_uid() {
    assert_eq!(systemd_user_bus_path(1000), "/run/user/1000/bus");
    assert_eq!(systemd_user_bus_path(0), "/run/user/0/bus");
}

#[test]
fn systemd_user_bus_address_unix_path_form() {
    assert_eq!(
        systemd_user_bus_address(1000),
        "unix:path=/run/user/1000/bus"
    );
}

#[test]
fn systemd_user_bus_address_is_subpath_of_bus_path() {
    let path = systemd_user_bus_path(1234);
    let addr = systemd_user_bus_address(1234);
    assert!(addr.contains(&path));
}

fn no_nvidia() -> NvidiaProbe {
    NvidiaProbe {
        driver_installed: false,
        proc_gpus: ProcListing::Missing,
        smi_stdout: None,
    }
}

#[test]
fn modeline_is_exact() {
    assert_eq!(
        generate_modeline(1920, 1080, 60),
        "149.30 1920 1968 2000 2080 1080 1083 1088 1113 +hsync +vsync"
    );
    assert_eq!(mode_name(1920, 1080), "1920x1080");
}

#[test]
fn clamped_dimensions_are_settled() {
    let (w, h) = clamp_resize_dimensions(2001, 1201, 1921, 1081).unwrap();
    assert_eq!(clamp_resize_dimensions(w, h, 1921, 1081), Some((w, h)));
}

#[test]
fn dummy_display_writes_its_configuration_to_tmp() {
    let setup = VirtualDisplay::start(10, 1920, 1080, "auto", 10, &no_nvidia(), false);
    assert_eq!(setup.config_path, "/tmp/beam-xorg-10.conf");
    assert_eq!(setup.config_text, Some(generate_xorg_config(1920, 1080)));
    assert_eq!(setup.edid_path, None);
    let setup = VirtualDisplay::start(10, 1920, 1080, "dummy", 10, &no_nvidia(), true);
    assert_eq!(setup.config_path, "/etc/X11/beam-xorg.conf");
    assert_eq!(setup.config_text, None);
}

#[test]
fn nvidia_display_gets_an_edid() {
    let probe = NvidiaProbe {
        driver_installed: true,
        proc_gpus: ProcListing::Entries(vec![ProcGpu {
            dir_name: "0000:bb:00.0".to_string(),
            information: Some("Model: \t NVIDIA L40S\nBus Location: \t 0000:bb:00.0\n".to_string()),
        }]),
        smi_stdout: None,
    };
    let setup = VirtualDisplay::start(12, 1920, 1080, "auto", 10, &probe, true);
    assert_eq!(setup.config_path, "/etc/X11/beam/beam-xorg-12.conf");
    assert_eq!(
        setup.edid_path.as_deref(),
        Some("/etc/X11/beam/beam-edid-12.bin")
    );
    assert_eq!(
        setup.config_text,
        Some(generate_nvidia_xorg_config(
            "PCI:187:0:0",
            "DFP-0",
            "/etc/X11/beam/beam-edid-12.bin"
        ))
    );
}

#[test]
fn xorg_is_started_on_the_display() {
    let launch = VirtualDisplay::start_with_config(10, "/tmp/beam-xorg-10.conf", true);
    assert_eq!(launch.command.program, "/usr/lib/xorg/Xorg");
    assert_eq!(launch.command.args[0], ":10");
    assert_eq!(
        launch.command.args[1..3],
        ["-config".to_string(), "/tmp/beam-xorg-10.conf".to_string()]
    );
    assert_eq!(launch.log_path, "/tmp/beam-xorg-stderr-10.log");
    assert!(!launch.set_initial_resolution);
    assert_eq!(
        launch.cleanup_config.as_deref(),
        Some("/tmp/beam-xorg-10.conf")
    );
    let launch = VirtualDisplay::start_with_config(10, "/etc/X11/beam-xorg.conf", true);
    assert!(launch.set_initial_resolution);
    assert_eq!(launch.cleanup_config, None);
}

fn display() -> VirtualDisplay {
    VirtualDisplay::running(10, "DUMMY0".to_string(), None, None)
}

#[test]
fn display_knows_its_number_and_output() {
    assert_eq!(display().display_num(), 10);
    assert_eq!(display().output_name(), "DUMMY0");
    assert_eq!(display_name(10), ":10");
    assert_eq!(x_lock_path(10), "/tmp/.X10-lock");
}

#[test]
fn resolution_takes_three_commands() {
    let plan = display().set_resolution(1280, 720);
    assert_eq!(
        plan.switch_mode.args,
        vec!["--output", "DUMMY0", "--mode", "1280x720"]
    );
    assert_eq!(
        plan.switch_mode.env,
        vec![("DISPLAY".to_string(), ":10".to_string())]
    );
    let plan = set_display_resolution(":7", 1920, 1080, "DFP-1");
    assert_eq!(plan.add_mode.args, vec!["--addmode", "DFP-1", "1920x1080"]);
    assert_eq!(
        plan.new_mode.args[..3],
        [
            "--newmode".to_string(),
            "1920x1080".to_string(),
            "149.30".to_string()
        ]
    );
    assert_eq!(
        resolution_error(1280, 720, "BadMatch"),
        "Failed to set resolution to 1280x720: BadMatch"
    );
}

#[test]
fn pulseaudio_runs_apart() {
    let launch = display().start_pulseaudio();
    assert_eq!(launch.runtime_dir, "/tmp/beam-pulse-10");
    assert_eq!(launch.config_path, "/tmp/beam-pulse-10.pa");
    assert_eq!(launch.config_text, pa_config("/tmp/beam-pulse-10"));
    assert_eq!(launch.command.program, "pulseaudio");
    assert_eq!(launch.command.env.len(), 3);
    assert_eq!(launch.command.env_remove, vec!["DBUS_SESSION_BUS_ADDRESS"]);
}

#[test]
fn cursor_is_hidden_by_what_is_installed() {
    let programs = |a: bool, b: bool| -> Vec<String> {
        display()
            .hide_cursor(a, b)
            .into_iter()
            .map(|c| c.program)
            .collect()
    };
    assert_eq!(programs(true, true), vec!["unclutter-xfixes", "unclutter"]);
    assert_eq!(programs(false, true), vec!["unclutter"]);
    assert!(programs(false, false).is_empty());
}

#[test]
fn teardown_removes_what_was_written() {
    let plain = display().teardown();
    assert_eq!(plain.len(), 8);
    let full = VirtualDisplay::running(
        10,
        "DUMMY0".to_string(),
        Some("/tmp/beam-xorg-10.conf".to_string()),
        Some("/etc/X11/beam/beam-edid-10.bin".to_string()),
    )
    .teardown();
    assert_eq!(full.len(), 10);
    assert_eq!(full[..4], plain[..4]);
    assert_eq!(full[6..], plain[4..]);
}

#[test]
fn only_running_children_are_signalled() {
    assert!(should_signal_child(ChildState::Running));
    assert!(!should_signal_child(ChildState::Exited));
    assert!(!should_signal_child(ChildState::Unknown));
}

#[test]
fn lock_file_names_a_process() {
    assert_eq!(lock_file_pid("      1234\n"), Some(1234));
    assert_eq!(lock_file_pid("not-a-pid"), None);
    assert_eq!(lock_file_pid("2147483648"), None);
    assert_eq!(lock_file_pid("-5"), Some(-5));
}

#[test]
fn display_is_tried_ten_times() {
    assert_eq!(probe_step(0, true), ProbeStep::Ready);
    assert_eq!(probe_step(8, false), ProbeStep::Retry);
    assert_eq!(probe_step(9, false), ProbeStep::GiveUp);
    assert_eq!(
        display_not_ready_error(":10"),
        "X display :10 not ready after 2 seconds"
    );
    let output = |n: u32, s: Option<&str>| detect_xrandr_output(n, s);
    assert_eq!(output(0, None), OutputStep::Retry);
    assert_eq!(output(9, None), OutputStep::Use("DUMMY0".to_string()));
    assert_eq!(output(0, Some("")), OutputStep::Use("DUMMY0".to_string()));
    assert_eq!(
        output(0, Some("DP-1 connected 1x1\n")),
        OutputStep::Use("DP-1".to_string())
    );
}
