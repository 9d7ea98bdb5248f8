use beam_agent::desktop::{
    after_start, bus_step, dbus_address_for_display, find_dbus_address_for_display, keyring_launch, panel_pids,
    parse_environ_for_dbus, read_environ, scan_environ, xfconf_command, xfconf_settings,
    BusStep, DesktopPlan, DesktopPrograms,
};
use beam_agent::display::VirtualDisplay;

#[test]
fn environ_parser_finds_display_and_dbus() {
    let env = b"DISPLAY=:10\0DBUS_SESSION_BUS_ADDRESS=unix:/tmp/dbus\0HOME=/home/x\0";
    let (has_display, dbus) = parse_environ_for_dbus(env, ":10");
    assert!(has_display);
    assert_eq!(dbus.as_deref(), Some("unix:/tmp/dbus"));
}

#[test]
fn environ_parser_no_display_match() {
    let env = b"DISPLAY=:99\0DBUS_SESSION_BUS_ADDRESS=unix:/tmp/x\0";
    let (has_display, dbus) = parse_environ_for_dbus(env, ":10");
    assert!(!has_display);
    // dbus addr is still extracted (the helper extracts both fields).
    assert_eq!(dbus.as_deref(), Some("unix:/tmp/x"));
}

#[test]
fn environ_parser_no_dbus_field() {
    let env = b"DISPLAY=:10\0HOME=/home/x\0";
    let (has_display, dbus) = parse_environ_for_dbus(env, ":10");
    assert!(has_display);
    assert!(dbus.is_none());
}

#[test]
fn environ_parser_empty_input() {
    let (has_display, dbus) = parse_environ_for_dbus(b"", ":10");
    assert!(!has_display);
    assert!(dbus.is_none());
}

#[test]
fn environ_parser_handles_trailing_null() {
    // Real /proc/<pid>/environ ends with a trailing null; verify
    // the split doesn't fail on the empty tail.
    let env = b"DISPLAY=:10\0DBUS_SESSION_BUS_ADDRESS=unix:/tmp/y\0";
    let (has_display, dbus) = parse_environ_for_dbus(env, ":10");
    assert!(has_display);
    assert!(dbus.is_some());
}

#[test]
fn environ_parser_invalid_utf8_does_not_panic() {
    // Some env vars on weird shells contain non-UTF8 bytes. The lossy
    // decode must not panic.
    let env = b"PATH=\xff\xfe/bin\0DISPLAY=:10\0";
    let (has_display, _) = parse_environ_for_dbus(env, ":10");
    assert!(has_display);
}

#[test]
fn environ_parser_matches_only_full_display_token() {
    // DISPLAY=:10 should not match :100 (the display arg).
    let env = b"DISPLAY=:10\0";
    let (has_display, _) = parse_environ_for_dbus(env, ":100");
    assert!(!has_display);
}

#[test]
fn dbus_addr_for_display_returns_some_on_match() {
    let env = b"DISPLAY=:10\0DBUS_SESSION_BUS_ADDRESS=unix:/tmp/z\0";
    assert_eq!(
        dbus_address_for_display(env, ":10").as_deref(),
        Some("unix:/tmp/z")
    );
}

#[test]
fn dbus_addr_for_display_none_when_display_mismatches() {
    let env = b"DISPLAY=:99\0DBUS_SESSION_BUS_ADDRESS=unix:/tmp/z\0";
    assert!(dbus_address_for_display(env, ":10").is_none());
}

#[test]
fn dbus_addr_for_display_none_when_no_dbus_var() {
    let env = b"DISPLAY=:10\0PATH=/usr/bin\0";
    assert!(dbus_address_for_display(env, ":10").is_none());
}

#[test]
fn find_dbus_prefers_user_bus() {
    let environs = vec![b"DISPLAY=:99\0DBUS_SESSION_BUS_ADDRESS=unix:/tmp/a\0".to_vec()];
    assert_eq!(
        find_dbus_address_for_display(":99", 1000, true, &environs).as_deref(),
        Some("unix:path=/run/user/1000/bus")
    );
    assert_eq!(
        find_dbus_address_for_display(":99", 1000, false, &environs).as_deref(),
        Some("unix:/tmp/a")
    );
}

#[test]
fn find_dbus_returns_none_for_nonexistent_display() {
    let environs = vec![b"DISPLAY=:99\0DBUS_SESSION_BUS_ADDRESS=unix:/tmp/a\0".to_vec()];
    assert_eq!(
        find_dbus_address_for_display(":9999", 1000, false, &environs),
        None
    );
}

#[test]
fn environ_is_read_with_bad_bytes_replaced() {
    assert_eq!(read_environ(b"A=1\0B=\xff\0"), vec!["A=1", "B=\u{FFFD}", ""]);
}

#[test]
fn last_bus_address_counts() {
    let vars: Vec<String> = [
        "DBUS_SESSION_BUS_ADDRESS=unix:/tmp/a",
        "DISPLAY=:10",
        "DBUS_SESSION_BUS_ADDRESS=unix:/tmp/b",
    ]
    .iter()
    .map(|s| s.to_string())
    .collect();
    assert_eq!(
        scan_environ(&vars, ":10"),
        (true, Some("unix:/tmp/b".to_string()))
    );
}

#[test]
fn panel_processes_are_listed() {
    assert_eq!(panel_pids("123\n 456 \n\n"), vec!["123", "456"]);
}

fn display() -> VirtualDisplay {
    VirtualDisplay::running(10, "DUMMY0".to_string(), None, None)
}

fn programs(xfce4_session: bool, openbox: bool, xterm: bool) -> DesktopPrograms {
    DesktopPrograms {
        xfce4_session,
        openbox,
        xfce4_terminal: false,
        xterm,
    }
}

#[test]
fn xfce_is_preferred() {
    match display().start_desktop(programs(true, true, false), "/c", Some("firefox"), None) {
        Ok(DesktopPlan::Xfce {
            runtime_dir,
            command,
        }) => {
            assert_eq!(runtime_dir, "/tmp/beam-run-10");
            assert!(command
                .env
                .contains(&("XDG_CONFIG_HOME".to_string(), "/c".to_string())));
            assert!(command
                .env
                .contains(&("DISPLAY".to_string(), ":10".to_string())));
        }
        other => panic!("expected XFCE, got {other:?}"),
    }
}

#[test]
fn openbox_comes_with_a_terminal_where_there_is_one() {
    match display().start_desktop(programs(false, true, true), "/c", None, None) {
        Ok(DesktopPlan::Openbox {
            command, terminal, ..
        }) => {
            assert_eq!(command.program, "openbox");
            assert_eq!(terminal.unwrap().program, "xterm");
        }
        other => panic!("expected openbox, got {other:?}"),
    }
    match display().start_desktop(programs(false, true, false), "/c", None, None) {
        Ok(DesktopPlan::Openbox { terminal, .. }) => assert!(terminal.is_none()),
        other => panic!("expected openbox, got {other:?}"),
    }
}

#[test]
fn no_desktop_is_an_error() {
    assert_eq!(
        display()
            .start_desktop(programs(false, false, true), "/c", None, None)
            .unwrap_err(),
        "No desktop environment found. Install xfce4 or openbox."
    );
}

#[test]
fn keyring_has_its_own_control_directory() {
    let launch = keyring_launch(10, "unix:/tmp/bus", "/home/alice");
    assert_eq!(launch.control_dir, "/tmp/beam-keyring-10");
    assert_eq!(
        launch.keyrings_dir,
        "/home/alice/.local/share/beam/keyring/keyrings"
    );
    assert_eq!(
        launch.command.args[1],
        "echo '' | gnome-keyring-daemon --foreground --unlock --components=secrets \
         --control-directory=/tmp/beam-keyring-10"
    );
}

#[test]
fn settings_are_set_by_xfconf_query() {
    let settings = xfconf_settings();
    assert_eq!(settings.len(), 15);
    let command = xfconf_command(&settings[0], ":10", Some("unix:/tmp/bus"));
    assert_eq!(
        command.args,
        vec!["-c", "xfwm4", "-p", "/general/use_compositing", "-n", "-t", "bool", "-s", "false"]
    );
    assert_eq!(command.env.len(), 2);
    assert_eq!(xfconf_command(&settings[0], ":10", None).env.len(), 1);
}

#[test]
fn keyring_needs_a_bus_and_settings_a_first_session() {
    let all = after_start(10, Some("unix:/tmp/bus"), true, "/home/alice");
    let keyring = all.keyring.unwrap();
    assert_eq!(keyring.control_dir, "/tmp/beam-keyring-10");
    assert!(keyring.command.env.contains(&(
        "DBUS_SESSION_BUS_ADDRESS".to_string(),
        "unix:/tmp/bus".to_string()
    )));
    assert_eq!(all.settings.len(), xfconf_settings().len());
    assert_eq!(all.settings[0].program, "xfconf-query");
    assert!(all.settings[0]
        .args
        .contains(&"/general/use_compositing".to_string()));

    let without_bus = after_start(10, None, true, "/home/alice");
    assert!(without_bus.keyring.is_none());
    assert_eq!(without_bus.settings.len(), xfconf_settings().len());
    assert_eq!(
        without_bus.settings[0].env,
        vec![("DISPLAY".to_string(), ":10".to_string())]
    );

    let later = after_start(10, Some("unix:/tmp/bus"), false, "/home/alice");
    assert!(later.keyring.is_some());
    assert!(later.settings.is_empty());
}

#[test]
fn bus_is_looked_for_fifteen_times() {
    assert_eq!(bus_step(1, true), BusStep::Found);
    assert_eq!(bus_step(1, false), BusStep::Retry);
    assert_eq!(bus_step(14, false), BusStep::Retry);
    assert_eq!(bus_step(15, false), BusStep::GiveUp);
    assert_eq!(bus_step(15, true), BusStep::Found);
}
