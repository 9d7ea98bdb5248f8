use beam_agent::cli::{
    help_text, parse_args_from, parse_args_with, version_line, Args, ArgsOutcome, DEFAULT_BITRATE,
    DEFAULT_FRAMERATE,
};
use uuid::Uuid;

fn command_line(args: &[&str]) -> Vec<String> {
    let mut full = vec!["beam-agent".to_string()];
    full.extend(args.iter().map(|s| s.to_string()));
    full
}

fn parse(args: &[&str]) -> Result<ArgsOutcome, String> {
    parse_args_from(&command_line(args), None)
}

fn parsed_args(args: &[&str]) -> Result<Args, String> {
    match parse(args)? {
        ArgsOutcome::Run(a) => Ok(a),
        other => Err(format!("Expected Run, got {:?}", other)),
    }
}

#[test]
fn defaults_with_only_session_id() {
    let id = Uuid::new_v4();
    let a = parsed_args(&["--session-id", &id.to_string()]).unwrap();
    assert_eq!(a.display, ":0");
    assert_eq!(a.server_url, "");
    assert_eq!(a.session_id, id.as_u128());
    assert!(a.agent_token.is_none());
    assert_eq!(a.width, 1920);
    assert_eq!(a.height, 1080);
    assert_eq!(a.framerate, DEFAULT_FRAMERATE);
    assert_eq!(a.bitrate, DEFAULT_BITRATE);
    assert_eq!(a.max_width, 3840);
    assert_eq!(a.max_height, 2160);
    assert_eq!(a.gpu_driver, "auto");
    assert_eq!(a.display_start, 10);
    assert!(a.encoder.is_none());
    assert!(a.tls_cert_path.is_none());
}

#[test]
fn missing_session_id_returns_err() {
    let result = parse(&[]);
    assert!(result.is_err());
    assert!(
        result
            .unwrap_err()
            .to_string()
            .contains("--session-id is required")
    );
}

#[test]
fn invalid_session_id_returns_err() {
    let result = parse(&["--session-id", "not-a-uuid"]);
    assert!(result.is_err());
}

#[test]
fn version_short_returns_print_version() {
    let outcome = parse(&["-V"]).unwrap();
    assert!(matches!(outcome, ArgsOutcome::PrintVersion));
}

#[test]
fn version_long_returns_print_version() {
    let outcome = parse(&["--version"]).unwrap();
    assert!(matches!(outcome, ArgsOutcome::PrintVersion));
}

#[test]
fn help_short_returns_print_help() {
    let outcome = parse(&["-h"]).unwrap();
    assert!(matches!(outcome, ArgsOutcome::PrintHelp));
}

#[test]
fn help_long_returns_print_help() {
    let outcome = parse(&["--help"]).unwrap();
    assert!(matches!(outcome, ArgsOutcome::PrintHelp));
}

#[test]
fn version_short_circuits_before_session_id_required() {
    // --version should bypass --session-id requirement
    let outcome = parse(&["--version"]).unwrap();
    assert!(matches!(outcome, ArgsOutcome::PrintVersion));
}

#[test]
fn display_override() {
    let id = Uuid::new_v4();
    let a = parsed_args(&["--display", ":10", "--session-id", &id.to_string()]).unwrap();
    assert_eq!(a.display, ":10");
}

#[test]
fn server_url_override() {
    let id = Uuid::new_v4();
    let a = parsed_args(&[
        "--server-url",
        "wss://example.test/ws",
        "--session-id",
        &id.to_string(),
    ])
    .unwrap();
    assert_eq!(a.server_url, "wss://example.test/ws");
}

#[test]
fn agent_token_override() {
    let id = Uuid::new_v4();
    let a = parsed_args(&[
        "--agent-token",
        "secret-token-value",
        "--session-id",
        &id.to_string(),
    ])
    .unwrap();
    assert_eq!(a.agent_token.as_deref(), Some("secret-token-value"));
}

#[test]
fn tls_cert_path_override() {
    let id = Uuid::new_v4();
    let a = parsed_args(&[
        "--tls-cert",
        "/etc/beam/cert.pem",
        "--session-id",
        &id.to_string(),
    ])
    .unwrap();
    assert_eq!(a.tls_cert_path.as_deref(), Some("/etc/beam/cert.pem"));
}

#[test]
fn width_height_overrides() {
    let id = Uuid::new_v4();
    let a = parsed_args(&[
        "--width",
        "2560",
        "--height",
        "1440",
        "--session-id",
        &id.to_string(),
    ])
    .unwrap();
    assert_eq!(a.width, 2560);
    assert_eq!(a.height, 1440);
}

#[test]
fn framerate_bitrate_overrides() {
    let id = Uuid::new_v4();
    let a = parsed_args(&[
        "--framerate",
        "60",
        "--bitrate",
        "10000",
        "--session-id",
        &id.to_string(),
    ])
    .unwrap();
    assert_eq!(a.framerate, 60);
    assert_eq!(a.bitrate, 10000);
}

#[test]
fn encoder_override() {
    let id = Uuid::new_v4();
    let a = parsed_args(&["--encoder", "x264enc", "--session-id", &id.to_string()]).unwrap();
    assert_eq!(a.encoder.as_deref(), Some("x264enc"));
}

#[test]
fn max_dimensions_override() {
    let id = Uuid::new_v4();
    let a = parsed_args(&[
        "--max-width",
        "7680",
        "--max-height",
        "4320",
        "--session-id",
        &id.to_string(),
    ])
    .unwrap();
    assert_eq!(a.max_width, 7680);
    assert_eq!(a.max_height, 4320);
}

#[test]
fn gpu_driver_override() {
    let id = Uuid::new_v4();
    let a = parsed_args(&["--gpu-driver", "nvidia", "--session-id", &id.to_string()]).unwrap();
    assert_eq!(a.gpu_driver, "nvidia");
}

#[test]
fn display_start_override() {
    let id = Uuid::new_v4();
    let a = parsed_args(&["--display-start", "42", "--session-id", &id.to_string()]).unwrap();
    assert_eq!(a.display_start, 42);
}

#[test]
fn unknown_argument_returns_err() {
    let id = Uuid::new_v4();
    let result = parse(&["--bogus", "--session-id", &id.to_string()]);
    assert!(result.is_err());
    assert!(result.unwrap_err().to_string().contains("Unknown argument"));
}

#[test]
fn missing_value_for_display_returns_err() {
    let result = parse(&["--display"]);
    assert!(result.is_err());
}

#[test]
fn missing_value_for_width_returns_err() {
    let result = parse(&["--width"]);
    assert!(result.is_err());
}

#[test]
fn invalid_width_value_returns_err() {
    let id = Uuid::new_v4();
    let result = parse(&["--width", "not-a-number", "--session-id", &id.to_string()]);
    assert!(result.is_err());
    assert!(result.unwrap_err().to_string().contains("--width"));
}

#[test]
fn invalid_height_value_returns_err() {
    let id = Uuid::new_v4();
    let result = parse(&["--height", "not-a-number", "--session-id", &id.to_string()]);
    assert!(result.is_err());
}

#[test]
fn invalid_framerate_value_returns_err() {
    let id = Uuid::new_v4();
    let result = parse(&["--framerate", "x", "--session-id", &id.to_string()]);
    assert!(result.is_err());
}

#[test]
fn invalid_bitrate_value_returns_err() {
    let id = Uuid::new_v4();
    let result = parse(&["--bitrate", "abc", "--session-id", &id.to_string()]);
    assert!(result.is_err());
}

#[test]
fn invalid_max_width_value_returns_err() {
    let id = Uuid::new_v4();
    let result = parse(&["--max-width", "x", "--session-id", &id.to_string()]);
    assert!(result.is_err());
}

#[test]
fn invalid_max_height_value_returns_err() {
    let id = Uuid::new_v4();
    let result = parse(&["--max-height", "x", "--session-id", &id.to_string()]);
    assert!(result.is_err());
}

#[test]
fn invalid_display_start_value_returns_err() {
    let id = Uuid::new_v4();
    let result = parse(&["--display-start", "x", "--session-id", &id.to_string()]);
    assert!(result.is_err());
}

#[test]
fn defaults_are_sensible_constants() {
    // Document and lock the default constants.
    assert_eq!(DEFAULT_BITRATE, 50_000);
    assert_eq!(DEFAULT_FRAMERATE, 120);
}

#[test]
fn help_text_starts_with_program_name() {
    let h = help_text();
    assert!(h.starts_with("beam-agent"));
}

#[test]
fn help_text_lists_usage_section() {
    let h = help_text();
    assert!(h.contains("USAGE:"));
    assert!(h.contains("beam-agent [OPTIONS]"));
}

#[test]
fn help_text_lists_options_section() {
    let h = help_text();
    assert!(h.contains("OPTIONS:"));
    // Spot-check every major flag is documented.
    for flag in [
        "--display",
        "--server-url",
        "--session-id",
        "--agent-token",
        "--tls-cert",
        "--width",
        "--height",
        "--framerate",
        "--bitrate",
        "--encoder",
        "--max-width",
        "--max-height",
        "--gpu-driver",
        "--display-start",
        "-V, --version",
        "-h, --help",
    ] {
        assert!(h.contains(flag), "Help text is missing {flag}");
    }
}

#[test]
fn help_text_documents_defaults() {
    let h = help_text();
    // Spot-check default values are visible to operators.
    assert!(h.contains("[default: :0]"));
    assert!(h.contains("[default: 1920]"));
    assert!(h.contains("[default: 1080]"));
    assert!(h.contains("[default: 120]"));
    assert!(h.contains("[default: 100000]"));
    assert!(h.contains("[default: 3840]"));
    assert!(h.contains("[default: 2160]"));
    assert!(h.contains("[default: auto]"));
    assert!(h.contains("[default: 10]"));
}

#[test]
fn help_text_documents_required_session_id() {
    let h = help_text();
    assert!(h.contains("(required)"));
}

#[test]
fn help_text_mentions_env_var_for_agent_token() {
    let h = help_text();
    assert!(h.contains("BEAM_AGENT_TOKEN"));
}

#[test]
fn help_text_ends_with_newline() {
    // Operator-friendly: terminal stays aligned.
    let h = help_text();
    assert!(h.ends_with('\n'));
}

#[test]
fn version_line_includes_version() {
    let v = version_line("0.3.99");
    assert_eq!(v, "beam-agent 0.3.99");
}

#[test]
fn version_line_includes_dev_suffix() {
    let v = version_line("0.4.0-dev");
    assert!(v.contains("0.4.0-dev"));
}

#[test]
fn version_line_handles_empty_version() {
    // Defensive — pkg version is always set, but the formatter should
    // not panic on empty.
    let v = version_line("");
    assert_eq!(v, "beam-agent ");
}

const SESSION: &str = "67e55044-10b1-426f-9247-bb680e5fe0c8";

#[test]
fn token_comes_from_the_environment_where_none_is_given() {
    let token = |args: &[&str], env: Option<&str>| {
        match parse_args_from(&command_line(args), env.map(|s| s.to_string())) {
            Ok(ArgsOutcome::Run(a)) => a.agent_token,
            other => panic!("Expected Run, got {:?}", other),
        }
    };
    assert_eq!(token(&["--session-id", SESSION], None), None);
    assert_eq!(
        token(&["--session-id", SESSION], Some("from-env")).as_deref(),
        Some("from-env")
    );
    assert_eq!(
        token(
            &["--session-id", SESSION, "--agent-token", "given"],
            Some("from-env")
        )
        .as_deref(),
        Some("given")
    );
}

#[test]
fn later_option_wins() {
    let a = parsed_args(&[
        "--width", "800", "--session-id", SESSION, "--width", "1024",
    ])
    .unwrap();
    assert_eq!(a.width, 1024);
}

#[test]
fn session_id_is_the_number_of_the_uuid() {
    let a = parsed_args(&["--session-id", SESSION]).unwrap();
    assert_eq!(a.session_id, 0x67e5504410b1426f9247bb680e5fe0c8);
    let a = parsed_args(&["--session-id", "67e5504410b1426f9247bb680e5fe0c8"]).unwrap();
    assert_eq!(a.session_id, 0x67e5504410b1426f9247bb680e5fe0c8);
}

#[test]
fn given_uuid_values_are_used() {
    let args = command_line(&["--session-id", "anything"]);
    match parse_args_with(&args, &vec![None, None, Some(7)], None) {
        Ok(ArgsOutcome::Run(a)) => assert_eq!(a.session_id, 7),
        other => panic!("Expected Run, got {:?}", other),
    }
    assert!(parse_args_with(&args, &vec![None, None, None], None).is_err());
}

#[test]
fn number_beyond_32_bits_is_refused() {
    assert!(parse(&["--width", "4294967296", "--session-id", SESSION]).is_err());
    let a = parsed_args(&["--width", "4294967295", "--session-id", SESSION]).unwrap();
    assert_eq!(a.width, u32::MAX);
}

#[test]
fn options_may_come_in_any_order() {
    let id = Uuid::new_v4().to_string();
    let a = parse(&["--session-id", &id, "--width", "800", "--encoder", "x264enc"]);
    let b = parse(&["--encoder", "x264enc", "--session-id", &id, "--width", "800"]);
    let again = parse(&[
        "--width", "5", "--encoder", "x264enc", "--session-id", &id, "--width", "800",
    ]);
    assert!(a.is_ok());
    assert_eq!(format!("{a:?}"), format!("{b:?}"));
    assert_eq!(format!("{a:?}"), format!("{again:?}"));
    let missing = parse(&["--width", "800", "--encoder", "x264enc"]);
    assert_eq!(
        format!("{missing:?}"),
        format!("{:?}", parse(&["--encoder", "x264enc", "--width", "800"]))
    );
}
