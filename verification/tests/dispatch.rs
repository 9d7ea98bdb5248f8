use beam_agent::capture_loop::CaptureCommand;
use beam_agent::clipboard::ClipboardWrite;
use beam_agent::clipboard_sync::MAX_CLIPBOARD_BYTES;
use beam_agent::dispatch::{
    classify_input_event, classify_setxkbmap_result, dispatch_input_action,
    handle_pre_dispatch, handle_visibility_change, is_clipboard_read_trigger_key,
    is_clipboard_size_ok, is_ctrl_keycode, is_interactive_input_event, is_valid_layout_name,
    layout_is_duplicate, receive_input_event, setxkbmap_command, InputAction, InputDispatchState, InputEvent,
    LayoutEffect, SetxkbmapOutcome, Signal,
};
use beam_agent::filetransfer::FileSink;
use beam_agent::float_bits;
use beam_agent::input::{Inject, InputInjector};

const MAX_INPUT_DELTA: f64 = float_bits::MAX_INPUT_DELTA as f64;

fn is_finite_bounded_delta(dx: f64, dy: f64) -> bool {
    float_bits::is_finite_bounded_delta(dx.to_bits(), dy.to_bits())
}

fn classify(event: InputEvent) -> InputAction {
    classify_input_event(&event, 3840, 2160)
}

fn classify_with_max(event: InputEvent, mw: u32, mh: u32) -> InputAction {
    classify_input_event(&event, mw, mh)
}

/// An injector that records every call, and can be told to fail.
#[derive(Default)]
struct MockInjector {
    keys: Vec<(u16, bool)>,
    mouse_abs: Vec<(f64, f64)>,
    mouse_rel: Vec<(f64, f64)>,
    buttons: Vec<(u8, bool)>,
    scrolls: Vec<(f64, f64)>,
    fails: bool,
}

fn outcome(fails: bool) -> Result<(), String> {
    if fails {
        Err("mock failure".to_string())
    } else {
        Ok(())
    }
}

fn floats(a: u64, b: u64) -> (f64, f64) {
    (f64::from_bits(a), f64::from_bits(b))
}

impl Inject for MockInjector {
    fn inject_key(&mut self, code: u16, pressed: bool) -> Result<(), String> {
        self.keys.push((code, pressed));
        outcome(self.fails)
    }
    fn inject_mouse_move_abs(&mut self, x: u64, y: u64) -> Result<(), String> {
        self.mouse_abs.push(floats(x, y));
        outcome(self.fails)
    }
    fn inject_mouse_move_rel(&mut self, dx: u64, dy: u64) -> Result<(), String> {
        self.mouse_rel.push(floats(dx, dy));
        outcome(self.fails)
    }
    fn inject_button(&mut self, button: u8, pressed: bool) -> Result<(), String> {
        self.buttons.push((button, pressed));
        outcome(self.fails)
    }
    fn inject_scroll(&mut self, dx: u64, dy: u64) -> Result<(), String> {
        self.scrolls.push(floats(dx, dy));
        outcome(self.fails)
    }
}

#[derive(Default)]
struct MockClipboard {
    clip: Vec<String>,
    prim: Vec<String>,
    fails: bool,
}

impl ClipboardWrite for MockClipboard {
    fn set_text(&mut self, text: &str) -> Result<(), String> {
        self.clip.push(text.to_string());
        outcome(self.fails)
    }
    fn set_primary_text(&mut self, text: &str) -> Result<(), String> {
        self.prim.push(text.to_string());
        outcome(self.fails)
    }
}

#[derive(Default)]
struct MockFileSink {
    starts: Vec<(String, String, u64)>,
    chunks: Vec<(String, String)>,
    dones: Vec<String>,
    fails: bool,
}

impl FileSink for MockFileSink {
    fn handle_file_start(&mut self, id: &str, name: &str, size: u64) -> Result<(), String> {
        self.starts.push((id.to_string(), name.to_string(), size));
        outcome(self.fails)
    }
    fn handle_file_chunk(&mut self, id: &str, data: &str) -> Result<(), String> {
        self.chunks.push((id.to_string(), data.to_string()));
        outcome(self.fails)
    }
    fn handle_file_done(&mut self, id: &str) -> Result<(), String> {
        self.dones.push(id.to_string());
        outcome(self.fails)
    }
}

/// What the rest of the agent holds, as signals leave it.
#[derive(Default)]
struct Agent {
    last_input: u64,
    woken: bool,
    tab_backgrounded: bool,
    video_needs_keyframe: bool,
    commands: Vec<CaptureCommand>,
    resizes: Vec<(u32, u32)>,
    clipboard_reads: usize,
    downloads: Vec<String>,
}

impl Agent {
    fn take(&mut self, signals: Vec<Signal>) {
        for signal in signals {
            match signal {
                Signal::LastInput(ms) => self.last_input = ms,
                Signal::WakeCapture => self.woken = true,
                Signal::Backgrounded(b) => self.tab_backgrounded = b,
                Signal::NeedKeyframe => self.video_needs_keyframe = true,
                Signal::ResetEncoder => self.commands.push(CaptureCommand::ResetEncoder),
                Signal::Resize { width, height } => self.resizes.push((width, height)),
                Signal::ReadClipboard => self.clipboard_reads += 1,
                Signal::Download { path } => self.downloads.push(path),
            }
        }
    }
}

struct Fixture {
    injector: MockInjector,
    clipboard: MockClipboard,
    file_sink: MockFileSink,
    state: InputDispatchState,
    agent: Agent,
}

impl Fixture {
    fn new() -> Self {
        Self {
            injector: MockInjector::default(),
            clipboard: MockClipboard::default(),
            file_sink: MockFileSink::default(),
            state: InputDispatchState::new(),
            agent: Agent::default(),
        }
    }

    fn failing() -> Self {
        let mut fx = Self::new();
        fx.injector.fails = true;
        fx.clipboard.fails = true;
        fx.file_sink.fails = true;
        fx
    }

    fn dispatch(&mut self, action: InputAction) -> Option<LayoutEffect> {
        let mut signals = Vec::new();
        let effect = dispatch_input_action(
            action,
            &mut self.injector,
            &mut self.clipboard,
            &mut self.file_sink,
            &mut self.state,
            &mut signals,
            ":99",
        );
        self.agent.take(signals);
        effect
    }
}

fn run_dispatch(action: InputAction) -> Fixture {
    let mut fx = Fixture::new();
    fx.dispatch(action);
    fx
}

fn key(code: u16, pressed: bool) -> InputAction {
    InputAction::InjectKey { code, pressed }
}

fn layout(name: &str) -> InputAction {
    InputAction::Layout {
        layout: name.to_string(),
    }
}

#[test]
fn finite_bounded_delta_accepts_small_values() {
    assert!(is_finite_bounded_delta(0.0, 0.0));
    assert!(is_finite_bounded_delta(1.0, -1.0));
    assert!(is_finite_bounded_delta(0.5, 0.5));
    assert!(is_finite_bounded_delta(100.0, -100.0));
}

#[test]
fn finite_bounded_delta_accepts_boundary_values() {
    // 10000.0 is inclusive, so it must pass.
    assert!(is_finite_bounded_delta(MAX_INPUT_DELTA, MAX_INPUT_DELTA));
    assert!(is_finite_bounded_delta(-MAX_INPUT_DELTA, -MAX_INPUT_DELTA));
    assert!(is_finite_bounded_delta(MAX_INPUT_DELTA, -MAX_INPUT_DELTA));
}

#[test]
fn finite_bounded_delta_rejects_beyond_max() {
    assert!(!is_finite_bounded_delta(MAX_INPUT_DELTA + 0.0001, 0.0));
    assert!(!is_finite_bounded_delta(0.0, MAX_INPUT_DELTA + 0.0001));
    assert!(!is_finite_bounded_delta(20_000.0, 0.0));
    assert!(!is_finite_bounded_delta(0.0, -20_000.0));
}

#[test]
fn finite_bounded_delta_rejects_nan() {
    assert!(!is_finite_bounded_delta(f64::NAN, 0.0));
    assert!(!is_finite_bounded_delta(0.0, f64::NAN));
    assert!(!is_finite_bounded_delta(f64::NAN, f64::NAN));
}

#[test]
fn finite_bounded_delta_rejects_infinity() {
    assert!(!is_finite_bounded_delta(f64::INFINITY, 0.0));
    assert!(!is_finite_bounded_delta(0.0, f64::INFINITY));
    assert!(!is_finite_bounded_delta(f64::NEG_INFINITY, 0.0));
    assert!(!is_finite_bounded_delta(0.0, f64::NEG_INFINITY));
    assert!(!is_finite_bounded_delta(f64::INFINITY, f64::NEG_INFINITY));
}

#[test]
fn finite_bounded_delta_subnormal_values_are_accepted() {
    // f64::MIN_POSITIVE is the smallest positive normal value; subnormals
    // smaller than that are still finite, so they are accepted.
    let tiny = f64::MIN_POSITIVE / 2.0;
    assert!(is_finite_bounded_delta(tiny, tiny));
}

#[test]
fn finite_bounded_delta_negative_zero_is_accepted() {
    // -0.0 is finite and in range; must not be confused for NaN or sign-flipped.
    assert!(is_finite_bounded_delta(-0.0, -0.0));
}

#[test]
fn valid_layout_accepts_common_keyboard_layouts() {
    // setxkbmap layouts that we routinely send from the browser.
    for name in ["us", "us-intl", "de", "no", "se", "gb", "fr"] {
        assert!(
            is_valid_layout_name(name),
            "Layout '{name}' should be accepted"
        );
    }
}

#[test]
fn valid_layout_accepts_alphanumeric_and_separators() {
    assert!(is_valid_layout_name("us"));
    assert!(is_valid_layout_name("us-intl"));
    assert!(is_valid_layout_name("us_intl"));
    assert!(is_valid_layout_name("layout1"));
    assert!(is_valid_layout_name("a-b_c-d"));
}

#[test]
fn valid_layout_rejects_empty() {
    assert!(!is_valid_layout_name(""));
}

#[test]
fn valid_layout_rejects_too_long() {
    // 20 chars max — 21 must fail.
    let long_layout = "a".repeat(21);
    assert!(!is_valid_layout_name(&long_layout));
    // Boundary: exactly 20 passes.
    let twenty = "a".repeat(20);
    assert!(is_valid_layout_name(&twenty));
}

#[test]
fn valid_layout_rejects_shell_metacharacters() {
    // These would be dangerous in argv to setxkbmap.
    for bad in [
        "us;rm -rf /",
        "us $(rm)",
        "us`evil`",
        "us|cat",
        "us&exit",
        "us>/etc",
        "us\nbreak",
        "us\tbad",
        "us ",
        " us",
        "../etc/passwd",
        "us/intl",
    ] {
        assert!(
            !is_valid_layout_name(bad),
            "Layout '{bad}' must be rejected (shell metacharacter)"
        );
    }
}

#[test]
fn valid_layout_rejects_unicode() {
    // Non-ASCII characters are out: setxkbmap takes only ASCII layout names.
    assert!(!is_valid_layout_name("café"));
    assert!(!is_valid_layout_name("\u{00e9}"));
    assert!(!is_valid_layout_name("layout\u{0000}null"));
}

#[test]
fn valid_layout_rejects_special_chars_period_and_at() {
    // Even though `.` and `@` look benign, they're NOT in the allowed set.
    assert!(!is_valid_layout_name("us.dvorak"));
    assert!(!is_valid_layout_name("us@v2"));
}

#[test]
fn valid_layout_accepts_single_character() {
    // Smallest non-empty layout.
    assert!(is_valid_layout_name("a"));
    assert!(is_valid_layout_name("1"));
    assert!(is_valid_layout_name("-"));
    assert!(is_valid_layout_name("_"));
}

#[test]
fn clipboard_size_accepts_empty_and_small() {
    assert!(is_clipboard_size_ok(0));
    assert!(is_clipboard_size_ok(1));
    assert!(is_clipboard_size_ok(1024));
    assert!(is_clipboard_size_ok(65_536));
}

#[test]
fn clipboard_size_accepts_exact_max() {
    assert!(is_clipboard_size_ok(MAX_CLIPBOARD_BYTES));
}

#[test]
fn clipboard_size_rejects_one_byte_over() {
    assert!(!is_clipboard_size_ok(MAX_CLIPBOARD_BYTES + 1));
}

#[test]
fn clipboard_size_rejects_dos_payloads() {
    // 1 GB and beyond is far too large.
    assert!(!is_clipboard_size_ok(1_000_000_000));
    assert!(!is_clipboard_size_ok(usize::MAX));
}

#[test]
fn clipboard_max_is_one_mib() {
    // Lock the constant: 1 MiB ceiling (browsers can grow up to it, larger
    // pastes are dropped with a warning).
    assert_eq!(MAX_CLIPBOARD_BYTES, 1_048_576);
    assert_eq!(MAX_CLIPBOARD_BYTES, 1024 * 1024);
}

#[test]
fn input_delta_max_lock() {
    // Sanity: the cap is high enough for sane scroll/relative-motion deltas
    // but low enough that an int16 conversion downstream doesn't overflow.
    assert_eq!(MAX_INPUT_DELTA, 10_000.0);
    // i16 max is 32767, and we round our delta to i16. 10000 fits.
    assert!(MAX_INPUT_DELTA as i32 <= i16::MAX as i32);
}

#[test]
fn ctrl_keycode_recognizes_left_and_right_ctrl() {
    assert!(is_ctrl_keycode(29), "Left Ctrl");
    assert!(is_ctrl_keycode(97), "Right Ctrl");
}

#[test]
fn ctrl_keycode_rejects_other_keys() {
    // Spot-check non-Ctrl keycodes — must not flip the ctrl_down flag.
    for code in [0u16, 1, 28, 30, 96, 98, 100, 200, u16::MAX] {
        assert!(!is_ctrl_keycode(code), "Keycode {code} should not be Ctrl");
    }
}

#[test]
fn clipboard_trigger_recognizes_comma_and_period() {
    assert!(is_clipboard_read_trigger_key(45), "comma");
    assert!(is_clipboard_read_trigger_key(46), "period");
}

#[test]
fn clipboard_trigger_rejects_other_keys() {
    for code in [0u16, 1, 29, 44, 47, 50, 100, u16::MAX] {
        assert!(
            !is_clipboard_read_trigger_key(code),
            "Keycode {code} should not trigger clipboard read"
        );
    }
}

#[test]
fn interactive_event_accepts_key_press() {
    assert!(is_interactive_input_event(&InputEvent::Key {
        c: 42,
        d: true,
    }));
    assert!(is_interactive_input_event(&InputEvent::Key {
        c: 42,
        d: false,
    }));
}

#[test]
fn interactive_event_accepts_mouse_move() {
    assert!(is_interactive_input_event(&InputEvent::MouseMove {
        x: 0.5f64.to_bits(),
        y: 0.5f64.to_bits(),
    }));
}

#[test]
fn interactive_event_accepts_relative_mouse_move() {
    assert!(is_interactive_input_event(&InputEvent::RelativeMouseMove {
        dx: 1.0f64.to_bits(),
        dy: 1.0f64.to_bits(),
    }));
}

#[test]
fn interactive_event_accepts_button() {
    assert!(is_interactive_input_event(&InputEvent::Button {
        b: 0,
        d: true,
    }));
}

#[test]
fn interactive_event_accepts_scroll() {
    assert!(is_interactive_input_event(&InputEvent::Scroll {
        dx: 0.0f64.to_bits(),
        dy: 30.0f64.to_bits(),
    }));
}

#[test]
fn interactive_event_rejects_visibility_change() {
    // VisibilityState alone should NOT clear backgrounded — the explicit
    // "I'm back" signal still fires from the side-effect arm.
    assert!(!is_interactive_input_event(&InputEvent::VisibilityState {
        visible: true,
    }));
}

#[test]
fn interactive_event_rejects_clipboard_events() {
    assert!(!is_interactive_input_event(&InputEvent::Clipboard {
        text: "x".to_string(),
    }));
    assert!(!is_interactive_input_event(&InputEvent::ClipboardPrimary {
        text: "x".to_string(),
    }));
}

#[test]
fn interactive_event_rejects_layout() {
    assert!(!is_interactive_input_event(&InputEvent::Layout {
        layout: "us".to_string(),
    }));
}

#[test]
fn interactive_event_rejects_resize() {
    // Resize is admin-ish (browser tells us a new screen size). It
    // shouldn't count as user-input for the backgrounded resume logic.
    assert!(!is_interactive_input_event(&InputEvent::Resize {
        w: 1920,
        h: 1080,
    }));
}

#[test]
fn interactive_event_rejects_file_transfer() {
    assert!(!is_interactive_input_event(&InputEvent::FileStart {
        id: "x".to_string(),
        name: "y".to_string(),
        size: 100,
    }));
    assert!(!is_interactive_input_event(&InputEvent::FileChunk {
        id: "x".to_string(),
        data: "y".to_string(),
    }));
    assert!(!is_interactive_input_event(&InputEvent::FileDone {
        id: "x".to_string(),
    }));
    assert!(!is_interactive_input_event(
        &InputEvent::FileDownloadRequest {
            path: "x".to_string(),
        }
    ));
}

#[test]
fn interactive_event_rejects_metrics() {
    assert!(!is_interactive_input_event(
        &InputEvent::ClientMetricsPing {
            id: 1,
            sent_ms: 100.0f64.to_bits(),
        }
    ));
    assert!(!is_interactive_input_event(&InputEvent::ClientMetrics));
}

#[test]
fn classify_key_press_returns_inject_key_pressed_true() {
    assert_eq!(
        classify(InputEvent::Key { c: 65, d: true }),
        InputAction::InjectKey {
            code: 65,
            pressed: true
        }
    );
}

#[test]
fn classify_key_release_returns_inject_key_pressed_false() {
    assert_eq!(
        classify(InputEvent::Key { c: 65, d: false }),
        InputAction::InjectKey {
            code: 65,
            pressed: false
        }
    );
}

#[test]
fn classify_mouse_move_returns_inject_mouse_abs() {
    match classify(InputEvent::MouseMove { x: 0.5f64.to_bits(), y: 0.25f64.to_bits() }) {
        InputAction::InjectMouseAbs { x, y } => {
            let (x, y) = (f64::from_bits(x), f64::from_bits(y));
            assert!((x - 0.5).abs() < f64::EPSILON);
            assert!((y - 0.25).abs() < f64::EPSILON);
        }
        other => panic!("Expected InjectMouseAbs, got {other:?}"),
    }
}

#[test]
fn classify_relative_mouse_move_returns_inject_mouse_rel_when_bounded() {
    match classify(InputEvent::RelativeMouseMove { dx: 10.0f64.to_bits(), dy: (-5.0f64).to_bits() }) {
        InputAction::InjectMouseRel { dx, dy } => {
            let (dx, dy) = (f64::from_bits(dx), f64::from_bits(dy));
            assert!((dx - 10.0).abs() < f64::EPSILON);
            assert!((dy - (-5.0)).abs() < f64::EPSILON);
        }
        other => panic!("Expected InjectMouseRel, got {other:?}"),
    }
}

#[test]
fn classify_relative_mouse_move_ignored_when_nan() {
    assert_eq!(
        classify(InputEvent::RelativeMouseMove {
            dx: (f64::NAN).to_bits(),
            dy: 0.0f64.to_bits(),
        }),
        InputAction::Ignore
    );
    assert_eq!(
        classify(InputEvent::RelativeMouseMove {
            dx: 0.0f64.to_bits(),
            dy: (f64::NAN).to_bits(),
        }),
        InputAction::Ignore
    );
}

#[test]
fn classify_relative_mouse_move_ignored_when_infinity() {
    assert_eq!(
        classify(InputEvent::RelativeMouseMove {
            dx: (f64::INFINITY).to_bits(),
            dy: 0.0f64.to_bits(),
        }),
        InputAction::Ignore
    );
    assert_eq!(
        classify(InputEvent::RelativeMouseMove {
            dx: 0.0f64.to_bits(),
            dy: (f64::NEG_INFINITY).to_bits(),
        }),
        InputAction::Ignore
    );
}

#[test]
fn classify_relative_mouse_move_ignored_when_beyond_max() {
    assert_eq!(
        classify(InputEvent::RelativeMouseMove {
            dx: (MAX_INPUT_DELTA + 1.0).to_bits(),
            dy: 0.0f64.to_bits(),
        }),
        InputAction::Ignore
    );
    assert_eq!(
        classify(InputEvent::RelativeMouseMove {
            dx: (-MAX_INPUT_DELTA - 1.0).to_bits(),
            dy: 0.0f64.to_bits(),
        }),
        InputAction::Ignore
    );
}

#[test]
fn classify_button_press_returns_inject_button_pressed_true() {
    assert_eq!(
        classify(InputEvent::Button { b: 0, d: true }),
        InputAction::InjectButton {
            b: 0,
            pressed: true,
        }
    );
}

#[test]
fn classify_button_release_returns_inject_button_pressed_false() {
    assert_eq!(
        classify(InputEvent::Button { b: 2, d: false }),
        InputAction::InjectButton {
            b: 2,
            pressed: false,
        }
    );
}

#[test]
fn classify_scroll_returns_inject_scroll_when_bounded() {
    match classify(InputEvent::Scroll { dx: 0.0f64.to_bits(), dy: 30.0f64.to_bits() }) {
        InputAction::InjectScroll { dx, dy } => {
            let (dx, dy) = (f64::from_bits(dx), f64::from_bits(dy));
            assert!((dx - 0.0).abs() < f64::EPSILON);
            assert!((dy - 30.0).abs() < f64::EPSILON);
        }
        other => panic!("Expected InjectScroll, got {other:?}"),
    }
}

#[test]
fn classify_scroll_ignored_when_unbounded() {
    assert_eq!(
        classify(InputEvent::Scroll {
            dx: 999_999.0f64.to_bits(),
            dy: 0.0f64.to_bits(),
        }),
        InputAction::Ignore
    );
    assert_eq!(
        classify(InputEvent::Scroll {
            dx: (f64::NAN).to_bits(),
            dy: (f64::NAN).to_bits(),
        }),
        InputAction::Ignore
    );
}

#[test]
fn classify_clipboard_returns_set_clipboard_when_small() {
    assert_eq!(
        classify(InputEvent::Clipboard {
            text: "hello".to_string(),
        }),
        InputAction::SetClipboard {
            text: "hello".to_string(),
        }
    );
}

#[test]
fn classify_clipboard_empty_text_is_set_clipboard() {
    // Zero-byte clipboard payloads pass the size limit; they should
    // still propagate through the dispatcher (production logs nothing
    // unusual either).
    assert_eq!(
        classify(InputEvent::Clipboard {
            text: String::new(),
        }),
        InputAction::SetClipboard {
            text: String::new(),
        }
    );
}

#[test]
fn classify_clipboard_too_large_is_ignored() {
    // 2 MiB exceeds MAX_CLIPBOARD_BYTES (1 MiB).
    let big = "a".repeat(MAX_CLIPBOARD_BYTES + 1);
    assert_eq!(
        classify(InputEvent::Clipboard { text: big }),
        InputAction::Ignore
    );
}

#[test]
fn classify_clipboard_at_exact_max_is_set_clipboard() {
    // The size limit uses <=, so the boundary value still propagates.
    let payload = "a".repeat(MAX_CLIPBOARD_BYTES);
    assert_eq!(
        classify(InputEvent::Clipboard {
            text: payload.clone(),
        }),
        InputAction::SetClipboard { text: payload }
    );
}

#[test]
fn classify_clipboard_primary_small_is_set_primary() {
    assert_eq!(
        classify(InputEvent::ClipboardPrimary {
            text: "middle-click".to_string(),
        }),
        InputAction::SetClipboardPrimary {
            text: "middle-click".to_string(),
        }
    );
}

#[test]
fn classify_clipboard_primary_too_large_is_ignored() {
    let big = "x".repeat(MAX_CLIPBOARD_BYTES + 100);
    assert_eq!(
        classify(InputEvent::ClipboardPrimary { text: big }),
        InputAction::Ignore
    );
}

#[test]
fn classify_resize_valid_dimensions_pass_through() {
    // 1920x1080 within (320..=7680, 240..=4320) and under 3840x2160 max
    // → falls through clamp_resize_dimensions unchanged.
    assert_eq!(
        classify(InputEvent::Resize { w: 1920, h: 1080 }),
        InputAction::Resize {
            width: 1920,
            height: 1080,
        }
    );
}

#[test]
fn classify_resize_too_small_is_ignored() {
    // 100x100 fails the lower bound (320, 240) → Ignore.
    assert_eq!(
        classify(InputEvent::Resize { w: 100, h: 100 }),
        InputAction::Ignore
    );
}

#[test]
fn classify_resize_too_large_is_ignored() {
    // 8000x5000 exceeds the upper bound (7680, 4320) → Ignore.
    assert_eq!(
        classify(InputEvent::Resize { w: 8000, h: 5000 }),
        InputAction::Ignore
    );
}

#[test]
fn classify_resize_clamps_to_max_bounds() {
    // 4096x2160 with max 1920x1080 should clamp.
    assert_eq!(
        classify_with_max(InputEvent::Resize { w: 4096, h: 2160 }, 1920, 1080),
        InputAction::Resize {
            width: 1920,
            height: 1080,
        }
    );
}

#[test]
fn classify_resize_enforces_even_dimensions() {
    // Odd values get rounded down to even (H.264 requirement).
    assert_eq!(
        classify(InputEvent::Resize { w: 1921, h: 1081 }),
        InputAction::Resize {
            width: 1920,
            height: 1080,
        }
    );
}

#[test]
fn classify_layout_valid_returns_layout_action() {
    assert_eq!(
        classify(InputEvent::Layout {
            layout: "us".to_string(),
        }),
        InputAction::Layout {
            layout: "us".to_string(),
        }
    );
}

#[test]
fn classify_layout_invalid_is_ignored() {
    // Shell metacharacters → Ignore.
    assert_eq!(
        classify(InputEvent::Layout {
            layout: "us;rm -rf /".to_string(),
        }),
        InputAction::Ignore
    );
    assert_eq!(
        classify(InputEvent::Layout {
            layout: String::new(),
        }),
        InputAction::Ignore
    );
    // Too long → Ignore.
    assert_eq!(
        classify(InputEvent::Layout {
            layout: "a".repeat(50),
        }),
        InputAction::Ignore
    );
}

#[test]
fn classify_quality_always_ignored() {
    // Quality selector was removed; defensive Ignore on any incoming value.
    assert_eq!(
        classify(InputEvent::Quality {
            mode: "high".to_string(),
        }),
        InputAction::Ignore
    );
    assert_eq!(
        classify(InputEvent::Quality {
            mode: "low".to_string(),
        }),
        InputAction::Ignore
    );
}

#[test]
fn classify_client_metrics_events_are_ignored() {
    // Browser-side metrics are handled by the server; the agent should
    // never inject or forward them.
    assert_eq!(
        classify(InputEvent::ClientMetricsPing {
            id: 42,
            sent_ms: 1000.0f64.to_bits(),
        }),
        InputAction::Ignore
    );
    assert_eq!(
        classify(InputEvent::ClientMetrics),
        InputAction::Ignore
    );
}

#[test]
fn classify_visibility_visible_true() {
    assert_eq!(
        classify(InputEvent::VisibilityState { visible: true }),
        InputAction::Visibility { visible: true }
    );
}

#[test]
fn classify_visibility_visible_false() {
    assert_eq!(
        classify(InputEvent::VisibilityState { visible: false }),
        InputAction::Visibility { visible: false }
    );
}

#[test]
fn classify_file_start_carries_id_name_and_size() {
    assert_eq!(
        classify(InputEvent::FileStart {
            id: "uuid-1".to_string(),
            name: "report.pdf".to_string(),
            size: 12_345,
        }),
        InputAction::FileStart {
            id: "uuid-1".to_string(),
            name: "report.pdf".to_string(),
            size: 12_345,
        }
    );
}

#[test]
fn classify_file_chunk_carries_id_and_data() {
    assert_eq!(
        classify(InputEvent::FileChunk {
            id: "uuid-1".to_string(),
            data: "base64data==".to_string(),
        }),
        InputAction::FileChunk {
            id: "uuid-1".to_string(),
            data: "base64data==".to_string(),
        }
    );
}

#[test]
fn classify_file_done_carries_id() {
    assert_eq!(
        classify(InputEvent::FileDone {
            id: "uuid-1".to_string(),
        }),
        InputAction::FileDone {
            id: "uuid-1".to_string(),
        }
    );
}

#[test]
fn classify_file_download_request_carries_path() {
    assert_eq!(
        classify(InputEvent::FileDownloadRequest {
            path: "/home/user/file.txt".to_string(),
        }),
        InputAction::FileDownload {
            path: "/home/user/file.txt".to_string(),
        }
    );
}

#[test]
fn classify_max_zero_bounds_means_unlimited() {
    // max_width=0 means unlimited per clamp_resize_dimensions contract.
    assert_eq!(
        classify_with_max(InputEvent::Resize { w: 7680, h: 4320 }, 0, 0),
        InputAction::Resize {
            width: 7680,
            height: 4320,
        }
    );
}

#[test]
fn classify_resize_minimum_640x480_enforced() {
    // Anything ≤ 640x480 (within the 320/240 lower bound) gets bumped up.
    assert_eq!(
        classify(InputEvent::Resize { w: 500, h: 400 }),
        InputAction::Resize {
            width: 640,
            height: 480,
        }
    );
}

#[test]
fn classify_relative_mouse_move_at_max_boundary_passes() {
    // MAX_INPUT_DELTA is inclusive; exactly at the boundary should pass.
    assert_eq!(
        classify(InputEvent::RelativeMouseMove {
            dx: MAX_INPUT_DELTA.to_bits(),
            dy: (-MAX_INPUT_DELTA).to_bits(),
        }),
        InputAction::InjectMouseRel {
            dx: MAX_INPUT_DELTA.to_bits(),
            dy: (-MAX_INPUT_DELTA).to_bits(),
        }
    );
}

#[test]
fn classify_scroll_at_max_boundary_passes() {
    assert_eq!(
        classify(InputEvent::Scroll {
            dx: MAX_INPUT_DELTA.to_bits(),
            dy: MAX_INPUT_DELTA.to_bits(),
        }),
        InputAction::InjectScroll {
            dx: MAX_INPUT_DELTA.to_bits(),
            dy: MAX_INPUT_DELTA.to_bits(),
        }
    );
}

#[test]
fn classify_relative_mouse_move_zero_delta_still_classifies() {
    // (0, 0) is the only "no-op" relative move; the dispatcher still
    // classifies (the X11 injector deduplicates discrete=0 inside).
    assert_eq!(
        classify(InputEvent::RelativeMouseMove { dx: 0.0f64.to_bits(), dy: 0.0f64.to_bits() }),
        InputAction::InjectMouseRel { dx: 0.0f64.to_bits(), dy: 0.0f64.to_bits() }
    );
}

#[test]
fn classify_input_action_is_clonable() {
    // Sanity: InputAction supports Clone so dispatchers can defer work
    // (e.g. spawn a thread that takes ownership of a Layout payload).
    let original = InputAction::SetClipboard {
        text: "x".to_string(),
    };
    let copy = original.clone();
    assert_eq!(original, copy);
}

#[test]
fn layout_duplicate_true_for_identical_strings() {
    assert!(layout_is_duplicate("us", "us"));
    assert!(layout_is_duplicate("", ""));
    assert!(layout_is_duplicate("de-latin1", "de-latin1"));
}

#[test]
fn layout_duplicate_false_for_different_strings() {
    assert!(!layout_is_duplicate("us", "no"));
    assert!(!layout_is_duplicate("", "us"));
    assert!(!layout_is_duplicate("us", ""));
}

#[test]
fn layout_duplicate_case_sensitive() {
    // setxkbmap layouts are lowercase by convention; case differences
    // are NOT considered duplicates so a mistyped uppercase layout
    // forces a re-spawn (and likely a failure log).
    assert!(!layout_is_duplicate("us", "US"));
}

#[test]
fn setxkbmap_success_when_status_ok() {
    let r = classify_setxkbmap_result(Ok((true, String::new())));
    assert_eq!(r, SetxkbmapOutcome::Success);
}

#[test]
fn setxkbmap_success_carries_empty_payload() {
    // Even if setxkbmap printed something to stderr while still
    // exiting 0, we treat that as success (no warning).
    let r = classify_setxkbmap_result(Ok((true, "harmless info".to_string())));
    assert_eq!(r, SetxkbmapOutcome::Success);
}

#[test]
fn setxkbmap_failure_when_status_nonzero() {
    let r = classify_setxkbmap_result(Ok((false, "Cannot open display".into())));
    match r {
        SetxkbmapOutcome::Failure { stderr } => {
            assert_eq!(stderr, "Cannot open display");
        }
        other => panic!("Expected Failure, got {other:?}"),
    }
}

#[test]
fn setxkbmap_spawn_error_when_io_failed() {
    let r = classify_setxkbmap_result(Err("No such file or directory".to_string()));
    match r {
        SetxkbmapOutcome::SpawnError { reason } => {
            assert_eq!(reason, "No such file or directory");
        }
        other => panic!("Expected SpawnError, got {other:?}"),
    }
}

#[test]
fn setxkbmap_outcome_is_debug() {
    // Locking that the outcome carries enough info for tracing logs.
    let r = classify_setxkbmap_result(Ok((true, String::new())));
    let dbg = format!("{r:?}");
    assert!(dbg.contains("Success"));
}

#[test]
fn setxkbmap_outcome_eq_distinguishes_variants() {
    assert_ne!(
        SetxkbmapOutcome::Success,
        SetxkbmapOutcome::Failure {
            stderr: String::new()
        }
    );
    assert_ne!(
        SetxkbmapOutcome::Failure { stderr: "a".into() },
        SetxkbmapOutcome::Failure { stderr: "b".into() }
    );
}

#[test]
fn visibility_visible_true_sets_backgrounded_false() {
    let mut agent = Agent { tab_backgrounded: true, ..Agent::default() };
    let mut signals = Vec::new();
    let triggered = handle_visibility_change(true, &mut signals);
    agent.take(signals);
    assert!(triggered, "visible=true should trigger encoder reset");
    assert!(!agent.tab_backgrounded, "backgrounded cleared");
    assert!(agent.video_needs_keyframe, "keyframe requested");
}

#[test]
fn visibility_visible_false_sets_backgrounded_true() {
    let mut agent = Agent::default();
    let mut signals = Vec::new();
    let triggered = handle_visibility_change(false, &mut signals);
    agent.take(signals);
    assert!(!triggered, "visible=false should NOT trigger encoder reset");
    assert!(agent.tab_backgrounded, "backgrounded set");
    assert!(!agent.video_needs_keyframe, "keyframe NOT requested on backgrounded");
}

#[test]
fn visibility_visible_true_sends_reset_encoder_command() {
    let mut signals = Vec::new();
    handle_visibility_change(true, &mut signals);
    assert_eq!(
        signals,
        vec![
            Signal::Backgrounded(false),
            Signal::NeedKeyframe,
            Signal::ResetEncoder
        ]
    );
}

#[test]
fn visibility_visible_false_does_not_send_command() {
    let mut signals = Vec::new();
    handle_visibility_change(false, &mut signals);
    assert!(!signals.contains(&Signal::ResetEncoder));
}

#[test]
fn visibility_subsequent_calls_toggle_state() {
    let mut agent = Agent::default();
    let mut signals = Vec::new();
    handle_visibility_change(false, &mut signals);
    agent.take(signals);
    assert!(agent.tab_backgrounded);
    let mut signals = Vec::new();
    handle_visibility_change(true, &mut signals);
    agent.take(signals);
    assert!(!agent.tab_backgrounded);
    assert!(agent.video_needs_keyframe);
}

#[test]
fn clear_backgrounded_when_interactive_and_flag_set() {
    let mut signals = Vec::new();
    let mut agent = Agent { tab_backgrounded: true, ..Agent::default() };
    let cleared = handle_pre_dispatch(&InputEvent::Key { c: 65, d: true }, true, 1, &mut signals);
    agent.take(signals);
    assert!(cleared);
    assert!(!agent.tab_backgrounded);
}

#[test]
fn no_clear_when_interactive_but_flag_unset() {
    let mut signals = Vec::new();
    let mut agent = Agent { tab_backgrounded: false, ..Agent::default() };
    let cleared = handle_pre_dispatch(&InputEvent::Key { c: 65, d: true }, false, 1, &mut signals);
    agent.take(signals);
    assert!(!cleared);
    assert!(!agent.tab_backgrounded);
}

#[test]
fn no_clear_when_non_interactive_event() {
    let mut signals = Vec::new();
    let mut agent = Agent { tab_backgrounded: true, ..Agent::default() };
    let cleared = handle_pre_dispatch(&InputEvent::VisibilityState { visible: true }, true, 1, &mut signals);
    agent.take(signals);
    assert!(!cleared);
    assert!(agent.tab_backgrounded, "Flag should remain set");
}

#[test]
fn no_clear_for_file_chunk_event() {
    let event = InputEvent::FileChunk {
        id: "x".to_string(),
        data: String::new(),
    };
    let mut signals = Vec::new();
    let mut agent = Agent { tab_backgrounded: true, ..Agent::default() };
    let cleared = handle_pre_dispatch(&event, true, 1, &mut signals);
    agent.take(signals);
    assert!(!cleared);
    assert!(agent.tab_backgrounded);
}

#[test]
fn no_clear_for_metrics_event() {
    let event = InputEvent::ClientMetricsPing {
        id: 1,
        sent_ms: 0.0f64.to_bits(),
    };
    let mut signals = Vec::new();
    let mut agent = Agent { tab_backgrounded: true, ..Agent::default() };
    let cleared = handle_pre_dispatch(&event, true, 1, &mut signals);
    agent.take(signals);
    assert!(!cleared);
    assert!(agent.tab_backgrounded);
}

#[test]
fn pre_dispatch_updates_last_input_timestamp() {
    let mut signals = Vec::new();
    let mut agent = Agent { tab_backgrounded: false, ..Agent::default() };
    let cleared = handle_pre_dispatch(&InputEvent::Key { c: 30, d: true }, false, 12345, &mut signals);
    agent.take(signals);
    assert!(!cleared);
    assert_eq!(agent.last_input, 12345);
}

#[test]
fn pre_dispatch_wakes_capture_thread() {
    let mut signals = Vec::new();
    let mut agent = Agent { tab_backgrounded: false, ..Agent::default() };
    let cleared = handle_pre_dispatch(&InputEvent::Key { c: 30, d: true }, false, 1, &mut signals);
    agent.take(signals);
    assert!(!cleared);
    assert!(agent.woken);
}

#[test]
fn pre_dispatch_clears_backgrounded_on_interactive_event() {
    let mut signals = Vec::new();
    let mut agent = Agent { tab_backgrounded: true, ..Agent::default() };
    let cleared = handle_pre_dispatch(&InputEvent::Key { c: 30, d: true }, true, 1, &mut signals);
    agent.take(signals);
    assert!(cleared);
    assert!(!agent.tab_backgrounded);
}

#[test]
fn pre_dispatch_does_not_clear_backgrounded_on_non_interactive_event() {
    let mut signals = Vec::new();
    let mut agent = Agent { tab_backgrounded: true, ..Agent::default() };
    let cleared = handle_pre_dispatch(&InputEvent::VisibilityState { visible: false }, true, 1, &mut signals);
    agent.take(signals);
    assert!(!cleared);
    assert!(agent.tab_backgrounded);
}

#[test]
fn dispatch_update_last_input_writes_atomic() {
    let mut signals = Vec::new();
    let mut agent = Agent { tab_backgrounded: false, last_input: 100, ..Agent::default() };
    let cleared = handle_pre_dispatch(&InputEvent::Key { c: 30, d: true }, false, 12_345, &mut signals);
    agent.take(signals);
    assert!(!cleared);
    assert_eq!(agent.last_input, 12_345);
}

#[test]
fn dispatch_update_last_input_overwrites_existing() {
    let mut signals = Vec::new();
    let mut agent = Agent { tab_backgrounded: false, last_input: 100, ..Agent::default() };
    let cleared = handle_pre_dispatch(&InputEvent::Key { c: 30, d: true }, false, 200, &mut signals);
    agent.take(signals);
    assert!(!cleared);
    assert_eq!(agent.last_input, 200);
}

#[test]
fn dispatch_update_last_input_handles_zero() {
    let mut signals = Vec::new();
    let mut agent = Agent { tab_backgrounded: false, last_input: 100, ..Agent::default() };
    let cleared = handle_pre_dispatch(&InputEvent::Key { c: 30, d: true }, false, 0, &mut signals);
    agent.take(signals);
    assert!(!cleared);
    assert_eq!(agent.last_input, 0);
}

#[test]
fn dispatch_update_last_input_handles_max() {
    let mut signals = Vec::new();
    let mut agent = Agent { tab_backgrounded: false, last_input: 100, ..Agent::default() };
    let cleared = handle_pre_dispatch(&InputEvent::Key { c: 30, d: true }, false, u64::MAX, &mut signals);
    agent.take(signals);
    assert!(!cleared);
    assert_eq!(agent.last_input, u64::MAX);
}

#[test]
fn evdev_to_x11_adds_8() {
    let evdev_to_x11_keycode = InputInjector::evdev_to_x11_keycode;
    assert_eq!(evdev_to_x11_keycode(0), 8);
    assert_eq!(evdev_to_x11_keycode(28), 36); // KEY_ENTER
    assert_eq!(evdev_to_x11_keycode(29), 37); // KEY_LEFTCTRL
    assert_eq!(evdev_to_x11_keycode(57), 65); // KEY_SPACE
}

#[test]
fn evdev_to_x11_handles_max_u8_input() {
    assert_eq!(InputInjector::evdev_to_x11_keycode(247), 255);
}

#[test]
fn evdev_to_x11_wraps_at_overflow() {
    assert_eq!(InputInjector::evdev_to_x11_keycode(248), 0);
    assert_eq!(InputInjector::evdev_to_x11_keycode(255), 7);
}

#[test]
fn browser_button_to_x11_maps_known() {
    assert_eq!(InputInjector::map_button(0).ok(), Some(1));
    assert_eq!(InputInjector::map_button(1).ok(), Some(2));
    assert_eq!(InputInjector::map_button(2).ok(), Some(3));
}

#[test]
fn browser_button_to_x11_returns_none_for_unknown() {
    assert_eq!(InputInjector::map_button(3).ok(), None);
    assert_eq!(InputInjector::map_button(255).ok(), None);
}

#[test]
fn dispatch_inject_key_records_call() {
    let fx = run_dispatch(key(30, true));
    assert_eq!(fx.injector.keys, vec![(30, true)]);
}

#[test]
fn dispatch_inject_key_does_not_crash_on_error() {
    let mut fx = Fixture::failing();
    fx.dispatch(key(30, true));
    assert_eq!(fx.injector.keys.len(), 1);
}

#[test]
fn dispatch_inject_key_ctrl_keycode_sets_state() {
    let fx = run_dispatch(key(29, true));
    assert!(fx.state.ctrl_down);
}

#[test]
fn dispatch_inject_key_ctrl_release_clears_state() {
    let mut fx = Fixture::new();
    fx.state.ctrl_down = true;
    fx.dispatch(key(29, false));
    assert!(!fx.state.ctrl_down);
}

#[test]
fn dispatch_inject_key_right_ctrl_also_sets_state() {
    let fx = run_dispatch(key(97, true));
    assert!(fx.state.ctrl_down);
}

#[test]
fn dispatch_inject_key_release_with_ctrl_held_triggers_clipboard_read() {
    let mut fx = Fixture::new();
    fx.state.ctrl_down = true;
    fx.dispatch(key(45, false));
    assert_eq!(fx.agent.clipboard_reads, 1);
}

#[test]
fn dispatch_inject_key_release_with_period_keycode_also_triggers() {
    let mut fx = Fixture::new();
    fx.state.ctrl_down = true;
    fx.dispatch(key(46, false));
    assert_eq!(fx.agent.clipboard_reads, 1);
}

#[test]
fn dispatch_inject_key_release_without_ctrl_does_not_trigger() {
    let fx = run_dispatch(key(45, false));
    assert_eq!(fx.agent.clipboard_reads, 0);
}

#[test]
fn dispatch_inject_key_press_with_ctrl_does_not_trigger_clipboard() {
    let mut fx = Fixture::new();
    fx.state.ctrl_down = true;
    fx.dispatch(key(45, true));
    assert_eq!(fx.agent.clipboard_reads, 0);
}

#[test]
fn dispatch_inject_mouse_abs_records() {
    let fx = run_dispatch(InputAction::InjectMouseAbs {
        x: 0.3f64.to_bits(),
        y: 0.7f64.to_bits(),
    });
    let calls = fx.injector.mouse_abs;
    assert_eq!(calls.len(), 1);
    assert!((calls[0].0 - 0.3).abs() < 1e-9);
    assert!((calls[0].1 - 0.7).abs() < 1e-9);
}

#[test]
fn dispatch_inject_mouse_abs_propagates_error_silently() {
    let mut fx = Fixture::failing();
    fx.dispatch(InputAction::InjectMouseAbs {
        x: 0.5f64.to_bits(),
        y: 0.5f64.to_bits(),
    });
    assert_eq!(fx.injector.mouse_abs.len(), 1);
}

#[test]
fn dispatch_inject_mouse_rel_records() {
    let fx = run_dispatch(InputAction::InjectMouseRel {
        dx: 1.0f64.to_bits(),
        dy: (-2.0f64).to_bits(),
    });
    assert_eq!(fx.injector.mouse_rel, vec![(1.0, -2.0)]);
}

#[test]
fn dispatch_inject_mouse_rel_error_branch() {
    let mut fx = Fixture::failing();
    fx.dispatch(InputAction::InjectMouseRel {
        dx: 1.0f64.to_bits(),
        dy: (-2.0f64).to_bits(),
    });
    assert_eq!(fx.injector.mouse_rel.len(), 1);
}

#[test]
fn dispatch_inject_button_records() {
    let fx = run_dispatch(InputAction::InjectButton {
        b: 0,
        pressed: true,
    });
    assert_eq!(fx.injector.buttons, vec![(0, true)]);
}

#[test]
fn dispatch_inject_button_error_branch() {
    let mut fx = Fixture::failing();
    fx.dispatch(InputAction::InjectButton {
        b: 2,
        pressed: false,
    });
    assert_eq!(fx.injector.buttons.len(), 1);
}

#[test]
fn dispatch_inject_scroll_records() {
    let fx = run_dispatch(InputAction::InjectScroll {
        dx: 0.0f64.to_bits(),
        dy: (-30.0f64).to_bits(),
    });
    assert_eq!(fx.injector.scrolls, vec![(0.0, -30.0)]);
}

#[test]
fn dispatch_inject_scroll_error_branch() {
    let mut fx = Fixture::failing();
    fx.dispatch(InputAction::InjectScroll {
        dx: 0.0f64.to_bits(),
        dy: (30.0f64).to_bits(),
    });
    assert_eq!(fx.injector.scrolls.len(), 1);
}

#[test]
fn dispatch_set_clipboard_writes_text() {
    let fx = run_dispatch(InputAction::SetClipboard {
        text: "hello".into(),
    });
    assert_eq!(fx.clipboard.clip, vec!["hello"]);
}

#[test]
fn dispatch_set_clipboard_error_branch_does_not_panic() {
    let mut fx = Fixture::failing();
    fx.dispatch(InputAction::SetClipboard { text: "bad".into() });
    assert_eq!(fx.clipboard.clip.len(), 1);
}

#[test]
fn dispatch_set_clipboard_primary_writes_text() {
    let fx = run_dispatch(InputAction::SetClipboardPrimary { text: "p".into() });
    assert_eq!(fx.clipboard.prim, vec!["p"]);
}

#[test]
fn dispatch_set_clipboard_primary_error_branch() {
    let mut fx = Fixture::failing();
    fx.dispatch(InputAction::SetClipboardPrimary { text: "bad".into() });
    assert_eq!(fx.clipboard.prim.len(), 1);
}

#[test]
fn dispatch_resize_action_pushes_to_channel() {
    let fx = run_dispatch(InputAction::Resize {
        width: 1920,
        height: 1080,
    });
    assert_eq!(fx.agent.resizes, vec![(1920, 1080)]);
}

#[test]
fn dispatch_layout_action_first_time_emits_spawn_effect() {
    let mut fx = Fixture::new();
    let effect = fx.dispatch(layout("us"));
    assert!(matches!(
        effect,
        Some(LayoutEffect::Spawn { ref layout, ref display })
        if layout == "us" && display == ":99"
    ));
    assert_eq!(fx.state.last_layout, "us");
}

#[test]
fn dispatch_layout_action_dedup_returns_skip() {
    let mut fx = Fixture::new();
    fx.state.last_layout = "us".to_string();
    assert_eq!(fx.dispatch(layout("us")), Some(LayoutEffect::Skip));
}

#[test]
fn dispatch_visibility_true_resets_encoder() {
    let fx = run_dispatch(InputAction::Visibility { visible: true });
    assert!(!fx.agent.tab_backgrounded);
    assert!(fx.agent.video_needs_keyframe);
    assert_eq!(fx.agent.commands, vec![CaptureCommand::ResetEncoder]);
    assert!(fx.agent.woken);
}

#[test]
fn dispatch_visibility_false_only_marks_backgrounded() {
    let fx = run_dispatch(InputAction::Visibility { visible: false });
    assert!(fx.agent.tab_backgrounded);
    assert!(!fx.agent.video_needs_keyframe);
    assert!(fx.agent.commands.is_empty());
}

#[test]
fn dispatch_file_start_invokes_sink() {
    let fx = run_dispatch(InputAction::FileStart {
        id: "id-1".into(),
        name: "f.bin".into(),
        size: 1024,
    });
    assert_eq!(fx.file_sink.starts, vec![("id-1".into(), "f.bin".into(), 1024)]);
}

#[test]
fn dispatch_file_start_error_branch() {
    let mut fx = Fixture::failing();
    fx.dispatch(InputAction::FileStart {
        id: "id".into(),
        name: "n".into(),
        size: 1,
    });
    assert_eq!(fx.file_sink.starts.len(), 1);
}

#[test]
fn dispatch_file_chunk_invokes_sink() {
    let fx = run_dispatch(InputAction::FileChunk {
        id: "id-1".into(),
        data: "AAAA".into(),
    });
    assert_eq!(fx.file_sink.chunks, vec![("id-1".into(), "AAAA".into())]);
}

#[test]
fn dispatch_file_chunk_error_branch() {
    let mut fx = Fixture::failing();
    fx.dispatch(InputAction::FileChunk {
        id: "x".into(),
        data: "y".into(),
    });
    assert_eq!(fx.file_sink.chunks.len(), 1);
}

#[test]
fn dispatch_file_done_invokes_sink() {
    let fx = run_dispatch(InputAction::FileDone { id: "id-7".into() });
    assert_eq!(fx.file_sink.dones, vec!["id-7"]);
}

#[test]
fn dispatch_file_done_error_branch() {
    let mut fx = Fixture::failing();
    fx.dispatch(InputAction::FileDone { id: "x".into() });
    assert_eq!(fx.file_sink.dones.len(), 1);
}

#[test]
fn dispatch_action_file_download_sends_path_via_channel() {
    let fx = run_dispatch(InputAction::FileDownload {
        path: "/etc/hosts".into(),
    });
    assert_eq!(fx.agent.downloads, vec!["/etc/hosts"]);
}

#[test]
fn dispatch_ignore_is_a_noop() {
    let fx = run_dispatch(InputAction::Ignore);
    assert!(fx.injector.keys.is_empty());
    assert!(fx.injector.mouse_abs.is_empty());
    assert!(fx.injector.mouse_rel.is_empty());
    assert!(fx.injector.buttons.is_empty());
    assert!(fx.injector.scrolls.is_empty());
    assert!(fx.clipboard.clip.is_empty());
    assert!(fx.clipboard.prim.is_empty());
    assert!(fx.file_sink.starts.is_empty());
}

#[test]
fn input_dispatch_state_new_starts_with_ctrl_down_false() {
    assert!(!InputDispatchState::new().ctrl_down);
}

#[test]
fn input_dispatch_state_new_starts_with_empty_layout() {
    assert!(InputDispatchState::new().last_layout.is_empty());
}

#[test]
fn input_dispatch_state_layout_can_be_mutated() {
    let mut s = InputDispatchState::new();
    s.last_layout = "fr".to_string();
    assert_eq!(s.last_layout, "fr");
}

#[test]
fn layout_effect_equality() {
    assert_eq!(LayoutEffect::Skip, LayoutEffect::Skip);
    assert_eq!(
        LayoutEffect::Spawn {
            layout: "us".into(),
            display: ":0".into()
        },
        LayoutEffect::Spawn {
            layout: "us".into(),
            display: ":0".into()
        }
    );
    assert_ne!(
        LayoutEffect::Skip,
        LayoutEffect::Spawn {
            layout: "us".into(),
            display: ":0".into()
        }
    );
}

#[test]
fn dispatch_sequence_ctrl_press_then_comma_release_fires_clipboard_read() {
    let mut fx = Fixture::new();
    fx.dispatch(key(29, true));
    fx.dispatch(key(45, true));
    // Not yet: only on release.
    assert_eq!(fx.agent.clipboard_reads, 0);
    fx.dispatch(key(45, false));
    assert_eq!(fx.agent.clipboard_reads, 1);
}

#[test]
fn dispatch_sequence_layout_dedup_skip_after_first() {
    let mut fx = Fixture::new();
    let e1 = fx.dispatch(layout("us"));
    assert!(matches!(e1, Some(LayoutEffect::Spawn { .. })));
    let e2 = fx.dispatch(layout("us"));
    assert_eq!(e2, Some(LayoutEffect::Skip));
}

#[test]
fn dispatch_sequence_layout_change_emits_spawn() {
    let mut fx = Fixture::new();
    fx.dispatch(layout("us"));
    let e2 = fx.dispatch(layout("fr"));
    assert!(matches!(e2, Some(LayoutEffect::Spawn { ref layout, .. }) if layout == "fr"));
    assert_eq!(fx.state.last_layout, "fr");
}

#[test]
fn event_is_noted_and_performed() {
    let mut fx = Fixture::new();
    fx.state.ctrl_down = true;
    let mut signals = Vec::new();
    let (resumed, action) = receive_input_event(
        &InputEvent::Key { c: 46, d: false },
        true,
        77,
        3840,
        2160,
        &mut signals,
    );
    let effect = dispatch_input_action(
        action,
        &mut fx.injector,
        &mut fx.clipboard,
        &mut fx.file_sink,
        &mut fx.state,
        &mut signals,
        ":99",
    );
    assert!(resumed);
    assert_eq!(effect, None);
    assert_eq!(fx.injector.keys, vec![(46, false)]);
    assert_eq!(
        signals,
        vec![
            Signal::LastInput(77),
            Signal::WakeCapture,
            Signal::Backgrounded(false),
            Signal::ReadClipboard
        ]
    );
}

#[test]
fn layout_is_set_on_the_display() {
    let command = setxkbmap_command("us", ":99");
    assert_eq!(command.program, "setxkbmap");
    assert_eq!(command.args, vec!["us"]);
    assert_eq!(
        command.env,
        vec![("DISPLAY".to_string(), ":99".to_string())]
    );
}

#[test]
fn next_number_above_the_bound_is_refused() {
    let above = f64::from_bits(10_000.0f64.to_bits() + 1);
    assert!(!is_finite_bounded_delta(above, 0.0));
    assert!(!is_finite_bounded_delta(0.0, -above));
    let below = f64::from_bits(10_000.0f64.to_bits() - 1);
    assert!(is_finite_bounded_delta(below, -below));
}
