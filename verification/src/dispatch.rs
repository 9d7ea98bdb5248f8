//! The input dispatcher: what each event from the browser leads to.

use crate::clipboard::{ClipboardCall, ClipboardWrite};
use crate::clipboard_sync::MAX_CLIPBOARD_BYTES;
use crate::display::{clamp_dimension, clamp_resize_dimensions};
use crate::filetransfer::{FileCall, FileSink};
use crate::float_bits::{
    is_bounded, is_finite, is_finite_bounded_delta, scaled_size, MAX_INPUT_DELTA,
};
use crate::input::{Inject, Injection};
use crate::text::{byte_len, byte_len_of, chars_of, same_text};
use vstd::arithmetic::power2::pow2;
use vstd::prelude::*;

verus! {

// ---------------------------------------------------------------------------
// Events
// ---------------------------------------------------------------------------

/// An event from the browser. Coordinates, deltas and times are 64-bit
/// floating-point numbers, by their bits.
#[allow(inconsistent_fields)]
#[derive(Debug, Clone, PartialEq, Eq)]
pub enum InputEvent {
    /// A key: its evdev keycode, and whether it is down.
    Key { c: u16, d: bool },
    /// The pointer's place, between 0 and 1 on either axis.
    MouseMove { x: u64, y: u64 },
    /// The pointer's motion, while it is locked.
    RelativeMouseMove { dx: u64, dy: u64 },
    /// A mouse button: its index, and whether it is down.
    Button { b: u8, d: bool },
    Scroll { dx: u64, dy: u64 },
    /// Text for the clipboard.
    Clipboard { text: String },
    /// Text for the primary selection.
    ClipboardPrimary { text: String },
    /// The size of the browser's view.
    Resize { w: u32, h: u32 },
    /// A keyboard layout.
    Layout { layout: String },
    /// A quality mode, which is no longer heeded.
    Quality { mode: String },
    /// Measurements, which are for the server.
    ClientMetricsPing { id: u64, sent_ms: u64 },
    ClientMetrics,
    /// Whether the browser's tab is in view.
    VisibilityState { visible: bool },
    FileStart { id: String, name: String, size: u64 },
    FileChunk { id: String, data: String },
    FileDone { id: String },
    FileDownloadRequest { path: String },
}

/// Whether an event comes from the user's hands. Only such an event shows that a
/// tab in the background is in use again.
pub open spec fn is_interactive(event: InputEvent) -> bool {
    ||| event is Key
    ||| event is MouseMove
    ||| event is RelativeMouseMove
    ||| event is Button
    ||| event is Scroll
}

/// Whether an event comes from the user's hands.
pub fn is_interactive_input_event(event: &InputEvent) -> (r: bool)
    ensures
        r == is_interactive(*event),
{
    matches!(
        event,
        InputEvent::Key { .. } | InputEvent::MouseMove { .. } | InputEvent::RelativeMouseMove { .. }
            | InputEvent::Button { .. } | InputEvent::Scroll { .. }
    )
}

/// Whether a character may stand in a layout's name.
pub open spec fn is_layout_char(c: char) -> bool {
    ||| 'a' <= c <= 'z'
    ||| 'A' <= c <= 'Z'
    ||| '0' <= c <= '9'
    ||| c == '-'
    ||| c == '_'
}

/// Whether a layout's name is safe to run `setxkbmap` with: one to twenty ASCII
/// letters, digits, hyphens and underscores.
pub open spec fn is_layout_name(layout: Seq<char>) -> bool {
    &&& 0 < layout.len()
    &&& byte_len_of(layout) <= 20
    &&& forall|i: int| 0 <= i < layout.len() ==> is_layout_char(#[trigger] layout[i])
}

/// Whether a layout's name is safe to run `setxkbmap` with.
pub fn is_valid_layout_name(layout: &str) -> (r: bool)
    ensures
        r == is_layout_name(layout@),
{
    if layout.is_empty() || byte_len(layout) > 20 {
        return false;
    }
    let v: Vec<char> = chars_of(layout);
    let mut i: usize = 0;
    while i < v.len()
        invariant
            i <= v@.len(),
            v@ == layout@,
            forall|k: int| 0 <= k < i ==> is_layout_char(#[trigger] layout@[k]),
        decreases v.len() - i,
    {
        let c: char = v[i];
        if !(('a' <= c && c <= 'z') || ('A' <= c && c <= 'Z') || ('0' <= c && c <= '9') || c == '-'
            || c == '_') {
            assert(!is_layout_char(layout@[i as int]));
            return false;
        }
        i = i + 1;
    }
    true
}

/// Whether a clipboard text of `len` bytes is small enough to be taken over.
pub fn is_clipboard_size_ok(len: usize) -> (r: bool)
    ensures
        r == (len <= MAX_CLIPBOARD_BYTES),
        r == (len <= 1_048_576),
{
    len <= MAX_CLIPBOARD_BYTES
}

/// Whether an evdev keycode is one of the Ctrl keys.
pub open spec fn is_ctrl(c: u16) -> bool {
    c == 29 || c == 97
}

/// Whether an evdev keycode is one of the Ctrl keys, left or right.
pub fn is_ctrl_keycode(c: u16) -> (r: bool)
    ensures
        r == is_ctrl(c),
        r == (c == 29 || c == 97),
{
    c == 29 || c == 97
}

/// Whether the release of a key with Ctrl held may have changed the clipboard.
pub open spec fn is_clipboard_key(c: u16) -> bool {
    c == 45 || c == 46
}

/// Whether the release of a key with Ctrl held has the clipboard read.
pub fn is_clipboard_read_trigger_key(c: u16) -> (r: bool)
    ensures
        r == is_clipboard_key(c),
        r == (c == 45 || c == 46),
{
    c == 45 || c == 46
}

// ---------------------------------------------------------------------------
// Actions
// ---------------------------------------------------------------------------

/// What an event leads to.
#[derive(Debug, Clone, PartialEq, Eq)]
pub enum InputAction {
    /// Inject a key. A Ctrl key is noted first. A release with Ctrl held may have
    /// the clipboard read.
    InjectKey { code: u16, pressed: bool },
    /// Move the pointer to a place.
    InjectMouseAbs { x: u64, y: u64 },
    /// Move the pointer by a bounded delta.
    InjectMouseRel { dx: u64, dy: u64 },
    InjectButton { b: u8, pressed: bool },
    /// Scroll by a bounded delta.
    InjectScroll { dx: u64, dy: u64 },
    SetClipboard { text: String },
    SetClipboardPrimary { text: String },
    /// Resize the display, to dimensions that it can have.
    Resize { width: u32, height: u32 },
    /// Change the keyboard layout, to a name that is safe to run a program with.
    Layout { layout: String },
    Visibility { visible: bool },
    FileStart { id: String, name: String, size: u64 },
    FileChunk { id: String, data: String },
    FileDone { id: String },
    FileDownload { path: String },
    /// Nothing: the event is malformed, too large, or not for the agent.
    Ignore,
}

/// What an event leads to, as plain values.
pub enum ActionText {
    InjectKey { code: u16, pressed: bool },
    InjectMouseAbs { x: u64, y: u64 },
    InjectMouseRel { dx: u64, dy: u64 },
    InjectButton { b: u8, pressed: bool },
    InjectScroll { dx: u64, dy: u64 },
    SetClipboard { text: Seq<char> },
    SetClipboardPrimary { text: Seq<char> },
    Resize { width: u32, height: u32 },
    Layout { layout: Seq<char> },
    Visibility { visible: bool },
    FileStart { id: Seq<char>, name: Seq<char>, size: u64 },
    FileChunk { id: Seq<char>, data: Seq<char> },
    FileDone { id: Seq<char> },
    FileDownload { path: Seq<char> },
    Ignore,
}

impl View for InputAction {
    type V = ActionText;

    open spec fn view(&self) -> ActionText {
        match *self {
            InputAction::InjectKey { code, pressed } => ActionText::InjectKey { code, pressed },
            InputAction::InjectMouseAbs { x, y } => ActionText::InjectMouseAbs { x, y },
            InputAction::InjectMouseRel { dx, dy } => ActionText::InjectMouseRel { dx, dy },
            InputAction::InjectButton { b, pressed } => ActionText::InjectButton { b, pressed },
            InputAction::InjectScroll { dx, dy } => ActionText::InjectScroll { dx, dy },
            InputAction::SetClipboard { text } => ActionText::SetClipboard { text: text@ },
            InputAction::SetClipboardPrimary { text } => ActionText::SetClipboardPrimary {
                text: text@,
            },
            InputAction::Resize { width, height } => ActionText::Resize { width, height },
            InputAction::Layout { layout } => ActionText::Layout { layout: layout@ },
            InputAction::Visibility { visible } => ActionText::Visibility { visible },
            InputAction::FileStart { id, name, size } => ActionText::FileStart {
                id: id@,
                name: name@,
                size,
            },
            InputAction::FileChunk { id, data } => ActionText::FileChunk { id: id@, data: data@ },
            InputAction::FileDone { id } => ActionText::FileDone { id: id@ },
            InputAction::FileDownload { path } => ActionText::FileDownload { path: path@ },
            InputAction::Ignore => ActionText::Ignore,
        }
    }
}

/// Whether both deltas of a motion are finite and bounded.
pub open spec fn is_bounded_motion(dx: u64, dy: u64) -> bool {
    is_bounded(dx, MAX_INPUT_DELTA as nat) && is_bounded(dy, MAX_INPUT_DELTA as nat)
}

/// What an event leads to.
pub open spec fn action_for(event: InputEvent, max_width: u32, max_height: u32) -> ActionText {
    match event {
        InputEvent::Key { c, d } => ActionText::InjectKey { code: c, pressed: d },
        InputEvent::MouseMove { x, y } => ActionText::InjectMouseAbs { x, y },
        InputEvent::RelativeMouseMove { dx, dy } => if is_bounded_motion(dx, dy) {
            ActionText::InjectMouseRel { dx, dy }
        } else {
            ActionText::Ignore
        },
        InputEvent::Button { b, d } => ActionText::InjectButton { b, pressed: d },
        InputEvent::Scroll { dx, dy } => if is_bounded_motion(dx, dy) {
            ActionText::InjectScroll { dx, dy }
        } else {
            ActionText::Ignore
        },
        InputEvent::Clipboard { text } => if byte_len_of(text@) <= MAX_CLIPBOARD_BYTES {
            ActionText::SetClipboard { text: text@ }
        } else {
            ActionText::Ignore
        },
        InputEvent::ClipboardPrimary { text } => if byte_len_of(text@) <= MAX_CLIPBOARD_BYTES {
            ActionText::SetClipboardPrimary { text: text@ }
        } else {
            ActionText::Ignore
        },
        InputEvent::Resize { w, h } => if 320 <= w <= 7680 && 240 <= h <= 4320 {
            ActionText::Resize {
                width: clamp_dimension(w, max_width, 640) as u32,
                height: clamp_dimension(h, max_height, 480) as u32,
            }
        } else {
            ActionText::Ignore
        },
        InputEvent::Layout { layout } => if is_layout_name(layout@) {
            ActionText::Layout { layout: layout@ }
        } else {
            ActionText::Ignore
        },
        InputEvent::Quality { .. } => ActionText::Ignore,
        InputEvent::ClientMetricsPing { .. } => ActionText::Ignore,
        InputEvent::ClientMetrics => ActionText::Ignore,
        InputEvent::VisibilityState { visible } => ActionText::Visibility { visible },
        InputEvent::FileStart { id, name, size } => ActionText::FileStart {
            id: id@,
            name: name@,
            size,
        },
        InputEvent::FileChunk { id, data } => ActionText::FileChunk { id: id@, data: data@ },
        InputEvent::FileDone { id } => ActionText::FileDone { id: id@ },
        InputEvent::FileDownloadRequest { path } => ActionText::FileDownload { path: path@ },
    }
}

fn copy(s: &String) -> (r: String)
    ensures
        r@ == s@,
{
    s.as_str().to_owned()
}

/// Decides what an event leads to. A resize is held to `max_width` and
/// `max_height`; zero means no bound.
pub fn classify_input_event(event: &InputEvent, max_width: u32, max_height: u32) -> (r: InputAction)
    ensures
        r@ == action_for(*event, max_width, max_height),
{
    match event {
        InputEvent::Key { c, d } => InputAction::InjectKey { code: *c, pressed: *d },
        InputEvent::MouseMove { x, y } => InputAction::InjectMouseAbs { x: *x, y: *y },
        InputEvent::RelativeMouseMove { dx, dy } => {
            if is_finite_bounded_delta(*dx, *dy) {
                InputAction::InjectMouseRel { dx: *dx, dy: *dy }
            } else {
                InputAction::Ignore
            }
        },
        InputEvent::Button { b, d } => InputAction::InjectButton { b: *b, pressed: *d },
        InputEvent::Scroll { dx, dy } => {
            if is_finite_bounded_delta(*dx, *dy) {
                InputAction::InjectScroll { dx: *dx, dy: *dy }
            } else {
                InputAction::Ignore
            }
        },
        InputEvent::Clipboard { text } => {
            if is_clipboard_size_ok(byte_len(text.as_str())) {
                InputAction::SetClipboard { text: copy(text) }
            } else {
                InputAction::Ignore
            }
        },
        InputEvent::ClipboardPrimary { text } => {
            if is_clipboard_size_ok(byte_len(text.as_str())) {
                InputAction::SetClipboardPrimary { text: copy(text) }
            } else {
                InputAction::Ignore
            }
        },
        InputEvent::Resize { w, h } => {
            match clamp_resize_dimensions(*w, *h, max_width, max_height) {
                Some((width, height)) => InputAction::Resize { width, height },
                None => InputAction::Ignore,
            }
        },
        InputEvent::Layout { layout } => {
            if is_valid_layout_name(layout.as_str()) {
                InputAction::Layout { layout: copy(layout) }
            } else {
                InputAction::Ignore
            }
        },
        InputEvent::Quality { .. } => InputAction::Ignore,
        InputEvent::ClientMetricsPing { .. } => InputAction::Ignore,
        InputEvent::ClientMetrics => InputAction::Ignore,
        InputEvent::VisibilityState { visible } => InputAction::Visibility { visible: *visible },
        InputEvent::FileStart { id, name, size } => InputAction::FileStart {
            id: copy(id),
            name: copy(name),
            size: *size,
        },
        InputEvent::FileChunk { id, data } => InputAction::FileChunk {
            id: copy(id),
            data: copy(data),
        },
        InputEvent::FileDone { id } => InputAction::FileDone { id: copy(id) },
        InputEvent::FileDownloadRequest { path } => InputAction::FileDownload { path: copy(path) },
    }
}

/// Whatever the browser sends, what is acted on is safe: motion is bounded,
/// clipboard texts are small, dimensions are even and usable, and layouts have
/// safe names.
pub proof fn actions_are_safe(event: InputEvent, max_width: u32, max_height: u32)
    ensures
        match action_for(event, max_width, max_height) {
            ActionText::InjectMouseRel { dx, dy } => is_bounded_motion(dx, dy),
            ActionText::InjectScroll { dx, dy } => is_bounded_motion(dx, dy),
            ActionText::SetClipboard { text } => byte_len_of(text) <= MAX_CLIPBOARD_BYTES,
            ActionText::SetClipboardPrimary { text } => byte_len_of(text) <= MAX_CLIPBOARD_BYTES,
            ActionText::Resize { width, height } => {
                &&& width % 2 == 0 && height % 2 == 0
                &&& 640 <= width <= 7680 && 480 <= height <= 4320
                &&& max_width >= 640 ==> width <= max_width
                &&& max_height >= 480 ==> height <= max_height
            },
            ActionText::Layout { layout } => is_layout_name(layout),
            _ => true,
        },
{
}

// ---------------------------------------------------------------------------
// Dispatch
// ---------------------------------------------------------------------------

/// What the dispatcher keeps from event to event.
#[derive(Debug, Clone, PartialEq, Eq)]
pub struct InputDispatchState {
    /// Whether a Ctrl key is held.
    pub ctrl_down: bool,
    /// The keyboard layout that was set last; empty at first.
    pub last_layout: String,
}

impl InputDispatchState {
    pub fn new() -> (r: Self)
        ensures
            !r.ctrl_down,
            r.last_layout@ == Seq::<char>::empty(),
    {
        InputDispatchState { ctrl_down: false, last_layout: String::new() }
    }
}

/// What the dispatcher asks the rest of the agent for, in order.
#[derive(Debug, Clone, PartialEq, Eq)]
pub enum Signal {
    /// Note the time of the last input, in milliseconds.
    LastInput(u64),
    /// Wake the capture thread.
    WakeCapture,
    /// Note whether the tab is in the background.
    Backgrounded(bool),
    /// Hold video back until a keyframe comes.
    NeedKeyframe,
    /// Make the encoder anew, which yields a keyframe.
    ResetEncoder,
    Resize { width: u32, height: u32 },
    /// Read the clipboard and send it to the browser.
    ReadClipboard,
    Download { path: String },
}

/// What the dispatcher asks for, as plain values.
pub enum SignalText {
    LastInput(u64),
    WakeCapture,
    Backgrounded(bool),
    NeedKeyframe,
    ResetEncoder,
    Resize { width: u32, height: u32 },
    ReadClipboard,
    Download { path: Seq<char> },
}

impl View for Signal {
    type V = SignalText;

    open spec fn view(&self) -> SignalText {
        match *self {
            Signal::LastInput(ms) => SignalText::LastInput(ms),
            Signal::WakeCapture => SignalText::WakeCapture,
            Signal::Backgrounded(b) => SignalText::Backgrounded(b),
            Signal::NeedKeyframe => SignalText::NeedKeyframe,
            Signal::ResetEncoder => SignalText::ResetEncoder,
            Signal::Resize { width, height } => SignalText::Resize { width, height },
            Signal::ReadClipboard => SignalText::ReadClipboard,
            Signal::Download { path } => SignalText::Download { path: path@ },
        }
    }
}

/// Signals as plain values.
pub open spec fn signal_texts(signals: Seq<Signal>) -> Seq<SignalText> {
    signals.map_values(|s: Signal| s@)
}

fn signal(signals: &mut Vec<Signal>, s: Signal)
    ensures
        signal_texts(final(signals)@) == signal_texts(old(signals)@).push(s@),
{
    signals.push(s);
    assert(signal_texts(signals@) =~= signal_texts(old(signals)@).push(s@));
}

/// What a change of the tab's visibility asks for. A tab that comes back gets a
/// keyframe.
pub open spec fn visibility_signals(visible: bool) -> Seq<SignalText> {
    if visible {
        seq![
            SignalText::Backgrounded(false),
            SignalText::NeedKeyframe,
            SignalText::ResetEncoder,
        ]
    } else {
        seq![SignalText::Backgrounded(true)]
    }
}

/// Takes a change of the tab's visibility. Whether the encoder is made anew.
pub fn handle_visibility_change(visible: bool, signals: &mut Vec<Signal>) -> (r: bool)
    ensures
        r == visible,
        signal_texts(final(signals)@) == signal_texts(old(signals)@) + visibility_signals(visible),
{
    signal(signals, Signal::Backgrounded(!visible));
    if visible {
        signal(signals, Signal::NeedKeyframe);
        signal(signals, Signal::ResetEncoder);
    }
    assert(signal_texts(signals@) =~= signal_texts(old(signals)@) + visibility_signals(visible));
    visible
}

/// Whether a layout is the one that was set last.
pub fn layout_is_duplicate(prev_layout: &str, new_layout: &str) -> (r: bool)
    ensures
        r == (prev_layout@ == new_layout@),
{
    same_text(prev_layout, new_layout)
}

/// What a change of the keyboard layout takes.
#[derive(Debug, Clone, PartialEq, Eq)]
pub enum LayoutEffect {
    /// Run `setxkbmap` on the display.
    Spawn { layout: String, display: String },
    /// Nothing: the layout is set.
    Skip,
}

/// What is injected for an action.
pub open spec fn injection_for(action: ActionText) -> Option<Injection> {
    match action {
        ActionText::InjectKey { code, pressed } => Some(Injection::Key { code, pressed }),
        ActionText::InjectMouseAbs { x, y } => Some(Injection::MoveAbs { x, y }),
        ActionText::InjectMouseRel { dx, dy } => Some(Injection::MoveRel { dx, dy }),
        ActionText::InjectButton { b, pressed } => Some(Injection::Button { button: b, pressed }),
        ActionText::InjectScroll { dx, dy } => Some(Injection::Scroll { dx, dy }),
        _ => None,
    }
}

/// What is written to the clipboard for an action.
pub open spec fn clipboard_call_for(action: ActionText) -> Option<ClipboardCall> {
    match action {
        ActionText::SetClipboard { text } => Some(ClipboardCall::Text(text)),
        ActionText::SetClipboardPrimary { text } => Some(ClipboardCall::Primary(text)),
        _ => None,
    }
}

/// What the file sink is asked for an action.
pub open spec fn file_call_for(action: ActionText) -> Option<FileCall> {
    match action {
        ActionText::FileStart { id, name, size } => Some(FileCall::Start { id, name, size }),
        ActionText::FileChunk { id, data } => Some(FileCall::Chunk { id, data }),
        ActionText::FileDone { id } => Some(FileCall::Done { id }),
        _ => None,
    }
}

/// Whether Ctrl is held after an action.
pub open spec fn ctrl_after(action: ActionText, ctrl_down: bool) -> bool {
    match action {
        ActionText::InjectKey { code, pressed } => if is_ctrl(code) {
            pressed
        } else {
            ctrl_down
        },
        _ => ctrl_down,
    }
}

/// The layout that is set after an action.
pub open spec fn layout_after(action: ActionText, last_layout: Seq<char>) -> Seq<char> {
    match action {
        ActionText::Layout { layout } => layout,
        _ => last_layout,
    }
}

/// What an action asks the rest of the agent for, with `ctrl_down` as it was
/// before.
pub open spec fn signals_for(action: ActionText, ctrl_down: bool) -> Seq<SignalText> {
    match action {
        ActionText::InjectKey { code, pressed } => if !pressed && is_clipboard_key(code)
            && ctrl_after(action, ctrl_down) {
            seq![SignalText::ReadClipboard]
        } else {
            Seq::empty()
        },
        ActionText::Resize { width, height } => seq![SignalText::Resize { width, height }],
        ActionText::Visibility { visible } => if visible {
            visibility_signals(true).push(SignalText::WakeCapture)
        } else {
            visibility_signals(false)
        },
        ActionText::FileDownload { path } => seq![SignalText::Download { path }],
        _ => Seq::empty(),
    }
}

/// Whether an effect is what an action takes.
pub open spec fn is_effect_of(
    action: ActionText,
    last_layout: Seq<char>,
    display: Seq<char>,
    effect: Option<LayoutEffect>,
) -> bool {
    match action {
        ActionText::Layout { layout } => if layout == last_layout {
            effect == Some(LayoutEffect::Skip)
        } else {
            match effect {
                Some(LayoutEffect::Spawn { layout: l, display: d }) => l@ == layout && d@
                    == display,
                _ => false,
            }
        },
        _ => effect is None,
    }
}

/// Performs an action: on the injector, the clipboard or the file sink, or by a
/// signal to the rest of the agent. What fails there is not passed on. Gives
/// what a change of layout takes, and nothing for any other action.
///
/// An injector, clipboard or file sink that the action is not for is left as it
/// is; one that it is for is left as one call, of the method and with the
/// arguments that the action says, leaves it.
pub fn dispatch_input_action<I: Inject, C: ClipboardWrite, F: FileSink>(
    action: InputAction,
    injector: &mut I,
    clipboard: &mut C,
    file_sink: &mut F,
    state: &mut InputDispatchState,
    signals: &mut Vec<Signal>,
    display: &str,
) -> (r: Option<LayoutEffect>)
    ensures
        injection_for(action@) matches Some(Injection::Key { .. }) ==> exists|
            i: &mut I,
            code: u16,
            pressed: bool,
            out: Result<(), String>,
        |
            #[trigger] call_ensures(I::inject_key, (i, code, pressed), out)
                && injection_for(action@) == Some(Injection::Key { code, pressed })
                && *i == *old(injector) && *final(i) == *final(injector),
        injection_for(action@) matches Some(Injection::MoveAbs { .. }) ==> exists|
            i: &mut I,
            x: u64,
            y: u64,
            out: Result<(), String>,
        |
            #[trigger] call_ensures(I::inject_mouse_move_abs, (i, x, y), out)
                && injection_for(action@) == Some(Injection::MoveAbs { x, y })
                && *i == *old(injector) && *final(i) == *final(injector),
        injection_for(action@) matches Some(Injection::MoveRel { .. }) ==> exists|
            i: &mut I,
            dx: u64,
            dy: u64,
            out: Result<(), String>,
        |
            #[trigger] call_ensures(I::inject_mouse_move_rel, (i, dx, dy), out)
                && injection_for(action@) == Some(Injection::MoveRel { dx, dy })
                && *i == *old(injector) && *final(i) == *final(injector),
        injection_for(action@) matches Some(Injection::Button { .. }) ==> exists|
            i: &mut I,
            button: u8,
            pressed: bool,
            out: Result<(), String>,
        |
            #[trigger] call_ensures(I::inject_button, (i, button, pressed), out)
                && injection_for(action@) == Some(Injection::Button { button, pressed })
                && *i == *old(injector) && *final(i) == *final(injector),
        injection_for(action@) matches Some(Injection::Scroll { .. }) ==> exists|
            i: &mut I,
            dx: u64,
            dy: u64,
            out: Result<(), String>,
        |
            #[trigger] call_ensures(I::inject_scroll, (i, dx, dy), out)
                && injection_for(action@) == Some(Injection::Scroll { dx, dy })
                && *i == *old(injector) && *final(i) == *final(injector),
        injection_for(action@) is None ==> *final(injector) == *old(injector),
        clipboard_call_for(action@) matches Some(ClipboardCall::Text(_)) ==> exists|
            c: &mut C,
            t: &str,
            out: Result<(), String>,
        |
            #[trigger] call_ensures(C::set_text, (c, t), out)
                && clipboard_call_for(action@) == Some(ClipboardCall::Text(t@))
                && *c == *old(clipboard) && *final(c) == *final(clipboard),
        clipboard_call_for(action@) matches Some(ClipboardCall::Primary(_)) ==> exists|
            c: &mut C,
            t: &str,
            out: Result<(), String>,
        |
            #[trigger] call_ensures(C::set_primary_text, (c, t), out)
                && clipboard_call_for(action@) == Some(ClipboardCall::Primary(t@))
                && *c == *old(clipboard) && *final(c) == *final(clipboard),
        clipboard_call_for(action@) is None ==> *final(clipboard) == *old(clipboard),
        file_call_for(action@) matches Some(FileCall::Start { .. }) ==> exists|
            f: &mut F,
            i: &str,
            n: &str,
            size: u64,
            out: Result<(), String>,
        |
            #[trigger] call_ensures(F::handle_file_start, (f, i, n, size), out)
                && file_call_for(action@) == Some(FileCall::Start { id: i@, name: n@, size })
                && *f == *old(file_sink) && *final(f) == *final(file_sink),
        file_call_for(action@) matches Some(FileCall::Chunk { .. }) ==> exists|
            f: &mut F,
            i: &str,
            d: &str,
            out: Result<(), String>,
        |
            #[trigger] call_ensures(F::handle_file_chunk, (f, i, d), out)
                && file_call_for(action@) == Some(FileCall::Chunk { id: i@, data: d@ })
                && *f == *old(file_sink) && *final(f) == *final(file_sink),
        file_call_for(action@) matches Some(FileCall::Done { .. }) ==> exists|
            f: &mut F,
            i: &str,
            out: Result<(), String>,
        |
            #[trigger] call_ensures(F::handle_file_done, (f, i), out)
                && file_call_for(action@) == Some(FileCall::Done { id: i@ })
                && *f == *old(file_sink) && *final(f) == *final(file_sink),
        file_call_for(action@) is None ==> *final(file_sink) == *old(file_sink),
        final(state).ctrl_down == ctrl_after(action@, old(state).ctrl_down),
        final(state).last_layout@ == layout_after(action@, old(state).last_layout@),
        signal_texts(final(signals)@) == signal_texts(old(signals)@) + signals_for(
            action@,
            old(state).ctrl_down,
        ),
        is_effect_of(action@, old(state).last_layout@, display@, r),
{
    let ghost before = signal_texts(signals@);
    let ghost what = action@;
    let ghost ctrl = state.ctrl_down;
    assert(before + Seq::<SignalText>::empty() =~= before);
    match action {
        InputAction::InjectKey { code, pressed } => {
            if is_ctrl_keycode(code) {
                state.ctrl_down = pressed;
            }
            if !pressed && is_clipboard_read_trigger_key(code) && state.ctrl_down {
                signal(signals, Signal::ReadClipboard);
            }
            assert(signal_texts(signals@) =~= before + signals_for(what, ctrl));
            let _ = injector.inject_key(code, pressed);
            None
        },
        InputAction::InjectMouseAbs { x, y } => {
            let _ = injector.inject_mouse_move_abs(x, y);
            None
        },
        InputAction::InjectMouseRel { dx, dy } => {
            let _ = injector.inject_mouse_move_rel(dx, dy);
            None
        },
        InputAction::InjectButton { b, pressed } => {
            let _ = injector.inject_button(b, pressed);
            None
        },
        InputAction::InjectScroll { dx, dy } => {
            let _ = injector.inject_scroll(dx, dy);
            None
        },
        InputAction::SetClipboard { text } => {
            let _ = clipboard.set_text(text.as_str());
            None
        },
        InputAction::SetClipboardPrimary { text } => {
            let _ = clipboard.set_primary_text(text.as_str());
            None
        },
        InputAction::Resize { width, height } => {
            signal(signals, Signal::Resize { width, height });
            assert(signal_texts(signals@) =~= before + signals_for(what, ctrl));
            None
        },
        InputAction::Layout { layout } => {
            if layout_is_duplicate(state.last_layout.as_str(), layout.as_str()) {
                return Some(LayoutEffect::Skip);
            }
            state.last_layout = copy(&layout);
            Some(LayoutEffect::Spawn { layout, display: display.to_owned() })
        },
        InputAction::Visibility { visible } => {
            if handle_visibility_change(visible, signals) {
                signal(signals, Signal::WakeCapture);
            }
            assert(signal_texts(signals@) =~= before + signals_for(what, ctrl));
            None
        },
        InputAction::FileStart { id, name, size } => {
            let _ = file_sink.handle_file_start(id.as_str(), name.as_str(), size);
            None
        },
        InputAction::FileChunk { id, data } => {
            let _ = file_sink.handle_file_chunk(id.as_str(), data.as_str());
            None
        },
        InputAction::FileDone { id } => {
            let _ = file_sink.handle_file_done(id.as_str());
            None
        },
        InputAction::FileDownload { path } => {
            signal(signals, Signal::Download { path });
            assert(signal_texts(signals@) =~= before + signals_for(what, ctrl));
            None
        },
        InputAction::Ignore => None,
    }
}

/// What every event asks for before it is dispatched.
pub open spec fn arrival_signals(event: InputEvent, now_ms: u64) -> Seq<SignalText> {
    let first = seq![SignalText::LastInput(now_ms), SignalText::WakeCapture];
    if is_interactive(event) {
        first.push(SignalText::Backgrounded(false))
    } else {
        first
    }
}

/// Takes note of an event: the time of the last input, a wake-up for the capture
/// thread, and, where the event comes from the user's hands, that the tab is not
/// in the background. Whether it was.
pub fn handle_pre_dispatch(
    event: &InputEvent,
    tab_backgrounded: bool,
    now_ms: u64,
    signals: &mut Vec<Signal>,
) -> (r: bool)
    ensures
        r == (is_interactive(*event) && tab_backgrounded),
        signal_texts(final(signals)@) == signal_texts(old(signals)@) + arrival_signals(
            *event,
            now_ms,
        ),
{
    signal(signals, Signal::LastInput(now_ms));
    signal(signals, Signal::WakeCapture);
    if is_interactive_input_event(event) {
        signal(signals, Signal::Backgrounded(false));
    }
    assert(signal_texts(signals@) =~= signal_texts(old(signals)@) + arrival_signals(
        *event,
        now_ms,
    ));
    is_interactive_input_event(event) && tab_backgrounded
}

/// Takes an event from the browser: notes it, and decides what it leads to.
/// Gives whether it brought the tab back from the background, and the action to
/// dispatch.
pub fn receive_input_event(
    event: &InputEvent,
    tab_backgrounded: bool,
    now_ms: u64,
    max_width: u32,
    max_height: u32,
    signals: &mut Vec<Signal>,
) -> (r: (bool, InputAction))
    ensures
        r.0 == (is_interactive(*event) && tab_backgrounded),
        r.1@ == action_for(*event, max_width, max_height),
        signal_texts(final(signals)@) == signal_texts(old(signals)@) + arrival_signals(
            *event,
            now_ms,
        ),
{
    let resumed: bool = handle_pre_dispatch(event, tab_backgrounded, now_ms, signals);
    (resumed, classify_input_event(event, max_width, max_height))
}

/// An event reaches at most one of the injector, the clipboard and the file
/// sink. What is ignored reaches nothing.
pub proof fn actions_have_one_target(action: ActionText, ctrl_down: bool)
    ensures
        !(injection_for(action) is Some && clipboard_call_for(action) is Some),
        !(injection_for(action) is Some && file_call_for(action) is Some),
        !(clipboard_call_for(action) is Some && file_call_for(action) is Some),
        action is Ignore ==> injection_for(action) is None && clipboard_call_for(action) is None
            && file_call_for(action) is None && signals_for(action, ctrl_down).len() == 0,
{
}

/// What the user's hands do arrives unchanged: every key, button and place goes to the
/// injector as it came. So does every motion and scroll whose deltas are finite and at most
/// 10000 pixels either way; any other is dropped.
pub proof fn input_arrives_unchanged(
    code: u16,
    button: u8,
    pressed: bool,
    x: u64,
    y: u64,
    max_width: u32,
    max_height: u32,
)
    ensures
        injection_for(action_for(InputEvent::Key { c: code, d: pressed }, max_width, max_height))
            == Some(Injection::Key { code, pressed }),
        injection_for(
            action_for(InputEvent::Button { b: button, d: pressed }, max_width, max_height),
        ) == Some(Injection::Button { button, pressed }),
        injection_for(action_for(InputEvent::MouseMove { x, y }, max_width, max_height)) == Some(
            Injection::MoveAbs { x, y },
        ),
        ({
            let limit = 10_000 * pow2(1074);
            let small = is_finite(x) && is_finite(y) && scaled_size(x) <= limit && scaled_size(y)
                <= limit;
            let moved = injection_for(
                action_for(
                    InputEvent::RelativeMouseMove { dx: x, dy: y },
                    max_width,
                    max_height,
                ),
            );
            let scrolled = injection_for(
                action_for(InputEvent::Scroll { dx: x, dy: y }, max_width, max_height),
            );
            &&& small ==> moved == Some(Injection::MoveRel { dx: x, dy: y })
            &&& small ==> scrolled == Some(Injection::Scroll { dx: x, dy: y })
            &&& !small ==> moved is None && scrolled is None
        }),
{
}

/// A text for a selection gets to that selection, and to no other, unless it takes more
/// than 1 MiB.
pub proof fn pasted_text_arrives_unchanged(text: String, max_width: u32, max_height: u32)
    ensures
        ({
            let small = vstd::utf8::encode_utf8(text@).len() <= 1_048_576;
            let clipboard = action_for(InputEvent::Clipboard { text }, max_width, max_height);
            let primary = action_for(
                InputEvent::ClipboardPrimary { text },
                max_width,
                max_height,
            );
            &&& small ==> clipboard_call_for(clipboard) == Some(ClipboardCall::Text(text@))
            &&& small ==> clipboard_call_for(primary) == Some(ClipboardCall::Primary(text@))
            &&& !small ==> clipboard is Ignore && primary is Ignore
        }),
{
}

/// The parts of a file, and requests for one, go to the file sink and to the downloads as
/// they came.
pub proof fn files_arrive_unchanged(
    id: String,
    text: String,
    size: u64,
    ctrl_down: bool,
    max_width: u32,
    max_height: u32,
)
    ensures
        file_call_for(
            action_for(InputEvent::FileStart { id, name: text, size }, max_width, max_height),
        ) == Some(FileCall::Start { id: id@, name: text@, size }),
        file_call_for(action_for(InputEvent::FileChunk { id, data: text }, max_width, max_height))
            == Some(FileCall::Chunk { id: id@, data: text@ }),
        file_call_for(action_for(InputEvent::FileDone { id }, max_width, max_height)) == Some(
            FileCall::Done { id: id@ },
        ),
        signals_for(
            action_for(InputEvent::FileDownloadRequest { path: text }, max_width, max_height),
            ctrl_down,
        ) == seq![SignalText::Download { path: text@ }],
{
}

/// A view of the browser between 640x480 and 7680x4320 pixels gets a display of its own
/// size, but for an odd pixel, unless that is above the maximum. A view below 320x240 or
/// above 7680x4320 changes nothing.
pub proof fn display_takes_the_size_of_the_view(
    w: u32,
    h: u32,
    ctrl_down: bool,
    max_width: u32,
    max_height: u32,
)
    ensures
        ({
            let action = action_for(InputEvent::Resize { w, h }, max_width, max_height);
            &&& w < 320 || w > 7680 || h < 240 || h > 4320 ==> action is Ignore
            &&& 640 <= w <= 7680 && 480 <= h <= 4320 && (max_width == 0 || w <= max_width) && (
            max_height == 0 || h <= max_height) ==> signals_for(action, ctrl_down) == seq![
                SignalText::Resize { width: (w - w % 2) as u32, height: (h - h % 2) as u32 },
            ]
            &&& 320 <= w < 640 && 240 <= h < 480 ==> signals_for(action, ctrl_down) == seq![
                SignalText::Resize { width: 640, height: 480 },
            ]
        }),
{
}

/// A layout's name of one to twenty characters, each of them by its code a letter (65 to
/// 90 or 97 to 122), a digit (48 to 57), a hyphen (45) or an underscore (95), is used as
/// it is; any other name is not used.
pub proof fn layout_names_are_checked_by_codes(layout: String, max_width: u32, max_height: u32)
    ensures
        ({
            let plain = forall|i: int|
                0 <= i < layout@.len() ==> {
                    let code = #[trigger] layout@[i] as u32;
                    48 <= code <= 57 || 65 <= code <= 90 || 97 <= code <= 122 || code == 45 || code
                        == 95
                };
            let action = action_for(InputEvent::Layout { layout }, max_width, max_height);
            &&& plain && 1 <= layout@.len() <= 20 ==> action == (ActionText::Layout {
                layout: layout@,
            })
            &&& !plain || layout@.len() == 0 || layout@.len() > 20 ==> action is Ignore
        }),
{
    crate::clipboard_sync::lemma_bytes_of(layout@);
    if forall|i: int|
        0 <= i < layout@.len() ==> {
            let code = #[trigger] layout@[i] as u32;
            48 <= code <= 57 || 65 <= code <= 90 || 97 <= code <= 122 || code == 45 || code == 95
        } {
        assert forall|i: int| 0 <= i < layout@.len() implies #[trigger] layout@[i] as u32 <= 127
            && is_layout_char(layout@[i]) by {
            lemma_layout_char(layout@[i]);
        }
    } else {
        let i = choose|i: int|
            0 <= i < layout@.len() && !{
                let code = #[trigger] layout@[i] as u32;
                48 <= code <= 57 || 65 <= code <= 90 || 97 <= code <= 122 || code == 45 || code
                    == 95
            };
        lemma_layout_char(layout@[i]);
        assert(!is_layout_char(layout@[i]));
    }
}

proof fn lemma_layout_char(c: char)
    ensures
        is_layout_char(c) <==> {
            let code = c as u32;
            48 <= code <= 57 || 65 <= code <= 90 || 97 <= code <= 122 || code == 45 || code == 95
        },
{
}

/// The clipboard is read exactly when the key 45 or 46 is released while Ctrl is held.
/// Ctrl is held from the last press of a left (29) or right (97) Ctrl key to the next
/// release of one; no other key changes that.
pub proof fn only_copying_reads_the_clipboard(code: u16, pressed: bool, ctrl_down: bool)
    ensures
        ({
            let key = ActionText::InjectKey { code, pressed };
            &&& code == 29 || code == 97 ==> ctrl_after(key, ctrl_down) == pressed
            &&& code != 29 && code != 97 ==> ctrl_after(key, ctrl_down) == ctrl_down
            &&& (code == 45 || code == 46) && !pressed && ctrl_down ==> signals_for(key, ctrl_down)
                == seq![SignalText::ReadClipboard]
            &&& !((code == 45 || code == 46) && !pressed && ctrl_down) ==> signals_for(
                key,
                ctrl_down,
            ).len() == 0
        }),
{
}

/// A layout that was just set is not set again.
pub proof fn layout_is_set_once(
    layout: Seq<char>,
    last: Seq<char>,
    display: Seq<char>,
    effect: Option<LayoutEffect>,
)
    requires
        is_effect_of(
            ActionText::Layout { layout },
            layout_after(ActionText::Layout { layout }, last),
            display,
            effect,
        ),
    ensures
        effect == Some(LayoutEffect::Skip),
{
}

/// Ctrl held, then a clipboard key pressed and released: the clipboard is read
/// once, on the release.
pub proof fn copying_reads_the_clipboard(ctrl: u16, key: u16, before: bool)
    requires
        is_ctrl(ctrl),
        is_clipboard_key(key),
    ensures
        ({
            let hold = ActionText::InjectKey { code: ctrl, pressed: true };
            let press = ActionText::InjectKey { code: key, pressed: true };
            let release = ActionText::InjectKey { code: key, pressed: false };
            let held = ctrl_after(press, ctrl_after(hold, before));
            &&& held
            &&& signals_for(hold, before).len() == 0
            &&& signals_for(press, ctrl_after(hold, before)).len() == 0
            &&& signals_for(release, held) == seq![SignalText::ReadClipboard]
        }),
{
}

/// A tab that goes to the background and comes back ends up in the foreground,
/// with a keyframe asked for.
pub proof fn returning_tab_gets_a_keyframe()
    ensures
        visibility_signals(false).last() == SignalText::Backgrounded(true),
        visibility_signals(true).contains(SignalText::Backgrounded(false)),
        visibility_signals(true).contains(SignalText::NeedKeyframe),
        visibility_signals(true).contains(SignalText::ResetEncoder),
        !visibility_signals(false).contains(SignalText::ResetEncoder),
{
    assert(visibility_signals(true)[0] == SignalText::Backgrounded(false));
    assert(visibility_signals(true)[1] == SignalText::NeedKeyframe);
    assert(visibility_signals(true)[2] == SignalText::ResetEncoder);
}

// ---------------------------------------------------------------------------
// Keyboard layouts
// ---------------------------------------------------------------------------

/// How a run of `setxkbmap` ended.
#[derive(Debug, Clone, PartialEq, Eq)]
pub enum SetxkbmapOutcome {
    /// The layout is set.
    Success,
    /// It is not, and this is why.
    Failure { stderr: String },
    /// `setxkbmap` could not be run.
    SpawnError { reason: String },
}

/// Tells how a run of `setxkbmap` ended: whether it succeeded, with what it
/// wrote, or why it could not be run.
pub fn classify_setxkbmap_result(spawn_result: Result<(bool, String), String>) -> (r:
    SetxkbmapOutcome)
    ensures
        r == (match spawn_result {
            Ok((succeeded, stderr)) => if succeeded {
                SetxkbmapOutcome::Success
            } else {
                SetxkbmapOutcome::Failure { stderr }
            },
            Err(e) => SetxkbmapOutcome::SpawnError { reason: e },
        }),
{
    match spawn_result {
        Ok((succeeded, stderr)) => if succeeded {
            SetxkbmapOutcome::Success
        } else {
            SetxkbmapOutcome::Failure { stderr }
        },
        Err(e) => SetxkbmapOutcome::SpawnError { reason: e },
    }
}

/// The command that sets a keyboard layout.
pub fn setxkbmap_command(layout: &str, display: &str) -> (r: crate::command::CommandPlan)
    ensures
        r@ == crate::command::display_command("setxkbmap"@, seq![layout@], display@),
{
    let mut r = crate::command::CommandPlan::new("setxkbmap");
    r.arg(layout);
    r.env("DISPLAY", display);
    assert(r@ =~= crate::command::display_command("setxkbmap"@, seq![layout@], display@));
    r
}

/// Only what the user's hands do counts as use of a tab: whatever is injected does, and of
/// what does only motion and scrolls that are not bounded are not injected.
pub proof fn only_hands_count_as_use(event: InputEvent, max_width: u32, max_height: u32)
    ensures
        injection_for(action_for(event, max_width, max_height)) is Some ==> is_interactive(event),
        is_interactive(event) ==> injection_for(action_for(event, max_width, max_height)) is Some
            || event is RelativeMouseMove || event is Scroll,
        clipboard_call_for(action_for(event, max_width, max_height)) is Some
            || file_call_for(action_for(event, max_width, max_height)) is Some ==> !is_interactive(
            event,
        ),
        event is VisibilityState || event is Resize || event is Layout || event is ClientMetrics
            || event is ClientMetricsPing || event is Quality || event is FileDownloadRequest
            ==> !is_interactive(event),
{
}

/// A tab that comes back has the capture thread woken; one that goes does not.
pub proof fn returning_tab_wakes_the_capture(ctrl_down: bool)
    ensures
        signals_for(ActionText::Visibility { visible: true }, ctrl_down) == seq![
            SignalText::Backgrounded(false),
            SignalText::NeedKeyframe,
            SignalText::ResetEncoder,
            SignalText::WakeCapture,
        ],
        signals_for(ActionText::Visibility { visible: false }, ctrl_down) == seq![
            SignalText::Backgrounded(true),
        ],
{
    assert(signals_for(ActionText::Visibility { visible: true }, ctrl_down) =~= seq![
        SignalText::Backgrounded(false),
        SignalText::NeedKeyframe,
        SignalText::ResetEncoder,
        SignalText::WakeCapture,
    ]);
}

} // verus!
