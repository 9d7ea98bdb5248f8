//! A session: what the agent settles on when it starts, and how it waits for
//! audio.

use crate::desktop_config::opt_str;
use crate::display::DEFAULT_OUTPUT_NAME;
use crate::encoder::EncoderType;
use crate::json::{object, object_text, text_field, text_member};
use crate::text::{
    append_decimal, append_signed, decimal, joined, parse_u32, signed_decimal, strip_leading,
    u32_value, without_leading,
};
use vstd::prelude::*;

verus! {

/// The display that is used where none is named properly.
pub const DEFAULT_DISPLAY_NUM: u32 = 10;

/// The number of a display such as ":10", with or without the colon; 10 where
/// there is no number.
pub open spec fn display_num_of(x_display: Seq<char>) -> u32 {
    match u32_value(without_leading(x_display, ':'), 10) {
        Some(n) => n,
        None => DEFAULT_DISPLAY_NUM,
    }
}

/// The number of a display such as ":10", with or without the colon; 10 where
/// there is no number.
pub fn parse_display_num(x_display: &str) -> (r: u32)
    ensures
        r == display_num_of(x_display@),
        r == match u32_value(without_leading(x_display@, ':'), 10) {
            Some(n) => n,
            None => 10u32,
        },
{
    match parse_u32(strip_leading(x_display, ':'), 10) {
        Some(n) => n,
        None => DEFAULT_DISPLAY_NUM,
    }
}

/// A display's number can be read back from its name, with the colon and without it.
pub proof fn display_names_read_back(display_num: u32)
    ensures
        display_num_of(seq![':'] + decimal(display_num as nat)) == display_num,
        display_num_of(decimal(display_num as nat)) == display_num,
{
    let digits = decimal(display_num as nat);
    let name = seq![':'] + digits;
    crate::text::decimal_reads_back(display_num as nat);
    crate::text::lemma_decimal_first(display_num as nat);
    assert(name.skip(1) =~= digits);
    assert(without_leading(digits, ':') == digits);
    assert(without_leading(name, ':') == digits);
}

/// Where the PulseAudio socket of a display is.
pub open spec fn pulse_socket(display_num: u32) -> Seq<char> {
    "/tmp/beam-pulse-"@ + decimal(display_num as nat) + "/native"@
}

/// Where the PulseAudio socket of a display is.
pub fn pulse_server_path(display_num: u32) -> (r: String)
    ensures
        r@ == pulse_socket(display_num),
{
    let mut r: String = "/tmp/beam-pulse-".to_owned();
    append_decimal(&mut r, display_num as u64);
    r.append("/native");
    r
}

/// The address of the PulseAudio socket of a display.
pub fn pulse_server_url(display_num: u32) -> (r: String)
    ensures
        r@ == "unix:"@ + pulse_socket(display_num),
{
    joined("unix:", pulse_server_path(display_num).as_str())
}

/// The address that the agent records audio from is the one that the display's
/// programs play to.
pub proof fn pulse_addresses_agree(display_num: u32)
    ensures
        "unix:"@ + pulse_socket(display_num) == crate::desktop::pulse_url(display_num),
{
    assert("unix:"@ + pulse_socket(display_num) =~= crate::desktop::pulse_url(display_num));
}

/// The PulseAudio server that audio is recorded from. A display that was there
/// before has one only where its socket is found.
pub fn pulse_server_for(display_num: u32, display_existed: bool, socket_exists: bool) -> (r: Option<
    String,
>)
    ensures
        r is Some <==> !display_existed || socket_exists,
        r matches Some(url) ==> url@ == "unix:"@ + pulse_socket(display_num),
{
    if display_existed && !socket_exists {
        return None;
    }
    Some(pulse_server_url(display_num))
}

/// How often something is looked for that takes a while.
pub const WAIT_ATTEMPTS: u32 = 20;

/// What to do after a look for something that takes a while.
#[derive(Debug, Clone, Copy, PartialEq, Eq, Structural)]
pub enum WaitStep {
    /// It is there.
    Ready,
    /// Wait, then look again.
    Again,
    /// Go on without it.
    Over,
}

/// What to do after a look for something that takes a while, once it was waited for
/// `attempt` times.
pub fn wait_step(attempt: u32, ready: bool) -> (r: WaitStep)
    ensures
        r == (if ready {
            WaitStep::Ready
        } else if attempt < WAIT_ATTEMPTS {
            WaitStep::Again
        } else {
            WaitStep::Over
        }),
{
    if ready {
        WaitStep::Ready
    } else if attempt < WAIT_ATTEMPTS {
        WaitStep::Again
    } else {
        WaitStep::Over
    }
}

/// The framerate and the bitrate that are used.
pub open spec fn capped_parameters(
    encoder_type: EncoderType,
    requested_fps: u32,
    requested_bitrate: u32,
) -> (u32, u32) {
    if encoder_type == EncoderType::Software && requested_fps > 60 {
        (
            60,
            if requested_bitrate < 20_000 {
                requested_bitrate
            } else {
                20_000
            },
        )
    } else {
        (requested_fps, requested_bitrate)
    }
}

/// Only the software encoder is held back, and only above 60 frames a second: to 60 frames
/// and at most 20000 kilobits. Nothing is ever raised, and what is settled stays.
pub proof fn only_the_software_encoder_is_capped(
    encoder_type: EncoderType,
    requested_fps: u32,
    requested_bitrate: u32,
)
    ensures
        ({
            let (fps, bitrate) = capped_parameters(encoder_type, requested_fps, requested_bitrate);
            &&& fps <= requested_fps && bitrate <= requested_bitrate
            &&& encoder_type != EncoderType::Software || requested_fps <= 60 ==> fps
                == requested_fps && bitrate == requested_bitrate
            &&& encoder_type == EncoderType::Software && requested_fps > 60 ==> fps == 60
                && bitrate <= 20_000 && (bitrate == 20_000 || bitrate == requested_bitrate)
            &&& capped_parameters(encoder_type, fps, bitrate) == (fps, bitrate)
        }),
{
}

/// The framerate and the bitrate that are used. The software encoder cannot keep
/// up with more than 60 frames a second: its queue would grow without end.
pub fn cap_software_encoder_params(
    encoder_type: EncoderType,
    requested_fps: u32,
    requested_bitrate: u32,
) -> (r: (u32, u32))
    ensures
        r == capped_parameters(encoder_type, requested_fps, requested_bitrate),
        encoder_type == EncoderType::Software && requested_fps > 60 ==> r.0 == 60 && r.1 == (
        if requested_bitrate < 20_000 {
            requested_bitrate
        } else {
            20_000
        }),
        !(encoder_type == EncoderType::Software && requested_fps > 60) ==> r == (
            requested_fps,
            requested_bitrate,
        ),
{
    if encoder_type == EncoderType::Software && requested_fps > 60 {
        let bitrate: u32 = if requested_bitrate < 20_000 {
            requested_bitrate
        } else {
            20_000
        };
        (60, bitrate)
    } else {
        (requested_fps, requested_bitrate)
    }
}

/// The home directory of file transfers: `$HOME`, or `/tmp` where it is not set
/// or empty.
pub fn resolve_home_dir(env_home: Option<&str>) -> (r: String)
    ensures
        r@ == match opt_str(env_home) {
            Some(home) => if home.len() > 0 {
                home
            } else {
                "/tmp"@
            },
            None => "/tmp"@,
        },
{
    match env_home {
        Some(home) => if home.is_empty() {
            "/tmp".to_owned()
        } else {
            home.to_owned()
        },
        None => "/tmp".to_owned(),
    }
}

/// The xrandr output that is resized: that of the virtual display, or the default
/// one.
pub fn resolve_output_name(virtual_display_output: Option<&str>) -> (r: String)
    ensures
        r@ == match opt_str(virtual_display_output) {
            Some(name) => if name.len() > 0 {
                name
            } else {
                DEFAULT_OUTPUT_NAME@
            },
            None => DEFAULT_OUTPUT_NAME@,
        },
{
    match virtual_display_output {
        Some(name) => if name.is_empty() {
            DEFAULT_OUTPUT_NAME.to_owned()
        } else {
            name.to_owned()
        },
        None => DEFAULT_OUTPUT_NAME.to_owned(),
    }
}

/// Milliseconds since the Unix epoch, from whole seconds and nanoseconds, in 64
/// bits; 0 for a time before the epoch.
pub fn now_unix_millis(since_epoch: Option<(u64, u32)>) -> (r: u64)
    ensures
        r == match since_epoch {
            Some((secs, nanos)) => (secs * 1000 + nanos as int / 1_000_000)
                % 0x1_0000_0000_0000_0000,
            None => 0,
        },
{
    match since_epoch {
        Some((secs, nanos)) => {
            let millis: u128 = secs as u128 * 1000 + (nanos / 1_000_000) as u128;
            (millis % 0x1_0000_0000_0000_0000) as u64
        },
        None => 0,
    }
}

/// The message about real-time priority. `ret` is 0 where it was granted.
pub fn sched_fifo_log_message(ret: i32, priority: i32) -> (r: String)
    ensures
        r@ == if ret == 0 {
            "Capture thread elevated to SCHED_FIFO priority "@ + signed_decimal(priority as int)
        } else {
            "Could not set SCHED_FIFO (need CAP_SYS_NICE), priority "@ + signed_decimal(
                priority as int,
            ) + " not applied"@
        },
{
    if ret == 0 {
        let mut r: String = "Capture thread elevated to SCHED_FIFO priority ".to_owned();
        append_signed(&mut r, priority);
        r
    } else {
        let mut r: String = "Could not set SCHED_FIFO (need CAP_SYS_NICE), priority ".to_owned();
        append_signed(&mut r, priority);
        r.append(" not applied");
        r
    }
}

/// The message that tells the browser of a cursor.
pub open spec fn cursor_message(css: Seq<char>) -> Seq<char> {
    object_text(seq![text_member("css"@, css), text_member("t"@, "cur"@)])
}

/// Builds the message that tells the browser of a cursor.
pub fn build_cursor_message(css: &str) -> (r: String)
    ensures
        r@ == cursor_message(css@),
{
    let mut members: Vec<String> = Vec::new();
    members.push(text_field("css", css));
    members.push(text_field("t", "cur"));
    assert(crate::text::texts(members@) =~= seq![
        text_member("css"@, css@),
        text_member("t"@, "cur"@),
    ]);
    object(&members)
}

// ---------------------------------------------------------------------------
// Audio
// ---------------------------------------------------------------------------

/// How long to wait before PulseAudio is tried again.
pub open spec fn audio_delay_of(attempt: nat) -> u64 {
    if attempt < 20 {
        500
    } else {
        2000
    }
}

/// What follows an attempt to connect to PulseAudio, counted from 0.
pub open spec fn audio_step_for(attempt: u32, connected: bool) -> AudioStep {
    if connected {
        AudioStep::Start
    } else if attempt > 60 {
        AudioStep::GiveUp
    } else {
        AudioStep::Retry {
            delay_ms: audio_delay_of(attempt as nat),
            log: attempt < 20 || attempt % 10 == 0,
        }
    }
}

/// Audio starts with the first attempt that succeeds. Sixty-one attempts that fail are
/// followed by another, the next one that fails by none. The first twenty are logged and half
/// a second apart, the others two seconds, and every tenth of them is logged.
pub proof fn audio_is_tried_again_up_to_a_limit(attempt: u32)
    ensures
        audio_step_for(attempt, true) == AudioStep::Start,
        attempt < 20 ==> audio_step_for(attempt, false) == (AudioStep::Retry {
            delay_ms: 500,
            log: true,
        }),
        20 <= attempt <= 60 ==> audio_step_for(attempt, false) == (AudioStep::Retry {
            delay_ms: 2000,
            log: attempt == 20 || attempt == 30 || attempt == 40 || attempt == 50 || attempt == 60,
        }),
        attempt >= 61 ==> audio_step_for(attempt, false) == AudioStep::GiveUp,
{
}

/// How long to wait before PulseAudio is tried again: half a second for the first
/// 20 attempts, then two seconds.
pub fn audio_retry_delay_ms(attempt: u32) -> (r: u64)
    ensures
        r == audio_delay_of(attempt as nat),
        r == if attempt < 20 {
            500u64
        } else {
            2000
        },
{
    if attempt < 20 {
        500
    } else {
        2000
    }
}

/// Whether a failed attempt is logged: each of the first 20, then every tenth.
pub fn should_log_audio_retry(attempt: u32) -> (r: bool)
    ensures
        r == (attempt < 20 || attempt % 10 == 0),
{
    attempt < 20 || attempt % 10 == 0
}

/// Whether a failed attempt is the last.
pub fn should_give_up_audio_retry(attempt: u32) -> (r: bool)
    ensures
        r == (attempt > 60),
{
    attempt > 60
}

/// What follows an attempt to connect to PulseAudio.
#[derive(Debug, Clone, Copy, PartialEq, Eq, Structural)]
pub enum AudioStep {
    /// Capture audio.
    Start,
    /// Try again after a while.
    Retry { delay_ms: u64, log: bool },
    /// Do without audio.
    GiveUp,
}

/// What follows an attempt to connect to PulseAudio, counted from 0.
pub fn audio_step(attempt: u32, connected: bool) -> (r: AudioStep)
    ensures
        r == audio_step_for(attempt, connected),
        connected ==> r == AudioStep::Start,
        !connected && attempt > 60 ==> r == AudioStep::GiveUp,
        !connected && attempt <= 60 ==> r == (AudioStep::Retry {
            delay_ms: if attempt < 20 {
                500
            } else {
                2000
            },
            log: attempt < 20 || attempt % 10 == 0,
        }),
{
    if connected {
        AudioStep::Start
    } else if should_give_up_audio_retry(attempt) {
        AudioStep::GiveUp
    } else {
        AudioStep::Retry {
            delay_ms: audio_retry_delay_ms(attempt),
            log: should_log_audio_retry(attempt),
        }
    }
}

/// The time that the first `attempts` failed attempts are waited for, in
/// milliseconds.
pub open spec fn total_audio_delay(attempts: nat) -> nat
    decreases attempts,
{
    if attempts == 0 {
        0
    } else {
        total_audio_delay((attempts - 1) as nat) + audio_delay_of((attempts - 1) as nat) as nat
    }
}

/// How long is waited in all: half a second for each of the first 20 attempts,
/// two seconds for each later one. Up to the last attempt that is tried again
/// that makes 92 seconds.
pub proof fn audio_is_given_up_in_time(attempts: nat)
    ensures
        attempts <= 20 ==> total_audio_delay(attempts) == 500 * attempts,
        attempts > 20 ==> total_audio_delay(attempts) == 10_000 + 2000 * (attempts - 20),
        attempts <= 61 ==> total_audio_delay(attempts) <= 92_000,
    decreases attempts,
{
    if attempts > 0 {
        audio_is_given_up_in_time((attempts - 1) as nat);
    }
}

/// The message of a cursor, letter by letter.
pub proof fn cursor_messages_have_a_fixed_shape(css: Seq<char>)
    ensures
        cursor_message(css) == "{\"css\":"@ + crate::json::json_quoted(css) + ",\"t\":\"cur\"}"@,
{
    let name = "\""@ + "css"@ + "\":"@;
    let head = "{"@ + name;
    let tail = ","@ + text_member("t"@, "cur"@) + "}"@;
    crate::json::lemma_two_members(text_member("css"@, css), text_member("t"@, "cur"@));
    crate::json::lemma_regroup("{"@, name, crate::json::json_quoted(css));
    reveal_strlit("{");
    reveal_strlit("}");
    reveal_strlit(",");
    reveal_strlit("\"");
    reveal_strlit("\":");
    reveal_strlit("css");
    reveal_strlit("t");
    reveal_strlit("cur");
    reveal_strlit("{\"css\":");
    reveal_strlit(",\"t\":\"cur\"}");
    crate::json::plain_text_is_quoted_as_it_is("cur"@);
    assert(head =~= "{\"css\":"@);
    assert(tail =~= ",\"t\":\"cur\"}"@);
}

} // verus!
