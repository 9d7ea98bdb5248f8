//! The capture thread: what each turn of its loop does.

use crate::cli::DEFAULT_FRAMERATE;
use crate::double::{
    double_quotient, nearest_double, nearest_even, powers_grow, rounding_keeps_upper_bounds,
    whole_quotients_are_exact, Double,
};
use crate::float_bits::{is_finite, is_nan, is_negative, means_nothing, scaled_size};
use crate::number::append_large_decimal;
use crate::text::{append_decimal, append_wide_decimal, decimal, joined};
use vstd::arithmetic::power2::{
    lemma2_to64, lemma2_to64_rest, lemma_pow2_adds, lemma_pow2_pos, pow2,
};
use vstd::prelude::*;

verus! {

/// After this time without input the session is idle.
pub const IDLE_TIMEOUT_MS: u64 = 300_000;

pub const IDLE_FRAMERATE: u32 = 5;

pub const BACKGROUND_FRAMERATE: u32 = 1;

/// The encoder is not made anew more often than this.
pub const ENCODER_RESET_COOLDOWN_MS: u64 = 5_000;

/// So many failures in a row end the loop.
pub const MAX_CAPTURE_ERRORS: u64 = 300;

/// Time between two heartbeats in the log.
pub const HEARTBEAT_MS: u64 = 5_000;

/// What the capture thread is asked for.
#[derive(Debug, Clone, Copy, PartialEq, Eq, Structural)]
pub enum CaptureCommand {
    Resize { width: u32, height: u32 },
    /// Make the encoder anew, so that the next frame is a keyframe.
    ResetEncoder,
}

// ---------------------------------------------------------------------------
// Commands
// ---------------------------------------------------------------------------

/// Whether a resize changes nothing.
pub fn is_resize_noop(current_w: u32, current_h: u32, requested_w: u32, requested_h: u32) -> (r:
    bool)
    ensures
        r == (current_w == requested_w && current_h == requested_h),
{
    current_w == requested_w && current_h == requested_h
}

/// Whether the encoder was made so long ago that it may be made anew.
pub fn encoder_reset_cooldown_elapsed(last_reset_elapsed_ms: u64, cooldown_ms: u64) -> (r: bool)
    ensures
        r == (last_reset_elapsed_ms >= cooldown_ms),
{
    last_reset_elapsed_ms >= cooldown_ms
}

/// Whether a request for a keyframe has the encoder made anew. Within the
/// cooldown a forced keyframe must do.
pub fn should_recreate_encoder(elapsed_ms: u64, cooldown_ms: u64) -> (r: bool)
    ensures
        r == (elapsed_ms >= cooldown_ms),
{
    encoder_reset_cooldown_elapsed(elapsed_ms, cooldown_ms)
}

/// What is left of the cooldown.
pub fn encoder_reset_cooldown_remaining_ms(elapsed_ms: u64, cooldown_ms: u64) -> (r: u64)
    ensures
        r == if elapsed_ms < cooldown_ms {
            cooldown_ms - elapsed_ms
        } else {
            0
        },
{
    if elapsed_ms < cooldown_ms {
        cooldown_ms - elapsed_ms
    } else {
        0
    }
}

/// The message of a resize that is under way.
pub fn format_processing_resize_message(width: u32, height: u32) -> (r: String)
    ensures
        r@ == "Processing resize request: "@ + decimal(width as nat) + "x"@ + decimal(
            height as nat,
        ),
{
    let mut r: String = "Processing resize request: ".to_owned();
    append_decimal(&mut r, width as u64);
    r.append("x");
    append_decimal(&mut r, height as u64);
    r
}

/// The message of a resize that failed.
pub fn format_xrandr_resize_failure(error: &str) -> (r: String)
    ensures
        r@ == "xrandr resize failed: "@ + error@,
{
    joined("xrandr resize failed: ", error)
}

/// What a command takes.
#[derive(Debug, Clone, Copy, PartialEq, Eq, Structural)]
pub enum CommandStep {
    /// Nothing: take the next command.
    Skip,
    /// Resize the display. If that succeeds, make capture and encoder anew, and
    /// take no other command in this turn.
    Resize { width: u32, height: u32 },
    /// Make the encoder anew, and take no other command in this turn.
    Recreate,
    /// Force a keyframe, and take the next command.
    ForceKeyframe { cooldown_remaining_ms: u64 },
}

/// What a command takes, with the current size and the time since the encoder
/// was made anew.
pub open spec fn step_for(
    command: CaptureCommand,
    width: u32,
    height: u32,
    since_reset_ms: u64,
) -> CommandStep {
    match command {
        CaptureCommand::Resize { width: w, height: h } => if w == width && h == height {
            CommandStep::Skip
        } else {
            CommandStep::Resize { width: w, height: h }
        },
        CaptureCommand::ResetEncoder => if since_reset_ms >= ENCODER_RESET_COOLDOWN_MS {
            CommandStep::Recreate
        } else {
            CommandStep::ForceKeyframe {
                cooldown_remaining_ms: (ENCODER_RESET_COOLDOWN_MS - since_reset_ms) as u64,
            }
        },
    }
}

/// Decides what a command takes, with the current size and the time since the
/// encoder was made anew.
pub fn command_step(command: CaptureCommand, width: u32, height: u32, since_reset_ms: u64) -> (r:
    CommandStep)
    ensures
        r == step_for(command, width, height, since_reset_ms),
        match command {
            CaptureCommand::Resize { width: asked_width, height: asked_height } => {
                &&& asked_width == width && asked_height == height ==> r == CommandStep::Skip
                &&& asked_width != width ==> r == (CommandStep::Resize {
                    width: asked_width,
                    height: asked_height,
                })
                &&& asked_height != height ==> r == (CommandStep::Resize {
                    width: asked_width,
                    height: asked_height,
                })
            },
            CaptureCommand::ResetEncoder => {
                &&& since_reset_ms >= 5_000 ==> r == CommandStep::Recreate
                &&& since_reset_ms < 5_000 ==> (r matches CommandStep::ForceKeyframe {
                    cooldown_remaining_ms,
                } && since_reset_ms + cooldown_remaining_ms == 5_000)
            },
        },
{
    match command {
        CaptureCommand::Resize { width: w, height: h } => {
            if is_resize_noop(width, height, w, h) {
                CommandStep::Skip
            } else {
                CommandStep::Resize { width: w, height: h }
            }
        },
        CaptureCommand::ResetEncoder => {
            if should_recreate_encoder(since_reset_ms, ENCODER_RESET_COOLDOWN_MS) {
                CommandStep::Recreate
            } else {
                CommandStep::ForceKeyframe {
                    cooldown_remaining_ms: encoder_reset_cooldown_remaining_ms(
                        since_reset_ms,
                        ENCODER_RESET_COOLDOWN_MS,
                    ),
                }
            }
        },
    }
}

/// A resize is skipped exactly if the width and the height that are asked for are
/// both the current ones. In every other case, also where only one of the two
/// differs, the display gets exactly the width and the height that are asked for.
/// Asking again for the size that was just set changes nothing.
pub proof fn resize_is_skipped_only_if_settled(
    asked_width: u32,
    asked_height: u32,
    width: u32,
    height: u32,
    since_reset_ms: u64,
)
    ensures
        ({
            let asked = CaptureCommand::Resize { width: asked_width, height: asked_height };
            let step = step_for(asked, width, height, since_reset_ms);
            &&& step == CommandStep::Skip <==> asked_width == width && asked_height == height
            &&& asked_width != width ==> step == (CommandStep::Resize {
                width: asked_width,
                height: asked_height,
            })
            &&& asked_height != height ==> step == (CommandStep::Resize {
                width: asked_width,
                height: asked_height,
            })
            &&& step matches CommandStep::Resize { width: new_width, height: new_height }
                ==> step_for(asked, new_width, new_height, since_reset_ms) == CommandStep::Skip
        }),
{
}

/// A request for a keyframe always gets one: by a new encoder, or by force while
/// the cooldown lasts. The encoder is not made anew again before it is over.
pub proof fn reset_yields_a_keyframe(width: u32, height: u32, since_reset_ms: u64)
    ensures
        step_for(CaptureCommand::ResetEncoder, width, height, since_reset_ms)
            == CommandStep::Recreate <==> since_reset_ms >= 5_000,
        step_for(CaptureCommand::ResetEncoder, width, height, since_reset_ms) is Recreate
            || step_for(
            CaptureCommand::ResetEncoder,
            width,
            height,
            since_reset_ms,
        ) is ForceKeyframe,
{
}

/// Why the encoder is made anew.
#[derive(Debug, Clone, Copy, PartialEq, Eq, Structural)]
pub enum Recreation {
    /// A keyframe was asked for.
    Reset,
    /// The display has another size.
    Resize,
    /// The pipeline failed.
    Failure,
}

// ---------------------------------------------------------------------------
// Pacing
// ---------------------------------------------------------------------------

/// The time of one frame at a framerate, in nanoseconds; a second where the
/// framerate is 0.
pub open spec fn frame_duration(framerate: u32) -> u64 {
    if framerate == 0 {
        1_000_000_000
    } else {
        1_000_000_000u64 / framerate as u64
    }
}

/// The time of one frame at a framerate, in nanoseconds; a second where the
/// framerate is 0.
pub fn frame_duration_ns_from_framerate(framerate: u32) -> (r: u64)
    ensures
        r == frame_duration(framerate),
{
    if framerate == 0 {
        return 1_000_000_000;
    }
    1_000_000_000u64 / framerate as u64
}

/// The time of one frame: longest in the background, longer while idle.
pub open spec fn chosen_duration(
    is_backgrounded: bool,
    is_idle: bool,
    active_ns: u64,
    idle_ns: u64,
    background_ns: u64,
) -> u64 {
    if is_backgrounded {
        background_ns
    } else if is_idle {
        idle_ns
    } else {
        active_ns
    }
}

/// Chooses the time of one frame.
pub fn select_frame_duration_ns(
    is_backgrounded: bool,
    is_idle: bool,
    active_ns: u64,
    idle_ns: u64,
    background_ns: u64,
) -> (r: u64)
    ensures
        r == chosen_duration(is_backgrounded, is_idle, active_ns, idle_ns, background_ns),
{
    if is_backgrounded {
        background_ns
    } else if is_idle {
        idle_ns
    } else {
        active_ns
    }
}

/// Whether the last input was longer ago than the timeout. Before any input
/// (time 0) a session is not idle.
pub open spec fn is_idle_at(last_input_ms: u64, now_ms: u64, timeout_ms: u64) -> bool {
    last_input_ms > 0 && now_ms - last_input_ms > timeout_ms
}

/// Whether a session is idle.
pub fn is_idle_state(last_input_ms: u64, now_ms: u64, timeout_ms: u64) -> (r: bool)
    ensures
        r == is_idle_at(last_input_ms, now_ms, timeout_ms),
{
    last_input_ms > 0 && now_ms > last_input_ms && now_ms - last_input_ms > timeout_ms
}

/// Whether the thread waits on its condition variable, to be woken by input,
/// rather than count out the time.
pub fn capture_wait_should_use_condvar(is_idle: bool, is_backgrounded: bool) -> (r: bool)
    ensures
        r == (is_idle || is_backgrounded),
{
    is_idle || is_backgrounded
}

/// Whether there is time to sleep before the rest is counted out.
pub fn capture_active_should_sleep(remaining_ms: u64) -> (r: bool)
    ensures
        r == (remaining_ms > 2),
{
    remaining_ms > 2
}

/// How the rest of a frame's time is spent.
#[derive(Debug, Clone, Copy, PartialEq, Eq, Structural)]
pub enum Wait {
    /// The frame's time is over.
    Over,
    /// Wait to be woken, for so many nanoseconds at most.
    UntilWoken(u64),
    /// Sleep for so many nanoseconds, then spin until the frame's time is over.
    SleepThenSpin(u64),
    /// Spin until the frame's time is over.
    Spin,
}

/// How the rest of a frame's time is spent.
pub open spec fn wait_for(
    frame_duration_ns: u64,
    elapsed_ns: u64,
    is_idle: bool,
    is_backgrounded: bool,
) -> Wait {
    let remaining = frame_duration_ns - elapsed_ns;
    if remaining <= 0 {
        Wait::Over
    } else if is_idle || is_backgrounded {
        Wait::UntilWoken(remaining as u64)
    } else if remaining / 1_000_000 > 2 {
        Wait::SleepThenSpin((remaining - 1_000_000) as u64)
    } else {
        Wait::Spin
    }
}

/// Decides how the rest of a frame's time is spent.
pub fn frame_wait(
    frame_duration_ns: u64,
    elapsed_ns: u64,
    is_idle: bool,
    is_backgrounded: bool,
) -> (r: Wait)
    ensures
        r == wait_for(frame_duration_ns, elapsed_ns, is_idle, is_backgrounded),
{
    if elapsed_ns >= frame_duration_ns {
        return Wait::Over;
    }
    let remaining: u64 = frame_duration_ns - elapsed_ns;
    if capture_wait_should_use_condvar(is_idle, is_backgrounded) {
        Wait::UntilWoken(remaining)
    } else if capture_active_should_sleep(remaining / 1_000_000) {
        Wait::SleepThenSpin(remaining - 1_000_000)
    } else {
        Wait::Spin
    }
}

/// No wait goes beyond the frame's time; a sleep ends a millisecond before it.
pub proof fn waits_end_in_time(
    frame_duration_ns: u64,
    elapsed_ns: u64,
    is_idle: bool,
    is_backgrounded: bool,
)
    ensures
        match wait_for(frame_duration_ns, elapsed_ns, is_idle, is_backgrounded) {
            Wait::Over => elapsed_ns >= frame_duration_ns,
            Wait::UntilWoken(ns) => elapsed_ns + ns == frame_duration_ns,
            Wait::SleepThenSpin(ns) => ns > 1_000_000 && elapsed_ns + ns + 1_000_000
                == frame_duration_ns,
            Wait::Spin => elapsed_ns < frame_duration_ns && frame_duration_ns - elapsed_ns
                < 3_000_000,
        },
{
}

/// A session that is idle or in the background sleeps through the rest of a frame's time
/// and can be woken. One that is active is never left to be woken: it sleeps only where
/// three milliseconds or more are left, and spins for the last one.
pub proof fn only_quiet_sessions_wait_to_be_woken(
    frame_duration_ns: u64,
    elapsed_ns: u64,
    is_idle: bool,
    is_backgrounded: bool,
)
    requires
        elapsed_ns < frame_duration_ns,
    ensures
        ({
            let wait = wait_for(frame_duration_ns, elapsed_ns, is_idle, is_backgrounded);
            let left = (frame_duration_ns - elapsed_ns) as u64;
            &&& is_idle ==> wait == Wait::UntilWoken(left)
            &&& is_backgrounded ==> wait == Wait::UntilWoken(left)
            &&& !is_idle && !is_backgrounded && left >= 3_000_000 ==> wait == Wait::SleepThenSpin(
                (left - 1_000_000) as u64,
            )
            &&& !is_idle && !is_backgrounded && left < 3_000_000 ==> wait == Wait::Spin
        }),
{
}

/// A session is idle from the moment that its last input is longer ago than the timeout,
/// and not before. Input ends that. Before the first input, at time 0, it is not idle.
pub proof fn idleness_begins_behind_the_timeout(last_input_ms: u64, now_ms: u64, timeout_ms: u64)
    ensures
        last_input_ms == 0 ==> !is_idle_at(last_input_ms, now_ms, timeout_ms),
        now_ms <= last_input_ms + timeout_ms ==> !is_idle_at(last_input_ms, now_ms, timeout_ms),
        last_input_ms > 0 && now_ms > last_input_ms + timeout_ms ==> is_idle_at(
            last_input_ms,
            now_ms,
            timeout_ms,
        ),
        !is_idle_at(now_ms, now_ms, timeout_ms),
{
}

/// As many frames as the framerate says fit in a second, and their times fill it but for
/// a remainder of less than a nanosecond each.
pub proof fn frames_fill_a_second(framerate: u32)
    requires
        framerate > 0,
    ensures
        framerate * frame_duration(framerate) <= 1_000_000_000,
        framerate * (frame_duration(framerate) + 1) > 1_000_000_000,
{
    let n = framerate as int;
    let d = frame_duration(framerate) as int;
    assert(n * d <= 1_000_000_000 && n * (d + 1) > 1_000_000_000) by (nonlinear_arith)
        requires
            n > 0,
            d == 1_000_000_000int / n,
    ;
}

/// The message of a change between the foreground and the background, or between
/// an active and an idle session; `None` where nothing changed. Idleness does not
/// matter in the background.
pub open spec fn transition_text(
    is_idle: bool,
    is_backgrounded: bool,
    was_idle: bool,
    was_backgrounded: bool,
    current_framerate: u32,
    idle_framerate: u32,
    background_framerate: u32,
) -> Option<Seq<char>> {
    if is_backgrounded && !was_backgrounded {
        Some("Tab backgrounded, reducing to "@ + decimal(background_framerate as nat) + "fps"@)
    } else if !is_backgrounded && was_backgrounded {
        Some("Tab foregrounded, restoring framerate "@ + decimal(current_framerate as nat) + "fps"@)
    } else if is_idle && !was_idle && !is_backgrounded {
        Some("Entering idle mode ("@ + decimal(idle_framerate as nat) + "fps)"@)
    } else if !is_idle && was_idle && !is_backgrounded {
        Some("Resuming active mode ("@ + decimal(current_framerate as nat) + "fps)"@)
    } else {
        None
    }
}

fn message(front: &str, number: u32, back: &str) -> (r: String)
    ensures
        r@ == front@ + decimal(number as nat) + back@,
{
    let mut r: String = front.to_owned();
    append_decimal(&mut r, number as u64);
    r.append(back);
    r
}

/// Builds the message of a change between the foreground and the background, or
/// between an active and an idle session.
pub fn capture_state_transition_message(
    is_idle: bool,
    is_backgrounded: bool,
    was_idle: bool,
    was_backgrounded: bool,
    current_framerate: u32,
    idle_framerate: u32,
    background_framerate: u32,
) -> (r: Option<String>)
    ensures
        match transition_text(
            is_idle,
            is_backgrounded,
            was_idle,
            was_backgrounded,
            current_framerate,
            idle_framerate,
            background_framerate,
        ) {
            Some(t) => r is Some && r->0@ == t,
            None => r is None,
        },
{
    if is_backgrounded != was_backgrounded {
        if is_backgrounded {
            return Some(message("Tab backgrounded, reducing to ", background_framerate, "fps"));
        } else {
            return Some(
                message("Tab foregrounded, restoring framerate ", current_framerate, "fps"),
            );
        }
    }
    if is_idle != was_idle && !is_backgrounded {
        if is_idle {
            return Some(message("Entering idle mode (", idle_framerate, "fps)"));
        } else {
            return Some(message("Resuming active mode (", current_framerate, "fps)"));
        }
    }
    None
}

// ---------------------------------------------------------------------------
// Errors and logs
// ---------------------------------------------------------------------------

/// Whether a failed capture is logged: the first three in a row, then every
/// hundredth.
pub fn should_log_capture_error(consecutive: u64) -> (r: bool)
    ensures
        r == (consecutive <= 3 || consecutive % 100 == 0),
{
    consecutive <= 3 || consecutive % 100 == 0
}

/// Whether so many failures in a row end the loop.
pub fn should_break_capture_loop(consecutive: u64, threshold: u64) -> (r: bool)
    ensures
        r == (consecutive >= threshold),
{
    consecutive >= threshold
}

/// Whether a capture ends a row of failures.
pub fn should_log_capture_recovery(consecutive: u64) -> (r: bool)
    ensures
        r == (consecutive > 0),
{
    consecutive > 0
}

/// How many frames were captured in a second, times two to the power 1074: the
/// quotient in floating-point numbers. `elapsed` is given by its bits.
pub open spec fn frames_per_second(frame_count: u64, elapsed: u64) -> nat {
    double_quotient(
        nearest_double(frame_count as nat * pow2(1074), 1),
        scaled_size(elapsed),
    )
}

/// A number in decimal notation with one digit behind the point, to the nearest. The
/// number is given times two to the power 1074.
pub open spec fn with_tenths(value: nat) -> Seq<char> {
    let tenths = nearest_even(value * 10, pow2(1074));
    decimal(tenths / 10) + "."@ + decimal(tenths % 10)
}

/// The frame rate of a heartbeat.
pub open spec fn heartbeat_fps(frame_count: u64, elapsed: u64) -> Seq<char> {
    if is_nan(elapsed) {
        "NaN"@
    } else if is_negative(elapsed) || scaled_size(elapsed) == 0 || !is_finite(elapsed) {
        "0.0"@
    } else if frames_per_second(frame_count, elapsed) >= pow2(2098) {
        "inf"@
    } else {
        with_tenths(frames_per_second(frame_count, elapsed))
    }
}

/// The frame rate of a heartbeat, with one digit behind the point. `elapsed_secs`
/// is a floating-point number, by its bits. Where no time has passed, there is no
/// rate.
pub fn format_capture_heartbeat_fps(frame_count: u64, elapsed_secs: u64) -> (r: String)
    ensures
        r@ == heartbeat_fps(frame_count, elapsed_secs),
{
    if means_nothing(elapsed_secs) {
        return "NaN".to_owned();
    }
    if elapsed_secs >= 0x8000_0000_0000_0000 || elapsed_secs >= 0x7FF0_0000_0000_0000 {
        return "0.0".to_owned();
    }
    let elapsed: Double = Double::from_bits(elapsed_secs);
    proof {
        lemma_mantissa(elapsed);
        lemma_pow2_pos(1074);
    }
    if elapsed.mantissa == 0 {
        return "0.0".to_owned();
    }
    let frames: Double = Double::nearest_whole(frame_count);
    if elapsed.exponent > 1200 {
        proof {
            lemma_rare_frames(frame_count, elapsed);
            lemma_nothing_in_tenths();
        }
        return "0.0".to_owned();
    }
    let rate: Double = frames.over(elapsed);
    proof {
        lemma_mantissa(rate);
    }
    if rate.mantissa == 0 {
        proof {
            lemma_nothing_in_tenths();
            lemma_pow2_pos(2098);
        }
        return "0.0".to_owned();
    }
    let limit: Double = Double { mantissa: 1, exponent: 2098 };
    proof {
        assert(1nat * pow2(2098) == pow2(2098)) by (nonlinear_arith);
        assert(limit.scaled() == pow2(2098));
    }
    if !rate.is_below(limit) {
        return "inf".to_owned();
    }
    let mut r: String = String::new();
    if rate.exponent > 1134 {
        append_large_decimal(&mut r, rate.mantissa, rate.exponent - 1074);
        let ghost whole = rate.mantissa as nat * pow2((rate.exponent - 1074) as nat);
        proof {
            lemma_pow2_adds((rate.exponent - 1074) as nat, 1074);
            assert(rate.scaled() * 10 == (whole * 10) * pow2(1074)) by (nonlinear_arith)
                requires
                    rate.scaled() == rate.mantissa as nat * pow2(rate.exponent as nat),
                    pow2(rate.exponent as nat) == pow2((rate.exponent - 1074) as nat) * pow2(1074),
                    whole == rate.mantissa as nat * pow2((rate.exponent - 1074) as nat),
            ;
            whole_quotients_are_exact(whole * 10, pow2(1074));
            assert(r@ =~= decimal(whole));
        }
        r.append(".");
        append_decimal(&mut r, 0);
        return r;
    }
    let tenths: u128 = rate.in_parts(10);
    append_wide_decimal(&mut r, tenths / 10);
    assert(r@ =~= decimal(tenths as nat / 10));
    r.append(".");
    append_wide_decimal(&mut r, tenths % 10);
    r
}

/// A number is zero where its mantissa is.
proof fn lemma_mantissa(d: Double)
    ensures
        (d.mantissa == 0) == (d.scaled() == 0),
{
    let e = pow2(d.exponent as nat);
    lemma_pow2_pos(d.exponent as nat);
    if d.mantissa == 0 {
        assert(d.mantissa as nat * e == 0) by (nonlinear_arith)
            requires
                d.mantissa == 0,
        ;
    } else {
        assert(d.mantissa as nat * e > 0) by (nonlinear_arith)
            requires
                d.mantissa > 0,
                e > 0,
        ;
    }
}

/// Nothing is written as a zero on either side of the point.
proof fn lemma_nothing_in_tenths()
    ensures
        with_tenths(0) == "0.0"@,
{
    lemma_pow2_pos(1074);
    reveal_strlit(".");
    reveal_strlit("0.0");
    whole_quotients_are_exact(0, pow2(1074));
    assert(0 * pow2(1074) == 0);
    assert(with_tenths(0) =~= "0.0"@);
}

/// Any number of frames over a very long time is less than a twentieth in a second.
proof fn lemma_rare_frames(frame_count: u64, elapsed: Double)
    requires
        elapsed.wf(),
        elapsed.mantissa > 0,
        elapsed.exponent > 1200,
    ensures
        ({
            let rate = double_quotient(
                nearest_double(frame_count as nat * pow2(1074), 1),
                elapsed.scaled(),
            );
            rate < pow2(2098) && nearest_even(rate * 10, pow2(1074)) == 0
        }),
{
    let one = pow2(1074);
    let n = frame_count as nat;
    let frames = nearest_double(n * one, 1);
    let time = elapsed.scaled();
    let rate = double_quotient(frames, time);
    let small = pow2(1012);
    lemma2_to64();
    lemma2_to64_rest();
    lemma_pow2_pos(1074);
    lemma_pow2_pos(1012);
    lemma_pow2_adds(64, 1074);
    lemma_pow2_adds(62, 1012);
    lemma_pow2_adds(62, 1138);
    assert(n * one <= 1 * pow2(1138) * 1) by (nonlinear_arith)
        requires
            n <= 0x1_0000_0000_0000_0000,
            pow2(1138) == 0x1_0000_0000_0000_0000 * one,
    ;
    rounding_keeps_upper_bounds(n * one, 1, 1, 1138);
    powers_grow(1200, elapsed.exponent as nat);
    let e = pow2(elapsed.exponent as nat);
    assert(time >= pow2(1200)) by (nonlinear_arith)
        requires
            time == elapsed.mantissa as nat * e,
            elapsed.mantissa >= 1,
            e >= pow2(1200),
    ;
    let unit: nat = 0x4000_0000_0000_0000;
    assert(frames * one <= 1 * small * time) by (nonlinear_arith)
        requires
            frames <= pow2(1138),
            one == unit * small,
            pow2(1200) == unit * pow2(1138),
            time >= pow2(1200),
            small > 0,
    ;
    lemma_pow2_pos(1138);
    lemma_pow2_pos(1200);
    rounding_keeps_upper_bounds(frames * one, time, 1, 1012);
    powers_grow(1012, 2098);
    assert(small < pow2(2098)) by {
        powers_grow(1074, 2098);
    }
    assert(2 * (rate * 10) < one);
    vstd::arithmetic::div_mod::lemma_basic_div((rate * 10) as int, one as int);
    vstd::arithmetic::div_mod::lemma_small_mod(rate * 10, one);
}

/// Whether a frame is the first one, which is logged.
pub fn should_log_first_frame(already_logged: bool) -> (r: bool)
    ensures
        r == !already_logged,
{
    !already_logged
}

/// Whether a keyframe was forced while the tab was in the background: it must
/// have come back.
pub fn should_warn_keyframe_while_backgrounded(was_backgrounded: bool) -> (r: bool)
    ensures
        r == was_backgrounded,
{
    was_backgrounded
}

/// What follows an attempt to capture a frame.
#[derive(Debug, Clone, Copy, PartialEq, Eq, Structural)]
pub enum CaptureStep {
    /// Encode the frame. `recovered_after` failures in a row were before it;
    /// `first` says whether it is the first one.
    Encode { recovered_after: u64, first: bool },
    /// Try again.
    Retry { consecutive: u64, log: bool },
    /// Captures fail for good.
    GiveUp { consecutive: u64, log: bool },
}

/// What comes when encoded frames are drained.
#[derive(Debug, Clone, Copy, PartialEq, Eq, Structural)]
pub enum Drained {
    /// A frame, and it was passed on or dropped because the channel was full.
    Frame,
    /// A frame, and nobody takes frames any more.
    Closed,
    /// No frame is ready.
    Empty,
    /// The encoder is gone.
    Failed,
}

/// What follows when encoded frames are drained.
#[derive(Debug, Clone, Copy, PartialEq, Eq, Structural)]
pub enum DrainStep {
    /// Look for another frame.
    Again,
    /// Go on with the next frame to capture.
    Done,
    /// End the thread.
    Stop,
}

/// How the next frame is captured.
#[derive(Debug, Clone, PartialEq, Eq)]
pub struct Pace {
    pub is_idle: bool,
    /// The frame's time.
    pub frame_duration_ns: u64,
    /// What to log.
    pub message: Option<String>,
}

// ---------------------------------------------------------------------------
// The loop's state
// ---------------------------------------------------------------------------

/// What the capture thread keeps from turn to turn.
#[derive(Debug, Clone, PartialEq, Eq)]
pub struct CaptureLoop {
    framerate: u32,
    was_idle: bool,
    was_backgrounded: bool,
    first_capture_logged: bool,
    first_encode_logged: bool,
    consecutive_errors: u64,
    captured: u64,
    encoded: u64,
}

impl CaptureLoop {
    /// The framerate of an active session.
    pub closed spec fn active_framerate(self) -> u32 {
        self.framerate
    }

    /// Whether the last frame was idle, in the foreground.
    pub closed spec fn idle(self) -> bool {
        self.was_idle
    }

    /// Whether the last frame was in the background.
    pub closed spec fn backgrounded(self) -> bool {
        self.was_backgrounded
    }

    /// Whether the first captured frame was logged.
    pub closed spec fn capture_logged(self) -> bool {
        self.first_capture_logged
    }

    /// Whether the first encoded frame was logged.
    pub closed spec fn encode_logged(self) -> bool {
        self.first_encode_logged
    }

    /// How many captures failed in a row.
    pub closed spec fn errors(self) -> u64 {
        self.consecutive_errors
    }

    /// How many frames were captured.
    pub closed spec fn captured_frames(self) -> u64 {
        self.captured
    }

    /// How many frames were encoded.
    pub closed spec fn encoded_frames(self) -> u64 {
        self.encoded
    }

    /// Whether the loop goes on: not too many captures failed in a row.
    pub open spec fn running(self) -> bool {
        self.errors() < MAX_CAPTURE_ERRORS
    }

    /// Whether frames can no longer be counted.
    pub fn is_exhausted(&self) -> (r: bool)
        ensures
            r == (self.captured_frames() == u64::MAX || self.encoded_frames() == u64::MAX),
    {
        self.captured == u64::MAX || self.encoded == u64::MAX
    }

    /// The loop at its start.
    pub fn new(framerate: u32) -> (r: Self)
        ensures
            r.running(),
            r.active_framerate() == framerate,
            !r.idle(),
            !r.backgrounded(),
            !r.capture_logged(),
            !r.encode_logged(),
            r.errors() == 0,
            r.captured_frames() == 0,
            r.encoded_frames() == 0,
    {
        CaptureLoop {
            framerate,
            was_idle: false,
            was_backgrounded: false,
            first_capture_logged: false,
            first_encode_logged: false,
            consecutive_errors: 0,
            captured: 0,
            encoded: 0,
        }
    }

    /// The framerate of the encoder that is made anew. Its first frame will be
    /// logged; after a resize, the first captured one too.
    pub fn recreated(&mut self, recreation: Recreation) -> (r: u32)
        ensures
            r == if recreation == Recreation::Resize {
                DEFAULT_FRAMERATE
            } else {
                old(self).active_framerate()
            },
            final(self).active_framerate() == old(self).active_framerate(),
            final(self).idle() == old(self).idle(),
            final(self).backgrounded() == old(self).backgrounded(),
            final(self).capture_logged() == (recreation != Recreation::Resize && old(
                self,
            ).capture_logged()),
            !final(self).encode_logged(),
            final(self).errors() == old(self).errors(),
            final(self).captured_frames() == old(self).captured_frames(),
            final(self).encoded_frames() == old(self).encoded_frames(),
    {
        self.first_encode_logged = false;
        if recreation == Recreation::Resize {
            self.first_capture_logged = false;
            DEFAULT_FRAMERATE
        } else {
            self.framerate
        }
    }

    /// Decides how the next frame is captured, and remembers it.
    pub fn pace(&mut self, is_backgrounded: bool, last_input_ms: u64, now_ms: u64) -> (r: Pace)
        ensures
            r.is_idle == is_idle_at(last_input_ms, now_ms, IDLE_TIMEOUT_MS),
            r.frame_duration_ns == chosen_duration(
                is_backgrounded,
                r.is_idle,
                frame_duration(old(self).active_framerate()),
                frame_duration(IDLE_FRAMERATE),
                frame_duration(BACKGROUND_FRAMERATE),
            ),
            r.is_idle <==> last_input_ms > 0 && now_ms > last_input_ms + 300_000,
            is_backgrounded ==> r.frame_duration_ns == 1_000_000_000,
            !is_backgrounded && r.is_idle ==> r.frame_duration_ns == 200_000_000,
            !is_backgrounded && !r.is_idle ==> r.frame_duration_ns == frame_duration(
                old(self).active_framerate(),
            ),
            match transition_text(
                r.is_idle,
                is_backgrounded,
                old(self).idle(),
                old(self).backgrounded(),
                old(self).active_framerate(),
                IDLE_FRAMERATE,
                BACKGROUND_FRAMERATE,
            ) {
                Some(t) => r.message is Some && r.message->0@ == t,
                None => r.message is None,
            },
            final(self).backgrounded() == is_backgrounded,
            final(self).idle() == if is_backgrounded {
                old(self).idle()
            } else {
                r.is_idle
            },
            final(self).active_framerate() == old(self).active_framerate(),
            final(self).capture_logged() == old(self).capture_logged(),
            final(self).encode_logged() == old(self).encode_logged(),
            final(self).errors() == old(self).errors(),
            final(self).captured_frames() == old(self).captured_frames(),
            final(self).encoded_frames() == old(self).encoded_frames(),
    {
        proof {
            assert(1_000_000_000int / 1 == 1_000_000_000) by (nonlinear_arith);
            assert(1_000_000_000int / 5 == 200_000_000) by (nonlinear_arith);
        }
        let is_idle: bool = is_idle_state(last_input_ms, now_ms, IDLE_TIMEOUT_MS);
        let frame_duration_ns: u64 = select_frame_duration_ns(
            is_backgrounded,
            is_idle,
            frame_duration_ns_from_framerate(self.framerate),
            frame_duration_ns_from_framerate(IDLE_FRAMERATE),
            frame_duration_ns_from_framerate(BACKGROUND_FRAMERATE),
        );
        let message: Option<String> = capture_state_transition_message(
            is_idle,
            is_backgrounded,
            self.was_idle,
            self.was_backgrounded,
            self.framerate,
            IDLE_FRAMERATE,
            BACKGROUND_FRAMERATE,
        );
        self.was_backgrounded = is_backgrounded;
        if !is_backgrounded {
            self.was_idle = is_idle;
        }
        Pace { is_idle, frame_duration_ns, message }
    }

    /// Takes the outcome of a capture.
    pub fn capture(&mut self, succeeded: bool) -> (r: CaptureStep)
        requires
            old(self).running(),
        ensures
            is_capture(*old(self), succeeded, *final(self), r),
            succeeded ==> {
                &&& r == (CaptureStep::Encode {
                    recovered_after: old(self).errors(),
                    first: !old(self).capture_logged(),
                })
                &&& final(self).errors() == 0
                &&& final(self).capture_logged()
            },
            !succeeded ==> {
                &&& final(self).errors() == old(self).errors() + 1
                &&& final(self).capture_logged() == old(self).capture_logged()
                &&& ({
                    let consecutive = final(self).errors();
                    let log = consecutive <= 3 || consecutive % 100 == 0;
                    r == if final(self).running() {
                        CaptureStep::Retry { consecutive, log }
                    } else {
                        CaptureStep::GiveUp { consecutive, log }
                    }
                })
            },
            final(self).active_framerate() == old(self).active_framerate(),
            final(self).idle() == old(self).idle(),
            final(self).backgrounded() == old(self).backgrounded(),
            final(self).encode_logged() == old(self).encode_logged(),
            final(self).captured_frames() == old(self).captured_frames(),
            final(self).encoded_frames() == old(self).encoded_frames(),
    {
        if succeeded {
            let recovered_after: u64 = self.consecutive_errors;
            if should_log_capture_recovery(recovered_after) {
                self.consecutive_errors = 0;
            }
            let first: bool = should_log_first_frame(self.first_capture_logged);
            self.first_capture_logged = true;
            CaptureStep::Encode { recovered_after, first }
        } else {
            self.consecutive_errors = self.consecutive_errors + 1;
            let consecutive: u64 = self.consecutive_errors;
            let log: bool = should_log_capture_error(consecutive);
            if should_break_capture_loop(consecutive, MAX_CAPTURE_ERRORS) {
                CaptureStep::GiveUp { consecutive, log }
            } else {
                CaptureStep::Retry { consecutive, log }
            }
        }
    }

    /// Takes what came of the encoder. `drained_any` says whether a frame came
    /// before in this turn, `deadline_passed` whether the time to wait for one is
    /// over. Gives what follows, and whether the frame is the first one.
    pub fn drain(&mut self, drained: Drained, drained_any: bool, deadline_passed: bool) -> (r: (
        DrainStep,
        bool,
    ))
        requires
            old(self).encoded_frames() < u64::MAX,
        ensures
            r.0 == drain_step_for(drained, drained_any, deadline_passed),
            r.0 == (match drained {
                Drained::Frame => DrainStep::Again,
                Drained::Closed => DrainStep::Stop,
                Drained::Empty => if drained_any || deadline_passed {
                    DrainStep::Done
                } else {
                    DrainStep::Again
                },
                Drained::Failed => DrainStep::Stop,
            }),
            ({
                let frame = drained == Drained::Frame || drained == Drained::Closed;
                &&& r.1 == (frame && !old(self).encode_logged())
                &&& final(self).encoded_frames() == old(self).encoded_frames() + if frame {
                    1int
                } else {
                    0
                }
                &&& final(self).encode_logged() == (frame || old(self).encode_logged())
            }),
            final(self).active_framerate() == old(self).active_framerate(),
            final(self).idle() == old(self).idle(),
            final(self).backgrounded() == old(self).backgrounded(),
            final(self).capture_logged() == old(self).capture_logged(),
            final(self).errors() == old(self).errors(),
            final(self).captured_frames() == old(self).captured_frames(),
    {
        match drained {
            Drained::Frame => {
                let first: bool = self.note_encoded();
                (DrainStep::Again, first)
            },
            Drained::Closed => {
                let first: bool = self.note_encoded();
                (DrainStep::Stop, first)
            },
            Drained::Empty => {
                if drained_any || deadline_passed {
                    (DrainStep::Done, false)
                } else {
                    (DrainStep::Again, false)
                }
            },
            Drained::Failed => (DrainStep::Stop, false),
        }
    }

    /// Counts an encoded frame. Whether it is the first one.
    fn note_encoded(&mut self) -> (r: bool)
        requires
            old(self).encoded_frames() < u64::MAX,
        ensures
            r == !old(self).encode_logged(),
            final(self).encode_logged(),
            final(self).encoded_frames() == old(self).encoded_frames() + 1,
            final(self).active_framerate() == old(self).active_framerate(),
            final(self).idle() == old(self).idle(),
            final(self).backgrounded() == old(self).backgrounded(),
            final(self).capture_logged() == old(self).capture_logged(),
            final(self).errors() == old(self).errors(),
            final(self).captured_frames() == old(self).captured_frames(),
    {
        self.encoded = self.encoded + 1;
        let first: bool = !self.first_encode_logged;
        self.first_encode_logged = true;
        first
    }

    /// Counts a captured frame. Gives the counts to log, where a heartbeat is
    /// due.
    pub fn finish(&mut self, since_heartbeat_ms: u64) -> (r: Option<(u64, u64)>)
        requires
            old(self).captured_frames() < u64::MAX,
        ensures
            final(self).captured_frames() == old(self).captured_frames() + 1,
            r is Some <==> since_heartbeat_ms >= 5_000,
            r == (if since_heartbeat_ms >= HEARTBEAT_MS {
                Some((final(self).captured_frames(), final(self).encoded_frames()))
            } else {
                None
            }),
            final(self).active_framerate() == old(self).active_framerate(),
            final(self).idle() == old(self).idle(),
            final(self).backgrounded() == old(self).backgrounded(),
            final(self).capture_logged() == old(self).capture_logged(),
            final(self).encode_logged() == old(self).encode_logged(),
            final(self).errors() == old(self).errors(),
            final(self).encoded_frames() == old(self).encoded_frames(),
    {
        self.captured = self.captured + 1;
        if since_heartbeat_ms >= HEARTBEAT_MS {
            Some((self.captured, self.encoded))
        } else {
            None
        }
    }
}

/// A session in the background captures no more frames than an idle one, and an
/// idle one no more than an active one, where the active framerate is that of an
/// idle session or above.
pub proof fn quiet_sessions_capture_less(framerate: u32)
    requires
        framerate >= IDLE_FRAMERATE,
    ensures
        frame_duration(framerate) <= frame_duration(IDLE_FRAMERATE),
        frame_duration(IDLE_FRAMERATE) <= frame_duration(BACKGROUND_FRAMERATE),
        frame_duration(framerate) <= 200_000_000,
        forall|is_idle: bool, active_ns: u64, idle_ns: u64, background_ns: u64|
            #[trigger] chosen_duration(true, is_idle, active_ns, idle_ns, background_ns)
                == background_ns,
        forall|active_ns: u64, idle_ns: u64, background_ns: u64|
            #[trigger] chosen_duration(false, true, active_ns, idle_ns, background_ns) == idle_ns,
        forall|active_ns: u64, idle_ns: u64, background_ns: u64|
            #[trigger] chosen_duration(false, false, active_ns, idle_ns, background_ns)
                == active_ns,
{
    assert(1_000_000_000int / 1 == 1_000_000_000) by (nonlinear_arith);
    assert(1_000_000_000int / 5 == 200_000_000) by (nonlinear_arith);
    assert(frame_duration(BACKGROUND_FRAMERATE) == 1_000_000_000);
    assert(frame_duration(IDLE_FRAMERATE) == 200_000_000);
    assert(1_000_000_000int / (framerate as int) <= 200_000_000) by (nonlinear_arith)
        requires
            framerate >= 5,
    ;
}

/// A change is reported exactly if there is one: between the foreground and the
/// background, or, in the foreground, between an active and an idle session.
pub proof fn only_changes_are_reported(
    is_idle: bool,
    is_backgrounded: bool,
    was_idle: bool,
    was_backgrounded: bool,
    current: u32,
    idle: u32,
    background: u32,
)
    ensures
        transition_text(
            is_idle,
            is_backgrounded,
            was_idle,
            was_backgrounded,
            current,
            idle,
            background,
        ) is None <==> is_backgrounded == was_backgrounded && (is_backgrounded || is_idle
            == was_idle),
{
}

/// A whole number of frames in each of some seconds is reported as it is.
pub proof fn whole_rates_are_reported_as_they_are(rate: nat, seconds: nat, elapsed: u64)
    requires
        is_finite(elapsed),
        !is_negative(elapsed),
        seconds > 0,
        scaled_size(elapsed) == seconds * pow2(1074),
        rate * seconds < 0x20_0000_0000_0000,
    ensures
        heartbeat_fps((rate * seconds) as u64, elapsed) == decimal(rate) + ".0"@,
{
    let one = pow2(1074);
    let count = rate * seconds;
    lemma_pow2_pos(1074);
    crate::double::numbers_round_to_themselves(count, 1074);
    assert(count * one * one == rate * one * (seconds * one)) by (nonlinear_arith)
        requires
            count == rate * seconds,
    ;
    assert(seconds * one > 0) by (nonlinear_arith)
        requires
            seconds > 0,
            one > 0,
    ;
    assert(rate <= count) by (nonlinear_arith)
        requires
            count == rate * seconds,
            seconds > 0,
    ;
    rounding_keeps_upper_bounds(count * one * one, seconds * one, rate, 1074);
    crate::double::rounding_keeps_lower_bounds(count * one * one, seconds * one, rate, 1074);
    let value = frames_per_second(count as u64, elapsed);
    assert(value == rate * one);
    lemma2_to64_rest();
    lemma_pow2_adds(64, 1074);
    powers_grow(64 + 1074, 2098);
    assert(rate * one < 0x1_0000_0000_0000_0000 * one) by (nonlinear_arith)
        requires
            rate < 0x1_0000_0000_0000_0000,
            one > 0,
    ;
    assert(value * 10 == (rate * 10) * one) by (nonlinear_arith)
        requires
            value == rate * one,
    ;
    whole_quotients_are_exact((rate * 10) as nat, one);
    assert((rate * 10) / 10 == rate && (rate * 10) % 10 == 0);
    reveal_strlit(".");
    reveal_strlit(".0");
    assert(decimal(0) =~= seq!['0']);
    assert(with_tenths(value) =~= decimal(rate) + ".0"@);
}

/// Whether a capture with the given outcome leads from one state to another, by a step.
pub open spec fn is_capture(
    before: CaptureLoop,
    succeeded: bool,
    after: CaptureLoop,
    step: CaptureStep,
) -> bool {
    if succeeded {
        &&& after.errors() == 0
        &&& after.capture_logged()
        &&& step == (CaptureStep::Encode {
            recovered_after: before.errors(),
            first: !before.capture_logged(),
        })
    } else {
        let consecutive = after.errors();
        let log = consecutive <= 3 || consecutive % 100 == 0;
        &&& consecutive == before.errors() + 1
        &&& after.capture_logged() == before.capture_logged()
        &&& step == if after.running() {
            CaptureStep::Retry { consecutive, log }
        } else {
            CaptureStep::GiveUp { consecutive, log }
        }
    }
}

/// Captures that fail one after the other are tried again, up to the three hundredth, which
/// ends the loop. The first three are logged, then every hundredth.
pub proof fn failures_in_a_row_end_the_loop(
    states: Seq<CaptureLoop>,
    steps: Seq<CaptureStep>,
    k: int,
)
    requires
        steps.len() <= 300,
        states.len() == steps.len() + 1,
        states[0].errors() == 0,
        forall|i: int|
            0 <= i < steps.len() ==> is_capture(
                states[i],
                false,
                states[i + 1],
                #[trigger] steps[i],
            ),
        0 <= k < steps.len(),
    ensures
        states[k].errors() == k,
        k < 299 ==> steps[k] == (CaptureStep::Retry {
            consecutive: (k + 1) as u64,
            log: k < 3 || k == 99 || k == 199,
        }),
        k == 299 ==> steps[k] == (CaptureStep::GiveUp { consecutive: 300, log: true }),
    decreases k,
{
    if k > 0 {
        failures_in_a_row_end_the_loop(states, steps, k - 1);
        assert(is_capture(states[k - 1], false, states[k], steps[k - 1]));
    }
    assert(is_capture(states[k], false, states[k + 1], steps[k]));
}

/// A capture that succeeds lets the count of failures start over, and tells how many there
/// were. Only the first one of all is called the first.
pub proof fn success_starts_the_count_over(
    before: CaptureLoop,
    middle: CaptureLoop,
    after: CaptureLoop,
    first: CaptureStep,
    second: CaptureStep,
)
    requires
        is_capture(before, true, middle, first),
        is_capture(middle, true, after, second),
    ensures
        middle.errors() == 0,
        first == (CaptureStep::Encode {
            recovered_after: before.errors(),
            first: !before.capture_logged(),
        }),
        second == (CaptureStep::Encode { recovered_after: 0, first: false }),
{
}

/// What follows what came of the encoder.
pub open spec fn drain_step_for(
    drained: Drained,
    drained_any: bool,
    deadline_passed: bool,
) -> DrainStep {
    match drained {
        Drained::Frame => DrainStep::Again,
        Drained::Closed => DrainStep::Stop,
        Drained::Empty => if drained_any || deadline_passed {
            DrainStep::Done
        } else {
            DrainStep::Again
        },
        Drained::Failed => DrainStep::Stop,
    }
}

/// The encoder is asked until it has nothing more. Where it has had nothing yet in this turn
/// it is asked again until the deadline. The thread ends only where nobody takes frames any
/// more, or the encoder is gone.
pub proof fn encoder_is_drained(drained: Drained, drained_any: bool, deadline_passed: bool)
    ensures
        ({
            let step = drain_step_for(drained, drained_any, deadline_passed);
            &&& step == DrainStep::Stop <==> drained == Drained::Closed || drained
                == Drained::Failed
            &&& step == DrainStep::Done <==> drained == Drained::Empty && (drained_any
                || deadline_passed)
            &&& step == DrainStep::Again <==> drained == Drained::Frame || (drained
                == Drained::Empty && !drained_any && !deadline_passed)
        }),
{
}

} // verus!
