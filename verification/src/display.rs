//! Virtual X displays: resolutions, Xorg configuration, and the commands that
//! set a display up and take it down.

use crate::command::{display_command, plain_command, CommandPlan, Invocation};
use crate::double::{double_product, double_quotient, nearest_even, Double};
use crate::float_bits::{exponent_bits, scaled_size};
use crate::gpu::{
    detect_gpu, dummy_text, nvidia_outcome, opt_text, ConfigText, GpuConfig, NvidiaProbe,
};
use crate::text::{
    append_decimal, append_wide_decimal, behind_prefix, contains, decimal, first_word,
    first_word_of, has_prefix, i32_value, join, join_of, joined, lines, lines_of,
    numbered_texts_differ, occurs_in, parse_i32, same_text, texts, to_decimal, trim, trim_of,
    without_prefix,
};
use vstd::arithmetic::power2::{lemma2_to64, lemma2_to64_rest, lemma_pow2_adds, pow2};
use vstd::prelude::*;

verus! {

// ---------------------------------------------------------------------------
// Resolutions
// ---------------------------------------------------------------------------

/// One dimension of a resize request: not above the maximum (zero: none), not
/// below the minimum, and even.
pub open spec fn clamp_dimension(size: u32, max: u32, min: u32) -> int {
    let capped = if 0 < max < size {
        max
    } else {
        size
    };
    let usable = if capped < min {
        min
    } else {
        capped
    };
    usable - usable % 2
}

/// Rounds down to an even number.
fn round_to_even(n: u32) -> (r: u32)
    ensures
        r == n - n % 2,
{
    n - n % 2
}

/// Clamps and normalizes resize dimensions for use with xrandr and H.264.
/// `None` where the dimensions are out of the valid range (320..=7680,
/// 240..=4320). Otherwise clamps to `max_width` and `max_height` (zero means
/// unlimited), enforces the minimum 640x480, and rounds down to even numbers,
/// which H.264 requires.
pub fn clamp_resize_dimensions(w: u32, h: u32, max_width: u32, max_height: u32) -> (r: Option<
    (u32, u32),
>)
    ensures
        r is Some <==> 320 <= w <= 7680 && 240 <= h <= 4320,
        r matches Some((cw, ch)) ==> {
            &&& cw == clamp_dimension(w, max_width, 640)
            &&& ch == clamp_dimension(h, max_height, 480)
            &&& cw % 2 == 0 && ch % 2 == 0
            &&& cw >= 640 && ch >= 480
            &&& w >= 640 && (max_width == 0 || w <= max_width) ==> w - 1 <= cw <= w
            &&& h >= 480 && (max_height == 0 || h <= max_height) ==> h - 1 <= ch <= h
            &&& 640 <= max_width < w ==> max_width - 1 <= cw <= max_width
            &&& 480 <= max_height < h ==> max_height - 1 <= ch <= max_height
            &&& w < 640 || 0 < max_width < 640 ==> cw == 640
            &&& h < 480 || 0 < max_height < 480 ==> ch == 480
        },
{
    if w < 320 || w > 7680 || h < 240 || h > 4320 {
        return None;
    }
    let cw: u32 = if max_width > 0 && w > max_width {
        max_width
    } else {
        w
    };
    let ch: u32 = if max_height > 0 && h > max_height {
        max_height
    } else {
        h
    };
    let cw: u32 = if cw < 640 {
        640
    } else {
        cw
    };
    let ch: u32 = if ch < 480 {
        480
    } else {
        ch
    };
    Some((round_to_even(cw), round_to_even(ch)))
}

/// What a resize settles on is even, usable, within the maximum where that
/// leaves room for the minimum, and settled: asking for it again changes
/// nothing.
pub proof fn clamped_dimensions_are_settled(size: u32, max: u32, min: u32)
    requires
        min % 2 == 0,
    ensures
        clamp_dimension(size, max, min) % 2 == 0,
        clamp_dimension(size, max, min) >= min,
        max > 0 && max >= min ==> clamp_dimension(size, max, min) <= max,
        size >= min ==> clamp_dimension(size, max, min) <= size,
        clamp_dimension(clamp_dimension(size, max, min) as u32, max, min) == clamp_dimension(
            size,
            max,
            min,
        ),
{
}

/// A size that is usable is kept, but for an odd pixel. One above the maximum becomes the
/// maximum, but for an odd pixel, and one below the minimum the minimum.
pub proof fn usable_dimensions_are_kept(size: u32, max: u32, min: u32)
    requires
        min % 2 == 0,
    ensures
        size >= min && (max == 0 || size <= max) ==> size - 1 <= clamp_dimension(size, max, min)
            <= size,
        min <= max < size && max > 0 ==> max - 1 <= clamp_dimension(size, max, min) <= max,
        size < min || 0 < max < min ==> clamp_dimension(size, max, min) == min,
        min <= size && max == 0 && size % 2 == 0 ==> clamp_dimension(size, max, min) == size,
{
}

/// A mode's name, such as "1920x1080".
pub open spec fn mode_name_of(width: u32, height: u32) -> Seq<char> {
    decimal(width as nat) + "x"@ + decimal(height as nat)
}

/// A mode's name, such as "1920x1080".
pub fn mode_name(width: u32, height: u32) -> (r: String)
    ensures
        r@ == mode_name_of(width, height),
{
    let mut r: String = to_decimal(width as u64);
    r.append("x");
    append_decimal(&mut r, height as u64);
    r
}

/// The bits of 1.2: the pixels of a mode, blanking included, for each one that is
/// seen.
pub const BLANKING_FACTOR_BITS: u64 = 0x3FF3_3333_3333_3333;

/// The pixel clock of a mode in megahertz: 1.2 times the pixels per second, in
/// floating-point numbers, each step rounded.
pub open spec fn pixel_clock(width: u32, height: u32, refresh: u32) -> nat {
    let one = pow2(1074);
    let pixels = double_product(
        double_product(width as nat * one, height as nat * one),
        refresh as nat * one,
    );
    double_product(
        double_quotient(pixels, 1_000_000 * one),
        scaled_size(BLANKING_FACTOR_BITS),
    )
}

/// The pixel clock of a mode in hundredths of a megahertz, to the nearest.
pub open spec fn pixel_clock_hundredths(width: u32, height: u32, refresh: u32) -> nat {
    nearest_even(pixel_clock(width, height, refresh) * 100, pow2(1074))
}

/// The pixel clock of a mode in hundredths of a megahertz.
fn clock_hundredths(width: u32, height: u32, refresh: u32) -> (r: u128)
    ensures
        r == pixel_clock_hundredths(width, height, refresh),
{
    assert(exponent_bits(BLANKING_FACTOR_BITS) == 0x3FF);
    let factor: Double = Double::from_bits(BLANKING_FACTOR_BITS);
    proof {
        lemma2_to64();
        lemma2_to64_rest();
        lemma_pow2_adds(64, 22);
        lemma_pow2_adds(64, 43);
        assert(width * height <= 0xFFFF_FFFF * 0xFFFF_FFFF) by (nonlinear_arith)
            requires
                width <= 0xFFFF_FFFF,
                height <= 0xFFFF_FFFF,
        ;
    }
    let area: Double = Double::whole(width).times(Double::whole(height));
    assert(area.exponent <= 1074 + 12) by {
        assert(width * height < pow2(64));
    }
    assert(area.mantissa * refresh <= 0x20_0000_0000_0000 * 0xFFFF_FFFF) by (nonlinear_arith)
        requires
            area.mantissa < 0x20_0000_0000_0000,
            refresh <= 0xFFFF_FFFF,
    ;
    let pixels: Double = area.times(Double::whole(refresh));
    assert(pixels.exponent <= area.exponent + 34) by {
        assert(area.mantissa * refresh < pow2(86));
    }
    let per_micro: Double = pixels.over(Double::whole(1_000_000));
    assert(per_micro.mantissa * factor.mantissa <= 0x20_0000_0000_0000 * 0x20_0000_0000_0000)
        by (nonlinear_arith)
        requires
            per_micro.mantissa < 0x20_0000_0000_0000,
            factor.mantissa < 0x20_0000_0000_0000,
    ;
    let clock: Double = per_micro.times(factor);
    assert(clock.exponent <= 1134) by {
        assert(per_micro.mantissa * factor.mantissa < pow2(107));
    }
    clock.in_parts(100)
}

/// A number of hundredths, with two digits behind the point.
pub open spec fn hundredths_text(n: nat) -> Seq<char> {
    decimal(n / 100) + "."@ + decimal(n / 10 % 10) + decimal(n % 10)
}

/// The fields of a modeline: the pixel clock in megahertz, four horizontal and
/// four vertical timings and the sync polarities.
pub open spec fn modeline_fields(width: u32, height: u32, refresh: u32) -> Seq<Seq<char>> {
    seq![
        hundredths_text(pixel_clock_hundredths(width, height, refresh)),
        decimal(width as nat),
        decimal((width + 48) as nat),
        decimal((width + 80) as nat),
        decimal((width + 160) as nat),
        decimal(height as nat),
        decimal((height + 3) as nat),
        decimal((height + 8) as nat),
        decimal((height + 33) as nat),
        "+hsync"@,
        "+vsync"@,
    ]
}

/// A number of hundredths, with two digits behind the point.
fn hundredths(n: u128) -> (r: String)
    ensures
        r@ == hundredths_text(n as nat),
{
    let mut r: String = String::new();
    append_wide_decimal(&mut r, n / 100);
    assert(r@ =~= decimal(n as nat / 100));
    r.append(".");
    append_wide_decimal(&mut r, n / 10 % 10);
    append_wide_decimal(&mut r, n % 10);
    r
}

/// The fields of a modeline, by a simplified CVT calculation.
pub fn modeline_parts(width: u32, height: u32, refresh: u32) -> (r: Vec<String>)
    requires
        width + 160 <= u32::MAX,
        height + 33 <= u32::MAX,
    ensures
        texts(r@) == modeline_fields(width, height, refresh),
{
    let clock: u128 = clock_hundredths(width, height, refresh);
    let mut r: Vec<String> = Vec::new();
    r.push(hundredths(clock));
    r.push(to_decimal(width as u64));
    r.push(to_decimal(width as u64 + 48));
    r.push(to_decimal(width as u64 + 80));
    r.push(to_decimal(width as u64 + 160));
    r.push(to_decimal(height as u64));
    r.push(to_decimal(height as u64 + 3));
    r.push(to_decimal(height as u64 + 8));
    r.push(to_decimal(height as u64 + 33));
    r.push("+hsync".to_owned());
    r.push("+vsync".to_owned());
    assert(texts(r@) =~= modeline_fields(width, height, refresh));
    r
}

/// A modeline as one line of text.
pub open spec fn modeline_text(width: u32, height: u32, refresh: u32) -> Seq<char> {
    join_of(modeline_fields(width, height, refresh), " "@)
}

/// The modeline of a mode, as Xorg's configuration and xrandr take it.
pub fn generate_modeline(width: u32, height: u32, refresh: u32) -> (r: String)
    requires
        width + 160 <= u32::MAX,
        height + 33 <= u32::MAX,
    ensures
        r@ == modeline_text(width, height, refresh),
{
    join(&modeline_parts(width, height, refresh), " ")
}

// ---------------------------------------------------------------------------
// Paths
// ---------------------------------------------------------------------------

/// A text that ends in a number.
fn numbered(front: &str, n: u32) -> (r: String)
    ensures
        r@ == front@ + decimal(n as nat),
{
    let mut r: String = front.to_owned();
    append_decimal(&mut r, n as u64);
    r
}

/// A text with a number in it.
fn numbered_within(front: &str, n: u32, back: &str) -> (r: String)
    ensures
        r@ == front@ + decimal(n as nat) + back@,
{
    let mut r: String = numbered(front, n);
    r.append(back);
    r
}

/// The display's name, such as ":10".
pub fn display_name(display_num: u32) -> (r: String)
    ensures
        r@ == ":"@ + decimal(display_num as nat),
{
    numbered(":", display_num)
}

/// The display's PulseAudio runtime directory.
pub fn pulse_runtime_dir(display_num: u32) -> (r: String)
    ensures
        r@ == "/tmp/beam-pulse-"@ + decimal(display_num as nat),
{
    numbered("/tmp/beam-pulse-", display_num)
}

/// The display's PulseAudio configuration file.
pub fn pulse_config_path(display_num: u32) -> (r: String)
    ensures
        r@ == "/tmp/beam-pulse-"@ + decimal(display_num as nat) + ".pa"@,
{
    numbered_within("/tmp/beam-pulse-", display_num, ".pa")
}

/// XDG_RUNTIME_DIR of the display's desktop session.
pub fn xdg_runtime_dir(display_num: u32) -> (r: String)
    ensures
        r@ == "/tmp/beam-run-"@ + decimal(display_num as nat),
{
    numbered("/tmp/beam-run-", display_num)
}

/// The display's keyring control directory.
pub fn keyring_control_dir(display_num: u32) -> (r: String)
    ensures
        r@ == "/tmp/beam-keyring-"@ + decimal(display_num as nat),
{
    numbered("/tmp/beam-keyring-", display_num)
}

/// The file that Xorg's standard error goes to.
pub fn xorg_stderr_log_path(display_num: u32) -> (r: String)
    ensures
        r@ == "/tmp/beam-xorg-stderr-"@ + decimal(display_num as nat) + ".log"@,
{
    numbered_within("/tmp/beam-xorg-stderr-", display_num, ".log")
}

/// The display's temporary Xorg configuration, for where there is no static one.
pub fn tmp_xorg_config_path(display_num: u32) -> (r: String)
    ensures
        r@ == "/tmp/beam-xorg-"@ + decimal(display_num as nat) + ".conf"@,
{
    numbered_within("/tmp/beam-xorg-", display_num, ".conf")
}

/// X's lock file for the display.
pub fn x_lock_path(display_num: u32) -> (r: String)
    ensures
        r@ == "/tmp/.X"@ + decimal(display_num as nat) + "-lock"@,
{
    numbered_within("/tmp/.X", display_num, "-lock")
}

/// Where the display's session keeps its desktop configuration when the home
/// directory cannot hold it.
pub fn fallback_config_dir(display_num: u32) -> (r: String)
    ensures
        r@ == "/tmp/beam-xfce-"@ + decimal(display_num as nat),
{
    numbered("/tmp/beam-xfce-", display_num)
}

/// The keyring data directory under the home directory. It lasts from session
/// to session, so stored credentials survive.
pub fn keyring_data_dir(home: &str) -> (r: String)
    ensures
        r@ == home@ + "/.local/share/beam/keyring"@,
{
    joined(home, "/.local/share/beam/keyring")
}

/// The directory of the keyrings themselves.
pub fn keyrings_dir(home: &str) -> (r: String)
    ensures
        r@ == home@ + "/.local/share/beam/keyring"@ + "/keyrings"@,
{
    joined(keyring_data_dir(home).as_str(), "/keyrings")
}

/// The address of the display's PulseAudio socket, for `PULSE_SERVER`: the
/// socket `native` in the display's runtime directory.
pub fn pulse_server_socket_url(display_num: u32) -> (r: String)
    ensures
        r@ == "unix:"@ + ("/tmp/beam-pulse-"@ + decimal(display_num as nat)) + "/native"@,
{
    let mut r: String = joined("unix:", pulse_runtime_dir(display_num).as_str());
    r.append("/native");
    r
}

/// The systemd user bus of a user.
pub fn systemd_user_bus_path(uid: u32) -> (r: String)
    ensures
        r@ == "/run/user/"@ + decimal(uid as nat) + "/bus"@,
{
    numbered_within("/run/user/", uid, "/bus")
}

/// The address of a user's systemd user bus.
pub fn systemd_user_bus_address(uid: u32) -> (r: String)
    ensures
        r@ == "unix:path="@ + ("/run/user/"@ + decimal(uid as nat) + "/bus"@),
{
    joined("unix:path=", systemd_user_bus_path(uid).as_str())
}

/// Two displays never share a path that one of them cleans up.
pub proof fn display_paths_are_distinct(a: u32, b: u32)
    requires
        a != b,
    ensures
        "/tmp/beam-pulse-"@ + decimal(a as nat) != "/tmp/beam-pulse-"@ + decimal(b as nat),
        "/tmp/beam-pulse-"@ + decimal(a as nat) + ".pa"@ != "/tmp/beam-pulse-"@ + decimal(b as nat)
            + ".pa"@,
        "/tmp/beam-run-"@ + decimal(a as nat) != "/tmp/beam-run-"@ + decimal(b as nat),
        "/tmp/beam-keyring-"@ + decimal(a as nat) != "/tmp/beam-keyring-"@ + decimal(b as nat),
        "/tmp/beam-xorg-"@ + decimal(a as nat) + ".conf"@ != "/tmp/beam-xorg-"@ + decimal(b as nat)
            + ".conf"@,
{
    numbered_texts_differ("/tmp/beam-pulse-"@, a as nat, b as nat, ".pa"@);
    numbered_texts_differ("/tmp/beam-run-"@, a as nat, b as nat, ".pa"@);
    numbered_texts_differ("/tmp/beam-keyring-"@, a as nat, b as nat, ".pa"@);
    numbered_texts_differ("/tmp/beam-xorg-"@, a as nat, b as nat, ".conf"@);
}

// ---------------------------------------------------------------------------
// Configuration files
// ---------------------------------------------------------------------------

/// The PulseAudio configuration up to the directory of its socket.
pub const PULSE_CONFIG_HEAD: &'static str = "\
load-module module-null-sink sink_name=beam sink_properties=device.description=Beam
set-default-sink beam
load-module module-native-protocol-unix socket=";

/// The PulseAudio configuration behind the directory of its socket.
pub const PULSE_CONFIG_TAIL: &'static str = "/native auth-anonymous=1
load-module module-always-sink
";

/// A PulseAudio configuration with a null sink, whose monitor the agent captures
/// from, and a socket in the given directory, apart from any PulseAudio of the
/// user's own.
pub fn pa_config(runtime_dir: &str) -> (r: String)
    ensures
        r@ == PULSE_CONFIG_HEAD@ + runtime_dir@ + PULSE_CONFIG_TAIL@,
{
    let mut r: String = joined(PULSE_CONFIG_HEAD, runtime_dir);
    r.append(PULSE_CONFIG_TAIL);
    r
}

/// The NVIDIA Xorg configuration up to the bus id.
pub const NVIDIA_CONF_BUS_ID: &'static str = r#"# Beam Virtual Display - NVIDIA GPU-accelerated
# Generated dynamically by beam-agent

Section "Device"
    Identifier  "Beam NVIDIA GPU"
    Driver      "nvidia"
    BusID       ""#;

/// ... from there to the connected monitor.
pub const NVIDIA_CONF_MONITOR: &'static str = r#""
    Option      "ConnectedMonitor" ""#;

/// ... from there to the output of the custom EDID.
pub const NVIDIA_CONF_EDID: &'static str = r#""
    Option      "CustomEDID" ""#;

/// ... from there to the path of the custom EDID.
pub const NVIDIA_CONF_EDID_PATH: &'static str = r#":"#;

/// ... from there to its end.
pub const NVIDIA_CONF_TAIL: &'static str = r#""
    Option      "AllowEmptyInitialConfiguration" "True"
EndSection

Section "Monitor"
    Identifier  "Beam Monitor"
    HorizSync   1-200
    VertRefresh 1-200
EndSection

Section "Screen"
    Identifier  "Beam Screen"
    Device      "Beam NVIDIA GPU"
    Monitor     "Beam Monitor"
    DefaultDepth 24
    SubSection "Display"
        Depth   24
    EndSubSection
EndSection

Section "ServerFlags"
    Option "AutoAddDevices" "false"
    Option "AutoEnableDevices" "false"
    Option "AutoAddGPU" "false"
    Option "DontVTSwitch" "true"
EndSection

Section "ServerLayout"
    Identifier  "Beam Layout"
    Screen      "Beam Screen"
    Option "AutoAddDevices" "false"
EndSection
"#;

/// The dummy Xorg configuration up to the name in its modeline. The video memory
/// covers the largest resolution that the display may change to.
pub const DUMMY_CONF_MODELINE: &'static str = r#"Section "Device"
    Identifier  "Beam Virtual GPU"
    Driver      "dummy"
    VideoRam    262144
EndSection

Section "Monitor"
    Identifier  "Beam Monitor"
    HorizSync   1-200
    VertRefresh 1-200
    Modeline    ""#;

/// ... from there to the timings.
pub const DUMMY_CONF_TIMINGS: &'static str = r#"" "#;

/// ... from there to the list of modes.
pub const DUMMY_CONF_MODES: &'static str = r#"
EndSection

Section "Screen"
    Identifier  "Beam Screen"
    Device      "Beam Virtual GPU"
    Monitor     "Beam Monitor"
    DefaultDepth 24
    SubSection "Display"
        Depth   24
        Virtual 7680 4320
        Modes   ""#;

/// ... from there to its end.
pub const DUMMY_CONF_TAIL: &'static str = r#""
    EndSubSection
EndSection

Section "ServerFlags"
    Option "AutoAddDevices" "false"
    Option "AutoEnableDevices" "false"
    Option "DontVTSwitch" "true"
EndSection

Section "ServerLayout"
    Identifier  "Beam Layout"
    Screen      "Beam Screen"
    Option "AutoAddDevices" "false"
EndSection
"#;

/// The Xorg configuration for the NVIDIA driver.
pub open spec fn nvidia_xorg_config(
    bus_id: Seq<char>,
    dfp_output: Seq<char>,
    edid_path: Seq<char>,
) -> Seq<char> {
    NVIDIA_CONF_BUS_ID@ + bus_id + NVIDIA_CONF_MONITOR@ + dfp_output + NVIDIA_CONF_EDID@
        + dfp_output + NVIDIA_CONF_EDID_PATH@ + edid_path + NVIDIA_CONF_TAIL@
}

/// Generates an Xorg configuration for the proprietary NVIDIA driver, with
/// ConnectedMonitor and CustomEDID for a headless display.
pub fn generate_nvidia_xorg_config(bus_id: &str, dfp_output: &str, edid_path: &str) -> (r: String)
    ensures
        r@ == nvidia_xorg_config(bus_id@, dfp_output@, edid_path@),
{
    let mut r: String = joined(NVIDIA_CONF_BUS_ID, bus_id);
    r.append(NVIDIA_CONF_MONITOR);
    r.append(dfp_output);
    r.append(NVIDIA_CONF_EDID);
    r.append(dfp_output);
    r.append(NVIDIA_CONF_EDID_PATH);
    r.append(edid_path);
    r.append(NVIDIA_CONF_TAIL);
    r
}

/// The Xorg configuration for the dummy driver.
pub open spec fn dummy_xorg_config(width: u32, height: u32) -> Seq<char> {
    DUMMY_CONF_MODELINE@ + mode_name_of(width, height) + DUMMY_CONF_TIMINGS@ + modeline_text(
        width,
        height,
        60,
    ) + DUMMY_CONF_MODES@ + mode_name_of(width, height) + DUMMY_CONF_TAIL@
}

/// Generates an Xorg configuration for the dummy driver, with a modeline for
/// the requested resolution.
pub fn generate_xorg_config(width: u32, height: u32) -> (r: String)
    requires
        width + 160 <= u32::MAX,
        height + 33 <= u32::MAX,
    ensures
        r@ == dummy_xorg_config(width, height),
{
    let name: String = mode_name(width, height);
    let mut r: String = joined(DUMMY_CONF_MODELINE, name.as_str());
    r.append(DUMMY_CONF_TIMINGS);
    r.append(generate_modeline(width, height, 60).as_str());
    r.append(DUMMY_CONF_MODES);
    r.append(name.as_str());
    r.append(DUMMY_CONF_TAIL);
    r
}

// ---------------------------------------------------------------------------
// Starting Xorg
// ---------------------------------------------------------------------------

/// The Xorg configuration that a package installs.
pub const STATIC_CONFIG: &'static str = "/etc/X11/beam-xorg.conf";

/// Where generated configurations go that Xorg's setuid wrapper must accept.
pub const BEAM_CONF_DIR: &'static str = "/etc/X11/beam";

/// The files that a display's Xorg needs.
#[derive(Debug, Clone)]
pub struct DisplaySetup {
    /// The configuration that Xorg is started with.
    pub config_path: String,
    /// What to write there; `None` where the file is there already.
    pub config_text: Option<String>,
    /// Where to write the EDID block, for NVIDIA GPUs.
    pub edid_path: Option<String>,
}

/// What a display setup says, as plain text.
pub struct SetupText {
    pub config_path: Seq<char>,
    pub config_text: Option<Seq<char>>,
    pub edid_path: Option<Seq<char>>,
}

impl View for DisplaySetup {
    type V = SetupText;

    open spec fn view(&self) -> SetupText {
        SetupText {
            config_path: self.config_path@,
            config_text: opt_text(self.config_text),
            edid_path: opt_text(self.edid_path),
        }
    }
}

/// A text, or another where there is none.
pub open spec fn text_or(t: Option<Seq<char>>, default: Seq<char>) -> Seq<char> {
    match t {
        Some(t) => t,
        None => default,
    }
}

/// The setup of a display: a generated configuration and an EDID block for an
/// NVIDIA GPU, else the static configuration where it is installed, else a
/// temporary one for the dummy driver.
pub open spec fn display_setup(
    gpu: ConfigText,
    display_num: u32,
    width: u32,
    height: u32,
    static_config_exists: bool,
) -> SetupText {
    if gpu.driver == "nvidia"@ {
        let edid_path = BEAM_CONF_DIR@ + "/beam-edid-"@ + decimal(display_num as nat) + ".bin"@;
        SetupText {
            config_path: BEAM_CONF_DIR@ + "/beam-xorg-"@ + decimal(display_num as nat) + ".conf"@,
            config_text: Some(
                nvidia_xorg_config(
                    text_or(gpu.bus_id, "PCI:0:0:0"@),
                    text_or(gpu.dfp_output, "DFP-1"@),
                    edid_path,
                ),
            ),
            edid_path: Some(edid_path),
        }
    } else if static_config_exists {
        SetupText { config_path: STATIC_CONFIG@, config_text: None, edid_path: None }
    } else {
        SetupText {
            config_path: "/tmp/beam-xorg-"@ + decimal(display_num as nat) + ".conf"@,
            config_text: Some(dummy_xorg_config(width, height)),
            edid_path: None,
        }
    }
}

/// The GPU configuration that a driver mode leads to on a host.
pub open spec fn gpu_for(
    gpu_driver: Seq<char>,
    display_num: u32,
    display_start: u32,
    probe: NvidiaProbe,
) -> ConfigText {
    if gpu_driver == "dummy"@ {
        dummy_text()
    } else {
        match nvidia_outcome(probe, display_num, display_start) {
            Ok(text) => text,
            Err(_) => dummy_text(),
        }
    }
}

/// Resolves which Xorg binary to start and the configuration argument for it.
///
/// A configuration under `/etc/X11/` goes to the `Xorg` wrapper (setuid, for
/// VT management) as a path relative to `/etc/X11/`. Any other goes as the
/// path itself, to the binary at `/usr/lib/xorg/Xorg` where that exists.
pub open spec fn xorg_invocation(
    config_path: Seq<char>,
    direct_xorg_binary_exists: bool,
) -> (Seq<char>, Seq<char>) {
    match behind_prefix(config_path, "/etc/X11/"@) {
        Some(relative) => ("Xorg"@, relative),
        None => (
            if direct_xorg_binary_exists {
                "/usr/lib/xorg/Xorg"@
            } else {
                "Xorg"@
            },
            config_path,
        ),
    }
}

/// Resolves which Xorg binary to start and the configuration argument for it.
pub fn resolve_xorg_invocation(config_path: &str, direct_xorg_binary_exists: bool) -> (r: (
    String,
    String,
))
    ensures
        (r.0@, r.1@) == xorg_invocation(config_path@, direct_xorg_binary_exists),
{
    match without_prefix(config_path, "/etc/X11/") {
        Some(relative) => ("Xorg".to_owned(), relative.to_owned()),
        None => {
            let bin: String = if direct_xorg_binary_exists {
                "/usr/lib/xorg/Xorg".to_owned()
            } else {
                "Xorg".to_owned()
            };
            (bin, config_path.to_owned())
        },
    }
}

/// Whether an Xorg configuration is a temporary one, to be deleted with its
/// display. Configurations of a package stay.
pub fn xorg_config_needs_cleanup(config_path: &str) -> (r: bool)
    ensures
        r == "/tmp/"@.is_prefix_of(config_path@),
{
    has_prefix(config_path, "/tmp/")
}

/// The configuration to delete when a display goes: a temporary one.
pub open spec fn doomed_config_of(config_path: Seq<char>) -> Option<Seq<char>> {
    if "/tmp/"@.is_prefix_of(config_path) {
        Some(config_path)
    } else {
        None
    }
}

/// How Xorg is started on a display, and what follows once it runs.
#[derive(Debug, Clone)]
pub struct XorgLaunch {
    pub command: CommandPlan,
    /// The file for Xorg's standard error.
    pub log_path: String,
    /// Whether the requested resolution is set by xrandr: the static
    /// configuration has no modeline for it.
    pub set_initial_resolution: bool,
    /// Makes the X server use the `evdev` rules, under which the injected key
    /// codes have the right meaning.
    pub keymap_command: CommandPlan,
    /// The configuration to delete when the display goes.
    pub cleanup_config: Option<String>,
}

/// Xorg's arguments.
pub open spec fn xorg_args(display_num: u32, config_arg: Seq<char>) -> Seq<Seq<char>> {
    seq![
        ":"@ + decimal(display_num as nat),
        "-config"@,
        config_arg,
        "-noreset"@,
        "-novtswitch"@,
        "-nolisten"@,
        "tcp"@,
    ]
}

/// A virtual X display with the dummy or the NVIDIA video driver, as far as it
/// is known once Xorg runs.
#[derive(Debug, Clone)]
pub struct VirtualDisplay {
    display_num: u32,
    output_name: String,
    cleanup_config: Option<String>,
    cleanup_edid: Option<String>,
}

impl VirtualDisplay {
    /// The display's number.
    pub closed spec fn number(self) -> u32 {
        self.display_num
    }

    /// The xrandr output's name.
    pub closed spec fn output(self) -> Seq<char> {
        self.output_name@
    }

    /// The Xorg configuration to delete when the display goes.
    pub closed spec fn doomed_config(self) -> Option<Seq<char>> {
        opt_text(self.cleanup_config)
    }

    /// The EDID file to delete when the display goes.
    pub closed spec fn doomed_edid(self) -> Option<Seq<char>> {
        opt_text(self.cleanup_edid)
    }

    /// Prepares a new virtual display on the given number.
    ///
    /// `gpu_driver` controls the Xorg driver: "auto" (detect), "nvidia" or
    /// "dummy" (force). `display_start` is the first display of the range over
    /// which GPUs are spread.
    pub fn start(
        display_num: u32,
        width: u32,
        height: u32,
        gpu_driver: &str,
        display_start: u32,
        probe: &NvidiaProbe,
        static_config_exists: bool,
    ) -> (r: DisplaySetup)
        requires
            gpu_for(gpu_driver@, display_num, display_start, *probe).driver == "nvidia"@
                || static_config_exists || (width + 160 <= u32::MAX && height + 33 <= u32::MAX),
        ensures
            r@ == display_setup(
                gpu_for(gpu_driver@, display_num, display_start, *probe),
                display_num,
                width,
                height,
                static_config_exists,
            ),
    {
        let gpu: GpuConfig = detect_gpu(gpu_driver, display_num, display_start, probe);
        if same_text(gpu.driver.as_str(), "nvidia") {
            let bus_id: &str = match &gpu.bus_id {
                Some(id) => id.as_str(),
                None => "PCI:0:0:0",
            };
            let dfp_output: &str = match &gpu.dfp_output {
                Some(dfp) => dfp.as_str(),
                None => "DFP-1",
            };
            let edid_path: String = numbered_within(
                joined(BEAM_CONF_DIR, "/beam-edid-").as_str(),
                display_num,
                ".bin",
            );
            let config: String = generate_nvidia_xorg_config(
                bus_id,
                dfp_output,
                edid_path.as_str(),
            );
            let config_path: String = numbered_within(
                joined(BEAM_CONF_DIR, "/beam-xorg-").as_str(),
                display_num,
                ".conf",
            );
            DisplaySetup { config_path, config_text: Some(config), edid_path: Some(edid_path) }
        } else if static_config_exists {
            DisplaySetup {
                config_path: STATIC_CONFIG.to_owned(),
                config_text: None,
                edid_path: None,
            }
        } else {
            DisplaySetup {
                config_path: tmp_xorg_config_path(display_num),
                config_text: Some(generate_xorg_config(width, height)),
                edid_path: None,
            }
        }
    }

    /// How to start Xorg on a display with the given configuration.
    pub fn start_with_config(
        display_num: u32,
        config_path: &str,
        direct_xorg_binary_exists: bool,
    ) -> (r: XorgLaunch)
        ensures
            r.command@ == plain_command(
                xorg_invocation(config_path@, direct_xorg_binary_exists).0,
                xorg_args(
                    display_num,
                    xorg_invocation(config_path@, direct_xorg_binary_exists).1,
                ),
            ),
            r.log_path@ == "/tmp/beam-xorg-stderr-"@ + decimal(display_num as nat) + ".log"@,
            r.set_initial_resolution == (config_path@ == STATIC_CONFIG@),
            r.keymap_command@ == display_command(
                "setxkbmap"@,
                seq!["-rules"@, "evdev"@, "-model"@, "pc105"@, "-layout"@, "us"@],
                ":"@ + decimal(display_num as nat),
            ),
            opt_text(r.cleanup_config) == doomed_config_of(config_path@),
    {
        let display: String = display_name(display_num);
        let (bin, config_arg) = resolve_xorg_invocation(config_path, direct_xorg_binary_exists);
        let mut command = CommandPlan::new(bin.as_str());
        command.arg(display.as_str());
        command.arg("-config");
        command.arg(config_arg.as_str());
        command.arg("-noreset");
        command.arg("-novtswitch");
        command.arg("-nolisten");
        command.arg("tcp");
        let mut keymap_command = CommandPlan::new("setxkbmap");
        keymap_command.arg("-rules");
        keymap_command.arg("evdev");
        keymap_command.arg("-model");
        keymap_command.arg("pc105");
        keymap_command.arg("-layout");
        keymap_command.arg("us");
        keymap_command.env("DISPLAY", display.as_str());
        let cleanup_config: Option<String> = if xorg_config_needs_cleanup(config_path) {
            Some(config_path.to_owned())
        } else {
            None
        };
        XorgLaunch {
            command,
            log_path: xorg_stderr_log_path(display_num),
            set_initial_resolution: same_text(config_path, STATIC_CONFIG),
            keymap_command,
            cleanup_config,
        }
    }

    /// The display once Xorg runs.
    pub fn running(
        display_num: u32,
        output_name: String,
        cleanup_config: Option<String>,
        cleanup_edid: Option<String>,
    ) -> (r: Self)
        ensures
            r.number() == display_num,
            r.output() == output_name@,
            r.doomed_config() == opt_text(cleanup_config),
            r.doomed_edid() == opt_text(cleanup_edid),
    {
        VirtualDisplay { display_num, output_name, cleanup_config, cleanup_edid }
    }

    /// The display's number.
    pub fn display_num(&self) -> (r: u32)
        ensures
            r == self.number(),
    {
        self.display_num
    }

    /// The xrandr output's name, e.g. "DUMMY0" or "DFP-1".
    pub fn output_name(&self) -> (r: &str)
        ensures
            r@ == self.output(),
    {
        self.output_name.as_str()
    }

    /// How to change the display's resolution with xrandr.
    pub fn set_resolution(&self, width: u32, height: u32) -> (r: ResolutionPlan)
        requires
            width + 160 <= u32::MAX,
            height + 33 <= u32::MAX,
        ensures
            r@ == resolution_commands(
                ":"@ + decimal(self.number() as nat),
                width,
                height,
                self.output(),
            ),
    {
        set_display_resolution(
            display_name(self.display_num).as_str(),
            width,
            height,
            self.output_name.as_str(),
        )
    }

    /// How to start the display's PulseAudio daemon: apart from any that the user
    /// runs, with its socket, state and runtime files in a directory of its own.
    pub fn start_pulseaudio(&self) -> (r: PulseLaunch)
        ensures
            r.runtime_dir@ == "/tmp/beam-pulse-"@ + decimal(self.number() as nat),
            r.config_path@ == "/tmp/beam-pulse-"@ + decimal(self.number() as nat) + ".pa"@,
            r.config_text@ == PULSE_CONFIG_HEAD@ + r.runtime_dir@ + PULSE_CONFIG_TAIL@,
            r.command@ == (Invocation {
                program: "pulseaudio"@,
                args: seq![
                    "--daemonize=no"@,
                    "--exit-idle-time=-1"@,
                    "-n"@,
                    "-F"@,
                    r.config_path@,
                ],
                env: seq![
                    ("PULSE_RUNTIME_PATH"@, r.runtime_dir@),
                    ("PULSE_STATE_PATH"@, r.runtime_dir@),
                    ("XDG_RUNTIME_DIR"@, r.runtime_dir@),
                ],
                env_remove: seq!["DBUS_SESSION_BUS_ADDRESS"@],
            }),
    {
        let runtime_dir: String = pulse_runtime_dir(self.display_num);
        let config_path: String = pulse_config_path(self.display_num);
        let mut command = CommandPlan::new("pulseaudio");
        command.arg("--daemonize=no");
        command.arg("--exit-idle-time=-1");
        command.arg("-n");
        command.arg("-F");
        command.arg(config_path.as_str());
        command.env("PULSE_RUNTIME_PATH", runtime_dir.as_str());
        command.env("PULSE_STATE_PATH", runtime_dir.as_str());
        command.env("XDG_RUNTIME_DIR", runtime_dir.as_str());
        command.unset("DBUS_SESSION_BUS_ADDRESS");
        let config_text: String = pa_config(runtime_dir.as_str());
        PulseLaunch { runtime_dir, config_path, config_text, command }
    }

    /// The commands that hide the X cursor, to be tried in order until one can
    /// be started. `unclutter-xfixes` comes first: it causes no synthetic events.
    pub fn hide_cursor(&self, has_unclutter_xfixes: bool, has_unclutter: bool) -> (r: Vec<
        CommandPlan,
    >)
        ensures
            r@.map_values(|c: CommandPlan| c@) == cursor_hiders(
                self.number(),
                has_unclutter_xfixes,
                has_unclutter,
            ),
    {
        let display: String = display_name(self.display_num);
        let mut r: Vec<CommandPlan> = Vec::new();
        if has_unclutter_xfixes {
            let mut xfixes = CommandPlan::new("unclutter-xfixes");
            xfixes.arg("--timeout");
            xfixes.arg("0");
            xfixes.env("DISPLAY", display.as_str());
            assert(xfixes@ =~= display_command(
                "unclutter-xfixes"@,
                seq!["--timeout"@, "0"@],
                display@,
            ));
            r.push(xfixes);
        }
        if has_unclutter {
            let mut classic = CommandPlan::new("unclutter");
            classic.arg("-idle");
            classic.arg("1");
            classic.arg("-root");
            classic.env("DISPLAY", display.as_str());
            assert(classic@ =~= display_command(
                "unclutter"@,
                seq!["-idle"@, "1"@, "-root"@],
                display@,
            ));
            r.push(classic);
        }
        assert(r@.map_values(|c: CommandPlan| c@) =~= cursor_hiders(
            self.number(),
            has_unclutter_xfixes,
            has_unclutter,
        ));
        r
    }

    /// What to do, in order, when the display goes. The desktop's configuration
    /// and the keyring's data stay.
    pub fn teardown(&self) -> (r: Vec<TeardownStep>)
        ensures
            r@.map_values(|step: TeardownStep| step@) == teardown_steps(
                self.number(),
                self.doomed_config(),
                self.doomed_edid(),
            ),
    {
        let mut r: Vec<TeardownStep> = Vec::new();
        r.push(TeardownStep::Stop(Process::CursorHider));
        r.push(TeardownStep::Stop(Process::PulseAudio));
        r.push(TeardownStep::Stop(Process::DesktopGroup));
        r.push(TeardownStep::Stop(Process::Xorg));
        match &self.cleanup_config {
            Some(path) => {
                r.push(TeardownStep::RemoveFile(path.clone()));
            },
            None => {},
        }
        match &self.cleanup_edid {
            Some(path) => {
                r.push(TeardownStep::RemoveFile(path.clone()));
            },
            None => {},
        }
        r.push(TeardownStep::RemoveDir(pulse_runtime_dir(self.display_num)));
        r.push(TeardownStep::RemoveFile(pulse_config_path(self.display_num)));
        r.push(TeardownStep::RemoveDir(keyring_control_dir(self.display_num)));
        r.push(TeardownStep::RemoveDir(xdg_runtime_dir(self.display_num)));
        assert(r@.map_values(|step: TeardownStep| step@) =~= teardown_steps(
            self.number(),
            self.doomed_config(),
            self.doomed_edid(),
        ));
        r
    }
}

/// How PulseAudio is started for a display.
#[derive(Debug, Clone)]
pub struct PulseLaunch {
    /// A directory to create anew.
    pub runtime_dir: String,
    pub config_path: String,
    /// What to write to `config_path`.
    pub config_text: String,
    pub command: CommandPlan,
}

/// The commands that hide a display's cursor.
pub open spec fn cursor_hiders(
    display_num: u32,
    has_unclutter_xfixes: bool,
    has_unclutter: bool,
) -> Seq<Invocation> {
    let display = ":"@ + decimal(display_num as nat);
    let xfixes = display_command("unclutter-xfixes"@, seq!["--timeout"@, "0"@], display);
    let classic = display_command("unclutter"@, seq!["-idle"@, "1"@, "-root"@], display);
    (if has_unclutter_xfixes {
        seq![xfixes]
    } else {
        Seq::empty()
    }) + (if has_unclutter {
        seq![classic]
    } else {
        Seq::empty()
    })
}

/// The processes of a display.
#[derive(Debug, Clone, Copy, PartialEq, Eq, Structural)]
pub enum Process {
    CursorHider,
    PulseAudio,
    /// The desktop session with all processes of its group.
    DesktopGroup,
    Xorg,
}

/// One step of taking a display down.
#[derive(Debug, Clone, PartialEq, Eq)]
pub enum TeardownStep {
    Stop(Process),
    RemoveFile(String),
    RemoveDir(String),
}

/// What a step says, as plain text.
pub enum StepText {
    Stop(Process),
    RemoveFile(Seq<char>),
    RemoveDir(Seq<char>),
}

impl View for TeardownStep {
    type V = StepText;

    open spec fn view(&self) -> StepText {
        match *self {
            TeardownStep::Stop(process) => StepText::Stop(process),
            TeardownStep::RemoveFile(path) => StepText::RemoveFile(path@),
            TeardownStep::RemoveDir(path) => StepText::RemoveDir(path@),
        }
    }
}

/// The step that removes a file, where there is one.
pub open spec fn removal_of(path: Option<Seq<char>>) -> Seq<StepText> {
    match path {
        Some(p) => seq![StepText::RemoveFile(p)],
        None => Seq::empty(),
    }
}

/// The steps of taking a display down: processes first, Xorg last among them,
/// then the files.
pub open spec fn teardown_steps(
    display_num: u32,
    config: Option<Seq<char>>,
    edid: Option<Seq<char>>,
) -> Seq<StepText> {
    let n = decimal(display_num as nat);
    seq![
        StepText::Stop(Process::CursorHider),
        StepText::Stop(Process::PulseAudio),
        StepText::Stop(Process::DesktopGroup),
        StepText::Stop(Process::Xorg),
    ] + removal_of(config) + removal_of(edid) + seq![
        StepText::RemoveDir("/tmp/beam-pulse-"@ + n),
        StepText::RemoveFile("/tmp/beam-pulse-"@ + n + ".pa"@),
        StepText::RemoveDir("/tmp/beam-keyring-"@ + n),
        StepText::RemoveDir("/tmp/beam-run-"@ + n),
    ]
}

/// Taking a display down deletes the configuration that was made for it, where
/// that is a temporary one, and never the one that a package installed.
pub proof fn teardown_spares_the_package(
    gpu: ConfigText,
    display_num: u32,
    width: u32,
    height: u32,
    static_config_exists: bool,
)
    ensures
        ({
            let setup = display_setup(gpu, display_num, width, height, static_config_exists);
            let steps = teardown_steps(
                display_num,
                doomed_config_of(setup.config_path),
                setup.edid_path,
            );
            &&& gpu.driver != "nvidia"@ && !static_config_exists ==> steps.contains(
                StepText::RemoveFile(setup.config_path),
            )
            &&& setup.edid_path matches Some(edid) ==> steps.contains(StepText::RemoveFile(edid))
            &&& !steps.contains(StepText::RemoveFile(STATIC_CONFIG@))
        }),
{
    let setup = display_setup(gpu, display_num, width, height, static_config_exists);
    let config = doomed_config_of(setup.config_path);
    let steps = teardown_steps(display_num, config, setup.edid_path);
    let n = decimal(display_num as nat);
    reveal_strlit("/tmp/");
    reveal_strlit("/tmp/beam-xorg-");
    reveal_strlit("/tmp/beam-pulse-");
    reveal_strlit("/etc/X11/beam-xorg.conf");
    reveal_strlit("/etc/X11/beam");
    reveal_strlit("/beam-edid-");
    if gpu.driver != "nvidia"@ && !static_config_exists {
        assert("/tmp/"@.is_prefix_of(setup.config_path)) by {
            assert(setup.config_path.subrange(0, 5) =~= "/tmp/"@);
        }
        assert(steps[4] == StepText::RemoveFile(setup.config_path));
    }
    if let Some(edid) = setup.edid_path {
        assert(steps[4 + removal_of(config).len() as int] == StepText::RemoveFile(edid));
        assert(edid[13] == '/');
        assert(STATIC_CONFIG@[13] == '-');
    }
    assert forall|i: int| 0 <= i < steps.len() implies steps[i] != StepText::RemoveFile(
        STATIC_CONFIG@,
    ) by {
        assert(("/tmp/beam-pulse-"@ + n + ".pa"@)[1] == 't');
        assert(STATIC_CONFIG@[1] == 'e');
        if let Some(path) = config {
            assert(path[1] == "/tmp/"@[1]);
        }
    }
}

/// What is known of a child process.
#[derive(Debug, Clone, Copy, PartialEq, Eq, Structural)]
pub enum ChildState {
    Running,
    Exited,
    /// Its state could not be found out.
    Unknown,
}

/// Whether to signal a child process: only one that still runs, since its
/// number may belong to another process once it has exited.
pub fn should_signal_child(state: ChildState) -> (r: bool)
    ensures
        r == (state == ChildState::Running),
{
    match state {
        ChildState::Running => true,
        _ => false,
    }
}

/// The process in X's lock file, where the file names one.
pub fn lock_file_pid(contents: &str) -> (r: Option<i32>)
    ensures
        r == i32_value(trim_of(contents@)),
{
    parse_i32(trim(contents))
}

// ---------------------------------------------------------------------------
// xrandr
// ---------------------------------------------------------------------------

/// The xrandr output of a display whose own is not known.
pub const DEFAULT_OUTPUT_NAME: &'static str = "DUMMY0";

/// How often xrandr is asked before a display counts as not ready.
pub const XRANDR_ATTEMPTS: u32 = 10;

/// How long to wait between two attempts, in milliseconds.
pub const XRANDR_RETRY_MS: u64 = 200;

/// What follows one attempt to reach a display with xrandr.
#[derive(Debug, Clone, Copy, PartialEq, Eq, Structural)]
pub enum ProbeStep {
    Ready,
    /// Wait and try again.
    Retry,
    GiveUp,
}

/// What follows the attempt of the given number, counted from zero.
pub fn probe_step(attempt: u32, succeeded: bool) -> (r: ProbeStep)
    ensures
        r == (if succeeded {
            ProbeStep::Ready
        } else if attempt + 1 < XRANDR_ATTEMPTS {
            ProbeStep::Retry
        } else {
            ProbeStep::GiveUp
        }),
{
    if succeeded {
        ProbeStep::Ready
    } else if attempt < XRANDR_ATTEMPTS - 1 {
        ProbeStep::Retry
    } else {
        ProbeStep::GiveUp
    }
}

/// Whether what xrandr printed means only that the mode is there already, as
/// happens when a resolution is set again.
pub fn is_benign_xrandr_stderr(stderr: &str) -> (r: bool)
    ensures
        r == occurs_in(stderr@, "already exists"@),
{
    contains(stderr, "already exists")
}

/// The commands that change a resolution. The first two may fail where the
/// mode is known already; the last may not.
#[derive(Debug, Clone)]
pub struct ResolutionPlan {
    pub new_mode: CommandPlan,
    pub add_mode: CommandPlan,
    pub switch_mode: CommandPlan,
}

impl View for ResolutionPlan {
    type V = (Invocation, Invocation, Invocation);

    open spec fn view(&self) -> (Invocation, Invocation, Invocation) {
        (self.new_mode@, self.add_mode@, self.switch_mode@)
    }
}

/// The commands that create a mode, add it to an output and switch to it.
pub open spec fn resolution_commands(
    x_display: Seq<char>,
    width: u32,
    height: u32,
    output_name: Seq<char>,
) -> (Invocation, Invocation, Invocation) {
    let mode = mode_name_of(width, height);
    (
        display_command(
            "xrandr"@,
            seq!["--newmode"@, mode] + modeline_fields(width, height, 60),
            x_display,
        ),
        display_command("xrandr"@, seq!["--addmode"@, output_name, mode], x_display),
        display_command("xrandr"@, seq!["--output"@, output_name, "--mode"@, mode], x_display),
    )
}

/// How to change a display's resolution with xrandr. Needs the display's name
/// only (e.g. ":10"), so the capture thread can use it.
pub fn set_display_resolution(x_display: &str, width: u32, height: u32, output_name: &str) -> (r:
    ResolutionPlan)
    requires
        width + 160 <= u32::MAX,
        height + 33 <= u32::MAX,
    ensures
        r@ == resolution_commands(x_display@, width, height, output_name@),
{
    let mode: String = mode_name(width, height);
    let mut new_mode = CommandPlan::new("xrandr");
    new_mode.arg("--newmode");
    new_mode.arg(mode.as_str());
    new_mode.args(&modeline_parts(width, height, 60));
    new_mode.env("DISPLAY", x_display);
    let mut add_mode = CommandPlan::new("xrandr");
    add_mode.arg("--addmode");
    add_mode.arg(output_name);
    add_mode.arg(mode.as_str());
    add_mode.env("DISPLAY", x_display);
    let mut switch_mode = CommandPlan::new("xrandr");
    switch_mode.arg("--output");
    switch_mode.arg(output_name);
    switch_mode.arg("--mode");
    switch_mode.arg(mode.as_str());
    switch_mode.env("DISPLAY", x_display);
    ResolutionPlan { new_mode, add_mode, switch_mode }
}

/// The error where switching to a mode failed.
pub fn resolution_error(width: u32, height: u32, stderr: &str) -> (r: String)
    ensures
        r@ == "Failed to set resolution to "@ + mode_name_of(width, height) + ": "@ + stderr@,
{
    let mut r: String = joined("Failed to set resolution to ", mode_name(width, height).as_str());
    r.append(": ");
    r.append(stderr);
    r
}

/// The error where a display cannot be reached with xrandr.
pub fn display_not_ready_error(x_display: &str) -> (r: String)
    ensures
        r@ == "X display "@ + x_display@ + " not ready after 2 seconds"@,
{
    let mut r: String = joined("X display ", x_display);
    r.append(" not ready after 2 seconds");
    r
}

/// The name in the first of `lines` that speaks of a connected output.
pub open spec fn first_connected(lines: Seq<Seq<char>>) -> Option<Seq<char>>
    decreases lines.len(),
{
    if lines.len() == 0 {
        None
    } else if occurs_in(lines[0], " connected"@) && first_word_of(lines[0]).len() > 0 {
        Some(first_word_of(lines[0]))
    } else {
        first_connected(lines.skip(1))
    }
}

/// The first connected output in what `xrandr --query` printed, e.g. "DUMMY0",
/// "DFP-1" or "HDMI-A-1".
pub fn parse_xrandr_connected_output(stdout: &str) -> (r: Option<String>)
    ensures
        opt_text(r) == first_connected(lines_of(stdout@)),
{
    let all: Vec<String> = lines(stdout);
    let ghost ls = lines_of(stdout@);
    assert(ls =~= texts(all@));
    let mut i: usize = 0;
    assert(ls.skip(0) =~= ls);
    while i < all.len()
        invariant
            i <= all@.len(),
            ls == texts(all@),
            ls == lines_of(stdout@),
            first_connected(ls) == first_connected(ls.skip(i as int)),
        decreases all.len() - i,
    {
        let line: &str = all[i].as_str();
        assert(ls.skip(i as int)[0] == line@);
        if contains(line, " connected") {
            let name: &str = first_word(line);
            if !name.is_empty() {
                return Some(name.to_owned());
            }
        }
        assert(ls.skip(i as int).skip(1) =~= ls.skip(i + 1));
        i = i + 1;
    }
    None
}

/// What follows one attempt to ask xrandr for the outputs.
#[derive(Debug, Clone, PartialEq, Eq)]
pub enum OutputStep {
    /// The output to use.
    Use(String),
    /// Wait and try again.
    Retry,
}

/// What follows the attempt of the given number, counted from zero. `stdout` is
/// what `xrandr --query` printed, where it succeeded. Without a connected
/// output, or once the attempts are used up, the display counts as "DUMMY0".
pub fn detect_xrandr_output(attempt: u32, stdout: Option<&str>) -> (r: OutputStep)
    ensures
        match stdout {
            Some(text) => r matches OutputStep::Use(name) && name@ == (match first_connected(
                lines_of(text@),
            ) {
                Some(found) => found,
                None => DEFAULT_OUTPUT_NAME@,
            }),
            None => if attempt + 1 < XRANDR_ATTEMPTS {
                r is Retry
            } else {
                r matches OutputStep::Use(name) && name@ == DEFAULT_OUTPUT_NAME@
            },
        },
{
    match stdout {
        Some(text) => match parse_xrandr_connected_output(text) {
            Some(name) => OutputStep::Use(name),
            None => OutputStep::Use(DEFAULT_OUTPUT_NAME.to_owned()),
        },
        None => {
            if attempt < XRANDR_ATTEMPTS - 1 {
                OutputStep::Retry
            } else {
                OutputStep::Use(DEFAULT_OUTPUT_NAME.to_owned())
            }
        },
    }
}

/// Of xrandr's lines the first that tells of a connected output counts, and the output is
/// the word that it starts with.
pub proof fn first_connected_output_is_found(
    front: Seq<Seq<char>>,
    name: Seq<char>,
    rest: Seq<char>,
    back: Seq<Seq<char>>,
)
    requires
        forall|i: int| 0 <= i < front.len() ==> !occurs_in(#[trigger] front[i], " connected"@),
        name.len() > 0,
        forall|i: int| 0 <= i < name.len() ==> 33 <= #[trigger] name[i] as u32 <= 126,
    ensures
        first_connected(front.push(name + " connected"@ + rest) + back) == Some(name),
        first_connected(front) is None,
    decreases front.len(),
{
    let line = name + " connected"@ + rest;
    let all = front.push(line) + back;
    if front.len() == 0 {
        reveal_strlit(" connected");
        crate::text::parts_occur(name, " connected"@, rest);
        let behind = " connected"@.skip(1) + rest;
        assert(line =~= name + seq![' '] + behind);
        crate::text::first_words_end_at_a_space(name, behind);
        assert(all[0] == line);
    } else {
        let others = front.skip(1);
        assert forall|i: int| 0 <= i < others.len() implies !occurs_in(
            #[trigger] others[i],
            " connected"@,
        ) by {
            assert(others[i] == front[i + 1]);
        }
        first_connected_output_is_found(others, name, rest, back);
        assert(all[0] == front[0]);
        assert(all.skip(1) =~= others.push(line) + back);
        assert(!occurs_in(front[0], " connected"@));
    }
}

/// The process in a lock file is read whatever whitespace stands round its number.
pub proof fn lock_files_read_back(before: Seq<char>, pid: nat, after: Seq<char>)
    requires
        pid <= i32::MAX,
        crate::text::is_padding(before),
        crate::text::is_padding(after),
    ensures
        i32_value(trim_of(before + decimal(pid) + after)) == Some(pid as i32),
{
    let digits = decimal(pid);
    crate::text::padding_is_trimmed(before, digits, after);
    crate::text::numbers_are_written_in_digits(pid);
    assert(48 <= digits[0] as u32 <= 57);
    assert(48 <= digits[digits.len() - 1] as u32 <= 57);
    crate::text::visible_ends_are_kept(digits);
}

/// A configuration of the package is named to Xorg without its directory, as Xorg wants it,
/// any other by its whole path.
pub proof fn packaged_configurations_are_named_shortly(
    rest: Seq<char>,
    path: Seq<char>,
    direct: bool,
)
    ensures
        xorg_invocation("/etc/X11/"@ + rest, direct) == ("Xorg"@, rest),
        path.len() < 9 || path.take(9) != "/etc/X11/"@ ==> xorg_invocation(path, direct).1 == path,
        path.len() < 9 || path.take(9) != "/etc/X11/"@ ==> xorg_invocation(path, direct).0 == (
        if direct {
            "/usr/lib/xorg/Xorg"@
        } else {
            "Xorg"@
        }),
{
    reveal_strlit("/etc/X11/");
    let whole = "/etc/X11/"@ + rest;
    assert(whole.subrange(0, 9) =~= "/etc/X11/"@);
    assert(whole.skip(9) =~= rest);
    if path.len() >= 9 {
        assert(path.subrange(0, 9) =~= path.take(9));
    }
}

/// Everything of a display is taken down: all processes are stopped before any file goes,
/// Xorg last of them, and each directory and file that was made for it is removed.
pub proof fn teardown_is_complete(
    display_num: u32,
    config: Option<Seq<char>>,
    edid: Option<Seq<char>>,
    i: int,
)
    ensures
        ({
            let steps = teardown_steps(display_num, config, edid);
            let n = decimal(display_num as nat);
            &&& 0 <= i < steps.len() ==> (steps[i] is Stop <==> i < 4)
            &&& steps[2] == StepText::Stop(Process::DesktopGroup)
            &&& steps[3] == StepText::Stop(Process::Xorg)
            &&& steps.contains(StepText::Stop(Process::CursorHider))
            &&& steps.contains(StepText::Stop(Process::PulseAudio))
            &&& steps.contains(StepText::RemoveDir("/tmp/beam-pulse-"@ + n))
            &&& steps.contains(StepText::RemoveFile("/tmp/beam-pulse-"@ + n + ".pa"@))
            &&& steps.contains(StepText::RemoveDir("/tmp/beam-keyring-"@ + n))
            &&& steps.contains(StepText::RemoveDir("/tmp/beam-run-"@ + n))
            &&& config matches Some(path) ==> steps.contains(StepText::RemoveFile(path))
            &&& edid matches Some(path) ==> steps.contains(StepText::RemoveFile(path))
        }),
{
    let steps = teardown_steps(display_num, config, edid);
    let n = decimal(display_num as nat);
    let k = 4 + removal_of(config).len() as int + removal_of(edid).len();
    assert(steps[0] == StepText::Stop(Process::CursorHider));
    assert(steps[1] == StepText::Stop(Process::PulseAudio));
    assert(steps[k] == StepText::RemoveDir("/tmp/beam-pulse-"@ + n));
    assert(steps[k + 1] == StepText::RemoveFile("/tmp/beam-pulse-"@ + n + ".pa"@));
    assert(steps[k + 2] == StepText::RemoveDir("/tmp/beam-keyring-"@ + n));
    assert(steps[k + 3] == StepText::RemoveDir("/tmp/beam-run-"@ + n));
    if let Some(path) = config {
        assert(steps[4] == StepText::RemoveFile(path));
    }
    if let Some(path) = edid {
        assert(steps[4 + removal_of(config).len() as int] == StepText::RemoveFile(path));
    }
}

/// A mode's timings: behind its visible pixels 48 are left free, the sync pulse takes 32,
/// and a line has 160 in all on top; behind its lines it is 3, 5 and 33.
pub proof fn timings_have_fixed_margins(width: u32, height: u32, refresh: u32)
    ensures
        ({
            let fields = modeline_fields(width, height, refresh);
            &&& fields.len() == 11
            &&& fields[1] == decimal(width as nat)
            &&& fields[2] == decimal((width + 48) as nat)
            &&& fields[3] == decimal((width + 48 + 32) as nat)
            &&& fields[4] == decimal((width + 160) as nat)
            &&& fields[5] == decimal(height as nat)
            &&& fields[6] == decimal((height + 3) as nat)
            &&& fields[7] == decimal((height + 3 + 5) as nat)
            &&& fields[8] == decimal((height + 33) as nat)
        }),
{
}

/// The pixel clock of a mode is 1.2 times its visible pixels in a second: given in hundredths
/// of a megahertz it is off by little more than a half of one.
pub proof fn pixel_clock_has_a_fifth_on_top(width: u32, height: u32, refresh: u32)
    requires
        width * height * refresh <= 0x100_0000_0000,
        width * height <= 0x100_0000_0000,
    ensures
        ({
            let clock = pixel_clock_hundredths(width, height, refresh);
            let pixels = width * height * refresh;
            12 * pixels - 51_000 <= 100_000 * clock <= 12 * pixels + 51_000
        }),
{
    let one = pow2(1074);
    let w = width as nat;
    let h = height as nat;
    let r = refresh as nat;
    let area = (width * height) as nat;
    let pixels = (width * height * refresh) as nat;
    vstd::arithmetic::power2::lemma_pow2_pos(1074);
    vstd::arithmetic::power2::lemma_pow2_pos(1054);
    lemma2_to64();
    lemma2_to64_rest();
    lemma_pow2_adds(20, 1054);
    lemma_pow2_adds(52, 1022);
    let unit = pow2(1054);
    assert(one == 0x10_0000 * unit);
    // The pixels are told exactly.
    assert(w * one * (h * one) == area * one * one) by (nonlinear_arith)
        requires
            area == w * h,
    ;
    crate::double::rounding_keeps_upper_bounds(w * one * (h * one), one, area, 1074);
    crate::double::rounding_keeps_lower_bounds(w * one * (h * one), one, area, 1074);
    assert(double_product(w * one, h * one) == area * one);
    assert(area * one * (r * one) == pixels * one * one) by (nonlinear_arith)
        requires
            pixels == area * r,
    ;
    crate::double::rounding_keeps_upper_bounds(area * one * (r * one), one, pixels, 1074);
    crate::double::rounding_keeps_lower_bounds(area * one * (r * one), one, pixels, 1074);
    assert(double_product(area * one, r * one) == pixels * one);
    // Then they are divided.
    let million = 1_000_000nat;
    let low = (pixels * 0x10_0000) / million;
    let high = (pixels * 0x10_0000 + 999_999) / million;
    let share = double_quotient(pixels * one, million * one);
    let num = pixels * one * one;
    assert(num <= high * unit * (million * one)) by (nonlinear_arith)
        requires
            num == pixels * one * one,
            one == 0x10_0000 * unit,
            million * high >= pixels * 0x10_0000,
    ;
    assert(low * unit * (million * one) <= num) by (nonlinear_arith)
        requires
            num == pixels * one * one,
            one == 0x10_0000 * unit,
            million * low <= pixels * 0x10_0000,
    ;
    assert(million * one > 0);
    crate::double::rounding_keeps_upper_bounds(num, million * one, high, 1054);
    crate::double::rounding_keeps_lower_bounds(num, million * one, low, 1054);
    assert(low * unit <= share <= high * unit);
    // A fifth comes on top.
    let f = scaled_size(BLANKING_FACTOR_BITS);
    assert(exponent_bits(BLANKING_FACTOR_BITS) == 0x3FF);
    assert(f == 0x13_3333_3333_3333 * pow2(1022));
    let tiny = pow2(1022);
    assert(5 * f == 6 * one - tiny);
    let top = ((6 * high + 4) / 5) as nat;
    let bottom: nat = if low == 0 {
        0
    } else {
        ((6 * low - 1) / 5) as nat
    };
    let clock = double_product(share, f);
    assert(share * f <= top * unit * one) by (nonlinear_arith)
        requires
            share <= high * unit,
            5 * f <= 6 * one,
            6 * high <= 5 * top,
    ;
    assert(bottom * unit * one <= share * f) by {
        if low == 0 {
            assert(bottom * unit * one == 0) by (nonlinear_arith)
                requires
                    bottom == 0,
            ;
            assert(share * f >= 0) by (nonlinear_arith);
        } else {
            assert(low * tiny <= one) by (nonlinear_arith)
                requires
                    low <= 0x10_0000_0000_0000,
                    one == 0x10_0000_0000_0000 * tiny,
            ;
            assert(5 * (low * f) >= (6 * low - 1) * one) by (nonlinear_arith)
                requires
                    5 * f == 6 * one - tiny,
                    low * tiny <= one,
            ;
            assert(5 * (bottom * one) <= (6 * low - 1) * one) by (nonlinear_arith)
                requires
                    5 * bottom <= 6 * low - 1,
                    one > 0,
            ;
            assert(bottom * one <= low * f);
            assert(bottom * unit * one <= low * unit * f) by (nonlinear_arith)
                requires
                    bottom * one <= low * f,
            ;
            assert(low * unit * f <= share * f) by (nonlinear_arith)
                requires
                    low * unit <= share,
            ;
        }
    }
    crate::double::rounding_keeps_upper_bounds(share * f, one, top, 1054);
    crate::double::rounding_keeps_lower_bounds(share * f, one, bottom, 1054);
    assert(bottom * unit <= clock <= top * unit);
    // And it is told in hundredths.
    let told = nearest_even(clock * 100, one);
    lemma_nearest(clock * 100, one);
    assert(2 * one * told <= 2 * (clock * 100) + one);
    assert(2 * one * told >= 2 * (clock * 100) - one);
    assert(0x20_0000 * told <= 200 * top + 0x10_0000) by (nonlinear_arith)
        requires
            2 * one * told <= 200 * clock + one,
            clock <= top * unit,
            one == 0x10_0000 * unit,
            unit > 0,
    ;
    assert(0x20_0000 * told >= 200 * bottom - 0x10_0000) by (nonlinear_arith)
        requires
            2 * one * told >= 200 * clock - one,
            clock >= bottom * unit,
            one == 0x10_0000 * unit,
            unit > 0,
    ;
    assert(5 * bottom >= 6 * low - 5);
    assert(million * low >= pixels * 0x10_0000 - 999_999);
    assert(5 * top <= 6 * high + 4);
    assert(million * high <= pixels * 0x10_0000 + 999_999);
    assert(pixel_clock(width, height, refresh) == clock);
    assert(told == pixel_clock_hundredths(width, height, refresh));
    assert(1_000_000 * low == million * low && 1_000_000 * high == million * high);
    lemma_clock_bounds(pixels, low, high, bottom, top, told);
}

proof fn lemma_clock_bounds(pixels: nat, low: nat, high: nat, bottom: nat, top: nat, told: nat)
    requires
        0x20_0000 * told <= 200 * top + 0x10_0000,
        0x20_0000 * told >= 200 * bottom - 0x10_0000,
        5 * bottom >= 6 * low - 5,
        1_000_000 * low >= pixels * 0x10_0000 - 999_999,
        5 * top <= 6 * high + 4,
        1_000_000 * high <= pixels * 0x10_0000 + 999_999,
    ensures
        12 * pixels - 51_000 <= 100_000 * told <= 12 * pixels + 51_000,
{
    let all = pixels * 0x10_0000;
    assert(20_000_000 * top <= 24_000_000 * high + 16_000_000);
    assert(24_000_000 * high <= 24 * all + 23_999_976);
    assert(20_000_000 * bottom >= 24_000_000 * low - 20_000_000);
    assert(24_000_000 * low >= 24 * all - 23_999_976);
    assert(0x20_0000 * (100_000 * told) <= 20_000_000 * top + 104_857_600_000) by (nonlinear_arith)
        requires
            0x20_0000 * told <= 200 * top + 0x10_0000,
    ;
    assert(0x20_0000 * (100_000 * told) >= 20_000_000 * bottom - 104_857_600_000)
        by (nonlinear_arith)
        requires
            0x20_0000 * told >= 200 * bottom - 0x10_0000,
    ;
    assert(24 * all == 0x20_0000 * (12 * pixels));
    assert(0x20_0000 * (100_000 * told) <= 0x20_0000 * (12 * pixels) + 0x20_0000 * 51_000);
    assert(0x20_0000 * (100_000 * told) >= 0x20_0000 * (12 * pixels) - 0x20_0000 * 51_000);
}

proof fn lemma_nearest(num: nat, den: nat)
    requires
        den > 0,
    ensures
        2 * num - den <= 2 * den * nearest_even(num, den) <= 2 * num + den,
{
    let q = num / den;
    let r = num % den;
    vstd::arithmetic::div_mod::lemma_fundamental_div_mod(num as int, den as int);
    vstd::arithmetic::div_mod::lemma_mod_bound(num as int, den as int);
    assert(2 * den * q == 2 * num - 2 * r) by (nonlinear_arith)
        requires
            num == den * q + r,
    ;
    assert(2 * den * (q + 1) == 2 * den * q + 2 * den) by (nonlinear_arith);
}

} // verus!
