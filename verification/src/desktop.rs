//! Starting the desktop on a display, and the session bus it runs on.

use crate::command::{display_command, CommandPlan, Invocation};
use crate::desktop_config::opt_str;
use crate::display::{
    display_name, keyring_control_dir, keyring_data_dir, keyrings_dir, pulse_server_socket_url,
    systemd_user_bus_address, xdg_runtime_dir, VirtualDisplay,
};
use crate::gpu::opt_text;
use crate::text::{
    behind_prefix, decimal, from_utf8_lossy, joined, lines, lines_of, same_text, texts, trim,
    trim_of, utf8_lossy, without_prefix,
};
use vstd::prelude::*;

verus! {

// ---------------------------------------------------------------------------
// The session bus
// ---------------------------------------------------------------------------

/// The pieces of `bytes` between zero bytes, empty ones included.
pub open spec fn split_at_zero(bytes: Seq<u8>) -> Seq<Seq<u8>>
    decreases bytes.len(),
{
    if bytes.len() == 0 {
        seq![Seq::empty()]
    } else {
        let front = split_at_zero(bytes.drop_last());
        if bytes.last() == 0 {
            front.push(Seq::empty())
        } else {
            front.update(front.len() - 1, front.last().push(bytes.last()))
        }
    }
}

/// The variables of a process environment, as text.
pub open spec fn environ_vars(environ: Seq<u8>) -> Seq<Seq<char>> {
    split_at_zero(environ).map_values(|piece: Seq<u8>| utf8_lossy(piece))
}

/// The variables of a process environment, as in `/proc/<pid>/environ`.
pub fn read_environ(environ: &[u8]) -> (r: Vec<String>)
    ensures
        texts(r@) == environ_vars(environ@),
{
    let mut r: Vec<String> = Vec::new();
    let mut piece: Vec<u8> = Vec::new();
    let ghost mut done: Seq<Seq<u8>> = Seq::empty();
    let mut i: usize = 0;
    assert(done.push(piece@) =~= split_at_zero(environ@.take(0)));
    assert(texts(r@) =~= done.map_values(|p: Seq<u8>| utf8_lossy(p)));
    while i < environ.len()
        invariant
            i <= environ@.len(),
            done.push(piece@) == split_at_zero(environ@.take(i as int)),
            texts(r@) == done.map_values(|p: Seq<u8>| utf8_lossy(p)),
        decreases environ.len() - i,
    {
        let b: u8 = environ[i];
        let ghost open = piece@;
        let ghost before = done;
        let ghost read = texts(r@);
        i = i + 1;
        assert(environ@.take(i as int).drop_last() =~= environ@.take(i - 1));
        if b == 0 {
            r.push(from_utf8_lossy(piece.as_slice()));
            piece = Vec::new();
            proof {
                done = before.push(open);
            }
            assert(texts(r@) =~= read.push(utf8_lossy(open)));
            assert(texts(r@) =~= done.map_values(|p: Seq<u8>| utf8_lossy(p)));
        } else {
            piece.push(b);
            assert(before.push(piece@) =~= before.push(open).update(
                before.len() as int,
                open.push(b),
            ));
        }
    }
    assert(environ@.take(environ@.len() as int) =~= environ@);
    let ghost open = piece@;
    let ghost read = texts(r@);
    r.push(from_utf8_lossy(piece.as_slice()));
    assert(texts(r@) =~= read.push(utf8_lossy(open)));
    assert(texts(r@) =~= environ_vars(environ@));
    r
}

/// Whether a variable says that the process is on the given display.
pub open spec fn names_display(vars: Seq<Seq<char>>, x_display: Seq<char>) -> bool {
    vars.contains("DISPLAY="@ + x_display)
}

/// The session bus address in the last variable that gives one.
pub open spec fn last_bus_address(vars: Seq<Seq<char>>) -> Option<Seq<char>>
    decreases vars.len(),
{
    if vars.len() == 0 {
        None
    } else {
        match behind_prefix(vars.last(), "DBUS_SESSION_BUS_ADDRESS="@) {
            Some(address) => Some(address),
            None => last_bus_address(vars.drop_last()),
        }
    }
}

/// Whether the variables name the given display, and the session bus address
/// that they give.
pub fn scan_environ(vars: &Vec<String>, x_display: &str) -> (r: (bool, Option<String>))
    ensures
        r.0 == names_display(texts(vars@), x_display@),
        opt_text(r.1) == last_bus_address(texts(vars@)),
{
    let ghost ts = texts(vars@);
    let wanted: String = joined("DISPLAY=", x_display);
    let mut has_display: bool = false;
    let mut bus_address: Option<String> = None;
    let mut i: usize = 0;
    while i < vars.len()
        invariant
            i <= vars@.len(),
            ts == texts(vars@),
            wanted@ == "DISPLAY="@ + x_display@,
            has_display == exists|k: int| 0 <= k < i && #[trigger] ts[k] == wanted@,
            opt_text(bus_address) == last_bus_address(ts.take(i as int)),
        decreases vars.len() - i,
    {
        let var: &str = vars[i].as_str();
        assert(ts[i as int] == var@);
        assert(ts.take(i + 1).drop_last() =~= ts.take(i as int));
        if same_text(var, wanted.as_str()) {
            has_display = true;
        }
        match without_prefix(var, "DBUS_SESSION_BUS_ADDRESS=") {
            Some(address) => {
                bus_address = Some(address.to_owned());
            },
            None => {},
        }
        i = i + 1;
    }
    assert(ts.take(ts.len() as int) =~= ts);
    (has_display, bus_address)
}

/// Reads a process environment: whether it names the given display, and the
/// session bus address that it gives.
pub fn parse_environ_for_dbus(environ: &[u8], x_display: &str) -> (r: (bool, Option<String>))
    ensures
        r.0 == names_display(environ_vars(environ@), x_display@),
        opt_text(r.1) == last_bus_address(environ_vars(environ@)),
{
    scan_environ(&read_environ(environ), x_display)
}

/// The session bus address of an environment that names the given display.
pub open spec fn bus_address_in(environ: Seq<u8>, x_display: Seq<char>) -> Option<Seq<char>> {
    if names_display(environ_vars(environ), x_display) {
        last_bus_address(environ_vars(environ))
    } else {
        None
    }
}

/// The session bus address of a process on the given display.
pub fn dbus_address_for_display(environ: &[u8], x_display: &str) -> (r: Option<String>)
    ensures
        opt_text(r) == bus_address_in(environ@, x_display@),
{
    let (has_display, bus_address) = parse_environ_for_dbus(environ, x_display);
    if has_display {
        bus_address
    } else {
        None
    }
}

/// The first session bus address that the environments give for a display.
pub open spec fn first_bus_address(environs: Seq<Vec<u8>>, x_display: Seq<char>) -> Option<
    Seq<char>,
>
    decreases environs.len(),
{
    if environs.len() == 0 {
        None
    } else {
        match bus_address_in(environs[0]@, x_display) {
            Some(address) => Some(address),
            None => first_bus_address(environs.skip(1), x_display),
        }
    }
}

/// Finds the session bus of a display: the user's systemd bus where there is
/// one, else the bus in the first environment, of those of the panels, that
/// names the display.
pub fn find_dbus_address_for_display(
    x_display: &str,
    uid: u32,
    user_bus_exists: bool,
    environs: &Vec<Vec<u8>>,
) -> (r: Option<String>)
    ensures
        opt_text(r) == (if user_bus_exists {
            Some("unix:path="@ + ("/run/user/"@ + decimal(uid as nat) + "/bus"@))
        } else {
            first_bus_address(environs@, x_display@)
        }),
{
    if user_bus_exists {
        return Some(systemd_user_bus_address(uid));
    }
    let mut i: usize = 0;
    assert(environs@.skip(0) =~= environs@);
    while i < environs.len()
        invariant
            i <= environs@.len(),
            !user_bus_exists,
            first_bus_address(environs@, x_display@) == first_bus_address(
                environs@.skip(i as int),
                x_display@,
            ),
        decreases environs.len() - i,
    {
        assert(environs@.skip(i as int)[0] == environs@[i as int]);
        match dbus_address_for_display(environs[i].as_slice(), x_display) {
            Some(address) => {
                return Some(address);
            },
            None => {},
        }
        assert(environs@.skip(i as int).skip(1) =~= environs@.skip(i + 1));
        i = i + 1;
    }
    None
}

/// The process numbers in what `pgrep` printed: its lines, but for empty ones.
pub open spec fn pids_in(lines: Seq<Seq<char>>) -> Seq<Seq<char>>
    decreases lines.len(),
{
    if lines.len() == 0 {
        Seq::empty()
    } else {
        let front = pids_in(lines.drop_last());
        if trim_of(lines.last()).len() == 0 {
            front
        } else {
            front.push(trim_of(lines.last()))
        }
    }
}

/// The process numbers in what `pgrep` printed.
pub fn panel_pids(stdout: &str) -> (r: Vec<String>)
    ensures
        texts(r@) == pids_in(lines_of(stdout@)),
{
    let all: Vec<String> = lines(stdout);
    let ghost ls = lines_of(stdout@);
    assert(ls =~= texts(all@));
    let mut r: Vec<String> = Vec::new();
    let mut i: usize = 0;
    assert(texts(r@) =~= pids_in(ls.take(0)));
    while i < all.len()
        invariant
            i <= all@.len(),
            ls == texts(all@),
            texts(r@) == pids_in(ls.take(i as int)),
        decreases all.len() - i,
    {
        let pid: &str = trim(all[i].as_str());
        assert(ls[i as int] == all@[i as int]@);
        let ghost before = texts(r@);
        if !pid.is_empty() {
            r.push(pid.to_owned());
            assert(texts(r@) =~= before.push(pid@));
        }
        i = i + 1;
        assert(ls.take(i as int).drop_last() =~= ls.take(i - 1));
    }
    assert(ls.take(ls.len() as int) =~= ls);
    r
}

/// How often the session bus is looked for, once a second.
pub const DBUS_ATTEMPTS: u32 = 15;

// ---------------------------------------------------------------------------
// The desktop
// ---------------------------------------------------------------------------

/// Which desktop programs are installed.
#[derive(Debug, Clone, Copy, PartialEq, Eq, Structural)]
pub struct DesktopPrograms {
    pub xfce4_session: bool,
    pub openbox: bool,
    pub xfce4_terminal: bool,
    pub xterm: bool,
}

/// How a desktop is started.
#[derive(Debug, Clone)]
pub enum DesktopPlan {
    /// XFCE, on a session bus of its own, as a process group of its own.
    Xfce {
        /// A directory for XDG_RUNTIME_DIR, to create anew.
        runtime_dir: String,
        command: CommandPlan,
    },
    /// The openbox window manager.
    Openbox {
        command: CommandPlan,
        /// Paints the background.
        background: CommandPlan,
        /// Opens a terminal, where one is installed.
        terminal: Option<CommandPlan>,
    },
}

/// What a desktop plan says, as plain text.
pub enum DesktopText {
    Xfce { runtime_dir: Seq<char>, command: Invocation },
    Openbox { command: Invocation, background: Invocation, terminal: Option<Invocation> },
}

impl View for DesktopPlan {
    type V = DesktopText;

    open spec fn view(&self) -> DesktopText {
        match *self {
            DesktopPlan::Xfce { runtime_dir, command } => DesktopText::Xfce {
                runtime_dir: runtime_dir@,
                command: command@,
            },
            DesktopPlan::Openbox { command, background, terminal } => DesktopText::Openbox {
                command: command@,
                background: background@,
                terminal: match terminal {
                    Some(t) => Some(t@),
                    None => None,
                },
            },
        }
    }
}

/// The address of a display's PulseAudio socket.
pub open spec fn pulse_url(display_num: u32) -> Seq<char> {
    "unix:"@ + ("/tmp/beam-pulse-"@ + decimal(display_num as nat)) + "/native"@
}

/// A variable to set, where there is a value for it.
pub open spec fn optional_env(name: Seq<char>, value: Option<Seq<char>>) -> Seq<
    (Seq<char>, Seq<char>),
> {
    match value {
        Some(v) => seq![(name, v)],
        None => Seq::empty(),
    }
}

/// The command that starts XFCE on a display.
pub open spec fn xfce_command(
    display_num: u32,
    config_dir: Seq<char>,
    browser: Option<Seq<char>>,
    terminal: Option<Seq<char>>,
) -> Invocation {
    Invocation {
        program: "/usr/bin/dbus-launch"@,
        args: seq!["--exit-with-session"@, "xfce4-session"@],
        env: seq![
            ("DISPLAY"@, ":"@ + decimal(display_num as nat)),
            ("PULSE_SERVER"@, pulse_url(display_num)),
            ("XDG_CONFIG_HOME"@, config_dir),
            ("XDG_RUNTIME_DIR"@, "/tmp/beam-run-"@ + decimal(display_num as nat)),
            ("XDG_CURRENT_DESKTOP"@, "XFCE"@),
            ("XDG_SESSION_DESKTOP"@, "xfce"@),
            ("GVFS_DISABLE_FUSE"@, "1"@),
        ] + optional_env("BROWSER"@, browser) + optional_env("TERMINAL"@, terminal),
        env_remove: Seq::empty(),
    }
}

/// The command that starts openbox on a display.
pub open spec fn openbox_command(display_num: u32) -> Invocation {
    Invocation {
        program: "openbox"@,
        args: Seq::empty(),
        env: seq![
            ("DISPLAY"@, ":"@ + decimal(display_num as nat)),
            ("PULSE_SERVER"@, pulse_url(display_num)),
        ],
        env_remove: Seq::empty(),
    }
}

/// The terminal that goes with openbox, where one is installed.
pub open spec fn openbox_terminal(display_num: u32, installed: DesktopPrograms) -> Option<
    Invocation,
> {
    let display = ":"@ + decimal(display_num as nat);
    if installed.xfce4_terminal {
        Some(display_command("xfce4-terminal"@, Seq::empty(), display))
    } else if installed.xterm {
        Some(
            display_command(
                "xterm"@,
                seq![
                    "-geometry"@,
                    "100x35+100+100"@,
                    "-fa"@,
                    "Monospace"@,
                    "-fs"@,
                    "14"@,
                ],
                display,
            ),
        )
    } else {
        None
    }
}

/// The desktop of a display: XFCE where it is installed, else openbox where
/// that is, else none.
pub open spec fn desktop_plan(
    display_num: u32,
    installed: DesktopPrograms,
    config_dir: Seq<char>,
    browser: Option<Seq<char>>,
    terminal: Option<Seq<char>>,
) -> Option<DesktopText> {
    if installed.xfce4_session {
        Some(
            DesktopText::Xfce {
                runtime_dir: "/tmp/beam-run-"@ + decimal(display_num as nat),
                command: xfce_command(display_num, config_dir, browser, terminal),
            },
        )
    } else if installed.openbox {
        Some(
            DesktopText::Openbox {
                command: openbox_command(display_num),
                background: display_command(
                    "xsetroot"@,
                    seq!["-solid"@, "#2d3436"@],
                    ":"@ + decimal(display_num as nat),
                ),
                terminal: openbox_terminal(display_num, installed),
            },
        )
    } else {
        None
    }
}

/// The error where no desktop is installed.
pub const NO_DESKTOP_ERROR: &'static str = "No desktop environment found. Install xfce4 or openbox.";

impl VirtualDisplay {
    /// How to start a desktop on this display; an error where none is installed.
    /// `config_dir` is the session's XDG_CONFIG_HOME; the browser and terminal
    /// that were found go to XFCE's environment.
    pub fn start_desktop(
        &self,
        installed: DesktopPrograms,
        config_dir: &str,
        detected_browser: Option<&str>,
        detected_terminal: Option<&str>,
    ) -> (r: Result<DesktopPlan, String>)
        ensures
            match desktop_plan(
                self.number(),
                installed,
                config_dir@,
                opt_str(detected_browser),
                opt_str(detected_terminal),
            ) {
                Some(plan) => r is Ok && r->Ok_0@ == plan,
                None => r is Err && r->Err_0@ == NO_DESKTOP_ERROR@,
            },
    {
        let display: String = display_name(self.display_num());
        if installed.xfce4_session {
            let runtime_dir: String = xdg_runtime_dir(self.display_num());
            let mut command = CommandPlan::new("/usr/bin/dbus-launch");
            command.arg("--exit-with-session");
            command.arg("xfce4-session");
            command.env("DISPLAY", display.as_str());
            command.env("PULSE_SERVER", pulse_server_socket_url(self.display_num()).as_str());
            command.env("XDG_CONFIG_HOME", config_dir);
            command.env("XDG_RUNTIME_DIR", runtime_dir.as_str());
            command.env("XDG_CURRENT_DESKTOP", "XFCE");
            command.env("XDG_SESSION_DESKTOP", "xfce");
            command.env("GVFS_DISABLE_FUSE", "1");
            match detected_browser {
                Some(browser) => {
                    command.env("BROWSER", browser);
                },
                None => {},
            }
            match detected_terminal {
                Some(term) => {
                    command.env("TERMINAL", term);
                },
                None => {},
            }
            assert(command@ =~= xfce_command(
                self.number(),
                config_dir@,
                opt_str(detected_browser),
                opt_str(detected_terminal),
            ));
            return Ok(DesktopPlan::Xfce { runtime_dir, command });
        }
        if installed.openbox {
            let mut command = CommandPlan::new("openbox");
            command.env("DISPLAY", display.as_str());
            command.env("PULSE_SERVER", pulse_server_socket_url(self.display_num()).as_str());
            assert(command@ =~= openbox_command(self.number()));
            let mut background = CommandPlan::new("xsetroot");
            background.arg("-solid");
            background.arg("#2d3436");
            background.env("DISPLAY", display.as_str());
            assert(background@ =~= display_command(
                "xsetroot"@,
                seq!["-solid"@, "#2d3436"@],
                display@,
            ));
            let terminal: Option<CommandPlan> = if installed.xfce4_terminal {
                let mut term = CommandPlan::new("xfce4-terminal");
                term.env("DISPLAY", display.as_str());
                assert(term@ =~= display_command("xfce4-terminal"@, Seq::empty(), display@));
                Some(term)
            } else if installed.xterm {
                let mut term = CommandPlan::new("xterm");
                term.arg("-geometry");
                term.arg("100x35+100+100");
                term.arg("-fa");
                term.arg("Monospace");
                term.arg("-fs");
                term.arg("14");
                term.env("DISPLAY", display.as_str());
                assert(term@ =~= openbox_terminal(self.number(), installed)->0);
                Some(term)
            } else {
                None
            };
            return Ok(DesktopPlan::Openbox { command, background, terminal });
        }
        Err(NO_DESKTOP_ERROR.to_owned())
    }
}

/// How the keyring of a session is started.
#[derive(Debug, Clone)]
pub struct KeyringLaunch {
    /// The directory for the control socket, to create anew.
    pub control_dir: String,
    /// The directory of the keyrings, to create where it is missing.
    pub keyrings_dir: String,
    /// The file that names the default keyring, to write where it is missing.
    pub default_path: String,
    pub command: CommandPlan,
}

/// The name of the default keyring.
pub const DEFAULT_KEYRING: &'static str = "login";

/// The shell command that starts the keyring daemon with an empty password.
pub open spec fn keyring_shell_command(control_dir: Seq<char>) -> Seq<char> {
    "echo '' | gnome-keyring-daemon --foreground --unlock --components=secrets --control-directory="@
        + control_dir
}

/// Whether a keyring is started as it should be: with a control directory of its own,
/// so that it does not reuse the host's daemon, and with data that lasts from session
/// to session.
pub open spec fn is_keyring_launch(
    launch: KeyringLaunch,
    display_num: u32,
    dbus_address: Seq<char>,
    home: Seq<char>,
) -> bool {
    &&& launch.control_dir@ == "/tmp/beam-keyring-"@ + decimal(display_num as nat)
    &&& launch.keyrings_dir@ == home + "/.local/share/beam/keyring"@ + "/keyrings"@
    &&& launch.default_path@ == launch.keyrings_dir@ + "/default"@
    &&& launch.command@ == (Invocation {
        program: "sh"@,
        args: seq!["-c"@, keyring_shell_command(launch.control_dir@)],
        env: seq![
            ("DISPLAY"@, ":"@ + decimal(display_num as nat)),
            ("DBUS_SESSION_BUS_ADDRESS"@, dbus_address),
            ("XDG_DATA_HOME"@, home + "/.local/share/beam/keyring"@),
        ],
        env_remove: Seq::empty(),
    })
}

/// How to start a keyring daemon on a session's bus.
pub fn keyring_launch(display_num: u32, dbus_address: &str, home: &str) -> (r: KeyringLaunch)
    ensures
        is_keyring_launch(r, display_num, dbus_address@, home@),
{
    let control_dir: String = keyring_control_dir(display_num);
    let keyrings: String = keyrings_dir(home);
    let default_path: String = joined(keyrings.as_str(), "/default");
    let shell: String = joined(
        "echo '' | gnome-keyring-daemon --foreground --unlock --components=secrets --control-directory=",
        control_dir.as_str(),
    );
    let mut command = CommandPlan::new("sh");
    command.arg("-c");
    command.arg(shell.as_str());
    command.env("DISPLAY", display_name(display_num).as_str());
    command.env("DBUS_SESSION_BUS_ADDRESS", dbus_address);
    command.env("XDG_DATA_HOME", keyring_data_dir(home).as_str());
    let r = KeyringLaunch { control_dir, keyrings_dir: keyrings, default_path, command };
    assert(r.command@.args =~= seq!["-c"@, keyring_shell_command(r.control_dir@)]);
    assert(r.command@.env =~= seq![
        ("DISPLAY"@, ":"@ + decimal(display_num as nat)),
        ("DBUS_SESSION_BUS_ADDRESS"@, dbus_address@),
        ("XDG_DATA_HOME"@, home@ + "/.local/share/beam/keyring"@),
    ]);
    assert(r.command@.env_remove =~= Seq::empty());
    r
}

/// One setting of XFCE: channel, property, type and value.
#[derive(Debug, Clone, PartialEq, Eq)]
pub struct XfconfSetting {
    pub channel: String,
    pub property: String,
    pub kind: String,
    pub value: String,
}

impl View for XfconfSetting {
    type V = (Seq<char>, Seq<char>, Seq<char>, Seq<char>);

    open spec fn view(&self) -> (Seq<char>, Seq<char>, Seq<char>, Seq<char>) {
        (self.channel@, self.property@, self.kind@, self.value@)
    }
}

/// The settings of a first session: compositor, animations and delays off, full
/// opacity, dark themes, and no screenshot shortcuts.
pub open spec fn first_session_settings() -> Seq<(Seq<char>, Seq<char>, Seq<char>, Seq<char>)> {
    seq![
        ("xfwm4"@, "/general/use_compositing"@, "bool"@, "false"@),
        ("xfwm4"@, "/general/zoom_desktop"@, "bool"@, "false"@),
        ("xfwm4"@, "/general/popup_opacity"@, "int"@, "100"@),
        ("xfwm4"@, "/general/move_opacity"@, "int"@, "100"@),
        ("xfwm4"@, "/general/resize_opacity"@, "int"@, "100"@),
        ("xsettings"@, "/Net/EnableAnimations"@, "bool"@, "false"@),
        ("xsettings"@, "/Gtk/MenuPopupDelay"@, "int"@, "0"@),
        ("xsettings"@, "/Gtk/MenuPopdownDelay"@, "int"@, "0"@),
        ("xsettings"@, "/Gtk/CursorBlink"@, "bool"@, "false"@),
        ("xsettings"@, "/Net/ThemeName"@, "string"@, "Arc-Dark"@),
        ("xsettings"@, "/Net/IconThemeName"@, "string"@, "Papirus-Dark"@),
        ("xfwm4"@, "/general/theme"@, "string"@, "Arc-Dark"@),
        ("xfce4-keyboard-shortcuts"@, "/commands/custom/Print"@, "string"@, ""@),
        ("xfce4-keyboard-shortcuts"@, "/commands/custom/<Alt>Print"@, "string"@, ""@),
        ("xfce4-keyboard-shortcuts"@, "/commands/custom/<Shift>Print"@, "string"@, ""@),
    ]
}

/// What settings the vector holds.
pub open spec fn setting_texts(v: Seq<XfconfSetting>) -> Seq<
    (Seq<char>, Seq<char>, Seq<char>, Seq<char>),
> {
    v.map_values(|s: XfconfSetting| s@)
}

/// Adds a setting to the list.
fn add_setting(
    settings: &mut Vec<XfconfSetting>,
    channel: &str,
    property: &str,
    kind: &str,
    value: &str,
)
    ensures
        setting_texts(final(settings)@) == setting_texts(old(settings)@).push(
            (channel@, property@, kind@, value@),
        ),
{
    settings.push(
        XfconfSetting {
            channel: channel.to_owned(),
            property: property.to_owned(),
            kind: kind.to_owned(),
            value: value.to_owned(),
        },
    );
    assert(setting_texts(settings@) =~= setting_texts(old(settings)@).push(
        (channel@, property@, kind@, value@),
    ));
}

/// The settings that a first session applies. Later sessions keep what the user
/// changed.
pub fn xfconf_settings() -> (r: Vec<XfconfSetting>)
    ensures
        setting_texts(r@) == first_session_settings(),
{
    let mut r: Vec<XfconfSetting> = Vec::new();
    add_setting(&mut r, "xfwm4", "/general/use_compositing", "bool", "false");
    add_setting(&mut r, "xfwm4", "/general/zoom_desktop", "bool", "false");
    add_setting(&mut r, "xfwm4", "/general/popup_opacity", "int", "100");
    add_setting(&mut r, "xfwm4", "/general/move_opacity", "int", "100");
    add_setting(&mut r, "xfwm4", "/general/resize_opacity", "int", "100");
    add_setting(&mut r, "xsettings", "/Net/EnableAnimations", "bool", "false");
    add_setting(&mut r, "xsettings", "/Gtk/MenuPopupDelay", "int", "0");
    add_setting(&mut r, "xsettings", "/Gtk/MenuPopdownDelay", "int", "0");
    add_setting(&mut r, "xsettings", "/Gtk/CursorBlink", "bool", "false");
    add_setting(&mut r, "xsettings", "/Net/ThemeName", "string", "Arc-Dark");
    add_setting(&mut r, "xsettings", "/Net/IconThemeName", "string", "Papirus-Dark");
    add_setting(&mut r, "xfwm4", "/general/theme", "string", "Arc-Dark");
    add_setting(&mut r, "xfce4-keyboard-shortcuts", "/commands/custom/Print", "string", "");
    add_setting(&mut r, "xfce4-keyboard-shortcuts", "/commands/custom/<Alt>Print", "string", "");
    add_setting(&mut r, "xfce4-keyboard-shortcuts", "/commands/custom/<Shift>Print", "string", "");
    assert(setting_texts(r@) =~= first_session_settings());
    r
}

/// The program that applies a setting on a display, on the session bus where it is
/// known.
pub open spec fn xfconf_invocation(
    setting: (Seq<char>, Seq<char>, Seq<char>, Seq<char>),
    x_display: Seq<char>,
    dbus_address: Option<Seq<char>>,
) -> Invocation {
    Invocation {
        program: "xfconf-query"@,
        args: seq![
            "-c"@,
            setting.0,
            "-p"@,
            setting.1,
            "-n"@,
            "-t"@,
            setting.2,
            "-s"@,
            setting.3,
        ],
        env: seq![("DISPLAY"@, x_display)] + optional_env(
            "DBUS_SESSION_BUS_ADDRESS"@,
            dbus_address,
        ),
        env_remove: Seq::empty(),
    }
}

/// How to apply a setting on a display, on the session bus where it is known.
pub fn xfconf_command(setting: &XfconfSetting, x_display: &str, dbus_address: Option<&str>) -> (r:
    CommandPlan)
    ensures
        r@ == xfconf_invocation(setting@, x_display@, opt_str(dbus_address)),
{
    let mut r = CommandPlan::new("xfconf-query");
    r.arg("-c");
    r.arg(setting.channel.as_str());
    r.arg("-p");
    r.arg(setting.property.as_str());
    r.arg("-n");
    r.arg("-t");
    r.arg(setting.kind.as_str());
    r.arg("-s");
    r.arg(setting.value.as_str());
    r.env("DISPLAY", x_display);
    match dbus_address {
        Some(address) => {
            r.env("DBUS_SESSION_BUS_ADDRESS", address);
        },
        None => {},
    }
    r
}

/// What follows once the desktop is up, in this order.
#[derive(Debug, Clone)]
pub struct FollowUp {
    /// The keyring to start.
    pub keyring: Option<KeyringLaunch>,
    /// The commands that apply the settings.
    pub settings: Vec<CommandPlan>,
}

/// The programs that commands run.
pub open spec fn invocations(plans: Seq<CommandPlan>) -> Seq<Invocation> {
    plans.map_values(|plan: CommandPlan| plan@)
}

/// What follows once the desktop is up: the keyring where the session's bus is known,
/// and the settings in a first session. Later sessions keep what the user changed.
pub fn after_start(
    display_num: u32,
    dbus_address: Option<&str>,
    is_first_session: bool,
    home: &str,
) -> (r: FollowUp)
    ensures
        match (opt_str(dbus_address), r.keyring) {
            (Some(bus), Some(launch)) => is_keyring_launch(launch, display_num, bus, home@),
            (None, None) => true,
            _ => false,
        },
        invocations(r.settings@) == if is_first_session {
            first_session_settings().map_values(
                |s: (Seq<char>, Seq<char>, Seq<char>, Seq<char>)|
                    xfconf_invocation(
                        s,
                        ":"@ + decimal(display_num as nat),
                        opt_str(dbus_address),
                    ),
            )
        } else {
            Seq::empty()
        },
{
    let keyring: Option<KeyringLaunch> = match dbus_address {
        Some(bus) => Some(keyring_launch(display_num, bus, home)),
        None => None,
    };
    let mut commands: Vec<CommandPlan> = Vec::new();
    if !is_first_session {
        assert(invocations(commands@) =~= Seq::empty());
        return FollowUp { keyring, settings: commands };
    }
    let display: String = display_name(display_num);
    let settings: Vec<XfconfSetting> = xfconf_settings();
    let ghost all = first_session_settings();
    let ghost want = all.map_values(
        |s: (Seq<char>, Seq<char>, Seq<char>, Seq<char>)|
            xfconf_invocation(s, display@, opt_str(dbus_address)),
    );
    assert(all.len() == settings@.len());
    let mut i: usize = 0;
    assert(invocations(commands@) =~= want.take(0));
    while i < settings.len()
        invariant
            i <= settings@.len(),
            all == setting_texts(settings@),
            want == all.map_values(
                |s: (Seq<char>, Seq<char>, Seq<char>, Seq<char>)|
                    xfconf_invocation(s, display@, opt_str(dbus_address)),
            ),
            invocations(commands@) == want.take(i as int),
        decreases settings.len() - i,
    {
        let command: CommandPlan = xfconf_command(&settings[i], display.as_str(), dbus_address);
        let ghost before = invocations(commands@);
        let ghost next = command@;
        assert(all[i as int] == settings@[i as int]@);
        commands.push(command);
        assert(invocations(commands@) =~= before.push(next));
        i = i + 1;
        assert(want.take(i as int) =~= want.take(i - 1).push(want[i - 1]));
    }
    assert(want.take(want.len() as int) =~= want);
    FollowUp { keyring, settings: commands }
}

/// What to do after a look for the session's bus.
#[derive(Debug, Clone, Copy, PartialEq, Eq, Structural)]
pub enum BusStep {
    /// It was found.
    Found,
    /// Look again.
    Retry,
    /// Do without it.
    GiveUp,
}

/// What to do after the `attempt`-th look for the session's bus, from 1 on.
pub fn bus_step(attempt: u32, found: bool) -> (r: BusStep)
    ensures
        r == (if found {
            BusStep::Found
        } else if attempt < DBUS_ATTEMPTS {
            BusStep::Retry
        } else {
            BusStep::GiveUp
        }),
{
    if found {
        BusStep::Found
    } else if attempt < DBUS_ATTEMPTS {
        BusStep::Retry
    } else {
        BusStep::GiveUp
    }
}

/// A process's variables are the pieces between the zeros of its environment.
pub proof fn variables_end_at_zeros(front: Seq<u8>, piece: Seq<u8>)
    requires
        forall|i: int| 0 <= i < piece.len() ==> #[trigger] piece[i] != 0,
    ensures
        split_at_zero(front.push(0) + piece) == split_at_zero(front).push(piece),
        split_at_zero(piece) == seq![piece],
    decreases piece.len(),
{
    let all = front.push(0) + piece;
    if piece.len() == 0 {
        assert(all =~= front.push(0));
        assert(all.drop_last() =~= front);
        assert(piece =~= Seq::empty());
        assert(split_at_zero(all) =~= split_at_zero(front).push(piece));
    } else {
        let short = piece.drop_last();
        assert forall|i: int| 0 <= i < short.len() implies #[trigger] short[i] != 0 by {
            assert(short[i] == piece[i]);
        }
        variables_end_at_zeros(front, short);
        assert(piece[piece.len() - 1] == piece.last());
        assert(all.drop_last() =~= front.push(0) + short);
        assert(all.last() == piece.last());
        assert(short.push(piece.last()) =~= piece);
        assert(split_at_zero(all) =~= split_at_zero(front).push(piece));
        assert(split_at_zero(piece) =~= seq![piece]);
    }
}

/// A process is on a display if one of its variables says just that: a display whose name
/// merely begins alike is another one.
pub proof fn displays_are_told_apart(vars: Seq<Seq<char>>, a: u32, b: u32)
    requires
        a != b,
        forall|i: int|
            0 <= i < vars.len() ==> (#[trigger] vars[i]).len() < 8 || vars[i].take(8) != "DISPLAY="@
                || vars[i] == "DISPLAY="@ + (":"@ + decimal(b as nat)),
    ensures
        !names_display(vars, ":"@ + decimal(a as nat)),
        names_display(
            vars.push("DISPLAY="@ + (":"@ + decimal(a as nat))),
            ":"@ + decimal(a as nat),
        ),
{
    let wanted = "DISPLAY="@ + (":"@ + decimal(a as nat));
    let other = "DISPLAY="@ + (":"@ + decimal(b as nat));
    reveal_strlit("DISPLAY=");
    assert(wanted.take(8) =~= "DISPLAY="@);
    crate::text::numbered_texts_differ("DISPLAY=:"@, a as nat, b as nat, Seq::empty());
    reveal_strlit("DISPLAY=:");
    reveal_strlit(":");
    assert("DISPLAY=:"@ =~= "DISPLAY="@ + ":"@);
    assert(wanted =~= "DISPLAY=:"@ + decimal(a as nat));
    assert(other =~= "DISPLAY=:"@ + decimal(b as nat));
    if vars.contains(wanted) {
        let i = choose|i: int| 0 <= i < vars.len() && vars[i] == wanted;
        assert(vars[i] == wanted);
    }
    assert(vars.push(wanted)[vars.len() as int] == wanted);
}

/// Of several bus addresses in an environment the last counts; other variables do not.
pub proof fn last_bus_address_counts(vars: Seq<Seq<char>>, address: Seq<char>, other: Seq<char>)
    requires
        other.len() < 25 || other.take(25) != "DBUS_SESSION_BUS_ADDRESS="@,
    ensures
        last_bus_address(vars.push("DBUS_SESSION_BUS_ADDRESS="@ + address)) == Some(address),
        last_bus_address(vars.push(other)) == last_bus_address(vars),
        last_bus_address(Seq::empty()) is None,
{
    let var = "DBUS_SESSION_BUS_ADDRESS="@ + address;
    reveal_strlit("DBUS_SESSION_BUS_ADDRESS=");
    assert(var.subrange(0, 25) =~= "DBUS_SESSION_BUS_ADDRESS="@);
    assert(var.skip(25) =~= address);
    assert(vars.push(var).drop_last() =~= vars);
    assert(vars.push(other).drop_last() =~= vars);
    if other.len() >= 25 {
        assert(other.subrange(0, 25) =~= other.take(25));
    }
}

/// The bus of the first process on the display that has one is used. Processes on other
/// displays do not count.
pub proof fn first_bus_of_the_display_is_used(
    front: Seq<Vec<u8>>,
    environ: Vec<u8>,
    back: Seq<Vec<u8>>,
    x_display: Seq<char>,
)
    requires
        forall|i: int|
            0 <= i < front.len() ==> !environ_vars(#[trigger] front[i]@).contains(
                "DISPLAY="@ + x_display,
            ) || last_bus_address(environ_vars(front[i]@)) is None,
        environ_vars(environ@).contains("DISPLAY="@ + x_display),
        last_bus_address(environ_vars(environ@)) is Some,
    ensures
        first_bus_address(front.push(environ) + back, x_display) == last_bus_address(
            environ_vars(environ@),
        ),
        first_bus_address(front, x_display) is None,
    decreases front.len(),
{
    let all = front.push(environ) + back;
    if front.len() == 0 {
        assert(all[0] == environ);
    } else {
        let rest = front.skip(1);
        assert forall|i: int| 0 <= i < rest.len() implies !environ_vars(
            #[trigger] rest[i]@,
        ).contains("DISPLAY="@ + x_display) || last_bus_address(environ_vars(rest[i]@)) is None by {
            assert(rest[i] == front[i + 1]);
        }
        first_bus_of_the_display_is_used(rest, environ, back, x_display);
        assert(all[0] == front[0]);
        assert(all.skip(1) =~= rest.push(environ) + back);
        assert(!environ_vars(front[0]@).contains("DISPLAY="@ + x_display) || last_bus_address(
            environ_vars(front[0]@),
        ) is None);
    }
}

/// XFCE is started where it is installed, openbox only where XFCE is not, and nothing where
/// neither is. In openbox a terminal of XFCE comes before another.
pub proof fn xfce_comes_before_openbox(
    display_num: u32,
    installed: DesktopPrograms,
    config_dir: Seq<char>,
    browser: Option<Seq<char>>,
    terminal: Option<Seq<char>>,
)
    ensures
        ({
            let plan = desktop_plan(display_num, installed, config_dir, browser, terminal);
            &&& installed.xfce4_session <==> (plan matches Some(p) && p is Xfce)
            &&& !installed.xfce4_session && installed.openbox <==> (plan matches Some(p)
                && p is Openbox)
            &&& plan matches Some(DesktopText::Xfce { command, .. }) ==> command.env.contains(
                ("DISPLAY"@, ":"@ + decimal(display_num as nat)),
            ) && command.env.contains(("XDG_CONFIG_HOME"@, config_dir))
            &&& plan matches Some(DesktopText::Openbox { terminal: Some(t), .. }) ==> t.program
                == if installed.xfce4_terminal {
                "xfce4-terminal"@
            } else {
                "xterm"@
            }
            &&& plan matches Some(DesktopText::Openbox { terminal: None, .. })
                ==> !installed.xfce4_terminal && !installed.xterm
        }),
{
    let command = xfce_command(display_num, config_dir, browser, terminal);
    assert(command.env[0] == ("DISPLAY"@, ":"@ + decimal(display_num as nat)));
    assert(command.env[2] == ("XDG_CONFIG_HOME"@, config_dir));
}

/// Every line of a list of processes names one, but for blank lines.
pub proof fn every_process_is_listed(
    lines: Seq<Seq<char>>,
    before: Seq<char>,
    pid: nat,
    after: Seq<char>,
)
    requires
        crate::text::is_padding(before),
        crate::text::is_padding(after),
    ensures
        pids_in(lines.push(before + decimal(pid) + after)) == pids_in(lines).push(decimal(pid)),
        pids_in(lines.push(before)) == pids_in(lines),
{
    let digits = decimal(pid);
    let line = before + digits + after;
    crate::text::padding_is_trimmed(before, digits, after);
    crate::text::numbers_are_written_in_digits(pid);
    assert(48 <= digits[0] as u32 <= 57);
    assert(48 <= digits[digits.len() - 1] as u32 <= 57);
    crate::text::visible_ends_are_kept(digits);
    assert(lines.push(line).drop_last() =~= lines);
    crate::text::padding_is_trimmed(before, Seq::empty(), Seq::empty());
    assert(before + Seq::empty() + Seq::empty() =~= before);
    assert(lines.push(before).drop_last() =~= lines);
    assert(trim_of(Seq::empty()).len() == 0);
}

} // verus!
