//! The default configuration of a desktop: browsers, terminals and the files
//! that a fresh desktop is seeded with.

use crate::gpu::opt_text;
use crate::text::{contains, has_prefix, joined, occurs_in, same_text, trim, trim_of};
use vstd::prelude::*;

verus! {

// ---------------------------------------------------------------------------
// Applications
// ---------------------------------------------------------------------------

/// What is known of an application.
#[derive(Debug, Clone, PartialEq, Eq)]
pub struct AppProbe {
    pub name: String,
    /// Whether a program of this name is on the search path.
    pub installed: bool,
    /// Whether that program is a snap.
    pub snap: bool,
}

/// The first application that is installed and no snap.
pub open spec fn first_usable(candidates: Seq<AppProbe>) -> Option<Seq<char>>
    decreases candidates.len(),
{
    if candidates.len() == 0 {
        None
    } else if candidates[0].installed && !candidates[0].snap {
        Some(candidates[0].name@)
    } else {
        first_usable(candidates.skip(1))
    }
}

/// Finds the first application among the candidates that is no snap. Snaps need
/// a login session and control groups that agent sessions do not have.
pub fn find_non_snap_app(candidates: &[AppProbe]) -> (r: Option<&str>)
    ensures
        match first_usable(candidates@) {
            Some(name) => r is Some && r->0@ == name,
            None => r is None,
        },
{
    let mut i: usize = 0;
    assert(candidates@.skip(0) =~= candidates@);
    while i < candidates.len()
        invariant
            i <= candidates@.len(),
            first_usable(candidates@) == first_usable(candidates@.skip(i as int)),
        decreases candidates.len() - i,
    {
        if candidates[i].installed && !candidates[i].snap {
            return Some(candidates[i].name.as_str());
        }
        assert(candidates@.skip(i as int).skip(1) =~= candidates@.skip(i + 1));
        i = i + 1;
    }
    None
}

/// Whether a program is a snap: its path lies under `/snap/`, or it is a script
/// that hands over to one. `which_stdout` is what `which` printed, `contents`
/// the program file as text, each where it could be had.
pub fn is_snap_binary(which_stdout: Option<&str>, contents: Option<&str>) -> (r: bool)
    ensures
        r == (match which_stdout {
            Some(path) => {
                ||| "/snap/"@.is_prefix_of(trim_of(path@))
                ||| contents is Some && (occurs_in(contents->0@, "/snap/bin/"@) || occurs_in(
                    contents->0@,
                    "exec snap"@,
                ))
            },
            None => false,
        }),
{
    match which_stdout {
        Some(path) => {
            if has_prefix(trim(path), "/snap/") {
                return true;
            }
            match contents {
                Some(text) => contains(text, "/snap/bin/") || contains(text, "exec snap"),
                None => false,
            }
        },
        None => false,
    }
}

/// The first plugin of the panel: the Whisker menu where it is installed.
pub fn pick_panel_plugin(has_whiskermenu: bool) -> (r: &'static str)
    ensures
        r@ == (if has_whiskermenu {
            "whiskermenu"@
        } else {
            "applicationsmenu"@
        }),
{
    if has_whiskermenu {
        "whiskermenu"
    } else {
        "applicationsmenu"
    }
}

/// The XFCE helper id of a browser; its own name where none is known.
pub open spec fn helper_id_of(browser: Seq<char>) -> Seq<char> {
    if browser == "google-chrome-stable"@ || browser == "google-chrome"@ {
        "google-chrome"@
    } else if browser == "chromium-browser"@ || browser == "chromium"@ {
        "chromium"@
    } else if browser == "epiphany-browser"@ {
        "epiphany"@
    } else {
        browser
    }
}

/// Maps a browser's program name to the helper id that XFCE knows it by.
pub fn browser_to_helper_id<'a>(browser: &'a str) -> (r: &'a str)
    ensures
        r@ == helper_id_of(browser@),
{
    if same_text(browser, "google-chrome-stable") || same_text(browser, "google-chrome") {
        "google-chrome"
    } else if same_text(browser, "chromium-browser") || same_text(browser, "chromium") {
        "chromium"
    } else if same_text(browser, "epiphany-browser") {
        "epiphany"
    } else {
        browser
    }
}

/// The desktop file of a browser; empty where none is known.
pub open spec fn desktop_file_of(browser: Seq<char>) -> Seq<char> {
    if browser == "firefox-esr"@ {
        "firefox-esr.desktop"@
    } else if browser == "firefox"@ {
        "firefox.desktop"@
    } else if browser == "google-chrome-stable"@ || browser == "google-chrome"@ {
        "google-chrome.desktop"@
    } else if browser == "chromium-browser"@ || browser == "chromium"@ {
        "chromium-browser.desktop"@
    } else if browser == "epiphany-browser"@ {
        "org.gnome.Epiphany.desktop"@
    } else {
        Seq::empty()
    }
}

/// Maps a browser's program name to its desktop file in
/// `/usr/share/applications/`; empty where none is known.
pub fn browser_to_desktop_file(browser: &str) -> (r: &'static str)
    ensures
        r@ == desktop_file_of(browser@),
{
    if same_text(browser, "firefox-esr") {
        "firefox-esr.desktop"
    } else if same_text(browser, "firefox") {
        "firefox.desktop"
    } else if same_text(browser, "google-chrome-stable") || same_text(browser, "google-chrome") {
        "google-chrome.desktop"
    } else if same_text(browser, "chromium-browser") || same_text(browser, "chromium") {
        "chromium-browser.desktop"
    } else if same_text(browser, "epiphany-browser") {
        "org.gnome.Epiphany.desktop"
    } else {
        proof {
            reveal_strlit("");
        }
        assert(""@ =~= Seq::<char>::empty());
        ""
    }
}

/// A line of settings, or nothing where there is no value for it.
pub open spec fn setting_line(key: Seq<char>, value: Option<Seq<char>>) -> Seq<char> {
    match value {
        Some(v) => key + v + "\n"@,
        None => Seq::empty(),
    }
}

/// The text of an optional string slice.
pub open spec fn opt_str(s: Option<&str>) -> Option<Seq<char>> {
    match s {
        Some(t) => Some(t@),
        None => None,
    }
}

/// The contents of helpers.rc.
pub open spec fn helpers_rc(terminal: Option<Seq<char>>, browser: Option<Seq<char>>) -> Seq<char> {
    "[Default]\n"@ + setting_line("TerminalEmulator="@, terminal) + setting_line(
        "WebBrowser="@,
        match browser {
            Some(b) => Some(helper_id_of(b)),
            None => None,
        },
    )
}

/// Builds the contents of helpers.rc from the terminal and browser that were
/// found.
pub fn build_helpers_rc(detected_terminal: Option<&str>, detected_browser: Option<&str>) -> (r:
    String)
    ensures
        r@ == helpers_rc(opt_str(detected_terminal), opt_str(detected_browser)),
{
    let mut r: String = "[Default]\n".to_owned();
    let ghost head = r@;
    match detected_terminal {
        Some(term) => {
            let mut line: String = joined("TerminalEmulator=", term);
            line.append("\n");
            r.append(line.as_str());
        },
        None => {},
    }
    assert(r@ =~= head + setting_line("TerminalEmulator="@, opt_str(detected_terminal)));
    let ghost middle = r@;
    match detected_browser {
        Some(browser) => {
            let mut line: String = joined("WebBrowser=", browser_to_helper_id(browser));
            line.append("\n");
            r.append(line.as_str());
        },
        None => {},
    }
    assert(r@ =~= helpers_rc(opt_str(detected_terminal), opt_str(detected_browser)));
    r
}

/// The contents of mimeapps.list for a desktop file.
pub open spec fn mimeapps_list(desktop_file: Seq<char>) -> Seq<char> {
    "[Default Applications]\nx-scheme-handler/http="@ + desktop_file + "\nx-scheme-handler/https="@
        + desktop_file + "\ntext/html="@ + desktop_file + "\napplication/xhtml+xml="@ + desktop_file
        + "\n"@
}

/// The contents of mimeapps.list for a browser, where its desktop file is known.
pub open spec fn browser_mimeapps(browser: Seq<char>) -> Option<Seq<char>> {
    if desktop_file_of(browser).len() == 0 {
        None
    } else {
        Some(mimeapps_list(desktop_file_of(browser)))
    }
}

/// Builds the contents of mimeapps.list for a default browser; `None` where its
/// desktop file is not known.
pub fn build_mimeapps_list(browser: &str) -> (r: Option<String>)
    ensures
        opt_text(r) == browser_mimeapps(browser@),
{
    let desktop_file: &str = browser_to_desktop_file(browser);
    if desktop_file.is_empty() {
        return None;
    }
    let mut r: String = joined("[Default Applications]\nx-scheme-handler/http=", desktop_file);
    r.append("\nx-scheme-handler/https=");
    r.append(desktop_file);
    r.append("\ntext/html=");
    r.append(desktop_file);
    r.append("\napplication/xhtml+xml=");
    r.append(desktop_file);
    r.append("\n");
    Some(r)
}

/// The browsers that are looked for, in order of preference.
pub open spec fn browser_names() -> Seq<Seq<char>> {
    seq![
        "firefox-esr"@,
        "google-chrome-stable"@,
        "google-chrome"@,
        "chromium-browser"@,
        "firefox"@,
        "chromium"@,
        "epiphany-browser"@,
    ]
}

/// The browsers that are looked for, in order of preference.
pub fn browser_candidates() -> (r: Vec<String>)
    ensures
        crate::text::texts(r@) == browser_names(),
{
    let mut r: Vec<String> = Vec::new();
    r.push("firefox-esr".to_owned());
    r.push("google-chrome-stable".to_owned());
    r.push("google-chrome".to_owned());
    r.push("chromium-browser".to_owned());
    r.push("firefox".to_owned());
    r.push("chromium".to_owned());
    r.push("epiphany-browser".to_owned());
    assert(crate::text::texts(r@) =~= browser_names());
    r
}

/// The terminals that are looked for, in order of preference.
pub open spec fn terminal_names() -> Seq<Seq<char>> {
    seq![
        "xfce4-terminal"@,
        "gnome-terminal"@,
        "xterm"@,
    ]
}

/// The terminals that are looked for, in order of preference.
pub fn terminal_candidates() -> (r: Vec<String>)
    ensures
        crate::text::texts(r@) == terminal_names(),
{
    let mut r: Vec<String> = Vec::new();
    r.push("xfce4-terminal".to_owned());
    r.push("gnome-terminal".to_owned());
    r.push("xterm".to_owned());
    assert(crate::text::texts(r@) =~= terminal_names());
    r
}

/// The autostart entries that fail or are of no use in a virtual session.
pub open spec fn autostart_names() -> Seq<Seq<char>> {
    seq![
        "update-notifier.desktop"@,
        "polkit-gnome-authentication-agent-1.desktop"@,
        "pulseaudio.desktop"@,
        "tracker-miner-fs-3.desktop"@,
        "snap-userd-autostart.desktop"@,
        "spice-vdagent.desktop"@,
        "ubuntu-advantage-notification.desktop"@,
        "ubuntu-report-on-upgrade.desktop"@,
        "gnome-initial-setup-copy-worker.desktop"@,
        "gnome-initial-setup-first-login.desktop"@,
        "org.gnome.DejaDup.Monitor.desktop"@,
        "org.gnome.Evolution-alarm-notify.desktop"@,
    ]
}

/// The autostart entries that fail or are of no use in a virtual session.
pub fn autostart_candidates() -> (r: Vec<String>)
    ensures
        crate::text::texts(r@) == autostart_names(),
{
    let mut r: Vec<String> = Vec::new();
    r.push("update-notifier.desktop".to_owned());
    r.push("polkit-gnome-authentication-agent-1.desktop".to_owned());
    r.push("pulseaudio.desktop".to_owned());
    r.push("tracker-miner-fs-3.desktop".to_owned());
    r.push("snap-userd-autostart.desktop".to_owned());
    r.push("spice-vdagent.desktop".to_owned());
    r.push("ubuntu-advantage-notification.desktop".to_owned());
    r.push("ubuntu-report-on-upgrade.desktop".to_owned());
    r.push("gnome-initial-setup-copy-worker.desktop".to_owned());
    r.push("gnome-initial-setup-first-login.desktop".to_owned());
    r.push("org.gnome.DejaDup.Monitor.desktop".to_owned());
    r.push("org.gnome.Evolution-alarm-notify.desktop".to_owned());
    assert(crate::text::texts(r@) =~= autostart_names());
    r
}

// ---------------------------------------------------------------------------
// Seeding
// ---------------------------------------------------------------------------

/// Window manager: no compositor, no zoom animation, full opacity, dark theme.
pub const XFWM4_XML: &'static str = r#"<?xml version="1.0" encoding="UTF-8"?>
<channel name="xfwm4" version="1.0">
  <property name="general" type="empty">
    <property name="use_compositing" type="bool" value="false"/>
    <property name="zoom_desktop" type="bool" value="false"/>
    <property name="popup_opacity" type="int" value="100"/>
    <property name="move_opacity" type="int" value="100"/>
    <property name="resize_opacity" type="int" value="100"/>
    <property name="theme" type="string" value="Arc-Dark"/>
  </property>
</channel>
"#;

/// GTK: no animations, no menu delays, no cursor blink, dark theme and icons.
pub const XSETTINGS_XML: &'static str = r#"<?xml version="1.0" encoding="UTF-8"?>
<channel name="xsettings" version="1.0">
  <property name="Gtk" type="empty">
    <property name="MenuPopupDelay" type="int" value="0"/>
    <property name="MenuPopdownDelay" type="int" value="0"/>
    <property name="CursorBlink" type="bool" value="false"/>
  </property>
  <property name="Net" type="empty">
    <property name="EnableAnimations" type="bool" value="false"/>
    <property name="ThemeName" type="string" value="Arc-Dark"/>
    <property name="IconThemeName" type="string" value="Papirus-Dark"/>
  </property>
</channel>
"#;

/// Session: no splash screen.
pub const SESSION_XML: &'static str = r#"<?xml version="1.0" encoding="UTF-8"?>
<channel name="xfce4-session" version="1.0">
  <property name="splash" type="empty">
    <property name="Engine" type="string" value=""/>
  </property>
</channel>
"#;

/// Panel, up to the name of its first plugin.
pub const PANEL_XML_HEAD: &'static str = r#"<?xml version="1.0" encoding="UTF-8"?>
<channel name="xfce4-panel" version="1.0">
  <property name="panels" type="array">
    <value type="int" value="1"/>
    <property name="panel-1" type="empty">
      <property name="plugin-ids" type="array">
        <value type="int" value="1"/>
        <value type="int" value="2"/>
        <value type="int" value="3"/>
        <value type="int" value="4"/>
        <value type="int" value="5"/>
        <value type="int" value="6"/>
      </property>
      <property name="position" type="string" value="p=6;x=0;y=0"/>
      <property name="position-locked" type="bool" value="true"/>
      <property name="size" type="uint" value="28"/>
    </property>
  </property>
  <property name="plugins" type="empty">
    <property name="plugin-1" type="string" value=""#;

/// Panel, behind the name of its first plugin.
pub const PANEL_XML_TAIL: &'static str = r#""/>
    <property name="plugin-2" type="string" value="tasklist"/>
    <property name="plugin-3" type="string" value="separator">
      <property name="expand" type="bool" value="true"/>
      <property name="style" type="uint" value="0"/>
    </property>
    <property name="plugin-4" type="string" value="systray"/>
    <property name="plugin-5" type="string" value="clock"/>
    <property name="plugin-6" type="string" value="actions"/>
  </property>
</channel>
"#;

/// Wallpaper.
pub const DESKTOP_XML: &'static str = r#"<?xml version="1.0" encoding="UTF-8"?>
<channel name="xfce4-desktop" version="1.0">
  <property name="backdrop" type="empty">
    <property name="screen0" type="empty">
      <property name="monitorDUMMY0" type="empty">
        <property name="workspace0" type="empty">
          <property name="last-image" type="string" value="/usr/share/backgrounds/xfce/xfce-shapes.svg"/>
          <property name="image-style" type="int" value="5"/>
          <property name="color-style" type="int" value="0"/>
        </property>
      </property>
    </property>
  </property>
</channel>
"#;

/// Keyboard shortcuts: Alt+F2 opens the application finder.
pub const SHORTCUTS_XML: &'static str = r#"<?xml version="1.0" encoding="UTF-8"?>
<channel name="xfce4-keyboard-shortcuts" version="1.0">
  <property name="commands" type="empty">
    <property name="custom" type="empty">
      <property name="&lt;Alt&gt;F2" type="string" value="xfce4-appfinder --collapsed"/>
    </property>
  </property>
</channel>
"#;

/// GTK 3: no animations, menu delays or cursor blink.
pub const GTK_SETTINGS: &'static str = "[Settings]
gtk-enable-animations=false
gtk-menu-popup-delay=0
gtk-menu-popdown-delay=0
gtk-cursor-blink=false
";

/// GTK 3 style: no CSS transitions, which the settings do not cover.
pub const GTK_CSS: &'static str = "* { transition-duration: 0s !important; animation-duration: 0s !important; }
";

/// An autostart entry that masks the system's entry of the same name.
pub const HIDDEN_ENTRY: &'static str = "[Desktop Entry]
Hidden=true
";

/// A file to write.
#[derive(Debug, Clone, PartialEq, Eq)]
pub struct SeedFile {
    pub path: String,
    pub contents: String,
}

impl View for SeedFile {
    type V = (Seq<char>, Seq<char>);

    open spec fn view(&self) -> (Seq<char>, Seq<char>) {
        (self.path@, self.contents@)
    }
}

/// The directories and files that a fresh desktop configuration consists of.
#[derive(Debug, Clone)]
pub struct SeedPlan {
    pub dirs: Vec<String>,
    pub files: Vec<SeedFile>,
}

/// Where XFCE keeps its channels in a configuration directory.
pub open spec fn xfconf_dir(config_dir: Seq<char>) -> Seq<char> {
    config_dir + "/xfce4/xfconf/xfce-perchannel-xml"@
}

/// The directories of a fresh configuration.
pub open spec fn seed_dirs(config_dir: Seq<char>) -> Seq<Seq<char>> {
    seq![
        xfconf_dir(config_dir),
        config_dir + "/gtk-3.0"@,
        config_dir + "/autostart"@,
        config_dir + "/xfce4"@,
    ]
}

/// The masked autostart entries of a fresh configuration.
pub open spec fn autostart_files(config_dir: Seq<char>, names: Seq<Seq<char>>) -> Seq<
    (Seq<char>, Seq<char>),
> {
    names.map_values(|name: Seq<char>| (config_dir + "/autostart"@ + "/"@ + name, HIDDEN_ENTRY@))
}

/// The files of a fresh configuration, with their contents.
pub open spec fn seed_files(
    config_dir: Seq<char>,
    has_whiskermenu: bool,
    browser: Option<Seq<char>>,
    terminal: Option<Seq<char>>,
) -> Seq<(Seq<char>, Seq<char>)> {
    let xfconf = xfconf_dir(config_dir);
    let gtk = config_dir + "/gtk-3.0"@;
    let plugin = if has_whiskermenu {
        "whiskermenu"@
    } else {
        "applicationsmenu"@
    };
    seq![
        (xfconf + "/xfwm4.xml"@, XFWM4_XML@),
        (xfconf + "/xsettings.xml"@, XSETTINGS_XML@),
        (xfconf + "/xfce4-session.xml"@, SESSION_XML@),
        (xfconf + "/xfce4-panel.xml"@, PANEL_XML_HEAD@ + plugin + PANEL_XML_TAIL@),
        (xfconf + "/xfce4-desktop.xml"@, DESKTOP_XML@),
        (xfconf + "/xfce4-keyboard-shortcuts.xml"@, SHORTCUTS_XML@),
        (gtk + "/settings.ini"@, GTK_SETTINGS@),
        (gtk + "/gtk.css"@, GTK_CSS@),
    ] + autostart_files(config_dir, autostart_names()) + seq![
        (config_dir + "/xfce4"@ + "/helpers.rc"@, helpers_rc(terminal, browser)),
    ] + (match browser {
        Some(b) => match browser_mimeapps(b) {
            Some(list) => seq![(config_dir + "/mimeapps.list"@, list)],
            None => Seq::empty(),
        },
        None => Seq::empty(),
    })
}

/// What files the vector holds.
pub open spec fn file_texts(v: Seq<SeedFile>) -> Seq<(Seq<char>, Seq<char>)> {
    v.map_values(|f: SeedFile| f@)
}

/// Adds a file to the list.
fn add_file(files: &mut Vec<SeedFile>, dir: &str, name: &str, contents: &str)
    ensures
        file_texts(final(files)@) == file_texts(old(files)@).push((dir@ + name@, contents@)),
{
    files.push(SeedFile { path: joined(dir, name), contents: contents.to_owned() });
    assert(file_texts(files@) =~= file_texts(old(files)@).push((dir@ + name@, contents@)));
}

/// The default configuration of a fresh desktop: XFCE's channels, GTK settings,
/// masked autostart entries, and the default browser and terminal.
pub fn seed_default_config(
    config_dir: &str,
    has_whiskermenu: bool,
    detected_browser: Option<&str>,
    detected_terminal: Option<&str>,
) -> (r: SeedPlan)
    ensures
        crate::text::texts(r.dirs@) == seed_dirs(config_dir@),
        file_texts(r.files@) == seed_files(
            config_dir@,
            has_whiskermenu,
            opt_str(detected_browser),
            opt_str(detected_terminal),
        ),
{
    let xfconf: String = joined(config_dir, "/xfce4/xfconf/xfce-perchannel-xml");
    let gtk: String = joined(config_dir, "/gtk-3.0");
    let autostart: String = joined(config_dir, "/autostart");
    let helpers: String = joined(config_dir, "/xfce4");
    let mut dirs: Vec<String> = Vec::new();
    dirs.push(xfconf.clone());
    dirs.push(gtk.clone());
    dirs.push(autostart.clone());
    dirs.push(helpers.clone());
    assert(crate::text::texts(dirs@) =~= seed_dirs(config_dir@));
    let mut panel: String = joined(PANEL_XML_HEAD, pick_panel_plugin(has_whiskermenu));
    panel.append(PANEL_XML_TAIL);
    let mut files: Vec<SeedFile> = Vec::new();
    add_file(&mut files, xfconf.as_str(), "/xfwm4.xml", XFWM4_XML);
    add_file(&mut files, xfconf.as_str(), "/xsettings.xml", XSETTINGS_XML);
    add_file(&mut files, xfconf.as_str(), "/xfce4-session.xml", SESSION_XML);
    add_file(&mut files, xfconf.as_str(), "/xfce4-panel.xml", panel.as_str());
    add_file(&mut files, xfconf.as_str(), "/xfce4-desktop.xml", DESKTOP_XML);
    add_file(&mut files, xfconf.as_str(), "/xfce4-keyboard-shortcuts.xml", SHORTCUTS_XML);
    add_file(&mut files, gtk.as_str(), "/settings.ini", GTK_SETTINGS);
    add_file(&mut files, gtk.as_str(), "/gtk.css", GTK_CSS);
    let ghost first = file_texts(files@);
    let masked: Vec<String> = autostart_candidates();
    let autostart_slash: String = joined(autostart.as_str(), "/");
    let ghost names = autostart_names();
    let ghost all_masked = autostart_files(config_dir@, names);
    let mut i: usize = 0;
    assert(first + all_masked.take(0) =~= first);
    while i < masked.len()
        invariant
            i <= masked@.len(),
            names == crate::text::texts(masked@),
            all_masked == autostart_files(config_dir@, names),
            autostart_slash@ == config_dir@ + "/autostart"@ + "/"@,
            file_texts(files@) == first + all_masked.take(i as int),
        decreases masked.len() - i,
    {
        add_file(&mut files, autostart_slash.as_str(), masked[i].as_str(), HIDDEN_ENTRY);
        i = i + 1;
        assert(all_masked[i - 1].0 == autostart_slash@ + masked@[i - 1]@);
        assert(all_masked.take(i as int) =~= all_masked.take(i - 1).push(all_masked[i - 1]));
        assert(file_texts(files@) =~= first + all_masked.take(i as int));
    }
    assert(all_masked.take(all_masked.len() as int) =~= all_masked);
    let rc: String = build_helpers_rc(detected_terminal, detected_browser);
    add_file(&mut files, helpers.as_str(), "/helpers.rc", rc.as_str());
    match detected_browser {
        Some(browser) => {
            match build_mimeapps_list(browser) {
                Some(list) => {
                    add_file(&mut files, config_dir, "/mimeapps.list", list.as_str());
                },
                None => {},
            }
        },
        None => {},
    }
    assert(file_texts(files@) =~= seed_files(
        config_dir@,
        has_whiskermenu,
        opt_str(detected_browser),
        opt_str(detected_terminal),
    ));
    SeedPlan { dirs, files }
}

/// Where the desktop configuration of a home directory lives, and whether it is
/// still to be set up.
#[derive(Debug, Clone)]
pub struct PersistentConfig {
    pub config_dir: String,
    /// Whether this is the first session, which seeds the configuration.
    pub is_first_session: bool,
    /// The file for the version of the configuration's layout.
    pub version_path: String,
    /// The file that marks the configuration as complete; written last.
    pub sentinel_path: String,
}

/// What the version file of a configuration holds.
pub const CONFIG_VERSION: &'static str = "1";

/// The agent's directory in a home directory.
pub open spec fn beam_dir(home: Seq<char>) -> Seq<char> {
    home + "/.local/share/beam"@
}

/// The file that marks the configuration of a home directory as complete.
pub fn sentinel_path(home: &str) -> (r: String)
    ensures
        r@ == beam_dir(home@) + "/.initialized"@,
{
    joined(joined(home, "/.local/share/beam").as_str(), "/.initialized")
}

/// Where the desktop configuration of a home directory lives. It is seeded in
/// the first session only, so that later sessions keep what the user changed.
pub fn try_persistent_config_in(home: &str, sentinel_exists: bool) -> (r: PersistentConfig)
    ensures
        r.config_dir@ == beam_dir(home@) + "/config"@,
        r.is_first_session == !sentinel_exists,
        r.version_path@ == beam_dir(home@) + "/.config-version"@,
        r.sentinel_path@ == beam_dir(home@) + "/.initialized"@,
{
    let dir: String = joined(home, "/.local/share/beam");
    PersistentConfig {
        config_dir: joined(dir.as_str(), "/config"),
        is_first_session: !sentinel_exists,
        version_path: joined(dir.as_str(), "/.config-version"),
        sentinel_path: joined(dir.as_str(), "/.initialized"),
    }
}

/// The configuration directory of a session and whether it is seeded in it: the
/// home directory's, or a temporary one, fresh, where that could not be used.
pub fn ensure_persistent_config(display_num: u32, persistent: Option<PersistentConfig>) -> (r: (
    String,
    bool,
))
    ensures
        match persistent {
            Some(p) => r.0@ == p.config_dir@ && r.1 == p.is_first_session,
            None => r.0@ == "/tmp/beam-xfce-"@ + crate::text::decimal(display_num as nat) && r.1,
        },
{
    match persistent {
        Some(p) => (p.config_dir, p.is_first_session),
        None => (crate::display::fallback_config_dir(display_num), true),
    }
}

/// The first program that is installed and is no snap is taken, whatever stands behind it;
/// none is taken where there is no such program.
pub proof fn first_usable_program_is_taken(
    front: Seq<AppProbe>,
    program: AppProbe,
    back: Seq<AppProbe>,
)
    requires
        forall|i: int|
            0 <= i < front.len() ==> !(#[trigger] front[i]).installed || front[i].snap,
        program.installed,
        !program.snap,
    ensures
        first_usable(front.push(program) + back) == Some(program.name@),
        first_usable(front) is None,
    decreases front.len(),
{
    let all = front.push(program) + back;
    if front.len() == 0 {
        assert(all[0] == program);
    } else {
        let rest = front.skip(1);
        assert forall|i: int| 0 <= i < rest.len() implies !(#[trigger] rest[i]).installed
            || rest[i].snap by {
            assert(rest[i] == front[i + 1]);
        }
        first_usable_program_is_taken(rest, program, back);
        assert(all[0] == front[0]);
        assert(all.skip(1) =~= rest.push(program) + back);
        assert(!front[0].installed || front[0].snap);
    }
}

/// Everything that is seeded lies below the directory of the configuration.
pub proof fn seeds_stay_in_the_configuration(
    config_dir: Seq<char>,
    has_whiskermenu: bool,
    browser: Option<Seq<char>>,
    terminal: Option<Seq<char>>,
    i: int,
)
    ensures
        0 <= i < seed_dirs(config_dir).len() ==> is_below(seed_dirs(config_dir)[i], config_dir),
        0 <= i < seed_files(config_dir, has_whiskermenu, browser, terminal).len() ==> is_below(
            seed_files(config_dir, has_whiskermenu, browser, terminal)[i].0,
            config_dir,
        ),
{
    let dirs = seed_dirs(config_dir);
    let files = seed_files(config_dir, has_whiskermenu, browser, terminal);
    reveal_strlit("/xfce4/xfconf/xfce-perchannel-xml");
    reveal_strlit("/gtk-3.0");
    reveal_strlit("/autostart");
    reveal_strlit("/xfce4");
    reveal_strlit("/mimeapps.list");
    reveal_strlit("/xfwm4.xml");
    reveal_strlit("/xsettings.xml");
    reveal_strlit("/xfce4-session.xml");
    reveal_strlit("/xfce4-panel.xml");
    reveal_strlit("/xfce4-desktop.xml");
    reveal_strlit("/xfce4-keyboard-shortcuts.xml");
    reveal_strlit("/settings.ini");
    reveal_strlit("/gtk.css");
    reveal_strlit("/helpers.rc");
    reveal_strlit("/");
    let xfconf = xfconf_dir(config_dir);
    let gtk = config_dir + "/gtk-3.0"@;
    if 0 <= i < files.len() {
        let path = files[i].0;
        let n = config_dir.len() as int;
        assert(path.len() > n && path[n] == '/' && path.take(n) =~= config_dir);
    }
    if 0 <= i < dirs.len() {
        assert(dirs[i].take(config_dir.len() as int) =~= config_dir);
    }
}

/// Whether a path leads on from a directory's.
pub open spec fn is_below(path: Seq<char>, dir: Seq<char>) -> bool {
    &&& path.len() > dir.len()
    &&& path.take(dir.len() as int) == dir
    &&& path[dir.len() as int] == '/'
}

/// Every browser that is looked for has a desktop file, and so is made the default where it
/// is found; the names of one browser have the same file and the same helper.
pub proof fn every_browser_can_be_the_default(i: int)
    requires
        0 <= i < browser_names().len(),
    ensures
        desktop_file_of(browser_names()[i]).len() > 0,
        browser_mimeapps(browser_names()[i]) is Some,
        desktop_file_of("firefox-esr"@) == "firefox-esr.desktop"@,
        desktop_file_of("google-chrome-stable"@) == "google-chrome.desktop"@,
        desktop_file_of("google-chrome"@) == "google-chrome.desktop"@,
        desktop_file_of("chromium-browser"@) == "chromium-browser.desktop"@,
        desktop_file_of("firefox"@) == "firefox.desktop"@,
        desktop_file_of("chromium"@) == "chromium-browser.desktop"@,
        desktop_file_of("epiphany-browser"@) == "org.gnome.Epiphany.desktop"@,
        helper_id_of("firefox-esr"@) == "firefox-esr"@,
        helper_id_of("google-chrome-stable"@) == "google-chrome"@,
        helper_id_of("google-chrome"@) == "google-chrome"@,
        helper_id_of("chromium-browser"@) == "chromium"@,
        helper_id_of("firefox"@) == "firefox"@,
        helper_id_of("chromium"@) == "chromium"@,
        helper_id_of("epiphany-browser"@) == "epiphany"@,
{
    reveal_strlit("firefox-esr");
    reveal_strlit("google-chrome-stable");
    reveal_strlit("google-chrome");
    reveal_strlit("chromium-browser");
    reveal_strlit("firefox");
    reveal_strlit("chromium");
    reveal_strlit("epiphany-browser");
    reveal_strlit("chromium-browser.desktop");
    assert("chromium-browser.desktop"@.len() == 24);
    reveal_strlit("firefox-esr.desktop");
    assert("firefox-esr.desktop"@.len() == 19);
    reveal_strlit("firefox.desktop");
    assert("firefox.desktop"@.len() == 15);
    reveal_strlit("google-chrome.desktop");
    assert("google-chrome.desktop"@.len() == 21);
    reveal_strlit("org.gnome.Epiphany.desktop");
    assert("org.gnome.Epiphany.desktop"@.len() == 26);
    assert("firefox-esr"@.len() == 11);
    assert("google-chrome-stable"@.len() == 20);
    assert("google-chrome"@.len() == 13);
    assert("chromium-browser"@.len() == 16);
    assert("firefox"@.len() == 7);
    assert("chromium"@.len() == 8);
    assert("epiphany-browser"@.len() == 16);
    assert("chromium-browser"@[0] != "epiphany-browser"@[0]);
    assert(browser_names()[0] == "firefox-esr"@);
    assert(browser_names()[1] == "google-chrome-stable"@);
    assert(browser_names()[2] == "google-chrome"@);
    assert(browser_names()[3] == "chromium-browser"@);
    assert(browser_names()[4] == "firefox"@);
    assert(browser_names()[5] == "chromium"@);
    assert(browser_names()[6] == "epiphany-browser"@);
}

} // verus!
