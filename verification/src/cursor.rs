//! Cursor shapes: from the names of X11 cursors to those of CSS.

use crate::text::{append_decimal, decimal, from_utf8_lossy, same_text, utf8_lossy};
use vstd::prelude::*;

verus! {

/// The CSS cursor for names that are not known.
pub const DEFAULT_CURSOR: &'static str = "default";

/// The X11 cursors that point and wait, each with the CSS cursor that it stands for.
pub open spec fn pointing_cursors() -> Seq<(Seq<char>, Seq<char>)> {
    seq![
        ("left_ptr"@, "default"@),
        ("default"@, "default"@),
        ("arrow"@, "default"@),
        ("top_left_arrow"@, "default"@),
        ("xterm"@, "text"@),
        ("text"@, "text"@),
        ("ibeam"@, "text"@),
        ("hand2"@, "pointer"@),
        ("hand1"@, "pointer"@),
        ("pointer"@, "pointer"@),
        ("pointing_hand"@, "pointer"@),
        ("hand"@, "pointer"@),
        ("watch"@, "wait"@),
        ("wait"@, "wait"@),
        ("left_ptr_watch"@, "progress"@),
        ("progress"@, "progress"@),
        ("half-busy"@, "progress"@),
        ("crosshair"@, "crosshair"@),
        ("cross"@, "crosshair"@),
        ("tcross"@, "crosshair"@),
        ("cross_reverse"@, "crosshair"@),
    ]
}

/// The X11 cursors that resize along an axis, each with the CSS cursor that it stands for.
pub open spec fn axis_cursors() -> Seq<(Seq<char>, Seq<char>)> {
    seq![
        ("sb_h_double_arrow"@, "ew-resize"@),
        ("ew-resize"@, "ew-resize"@),
        ("col-resize"@, "ew-resize"@),
        ("h_double_arrow"@, "ew-resize"@),
        ("size_hor"@, "ew-resize"@),
        ("sb_v_double_arrow"@, "ns-resize"@),
        ("ns-resize"@, "ns-resize"@),
        ("row-resize"@, "ns-resize"@),
        ("v_double_arrow"@, "ns-resize"@),
        ("size_ver"@, "ns-resize"@),
        ("top_left_corner"@, "nw-resize"@),
        ("nw-resize"@, "nw-resize"@),
        ("size_fdiag"@, "nw-resize"@),
        ("nwse-resize"@, "nw-resize"@),
        ("top_right_corner"@, "ne-resize"@),
        ("ne-resize"@, "ne-resize"@),
        ("size_bdiag"@, "ne-resize"@),
        ("nesw-resize"@, "ne-resize"@),
    ]
}

/// The X11 cursors that resize at one edge or a lower corner, each with the CSS
/// cursor that it stands for.
pub open spec fn edge_cursors() -> Seq<(Seq<char>, Seq<char>)> {
    seq![
        ("bottom_left_corner"@, "sw-resize"@),
        ("sw-resize"@, "sw-resize"@),
        ("bottom_right_corner"@, "se-resize"@),
        ("se-resize"@, "se-resize"@),
        ("top_side"@, "n-resize"@),
        ("n-resize"@, "n-resize"@),
        ("bottom_side"@, "s-resize"@),
        ("s-resize"@, "s-resize"@),
        ("left_side"@, "w-resize"@),
        ("w-resize"@, "w-resize"@),
        ("right_side"@, "e-resize"@),
        ("e-resize"@, "e-resize"@),
    ]
}

/// The X11 cursors that move, refuse and help, each with the CSS cursor that it stands for.
pub open spec fn action_cursors() -> Seq<(Seq<char>, Seq<char>)> {
    seq![
        ("fleur"@, "move"@),
        ("move"@, "move"@),
        ("all-scroll"@, "move"@),
        ("size_all"@, "move"@),
        ("not-allowed"@, "not-allowed"@),
        ("crossed_circle"@, "not-allowed"@),
        ("X_cursor"@, "not-allowed"@),
        ("forbidden"@, "not-allowed"@),
        ("no-drop"@, "not-allowed"@),
        ("question_arrow"@, "help"@),
        ("help"@, "help"@),
        ("whats_this"@, "help"@),
    ]
}

/// The X11 cursors that grab and pick, each with the CSS cursor that it stands for.
pub open spec fn grab_cursors() -> Seq<(Seq<char>, Seq<char>)> {
    seq![
        ("grab"@, "grab"@),
        ("openhand"@, "grab"@),
        ("closedhand"@, "grabbing"@),
        ("grabbing"@, "grabbing"@),
        ("dnd-move"@, "grabbing"@),
        ("dnd-copy"@, "grabbing"@),
        ("dnd-link"@, "grabbing"@),
        ("context-menu"@, "context-menu"@),
        ("plus"@, "cell"@),
        ("cell"@, "cell"@),
    ]
}

/// The names of X11 cursors, each with the CSS cursor that it stands for.
pub open spec fn cursor_table() -> Seq<(Seq<char>, Seq<char>)> {
    pointing_cursors() + axis_cursors() + edge_cursors() + action_cursors() + grab_cursors()
}

/// The CSS cursor of an X11 cursor's name in a table.
pub open spec fn css_in(table: Seq<(Seq<char>, Seq<char>)>, name: Seq<char>) -> Option<Seq<char>>
    decreases table.len(),
{
    if table.len() == 0 {
        None
    } else if table[0].0 == name {
        Some(table[0].1)
    } else {
        css_in(table.skip(1), name)
    }
}

/// A map from the names of X11 cursors to those of CSS.
#[derive(Debug, Clone)]
pub struct CursorMap {
    entries: Vec<(String, &'static str)>,
}

impl View for CursorMap {
    type V = Seq<(Seq<char>, Seq<char>)>;

    closed spec fn view(&self) -> Seq<(Seq<char>, Seq<char>)> {
        self.entries@.map_values(|e: (String, &'static str)| (e.0@, e.1@))
    }
}

impl CursorMap {
    fn new() -> (r: Self)
        ensures
            r@ == Seq::<(Seq<char>, Seq<char>)>::empty(),
    {
        let r = CursorMap { entries: Vec::new() };
        assert(r@ =~= Seq::<(Seq<char>, Seq<char>)>::empty());
        r
    }

    fn insert(&mut self, name: &str, css: &'static str)
        ensures
            final(self)@ == old(self)@.push((name@, css@)),
    {
        self.entries.push((name.to_owned(), css));
        assert(self@ =~= old(self)@.push((name@, css@)));
    }

    /// The CSS cursor of an X11 cursor, where it is known.
    pub fn get(&self, name: &str) -> (r: Option<&'static str>)
        ensures
            match css_in(self@, name@) {
                Some(css) => r is Some && r->0@ == css,
                None => r is None,
            },
    {
        let ghost table = self@;
        let mut i: usize = 0;
        assert(table.skip(0) =~= table);
        while i < self.entries.len()
            invariant
                i <= self.entries@.len(),
                table == self@,
                table.len() == self.entries@.len(),
                css_in(table, name@) == css_in(table.skip(i as int), name@),
            decreases self.entries.len() - i,
        {
            assert(table.skip(i as int)[0] == (
                self.entries@[i as int].0@,
                self.entries@[i as int].1@,
            ));
            if same_text(self.entries[i].0.as_str(), name) {
                return Some(self.entries[i].1);
            }
            assert(table.skip(i as int).skip(1) =~= table.skip(i + 1));
            i = i + 1;
        }
        None
    }
}

/// Adds the cursors that point and wait.
fn add_pointing_cursors(m: &mut CursorMap)
    ensures
        final(m)@ == old(m)@ + pointing_cursors(),
{
    m.insert("left_ptr", "default");
    m.insert("default", "default");
    m.insert("arrow", "default");
    m.insert("top_left_arrow", "default");
    m.insert("xterm", "text");
    m.insert("text", "text");
    m.insert("ibeam", "text");
    m.insert("hand2", "pointer");
    m.insert("hand1", "pointer");
    m.insert("pointer", "pointer");
    m.insert("pointing_hand", "pointer");
    m.insert("hand", "pointer");
    m.insert("watch", "wait");
    m.insert("wait", "wait");
    m.insert("left_ptr_watch", "progress");
    m.insert("progress", "progress");
    m.insert("half-busy", "progress");
    m.insert("crosshair", "crosshair");
    m.insert("cross", "crosshair");
    m.insert("tcross", "crosshair");
    m.insert("cross_reverse", "crosshair");
    assert(m@ =~= old(m)@ + pointing_cursors());
}

/// Adds the cursors that resize along an axis.
fn add_axis_cursors(m: &mut CursorMap)
    ensures
        final(m)@ == old(m)@ + axis_cursors(),
{
    m.insert("sb_h_double_arrow", "ew-resize");
    m.insert("ew-resize", "ew-resize");
    m.insert("col-resize", "ew-resize");
    m.insert("h_double_arrow", "ew-resize");
    m.insert("size_hor", "ew-resize");
    m.insert("sb_v_double_arrow", "ns-resize");
    m.insert("ns-resize", "ns-resize");
    m.insert("row-resize", "ns-resize");
    m.insert("v_double_arrow", "ns-resize");
    m.insert("size_ver", "ns-resize");
    m.insert("top_left_corner", "nw-resize");
    m.insert("nw-resize", "nw-resize");
    m.insert("size_fdiag", "nw-resize");
    m.insert("nwse-resize", "nw-resize");
    m.insert("top_right_corner", "ne-resize");
    m.insert("ne-resize", "ne-resize");
    m.insert("size_bdiag", "ne-resize");
    m.insert("nesw-resize", "ne-resize");
    assert(m@ =~= old(m)@ + axis_cursors());
}

/// Adds the cursors that resize at one edge or a lower corner.
fn add_edge_cursors(m: &mut CursorMap)
    ensures
        final(m)@ == old(m)@ + edge_cursors(),
{
    m.insert("bottom_left_corner", "sw-resize");
    m.insert("sw-resize", "sw-resize");
    m.insert("bottom_right_corner", "se-resize");
    m.insert("se-resize", "se-resize");
    m.insert("top_side", "n-resize");
    m.insert("n-resize", "n-resize");
    m.insert("bottom_side", "s-resize");
    m.insert("s-resize", "s-resize");
    m.insert("left_side", "w-resize");
    m.insert("w-resize", "w-resize");
    m.insert("right_side", "e-resize");
    m.insert("e-resize", "e-resize");
    assert(m@ =~= old(m)@ + edge_cursors());
}

/// Adds the cursors that move, refuse and help.
fn add_action_cursors(m: &mut CursorMap)
    ensures
        final(m)@ == old(m)@ + action_cursors(),
{
    m.insert("fleur", "move");
    m.insert("move", "move");
    m.insert("all-scroll", "move");
    m.insert("size_all", "move");
    m.insert("not-allowed", "not-allowed");
    m.insert("crossed_circle", "not-allowed");
    m.insert("X_cursor", "not-allowed");
    m.insert("forbidden", "not-allowed");
    m.insert("no-drop", "not-allowed");
    m.insert("question_arrow", "help");
    m.insert("help", "help");
    m.insert("whats_this", "help");
    assert(m@ =~= old(m)@ + action_cursors());
}

/// Adds the cursors that grab and pick.
fn add_grab_cursors(m: &mut CursorMap)
    ensures
        final(m)@ == old(m)@ + grab_cursors(),
{
    m.insert("grab", "grab");
    m.insert("openhand", "grab");
    m.insert("closedhand", "grabbing");
    m.insert("grabbing", "grabbing");
    m.insert("dnd-move", "grabbing");
    m.insert("dnd-copy", "grabbing");
    m.insert("dnd-link", "grabbing");
    m.insert("context-menu", "context-menu");
    m.insert("plus", "cell");
    m.insert("cell", "cell");
    assert(m@ =~= old(m)@ + grab_cursors());
}

/// The map from the names of X11 cursors to those of CSS.
pub fn build_cursor_map() -> (r: CursorMap)
    ensures
        r@ == cursor_table(),
{
    let mut m = CursorMap::new();
    add_pointing_cursors(&mut m);
    add_axis_cursors(&mut m);
    add_edge_cursors(&mut m);
    add_action_cursors(&mut m);
    add_grab_cursors(&mut m);
    assert(m@ =~= cursor_table());
    m
}

/// The CSS cursor of an X11 cursor; the default where its name is not known.
pub open spec fn css_of(name: Seq<char>) -> Seq<char> {
    match css_in(cursor_table(), name) {
        Some(css) => css,
        None => DEFAULT_CURSOR@,
    }
}

/// The CSS cursor of an X11 cursor whose name could be read; the default where
/// it could not.
pub open spec fn css_of_reply(name: Option<Seq<char>>) -> Seq<char> {
    match name {
        Some(n) => css_of(n),
        None => DEFAULT_CURSOR@,
    }
}

/// Follows the cursor of a display and decides when the browser is told.
#[derive(Debug, Clone)]
pub struct CursorMonitor {
    map: CursorMap,
    last_css: String,
    last_serial: u32,
}

impl CursorMonitor {
    /// The CSS cursor that the browser was told last; empty at first.
    pub closed spec fn shown(self) -> Seq<char> {
        self.last_css@
    }

    /// The serial number of the last cursor that was looked at.
    pub closed spec fn serial(self) -> u32 {
        self.last_serial
    }

    /// Whether the monitor's map is the table of cursor names.
    pub closed spec fn wf(self) -> bool {
        self.map@ == cursor_table()
    }

    /// A monitor that has seen no cursor.
    pub fn new() -> (r: Self)
        ensures
            r.wf(),
            r.shown() == Seq::<char>::empty(),
            r.serial() == 0,
    {
        CursorMonitor { map: build_cursor_map(), last_css: String::new(), last_serial: 0 }
    }

    fn css(&self, name: &str) -> (r: &'static str)
        requires
            self.wf(),
        ensures
            r@ == css_of(name@),
    {
        match self.map.get(name) {
            Some(css) => css,
            None => DEFAULT_CURSOR,
        }
    }

    /// Takes the cursor that is shown at the start. Gives the CSS cursor to tell
    /// the browser.
    pub fn initial(&mut self, name: &str, serial: u32) -> (r: String)
        requires
            old(self).wf(),
        ensures
            final(self).wf(),
            r@ == css_of(name@),
            final(self).shown() == r@,
            final(self).serial() == serial,
    {
        let css: &'static str = self.css(name);
        self.last_css = css.to_owned();
        self.last_serial = serial;
        css.to_owned()
    }

    /// Takes the notice that the cursor changed. Whether it is another cursor
    /// than the last one, and its name is to be read.
    pub fn notify(&mut self, serial: u32) -> (r: bool)
        ensures
            final(self).wf() == old(self).wf(),
            final(self).shown() == old(self).shown(),
            final(self).serial() == serial,
            r == (serial != old(self).serial()),
    {
        if serial == self.last_serial {
            return false;
        }
        self.last_serial = serial;
        true
    }

    /// Takes the name of a new cursor, where it could be read. Gives the CSS
    /// cursor to tell the browser, where that is another than before.
    pub fn change(&mut self, name: Option<&str>) -> (r: Option<String>)
        requires
            old(self).wf(),
        ensures
            final(self).wf(),
            final(self).serial() == old(self).serial(),
            final(self).shown() == css_of_reply(crate::desktop_config::opt_str(name)),
            r is Some <==> final(self).shown() != old(self).shown(),
            r matches Some(css) ==> css@ == final(self).shown(),
    {
        let css: &'static str = match name {
            Some(n) => self.css(n),
            None => DEFAULT_CURSOR,
        };
        if same_text(css, self.last_css.as_str()) {
            return None;
        }
        self.last_css = css.to_owned();
        Some(css.to_owned())
    }
}

/// The name of a cursor, from the bytes that the X server sent.
pub fn cursor_name(bytes: &[u8]) -> (r: String)
    ensures
        r@ == utf8_lossy(bytes@),
{
    from_utf8_lossy(bytes)
}

/// Whether an XFixes version has cursor names; an error where it is too old.
pub fn check_xfixes_version(major: u32, minor: u32) -> (r: Result<(), String>)
    ensures
        r is Ok <==> major >= 4,
        r matches Err(e) ==> e@ == "XFixes version "@ + decimal(major as nat) + "."@ + decimal(
            minor as nat,
        ) + " too old (need >= 4.0)"@,
{
    if major >= 4 {
        return Ok(());
    }
    let mut e: String = "XFixes version ".to_owned();
    append_decimal(&mut e, major as u64);
    e.append(".");
    append_decimal(&mut e, minor as u64);
    e.append(" too old (need >= 4.0)");
    Err(e)
}

/// What each cursor is shown as. Arrows point as ever, beams mark text, hands point at links,
/// clocks tell of work. A cursor that resizes does so towards the same side or corner, and
/// those along an axis do so both ways. A name that is none of these is shown as an arrow.
pub proof fn cursors_keep_their_meaning(name: Seq<char>)
    ensures
        css_of(name) == (
        if name == "left_ptr"@ || name == "default"@ || name == "arrow"@
            || name == "top_left_arrow"@ {
            "default"@
        } else if name == "xterm"@ || name == "text"@ || name == "ibeam"@ {
            "text"@
        } else if name == "hand2"@ || name == "hand1"@ || name == "pointer"@
            || name == "pointing_hand"@ || name == "hand"@ {
            "pointer"@
        } else if name == "watch"@ || name == "wait"@ {
            "wait"@
        } else if name == "left_ptr_watch"@ || name == "progress"@ || name == "half-busy"@ {
            "progress"@
        } else if name == "crosshair"@ || name == "cross"@ || name == "tcross"@
            || name == "cross_reverse"@ {
            "crosshair"@
        } else if name == "sb_h_double_arrow"@ || name == "ew-resize"@ || name == "col-resize"@
            || name == "h_double_arrow"@ || name == "size_hor"@ {
            "ew-resize"@
        } else if name == "sb_v_double_arrow"@ || name == "ns-resize"@ || name == "row-resize"@
            || name == "v_double_arrow"@ || name == "size_ver"@ {
            "ns-resize"@
        } else if name == "top_left_corner"@ || name == "nw-resize"@ || name == "size_fdiag"@
            || name == "nwse-resize"@ {
            "nw-resize"@
        } else if name == "top_right_corner"@ || name == "ne-resize"@ || name == "size_bdiag"@
            || name == "nesw-resize"@ {
            "ne-resize"@
        } else if name == "bottom_left_corner"@ || name == "sw-resize"@ {
            "sw-resize"@
        } else if name == "bottom_right_corner"@ || name == "se-resize"@ {
            "se-resize"@
        } else if name == "top_side"@ || name == "n-resize"@ {
            "n-resize"@
        } else if name == "bottom_side"@ || name == "s-resize"@ {
            "s-resize"@
        } else if name == "left_side"@ || name == "w-resize"@ {
            "w-resize"@
        } else if name == "right_side"@ || name == "e-resize"@ {
            "e-resize"@
        } else if name == "fleur"@ || name == "move"@ || name == "all-scroll"@
            || name == "size_all"@ {
            "move"@
        } else if name == "not-allowed"@ || name == "crossed_circle"@ || name == "X_cursor"@
            || name == "forbidden"@ || name == "no-drop"@ {
            "not-allowed"@
        } else if name == "question_arrow"@ || name == "help"@ || name == "whats_this"@ {
            "help"@
        } else if name == "grab"@ || name == "openhand"@ {
            "grab"@
        } else if name == "closedhand"@ || name == "grabbing"@ || name == "dnd-move"@
            || name == "dnd-copy"@ || name == "dnd-link"@ {
            "grabbing"@
        } else if name == "context-menu"@ {
            "context-menu"@
        } else if name == "plus"@ || name == "cell"@ {
            "cell"@
        } else {
            "default"@
        }),
{
    lemma_pointing_cursors(name);
    lemma_axis_cursors(name);
    lemma_edge_cursors(name);
    lemma_action_cursors(name);
    lemma_grab_cursors(name);
    let two = pointing_cursors() + axis_cursors();
    let three = two + edge_cursors();
    let four = three + action_cursors();
    lemma_css_in_either(pointing_cursors(), axis_cursors(), name);
    lemma_css_in_either(two, edge_cursors(), name);
    lemma_css_in_either(three, action_cursors(), name);
    lemma_css_in_either(four, grab_cursors(), name);
}

/// A table behind another counts where the first does not know a name.
proof fn lemma_css_in_either(
    a: Seq<(Seq<char>, Seq<char>)>,
    b: Seq<(Seq<char>, Seq<char>)>,
    name: Seq<char>,
)
    ensures
        css_in(a + b, name) == (match css_in(a, name) {
            Some(css) => Some(css),
            None => css_in(b, name),
        }),
    decreases a.len(),
{
    if a.len() == 0 {
        assert(a + b =~= b);
    } else {
        lemma_css_in_either(a.skip(1), b, name);
        assert((a + b).skip(1) =~= a.skip(1) + b);
    }
}

proof fn lemma_pointing_cursors(name: Seq<char>)
    ensures
        css_in(pointing_cursors(), name) == (
        if name == "left_ptr"@ || name == "default"@ || name == "arrow"@
            || name == "top_left_arrow"@ {
            Some("default"@)
        } else if name == "xterm"@ || name == "text"@ || name == "ibeam"@ {
            Some("text"@)
        } else if name == "hand2"@ || name == "hand1"@ || name == "pointer"@
            || name == "pointing_hand"@ || name == "hand"@ {
            Some("pointer"@)
        } else if name == "watch"@ || name == "wait"@ {
            Some("wait"@)
        } else if name == "left_ptr_watch"@ || name == "progress"@ || name == "half-busy"@ {
            Some("progress"@)
        } else if name == "crosshair"@ || name == "cross"@ || name == "tcross"@
            || name == "cross_reverse"@ {
            Some("crosshair"@)
        } else {
            None
        }),
{
    reveal_with_fuel(css_in, 22);
}

proof fn lemma_axis_cursors(name: Seq<char>)
    ensures
        css_in(axis_cursors(), name) == (
        if name == "sb_h_double_arrow"@ || name == "ew-resize"@ || name == "col-resize"@
            || name == "h_double_arrow"@ || name == "size_hor"@ {
            Some("ew-resize"@)
        } else if name == "sb_v_double_arrow"@ || name == "ns-resize"@ || name == "row-resize"@
            || name == "v_double_arrow"@ || name == "size_ver"@ {
            Some("ns-resize"@)
        } else if name == "top_left_corner"@ || name == "nw-resize"@ || name == "size_fdiag"@
            || name == "nwse-resize"@ {
            Some("nw-resize"@)
        } else if name == "top_right_corner"@ || name == "ne-resize"@ || name == "size_bdiag"@
            || name == "nesw-resize"@ {
            Some("ne-resize"@)
        } else {
            None
        }),
{
    reveal_with_fuel(css_in, 19);
}

proof fn lemma_edge_cursors(name: Seq<char>)
    ensures
        css_in(edge_cursors(), name) == (
        if name == "bottom_left_corner"@ || name == "sw-resize"@ {
            Some("sw-resize"@)
        } else if name == "bottom_right_corner"@ || name == "se-resize"@ {
            Some("se-resize"@)
        } else if name == "top_side"@ || name == "n-resize"@ {
            Some("n-resize"@)
        } else if name == "bottom_side"@ || name == "s-resize"@ {
            Some("s-resize"@)
        } else if name == "left_side"@ || name == "w-resize"@ {
            Some("w-resize"@)
        } else if name == "right_side"@ || name == "e-resize"@ {
            Some("e-resize"@)
        } else {
            None
        }),
{
    reveal_with_fuel(css_in, 13);
}

proof fn lemma_action_cursors(name: Seq<char>)
    ensures
        css_in(action_cursors(), name) == (
        if name == "fleur"@ || name == "move"@ || name == "all-scroll"@ || name == "size_all"@ {
            Some("move"@)
        } else if name == "not-allowed"@ || name == "crossed_circle"@ || name == "X_cursor"@
            || name == "forbidden"@ || name == "no-drop"@ {
            Some("not-allowed"@)
        } else if name == "question_arrow"@ || name == "help"@ || name == "whats_this"@ {
            Some("help"@)
        } else {
            None
        }),
{
    reveal_with_fuel(css_in, 13);
}

proof fn lemma_grab_cursors(name: Seq<char>)
    ensures
        css_in(grab_cursors(), name) == (
        if name == "grab"@ || name == "openhand"@ {
            Some("grab"@)
        } else if name == "closedhand"@ || name == "grabbing"@ || name == "dnd-move"@
            || name == "dnd-copy"@ || name == "dnd-link"@ {
            Some("grabbing"@)
        } else if name == "context-menu"@ {
            Some("context-menu"@)
        } else if name == "plus"@ || name == "cell"@ {
            Some("cell"@)
        } else {
            None
        }),
{
    reveal_with_fuel(css_in, 11);
}

} // verus!
