//! The clipboard bridge: what is written to and read from X11 selections.

use crate::command::{display_command, CommandPlan};
use crate::text::{chars_of, joined, text_from_utf8};
use vstd::prelude::*;
use vstd::utf8::{decode_utf8, valid_utf8};

verus! {

/// A write that a clipboard is asked for.
pub enum ClipboardCall {
    /// To the CLIPBOARD selection.
    Text(Seq<char>),
    /// To the PRIMARY selection.
    Primary(Seq<char>),
}

/// The clipboard as the input dispatcher writes to it.
pub trait ClipboardWrite: Send {
    /// Writes `text` to the X11 CLIPBOARD selection.
    fn set_text(&mut self, text: &str) -> Result<(), String>;

    /// Writes `text` to the X11 PRIMARY selection (middle-click paste).
    fn set_primary_text(&mut self, text: &str) -> Result<(), String>;
}

/// The clipboard as the sync loop reads from it.
pub trait ClipboardRead: Send {
    /// Reads the X11 CLIPBOARD selection. `Ok(None)` where it is empty or could
    /// not be read; `Err` where it is no valid UTF-8.
    fn get_text(&self) -> Result<Option<String>, String>;
}

/// Whether a character may be pasted into a terminal: tabs and line ends, and
/// everything that is no ASCII control character.
pub open spec fn is_pasteable(c: char) -> bool {
    ||| c == '\t'
    ||| c == '\n'
    ||| c == '\r'
    ||| c as u32 >= 0x20 && c as u32 != 0x7F
}

/// A text without the characters that could run commands when it is pasted.
pub open spec fn sanitized(text: Seq<char>) -> Seq<char> {
    text.filter(|c: char| is_pasteable(c))
}

/// A text on its way to a selection.
#[derive(Debug, Clone)]
pub struct SelectionWrite {
    /// The program that takes the text on its standard input.
    pub command: CommandPlan,
    pub input: String,
}

/// The error where `xclip` is not installed.
pub const XCLIP_MISSING: &'static str = "xclip not found; install it for clipboard support";

/// The error where the clipboard holds no text.
pub const CLIPBOARD_NOT_UTF8: &'static str = "Clipboard content is not valid UTF-8";

/// How far a run of `xclip` came that was to write a selection.
#[derive(Debug, Clone, PartialEq, Eq)]
pub enum XclipRun {
    /// It could not be started, and this is why.
    NotStarted(String),
    /// It was started, but the text could not be written to it.
    NotWritten(String),
    /// It got the text, but could not be waited for.
    NotWaited(String),
    /// It ended, with this exit status.
    Ended { success: bool, status: String },
}

/// Why a run of `xclip` did not set a selection; `None` where it did.
pub open spec fn write_error(run: XclipRun) -> Option<Seq<char>> {
    match run {
        XclipRun::NotStarted(reason) => Some("Failed to spawn xclip: "@ + reason@),
        XclipRun::NotWritten(reason) => Some("Failed to write to xclip stdin: "@ + reason@),
        XclipRun::NotWaited(reason) => Some("Failed to wait for xclip: "@ + reason@),
        XclipRun::Ended { success: true, .. } => None,
        XclipRun::Ended { success: false, status } => Some("xclip exited with status "@ + status@),
    }
}

/// The clipboard of an X display, by way of `xclip`.
#[derive(Debug, Clone)]
pub struct ClipboardBridge {
    x_display: String,
}

impl ClipboardBridge {
    /// The display whose clipboard this is.
    pub closed spec fn display(self) -> Seq<char> {
        self.x_display@
    }

    /// The bridge for a display, where `xclip` was found.
    pub fn new(x_display: &str, xclip_found: bool) -> (r: Result<Self, String>)
        ensures
            xclip_found ==> r is Ok && r->Ok_0.display() == x_display@,
            !xclip_found ==> r is Err && r->Err_0@ == XCLIP_MISSING@,
    {
        if xclip_found {
            Ok(ClipboardBridge { x_display: x_display.to_owned() })
        } else {
            Err(XCLIP_MISSING.to_owned())
        }
    }

    /// Strips control characters that could execute commands when pasted into a
    /// terminal emulator. Tabs, line feeds and carriage returns stay.
    pub fn sanitize(text: &str) -> (r: String)
        ensures
            r@ == sanitized(text@),
            r@.len() <= text@.len(),
            (forall|i: int|
                0 <= i < text@.len() ==> {
                    let code = #[trigger] text@[i] as u32;
                    code == 9 || code == 10 || code == 13 || 32 <= code < 127 || code > 127
                }) ==> r@ == text@,
            forall|i: int|
                0 <= i < r@.len() ==> {
                    let code = #[trigger] r@[i] as u32;
                    code == 9 || code == 10 || code == 13 || 32 <= code < 127 || code > 127
                },
    {
        proof {
            plain_text_is_unchanged(text@);
            written_text_has_no_control_codes(text@);
            lemma_sanitized_is_no_longer(text@);
        }
        let v: Vec<char> = chars_of(text);
        let mut r: String = String::new();
        let mut i: usize = 0;
        proof {
            reveal(Seq::filter);
        }
        assert(text@.take(0).filter(|c: char| is_pasteable(c)) =~= Seq::empty());
        while i < v.len()
            invariant
                i <= v@.len(),
                v@ == text@,
                r@ == sanitized(text@.take(i as int)),
            decreases v.len() - i,
        {
            let c: char = v[i];
            i = i + 1;
            proof {
                reveal(Seq::filter);
            }
            assert(text@.take(i as int).drop_last() =~= text@.take(i - 1));
            if c == '\t' || c == '\n' || c == '\r' || (c as u32 >= 0x20 && c as u32 != 0x7F) {
                r.push(c);
            }
        }
        assert(text@.take(text@.len() as int) =~= text@);
        r
    }

    /// How to write text to an X11 selection: what is pasteable of it, to
    /// `xclip`.
    fn set_selection(&self, selection: &str, text: &str) -> (r: SelectionWrite)
        ensures
            r.command@ == display_command(
                "xclip"@,
                seq!["-selection"@, selection@],
                self.display(),
            ),
            r.input@ == sanitized(text@),
    {
        let mut command = CommandPlan::new("xclip");
        command.arg("-selection");
        command.arg(selection);
        command.env("DISPLAY", self.x_display.as_str());
        SelectionWrite { command, input: Self::sanitize(text) }
    }

    /// How to write text to the X11 CLIPBOARD selection.
    pub fn set_text(&self, text: &str) -> (r: SelectionWrite)
        ensures
            r.command@ == display_command(
                "xclip"@,
                seq!["-selection"@, "clipboard"@],
                self.display(),
            ),
            r.input@ == sanitized(text@),
            (forall|i: int|
                0 <= i < text@.len() ==> {
                    let code = #[trigger] text@[i] as u32;
                    code == 9 || code == 10 || code == 13 || 32 <= code < 127 || code > 127
                }) ==> r.input@ == text@,
    {
        proof {
            plain_text_is_unchanged(text@);
        }
        self.set_selection("clipboard", text)
    }

    /// How to write text to the X11 PRIMARY selection (middle-click paste).
    pub fn set_primary_text(&self, text: &str) -> (r: SelectionWrite)
        ensures
            r.command@ == display_command(
                "xclip"@,
                seq!["-selection"@, "primary"@],
                self.display(),
            ),
            r.input@ == sanitized(text@),
            (forall|i: int|
                0 <= i < text@.len() ==> {
                    let code = #[trigger] text@[i] as u32;
                    code == 9 || code == 10 || code == 13 || 32 <= code < 127 || code > 127
                }) ==> r.input@ == text@,
    {
        proof {
            plain_text_is_unchanged(text@);
        }
        self.set_selection("primary", text)
    }

    /// What a run of `xclip` means for text that was to be written with
    /// [`set_text`](Self::set_text) or [`set_primary_text`](Self::set_primary_text):
    /// it is set where `xclip` was started, written to and waited for, and ended well.
    pub fn write_outcome(run: XclipRun) -> (r: Result<(), String>)
        ensures
            r is Ok <==> (run matches XclipRun::Ended { success, .. } && success),
            match write_error(run) {
                Some(e) => r is Err && r->Err_0@ == e,
                None => r is Ok,
            },
    {
        match run {
            XclipRun::NotStarted(reason) => Err(joined("Failed to spawn xclip: ", reason.as_str())),
            XclipRun::NotWritten(reason) => Err(
                joined("Failed to write to xclip stdin: ", reason.as_str()),
            ),
            XclipRun::NotWaited(reason) => Err(
                joined("Failed to wait for xclip: ", reason.as_str()),
            ),
            XclipRun::Ended { success, status } => if success {
                Ok(())
            } else {
                Err(joined("xclip exited with status ", status.as_str()))
            },
        }
    }

    /// The command that prints the X11 CLIPBOARD selection.
    pub fn read_command(&self) -> (r: CommandPlan)
        ensures
            r@ == display_command(
                "xclip"@,
                seq!["-selection"@, "clipboard"@, "-o"@],
                self.display(),
            ),
    {
        let mut command = CommandPlan::new("xclip");
        command.arg("-selection");
        command.arg("clipboard");
        command.arg("-o");
        command.env("DISPLAY", self.x_display.as_str());
        command
    }

    /// What a run of the read command says about the clipboard: whether it ended well
    /// and what it printed, or why it could not be run. A run that failed means that
    /// there is nothing to read.
    pub fn get_text(&self, run: Result<(bool, Vec<u8>), String>) -> (r: Result<
        Option<String>,
        String,
    >)
        ensures
            match run {
                Err(reason) => r is Err && r->Err_0@ == "Failed to run xclip -o: "@ + reason@,
                Ok((false, _)) => r == Ok::<Option<String>, String>(None),
                Ok((true, stdout)) => if valid_utf8(stdout@) {
                    r matches Ok(Some(text)) && text@ == decode_utf8(stdout@)
                } else {
                    r matches Err(e) && e@ == CLIPBOARD_NOT_UTF8@
                },
            },
    {
        match run {
            Err(reason) => Err(joined("Failed to run xclip -o: ", reason.as_str())),
            Ok((succeeded, stdout)) => {
                if !succeeded {
                    return Ok(None);
                }
                match text_from_utf8(stdout) {
                    Some(text) => Ok(Some(text)),
                    None => Err(CLIPBOARD_NOT_UTF8.to_owned()),
                }
            },
        }
    }
}

/// Sanitized text holds only pasteable characters, text of such characters is
/// left as it is, and so sanitizing twice is sanitizing once.
pub proof fn sanitizing_is_settled(text: Seq<char>)
    ensures
        forall|i: int|
            0 <= i < sanitized(text).len() ==> is_pasteable(#[trigger] sanitized(text)[i]),
        (forall|i: int| 0 <= i < text.len() ==> is_pasteable(#[trigger] text[i]))
            ==> sanitized(text) == text,
        sanitized(sanitized(text)) == sanitized(text),
{
    lemma_sanitized_is_pasteable(text);
    lemma_pasteable_is_kept(text);
    lemma_pasteable_is_kept(sanitized(text));
}

/// Text without ASCII control characters is written unchanged. By their codes, those
/// are the characters below 32 and the one at 127; the tab (9), the line feed (10)
/// and the carriage return (13) do not count as such.
pub proof fn plain_text_is_unchanged(text: Seq<char>)
    ensures
        (forall|i: int|
            0 <= i < text.len() ==> {
                let code = #[trigger] text[i] as u32;
                code == 9 || code == 10 || code == 13 || 32 <= code < 127 || code > 127
            }) ==> sanitized(text) == text,
    decreases text.len(),
{
    reveal(Seq::filter);
    if text.len() == 0 {
        assert(sanitized(text) =~= text);
    } else {
        plain_text_is_unchanged(text.drop_last());
        if forall|i: int|
            0 <= i < text.len() ==> {
                let code = #[trigger] text[i] as u32;
                code == 9 || code == 10 || code == 13 || 32 <= code < 127 || code > 127
            } {
            assert forall|i: int| 0 <= i < text.drop_last().len() implies ({
                let code = #[trigger] text.drop_last()[i] as u32;
                code == 9 || code == 10 || code == 13 || 32 <= code < 127 || code > 127
            }) by {
                assert(text.drop_last()[i] == text[i]);
            }
            lemma_char_by_code(text[text.len() - 1]);
            assert(sanitized(text) =~= text);
        }
    }
}

/// No ASCII control character is written but the tab, the line feed and the carriage
/// return, whatever the text.
pub proof fn written_text_has_no_control_codes(text: Seq<char>)
    ensures
        forall|i: int|
            0 <= i < sanitized(text).len() ==> {
                let code = #[trigger] sanitized(text)[i] as u32;
                code == 9 || code == 10 || code == 13 || 32 <= code < 127 || code > 127
            },
{
    lemma_sanitized_is_pasteable(text);
    assert forall|i: int| 0 <= i < sanitized(text).len() implies ({
        let code = #[trigger] sanitized(text)[i] as u32;
        code == 9 || code == 10 || code == 13 || 32 <= code < 127 || code > 127
    }) by {
        lemma_char_by_code(sanitized(text)[i]);
    }
}

/// What is written of two texts, one behind the other, is what is written of the
/// first and then what is written of the second: no character depends on another.
pub proof fn texts_are_written_one_after_the_other(first: Seq<char>, second: Seq<char>)
    ensures
        sanitized(first + second) == sanitized(first) + sanitized(second),
    decreases second.len(),
{
    reveal(Seq::filter);
    if second.len() == 0 {
        assert(first + second =~= first);
        assert(sanitized(first) + sanitized(second) =~= sanitized(first));
    } else {
        assert((first + second).drop_last() =~= first + second.drop_last());
        texts_are_written_one_after_the_other(first, second.drop_last());
        assert((first + second).last() == second.last());
        assert(sanitized(first + second) =~= sanitized(first) + sanitized(second));
    }
}

/// A single control character is dropped, every other character is kept.
pub proof fn one_character_is_kept_or_dropped(c: char)
    ensures
        (c as u32) < 9 ==> sanitized(seq![c]).len() == 0,
        10 < (c as u32) < 13 ==> sanitized(seq![c]).len() == 0,
        13 < (c as u32) < 32 ==> sanitized(seq![c]).len() == 0,
        c as u32 == 127 ==> sanitized(seq![c]).len() == 0,
        c as u32 == 9 || c as u32 == 10 || c as u32 == 13 ==> sanitized(seq![c]) == seq![c],
        32 <= (c as u32) < 127 || c as u32 > 127 ==> sanitized(seq![c]) == seq![c],
{
    reveal(Seq::filter);
    reveal_with_fuel(Seq::filter, 3);
    lemma_char_by_code(c);
    assert(seq![c].drop_last() =~= Seq::empty());
    assert(sanitized(Seq::empty()) =~= Seq::empty());
    if is_pasteable(c) {
        assert(sanitized(seq![c]) =~= seq![c]);
    }
}

proof fn lemma_char_by_code(c: char)
    ensures
        is_pasteable(c) <==> {
            let code = c as u32;
            code == 9 || code == 10 || code == 13 || 32 <= code < 127 || code > 127
        },
{
}

proof fn lemma_sanitized_is_no_longer(text: Seq<char>)
    ensures
        sanitized(text).len() <= text.len(),
    decreases text.len(),
{
    reveal(Seq::filter);
    if text.len() > 0 {
        lemma_sanitized_is_no_longer(text.drop_last());
    }
}

proof fn lemma_sanitized_is_pasteable(text: Seq<char>)
    ensures
        forall|i: int|
            0 <= i < sanitized(text).len() ==> is_pasteable(#[trigger] sanitized(text)[i]),
    decreases text.len(),
{
    reveal(Seq::filter);
    if text.len() > 0 {
        lemma_sanitized_is_pasteable(text.drop_last());
    }
}

proof fn lemma_pasteable_is_kept(text: Seq<char>)
    ensures
        (forall|i: int| 0 <= i < text.len() ==> is_pasteable(#[trigger] text[i]))
            ==> sanitized(text) == text,
    decreases text.len(),
{
    reveal(Seq::filter);
    if text.len() == 0 {
        assert(sanitized(text) =~= text);
    } else if forall|i: int| 0 <= i < text.len() ==> is_pasteable(#[trigger] text[i]) {
        assert forall|i: int| 0 <= i < text.drop_last().len() implies is_pasteable(
            #[trigger] text.drop_last()[i],
        ) by {
            assert(is_pasteable(text[i]));
        }
        lemma_pasteable_is_kept(text.drop_last());
        assert(is_pasteable(text[text.len() - 1]));
        assert(sanitized(text) =~= text);
    }
}

} // verus!
