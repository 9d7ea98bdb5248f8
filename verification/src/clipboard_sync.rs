//! What of the clipboard is sent to the browser.

use crate::json::{object, object_text, text_field, text_member};
use crate::text::{byte_len, byte_len_of};
use vstd::prelude::*;

verus! {

/// The largest clipboard text that is accepted or sent, in bytes: 1 MiB, as on
/// the browser's side.
pub const MAX_CLIPBOARD_BYTES: usize = 1_048_576;

/// The message that carries clipboard text to the browser.
pub open spec fn clipboard_message(text: Seq<char>) -> Seq<char> {
    object_text(seq![text_member("t"@, "c"@), text_member("text"@, text)])
}

/// Whether a clipboard text is sent: it is not empty and not too large.
pub open spec fn is_sendable(text: Seq<char>) -> bool {
    text.len() > 0 && byte_len_of(text) <= MAX_CLIPBOARD_BYTES
}

/// Builds the message that carries clipboard text to the browser; `None` where
/// the text is empty or too large.
pub fn build_clipboard_payload(text: &str) -> (r: Option<String>)
    ensures
        r is Some <==> is_sendable(text@),
        r is Some <==> 1 <= byte_len_of(text@) <= 1_048_576,
        r matches Some(payload) ==> payload@ == clipboard_message(text@),
{
    proof {
        text_of_up_to_a_mebibyte_is_sent(text@);
    }
    if text.is_empty() || byte_len(text) > MAX_CLIPBOARD_BYTES {
        return None;
    }
    let mut members: Vec<String> = Vec::new();
    members.push(text_field("t", "c"));
    members.push(text_field("text", text));
    assert(crate::text::texts(members@) =~= seq![
        text_member("t"@, "c"@),
        text_member("text"@, text@),
    ]);
    Some(object(&members))
}

/// Text of one byte up to 1 MiB is sent, and no other. The bytes are those of UTF-8: there
/// are at least as many as characters, and just as many where all are of ASCII.
pub proof fn text_of_up_to_a_mebibyte_is_sent(text: Seq<char>)
    ensures
        is_sendable(text) <==> 1 <= vstd::utf8::encode_utf8(text).len() <= 1_048_576,
        text.len() > 1_048_576 ==> !is_sendable(text),
        (forall|i: int| 0 <= i < text.len() ==> #[trigger] text[i] as u32 <= 127) ==> (is_sendable(
            text,
        ) <==> 1 <= text.len() <= 1_048_576),
{
    lemma_bytes_of(text);
}

/// A text takes at least as many bytes as it has characters, and just as many where all
/// are of ASCII.
pub proof fn lemma_bytes_of(text: Seq<char>)
    ensures
        byte_len_of(text) >= text.len(),
        (forall|i: int| 0 <= i < text.len() ==> #[trigger] text[i] as u32 <= 127) ==> byte_len_of(
            text,
        ) == text.len(),
        text.len() == 0 ==> byte_len_of(text) == 0,
    decreases text.len(),
{
    if text.len() > 0 {
        lemma_bytes_of(text.drop_first());
        if forall|i: int| 0 <= i < text.len() ==> #[trigger] text[i] as u32 <= 127 {
            assert forall|i: int| 0 <= i < text.drop_first().len() implies #[trigger] (
            text.drop_first()[i]) as u32 <= 127 by {
                assert(text.drop_first()[i] == text[i + 1]);
            }
            assert(text[0] as u32 <= 127);
        }
    }
}

/// What follows one read of the clipboard.
#[derive(Debug, Clone, PartialEq, Eq)]
pub enum ClipboardSyncDispatch {
    /// There is text: send the payload. `len` is the text's length in bytes.
    Send { payload: String, len: usize },
    /// There is none.
    Empty,
    /// The clipboard could not be read.
    ReadError(String),
    /// There is more text than is sent.
    Oversize,
}

/// Decides what follows one read of the clipboard.
pub fn classify_clipboard_read_result(result: Result<Option<String>, String>) -> (r:
    ClipboardSyncDispatch)
    ensures
        match result {
            Ok(Some(text)) => if text@.len() == 0 {
                r is Empty
            } else if byte_len_of(text@) > MAX_CLIPBOARD_BYTES {
                r is Oversize
            } else {
                r matches ClipboardSyncDispatch::Send { payload, len } && payload@
                    == clipboard_message(text@) && len == byte_len_of(text@)
            },
            Ok(None) => r is Empty,
            Err(e) => r == ClipboardSyncDispatch::ReadError(e),
        },
{
    match result {
        Ok(Some(text)) => {
            if text.as_str().is_empty() {
                return ClipboardSyncDispatch::Empty;
            }
            match build_clipboard_payload(text.as_str()) {
                Some(payload) => ClipboardSyncDispatch::Send {
                    payload,
                    len: byte_len(text.as_str()),
                },
                None => ClipboardSyncDispatch::Oversize,
            }
        },
        Ok(None) => ClipboardSyncDispatch::Empty,
        Err(e) => ClipboardSyncDispatch::ReadError(e),
    }
}

/// The browser can tell any two clipboard texts apart by their messages.
pub proof fn clipboard_messages_differ(a: Seq<char>, b: Seq<char>)
    requires
        clipboard_message(a) == clipboard_message(b),
    ensures
        a == b,
{
    let head = "{"@ + text_member("t"@, "c"@) + ","@ + ("\""@ + "text"@ + "\":"@);
    lemma_message_shape(a, head);
    lemma_message_shape(b, head);
    let qa = crate::json::json_quoted(a);
    let qb = crate::json::json_quoted(b);
    let ma = head + qa + "}"@;
    let mb = head + qb + "}"@;
    assert(ma.len() == mb.len());
    assert(qa =~= ma.subrange(head.len() as int, (head.len() + qa.len()) as int));
    assert(qb =~= mb.subrange(head.len() as int, (head.len() + qb.len()) as int));
    crate::json::json_quoting_is_injective(a, b);
}

/// A message is a fixed text, the clipboard text as a JSON string, and a brace.
proof fn lemma_message_shape(text: Seq<char>, head: Seq<char>)
    requires
        head == "{"@ + text_member("t"@, "c"@) + ","@ + ("\""@ + "text"@ + "\":"@),
    ensures
        clipboard_message(text) == head + crate::json::json_quoted(text) + "}"@,
{
    let members = seq![text_member("t"@, "c"@), text_member("text"@, text)];
    assert(members.drop_last() =~= seq![text_member("t"@, "c"@)]);
    assert(crate::text::join_of(members.drop_last(), ","@) == text_member("t"@, "c"@));
    assert(clipboard_message(text) =~= head + crate::json::json_quoted(text) + "}"@);
}

/// The message of a clipboard text, letter by letter.
pub proof fn clipboard_messages_have_a_fixed_shape(text: Seq<char>)
    ensures
        clipboard_message(text) == "{\"t\":\"c\",\"text\":"@ + crate::json::json_quoted(text) + "}"@,
{
    let head = "{"@ + text_member("t"@, "c"@) + ","@ + ("\""@ + "text"@ + "\":"@);
    lemma_message_shape(text, head);
    reveal_strlit("{");
    reveal_strlit(",");
    reveal_strlit("\"");
    reveal_strlit("\":");
    reveal_strlit("text");
    reveal_strlit("t");
    reveal_strlit("c");
    reveal_strlit("{\"t\":\"c\",\"text\":");
    crate::json::plain_text_is_quoted_as_it_is("c"@);
    assert(head =~= "{\"t\":\"c\",\"text\":"@);
}

} // verus!
