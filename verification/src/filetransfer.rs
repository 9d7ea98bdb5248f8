//! File transfers between the browser and the home directory.

use base64::Engine;
use crate::json::{
    json_quoted, json_quoting_is_injective, lemma_regroup, lemma_two_members, number_field,
    number_member, object, object_text, plain_text_is_quoted_as_it_is, text_field, text_member,
};
use crate::paths::{
    are_plain_names, components_of, extension_dot, file_name, file_name_of, is_path_under, is_under,
    join_path, lemma_components_add, lemma_components_plain, only_paths_below_are_under, path_below,
    path_join, paths_below_are_under, split_extension,
};
use crate::text::{
    append_decimal, append_wide_decimal, among, byte_len, byte_len_of, chars_of, decimal, join_of,
    joined, same_text, texts,
};
use vstd::prelude::*;

verus! {

/// The largest file that is transferred: 100 MB.
pub const MAX_FILE_SIZE: u64 = 104_857_600;

/// The longest file name that is accepted, in bytes.
pub const MAX_FILENAME_LEN: usize = 255;

/// How many files can be on their way to the agent at a time.
pub const MAX_CONCURRENT_TRANSFERS: usize = 8;

/// How many bytes of a file one message to the browser carries at most.
pub const DOWNLOAD_CHUNK_SIZE: usize = 16_384;

// ---------------------------------------------------------------------------
// Names
// ---------------------------------------------------------------------------

/// The name that a file is stored under: the last component of the name that
/// was asked for, or that name itself where it has none.
pub open spec fn base_name_of(name: Seq<char>) -> Seq<char> {
    match file_name_of(name) {
        Some(base) => base,
        None => name,
    }
}

/// Why a file name is refused; `None` where it is not.
pub open spec fn filename_error(name: Seq<char>) -> Option<Seq<char>> {
    let base = base_name_of(name);
    if name.len() == 0 {
        Some("Empty filename"@)
    } else if name.contains('\0') {
        Some("Filename contains null byte"@)
    } else if base.len() == 0 || base == "."@ || base == ".."@ {
        Some("Invalid filename: "@ + name)
    } else if base.contains('/') || base.contains('\\') || base.contains('\0') {
        Some("Filename contains path separators or null bytes"@)
    } else if byte_len_of(base) > MAX_FILENAME_LEN {
        Some(
            "Filename too long: "@ + decimal(byte_len_of(base)) + " chars (max "@ + decimal(
                MAX_FILENAME_LEN as nat,
            ) + ")"@,
        )
    } else if base[0] == '.' {
        Some("Hidden filenames not allowed"@)
    } else {
        None
    }
}

/// Sanitizes a file name: rejects path traversal, null bytes, hidden files and
/// excessive length. Gives the name without its directories.
pub fn sanitize_filename(name: &str) -> (r: Result<String, String>)
    ensures
        match filename_error(name@) {
            Some(e) => r is Err && r->Err_0@ == e,
            None => r is Ok && r->Ok_0@ == base_name_of(name@),
        },
{
    if name.is_empty() {
        return Err("Empty filename".to_owned());
    }
    let all: Vec<char> = chars_of(name);
    if among('\0', &all) {
        return Err("Filename contains null byte".to_owned());
    }
    let base: String = match file_name(name) {
        Some(base) => base,
        None => name.to_owned(),
    };
    let v: Vec<char> = chars_of(base.as_str());
    if v.len() == 0 || same_text(base.as_str(), ".") || same_text(base.as_str(), "..") {
        return Err(joined("Invalid filename: ", name));
    }
    if among('/', &v) || among('\\', &v) || among('\0', &v) {
        return Err("Filename contains path separators or null bytes".to_owned());
    }
    let len: usize = byte_len(base.as_str());
    if len > MAX_FILENAME_LEN {
        let mut e: String = "Filename too long: ".to_owned();
        append_decimal(&mut e, len as u64);
        e.append(" chars (max ");
        append_decimal(&mut e, MAX_FILENAME_LEN as u64);
        e.append(")");
        return Err(e);
    }
    if v[0] == '.' {
        return Err("Hidden filenames not allowed".to_owned());
    }
    Ok(base)
}

/// A name that is accepted has no separators, so what is stored under it stays
/// in the directory where it is put, and sanitizing it again changes nothing.
pub proof fn sanitized_names_stay_put(name: Seq<char>)
    requires
        filename_error(name) is None,
    ensures
        !base_name_of(name).contains('/'),
        base_name_of(name) != ".."@,
        filename_error(base_name_of(name)) is None,
        base_name_of(base_name_of(name)) == base_name_of(name),
{
    let base = base_name_of(name);
    reveal_strlit(".");
    reveal_strlit("..");
    assert(!base.contains('/'));
    lemma_no_separator_is_one_piece(base);
    reveal(Seq::filter);
    let pieces = crate::text::split_of(base, seq!['/']);
    assert(pieces =~= seq![base]);
    assert(base != seq!['.']) by {
        assert("."@ =~= seq!['.']);
    }
    assert(base != seq!['.', '.']) by {
        assert(".."@ =~= seq!['.', '.']);
    }
    let keep = |piece: Seq<char>| crate::paths::is_component(piece);
    assert(pieces.drop_last() =~= Seq::empty());
    assert(pieces.drop_last().filter(keep) =~= Seq::empty());
    assert(pieces.filter(keep) =~= seq![base]);
    assert(components_of(base) == pieces.filter(keep));
    assert(file_name_of(base) == Some(base));
}

/// A file is stored under the last part of the name that was asked for, whatever
/// directories stand before it: every part of at most 255 bytes that holds no separator
/// (47 or 92) and no null (0) and does not start with a dot (46) is accepted as it is. One
/// that starts with a dot or is longer is refused, and so is a name with a null in it. A
/// single dot is no part.
pub proof fn last_part_is_the_name(dirs: Seq<char>, base: Seq<char>)
    requires
        base.len() > 0,
        base != seq!['.'],
        forall|i: int| 0 <= i < base.len() ==> #[trigger] base[i] as u32 != 47,
        forall|i: int| 0 <= i < dirs.len() ==> #[trigger] dirs[i] as u32 != 0,
    ensures
        ({
            let plain = forall|i: int|
                0 <= i < base.len() ==> #[trigger] base[i] as u32 != 0 && base[i] as u32 != 92;
            let short = vstd::utf8::encode_utf8(base).len() <= 255;
            let hidden = base[0] as u32 == 46;
            let whole = dirs + seq!['/'] + base;
            &&& plain && short && !hidden ==> {
                &&& filename_error(base) is None && base_name_of(base) == base
                &&& filename_error(whole) is None && base_name_of(whole) == base
            }
            &&& !plain || !short || hidden ==> {
                &&& filename_error(base) is Some
                &&& filename_error(whole) is Some
            }
        }),
{
    let whole = dirs + seq!['/'] + base;
    reveal_strlit(".");
    reveal_strlit("..");
    assert("."@ =~= seq!['.'] && ".."@ =~= seq!['.', '.']);
    lemma_holds_by_code(base, '/');
    lemma_holds_by_code(base, '\\');
    lemma_holds_by_code(base, '\0');
    lemma_holds_by_code(dirs, '\0');
    lemma_codes_tell_apart(base[0], '.');
    let plain = forall|i: int|
        0 <= i < base.len() ==> #[trigger] base[i] as u32 != 0 && base[i] as u32 != 92;
    assert(plain <==> !base.contains('\0') && !base.contains('\\')) by {
        if !plain {
            let i = choose|i: int|
                0 <= i < base.len() && !(#[trigger] base[i] as u32 != 0 && base[i] as u32 != 92);
            assert(base[i] as u32 == 0 || base[i] as u32 == 92);
        }
    }
    assert(!base.contains('/'));
    lemma_components_plain(base);
    lemma_components_add(dirs, base);
    assert(components_of(whole).last() == base);
    assert(components_of(base).last() == base);
    assert(whole[dirs.len() as int] == '/');
    assert(whole.contains('\0') ==> base.contains('\0')) by {
        if whole.contains('\0') {
            let k = choose|k: int| 0 <= k < whole.len() && whole[k] == '\0';
            if k < dirs.len() {
                assert(dirs[k] == '\0');
            } else {
                assert(base[k - dirs.len() - 1] == '\0');
            }
        }
    }
}

proof fn lemma_codes_tell_apart(a: char, b: char)
    ensures
        a as u32 == b as u32 <==> a == b,
{
}

proof fn lemma_holds_by_code(text: Seq<char>, c: char)
    ensures
        text.contains(c) <==> exists|i: int|
            0 <= i < text.len() && #[trigger] text[i] as u32 == c as u32,
{
    if text.contains(c) {
        let i = choose|i: int| 0 <= i < text.len() && text[i] == c;
        assert(text[i] as u32 == c as u32);
    }
    if exists|i: int| 0 <= i < text.len() && #[trigger] text[i] as u32 == c as u32 {
        let i = choose|i: int| 0 <= i < text.len() && #[trigger] text[i] as u32 == c as u32;
        lemma_codes_tell_apart(text[i], c);
        assert(text[i] == c);
    }
}

/// A text without separators is its only piece.
proof fn lemma_no_separator_is_one_piece(s: Seq<char>)
    requires
        !s.contains('/'),
    ensures
        crate::text::split_of(s, seq!['/']) == seq![s],
    decreases s.len(),
{
    if s.len() == 0 {
        assert(s =~= Seq::empty());
    } else {
        let front = s.drop_last();
        assert(!front.contains('/')) by {
            if front.contains('/') {
                let i = choose|i: int| 0 <= i < front.len() && front[i] == '/';
                assert(s[i] == '/');
            }
        }
        lemma_no_separator_is_one_piece(front);
        assert(s[s.len() - 1] != '/');
        assert(!seq!['/'].contains(s.last())) by {
            assert(forall|i: int| 0 <= i < seq!['/'].len() ==> seq!['/'][i] == '/');
        }
        assert(front.push(s.last()) =~= s);
        assert(crate::text::split_of(s, seq!['/']) =~= seq![s]);
    }
}

// ---------------------------------------------------------------------------
// Base64 and identifiers
// ---------------------------------------------------------------------------

/// Bytes in standard base64 with padding, as `base64`'s STANDARD engine writes
/// them.
pub uninterp spec fn base64_encoded(bytes: Seq<u8>) -> Seq<char>;

/// The bytes that a text spells in standard base64 with padding, as `base64`'s
/// STANDARD engine reads them; `None` where it refuses the text.
pub uninterp spec fn base64_decoded(text: Seq<char>) -> Option<Seq<u8>>;

/// `base64::engine::general_purpose::STANDARD.encode`: the bytes in base64. The
/// text is named, not spelled out; decoding it gives the bytes back. The bound
/// on the length keeps the text within what an allocation can hold.
#[verifier::external_body]
fn encode_base64(bytes: &[u8]) -> (r: String)
    requires
        bytes@.len() <= usize::MAX / 4,
    ensures
        r@ == base64_encoded(bytes@),
        base64_decoded(r@) == Some(bytes@),
{
    base64::engine::general_purpose::STANDARD.encode(bytes)
}

/// `base64::engine::general_purpose::STANDARD.decode`: the bytes that a text
/// spells in base64; `None` where it is no valid base64.
#[verifier::external_body]
fn decode_base64(text: &str) -> (r: Option<Vec<u8>>)
    ensures
        match base64_decoded(text@) {
            Some(bytes) => r is Some && r->0@ == bytes,
            None => r is None,
        },
{
    base64::engine::general_purpose::STANDARD.decode(text).ok()
}

/// Whether a character is a hexadecimal digit in lower case.
pub open spec fn is_lower_hex(c: char) -> bool {
    '0' as u32 <= c as u32 <= '9' as u32 || 'a' as u32 <= c as u32 <= 'f' as u32
}

/// Whether a text has the form of a UUID: 32 hexadecimal digits in lower case,
/// in five groups with hyphens between them.
pub open spec fn is_uuid_text(s: Seq<char>) -> bool {
    &&& s.len() == 36
    &&& forall|i: int|
        0 <= i < 36 ==> if i == 8 || i == 13 || i == 18 || i == 23 {
            #[trigger] s[i] == '-'
        } else {
            is_lower_hex(s[i])
        }
}

/// `uuid::Uuid::new_v4` as text: a random UUID in its hyphenated form.
#[verifier::external_body]
fn random_uuid() -> (r: String)
    ensures
        is_uuid_text(r@),
{
    uuid::Uuid::new_v4().to_string()
}

// ---------------------------------------------------------------------------
// Uploads
// ---------------------------------------------------------------------------

/// A call that a file sink is asked for.
pub enum FileCall {
    Start { id: Seq<char>, name: Seq<char>, size: u64 },
    Chunk { id: Seq<char>, data: Seq<char> },
    Done { id: Seq<char> },
}

/// Where files from the browser go, as the input dispatcher sees it.
pub trait FileSink: Send {
    fn handle_file_start(&mut self, id: &str, name: &str, size: u64) -> Result<(), String>;

    fn handle_file_chunk(&mut self, id: &str, data: &str) -> Result<(), String>;

    fn handle_file_done(&mut self, id: &str) -> Result<(), String>;
}

/// A file on its way to the agent.
struct ActiveTransfer {
    id: String,
    name: String,
    size: u64,
    received: u64,
}

/// A file on its way to the agent, as plain values.
pub struct Transfer {
    pub id: Seq<char>,
    /// The name that the file is stored under.
    pub name: Seq<char>,
    /// The size that was declared.
    pub size: u64,
    /// How many bytes came so far.
    pub received: u64,
}

/// Where a transfer's bytes are collected.
pub open spec fn temp_path_of(id: Seq<char>) -> Seq<char> {
    "/tmp/beam-transfer-"@ + id
}

/// Where a transfer stands in a list; the length of the list where it is not in
/// it.
pub open spec fn index_of_transfer(transfers: Seq<Transfer>, id: Seq<char>) -> int
    decreases transfers.len(),
{
    if transfers.len() == 0 || transfers[0].id == id {
        0
    } else {
        1 + index_of_transfer(transfers.skip(1), id)
    }
}

/// Whether a transfer is in a list.
pub open spec fn is_active(transfers: Seq<Transfer>, id: Seq<char>) -> bool {
    index_of_transfer(transfers, id) < transfers.len()
}

/// What holds of the transfers at all times: there are not too many, no two
/// have the same id, and none has more bytes than it declared or than a file
/// may have.
pub open spec fn transfers_ok(transfers: Seq<Transfer>) -> bool {
    &&& transfers.len() <= MAX_CONCURRENT_TRANSFERS
    &&& forall|i: int, j: int|
        0 <= i < j < transfers.len() ==> #[trigger] transfers[i].id != #[trigger] transfers[j].id
    &&& forall|i: int|
        0 <= i < transfers.len() ==> (#[trigger] transfers[i]).received <= transfers[i].size
            <= MAX_FILE_SIZE
}

/// The index of a transfer is the first place where its id stands.
proof fn lemma_index_of_transfer(transfers: Seq<Transfer>, id: Seq<char>)
    ensures
        0 <= index_of_transfer(transfers, id) <= transfers.len(),
        index_of_transfer(transfers, id) < transfers.len() ==> transfers[index_of_transfer(
            transfers,
            id,
        )].id == id,
        forall|i: int|
            0 <= i < index_of_transfer(transfers, id) ==> (#[trigger] transfers[i]).id != id,
    decreases transfers.len(),
{
    if transfers.len() > 0 && transfers[0].id != id {
        let rest = transfers.skip(1);
        lemma_index_of_transfer(rest, id);
        assert forall|i: int| 0 <= i < index_of_transfer(transfers, id) implies (
        #[trigger] transfers[i]).id != id by {
            if i > 0 {
                assert(transfers[i] == rest[i - 1]);
            }
        }
    }
}

/// Why a transfer is refused; `None` where it is not.
pub open spec fn start_error(
    transfers: Seq<Transfer>,
    id: Seq<char>,
    name: Seq<char>,
    size: u64,
) -> Option<Seq<char>> {
    if transfers.len() >= MAX_CONCURRENT_TRANSFERS {
        Some("Too many concurrent transfers"@)
    } else if is_active(transfers, id) {
        Some("Transfer "@ + id + " already in progress"@)
    } else if filename_error(name) is Some {
        filename_error(name)
    } else if size > MAX_FILE_SIZE {
        Some(size_error(size))
    } else {
        None
    }
}

/// The error for a file that is too large.
pub open spec fn size_error(size: u64) -> Seq<char> {
    "File too large: "@ + decimal(size as nat) + " bytes (max "@ + decimal(MAX_FILE_SIZE as nat)
        + " bytes)"@
}

fn size_error_text(size: u64) -> (r: String)
    ensures
        r@ == size_error(size),
{
    let mut e: String = "File too large: ".to_owned();
    append_decimal(&mut e, size);
    e.append(" bytes (max ");
    append_decimal(&mut e, MAX_FILE_SIZE);
    e.append(" bytes)");
    e
}

/// A piece of a file that came: where to append it.
#[derive(Debug, Clone, PartialEq, Eq)]
pub struct ChunkWrite {
    pub temp_path: String,
    pub bytes: Vec<u8>,
}

/// Why a piece of a file is refused.
#[derive(Debug, Clone, PartialEq, Eq)]
pub struct ChunkError {
    pub message: String,
    /// The temporary file to delete, where the transfer was given up.
    pub discard: Option<String>,
}

/// A file that came whole: what to move where.
#[derive(Debug, Clone, PartialEq, Eq)]
pub struct FinishedTransfer {
    pub name: String,
    pub received: u64,
    pub temp_path: String,
    /// The directory to move the file to, to be created where it is missing.
    pub downloads_dir: String,
}

/// The transfers of a session.
pub struct FileTransferManager {
    transfers: Vec<ActiveTransfer>,
    home_dir: String,
}

/// What transfers the vector holds.
closed spec fn transfer_views(v: Seq<ActiveTransfer>) -> Seq<Transfer> {
    v.map_values(
        |t: ActiveTransfer|
            Transfer { id: t.id@, name: t.name@, size: t.size, received: t.received },
    )
}

impl FileTransferManager {
    /// The transfers that are active, oldest first.
    pub closed spec fn transfers(self) -> Seq<Transfer> {
        transfer_views(self.transfers@)
    }

    /// The home directory.
    pub closed spec fn home(self) -> Seq<char> {
        self.home_dir@
    }

    /// What holds of a manager at all times.
    pub open spec fn wf(self) -> bool {
        transfers_ok(self.transfers())
    }

    /// A manager without transfers.
    pub fn new(home_dir: String) -> (r: Self)
        ensures
            r.wf(),
            r.home() == home_dir@,
            r.transfers() == Seq::<Transfer>::empty(),
    {
        let r = FileTransferManager { transfers: Vec::new(), home_dir };
        assert(r.transfers() =~= Seq::<Transfer>::empty());
        r
    }

    /// Where the transfer of the given id stands.
    fn find(&self, id: &str) -> (r: usize)
        ensures
            r == index_of_transfer(self.transfers(), id@),
            r <= self.transfers@.len(),
    {
        let ghost ts = self.transfers();
        let mut i: usize = 0;
        assert(ts.skip(0) =~= ts);
        while i < self.transfers.len() && !same_text(self.transfers[i].id.as_str(), id)
            invariant
                i <= self.transfers@.len(),
                ts == self.transfers(),
                ts.len() == self.transfers@.len(),
                index_of_transfer(ts, id@) == i + index_of_transfer(ts.skip(i as int), id@),
            decreases self.transfers.len() - i,
        {
            assert(ts.skip(i as int)[0].id == self.transfers@[i as int].id@);
            assert(ts.skip(i as int).skip(1) =~= ts.skip(i + 1));
            i = i + 1;
        }
        assert(index_of_transfer(ts.skip(i as int), id@) == 0) by {
            if i < ts.len() {
                assert(ts.skip(i as int)[0].id == self.transfers@[i as int].id@);
            }
        }
        i
    }

    /// Starts a transfer, or says why it is refused. Gives the path of the
    /// temporary file to create.
    pub fn handle_file_start(&mut self, id: &str, name: &str, size: u64) -> (r: Result<
        String,
        String,
    >)
        requires
            old(self).wf(),
        ensures
            final(self).wf(),
            final(self).home() == old(self).home(),
            match start_error(old(self).transfers(), id@, name@, size) {
                Some(e) => {
                    &&& r is Err && r->Err_0@ == e
                    &&& final(self).transfers() == old(self).transfers()
                },
                None => {
                    &&& r is Ok && r->Ok_0@ == temp_path_of(id@)
                    &&& final(self).transfers() == old(self).transfers().push(
                        Transfer { id: id@, name: base_name_of(name@), size, received: 0 },
                    )
                },
            },
    {
        if self.transfers.len() >= MAX_CONCURRENT_TRANSFERS {
            return Err("Too many concurrent transfers".to_owned());
        }
        proof {
            lemma_index_of_transfer(self.transfers(), id@);
        }
        if self.find(id) < self.transfers.len() {
            let mut e: String = joined("Transfer ", id);
            e.append(" already in progress");
            return Err(e);
        }
        let sanitized: String = match sanitize_filename(name) {
            Ok(n) => n,
            Err(e) => {
                return Err(e);
            },
        };
        if size > MAX_FILE_SIZE {
            return Err(size_error_text(size));
        }
        let ghost added = Transfer { id: id@, name: sanitized@, size, received: 0 };
        self.transfers.push(
            ActiveTransfer { id: id.to_owned(), name: sanitized, size, received: 0 },
        );
        assert(self.transfers() =~= old(self).transfers().push(added));
        Ok(joined("/tmp/beam-transfer-", id))
    }

    /// Takes a piece of a file, in base64. Gives the bytes to append to the
    /// temporary file. A transfer that exceeds its declared size is given up.
    pub fn handle_file_chunk(&mut self, id: &str, data: &str) -> (r: Result<ChunkWrite, ChunkError>)
        requires
            old(self).wf(),
        ensures
            final(self).wf(),
            final(self).home() == old(self).home(),
            chunk_outcome(
                old(self).transfers(),
                id@,
                base64_decoded(data@),
                final(self).transfers(),
                r,
            ),
    {
        match decode_base64(data) {
            Some(bytes) => self.take_chunk(id, bytes),
            None => Err(ChunkError { message: "Invalid base64 data".to_owned(), discard: None }),
        }
    }

    /// Takes a piece of a file.
    pub fn take_chunk(&mut self, id: &str, bytes: Vec<u8>) -> (r: Result<ChunkWrite, ChunkError>)
        requires
            old(self).wf(),
        ensures
            final(self).wf(),
            final(self).home() == old(self).home(),
            chunk_outcome(
                old(self).transfers(),
                id@,
                Some(bytes@),
                final(self).transfers(),
                r,
            ),
    {
        proof {
            lemma_index_of_transfer(self.transfers(), id@);
        }
        let i: usize = self.find(id);
        if i >= self.transfers.len() {
            return Err(
                ChunkError { message: joined("No active transfer: ", id), discard: None },
            );
        }
        let size: u64 = self.transfers[i].size;
        let received: u64 = self.transfers[i].received;
        assert(self.transfers()[i as int].received == received);
        assert(self.transfers()[i as int].size == size);
        if bytes.len() as u64 > size - received {
            let mut e: String = "Received more data than declared size (".to_owned();
            append_wide_decimal(&mut e, received as u128 + bytes.len() as u128);
            e.append(" > ");
            append_decimal(&mut e, size);
            e.append(")");
            let _ = self.transfers.remove(i);
            assert(self.transfers() =~= old(self).transfers().remove(i as int));
            return Err(
                ChunkError { message: e, discard: Some(joined("/tmp/beam-transfer-", id)) },
            );
        }
        let mut t: ActiveTransfer = self.transfers.remove(i);
        t.received = received + bytes.len() as u64;
        let ghost updated = Transfer { received: t.received, ..old(self).transfers()[i as int] };
        self.transfers.insert(i, t);
        assert(self.transfers() =~= old(self).transfers().update(i as int, updated));
        Ok(ChunkWrite { temp_path: joined("/tmp/beam-transfer-", id), bytes })
    }

    /// Ends a transfer. Gives the file to move, or an error where there is no
    /// such transfer.
    pub fn handle_file_done(&mut self, id: &str) -> (r: Result<FinishedTransfer, String>)
        requires
            old(self).wf(),
        ensures
            final(self).wf(),
            final(self).home() == old(self).home(),
            match r {
                Ok(done) => {
                    let i = index_of_transfer(old(self).transfers(), id@);
                    &&& is_active(old(self).transfers(), id@)
                    &&& done.name@ == old(self).transfers()[i].name
                    &&& done.received == old(self).transfers()[i].received
                    &&& done.temp_path@ == temp_path_of(id@)
                    &&& done.downloads_dir@ == path_join(old(self).home(), "Downloads"@)
                    &&& final(self).transfers() == old(self).transfers().remove(i)
                },
                Err(e) => {
                    &&& !is_active(old(self).transfers(), id@)
                    &&& e@ == "No active transfer: "@ + id@
                    &&& final(self).transfers() == old(self).transfers()
                },
            },
    {
        proof {
            lemma_index_of_transfer(self.transfers(), id@);
        }
        let i: usize = self.find(id);
        if i >= self.transfers.len() {
            return Err(joined("No active transfer: ", id));
        }
        let t: ActiveTransfer = self.transfers.remove(i);
        assert(old(self).transfers()[i as int].name == t.name@);
        assert(self.transfers() =~= old(self).transfers().remove(i as int));
        Ok(
            FinishedTransfer {
                name: t.name,
                received: t.received,
                temp_path: joined("/tmp/beam-transfer-", id),
                downloads_dir: join_path(self.home_dir.as_str(), "Downloads"),
            },
        )
    }

    /// Drops a transfer whose temporary file could not be created.
    pub fn forget(&mut self, id: &str)
        requires
            old(self).wf(),
        ensures
            final(self).wf(),
            final(self).home() == old(self).home(),
            final(self).transfers() == (if is_active(old(self).transfers(), id@) {
                old(self).transfers().remove(index_of_transfer(old(self).transfers(), id@))
            } else {
                old(self).transfers()
            }),
    {
        proof {
            lemma_index_of_transfer(self.transfers(), id@);
        }
        let i: usize = self.find(id);
        if i < self.transfers.len() {
            let _ = self.transfers.remove(i);
            assert(self.transfers() =~= old(self).transfers().remove(i as int));
        }
    }

    /// Gives up all transfers. Gives the temporary files to delete.
    pub fn cleanup(&mut self) -> (r: Vec<String>)
        requires
            old(self).wf(),
        ensures
            final(self).wf(),
            final(self).home() == old(self).home(),
            final(self).transfers() == Seq::<Transfer>::empty(),
            texts(r@) == old(self).transfers().map_values(|t: Transfer| temp_path_of(t.id)),
    {
        let ghost ts = self.transfers();
        let ghost want = ts.map_values(|t: Transfer| temp_path_of(t.id));
        let mut r: Vec<String> = Vec::new();
        let mut i: usize = 0;
        assert(texts(r@) =~= want.take(0));
        while i < self.transfers.len()
            invariant
                i <= self.transfers@.len(),
                ts == self.transfers(),
                ts.len() == self.transfers@.len(),
                want == ts.map_values(|t: Transfer| temp_path_of(t.id)),
                texts(r@) == want.take(i as int),
            decreases self.transfers.len() - i,
        {
            let path: String = joined("/tmp/beam-transfer-", self.transfers[i].id.as_str());
            let ghost p = path@;
            let ghost before = texts(r@);
            assert(ts[i as int].id == self.transfers@[i as int].id@);
            r.push(path);
            assert(texts(r@) =~= before.push(p));
            i = i + 1;
            assert(want.take(i as int) =~= want.take(i - 1).push(want[i - 1]));
        }
        assert(want.take(want.len() as int) =~= want);
        self.transfers = Vec::new();
        assert(self.transfers() =~= Seq::<Transfer>::empty());
        r
    }
}

/// What becomes of the transfers, and what is answered, when a piece of a file
/// comes: `bytes` is what it decodes to.
pub open spec fn chunk_outcome(
    before: Seq<Transfer>,
    id: Seq<char>,
    bytes: Option<Seq<u8>>,
    after: Seq<Transfer>,
    r: Result<ChunkWrite, ChunkError>,
) -> bool {
    let i = index_of_transfer(before, id);
    match bytes {
        None => {
            &&& after == before
            &&& r is Err && r->Err_0.message@ == "Invalid base64 data"@ && r->Err_0.discard is None
        },
        Some(b) => if !is_active(before, id) {
            &&& after == before
            &&& r is Err && r->Err_0.message@ == "No active transfer: "@ + id
                && r->Err_0.discard is None
        } else if before[i].received + b.len() > before[i].size {
            &&& after == before.remove(i)
            &&& r is Err && r->Err_0.message@ == "Received more data than declared size ("@
                + decimal((before[i].received + b.len()) as nat) + " > "@ + decimal(
                before[i].size as nat,
            ) + ")"@
            &&& r->Err_0.discard is Some && r->Err_0.discard->0@ == temp_path_of(id)
        } else {
            &&& after == before.update(
                i,
                Transfer { received: (before[i].received + b.len()) as u64, ..before[i] },
            )
            &&& r is Ok && r->Ok_0.temp_path@ == temp_path_of(id) && r->Ok_0.bytes@ == b
        },
    }
}

/// A transfer that was given up or ended is gone: its id is free again.
pub proof fn removed_transfer_is_gone(transfers: Seq<Transfer>, id: Seq<char>)
    requires
        transfers_ok(transfers),
        is_active(transfers, id),
    ensures
        !is_active(transfers.remove(index_of_transfer(transfers, id)), id),
{
    let i = index_of_transfer(transfers, id);
    let rest = transfers.remove(i);
    lemma_index_of_transfer(transfers, id);
    lemma_index_of_transfer(rest, id);
    if is_active(rest, id) {
        let j = index_of_transfer(rest, id);
        if j < i {
            assert(rest[j] == transfers[j]);
        } else {
            assert(rest[j] == transfers[j + 1]);
        }
    }
}

/// How many bytes some pieces have together.
pub open spec fn total_len(pieces: Seq<Seq<u8>>) -> nat
    decreases pieces.len(),
{
    if pieces.len() == 0 {
        0
    } else {
        total_len(pieces.drop_last()) + pieces.last().len()
    }
}

/// The transfers once some pieces of a file came and were accepted.
pub open spec fn after_pieces(
    transfers: Seq<Transfer>,
    id: Seq<char>,
    pieces: Seq<Seq<u8>>,
) -> Seq<Transfer>
    decreases pieces.len(),
{
    if pieces.len() == 0 {
        transfers
    } else {
        let before = after_pieces(transfers, id, pieces.drop_last());
        let i = index_of_transfer(before, id);
        before.update(
            i,
            Transfer { received: (before[i].received + pieces.last().len()) as u64, ..before[i] },
        )
    }
}

/// A transfer stays where it was put while its pieces come, and only its count
/// of bytes changes.
proof fn lemma_pieces_add_up(
    before: Seq<Transfer>,
    id: Seq<char>,
    name: Seq<char>,
    size: u64,
    pieces: Seq<Seq<u8>>,
)
    requires
        !is_active(before, id),
        total_len(pieces) <= size,
    ensures
        after_pieces(before.push(Transfer { id, name, size, received: 0 }), id, pieces)
            == before.push(Transfer { id, name, size, received: total_len(pieces) as u64 }),
        index_of_transfer(
            before.push(Transfer { id, name, size, received: total_len(pieces) as u64 }),
            id,
        ) == before.len(),
    decreases pieces.len(),
{
    let filled = before.push(Transfer { id, name, size, received: total_len(pieces) as u64 });
    lemma_index_of_transfer(before, id);
    lemma_index_of_transfer(filled, id);
    let i = index_of_transfer(filled, id);
    assert(i == before.len()) by {
        assert(filled[before.len() as int].id == id);
        if i < before.len() {
            assert(filled[i] == before[i]);
            assert(before[i].id == id);
        }
    }
    if pieces.len() > 0 {
        lemma_pieces_add_up(before, id, name, size, pieces.drop_last());
        assert(after_pieces(before.push(Transfer { id, name, size, received: 0 }), id, pieces)
            =~= filled);
    }
}

/// Whether a piece of so many bytes is accepted: its transfer is active, and has
/// room for it.
pub open spec fn accepts_piece(transfers: Seq<Transfer>, id: Seq<char>, len: nat) -> bool {
    let i = index_of_transfer(transfers, id);
    is_active(transfers, id) && transfers[i].received + len <= transfers[i].size
}

/// A file that starts, comes in pieces which have no more than the declared size
/// together, and ends, arrives whole under its sanitized name: each piece is accepted,
/// and the other transfers are left as they were.
pub proof fn whole_file_arrives(
    before: Seq<Transfer>,
    id: Seq<char>,
    name: Seq<char>,
    size: u64,
    pieces: Seq<Seq<u8>>,
)
    requires
        transfers_ok(before),
        start_error(before, id, name, size) is None,
        total_len(pieces) <= size,
    ensures
        ({
            let started = before.push(
                Transfer { id, name: base_name_of(name), size, received: 0 },
            );
            let filled = after_pieces(started, id, pieces);
            let k = index_of_transfer(filled, id);
            &&& forall|n: int|
                0 <= n < pieces.len() ==> accepts_piece(
                    after_pieces(started, id, pieces.take(n)),
                    id,
                    (#[trigger] pieces[n]).len(),
                )
            &&& is_active(filled, id)
            &&& filled[k].name == base_name_of(name)
            &&& filled[k].received == total_len(pieces)
            &&& filled.remove(k) == before
            &&& !is_active(before, id)
        }),
{
    let base = base_name_of(name);
    let started = before.push(Transfer { id, name: base, size, received: 0 });
    assert forall|n: int| 0 <= n < pieces.len() implies accepts_piece(
        after_pieces(started, id, pieces.take(n)),
        id,
        (#[trigger] pieces[n]).len(),
    ) by {
        lemma_piece_is_accepted(before, id, base, size, pieces, n);
    }
    lemma_pieces_add_up(before, id, base, size, pieces);
    assert(after_pieces(started, id, pieces).remove(before.len() as int) =~= before);
}

/// Each piece of a file of the declared size is accepted.
proof fn lemma_piece_is_accepted(
    before: Seq<Transfer>,
    id: Seq<char>,
    name: Seq<char>,
    size: u64,
    pieces: Seq<Seq<u8>>,
    n: int,
)
    requires
        !is_active(before, id),
        total_len(pieces) <= size,
        0 <= n < pieces.len(),
    ensures
        accepts_piece(
            after_pieces(
                before.push(Transfer { id, name, size, received: 0 }),
                id,
                pieces.take(n),
            ),
            id,
            pieces[n].len(),
        ),
{
    lemma_front_is_shorter(pieces, n);
    lemma_front_is_shorter(pieces, n + 1);
    lemma_pieces_add_up(before, id, name, size, pieces.take(n));
    assert(pieces.take(n + 1).drop_last() =~= pieces.take(n));
}

/// The first pieces of some have no more bytes than all.
proof fn lemma_front_is_shorter(pieces: Seq<Seq<u8>>, n: int)
    requires
        0 <= n <= pieces.len(),
    ensures
        total_len(pieces.take(n)) <= total_len(pieces),
    decreases pieces.len() - n,
{
    if n < pieces.len() {
        lemma_front_is_shorter(pieces, n + 1);
        assert(pieces.take(n + 1).drop_last() =~= pieces.take(n));
    } else {
        assert(pieces.take(n) =~= pieces);
    }
}

// ---------------------------------------------------------------------------
// Destinations
// ---------------------------------------------------------------------------

/// The stem of a file name, and what follows a suffix: a dot and the extension,
/// where there is one.
pub open spec fn stem_and_tail(name: Seq<char>) -> (Seq<char>, Seq<char>) {
    match file_name_of(name) {
        Some(base) => match extension_dot(base) {
            Some(i) => (base.take(i), "."@ + base.skip(i + 1)),
            None => (base, Seq::empty()),
        },
        None => (name, Seq::empty()),
    }
}

/// The `n`-th name to try for a file: its own, then with a number in brackets.
pub open spec fn candidate_name(name: Seq<char>, n: nat) -> Seq<char> {
    if n == 0 {
        name
    } else {
        stem_and_tail(name).0 + "("@ + decimal(n) + ")"@ + stem_and_tail(name).1
    }
}

/// The name where all numbers are taken: with an identifier behind a hyphen.
pub open spec fn fallback_name(name: Seq<char>, suffix: Seq<char>) -> Seq<char> {
    stem_and_tail(name).0 + "-"@ + suffix + stem_and_tail(name).1
}

/// How many names are tried.
pub const MAX_CANDIDATES: u32 = 1000;

/// The first name from the `n`-th on that is not taken.
pub open spec fn first_free(
    name: Seq<char>,
    taken: Seq<Seq<char>>,
    n: nat,
    suffix: Seq<char>,
) -> Seq<char>
    decreases MAX_CANDIDATES - n,
{
    if n >= MAX_CANDIDATES {
        fallback_name(name, suffix)
    } else if !taken.contains(candidate_name(name, n)) {
        candidate_name(name, n)
    } else {
        first_free(name, taken, n + 1, suffix)
    }
}

/// Whether `text` is among the strings of `v`.
fn contains_name(v: &Vec<String>, text: &str) -> (r: bool)
    ensures
        r == texts(v@).contains(text@),
{
    let mut i: usize = 0;
    while i < v.len()
        invariant
            i <= v@.len(),
            forall|k: int| 0 <= k < i ==> #[trigger] v@[k]@ != text@,
        decreases v.len() - i,
    {
        if same_text(v[i].as_str(), text) {
            assert(texts(v@)[i as int] == text@);
            return true;
        }
        i = i + 1;
    }
    assert forall|k: int| 0 <= k < texts(v@).len() implies texts(v@)[k] != text@ by {
        assert(v@[k]@ != text@);
    }
    false
}

/// Splits a file name into the part before a suffix and the part behind it.
fn split_for_suffix(name: &str) -> (r: (String, String))
    ensures
        (r.0@, r.1@) == stem_and_tail(name@),
{
    match file_name(name) {
        Some(base) => {
            let (stem, ext) = split_extension(base.as_str());
            let tail: String = match ext {
                Some(e) => joined(".", e.as_str()),
                None => String::new(),
            };
            (stem, tail)
        },
        None => (name.to_owned(), String::new()),
    }
}

/// The `n`-th name to try for a file: its own, then with a number in brackets.
pub fn nth_candidate(name: &str, n: u32) -> (r: String)
    ensures
        r@ == candidate_name(name@, n as nat),
{
    if n == 0 {
        return name.to_owned();
    }
    let (stem, tail) = split_for_suffix(name);
    let mut candidate: String = joined(stem.as_str(), "(");
    append_decimal(&mut candidate, n as u64);
    candidate.append(")");
    candidate.append(tail.as_str());
    candidate
}

/// The path for a file of the given name in a directory: with (1), (2) and so on
/// behind its stem where the name is taken, or with `suffix` where all of those
/// are. `taken` lists the names that are in the directory, at least those that are
/// tried before a free one is found.
pub fn unique_path_among(dir: &str, name: &str, taken: &Vec<String>, suffix: &str) -> (r: String)
    ensures
        r@ == path_join(dir@, first_free(name@, texts(taken@), 0, suffix@)),
{
    let mut n: u32 = 0;
    while n < MAX_CANDIDATES
        invariant
            n <= MAX_CANDIDATES,
            first_free(name@, texts(taken@), 0, suffix@) == first_free(
                name@,
                texts(taken@),
                n as nat,
                suffix@,
            ),
        decreases MAX_CANDIDATES - n,
    {
        let candidate: String = nth_candidate(name, n);
        if !contains_name(taken, candidate.as_str()) {
            return join_path(dir, candidate.as_str());
        }
        n = n + 1;
    }
    let (stem, tail) = split_for_suffix(name);
    let mut fallback: String = joined(stem.as_str(), "-");
    fallback.append(suffix);
    fallback.append(tail.as_str());
    join_path(dir, fallback.as_str())
}

/// The path for a file of the given name in a directory whose names are `taken`:
/// one that is free, or one with a random UUID in it.
pub fn unique_path(dir: &str, name: &str, taken: &Vec<String>) -> (r: String)
    ensures
        exists|uuid: Seq<char>| #[trigger] is_uuid_text(uuid) && r@ == path_join(
            dir@,
            first_free(name@, texts(taken@), 0, uuid),
        ),
{
    let uuid: String = random_uuid();
    unique_path_among(dir, name, taken, uuid.as_str())
}

/// A file never replaces another: the name is free, unless a thousand names are
/// taken and it ends in the suffix.
pub proof fn chosen_name_is_free(name: Seq<char>, taken: Seq<Seq<char>>, n: nat, suffix: Seq<char>)
    requires
        n <= MAX_CANDIDATES,
    ensures
        !taken.contains(first_free(name, taken, n, suffix)) || {
            &&& first_free(name, taken, n, suffix) == fallback_name(name, suffix)
            &&& forall|k: nat| n <= k < MAX_CANDIDATES ==> taken.contains(
                #[trigger] candidate_name(name, k),
            )
        },
    decreases MAX_CANDIDATES - n,
{
    if n < MAX_CANDIDATES && taken.contains(candidate_name(name, n)) {
        chosen_name_is_free(name, taken, n + 1, suffix);
    }
}

/// Pieces of a file, one behind the other.
pub open spec fn together(pieces: Seq<Seq<u8>>) -> Seq<u8>
    decreases pieces.len(),
{
    if pieces.len() == 0 {
        Seq::empty()
    } else {
        together(pieces.drop_last()) + pieces.last()
    }
}

/// The files of a host: what each path holds.
pub type Files = Map<Seq<char>, Seq<u8>>;

/// The files once an upload's pieces were appended to a file.
pub open spec fn files_after_pieces(files: Files, path: Seq<char>, pieces: Seq<Seq<u8>>) -> Files
    decreases pieces.len(),
{
    if pieces.len() == 0 {
        files
    } else {
        let before = files_after_pieces(files, path, pieces.drop_last());
        before.insert(path, before[path] + pieces.last())
    }
}

/// The files once a file was moved.
pub open spec fn files_after_move(files: Files, from: Seq<char>, to: Seq<char>) -> Files {
    files.remove(from).insert(to, files[from])
}

/// The files once an upload is through: its temporary file was created, each piece
/// was appended to it, and it was moved to its place.
pub open spec fn files_after_upload(
    files: Files,
    id: Seq<char>,
    pieces: Seq<Seq<u8>>,
    place: Seq<char>,
) -> Files {
    let temp = temp_path_of(id);
    files_after_move(
        files_after_pieces(files.insert(temp, Seq::empty()), temp, pieces),
        temp,
        place,
    )
}

/// The bytes of pieces that came in base64.
pub open spec fn decoded_pieces(data: Seq<Seq<char>>) -> Seq<Seq<u8>> {
    data.map_values(|d: Seq<char>| base64_decoded(d)->0)
}

/// Every piece of an upload is taken with exactly its bytes, for the upload's
/// temporary file. `before` is what the upload started from; `after` and `r` are what
/// its `n`-th piece led to.
pub proof fn pieces_are_taken_in_order(
    before: Seq<Transfer>,
    id: Seq<char>,
    name: Seq<char>,
    size: u64,
    data: Seq<Seq<char>>,
    n: int,
    after: Seq<Transfer>,
    r: Result<ChunkWrite, ChunkError>,
)
    requires
        transfers_ok(before),
        start_error(before, id, name, size) is None,
        forall|i: int| 0 <= i < data.len() ==> base64_decoded(#[trigger] data[i]) is Some,
        total_len(decoded_pieces(data)) <= size,
        0 <= n < data.len(),
        chunk_outcome(
            after_pieces(
                before.push(Transfer { id, name: base_name_of(name), size, received: 0 }),
                id,
                decoded_pieces(data).take(n),
            ),
            id,
            base64_decoded(data[n]),
            after,
            r,
        ),
    ensures
        r is Ok,
        r->Ok_0.temp_path@ == temp_path_of(id),
        r->Ok_0.bytes@ == decoded_pieces(data)[n],
        after == after_pieces(
            before.push(Transfer { id, name: base_name_of(name), size, received: 0 }),
            id,
            decoded_pieces(data).take(n + 1),
        ),
{
    let pieces = decoded_pieces(data);
    whole_file_arrives(before, id, name, size, pieces);
    assert(base64_decoded(data[n]) is Some);
    assert(pieces[n] == base64_decoded(data[n])->0);
    assert(pieces.take(n + 1).drop_last() =~= pieces.take(n));
    assert(pieces.take(n + 1).last() == pieces[n]);
}

/// Whether every name that a file may get is taken.
pub open spec fn all_names_are_taken(
    name: Seq<char>,
    taken: Seq<Seq<char>>,
    suffix: Seq<char>,
) -> bool {
    &&& forall|k: nat| k < MAX_CANDIDATES ==> taken.contains(#[trigger] candidate_name(name, k))
    &&& taken.contains(fallback_name(name, suffix))
}

/// An upload ends as one file with the bytes of the pieces in their order, under the
/// first free name in the directory, and its temporary file is gone. No other file
/// changes. The file is a new one, unless all names are taken: `taken` lists the names
/// of the directory's files, at least the chosen one if a file has it.
pub proof fn upload_lands_whole(
    files: Files,
    dir: Seq<char>,
    taken: Seq<Seq<char>>,
    id: Seq<char>,
    name: Seq<char>,
    pieces: Seq<Seq<u8>>,
    suffix: Seq<char>,
)
    ensures
        ({
            let chosen = first_free(base_name_of(name), taken, 0, suffix);
            let place = path_join(dir, chosen);
            let after = files_after_upload(files, id, pieces, place);
            &&& after == files.remove(temp_path_of(id)).insert(place, together(pieces))
            &&& taken.contains(chosen) ==> all_names_are_taken(base_name_of(name), taken, suffix)
            &&& (files.contains_key(place) ==> taken.contains(chosen)) && !all_names_are_taken(
                base_name_of(name),
                taken,
                suffix,
            ) ==> !files.contains_key(place)
        }),
{
    let base = base_name_of(name);
    let place = path_join(dir, first_free(base, taken, 0, suffix));
    let temp = temp_path_of(id);
    chosen_name_is_free(base, taken, 0, suffix);
    let created = files.insert(temp, Seq::empty());
    lemma_pieces_are_appended(created, temp, pieces);
    let filled = files_after_pieces(created, temp, pieces);
    assert(filled[temp] =~= together(pieces));
    assert(filled.remove(temp) =~= files.remove(temp));
    assert(files_after_upload(files, id, pieces, place) =~= files.remove(temp).insert(
        place,
        together(pieces),
    ));
}

/// Appending pieces to a file changes that file alone.
proof fn lemma_pieces_are_appended(files: Files, path: Seq<char>, pieces: Seq<Seq<u8>>)
    requires
        files.contains_key(path),
    ensures
        files_after_pieces(files, path, pieces) == files.insert(
            path,
            files[path] + together(pieces),
        ),
    decreases pieces.len(),
{
    if pieces.len() > 0 {
        lemma_pieces_are_appended(files, path, pieces.drop_last());
        assert(files[path] + together(pieces.drop_last()) + pieces.last() =~= files[path]
            + together(pieces));
    } else {
        assert(files[path] + together(pieces) =~= files[path]);
    }
    assert(files_after_pieces(files, path, pieces) =~= files.insert(
        path,
        files[path] + together(pieces),
    ));
}

// ---------------------------------------------------------------------------
// Downloads
// ---------------------------------------------------------------------------

/// What the file system says about a path.
#[derive(Debug, Clone)]
pub struct DownloadProbe {
    /// The path with symbolic links resolved, where it exists.
    pub canonical: Option<String>,
    /// The home directory with symbolic links resolved, where it exists.
    pub canonical_home: Option<String>,
    /// Whether the path is a regular file, and its size, where it can be asked.
    pub metadata: Option<FileMetadata>,
}

/// What is known of a file.
#[derive(Debug, Clone, Copy, PartialEq, Eq, Structural)]
pub struct FileMetadata {
    pub is_file: bool,
    pub len: u64,
}

/// The path that a request means: relative to the home directory unless it is
/// absolute. An error where it is no path at all.
pub open spec fn requested_path(home: Seq<char>, path: Seq<char>) -> Result<Seq<char>, Seq<char>> {
    if path.len() == 0 {
        Err("Empty path"@)
    } else if path.contains('\0') {
        Err("Path contains null byte"@)
    } else {
        Ok(path_join(home, path))
    }
}

/// The path that is downloaded, or why the request is refused.
pub open spec fn download_verdict(home: Seq<char>, path: Seq<char>, probe: DownloadProbe) -> Result<
    Seq<char>,
    Seq<char>,
> {
    match requested_path(home, path) {
        Err(e) => Err(e),
        Ok(abs) => match (probe.canonical, probe.canonical_home) {
            (None, _) => Err("File not found: "@ + abs),
            (Some(_), None) => Err("Cannot resolve home directory"@),
            (Some(file), Some(root)) => if !is_path_under(file@, root@) {
                Err("Access denied: "@ + file@ + " is outside home directory"@)
            } else {
                match probe.metadata {
                    None => Err("Cannot stat: "@ + file@),
                    Some(meta) => if !meta.is_file {
                        Err("Not a regular file: "@ + file@)
                    } else if meta.len > MAX_FILE_SIZE {
                        Err(size_error(meta.len))
                    } else {
                        Ok(file@)
                    },
                }
            },
        },
    }
}

/// The message that starts a download.
pub open spec fn download_start_text(id: Seq<char>, name: Seq<char>, size: u64) -> Seq<char> {
    object_text(
        seq![
            text_member("id"@, id),
            text_member("name"@, name),
            number_member("size"@, size as nat),
            text_member("t"@, "fds"@),
        ],
    )
}

/// The message that carries a piece of a file, in base64.
pub open spec fn download_chunk_text(id: Seq<char>, data: Seq<char>) -> Seq<char> {
    object_text(
        seq![text_member("data"@, data), text_member("id"@, id), text_member("t"@, "fdc"@)],
    )
}

/// The message that ends a download.
pub open spec fn download_done_text(id: Seq<char>) -> Seq<char> {
    object_text(seq![text_member("id"@, id), text_member("t"@, "fdd"@)])
}

/// The message that refuses a download.
pub open spec fn download_error_text(id: Seq<char>, error: Seq<char>) -> Seq<char> {
    object_text(
        seq![text_member("error"@, error), text_member("id"@, id), text_member("t"@, "fde"@)],
    )
}

/// The message that starts a download.
pub fn download_start_message(id: &str, name: &str, size: u64) -> (r: String)
    ensures
        r@ == download_start_text(id@, name@, size),
{
    let mut members: Vec<String> = Vec::new();
    members.push(text_field("id", id));
    members.push(text_field("name", name));
    members.push(number_field("size", size));
    members.push(text_field("t", "fds"));
    assert(texts(members@) =~= seq![
        text_member("id"@, id@),
        text_member("name"@, name@),
        number_member("size"@, size as nat),
        text_member("t"@, "fds"@),
    ]);
    object(&members)
}

/// The message that carries a piece of a file. What it carries decodes to the
/// piece.
pub fn download_chunk_message(id: &str, bytes: &[u8]) -> (r: String)
    requires
        bytes@.len() <= usize::MAX / 4,
    ensures
        r@ == download_chunk_text(id@, base64_encoded(bytes@)),
        base64_decoded(base64_encoded(bytes@)) == Some(bytes@),
{
    let data: String = encode_base64(bytes);
    let mut members: Vec<String> = Vec::new();
    members.push(text_field("data", data.as_str()));
    members.push(text_field("id", id));
    members.push(text_field("t", "fdc"));
    assert(texts(members@) =~= seq![
        text_member("data"@, data@),
        text_member("id"@, id@),
        text_member("t"@, "fdc"@),
    ]);
    object(&members)
}

/// The message that ends a download.
pub fn download_done_message(id: &str) -> (r: String)
    ensures
        r@ == download_done_text(id@),
{
    let mut members: Vec<String> = Vec::new();
    members.push(text_field("id", id));
    members.push(text_field("t", "fdd"));
    assert(texts(members@) =~= seq![text_member("id"@, id@), text_member("t"@, "fdd"@)]);
    object(&members)
}

/// The message that refuses a download.
pub fn download_error_message(id: &str, error: &str) -> (r: String)
    ensures
        r@ == download_error_text(id@, error@),
{
    let mut members: Vec<String> = Vec::new();
    members.push(text_field("error", error));
    members.push(text_field("id", id));
    members.push(text_field("t", "fde"));
    assert(texts(members@) =~= seq![
        text_member("error"@, error@),
        text_member("id"@, id@),
        text_member("t"@, "fde"@),
    ]);
    object(&members)
}

/// The answer to a download request.
#[derive(Debug, Clone)]
pub enum DownloadReply {
    /// Send the message, then the file at `path` in pieces, then the end.
    Start { id: String, path: String, size: u64, message: String },
    /// Send the message.
    Refuse { id: String, error: String, message: String },
}

/// The answer to a request that is known under `id`.
pub open spec fn is_download_reply(
    reply: DownloadReply,
    id: Seq<char>,
    home: Seq<char>,
    path: Seq<char>,
    probe: DownloadProbe,
) -> bool {
    match download_verdict(home, path, probe) {
        Ok(file) => {
            &&& reply matches DownloadReply::Start { id: rid, path: rpath, size, message }
            &&& rid@ == id
            &&& rpath@ == file
            &&& size == probe.metadata->0.len
            &&& message@ == download_start_text(
                id,
                match file_name_of(file) {
                    Some(name) => name,
                    None => "download"@,
                },
                size,
            )
        },
        Err(e) => {
            &&& reply matches DownloadReply::Refuse { id: rid, error, message }
            &&& rid@ == id
            &&& error@ == e
            &&& message@ == download_error_text(id, e)
        },
    }
}

impl FileTransferManager {
    /// The path that a request means, before symbolic links are resolved.
    pub fn requested_path(&self, path: &str) -> (r: Result<String, String>)
        ensures
            match requested_path(self.home(), path@) {
                Ok(abs) => r is Ok && r->Ok_0@ == abs,
                Err(e) => r is Err && r->Err_0@ == e,
            },
    {
        if path.is_empty() {
            return Err("Empty path".to_owned());
        }
        let all: Vec<char> = chars_of(path);
        if among('\0', &all) {
            return Err("Path contains null byte".to_owned());
        }
        Ok(join_path(self.home_dir.as_str(), path))
    }

    /// Validates a download request. Gives the resolved path. Rejects paths that
    /// lead outside the home directory once symbolic links are resolved, paths
    /// that do not exist or are no regular files, and files that are too large.
    pub fn validate_download_path(&self, path: &str, probe: &DownloadProbe) -> (r: Result<
        String,
        String,
    >)
        ensures
            match download_verdict(self.home(), path@, *probe) {
                Ok(file) => r is Ok && r->Ok_0@ == file,
                Err(e) => r is Err && r->Err_0@ == e,
            },
    {
        let abs: String = match self.requested_path(path) {
            Ok(abs) => abs,
            Err(e) => {
                return Err(e);
            },
        };
        let file: &String = match &probe.canonical {
            Some(file) => file,
            None => {
                return Err(joined("File not found: ", abs.as_str()));
            },
        };
        let root: &String = match &probe.canonical_home {
            Some(root) => root,
            None => {
                return Err("Cannot resolve home directory".to_owned());
            },
        };
        if !is_under(file.as_str(), root.as_str()) {
            let mut e: String = joined("Access denied: ", file.as_str());
            e.append(" is outside home directory");
            return Err(e);
        }
        match probe.metadata {
            Some(meta) => {
                if !meta.is_file {
                    Err(joined("Not a regular file: ", file.as_str()))
                } else if meta.len > MAX_FILE_SIZE {
                    Err(size_error_text(meta.len))
                } else {
                    Ok(file.clone())
                }
            },
            None => Err(joined("Cannot stat: ", file.as_str())),
        }
    }

    /// Answers a download request under the given id.
    pub fn download_reply(&self, id: &str, path: &str, probe: &DownloadProbe) -> (r: DownloadReply)
        ensures
            is_download_reply(r, id@, self.home(), path@, *probe),
    {
        match self.validate_download_path(path, probe) {
            Ok(file) => {
                let size: u64 = match probe.metadata {
                    Some(meta) => meta.len,
                    None => 0,
                };
                let name: String = match file_name(file.as_str()) {
                    Some(name) => name,
                    None => "download".to_owned(),
                };
                let message: String = download_start_message(id, name.as_str(), size);
                DownloadReply::Start { id: id.to_owned(), path: file, size, message }
            },
            Err(error) => {
                let message: String = download_error_message(id, error.as_str());
                DownloadReply::Refuse { id: id.to_owned(), error, message }
            },
        }
    }

    /// Answers a download request under a new random id.
    pub fn handle_download_request(&self, path: &str, probe: &DownloadProbe) -> (r: DownloadReply)
        ensures
            exists|id: Seq<char>| #[trigger] is_uuid_text(id) && is_download_reply(
                r,
                id,
                self.home(),
                path@,
                *probe,
            ),
    {
        let id: String = random_uuid();
        self.download_reply(id.as_str(), path, probe)
    }
}

/// What was read of a file that is downloaded.
#[derive(Debug, Clone, PartialEq, Eq)]
pub enum FileRead {
    /// The file could not be opened, and this is why.
    NotOpened(String),
    /// It could not be read on, and this is why.
    NotRead(String),
    /// The next bytes; none at the end of the file.
    Bytes(Vec<u8>),
}

/// What follows from what was read.
#[derive(Debug, Clone, PartialEq, Eq)]
pub enum DownloadStep {
    /// Send the message, and read on.
    Send { message: String },
    /// Send the message: the download is complete.
    Finish { message: String },
    /// The download ends with an error.
    Fail { error: String },
}

/// Whether a message carries a piece of a file.
pub open spec fn is_piece_message(message: Seq<char>, id: Seq<char>, piece: Seq<u8>) -> bool {
    &&& 0 < piece.len() <= DOWNLOAD_CHUNK_SIZE
    &&& message == download_chunk_text(id, base64_encoded(piece))
    &&& base64_decoded(base64_encoded(piece)) == Some(piece)
}

/// The next message of a download that was started: a piece of the file, or the end
/// where there is no more of it.
pub fn download_step(id: &str, path: &str, read: FileRead) -> (r: DownloadStep)
    requires
        read matches FileRead::Bytes(bytes) ==> bytes@.len() <= DOWNLOAD_CHUNK_SIZE,
    ensures
        match read {
            FileRead::NotOpened(reason) => r matches DownloadStep::Fail { error } && error@
                == "Failed to open: "@ + path@ + ": "@ + reason@,
            FileRead::NotRead(reason) => r matches DownloadStep::Fail { error } && error@
                == "Failed to read file: "@ + reason@,
            FileRead::Bytes(bytes) => if bytes@.len() == 0 {
                r matches DownloadStep::Finish { message } && message@ == download_done_text(id@)
            } else {
                r matches DownloadStep::Send { message } && is_piece_message(
                    message@,
                    id@,
                    bytes@,
                )
            },
        },
{
    match read {
        FileRead::NotOpened(reason) => {
            let mut error: String = joined("Failed to open: ", path);
            error.append(": ");
            error.append(reason.as_str());
            DownloadStep::Fail { error }
        },
        FileRead::NotRead(reason) => DownloadStep::Fail {
            error: joined("Failed to read file: ", reason.as_str()),
        },
        FileRead::Bytes(bytes) => {
            if bytes.len() == 0 {
                DownloadStep::Finish { message: download_done_message(id) }
            } else {
                DownloadStep::Send { message: download_chunk_message(id, bytes.as_slice()) }
            }
        },
    }
}

/// Whether a message is one that carries data of a download.
pub open spec fn carries(message: Seq<char>, id: Seq<char>, data: Seq<char>) -> bool {
    message == download_chunk_text(id, data)
}

/// The bytes that a message of a download carries; none where it carries no data.
pub open spec fn payload(message: Seq<char>, id: Seq<char>) -> Seq<u8> {
    if exists|data: Seq<char>| carries(message, id, data) {
        match base64_decoded(choose|data: Seq<char>| carries(message, id, data)) {
            Some(bytes) => bytes,
            None => Seq::empty(),
        }
    } else {
        Seq::empty()
    }
}

/// The messages of a download whose file was read in the given pieces.
pub open spec fn are_download_messages(
    messages: Seq<Seq<char>>,
    id: Seq<char>,
    name: Seq<char>,
    size: u64,
    pieces: Seq<Seq<u8>>,
) -> bool {
    &&& messages.len() == pieces.len() + 2
    &&& messages[0] == download_start_text(id, name, size)
    &&& forall|i: int|
        0 <= i < pieces.len() ==> is_piece_message(
            #[trigger] messages[i + 1],
            id,
            pieces[i],
        )
    &&& messages.last() == download_done_text(id)
}

/// What the messages of a download carry, read in their order, is the file.
pub proof fn download_carries_the_file(
    messages: Seq<Seq<char>>,
    id: Seq<char>,
    name: Seq<char>,
    size: u64,
    pieces: Seq<Seq<u8>>,
)
    requires
        are_download_messages(messages, id, name, size, pieces),
    ensures
        together(messages.map_values(|m: Seq<char>| payload(m, id))) == together(pieces),
        forall|i: int|
            0 <= i < pieces.len() ==> 0 < (#[trigger] pieces[i]).len() <= DOWNLOAD_CHUNK_SIZE,
{
    let payloads = messages.map_values(|m: Seq<char>| payload(m, id));
    let n = pieces.len() as int;
    assert forall|i: int| 0 <= i < n implies #[trigger] payloads[i + 1] == pieces[i] by {
        assert(is_piece_message(messages[i + 1], id, pieces[i]));
        lemma_piece_payload(messages[i + 1], id, pieces[i]);
    }
    assert forall|i: int| 0 <= i < n implies 0 < (#[trigger] pieces[i]).len()
        <= DOWNLOAD_CHUNK_SIZE by {
        assert(is_piece_message(messages[i + 1], id, pieces[i]));
    }
    lemma_ends_carry_nothing(id, name, size);
    assert(payloads[0] =~= Seq::<u8>::empty());
    assert(payloads[n + 1] =~= Seq::<u8>::empty());
    assert(payloads.take(1).drop_last() =~= Seq::empty());
    assert(together(payloads.take(1).drop_last()) =~= Seq::empty());
    assert(together(payloads.take(1)) =~= Seq::<u8>::empty());
    lemma_together_from(payloads, pieces, n);
    assert(pieces.take(n) =~= pieces);
    assert(payloads.drop_last() =~= payloads.take(n + 1));
    assert(together(payloads) =~= together(pieces));
}

/// Payloads behind a message without one are the pieces, one behind the other.
proof fn lemma_together_from(payloads: Seq<Seq<u8>>, pieces: Seq<Seq<u8>>, n: int)
    requires
        0 <= n <= pieces.len(),
        payloads.len() == pieces.len() + 2,
        together(payloads.take(1)) == Seq::<u8>::empty(),
        forall|i: int| 0 <= i < pieces.len() ==> #[trigger] payloads[i + 1] == pieces[i],
    ensures
        together(payloads.take(n + 1)) == together(pieces.take(n)),
    decreases n,
{
    if n == 0 {
        assert(together(pieces.take(0)) =~= Seq::empty());
    } else {
        lemma_together_from(payloads, pieces, n - 1);
        assert(payloads.take(n + 1).drop_last() =~= payloads.take(n));
        assert(pieces.take(n).drop_last() =~= pieces.take(n - 1));
        assert(payloads[(n - 1) + 1] == pieces[n - 1]);
    }
}

/// What stands around the data in a message that carries some.
proof fn lemma_chunk_shape(id: Seq<char>, data: Seq<char>)
    ensures
        download_chunk_text(id, data) == "{\"data\":"@ + json_quoted(data) + (","@ + text_member(
            "id"@,
            id,
        ) + ","@ + text_member("t"@, "fdc"@) + "}"@),
{
    reveal_strlit("{\"data\":");
    reveal_strlit("{");
    reveal_strlit("\"");
    reveal_strlit("data");
    reveal_strlit("\":");
    let a = text_member("data"@, data);
    let b = text_member("id"@, id);
    let c = text_member("t"@, "fdc"@);
    let members = seq![a, b, c];
    assert(members.drop_last() =~= seq![a, b]);
    assert(seq![a, b].drop_last() =~= seq![a]);
    assert(seq![a].drop_last() =~= Seq::empty());
    assert(join_of(seq![a], ","@) =~= a);
    assert(join_of(seq![a, b], ","@) =~= a + ","@ + b);
    assert(join_of(members, ","@) =~= a + ","@ + b + ","@ + c);
    assert(a =~= "\""@ + "data"@ + "\":"@ + json_quoted(data));
    assert("{"@ + ("\""@ + "data"@ + "\":"@) =~= "{\"data\":"@);
    assert(download_chunk_text(id, data) =~= "{\"data\":"@ + json_quoted(data) + (","@ + b + ","@
        + c + "}"@));
}

/// A message that carries a piece carries nothing else.
proof fn lemma_piece_payload(message: Seq<char>, id: Seq<char>, piece: Seq<u8>)
    requires
        is_piece_message(message, id, piece),
    ensures
        payload(message, id) == piece,
{
    let data = base64_encoded(piece);
    assert(carries(message, id, data));
    let other = choose|data: Seq<char>| carries(message, id, data);
    assert(carries(message, id, other));
    let head = "{\"data\":"@;
    let tail = ","@ + text_member("id"@, id) + ","@ + text_member("t"@, "fdc"@) + "}"@;
    lemma_chunk_shape(id, data);
    lemma_chunk_shape(id, other);
    let qa = json_quoted(data);
    let qb = json_quoted(other);
    let ma = head + qa + tail;
    let mb = head + qb + tail;
    assert(ma == mb);
    assert(ma.len() == mb.len());
    assert(qa =~= ma.subrange(head.len() as int, (head.len() + qa.len()) as int));
    assert(qb =~= mb.subrange(head.len() as int, (head.len() + qb.len()) as int));
    json_quoting_is_injective(data, other);
}

/// The first and the last message of a download carry no data.
proof fn lemma_ends_carry_nothing(id: Seq<char>, name: Seq<char>, size: u64)
    ensures
        payload(download_start_text(id, name, size), id) == Seq::<u8>::empty(),
        payload(download_done_text(id), id) == Seq::<u8>::empty(),
{
    reveal_strlit("{\"data\":");
    reveal_strlit("{");
    reveal_strlit("\"");
    reveal_strlit("id");
    let first = text_member("id"@, id);
    assert(first[0] == '"' && first[1] == 'i');
    let start = seq![
        first,
        text_member("name"@, name),
        number_member("size"@, size as nat),
        text_member("t"@, "fds"@),
    ];
    let done = seq![first, text_member("t"@, "fdd"@)];
    lemma_join_starts(start, ","@);
    lemma_join_starts(done, ","@);
    assert(download_start_text(id, name, size)[2] == 'i');
    assert(download_done_text(id)[2] == 'i');
    assert forall|data: Seq<char>| !carries(download_start_text(id, name, size), id, data) by {
        lemma_chunk_shape(id, data);
        assert(download_chunk_text(id, data)[2] == 'd');
    }
    assert forall|data: Seq<char>| !carries(download_done_text(id), id, data) by {
        lemma_chunk_shape(id, data);
        assert(download_chunk_text(id, data)[2] == 'd');
    }
}

/// Joined texts start as the first one does.
proof fn lemma_join_starts(members: Seq<Seq<char>>, sep: Seq<char>)
    requires
        members.len() > 0,
    ensures
        members[0].is_prefix_of(join_of(members, sep)),
    decreases members.len(),
{
    let first = members[0];
    let whole = join_of(members, sep);
    if members.len() > 1 {
        lemma_join_starts(members.drop_last(), sep);
        let front = join_of(members.drop_last(), sep);
        assert(members.drop_last()[0] == first);
        assert(first =~= front.subrange(0, first.len() as int));
        assert(whole == front + sep + members.last());
        assert(first =~= whole.subrange(0, first.len() as int));
    } else {
        assert(members.drop_last() =~= Seq::empty());
        assert(whole =~= first);
        assert(first =~= whole.subrange(0, first.len() as int));
    }
}

/// An upload is admitted exactly if fewer than 8 are under way, none of them has its
/// identifier, its name is accepted and it has at most 100 MiB.
pub proof fn uploads_are_admitted_by_fixed_limits(
    transfers: Seq<Transfer>,
    id: Seq<char>,
    name: Seq<char>,
    size: u64,
)
    ensures
        start_error(transfers, id, name, size) is None <==> {
            &&& transfers.len() < 8
            &&& forall|i: int| 0 <= i < transfers.len() ==> (#[trigger] transfers[i]).id != id
            &&& filename_error(name) is None
            &&& size <= 104_857_600
        },
{
    lemma_index_of_transfer(transfers, id);
}

/// A piece of an upload is taken, as it is, exactly if it does not lead beyond the size
/// that was declared. One that does ends the upload, and what there is of it is thrown
/// away. A piece of an upload that is not under way, or that cannot be decoded, changes
/// nothing.
pub proof fn pieces_are_taken_up_to_the_size(
    before: Seq<Transfer>,
    id: Seq<char>,
    bytes: Seq<u8>,
    k: int,
    after: Seq<Transfer>,
    r: Result<ChunkWrite, ChunkError>,
)
    requires
        transfers_ok(before),
        0 <= k < before.len(),
        before[k].id == id,
        chunk_outcome(before, id, Some(bytes), after, r),
    ensures
        r is Ok <==> before[k].received + bytes.len() <= before[k].size,
        r matches Ok(write) ==> {
            &&& write.bytes@ == bytes
            &&& write.temp_path@ == "/tmp/beam-transfer-"@ + id
            &&& after.len() == before.len()
            &&& after[k].id == id
            &&& after[k].name == before[k].name
            &&& after[k].size == before[k].size
            &&& after[k].received == before[k].received + bytes.len()
        },
        r matches Err(e) ==> {
            &&& e.discard is Some && e.discard->0@ == "/tmp/beam-transfer-"@ + id
            &&& after.len() == before.len() - 1
            &&& forall|i: int| 0 <= i < after.len() ==> (#[trigger] after[i]).id != id
        },
{
    lemma_index_of_transfer(before, id);
    let i = index_of_transfer(before, id);
    assert(i == k) by {
        if i < k {
            assert(before[i].id != before[k].id);
        }
    }
    if r is Err {
        removed_transfer_is_gone(before, id);
        lemma_index_of_transfer(after, id);
    }
}

/// A piece of one upload leaves the others as they are.
pub proof fn other_uploads_are_left_alone(
    before: Seq<Transfer>,
    id: Seq<char>,
    bytes: Option<Seq<u8>>,
    after: Seq<Transfer>,
    r: Result<ChunkWrite, ChunkError>,
    other: Transfer,
)
    requires
        chunk_outcome(before, id, bytes, after, r),
        other.id != id,
    ensures
        before.contains(other) <==> after.contains(other),
        bytes is None ==> after == before && r is Err,
        (forall|i: int| 0 <= i < before.len() ==> (#[trigger] before[i]).id != id) ==> after
            == before && r is Err,
{
    lemma_index_of_transfer(before, id);
    let i = index_of_transfer(before, id);
    if before.contains(other) {
        let k = choose|k: int| 0 <= k < before.len() && before[k] == other;
        if after.len() == before.len() {
            assert(after[k] == other);
        } else if k < i {
            assert(after[k] == other);
        } else {
            assert(after[k - 1] == other);
        }
    }
    if after.contains(other) {
        let k = choose|k: int| 0 <= k < after.len() && after[k] == other;
        if after.len() == before.len() {
            assert(before[k] == other);
        } else if k < i {
            assert(before[k] == other);
        } else {
            assert(before[k + 1] == other);
        }
    }
}

/// A file gets the name that was asked for where that is free. Otherwise it gets the
/// first of the numbered names that is.
pub proof fn first_free_name_is_chosen(
    name: Seq<char>,
    taken: Seq<Seq<char>>,
    n: nat,
    suffix: Seq<char>,
)
    requires
        n < 1000,
        !taken.contains(candidate_name(name, n)),
        forall|k: nat| k < n ==> taken.contains(#[trigger] candidate_name(name, k)),
    ensures
        first_free(name, taken, 0, suffix) == candidate_name(name, n),
        n == 0 ==> first_free(name, taken, 0, suffix) == name,
{
    lemma_first_free(name, taken, 0, n, suffix);
}

proof fn lemma_first_free(
    name: Seq<char>,
    taken: Seq<Seq<char>>,
    from: nat,
    n: nat,
    suffix: Seq<char>,
)
    requires
        from <= n < 1000,
        !taken.contains(candidate_name(name, n)),
        forall|k: nat| k < n ==> taken.contains(#[trigger] candidate_name(name, k)),
    ensures
        first_free(name, taken, from, suffix) == candidate_name(name, n),
    decreases n - from,
{
    if from < n {
        assert(taken.contains(candidate_name(name, from)));
        lemma_first_free(name, taken, from + 1, n, suffix);
    }
}

/// A numbered name has the number in brackets before the extension, or at its end where
/// there is none.
pub proof fn numbers_stand_before_the_extension(stem: Seq<char>, extension: Seq<char>, n: nat)
    requires
        n > 0,
        stem.len() > 0,
        !stem.contains('/'),
        !extension.contains('/'),
        !extension.contains('.'),
        stem != seq!['.'] || extension.len() > 0,
    ensures
        candidate_name(stem + seq!['.'] + extension, n) == stem + "("@ + decimal(n) + ")"@ + "."@
            + extension,
        !stem.contains('.') ==> candidate_name(stem, n) == stem + "("@ + decimal(n) + ")"@,
{
    reveal_strlit(".");
    assert("."@ =~= seq!['.']);
    let name = stem + seq!['.'] + extension;
    let dot = stem.len() as int;
    assert(name[dot] == '.');
    assert(!name.contains('/')) by {
        if name.contains('/') {
            let k = choose|k: int| 0 <= k < name.len() && name[k] == '/';
            if k < dot {
                assert(stem[k] == '/');
            } else if k > dot {
                assert(extension[k - dot - 1] == '/');
            }
        }
    }
    assert(name.len() >= 2);
    assert(name != seq!['.']) by {
        assert(seq!['.'].len() == 1);
    }
    if name == seq!['.', '.'] {
        assert(stem =~= seq!['.']);
        assert(extension.len() == 0);
    }
    lemma_components_plain(name);
    assert(components_of(name).last() == name);
    assert(file_name_of(name) == Some(name));
    let found = choose|i: int|
        0 <= i < name.len() && name[i] == '.' && forall|j: int|
            i < j < name.len() ==> name[j] != '.';
    assert(forall|j: int| dot < j < name.len() ==> name[j] != '.') by {
        assert forall|j: int| dot < j < name.len() implies name[j] != '.' by {
            assert(name[j] == extension[j - dot - 1]);
        }
    }
    assert(found == dot);
    assert(extension_dot(name) == Some(dot));
    assert(name.take(dot) =~= stem);
    assert(name.skip(dot + 1) =~= extension);
    assert(candidate_name(name, n) =~= stem + "("@ + decimal(n) + ")"@ + "."@ + extension);
    if !stem.contains('.') {
        assert(stem != seq!['.']) by {
            assert(seq!['.'][0] == '.');
        }
        assert(stem != seq!['.', '.']) by {
            assert(seq!['.', '.'][0] == '.');
        }
        lemma_components_plain(stem);
        assert(components_of(stem).last() == stem);
        assert(file_name_of(stem) == Some(stem));
        assert(extension_dot(stem) is None);
        assert(candidate_name(stem, n) =~= stem + "("@ + decimal(n) + ")"@);
    }
}

/// A request that starts with a separator names its file from the root, any other from
/// the home directory.
pub proof fn requests_start_at_home(home: Seq<char>, path: Seq<char>)
    requires
        path.len() > 0,
        forall|i: int| 0 <= i < path.len() ==> #[trigger] path[i] as u32 != 0,
        home.len() > 0,
        home.last() != '/',
    ensures
        path[0] == '/' ==> requested_path(home, path) == Ok::<Seq<char>, Seq<char>>(path),
        path[0] != '/' ==> requested_path(home, path) == Ok::<Seq<char>, Seq<char>>(
            home + seq!['/'] + path,
        ),
{
    lemma_holds_by_code(path, '\0');
}

/// A regular file of at most 100 MiB is handed out however deep it lies below the home
/// directory: the answer is its own path, with symbolic links resolved.
pub proof fn files_below_home_are_accepted(
    home: Seq<char>,
    path: Seq<char>,
    probe: DownloadProbe,
    parts: Seq<Seq<char>>,
)
    requires
        path.len() > 0,
        forall|i: int| 0 <= i < path.len() ==> #[trigger] path[i] as u32 != 0,
        probe.canonical_home is Some,
        probe.canonical_home->0@.len() > 0,
        are_plain_names(parts),
        probe.canonical is Some,
        probe.canonical->0@ == path_below(probe.canonical_home->0@, parts),
        probe.metadata is Some,
        probe.metadata->0.is_file,
        probe.metadata->0.len <= 104_857_600,
    ensures
        download_verdict(home, path, probe) == Ok::<Seq<char>, Seq<char>>(probe.canonical->0@),
{
    paths_below_are_under(probe.canonical_home->0@, parts);
    if path.contains('\0') {
        let i = choose|i: int| 0 <= i < path.len() && path[i] == '\0';
        assert(path[i] as u32 == 0);
    }
}

/// A file elsewhere is not handed out: neither the one whose path leaves the home
/// directory's at some component, nor one above it. Nor is what is no regular file, or
/// a file of more than 100 MiB.
pub proof fn other_files_are_refused(
    home: Seq<char>,
    path: Seq<char>,
    probe: DownloadProbe,
    root: Seq<Seq<char>>,
    file: Seq<Seq<char>>,
)
    requires
        are_plain_names(root),
        are_plain_names(file),
        probe.canonical_home is Some,
        probe.canonical_home->0@ == path_below(seq!['/'], root),
        probe.canonical is Some,
        probe.canonical->0@ == path_below(seq!['/'], file),
    ensures
        file.len() < root.len() ==> download_verdict(home, path, probe) is Err,
        (exists|i: int| 0 <= i < root.len() && i < file.len() && #[trigger] file[i] != root[i])
            ==> download_verdict(home, path, probe) is Err,
        probe.metadata is None ==> download_verdict(home, path, probe) is Err,
        probe.metadata is Some && !probe.metadata->0.is_file ==> download_verdict(
            home,
            path,
            probe,
        ) is Err,
        probe.metadata is Some && probe.metadata->0.len > 104_857_600 ==> download_verdict(
            home,
            path,
            probe,
        ) is Err,
{
    only_paths_below_are_under(file, root);
}

/// Nothing outside the home directory is ever downloaded, and nothing that is
/// larger than a file may be.
pub proof fn downloads_stay_home(home: Seq<char>, path: Seq<char>, probe: DownloadProbe)
    requires
        download_verdict(home, path, probe) is Ok,
    ensures
        probe.canonical_home is Some,
        is_path_under(download_verdict(home, path, probe)->Ok_0, probe.canonical_home->0@),
        probe.metadata is Some && probe.metadata->0.is_file && probe.metadata->0.len
            <= MAX_FILE_SIZE,
{
}

/// A file below the home directory is sent with its own size and under its own name, whatever
/// directories it lies in.
pub proof fn downloads_are_named_after_the_file(
    reply: DownloadReply,
    id: Seq<char>,
    home: Seq<char>,
    path: Seq<char>,
    probe: DownloadProbe,
    parts: Seq<Seq<char>>,
)
    requires
        is_download_reply(reply, id, home, path, probe),
        path.len() > 0,
        forall|i: int| 0 <= i < path.len() ==> #[trigger] path[i] as u32 != 0,
        probe.canonical_home is Some,
        probe.canonical_home->0@.len() > 0,
        are_plain_names(parts),
        parts.len() > 0,
        parts.last() != seq!['.', '.'],
        probe.canonical is Some,
        probe.canonical->0@ == path_below(probe.canonical_home->0@, parts),
        probe.metadata is Some,
        probe.metadata->0.is_file,
        probe.metadata->0.len <= 104_857_600,
    ensures
        reply matches DownloadReply::Start { id: known, path: file, size, message } && known@ == id
            && file@ == probe.canonical->0@ && size == probe.metadata->0.len && message@
            == "{\"id\":"@ + json_quoted(id) + ",\"name\":"@ + json_quoted(parts.last())
            + ",\"size\":"@ + decimal(size as nat) + ",\"t\":\"fds\"}"@,
{
    files_below_home_are_accepted(home, path, probe, parts);
    crate::paths::lemma_components_below(probe.canonical_home->0@, parts);
    assert(components_of(probe.canonical->0@).last() == parts.last());
    download_messages_have_fixed_shapes(
        id,
        parts.last(),
        probe.metadata->0.len,
        Seq::empty(),
        Seq::empty(),
    );
}

/// The messages of a download, letter by letter.
pub proof fn download_messages_have_fixed_shapes(
    id: Seq<char>,
    name: Seq<char>,
    size: u64,
    data: Seq<char>,
    error: Seq<char>,
)
    ensures
        download_start_text(id, name, size) == "{\"id\":"@ + json_quoted(id) + ",\"name\":"@
            + json_quoted(name) + ",\"size\":"@ + decimal(size as nat) + ",\"t\":\"fds\"}"@,
        download_chunk_text(id, data) == "{\"data\":"@ + json_quoted(data) + ",\"id\":"@
            + json_quoted(id) + ",\"t\":\"fdc\"}"@,
        download_done_text(id) == "{\"id\":"@ + json_quoted(id) + ",\"t\":\"fdd\"}"@,
        download_error_text(id, error) == "{\"error\":"@ + json_quoted(error) + ",\"id\":"@
            + json_quoted(id) + ",\"t\":\"fde\"}"@,
{
    lemma_message_pieces();
    let i = text_member("id"@, id);
    let n = text_member("name"@, name);
    let z = number_member("size"@, size as nat);
    let d = text_member("data"@, data);
    let e = text_member("error"@, error);
    let q = json_quoted(id);
    lemma_four_members(i, n, z, text_member("t"@, "fds"@));
    lemma_three_members(d, i, text_member("t"@, "fdc"@));
    lemma_two_members(i, text_member("t"@, "fdd"@));
    lemma_three_members(e, i, text_member("t"@, "fde"@));
    lemma_regroup("{"@, "\""@ + "id"@ + "\":"@, q);
    lemma_regroup(","@, "\""@ + "id"@ + "\":"@, q);
    lemma_regroup(","@, "\""@ + "name"@ + "\":"@, json_quoted(name));
    lemma_regroup(","@, "\""@ + "size"@ + "\":"@, decimal(size as nat));
    lemma_regroup("{"@, "\""@ + "data"@ + "\":"@, json_quoted(data));
    lemma_regroup("{"@, "\""@ + "error"@ + "\":"@, json_quoted(error));
    lemma_chain_of_four(
        "{\"id\":"@,
        q,
        ",\"name\":"@,
        json_quoted(name),
        ",\"size\":"@,
        decimal(size as nat),
        ",\"t\":\"fds\"}"@,
    );
    lemma_chain_of_three("{\"data\":"@, json_quoted(data), ",\"id\":"@, q, ",\"t\":\"fdc\"}"@);
    lemma_chain_of_three("{\"error\":"@, json_quoted(error), ",\"id\":"@, q, ",\"t\":\"fde\"}"@);
}

/// The fixed parts of messages.
proof fn lemma_message_pieces()
    ensures
        "{"@ + ("\""@ + "id"@ + "\":"@) == "{\"id\":"@,
        "{"@ + ("\""@ + "data"@ + "\":"@) == "{\"data\":"@,
        "{"@ + ("\""@ + "error"@ + "\":"@) == "{\"error\":"@,
        ","@ + ("\""@ + "id"@ + "\":"@) == ",\"id\":"@,
        ","@ + ("\""@ + "name"@ + "\":"@) == ",\"name\":"@,
        ","@ + ("\""@ + "size"@ + "\":"@) == ",\"size\":"@,
        ","@ + text_member("t"@, "fds"@) + "}"@ == ",\"t\":\"fds\"}"@,
        ","@ + text_member("t"@, "fdc"@) + "}"@ == ",\"t\":\"fdc\"}"@,
        ","@ + text_member("t"@, "fdd"@) + "}"@ == ",\"t\":\"fdd\"}"@,
        ","@ + text_member("t"@, "fde"@) + "}"@ == ",\"t\":\"fde\"}"@,
{
    lemma_head_open_id();
    lemma_head_open_data();
    lemma_head_open_error();
    lemma_head_next_id();
    lemma_head_next_name();
    lemma_head_next_size();
    lemma_tail_fds();
    lemma_tail_fdc();
    lemma_tail_fdd();
    lemma_tail_fde();
}

proof fn lemma_head_open_id()
    ensures
        "{"@ + ("\""@ + "id"@ + "\":"@) == "{\"id\":"@,
{
    reveal_strlit("{");
    reveal_strlit("\"");
    reveal_strlit("id");
    reveal_strlit("\":");
    reveal_strlit("{\"id\":");
    assert("{"@ + ("\""@ + "id"@ + "\":"@) =~= "{\"id\":"@);
}

proof fn lemma_head_open_data()
    ensures
        "{"@ + ("\""@ + "data"@ + "\":"@) == "{\"data\":"@,
{
    reveal_strlit("{");
    reveal_strlit("\"");
    reveal_strlit("data");
    reveal_strlit("\":");
    reveal_strlit("{\"data\":");
    assert("{"@ + ("\""@ + "data"@ + "\":"@) =~= "{\"data\":"@);
}

proof fn lemma_head_open_error()
    ensures
        "{"@ + ("\""@ + "error"@ + "\":"@) == "{\"error\":"@,
{
    reveal_strlit("{");
    reveal_strlit("\"");
    reveal_strlit("error");
    reveal_strlit("\":");
    reveal_strlit("{\"error\":");
    assert("{"@ + ("\""@ + "error"@ + "\":"@) =~= "{\"error\":"@);
}

proof fn lemma_head_next_id()
    ensures
        ","@ + ("\""@ + "id"@ + "\":"@) == ",\"id\":"@,
{
    reveal_strlit(",");
    reveal_strlit("\"");
    reveal_strlit("id");
    reveal_strlit("\":");
    reveal_strlit(",\"id\":");
    assert(","@ + ("\""@ + "id"@ + "\":"@) =~= ",\"id\":"@);
}

proof fn lemma_head_next_name()
    ensures
        ","@ + ("\""@ + "name"@ + "\":"@) == ",\"name\":"@,
{
    reveal_strlit(",");
    reveal_strlit("\"");
    reveal_strlit("name");
    reveal_strlit("\":");
    reveal_strlit(",\"name\":");
    assert(","@ + ("\""@ + "name"@ + "\":"@) =~= ",\"name\":"@);
}

proof fn lemma_head_next_size()
    ensures
        ","@ + ("\""@ + "size"@ + "\":"@) == ",\"size\":"@,
{
    reveal_strlit(",");
    reveal_strlit("\"");
    reveal_strlit("size");
    reveal_strlit("\":");
    reveal_strlit(",\"size\":");
    assert(","@ + ("\""@ + "size"@ + "\":"@) =~= ",\"size\":"@);
}

proof fn lemma_tail_fds()
    ensures
        ","@ + text_member("t"@, "fds"@) + "}"@ == ",\"t\":\"fds\"}"@,
{
    reveal_strlit(",");
    reveal_strlit("\"");
    reveal_strlit("t");
    reveal_strlit("\":");
    reveal_strlit("}");
    reveal_strlit("fds");
    reveal_strlit(",\"t\":\"fds\"}");
    plain_text_is_quoted_as_it_is("fds"@);
    assert(","@ + text_member("t"@, "fds"@) + "}"@ =~= ",\"t\":\"fds\"}"@);
}

proof fn lemma_tail_fdc()
    ensures
        ","@ + text_member("t"@, "fdc"@) + "}"@ == ",\"t\":\"fdc\"}"@,
{
    reveal_strlit(",");
    reveal_strlit("\"");
    reveal_strlit("t");
    reveal_strlit("\":");
    reveal_strlit("}");
    reveal_strlit("fdc");
    reveal_strlit(",\"t\":\"fdc\"}");
    plain_text_is_quoted_as_it_is("fdc"@);
    assert(","@ + text_member("t"@, "fdc"@) + "}"@ =~= ",\"t\":\"fdc\"}"@);
}

proof fn lemma_tail_fdd()
    ensures
        ","@ + text_member("t"@, "fdd"@) + "}"@ == ",\"t\":\"fdd\"}"@,
{
    reveal_strlit(",");
    reveal_strlit("\"");
    reveal_strlit("t");
    reveal_strlit("\":");
    reveal_strlit("}");
    reveal_strlit("fdd");
    reveal_strlit(",\"t\":\"fdd\"}");
    plain_text_is_quoted_as_it_is("fdd"@);
    assert(","@ + text_member("t"@, "fdd"@) + "}"@ =~= ",\"t\":\"fdd\"}"@);
}

proof fn lemma_tail_fde()
    ensures
        ","@ + text_member("t"@, "fde"@) + "}"@ == ",\"t\":\"fde\"}"@,
{
    reveal_strlit(",");
    reveal_strlit("\"");
    reveal_strlit("t");
    reveal_strlit("\":");
    reveal_strlit("}");
    reveal_strlit("fde");
    reveal_strlit(",\"t\":\"fde\"}");
    plain_text_is_quoted_as_it_is("fde"@);
    assert(","@ + text_member("t"@, "fde"@) + "}"@ =~= ",\"t\":\"fde\"}"@);
}

proof fn lemma_three_members(a: Seq<char>, b: Seq<char>, c: Seq<char>)
    ensures
        object_text(seq![a, b, c]) == "{"@ + a + (","@ + b) + (","@ + c + "}"@),
{
    reveal_with_fuel(join_of, 4);
    assert(seq![a, b, c].drop_last() =~= seq![a, b]);
    assert(seq![a, b].drop_last() =~= seq![a]);
    assert(object_text(seq![a, b, c]) =~= "{"@ + a + (","@ + b) + (","@ + c + "}"@));
}

proof fn lemma_four_members(a: Seq<char>, b: Seq<char>, c: Seq<char>, d: Seq<char>)
    ensures
        object_text(seq![a, b, c, d]) == "{"@ + a + (","@ + b) + (","@ + c) + (","@ + d + "}"@),
{
    reveal_with_fuel(join_of, 5);
    assert(seq![a, b, c, d].drop_last() =~= seq![a, b, c]);
    assert(seq![a, b, c].drop_last() =~= seq![a, b]);
    assert(seq![a, b].drop_last() =~= seq![a]);
    assert(object_text(seq![a, b, c, d]) =~= "{"@ + a + (","@ + b) + (","@ + c) + (","@ + d
        + "}"@));
}

proof fn lemma_chain_of_three(
    a: Seq<char>,
    b: Seq<char>,
    c: Seq<char>,
    d: Seq<char>,
    e: Seq<char>,
)
    ensures
        a + b + (c + d) + e == a + b + c + d + e,
{
    assert(a + b + (c + d) + e =~= a + b + c + d + e);
}

proof fn lemma_chain_of_four(
    a: Seq<char>,
    b: Seq<char>,
    c: Seq<char>,
    d: Seq<char>,
    e: Seq<char>,
    f: Seq<char>,
    g: Seq<char>,
)
    ensures
        a + b + (c + d) + (e + f) + g == a + b + c + d + e + f + g,
{
    assert(a + b + (c + d) + (e + f) =~= a + b + c + d + e + f);
}

} // verus!
