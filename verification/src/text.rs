//! Text as sequences of characters: trimming, splitting, decimal notation and
//! number parsing.

use vstd::prelude::*;

verus! {

/// `String::push` appends the given character to the end of the string.
pub assume_specification[ String::push ](s: &mut String, c: char)
    ensures
        final(s)@ == old(s)@.push(c),
;

/// The characters of `s`, in order.
pub fn chars_of(s: &str) -> (v: Vec<char>)
    ensures
        v@ == s@,
{
    let mut v: Vec<char> = Vec::new();
    for c in it: s.chars()
        invariant
            v@ == it.seq().take(it.index()),
            it.seq() == s@,
    {
        v.push(c);
    }
    v
}

/// The string that consists of characters `from .. to` of `v`.
pub fn string_of(v: &Vec<char>, from: usize, to: usize) -> (s: String)
    requires
        from <= to <= v@.len(),
    ensures
        s@ == v@.subrange(from as int, to as int),
{
    let mut s: String = String::new();
    let mut i: usize = from;
    while i < to
        invariant
            from <= i <= to <= v@.len(),
            s@ == v@.subrange(from as int, i as int),
        decreases to - i,
    {
        s.push(v[i]);
        i = i + 1;
        assert(v@.subrange(from as int, i as int) =~= v@.subrange(from as int, i - 1).push(
            v@[i - 1],
        ));
    }
    s
}

/// Whether two strings hold the same characters.
pub fn same_text(a: &str, b: &str) -> (r: bool)
    ensures
        r == (a@ == b@),
{
    a.to_owned() == b.to_owned()
}

/// `a` followed by `b`.
pub fn joined(a: &str, b: &str) -> (r: String)
    ensures
        r@ == a@ + b@,
{
    let mut r: String = a.to_owned();
    r.append(b);
    r
}

// ---------------------------------------------------------------------------
// Prefixes
// ---------------------------------------------------------------------------

/// What is left of `s` behind the prefix `p`, where `s` starts with it.
pub open spec fn behind_prefix(s: Seq<char>, p: Seq<char>) -> Option<Seq<char>> {
    if p.is_prefix_of(s) {
        Some(s.skip(p.len() as int))
    } else {
        None
    }
}

/// Whether `s` starts with `p`.
pub fn has_prefix(s: &str, p: &str) -> (r: bool)
    ensures
        r == p@.is_prefix_of(s@),
{
    let sv: Vec<char> = chars_of(s);
    let pv: Vec<char> = chars_of(p);
    if pv.len() > sv.len() {
        return false;
    }
    let mut i: usize = 0;
    while i < pv.len()
        invariant
            i <= pv@.len() <= sv@.len(),
            sv@ == s@,
            pv@ == p@,
            forall|k: int| 0 <= k < i ==> sv@[k] == pv@[k],
        decreases pv.len() - i,
    {
        if sv[i] != pv[i] {
            assert(s@.subrange(0, p@.len() as int)[i as int] != p@[i as int]);
            return false;
        }
        i = i + 1;
    }
    assert(p@ =~= s@.subrange(0, p@.len() as int));
    true
}

/// What is left of `s` behind the prefix `p`, where `s` starts with it.
pub fn without_prefix<'a>(s: &'a str, p: &str) -> (r: Option<&'a str>)
    ensures
        match behind_prefix(s@, p@) {
            Some(rest) => r is Some && r->0@ == rest,
            None => r is None,
        },
{
    if has_prefix(s, p) {
        let rest: &'a str = s.substring_char(p.unicode_len(), s.unicode_len());
        assert(rest@ =~= s@.skip(p@.len() as int));
        Some(rest)
    } else {
        None
    }
}

// ---------------------------------------------------------------------------
// Whitespace
// ---------------------------------------------------------------------------

/// Whether `c` has the Unicode property White_Space.
pub open spec fn is_space(c: char) -> bool {
    let n = c as u32;
    ||| 0x09 <= n <= 0x0D
    ||| n == 0x20
    ||| n == 0x85
    ||| n == 0xA0
    ||| n == 0x1680
    ||| 0x2000 <= n <= 0x200A
    ||| n == 0x2028
    ||| n == 0x2029
    ||| n == 0x202F
    ||| n == 0x205F
    ||| n == 0x3000
}

/// Whether `c` has the Unicode property White_Space.
pub fn is_whitespace(c: char) -> (r: bool)
    ensures
        r == is_space(c),
{
    let n: u32 = c as u32;
    (0x09 <= n && n <= 0x0D) || n == 0x20 || n == 0x85 || n == 0xA0 || n == 0x1680 || (0x2000 <= n
        && n <= 0x200A) || n == 0x2028 || n == 0x2029 || n == 0x202F || n == 0x205F || n == 0x3000
}

/// `s` without the whitespace at its start.
pub open spec fn trim_start_of(s: Seq<char>) -> Seq<char>
    decreases s.len(),
{
    if s.len() > 0 && is_space(s[0]) {
        trim_start_of(s.skip(1))
    } else {
        s
    }
}

/// `s` without the whitespace at its end.
pub open spec fn trim_end_of(s: Seq<char>) -> Seq<char>
    decreases s.len(),
{
    if s.len() > 0 && is_space(s.last()) {
        trim_end_of(s.drop_last())
    } else {
        s
    }
}

/// `s` without the whitespace at its start and end.
pub open spec fn trim_of(s: Seq<char>) -> Seq<char> {
    trim_end_of(trim_start_of(s))
}

/// `s` without the whitespace at its start.
pub fn trim_start<'a>(s: &'a str) -> (r: &'a str)
    ensures
        r@ == trim_start_of(s@),
{
    let v: Vec<char> = chars_of(s);
    let mut i: usize = 0;
    assert(s@.skip(0) =~= s@);
    while i < v.len() && is_whitespace(v[i])
        invariant
            i <= v@.len(),
            v@ == s@,
            trim_start_of(s@) == trim_start_of(s@.skip(i as int)),
        decreases v.len() - i,
    {
        assert(s@.skip(i as int).skip(1) =~= s@.skip(i + 1));
        i = i + 1;
    }
    let r: &'a str = s.substring_char(i, v.len());
    assert(r@ =~= s@.skip(i as int));
    r
}

/// `s` without the whitespace at its end.
pub fn trim_end<'a>(s: &'a str) -> (r: &'a str)
    ensures
        r@ == trim_end_of(s@),
{
    let v: Vec<char> = chars_of(s);
    let mut i: usize = v.len();
    assert(s@.take(s@.len() as int) =~= s@);
    while i > 0 && is_whitespace(v[i - 1])
        invariant
            i <= v@.len(),
            v@ == s@,
            trim_end_of(s@) == trim_end_of(s@.take(i as int)),
        decreases i,
    {
        assert(s@.take(i as int).drop_last() =~= s@.take(i - 1));
        i = i - 1;
    }
    let r: &'a str = s.substring_char(0, i);
    assert(r@ =~= s@.take(i as int));
    r
}

/// `s` without the whitespace at its start and end.
pub fn trim<'a>(s: &'a str) -> (r: &'a str)
    ensures
        r@ == trim_of(s@),
{
    trim_end(trim_start(s))
}

/// Whether a text is nothing but whitespace.
pub open spec fn is_padding(s: Seq<char>) -> bool {
    forall|i: int| 0 <= i < s.len() ==> is_space(#[trigger] s[i])
}

/// Whitespace around a text makes no difference once it is trimmed.
pub proof fn padding_is_trimmed(before: Seq<char>, s: Seq<char>, after: Seq<char>)
    requires
        is_padding(before),
        is_padding(after),
    ensures
        trim_of(before + s + after) == trim_of(s),
{
    lemma_trim_front(before, s + after);
    assert(before + s + after =~= before + (s + after));
    lemma_trim_back(s, after);
}

proof fn lemma_trim_front(before: Seq<char>, s: Seq<char>)
    requires
        is_padding(before),
    ensures
        trim_start_of(before + s) == trim_start_of(s),
    decreases before.len(),
{
    if before.len() == 0 {
        assert(before + s =~= s);
    } else {
        assert(is_space(before[0]));
        assert((before + s)[0] == before[0]);
        assert((before + s).skip(1) =~= before.skip(1) + s);
        assert forall|i: int| 0 <= i < before.skip(1).len() implies is_space(
            #[trigger] before.skip(1)[i],
        ) by {
            assert(is_space(before[i + 1]));
        }
        lemma_trim_front(before.skip(1), s);
    }
}

proof fn lemma_trim_back(s: Seq<char>, after: Seq<char>)
    requires
        is_padding(after),
    ensures
        trim_of(s + after) == trim_of(s),
    decreases after.len(),
{
    if after.len() == 0 {
        assert(s + after =~= s);
    } else {
        assert forall|i: int| 0 <= i < after.drop_last().len() implies is_space(
            #[trigger] after.drop_last()[i],
        ) by {
            assert(is_space(after[i]));
        }
        lemma_trim_back(s, after.drop_last());
        assert(is_space(after[after.len() - 1]));
        lemma_trim_one(s + after.drop_last(), after.last());
        assert(s + after =~= (s + after.drop_last()).push(after.last()));
    }
}

proof fn lemma_trim_one(s: Seq<char>, c: char)
    requires
        is_space(c),
    ensures
        trim_of(s.push(c)) == trim_of(s),
    decreases s.len(),
{
    if s.len() == 0 {
        assert(s.push(c).skip(1) =~= s);
    } else if is_space(s[0]) {
        assert(s.push(c)[0] == s[0]);
        assert(s.push(c).skip(1) =~= s.skip(1).push(c));
        lemma_trim_one(s.skip(1), c);
    } else {
        assert(s.push(c)[0] == s[0]);
        assert(s.push(c).drop_last() =~= s);
    }
}

// ---------------------------------------------------------------------------
// Splitting
// ---------------------------------------------------------------------------

/// The pieces of `s` between the characters of `seps`, empty ones included.
pub open spec fn split_of(s: Seq<char>, seps: Seq<char>) -> Seq<Seq<char>>
    decreases s.len(),
{
    if s.len() == 0 {
        seq![Seq::empty()]
    } else {
        let front = split_of(s.drop_last(), seps);
        if seps.contains(s.last()) {
            front.push(Seq::empty())
        } else {
            front.update(front.len() - 1, front.last().push(s.last()))
        }
    }
}

/// The character sequences that the strings of `v` hold.
pub open spec fn texts(v: Seq<String>) -> Seq<Seq<char>> {
    v.map_values(|s: String| s@)
}

/// There is always at least one piece.
pub proof fn lemma_split_nonempty(s: Seq<char>, seps: Seq<char>)
    ensures
        split_of(s, seps).len() >= 1,
    decreases s.len(),
{
    if s.len() > 0 {
        lemma_split_nonempty(s.drop_last(), seps);
    }
}

/// Whether `c` is among the characters of `v`.
pub fn among(c: char, v: &Vec<char>) -> (r: bool)
    ensures
        r == v@.contains(c),
{
    let mut i: usize = 0;
    while i < v.len()
        invariant
            i <= v@.len(),
            forall|k: int| 0 <= k < i ==> v@[k] != c,
        decreases v.len() - i,
    {
        if v[i] == c {
            return true;
        }
        i = i + 1;
    }
    false
}

/// The pieces of `s` between the characters of `seps`, empty ones included.
pub fn split(s: &str, seps: &str) -> (r: Vec<String>)
    ensures
        texts(r@) == split_of(s@, seps@),
        r@.len() >= 1,
{
    let v: Vec<char> = chars_of(s);
    let sepv: Vec<char> = chars_of(seps);
    let mut done: Vec<String> = Vec::new();
    let mut piece: String = String::new();
    let mut i: usize = 0;
    assert(texts(done@).push(piece@) =~= split_of(s@.take(0), seps@));
    while i < v.len()
        invariant
            i <= v@.len(),
            v@ == s@,
            sepv@ == seps@,
            texts(done@).push(piece@) == split_of(s@.take(i as int), seps@),
        decreases v.len() - i,
    {
        let c: char = v[i];
        let ghost before = texts(done@);
        let ghost open = piece@;
        i = i + 1;
        assert(s@.take(i as int).drop_last() =~= s@.take(i - 1));
        if among(c, &sepv) {
            done.push(piece);
            piece = String::new();
            assert(texts(done@) =~= before.push(open));
        } else {
            piece.push(c);
            assert(before.push(piece@) =~= before.push(open).update(
                before.len() as int,
                open.push(c),
            ));
        }
    }
    assert(s@.take(s@.len() as int) =~= s@);
    let ghost before = texts(done@);
    let ghost open = piece@;
    done.push(piece);
    assert(texts(done@) =~= before.push(open));
    done
}

/// `line` without a carriage return at its end.
pub open spec fn without_cr(line: Seq<char>) -> Seq<char> {
    if line.len() > 0 && line.last() == '\r' {
        line.drop_last()
    } else {
        line
    }
}

/// The lines of `s`: each ends at a line feed, which may follow a carriage
/// return; what stands behind the last line feed is a line unless it is empty.
pub open spec fn lines_of(s: Seq<char>) -> Seq<Seq<char>> {
    let pieces = split_of(s, seq!['\n']);
    let ended = pieces.drop_last().map_values(|line: Seq<char>| without_cr(line));
    if pieces.last().len() == 0 {
        ended
    } else {
        ended.push(pieces.last())
    }
}

/// The lines of `s`.
pub fn lines(s: &str) -> (r: Vec<String>)
    ensures
        texts(r@) == lines_of(s@),
{
    proof {
        reveal_strlit("\n");
        assert("\n"@ =~= seq!['\n']);
    }
    let pieces: Vec<String> = split(s, "\n");
    let ghost all = split_of(s@, seq!['\n']);
    assert(all =~= texts(pieces@));
    let ghost ended = all.drop_last().map_values(|line: Seq<char>| without_cr(line));
    let mut r: Vec<String> = Vec::new();
    let mut i: usize = 0;
    while i < pieces.len() - 1
        invariant
            i <= pieces@.len() - 1,
            pieces@.len() >= 1,
            all == texts(pieces@),
            ended == all.drop_last().map_values(|line: Seq<char>| without_cr(line)),
            texts(r@) == ended.take(i as int),
        decreases pieces.len() - i,
    {
        let line: Vec<char> = chars_of(pieces[i].as_str());
        let n: usize = line.len();
        let end: usize = if n > 0 && line[n - 1] == '\r' {
            n - 1
        } else {
            n
        };
        let text: String = string_of(&line, 0, end);
        let ghost before = texts(r@);
        let ghost t = text@;
        assert(t =~= without_cr(all[i as int]));
        r.push(text);
        assert(texts(r@) =~= before.push(t));
        i = i + 1;
        assert(ended.take(i as int) =~= ended.take(i - 1).push(ended[i - 1]));
    }
    assert(ended.take(ended.len() as int) =~= ended);
    let last: String = pieces[pieces.len() - 1].clone();
    let ghost before = texts(r@);
    if !last.as_str().is_empty() {
        let ghost t = last@;
        r.push(last);
        assert(texts(r@) =~= before.push(t));
    }
    r
}

// ---------------------------------------------------------------------------
// Numbers
// ---------------------------------------------------------------------------

/// The decimal digit of value `d`.
pub open spec fn digit_char(d: nat) -> char {
    ('0' as u32 + d) as char
}

/// `n` in decimal notation.
pub open spec fn decimal(n: nat) -> Seq<char>
    decreases n,
{
    if n < 10 {
        seq![digit_char(n)]
    } else {
        decimal(n / 10).push(digit_char(n % 10))
    }
}

/// `n` in decimal notation, with a minus sign where it is negative.
pub open spec fn signed_decimal(n: int) -> Seq<char> {
    if n < 0 {
        seq!['-'] + decimal((-n) as nat)
    } else {
        decimal(n as nat)
    }
}

/// The decimal digit of value `d`.
pub fn digit(d: u8) -> (c: char)
    requires
        d < 10,
    ensures
        c == digit_char(d as nat),
{
    (48 + d) as char
}

/// Appends `n` in decimal notation.
pub fn append_wide_decimal(s: &mut String, n: u128)
    ensures
        final(s)@ == old(s)@ + decimal(n as nat),
    decreases n,
{
    if n < 10 {
        s.push(digit(n as u8));
    } else {
        append_wide_decimal(s, n / 10);
        s.push(digit((n % 10) as u8));
    }
    assert(s@ =~= old(s)@ + decimal(n as nat));
}

/// Appends `n` in decimal notation.
pub fn append_decimal(s: &mut String, n: u64)
    ensures
        final(s)@ == old(s)@ + decimal(n as nat),
{
    append_wide_decimal(s, n as u128);
}

/// Appends `n` in decimal notation, with a minus sign where it is negative.
pub fn append_signed(s: &mut String, n: i32)
    ensures
        final(s)@ == old(s)@ + signed_decimal(n as int),
{
    if n < 0 {
        s.push('-');
        append_decimal(s, (-(n as i64)) as u64);
        assert(s@ =~= old(s)@ + signed_decimal(n as int));
    } else {
        append_decimal(s, n as u64);
    }
}

/// `n` in decimal notation.
pub fn to_decimal(n: u64) -> (r: String)
    ensures
        r@ == decimal(n as nat),
{
    let mut r: String = String::new();
    append_decimal(&mut r, n);
    assert(r@ =~= decimal(n as nat));
    r
}

/// The value of `c` as a digit, in upper or lower case where it is a letter.
pub open spec fn digit_value(c: char, radix: nat) -> Option<nat> {
    let n = c as u32;
    let d = if '0' as u32 <= n <= '9' as u32 {
        n - '0' as u32
    } else if 'a' as u32 <= n <= 'z' as u32 {
        n - 'a' as u32 + 10
    } else if 'A' as u32 <= n <= 'Z' as u32 {
        n - 'A' as u32 + 10
    } else {
        36
    };
    if d < radix {
        Some(d as nat)
    } else {
        None
    }
}

/// The number that the digits of `s` spell; `None` where one is no digit.
pub open spec fn digits_value(s: Seq<char>, radix: nat) -> Option<nat>
    decreases s.len(),
{
    if s.len() == 0 {
        Some(0)
    } else {
        match (digits_value(s.drop_last(), radix), digit_value(s.last(), radix)) {
            (Some(v), Some(d)) => Some(v * radix + d),
            _ => None,
        }
    }
}

/// The number that `s` spells: digits, at least one, behind an optional plus
/// sign, with a value that fits in 32 bits.
pub open spec fn u32_value(s: Seq<char>, radix: nat) -> Option<u32> {
    let body = if s.len() > 0 && s[0] == '+' {
        s.skip(1)
    } else {
        s
    };
    match digits_value(body, radix) {
        Some(v) => if body.len() > 0 && v <= u32::MAX {
            Some(v as u32)
        } else {
            None
        },
        None => None,
    }
}

/// The value of `c` as a digit.
fn read_digit(c: char, radix: u32) -> (r: Option<u32>)
    requires
        radix <= 36,
    ensures
        match digit_value(c, radix as nat) {
            Some(d) => r is Some && r->0 == d,
            None => r is None,
        },
{
    let n: u32 = c as u32;
    let d: u32 = if 48 <= n && n <= 57 {
        n - 48
    } else if 97 <= n && n <= 122 {
        n - 97 + 10
    } else if 65 <= n && n <= 90 {
        n - 65 + 10
    } else {
        36
    };
    if d < radix {
        Some(d)
    } else {
        None
    }
}

/// A number only grows as digits are added, and stays none once it is none.
proof fn lemma_digits_grow(s: Seq<char>, radix: nat, i: int)
    requires
        0 <= i <= s.len(),
        radix >= 1,
    ensures
        digits_value(s.take(i), radix) is None ==> digits_value(s, radix) is None,
        digits_value(s, radix) is Some ==> digits_value(s.take(i), radix)->0 <= digits_value(
            s,
            radix,
        )->0,
    decreases s.len() - i,
{
    if i == s.len() {
        assert(s.take(i) =~= s);
    } else {
        lemma_digits_grow(s, radix, i + 1);
        assert(s.take(i + 1).drop_last() =~= s.take(i));
        if digits_value(s.take(i + 1), radix) is Some {
            let v = digits_value(s.take(i), radix)->0;
            assert(v <= v * radix) by (nonlinear_arith)
                requires
                    radix >= 1,
            ;
        }
    }
}

/// Parses an unsigned 32-bit number: digits, at least one, behind an optional
/// plus sign.
pub fn parse_u32(s: &str, radix: u32) -> (r: Option<u32>)
    requires
        2 <= radix <= 36,
    ensures
        r == u32_value(s@, radix as nat),
{
    let v: Vec<char> = chars_of(s);
    let start: usize = if v.len() > 0 && v[0] == '+' {
        1
    } else {
        0
    };
    let ghost body = s@.skip(start as int);
    assert(s@.skip(0) =~= s@);
    if start == v.len() {
        return None;
    }
    let mut value: u32 = 0;
    let mut i: usize = start;
    assert(body.take(0) =~= Seq::empty());
    while i < v.len()
        invariant
            start <= i <= v@.len(),
            2 <= radix <= 36,
            v@ == s@,
            start <= 1,
            start < v@.len(),
            body == s@.skip(start as int),
            u32_value(s@, radix as nat) == (match digits_value(body, radix as nat) {
                Some(n) => if n <= u32::MAX {
                    Some(n as u32)
                } else {
                    None
                },
                None => None,
            }),
            digits_value(body.take(i - start), radix as nat) == Some(value as nat),
        decreases v.len() - i,
    {
        let ghost k = i - start;
        assert(body.take(k + 1).drop_last() =~= body.take(k));
        assert(body.take(k + 1).last() == v@[i as int]);
        proof {
            lemma_digits_grow(body, radix as nat, k + 1);
        }
        match read_digit(v[i], radix) {
            Some(d) => {
                assert(value * radix <= 0xFFFF_FFFF * 36) by (nonlinear_arith)
                    requires
                        value <= 0xFFFF_FFFF,
                        radix <= 36,
                ;
                let next: u64 = (value as u64) * (radix as u64) + (d as u64);
                if next > 0xFFFF_FFFF {
                    return None;
                }
                value = next as u32;
            },
            None => {
                return None;
            },
        }
        i = i + 1;
    }
    assert(body.take(body.len() as int) =~= body);
    Some(value)
}

/// The number that `s` spells with an optional sign, where it fits in 32 bits.
pub open spec fn i32_value(s: Seq<char>) -> Option<i32> {
    let signed = s.len() > 0 && (s[0] == '+' || s[0] == '-');
    let body = if signed {
        s.skip(1)
    } else {
        s
    };
    match digits_value(body, 10) {
        Some(v) => {
            let n = if signed && s[0] == '-' {
                -v
            } else {
                v as int
            };
            if body.len() > 0 && i32::MIN <= n <= i32::MAX {
                Some(n as i32)
            } else {
                None
            }
        },
        None => None,
    }
}

/// Parses a signed 32-bit decimal number.
pub fn parse_i32(s: &str) -> (r: Option<i32>)
    ensures
        r == i32_value(s@),
{
    let v: Vec<char> = chars_of(s);
    if v.len() > 0 && v[0] == '-' {
        let rest: String = string_of(&v, 1, v.len());
        assert(rest@ =~= s@.skip(1));
        if v.len() > 1 && v[1] == '+' {
            proof {
                lemma_sign_is_no_digit(s@.skip(1));
            }
            return None;
        }
        match parse_u32(rest.as_str(), 10) {
            Some(n) => {
                if n <= 0x8000_0000 {
                    Some((-(n as i64)) as i32)
                } else {
                    None
                }
            },
            None => None,
        }
    } else {
        match parse_u32(s, 10) {
            Some(n) => {
                if n <= 0x7FFF_FFFF {
                    Some(n as i32)
                } else {
                    None
                }
            },
            None => None,
        }
    }
}

/// A text that starts with a plus sign does not consist of digits.
proof fn lemma_sign_is_no_digit(s: Seq<char>)
    requires
        s.len() > 0,
        s[0] == '+',
    ensures
        digits_value(s, 10) is None,
{
    lemma_digits_grow(s, 10, 1);
    assert(s.take(1).drop_last() =~= Seq::empty());
    assert(s.take(1).last() == '+');
}

// ---------------------------------------------------------------------------
// Searching
// ---------------------------------------------------------------------------

/// Whether `part` stands at `i` in `s`.
pub open spec fn stands_at(s: Seq<char>, part: Seq<char>, i: int) -> bool {
    0 <= i && i + part.len() <= s.len() && s.subrange(i, i + part.len()) == part
}

/// Whether `part` occurs anywhere in `s`.
pub open spec fn occurs_in(s: Seq<char>, part: Seq<char>) -> bool {
    exists|i: int| #[trigger] stands_at(s, part, i)
}

/// Whether `part` stands at `i` in `s`.
fn found_at(s: &Vec<char>, part: &Vec<char>, i: usize) -> (r: bool)
    requires
        i + part@.len() <= s@.len(),
    ensures
        r == stands_at(s@, part@, i as int),
{
    let mut k: usize = 0;
    while k < part.len()
        invariant
            k <= part.len(),
            i + part.len() <= s.len(),
            forall|j: int| 0 <= j < k ==> s@[i + j] == part@[j],
        decreases part.len() - k,
    {
        if s[i + k] != part[k] {
            assert(s@.subrange(i as int, i + part@.len())[k as int] != part@[k as int]);
            return false;
        }
        k = k + 1;
    }
    assert(s@.subrange(i as int, i + part@.len()) =~= part@);
    true
}

/// Whether `part` occurs anywhere in `s`.
pub fn contains(s: &str, part: &str) -> (r: bool)
    ensures
        r == occurs_in(s@, part@),
{
    let sv: Vec<char> = chars_of(s);
    let pv: Vec<char> = chars_of(part);
    if pv.len() > sv.len() {
        return false;
    }
    let mut i: usize = 0;
    while i <= sv.len() - pv.len()
        invariant
            sv@ == s@,
            pv@ == part@,
            pv@.len() <= sv@.len(),
            i <= sv@.len() - pv@.len() + 1,
            forall|j: int| 0 <= j < i ==> !#[trigger] stands_at(s@, part@, j),
        decreases sv.len() - pv.len() + 1 - i,
    {
        if found_at(&sv, &pv, i) {
            return true;
        }
        assert(pv@.len() > 0) by {
            if pv@.len() == 0 {
                assert(sv@.subrange(i as int, i as int) =~= pv@);
            }
        }
        i = i + 1;
    }
    false
}

/// `s` without the characters `c` at its start.
pub open spec fn without_leading(s: Seq<char>, c: char) -> Seq<char>
    decreases s.len(),
{
    if s.len() > 0 && s[0] == c {
        without_leading(s.skip(1), c)
    } else {
        s
    }
}

/// `s` without the characters `c` at its start.
pub fn strip_leading<'a>(s: &'a str, c: char) -> (r: &'a str)
    ensures
        r@ == without_leading(s@, c),
{
    let v: Vec<char> = chars_of(s);
    let mut i: usize = 0;
    assert(s@.skip(0) =~= s@);
    while i < v.len() && v[i] == c
        invariant
            i <= v@.len(),
            v@ == s@,
            without_leading(s@, c) == without_leading(s@.skip(i as int), c),
        decreases v.len() - i,
    {
        assert(s@.skip(i as int).skip(1) =~= s@.skip(i + 1));
        i = i + 1;
    }
    let r: &'a str = s.substring_char(i, v.len());
    assert(r@ =~= s@.skip(i as int));
    r
}

/// The part of `s` before its first whitespace.
pub open spec fn up_to_space(s: Seq<char>) -> Seq<char>
    decreases s.len(),
{
    if s.len() == 0 || is_space(s[0]) {
        Seq::empty()
    } else {
        seq![s[0]] + up_to_space(s.skip(1))
    }
}

/// The first word of `s`; empty where `s` holds nothing but whitespace.
pub open spec fn first_word_of(s: Seq<char>) -> Seq<char> {
    up_to_space(trim_start_of(s))
}

/// The first word of `s`; empty where `s` holds nothing but whitespace.
pub fn first_word<'a>(s: &'a str) -> (r: &'a str)
    ensures
        r@ == first_word_of(s@),
{
    let t: &'a str = trim_start(s);
    let v: Vec<char> = chars_of(t);
    let mut i: usize = 0;
    assert(t@.skip(0) =~= t@);
    assert(t@.take(0) + up_to_space(t@.skip(0)) =~= up_to_space(t@));
    while i < v.len() && !is_whitespace(v[i])
        invariant
            i <= v@.len(),
            v@ == t@,
            up_to_space(t@) == t@.take(i as int) + up_to_space(t@.skip(i as int)),
        decreases v.len() - i,
    {
        assert(t@.skip(i as int).skip(1) =~= t@.skip(i + 1));
        assert(t@.take(i + 1) =~= t@.take(i as int) + seq![t@[i as int]]);
        assert(t@.take(i + 1) + up_to_space(t@.skip(i + 1)) =~= t@.take(i as int) + up_to_space(
            t@.skip(i as int),
        ));
        i = i + 1;
    }
    let r: &'a str = t.substring_char(0, i);
    assert(r@ =~= up_to_space(t@));
    r
}

/// The texts of `parts`, with `sep` between neighbours.
pub open spec fn join_of(parts: Seq<Seq<char>>, sep: Seq<char>) -> Seq<char>
    decreases parts.len(),
{
    if parts.len() == 0 {
        Seq::empty()
    } else if parts.len() == 1 {
        parts[0]
    } else {
        join_of(parts.drop_last(), sep) + sep + parts.last()
    }
}

/// The strings of `parts`, with `sep` between neighbours.
pub fn join(parts: &Vec<String>, sep: &str) -> (r: String)
    ensures
        r@ == join_of(texts(parts@), sep@),
{
    let ghost ts = texts(parts@);
    let mut r: String = String::new();
    let mut i: usize = 0;
    while i < parts.len()
        invariant
            i <= parts@.len(),
            ts == texts(parts@),
            r@ == join_of(ts.take(i as int), sep@),
        decreases parts.len() - i,
    {
        if i > 0 {
            r.append(sep);
        }
        r.append(parts[i].as_str());
        i = i + 1;
        assert(ts.take(i as int).drop_last() =~= ts.take(i - 1));
        assert(r@ =~= join_of(ts.take(i as int), sep@));
    }
    assert(ts.take(ts.len() as int) =~= ts);
    r
}

// ---------------------------------------------------------------------------
// Decimal notation is unambiguous
// ---------------------------------------------------------------------------

/// Different numbers have different decimal notations.
pub proof fn decimal_is_injective(a: nat, b: nat)
    ensures
        decimal(a) == decimal(b) ==> a == b,
    decreases a,
{
    if decimal(a) == decimal(b) {
        lemma_decimal_nonempty(a / 10);
        lemma_decimal_nonempty(b / 10);
        assert(decimal(a).last() == digit_char(a % 10));
        assert(decimal(b).last() == digit_char(b % 10));
        if a >= 10 && b >= 10 {
            assert(decimal(a).drop_last() =~= decimal(a / 10));
            assert(decimal(b).drop_last() =~= decimal(b / 10));
            decimal_is_injective(a / 10, b / 10);
        } else if a >= 10 {
            assert(decimal(a).len() > 1);
        } else if b >= 10 {
            assert(decimal(b).len() > 1);
        }
    }
}

/// A number has at least one digit.
pub proof fn lemma_decimal_nonempty(n: nat)
    ensures
        decimal(n).len() >= 1,
    decreases n,
{
    if n >= 10 {
        lemma_decimal_nonempty(n / 10);
    }
}

/// Texts that differ in a number only are different texts.
pub proof fn numbered_texts_differ(front: Seq<char>, a: nat, b: nat, back: Seq<char>)
    requires
        a != b,
    ensures
        front + decimal(a) + back != front + decimal(b) + back,
        front + decimal(a) != front + decimal(b),
{
    decimal_is_injective(a, b);
    let x = front + decimal(a) + back;
    let y = front + decimal(b) + back;
    if x == y {
        assert(x.len() == y.len());
        assert(decimal(a).len() == decimal(b).len());
        let n = front.len() as int;
        assert(decimal(a) =~= x.subrange(n, n + decimal(a).len()));
        assert(decimal(b) =~= y.subrange(n, n + decimal(b).len()));
    }
    if front + decimal(a) == front + decimal(b) {
        assert(decimal(a) =~= (front + decimal(a)).skip(front.len() as int));
        assert(decimal(b) =~= (front + decimal(b)).skip(front.len() as int));
    }
}

/// Parsing reads back what decimal notation wrote.
pub proof fn decimal_reads_back(n: nat)
    ensures
        digits_value(decimal(n), 10) == Some(n),
        n <= u32::MAX ==> u32_value(decimal(n), 10) == Some(n as u32),
    decreases n,
{
    lemma_decimal_nonempty(n);
    if n < 10 {
        assert(decimal(n).drop_last() =~= Seq::empty());
        assert(digits_value(Seq::<char>::empty(), 10) == Some(0nat));
    } else {
        decimal_reads_back(n / 10);
        assert(decimal(n).drop_last() =~= decimal(n / 10));
    }
    assert(decimal(n)[0] != '+') by {
        lemma_decimal_first(n);
    }
}

/// A decimal notation starts with a digit.
pub proof fn lemma_decimal_first(n: nat)
    ensures
        decimal(n).len() >= 1,
        '0' as u32 <= decimal(n)[0] as u32 <= '9' as u32,
    decreases n,
{
    if n >= 10 {
        lemma_decimal_first(n / 10);
    }
}

// ---------------------------------------------------------------------------
// UTF-8
// ---------------------------------------------------------------------------

/// How many bytes a text takes in UTF-8.
pub open spec fn byte_len_of(s: Seq<char>) -> nat {
    vstd::utf8::encode_utf8(s).len()
}

/// How many bytes a text takes in UTF-8.
pub fn byte_len(s: &str) -> (r: usize)
    ensures
        r == byte_len_of(s@),
{
    s.as_bytes().len()
}

/// `String::from_utf8`: the text that the bytes encode, where they are valid
/// UTF-8.
#[verifier::external_body]
pub(crate) fn text_from_utf8(bytes: Vec<u8>) -> (r: Option<String>)
    ensures
        r is Some <==> vstd::utf8::valid_utf8(bytes@),
        r is Some ==> r->0@ == vstd::utf8::decode_utf8(bytes@),
{
    String::from_utf8(bytes).ok()
}

/// The text of bytes that may not be UTF-8, as `String::from_utf8_lossy` reads
/// them.
pub uninterp spec fn utf8_lossy(bytes: Seq<u8>) -> Seq<char>;

/// `String::from_utf8_lossy`: the text of the bytes, with replacement characters
/// where they are no valid UTF-8. What stands for invalid bytes is named, not
/// spelled out; valid UTF-8 is decoded.
#[verifier::external_body]
pub(crate) fn from_utf8_lossy(bytes: &[u8]) -> (r: String)
    ensures
        r@ == utf8_lossy(bytes@),
        vstd::utf8::valid_utf8(bytes@) ==> r@ == vstd::utf8::decode_utf8(bytes@),
{
    String::from_utf8_lossy(bytes).into_owned()
}

/// A text that starts and ends with a visible ASCII character (33 to 126) is not trimmed.
pub proof fn visible_ends_are_kept(s: Seq<char>)
    requires
        s.len() > 0,
        33 <= s[0] as u32 <= 126,
        33 <= s.last() as u32 <= 126,
    ensures
        trim_of(s) == s,
        trim_start_of(s) == s,
{
}

/// The first word ends at the first space.
pub proof fn first_words_end_at_a_space(word: Seq<char>, rest: Seq<char>)
    requires
        word.len() > 0,
        forall|i: int| 0 <= i < word.len() ==> 33 <= #[trigger] word[i] as u32 <= 126,
    ensures
        first_word_of(word + seq![' '] + rest) == word,
        first_word_of(word) == word,
{
    let s = word + seq![' '] + rest;
    assert(s[0] == word[0]);
    assert(33 <= word[0] as u32 <= 126);
    assert(trim_start_of(s) == s);
    assert(trim_start_of(word) == word);
    lemma_word_ends(word, seq![' '] + rest);
    lemma_word_ends(word, Seq::empty());
    assert(s =~= word + (seq![' '] + rest));
    assert(word + Seq::empty() =~= word);
}

proof fn lemma_word_ends(word: Seq<char>, behind: Seq<char>)
    requires
        forall|i: int| 0 <= i < word.len() ==> 33 <= #[trigger] word[i] as u32 <= 126,
        behind.len() == 0 || behind[0] == ' ',
    ensures
        up_to_space(word + behind) == word,
    decreases word.len(),
{
    let s = word + behind;
    if word.len() == 0 {
        assert(s =~= behind);
        assert(up_to_space(s) =~= word);
    } else {
        let rest = word.skip(1);
        assert forall|i: int| 0 <= i < rest.len() implies 33 <= #[trigger] rest[i] as u32
            <= 126 by {
            assert(rest[i] == word[i + 1]);
        }
        lemma_word_ends(rest, behind);
        assert(s[0] == word[0]);
        assert(33 <= word[0] as u32 <= 126);
        assert(s.skip(1) =~= rest + behind);
        assert(up_to_space(s) =~= word);
    }
}

/// A text occurs in every text that holds it.
pub proof fn parts_occur(front: Seq<char>, part: Seq<char>, back: Seq<char>)
    ensures
        occurs_in(front + part + back, part),
{
    let s = front + part + back;
    assert(s.subrange(front.len() as int, front.len() as int + part.len()) =~= part);
    assert(stands_at(s, part, front.len() as int));
}

/// A number is written in digits (48 to 57) alone, and reads back with a sign or without.
pub proof fn numbers_are_written_in_digits(n: nat)
    ensures
        decimal(n).len() > 0,
        forall|i: int| 0 <= i < decimal(n).len() ==> 48 <= #[trigger] decimal(n)[i] as u32 <= 57,
        n <= i32::MAX ==> i32_value(decimal(n)) == Some(n as i32),
        n <= i32::MAX ==> i32_value(seq!['-'] + decimal(n)) == Some((-n) as i32),
    decreases n,
{
    decimal_reads_back(n);
    lemma_decimal_first(n);
    if n >= 10 {
        numbers_are_written_in_digits(n / 10);
    }
    assert((seq!['-'] + decimal(n)).skip(1) =~= decimal(n));
}

/// What stands on either side of a separator is split for itself. A text without separators
/// is one piece.
pub proof fn pieces_stand_between_separators(
    a: Seq<char>,
    sep: char,
    b: Seq<char>,
    seps: Seq<char>,
)
    requires
        seps.contains(sep),
    ensures
        split_of(a.push(sep) + b, seps) == split_of(a, seps) + split_of(b, seps),
        (forall|i: int| 0 <= i < b.len() ==> !seps.contains(#[trigger] b[i])) ==> split_of(b, seps)
            == seq![b],
    decreases b.len(),
{
    let all = a.push(sep) + b;
    if b.len() == 0 {
        assert(all =~= a.push(sep));
        assert(all.drop_last() =~= a);
        assert(b =~= Seq::empty());
        assert(split_of(all, seps) =~= split_of(a, seps) + split_of(b, seps));
    } else {
        let short = b.drop_last();
        pieces_stand_between_separators(a, sep, short, seps);
        lemma_split_nonempty(short, seps);
        assert(all.drop_last() =~= a.push(sep) + short);
        assert(all.last() == b.last());
        assert(split_of(all, seps) =~= split_of(a, seps) + split_of(b, seps));
        if forall|i: int| 0 <= i < b.len() ==> !seps.contains(#[trigger] b[i]) {
            assert forall|i: int| 0 <= i < short.len() implies !seps.contains(
                #[trigger] short[i],
            ) by {
                assert(short[i] == b[i]);
            }
            assert(!seps.contains(b[b.len() - 1]));
            assert(short.push(b.last()) =~= b);
            assert(split_of(b, seps) =~= seq![b]);
        }
    }
}

/// Texts that are joined by a separator that none of them holds come apart again.
pub proof fn joined_texts_come_apart(parts: Seq<Seq<char>>, sep: char)
    requires
        parts.len() > 0,
        forall|i: int, k: int|
            0 <= i < parts.len() && 0 <= k < parts[i].len() ==> #[trigger] parts[i][k] != sep,
    ensures
        split_of(join_of(parts, seq![sep]), seq![sep]) == parts,
    decreases parts.len(),
{
    let seps = seq![sep];
    let last = parts.last();
    assert(seps[0] == sep);
    assert(seps.contains(sep));
    assert forall|k: int| 0 <= k < last.len() implies !seps.contains(#[trigger] last[k]) by {
        assert(parts[parts.len() - 1][k] != sep);
    }
    if parts.len() == 1 {
        pieces_stand_between_separators(Seq::empty(), sep, last, seps);
        assert(join_of(parts, seps) =~= last);
        assert(parts =~= seq![last]);
    } else {
        let front = parts.drop_last();
        assert forall|i: int, k: int| 0 <= i < front.len() && 0 <= k < front[i].len() implies
            #[trigger] front[i][k] != sep by {
            assert(parts[i][k] != sep);
        }
        joined_texts_come_apart(front, sep);
        let head = join_of(front, seps);
        pieces_stand_between_separators(head, sep, last, seps);
        assert(join_of(parts, seps) =~= head.push(sep) + last);
        assert(front + seq![last] =~= parts);
    }
}

/// Each line ends at a line feed, and a carriage return before that is no part of it. What
/// comes behind makes further lines.
pub proof fn lines_end_at_line_feeds(line: Seq<char>, rest: Seq<char>)
    requires
        forall|i: int| 0 <= i < line.len() ==> #[trigger] line[i] != '\n' && line[i] != '\r',
    ensures
        lines_of(line + seq!['\n'] + rest) == seq![line] + lines_of(rest),
        lines_of(line + seq!['\r', '\n'] + rest) == seq![line] + lines_of(rest),
        line.len() > 0 ==> lines_of(line) == seq![line],
        lines_of(Seq::empty()).len() == 0,
{
    let seps = seq!['\n'];
    assert(seps[0] == '\n');
    assert(seps.contains('\n'));
    let crlf = line.push('\r');
    assert forall|i: int| 0 <= i < line.len() implies !seps.contains(#[trigger] line[i]) by {}
    assert forall|i: int| 0 <= i < crlf.len() implies !seps.contains(#[trigger] crlf[i]) by {
        if i < line.len() {
            assert(crlf[i] == line[i]);
        }
    }
    pieces_stand_between_separators(Seq::empty(), '\n', line, seps);
    pieces_stand_between_separators(Seq::empty(), '\n', crlf, seps);
    pieces_stand_between_separators(line, '\n', rest, seps);
    pieces_stand_between_separators(crlf, '\n', rest, seps);
    lemma_split_nonempty(rest, seps);
    assert(line + seq!['\n'] + rest =~= line.push('\n') + rest);
    assert(line + seq!['\r', '\n'] + rest =~= crlf.push('\n') + rest);
    assert(without_cr(line) == line) by {
        if line.len() > 0 {
            assert(line[line.len() - 1] != '\r');
        }
    }
    assert(crlf.drop_last() =~= line);
    assert(without_cr(crlf) =~= line);
    lemma_lines_behind(line, rest);
    lemma_lines_behind(crlf, rest);
    if line.len() > 0 {
        assert(seq![line].drop_last() =~= Seq::empty());
        assert(lines_of(line) =~= seq![line]);
    }
    assert(split_of(Seq::empty(), seps) =~= seq![Seq::empty()]);
    assert(lines_of(Seq::empty()) =~= Seq::empty());
}

proof fn lemma_lines_behind(line: Seq<char>, rest: Seq<char>)
    requires
        split_of(line.push('\n') + rest, seq!['\n']) == seq![line] + split_of(rest, seq!['\n']),
    ensures
        lines_of(line.push('\n') + rest) == seq![without_cr(line)] + lines_of(rest),
{
    let seps = seq!['\n'];
    let pieces = split_of(rest, seps);
    let all = seq![line] + pieces;
    lemma_split_nonempty(rest, seps);
    assert(all.drop_last() =~= seq![line] + pieces.drop_last());
    assert(all.last() == pieces.last());
    assert(lines_of(line.push('\n') + rest) =~= seq![without_cr(line)] + lines_of(rest));
}

} // verus!
