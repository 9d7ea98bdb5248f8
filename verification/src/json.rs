//! The JSON texts that go to the browser: flat objects of strings and numbers.

use crate::text::{append_decimal, decimal};
use vstd::prelude::*;

verus! {

/// A hexadecimal digit, in lower case.
pub open spec fn hex_digit(d: int) -> char {
    if d < 10 {
        ('0' as u32 + d) as char
    } else {
        ('a' as u32 + d - 10) as char
    }
}

/// A character as it stands in a JSON string: quotes, backslashes and control
/// characters are escaped, by a letter where JSON has one.
pub open spec fn json_escape(c: char) -> Seq<char> {
    let n = c as u32;
    if c == '"' {
        seq!['\\', '"']
    } else if c == '\\' {
        seq!['\\', '\\']
    } else if n == 0x08 {
        seq!['\\', 'b']
    } else if n == 0x09 {
        seq!['\\', 't']
    } else if n == 0x0A {
        seq!['\\', 'n']
    } else if n == 0x0C {
        seq!['\\', 'f']
    } else if n == 0x0D {
        seq!['\\', 'r']
    } else if n < 0x20 {
        seq!['\\', 'u', '0', '0', hex_digit(n as int / 16), hex_digit(n as int % 16)]
    } else {
        seq![c]
    }
}

/// A text as it stands between the quotes of a JSON string.
pub open spec fn json_escaped(s: Seq<char>) -> Seq<char>
    decreases s.len(),
{
    if s.len() == 0 {
        Seq::empty()
    } else {
        json_escape(s[0]) + json_escaped(s.skip(1))
    }
}

/// A text as a JSON string, with its quotes.
pub open spec fn json_quoted(s: Seq<char>) -> Seq<char> {
    seq!['"'] + json_escaped(s) + seq!['"']
}

/// `serde_json::Value::to_string` of a string value: the text in quotes, with
/// quotes, backslashes and control characters escaped and every other
/// character as it is.
#[verifier::external_body]
pub(crate) fn json_string(s: &str) -> (r: String)
    ensures
        r@ == json_quoted(s@),
{
    serde_json::Value::String(s.to_owned()).to_string()
}

/// A member of an object that holds a string. Its name needs no escaping.
pub open spec fn text_member(name: Seq<char>, value: Seq<char>) -> Seq<char> {
    "\""@ + name + "\":"@ + json_quoted(value)
}

/// A member of an object that holds a number.
pub open spec fn number_member(name: Seq<char>, value: nat) -> Seq<char> {
    "\""@ + name + "\":"@ + decimal(value)
}

/// An object with the given members, in order.
pub open spec fn object_text(members: Seq<Seq<char>>) -> Seq<char> {
    "{"@ + crate::text::join_of(members, ","@) + "}"@
}

/// A member that holds a string.
pub fn text_field(name: &str, value: &str) -> (r: String)
    ensures
        r@ == text_member(name@, value@),
{
    let mut r: String = "\"".to_owned();
    r.append(name);
    r.append("\":");
    r.append(json_string(value).as_str());
    r
}

/// A member that holds a number.
pub fn number_field(name: &str, value: u64) -> (r: String)
    ensures
        r@ == number_member(name@, value as nat),
{
    let mut r: String = "\"".to_owned();
    r.append(name);
    r.append("\":");
    append_decimal(&mut r, value);
    r
}

/// An object with the given members, in order.
pub fn object(members: &Vec<String>) -> (r: String)
    ensures
        r@ == object_text(crate::text::texts(members@)),
{
    let mut r: String = "{".to_owned();
    r.append(crate::text::join(members, ",").as_str());
    r.append("}");
    r
}

/// Different texts are different JSON strings: nothing is lost in escaping.
pub proof fn json_quoting_is_injective(a: Seq<char>, b: Seq<char>)
    requires
        json_quoted(a) == json_quoted(b),
    ensures
        a == b,
{
    let qa = json_quoted(a);
    let qb = json_quoted(b);
    assert(json_escaped(a) =~= qa.subrange(1, qa.len() - 1));
    assert(json_escaped(b) =~= qb.subrange(1, qb.len() - 1));
    lemma_escaped_injective(a, b);
}

/// Different digits look different.
proof fn lemma_hex_digit(a: int, b: int)
    requires
        0 <= a < 16,
        0 <= b < 16,
        hex_digit(a) == hex_digit(b),
    ensures
        a == b,
{
    assert(hex_digit(a) as int == if a < 10 {
        48 + a
    } else {
        87 + a
    });
    assert(hex_digit(b) as int == if b < 10 {
        48 + b
    } else {
        87 + b
    });
}

/// How long an escape is can be told from its first two characters, and what it
/// stands for from the whole.
proof fn lemma_escape_is_a_code(c: char)
    ensures
        json_escape(c).len() == (if json_escape(c)[0] != '\\' {
            1
        } else if json_escape(c)[1] == 'u' {
            6int
        } else {
            2
        }),
        json_escape(c)[0] != '\\' ==> json_escape(c)[0] == c,
{
}

/// Different characters have different escapes.
proof fn lemma_escape_injective(c: char, d: char)
    requires
        json_escape(c) == json_escape(d),
    ensures
        c == d,
{
    let m = c as u32 as int;
    let n = d as u32 as int;
    if json_escape(c).len() == 6 {
        assert(json_escape(c)[4] == json_escape(d)[4]);
        assert(json_escape(c)[5] == json_escape(d)[5]);
        lemma_hex_digit(m / 16, n / 16);
        lemma_hex_digit(m % 16, n % 16);
        assert(m == n);
    } else {
        let last = json_escape(c)[json_escape(c).len() - 1];
        assert(last == json_escape(d)[json_escape(d).len() - 1]);
        assert(json_escape(c).len() == json_escape(d).len());
        assert(m == n);
    }
}

proof fn lemma_escaped_injective(a: Seq<char>, b: Seq<char>)
    requires
        json_escaped(a) == json_escaped(b),
    ensures
        a == b,
    decreases a.len(),
{
    let ea = json_escaped(a);
    let eb = json_escaped(b);
    if a.len() == 0 {
        if b.len() > 0 {
            lemma_escape_is_a_code(b[0]);
        }
        assert(a =~= b);
    } else if b.len() == 0 {
        lemma_escape_is_a_code(a[0]);
    } else {
        let ca = json_escape(a[0]);
        let cb = json_escape(b[0]);
        lemma_escape_is_a_code(a[0]);
        lemma_escape_is_a_code(b[0]);
        assert(ea[0] == ca[0] && eb[0] == cb[0]);
        if ca[0] == '\\' {
            assert(ea[1] == ca[1] && eb[1] == cb[1]);
        }
        assert(ca.len() == cb.len());
        assert(ca =~= ea.take(ca.len() as int));
        assert(cb =~= eb.take(cb.len() as int));
        lemma_escape_injective(a[0], b[0]);
        assert(json_escaped(a.skip(1)) =~= ea.skip(ca.len() as int));
        assert(json_escaped(b.skip(1)) =~= eb.skip(cb.len() as int));
        lemma_escaped_injective(a.skip(1), b.skip(1));
        assert(a =~= seq![a[0]] + a.skip(1));
        assert(b =~= seq![b[0]] + b.skip(1));
    }
}

/// Visible ASCII characters (32 to 126), but for the quote (34) and the backslash (92),
/// stand in a JSON string as they are.
pub proof fn plain_text_is_quoted_as_it_is(s: Seq<char>)
    requires
        forall|i: int|
            0 <= i < s.len() ==> 32 <= #[trigger] s[i] as u32 <= 126 && s[i] as u32 != 34
                && s[i] as u32 != 92,
    ensures
        json_quoted(s) == seq!['"'] + s + seq!['"'],
        json_escaped(s) == s,
    decreases s.len(),
{
    if s.len() == 0 {
        assert(json_escaped(s) =~= s);
    } else {
        let rest = s.skip(1);
        assert forall|i: int| 0 <= i < rest.len() implies 32 <= #[trigger] rest[i] as u32 <= 126
            && rest[i] as u32 != 34 && rest[i] as u32 != 92 by {
            assert(rest[i] == s[i + 1]);
        }
        plain_text_is_quoted_as_it_is(rest);
        assert(32 <= s[0] as u32 <= 126 && s[0] as u32 != 34 && s[0] as u32 != 92);
        assert(json_escape(s[0]) =~= seq![s[0]]);
        assert(json_escaped(s) =~= s);
    }
}

/// An object of two members is their texts between braces.
pub proof fn lemma_two_members(a: Seq<char>, b: Seq<char>)
    ensures
        object_text(seq![a, b]) == "{"@ + a + (","@ + b + "}"@),
{
    reveal_with_fuel(crate::text::join_of, 3);
    assert(seq![a, b].drop_last() =~= seq![a]);
    assert(object_text(seq![a, b]) =~= "{"@ + a + (","@ + b + "}"@));
}

/// Texts can be joined in any grouping.
pub proof fn lemma_regroup(a: Seq<char>, b: Seq<char>, c: Seq<char>)
    ensures
        a + (b + c) == a + b + c,
{
    assert(a + (b + c) =~= a + b + c);
}

} // verus!
