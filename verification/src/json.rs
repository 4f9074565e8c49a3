//! JSON text of the replies, built from serde_json's encoding of strings
//! and integers.

use vstd::prelude::*;
use vstd::string::StringExecFns;
use crate::ids::lower_hex_char;

verus! {

#[verifier::external_type_specification]
#[verifier::external_body]
pub struct ExJsonError(serde_json::Error);

/// How serde_json writes one character inside a string literal: `"` and
/// `\\` behind a backslash, the control characters with a short escape
/// where JSON has one and as `\u00xx` otherwise, every other character as
/// it is.
pub open spec fn escaped_char(c: char) -> Seq<char> {
    if c == '"' {
        seq!['\\', '"']
    } else if c == '\\' {
        seq!['\\', '\\']
    } else if c == '\u{8}' {
        seq!['\\', 'b']
    } else if c == '\t' {
        seq!['\\', 't']
    } else if c == '\n' {
        seq!['\\', 'n']
    } else if c == '\u{c}' {
        seq!['\\', 'f']
    } else if c == '\r' {
        seq!['\\', 'r']
    } else if (c as u32) < 0x20 {
        seq![
            '\\',
            'u',
            '0',
            '0',
            lower_hex_char((c as int) / 16),
            lower_hex_char((c as int) % 16),
        ]
    } else {
        seq![c]
    }
}

/// The characters of `s`, each written as `escaped_char` writes it.
pub open spec fn escaped_text(s: Seq<char>) -> Seq<char>
    decreases s.len(),
{
    if s.len() == 0 {
        Seq::empty()
    } else {
        escaped_text(s.drop_last()) + escaped_char(s.last())
    }
}

/// The JSON string literal that serde_json writes for the text `s`.
pub open spec fn json_string_text(s: Seq<char>) -> Seq<char> {
    seq!['"'] + escaped_text(s) + seq!['"']
}

pub open spec fn digit_char(d: int) -> char {
    (0x30 + d) as char
}

/// Decimal digits of a natural number, most significant first.
pub open spec fn digits_text(n: nat) -> Seq<char>
    decreases n,
{
    if n < 10 {
        seq![digit_char(n as int)]
    } else {
        digits_text(n / 10).push(digit_char((n % 10) as int))
    }
}

/// Decimal text of an integer, with a leading `-` when negative.
pub open spec fn decimal_text(n: int) -> Seq<char> {
    if n < 0 {
        seq!['-'] + digits_text((-n) as nat)
    } else {
        digits_text(n as nat)
    }
}

proof fn lemma_plain_escaped(s: Seq<char>)
    requires
        forall|i: int|
            0 <= i < s.len() ==> #[trigger] s[i] != '"' && s[i] != '\\' && (s[i] as u32) >= 0x20,
    ensures
        escaped_text(s) == s,
    decreases s.len(),
{
    if s.len() > 0 {
        let t = s.drop_last();
        assert forall|i: int|
            0 <= i < t.len() implies #[trigger] t[i] != '"' && t[i] != '\\' && (t[i] as u32)
            >= 0x20 by {
            assert(t[i] == s[i]);
        }
        lemma_plain_escaped(t);
        let c = s[s.len() - 1];
        assert(c == s.last());
        assert(escaped_char(c) == seq![c]);
        assert(t.push(c) =~= s);
    }
}

/// Text without quotes, backslashes or control characters is written
/// between quotes as it is.
pub proof fn law_plain_json_string(s: Seq<char>)
    requires
        forall|i: int|
            0 <= i < s.len() ==> #[trigger] s[i] != '"' && s[i] != '\\' && (s[i] as u32) >= 0x20,
    ensures
        json_string_text(s) == seq!['"'] + s + seq!['"'],
{
    lemma_plain_escaped(s);
}

/// `serde_json::to_string` on a `str`. serde_json writes the string
/// literal into a `Vec<u8>`, which cannot fail, so the result is always
/// `Ok`: the text between quotes, escaped as its `ESCAPE` table says.
#[verifier::external_body]
fn serde_string(s: &str) -> (r: Result<String, serde_json::Error>)
    ensures
        r is Ok,
        r matches Ok(t) ==> t@ == json_string_text(s@),
{
    serde_json::to_string(s)
}

/// `serde_json::to_string` on an `i128`. serde_json formats integers
/// with `itoa` into a `Vec<u8>`: the decimal digits, with `-` in front of
/// a negative number, and never an error.
#[verifier::external_body]
fn serde_integer(n: i128) -> (r: Result<String, serde_json::Error>)
    ensures
        r is Ok,
        r matches Ok(t) ==> t@ == decimal_text(n as int),
{
    serde_json::to_string(&n)
}

/// The JSON string literal for `s`.
pub fn json_string(s: &str) -> (t: String)
    ensures
        t@ == json_string_text(s@),
{
    match serde_string(s) {
        Ok(t) => t,
        Err(_) => {
            assert(false);
            String::new()
        },
    }
}

/// The JSON number for `n`.
pub fn json_integer(n: i128) -> (t: String)
    ensures
        t@ == decimal_text(n as int),
{
    match serde_integer(n) {
        Ok(t) => t,
        Err(_) => {
            assert(false);
            String::new()
        },
    }
}

/// Items joined by commas.
pub open spec fn comma_joined(items: Seq<Seq<char>>) -> Seq<char>
    decreases items.len(),
{
    if items.len() == 0 {
        Seq::empty()
    } else if items.len() == 1 {
        items[0]
    } else {
        comma_joined(items.drop_last()) + seq![','] + items.last()
    }
}

/// A JSON array of the given item texts.
pub open spec fn array_text(items: Seq<Seq<char>>) -> Seq<char> {
    seq!['['] + comma_joined(items) + seq![']']
}

/// A JSON array of strings.
pub open spec fn string_array_text(items: Seq<Seq<char>>) -> Seq<char> {
    array_text(items.map_values(|s: Seq<char>| json_string_text(s)))
}

/// The JSON array of the strings in `items`.
pub fn json_string_array(items: &Vec<String>) -> (t: String)
    ensures
        t@ == string_array_text(items@.map_values(|s: String| s@)),
{
    let ghost texts = items@.map_values(|s: String| s@).map_values(|s: Seq<char>| json_string_text(s));
    let mut inner = String::new();
    let mut i: usize = 0;
    while i < items.len()
        invariant
            i <= items@.len(),
            texts == items@.map_values(|s: String| s@).map_values(|s: Seq<char>| json_string_text(s)),
            inner@ == comma_joined(texts.take(i as int)),
        decreases items@.len() - i,
    {
        let item = json_string(items[i].as_str());
        assert(texts.take(i + 1).drop_last() =~= texts.take(i as int));
        if i > 0 {
            inner.append(",");
            proof { reveal_strlit(","); }
        }
        inner.append(item.as_str());
        assert(inner@ =~= comma_joined(texts.take(i + 1)));
        i = i + 1;
    }
    assert(texts.take(i as int) =~= texts);
    let mut t = String::from_str("[");
    t.append(inner.as_str());
    t.append("]");
    proof {
        reveal_strlit("[");
        reveal_strlit("]");
    }
    assert(t@ =~= array_text(texts));
    t
}

/// Whether every character is an ASCII digit.
pub open spec fn all_decimal(t: Seq<char>) -> bool {
    forall|i: int| 0 <= i < t.len() ==> '0' <= #[trigger] t[i] <= '9'
}

/// The value of a run of decimal digits.
pub open spec fn decimal_chars_value(t: Seq<char>) -> int
    decreases t.len(),
{
    if t.len() == 0 {
        0
    } else {
        decimal_chars_value(t.drop_last()) * 10 + (t.last() as int - 0x30)
    }
}

/// The integer a text reads as: an optional `-`, then one or more digits.
pub open spec fn read_integer(t: Seq<char>) -> Option<int> {
    if t.len() > 0 && t[0] == '-' {
        let d = t.skip(1);
        if d.len() > 0 && all_decimal(d) {
            Some(-decimal_chars_value(d))
        } else {
            None
        }
    } else if t.len() > 0 && all_decimal(t) {
        Some(decimal_chars_value(t))
    } else {
        None
    }
}

proof fn lemma_digits_read_back(k: nat)
    ensures
        digits_text(k).len() > 0,
        all_decimal(digits_text(k)),
        decimal_chars_value(digits_text(k)) == k,
        digits_text(k)[0] != '-',
    decreases k,
{
    if k < 10 {
        let t = digits_text(k);
        assert(t.drop_last() =~= Seq::<char>::empty());
        assert(decimal_chars_value(Seq::<char>::empty()) == 0);
        assert((digit_char(k as int) as int) == 0x30 + k);
    } else {
        lemma_digits_read_back(k / 10);
        let t = digits_text(k);
        let p = digits_text(k / 10);
        let c = digit_char((k % 10) as int);
        assert(t == p.push(c));
        assert(t.drop_last() =~= p);
        assert((c as int) == 0x30 + k % 10);
        assert forall|i: int| 0 <= i < t.len() implies '0' <= #[trigger] t[i] <= '9' by {
            if i < p.len() {
                assert(t[i] == p[i]);
            }
        }
        assert(t[0] == p[0]);
    }
}

/// The decimal text of any integer reads back as that integer.
pub proof fn law_decimal_reads_back(n: int)
    ensures
        read_integer(decimal_text(n)) == Some(n),
{
    if n < 0 {
        let k = (-n) as nat;
        lemma_digits_read_back(k);
        let t = decimal_text(n);
        assert(t[0] == '-');
        assert(t.skip(1) =~= digits_text(k));
    } else {
        lemma_digits_read_back(n as nat);
    }
}

} // verus!
