//! Server settings read from the environment, with their defaults.

use vstd::prelude::*;
use vstd::string::{StringExecFns, StringSliceAdditionalSpecFns};
use vstd::utf8::encode_utf8;
use crate::date::{all_digits, digits_value, unsigned_field, DIGIT_NINE, DIGIT_ZERO, PLUS};

verus! {

/// A port number as `str::parse::<u16>` reads it: an optional `+`, digits,
/// and a value that fits in 16 bits.
pub open spec fn port_value(b: Seq<u8>) -> Option<int> {
    match unsigned_field(b) {
        Some(n) => if n <= 65535 {
            Some(n)
        } else {
            None
        },
        None => None,
    }
}

/// Extending a run of digits never lowers its value.
proof fn lemma_digits_grow(s: Seq<u8>, i: int)
    requires
        0 <= i <= s.len(),
        all_digits(s),
    ensures
        digits_value(s.take(i)) <= digits_value(s),
        0 <= digits_value(s.take(i)),
    decreases s.len() - i,
{
    if i < s.len() {
        lemma_digits_grow(s, i + 1);
        assert(s.take(i + 1).drop_last() =~= s.take(i));
        assert(all_digits(s.take(i))) by {
            assert forall|k: int| 0 <= k < i implies crate::date::is_digit(#[trigger] s.take(i)[k]) by {
                assert(s.take(i)[k] == s[k]);
            }
        }
        lemma_digits_nonneg(s.take(i));
    } else {
        assert(s.take(i) =~= s);
        lemma_digits_nonneg(s);
    }
}

proof fn lemma_digits_nonneg(s: Seq<u8>)
    requires
        all_digits(s),
    ensures
        digits_value(s) >= 0,
    decreases s.len(),
{
    if s.len() > 0 {
        let t = s.drop_last();
        assert(all_digits(t)) by {
            assert forall|k: int| 0 <= k < t.len() implies crate::date::is_digit(#[trigger] t[k]) by {
                assert(t[k] == s[k]);
            }
        }
        lemma_digits_nonneg(t);
        assert(crate::date::is_digit(s[s.len() - 1]));
    }
}

proof fn lemma_digit_step(d: Seq<u8>, k: int)
    requires
        0 <= k < d.len(),
        all_digits(d.take(k)),
        crate::date::is_digit(d[k]),
    ensures
        all_digits(d.take(k + 1)),
        digits_value(d.take(k + 1)) == digits_value(d.take(k)) * 10 + (d[k] - DIGIT_ZERO),
{
    assert(d.take(k + 1).drop_last() =~= d.take(k));
    assert forall|j: int| 0 <= j < k + 1 implies crate::date::is_digit(#[trigger] d.take(k + 1)[j]) by {
        if j < k {
            assert(d.take(k + 1)[j] == d.take(k)[j]);
        }
    }
}

proof fn lemma_not_digit(d: Seq<u8>, k: int)
    requires
        0 <= k < d.len(),
        !crate::date::is_digit(d[k]),
    ensures
        !all_digits(d),
{
}

proof fn lemma_too_big(d: Seq<u8>, k: int)
    requires
        0 <= k <= d.len(),
        all_digits(d.take(k)),
        digits_value(d.take(k)) > 65535,
    ensures
        !(all_digits(d) && digits_value(d) <= 65535),
{
    if all_digits(d) {
        lemma_digits_grow(d, k);
    }
}

/// Reads a port number.
pub fn parse_port(text: &str) -> (r: Option<u16>)
    ensures
        match r {
            Some(n) => port_value(text.spec_bytes()) == Some(n as int),
            None => port_value(text.spec_bytes()) is None,
        },
{
    let b = text.as_bytes();
    let ghost f = b@;
    let first: usize = if b.len() > 0 && b[0] == PLUS {
        1
    } else {
        0
    };
    let ghost d = f.subrange(first as int, f.len() as int);
    assert(first == 1 ==> d =~= f.drop_first());
    assert(first == 0 ==> d =~= f);
    if first == b.len() {
        return None;
    }
    let mut v: u32 = 0;
    let mut i = first;
    assert(d.take(0) =~= Seq::<u8>::empty());
    assert(unsigned_field(f) == (if all_digits(d) {
        Some(digits_value(d))
    } else {
        None::<int>
    }));
    while i < b.len()
        invariant
            f == b@,
            f == text.spec_bytes(),
            unsigned_field(f) == (if all_digits(d) {
                Some(digits_value(d))
            } else {
                None::<int>
            }),
            first <= i <= b@.len(),
            d == f.subrange(first as int, f.len() as int),
            all_digits(d.take(i - first)),
            v == digits_value(d.take(i - first)),
            v <= 65535,
        decreases b@.len() - i,
    {
        let c = b[i];
        assert(d[i - first] == c);
        if c < DIGIT_ZERO || c > DIGIT_NINE {
            proof {
                lemma_not_digit(d, i - first);
            }
            return None;
        }
        proof {
            lemma_digit_step(d, i - first);
        }
        v = v * 10 + (c - DIGIT_ZERO) as u32;
        i = i + 1;
        if v > 65535 {
            proof {
                lemma_too_big(d, i - first);
            }
            return None;
        }
    }
    assert(d.take(i - first) =~= d);
    Some(v as u16)
}

/// Where the server listens and how it reaches its database.
pub struct Settings {
    pub port: u16,
    pub db_host: String,
    pub db_port: u16,
    pub db_name: String,
    pub db_user: String,
    pub db_password: String,
}

/// A number setting: its value when given and readable, else the default.
pub open spec fn number_setting(value: Option<Seq<char>>, default: u16) -> int {
    match value {
        Some(v) => match port_value(encode_utf8(v)) {
            Some(n) => n,
            None => default as int,
        },
        None => default as int,
    }
}

/// A text setting: its value when given, else the default.
pub open spec fn text_setting(value: Option<Seq<char>>, default: Seq<char>) -> Seq<char> {
    match value {
        Some(v) => v,
        None => default,
    }
}

pub open spec fn opt_view(value: Option<String>) -> Option<Seq<char>> {
    match value {
        Some(v) => Some(v@),
        None => None,
    }
}

fn number_or(value: Option<String>, default: u16) -> (n: u16)
    ensures
        n == number_setting(opt_view(value), default),
{
    match value {
        Some(v) => match parse_port(v.as_str()) {
            Some(n) => n,
            None => default,
        },
        None => default,
    }
}

fn text_or(value: Option<String>, default: &str) -> (t: String)
    ensures
        t@ == text_setting(opt_view(value), default@),
{
    match value {
        Some(v) => v,
        None => String::from_str(default),
    }
}

/// The settings from the raw environment values (`PORT`, `DB_HOST`,
/// `DB_PORT`, `DB_NAME`, `DB_USER`, `DB_PASSWORD`): a missing value takes
/// its default (8080, `localhost`, 5432, `fight`, `postgres`, `fight`), and
/// so does a port that does not read as a 16-bit number.
pub fn settings_from(
    port: Option<String>,
    db_host: Option<String>,
    db_port: Option<String>,
    db_name: Option<String>,
    db_user: Option<String>,
    db_password: Option<String>,
) -> (s: Settings)
    ensures
        s.port == number_setting(opt_view(port), 8080),
        s.db_host@ == text_setting(opt_view(db_host), "localhost"@),
        s.db_port == number_setting(opt_view(db_port), 5432),
        s.db_name@ == text_setting(opt_view(db_name), "fight"@),
        s.db_user@ == text_setting(opt_view(db_user), "postgres"@),
        s.db_password@ == text_setting(opt_view(db_password), "fight"@),
{
    Settings {
        port: number_or(port, 8080),
        db_host: text_or(db_host, "localhost"),
        db_port: number_or(db_port, 5432),
        db_name: text_or(db_name, "fight"),
        db_user: text_or(db_user, "postgres"),
        db_password: text_or(db_password, "fight"),
    }
}

} // verus!
