//! Person identifiers: UUIDs held as their 128-bit value (the bytes read
//! big-endian), generated, parsed and printed by the `uuid` crate.

use vstd::prelude::*;
use vstd::string::StringSliceAdditionalSpecFns;
use vstd::arithmetic::div_mod::{lemma_div_denominator, lemma_fundamental_div_mod, lemma_mod_bound};
use vstd::utf8::{encode_utf8, is_ascii_chars, is_ascii_chars_encode_utf8};
use crate::query::hex_value;

verus! {

pub open spec fn pow16(n: nat) -> int
    decreases n,
{
    if n == 0 {
        1
    } else {
        16 * pow16((n - 1) as nat)
    }
}

/// The `k`-th hexadecimal digit of `id`, counting from the most
/// significant one (`0 <= k < 32`).
pub open spec fn nibble(id: u128, k: int) -> int {
    ((id as int) / pow16((31 - k) as nat)) % 16
}

pub open spec fn lower_hex_char(d: int) -> char {
    if d < 10 {
        (0x30 + d) as char
    } else {
        (0x61 + d - 10) as char
    }
}

/// Positions of the four hyphens in the 36-character form.
pub open spec fn is_hyphen_position(i: int) -> bool {
    i == 8 || i == 13 || i == 18 || i == 23
}

/// Which hexadecimal digit stands at position `i` of the 36-character form.
pub open spec fn digit_at(i: int) -> int {
    if i < 8 {
        i
    } else if i < 13 {
        i - 1
    } else if i < 18 {
        i - 2
    } else if i < 23 {
        i - 3
    } else {
        i - 4
    }
}

/// The hyphenated lower-case form `xxxxxxxx-xxxx-xxxx-xxxx-xxxxxxxxxxxx`.
pub open spec fn uuid_text(id: u128) -> Seq<char> {
    Seq::new(
        36,
        |i: int|
            if is_hyphen_position(i) {
                '-'
            } else {
                lower_hex_char(nibble(id, digit_at(i)))
            },
    )
}

/// 36 bytes with hyphens at positions 8, 13, 18 and 23 and a hexadecimal
/// digit (either case) everywhere else.
pub open spec fn is_hyphenated_uuid(b: Seq<u8>) -> bool {
    &&& b.len() == 36
    &&& forall|i: int|
        0 <= i < 36 ==> if is_hyphen_position(i) {
            b[i] == 0x2d
        } else {
            hex_value(#[trigger] b[i]) is Some
        }
}

/// Value of a run of hexadecimal digits.
pub open spec fn hex_number(d: Seq<u8>) -> int
    decreases d.len(),
{
    if d.len() == 0 {
        0
    } else {
        hex_number(d.drop_last()) * 16 + match hex_value(d.last()) {
            Some(v) => v,
            None => 0,
        }
    }
}

/// The 32 digits of a hyphenated form, hyphens left out.
pub open spec fn hyphenated_digits(b: Seq<u8>) -> Seq<u8> {
    b.subrange(0, 8) + b.subrange(9, 13) + b.subrange(14, 18) + b.subrange(19, 23) + b.subrange(
        24,
        36,
    )
}

/// Version field (bits 76 to 79) of a UUID value.
pub open spec fn uuid_version(id: u128) -> int {
    nibble(id, 12)
}

/// Variant field (bits 62 and 63) of a UUID value.
pub open spec fn uuid_variant(id: u128) -> int {
    ((id as int) / 0x4000_0000_0000_0000) % 4
}

/// `Uuid::parse_str`, read back with `Uuid::as_u128`. On 36 bytes the
/// crate accepts exactly the hyphenated form (hex digits in either case)
/// and reads the digits as one big-endian number. What it does on other
/// lengths (simple, braced and URN forms) is not stated here.
#[verifier::external_body]
fn uuid_parse(s: &str) -> (r: Option<u128>)
    ensures
        s.spec_bytes().len() == 36 ==> (r is Some <==> is_hyphenated_uuid(s.spec_bytes())),
        s.spec_bytes().len() == 36 ==> (r matches Some(v) ==> v == hex_number(
            hyphenated_digits(s.spec_bytes()),
        )),
{
    uuid::Uuid::parse_str(s).ok().map(|u| u.as_u128())
}

/// `Uuid::now_v7`, read with `Uuid::as_u128`. The value depends on the
/// clock and on random bits; what holds of every outcome is that it is a
/// version 7 UUID of the RFC 4122 variant.
#[verifier::external_body]
fn uuid_now_v7() -> (id: u128)
    ensures
        uuid_version(id) == 7,
        uuid_variant(id) == 2,
{
    uuid::Uuid::now_v7().as_u128()
}

/// `Uuid::from_u128(id).hyphenated()` through `to_string`: the lower-case
/// hyphenated form.
#[verifier::external_body]
fn uuid_hyphenated(id: u128) -> (t: String)
    ensures
        t@ == uuid_text(id),
{
    uuid::Uuid::from_u128(id).hyphenated().to_string()
}

/// A fresh identifier for a new person.
pub fn new_person_id() -> (id: u128)
    ensures
        uuid_version(id) == 7,
        uuid_variant(id) == 2,
{
    uuid_now_v7()
}

/// The text of an identifier.
pub fn id_text(id: u128) -> (t: String)
    ensures
        t@ == uuid_text(id),
{
    uuid_hyphenated(id)
}

/// The identifier that a path segment names: only a 36-byte hyphenated
/// UUID is looked up.
pub fn lookup_id(segment: &str) -> (r: Option<u128>)
    ensures
        r is Some <==> is_hyphenated_uuid(segment.spec_bytes()),
        r matches Some(v) ==> v == hex_number(hyphenated_digits(segment.spec_bytes())),
{
    if segment.as_bytes().len() != 36 {
        return None;
    }
    uuid_parse(segment)
}

proof fn lemma_pow16_positive(n: nat)
    ensures
        pow16(n) > 0,
    decreases n,
{
    if n > 0 {
        lemma_pow16_positive((n - 1) as nat);
    }
}

/// Reading the first `j` digits of a UUID gives the value shifted right by
/// the remaining digits.
proof fn lemma_hex_prefix(id: u128, d: Seq<u8>, j: int)
    requires
        d.len() == 32,
        0 <= j <= 32,
        forall|k: int| 0 <= k < 32 ==> hex_value(#[trigger] d[k]) == Some(nibble(id, k)),
    ensures
        hex_number(d.take(j)) == (id as int) / pow16((32 - j) as nat),
    decreases j,
{
    if j == 0 {
        assert(d.take(0) =~= Seq::<u8>::empty());
        assert(pow16(32) == 0x1_0000_0000_0000_0000_0000_0000_0000_0000) by {
            reveal_with_fuel(pow16, 33);
        }
        assert((id as int) / pow16(32) == 0);
    } else {
        lemma_hex_prefix(id, d, j - 1);
        assert(d.take(j).drop_last() =~= d.take(j - 1));
        assert(d.take(j).last() == d[j - 1]);
        let a = pow16((32 - j) as nat);
        lemma_pow16_positive((32 - j) as nat);
        assert(pow16((32 - (j - 1)) as nat) == 16 * a);
        lemma_div_denominator(id as int, a, 16);
        assert(a * 16 == 16 * a);
        let x = (id as int) / a;
        lemma_fundamental_div_mod(x, 16);
        assert(nibble(id, j - 1) == x % 16);
    }
}

/// The text of an identifier is the hyphenated form, and reading it back
/// gives the identifier: a created person's `Location` names it.
pub proof fn law_id_text_roundtrip(id: u128)
    ensures
        is_hyphenated_uuid(encode_utf8(uuid_text(id))),
        hex_number(hyphenated_digits(encode_utf8(uuid_text(id)))) == id,
{
    let t = uuid_text(id);
    assert forall|k: int| 0 <= k < 32 implies 0 <= #[trigger] nibble(id, k) < 16 by {
        lemma_pow16_positive((31 - k) as nat);
        lemma_mod_bound((id as int) / pow16((31 - k) as nat), 16);
    }
    assert(is_ascii_chars(t)) by {
        assert forall|i: int| 0 <= i < t.len() implies '\0' <= #[trigger] t[i] <= '\u{7f}' by {
            if !is_hyphen_position(i) {
                assert(0 <= digit_at(i) < 32);
                assert(0 <= nibble(id, digit_at(i)) < 16);
            }
        }
    }
    is_ascii_chars_encode_utf8(t);
    let b = encode_utf8(t);
    assert forall|i: int| 0 <= i < 36 && !is_hyphen_position(i) implies hex_value(#[trigger] b[i])
        == Some(nibble(id, digit_at(i))) by {
        assert(b[i] == t[i] as u8);
        assert(0 <= digit_at(i) < 32);
        assert(0 <= nibble(id, digit_at(i)) < 16);
    }
    assert forall|i: int| 0 <= i < 36 implies if is_hyphen_position(i) {
        b[i] == 0x2d
    } else {
        hex_value(#[trigger] b[i]) is Some
    } by {
        assert(b[i] == t[i] as u8);
    }
    let d = hyphenated_digits(b);
    assert(d.len() == 32);
    assert forall|k: int| 0 <= k < 32 implies hex_value(#[trigger] d[k]) == Some(nibble(id, k)) by {
        let i = if k < 8 {
            k
        } else if k < 12 {
            k + 1
        } else if k < 16 {
            k + 2
        } else if k < 20 {
            k + 3
        } else {
            k + 4
        };
        assert(d[k] == b[i]);
        assert(digit_at(i) == k);
        assert(!is_hyphen_position(i));
    }
    lemma_hex_prefix(id, d, 32);
    assert(d.take(32) =~= d);
    assert(pow16(0) == 1);
}

} // verus!
