//! Query-string decoding: `%XX` escapes, `+` as space, and `key=value`
//! pairs separated by `&`.

use vstd::prelude::*;
use vstd::hash_map::StringHashMap;
use vstd::string::StringSliceAdditionalSpecFns;
use vstd::utf8::encode_utf8;
use crate::text::{byte_char, chars_of, push_char, string_from};

verus! {

pub const PERCENT: u8 = 0x25;

pub const PLUS: u8 = 0x2b;

/// Value of an ASCII hexadecimal digit (either case).
pub open spec fn hex_value(b: u8) -> Option<int> {
    if 0x30 <= b <= 0x39 {
        Some(b - 0x30)
    } else if 0x61 <= b <= 0x66 {
        Some(b - 0x61 + 10)
    } else if 0x41 <= b <= 0x46 {
        Some(b - 0x41 + 10)
    } else {
        None
    }
}

/// The digit at position `i` of an escape: 0 where the byte is missing or
/// is not a hexadecimal digit.
pub open spec fn escape_digit(b: Seq<u8>, i: int) -> int {
    if i < b.len() {
        match hex_value(b[i]) {
            Some(v) => v,
            None => 0,
        }
    } else {
        0
    }
}

/// Decoding of a percent-encoded byte string. `%` takes the two bytes after
/// it (whatever they are) as the hexadecimal value of one byte, `+` is a
/// space, and every other byte stands for the character with its value.
pub open spec fn decode_bytes(b: Seq<u8>) -> Seq<char>
    decreases b.len(),
{
    if b.len() == 0 {
        Seq::empty()
    } else if b[0] == PERCENT {
        let n: int = if b.len() < 3 {
            b.len() as int
        } else {
            3
        };
        seq![((escape_digit(b, 1) * 16 + escape_digit(b, 2)) as u8) as char] + decode_bytes(
            b.skip(n),
        )
    } else if b[0] == PLUS {
        seq![' '] + decode_bytes(b.skip(1))
    } else {
        seq![b[0] as char] + decode_bytes(b.skip(1))
    }
}

fn hex_digit(b: u8) -> (r: u8)
    ensures
        r == (match hex_value(b) {
            Some(v) => v,
            None => 0,
        }),
{
    if 0x30 <= b && b <= 0x39 {
        b - 0x30
    } else if 0x61 <= b && b <= 0x66 {
        b - 0x61 + 10
    } else if 0x41 <= b && b <= 0x46 {
        b - 0x41 + 10
    } else {
        0
    }
}

/// Decodes the percent-encoding of `s` byte by byte.
pub fn url_decode(s: &str) -> (out: String)
    ensures
        out@ == decode_bytes(s.spec_bytes()),
{
    let b = s.as_bytes();
    let ghost bs = b@;
    let mut out = String::new();
    let mut i: usize = 0;
    assert(bs.skip(0) =~= bs);
    while i < b.len()
        invariant
            bs == b@,
            i <= b@.len(),
            out@ + decode_bytes(bs.skip(i as int)) == decode_bytes(bs),
        decreases b@.len() - i,
    {
        let ghost rest = bs.skip(i as int);
        let c = b[i];
        if c == PERCENT {
            let hi: u8 = if b.len() - i > 1 {
                hex_digit(b[i + 1])
            } else {
                0
            };
            let lo: u8 = if b.len() - i > 2 {
                hex_digit(b[i + 2])
            } else {
                0
            };
            let step: usize = if b.len() - i < 3 {
                b.len() - i
            } else {
                3
            };
            proof {
                assert(rest[0] == c);
                assert(escape_digit(rest, 1) == hi);
                assert(escape_digit(rest, 2) == lo);
                assert(rest.skip(step as int) =~= bs.skip(i + step));
            }
            push_char(&mut out, byte_char(hi * 16 + lo));
            i = i + step;
        } else {
            if c == PLUS {
                push_char(&mut out, ' ');
            } else {
                push_char(&mut out, byte_char(c));
            }
            assert(rest.skip(1) =~= bs.skip(i + 1));
            i = i + 1;
        }
    }
    assert(bs.skip(i as int) =~= Seq::<u8>::empty());
    assert(out@ + Seq::<char>::empty() =~= out@);
    out
}

/// The pieces of `s` between occurrences of `sep`, as `str::split` yields
/// them (an empty string gives one empty piece).
pub open spec fn split_on(s: Seq<char>, sep: char) -> Seq<Seq<char>>
    decreases s.len(),
{
    if s.len() == 0 {
        seq![Seq::empty()]
    } else {
        let p = split_on(s.drop_last(), sep);
        if s.last() == sep {
            p.push(Seq::empty())
        } else {
            p.update(p.len() - 1, p.last().push(s.last()))
        }
    }
}

pub open spec fn is_first(s: Seq<char>, c: char, j: int) -> bool {
    &&& 0 <= j < s.len()
    &&& s[j] == c
    &&& forall|k: int| 0 <= k < j ==> s[k] != c
}

/// Position of the first `c` in `s`.
pub open spec fn first_index(s: Seq<char>, c: char) -> Option<int> {
    if exists|j: int| is_first(s, c, j) {
        Some(choose|j: int| is_first(s, c, j))
    } else {
        None
    }
}

/// A piece `key=value` cut at its first `=`; a piece without `=` is no pair.
pub open spec fn pair_of(piece: Seq<char>) -> Option<(Seq<char>, Seq<char>)> {
    match first_index(piece, '=') {
        Some(j) => Some((piece.take(j), piece.skip(j + 1))),
        None => None,
    }
}

/// The parameters that a sequence of pieces sets, a later pair replacing an
/// earlier one with the same key; values are percent-decoded.
pub open spec fn params_of(pieces: Seq<Seq<char>>) -> Map<Seq<char>, Seq<char>>
    decreases pieces.len(),
{
    if pieces.len() == 0 {
        Map::empty()
    } else {
        let m = params_of(pieces.drop_last());
        match pair_of(pieces.last()) {
            Some((k, v)) => m.insert(k, decode_bytes(encode_utf8(v))),
            None => m,
        }
    }
}

/// The parameters of a query string.
pub open spec fn query_params(q: Seq<char>) -> Map<Seq<char>, Seq<char>> {
    params_of(split_on(q, '&'))
}

pub proof fn lemma_split_nonempty(s: Seq<char>, sep: char)
    ensures
        split_on(s, sep).len() >= 1,
    decreases s.len(),
{
    if s.len() > 0 {
        lemma_split_nonempty(s.drop_last(), sep);
    }
}

/// The first `=` in `chars[lo..hi]`, as an offset from `lo`.
fn find_equals(chars: &Vec<char>, lo: usize, hi: usize) -> (r: Option<usize>)
    requires
        lo <= hi <= chars@.len(),
    ensures
        first_index(chars@.subrange(lo as int, hi as int), '=') == match r {
            Some(j) => Some(j as int),
            None => None::<int>,
        },
{
    let ghost p = chars@.subrange(lo as int, hi as int);
    let mut i = lo;
    while i < hi
        invariant
            lo <= i <= hi <= chars@.len(),
            p == chars@.subrange(lo as int, hi as int),
            forall|k: int| 0 <= k < i - lo ==> p[k] != '=',
        decreases hi - i,
    {
        if chars[i] == '=' {
            let j = i - lo;
            proof {
                assert(is_first(p, '=', j as int));
                let c = choose|x: int| is_first(p, '=', x);
                assert(c == j);
            }
            return Some(j);
        }
        i = i + 1;
    }
    assert(!exists|j: int| is_first(p, '=', j));
    None
}

/// Adds the pair that `chars[lo..hi]` holds, if it holds one.
fn add_pair(map: &mut StringHashMap<String>, chars: &Vec<char>, lo: usize, hi: usize)
    requires
        lo <= hi <= chars@.len(),
    ensures
        final(map)@.map_values(|v: String| v@) == match pair_of(chars@.subrange(lo as int, hi as int)) {
            Some((k, v)) => old(map)@.map_values(|v: String| v@).insert(k, decode_bytes(encode_utf8(v))),
            None => old(map)@.map_values(|v: String| v@),
        },
{
    let ghost p = chars@.subrange(lo as int, hi as int);
    match find_equals(chars, lo, hi) {
        Some(j) => {
            let key = string_from(chars, lo, lo + j);
            let raw = string_from(chars, lo + j + 1, hi);
            let value = url_decode(raw.as_str());
            proof {
                assert(key@ =~= p.take(j as int));
                assert(raw@ =~= p.skip(j + 1));
            }
            let ghost before = map@;
            map.insert(key, value);
            assert(map@.map_values(|v: String| v@) =~= before.map_values(|v: String| v@).insert(
                p.take(j as int),
                decode_bytes(encode_utf8(p.skip(j + 1))),
            ));
        },
        None => {},
    }
}

/// The `key=value` parameters of a query string. Pieces are separated by
/// `&` and cut at their first `=`; a piece without `=` is skipped; keys are
/// kept as they are, values are percent-decoded; a later key wins.
pub fn url_params(query: &str) -> (params: StringHashMap<String>)
    ensures
        params@.map_values(|v: String| v@) == query_params(query@),
{
    let chars = chars_of(query);
    let ghost q = query@;
    let mut map: StringHashMap<String> = StringHashMap::new();
    let mut start: usize = 0;
    let mut i: usize = 0;
    proof {
        assert(q.take(0) =~= Seq::<char>::empty());
        assert(map@.map_values(|v: String| v@) =~= Map::<Seq<char>, Seq<char>>::empty());
    }
    while i < chars.len()
        invariant
            chars@ == q,
            start <= i <= q.len(),
            split_on(q.take(i as int), '&').len() >= 1,
            split_on(q.take(i as int), '&').last() == q.subrange(start as int, i as int),
            map@.map_values(|v: String| v@) == params_of(split_on(q.take(i as int), '&').drop_last()),
        decreases q.len() - i,
    {
        let ghost before = split_on(q.take(i as int), '&');
        assert(q.take(i + 1).drop_last() =~= q.take(i as int));
        if chars[i] == '&' {
            add_pair(&mut map, &chars, start, i);
            proof {
                let after = split_on(q.take(i + 1), '&');
                assert(after == before.push(Seq::<char>::empty()));
                assert(after.drop_last() =~= before);
                assert(before =~= before.drop_last().push(before.last()));
                assert(after.last() =~= q.subrange(i + 1, i + 1));
            }
            start = i + 1;
        } else {
            proof {
                let after = split_on(q.take(i + 1), '&');
                assert(after.drop_last() =~= before.drop_last());
                assert(after.last() =~= q.subrange(start as int, i + 1));
            }
        }
        i = i + 1;
    }
    add_pair(&mut map, &chars, start, i);
    proof {
        let all = split_on(q.take(i as int), '&');
        assert(q.take(i as int) =~= q);
        assert(all =~= all.drop_last().push(all.last()));
    }
    map
}

/// Splitting at a separator placed between two texts splits each text on
/// its own.
pub proof fn lemma_split_concat(a: Seq<char>, b: Seq<char>, sep: char)
    ensures
        split_on(a + seq![sep] + b, sep) == split_on(a, sep) + split_on(b, sep),
    decreases b.len(),
{
    let s = a + seq![sep] + b;
    if b.len() == 0 {
        assert(s.drop_last() =~= a);
        assert(split_on(a, sep) + split_on(b, sep) =~= split_on(a, sep).push(Seq::empty()));
    } else {
        let b1 = b.drop_last();
        lemma_split_concat(a, b1, sep);
        lemma_split_nonempty(b1, sep);
        lemma_split_nonempty(a, sep);
        assert(s.drop_last() =~= a + seq![sep] + b1);
        assert(s.last() == b.last());
        let pa = split_on(a, sep);
        let pb1 = split_on(b1, sep);
        if b.last() == sep {
            assert((pa + pb1).push(Seq::empty()) =~= pa + pb1.push(Seq::empty()));
        } else {
            let p = pa + pb1;
            assert(p.update(p.len() - 1, p.last().push(b.last())) =~= pa + pb1.update(
                pb1.len() - 1,
                pb1.last().push(b.last()),
            ));
        }
    }
}

/// Reading the pieces of two lists one after the other: the second list's
/// pairs override the first's.
pub proof fn lemma_params_concat(p: Seq<Seq<char>>, q: Seq<Seq<char>>)
    ensures
        params_of(p + q) == params_of(p).union_prefer_right(params_of(q)),
    decreases q.len(),
{
    if q.len() == 0 {
        assert(p + q =~= p);
        assert(params_of(p).union_prefer_right(params_of(q)) =~= params_of(p));
    } else {
        let q1 = q.drop_last();
        lemma_params_concat(p, q1);
        assert((p + q).drop_last() =~= p + q1);
        assert((p + q).last() == q.last());
        match pair_of(q.last()) {
            Some((k, v)) => {
                assert(params_of(p).union_prefer_right(params_of(q1)).insert(
                    k,
                    decode_bytes(encode_utf8(v)),
                ) =~= params_of(p).union_prefer_right(params_of(q)));
            },
            None => {},
        }
    }
}

/// Joining two query strings with `&` gives the parameters of both, those
/// of the second one winning where a key occurs in both.
pub proof fn law_params_concat(a: Seq<char>, b: Seq<char>)
    ensures
        query_params(a + seq!['&'] + b) == query_params(a).union_prefer_right(query_params(b)),
{
    lemma_split_concat(a, b, '&');
    lemma_params_concat(split_on(a, '&'), split_on(b, '&'));
}

/// A query string that is one pair `key=value`, where the key holds no `=`
/// and neither part holds `&`, sets exactly that key, to the decoded value.
pub proof fn law_single_pair(k: Seq<char>, v: Seq<char>)
    requires
        !k.contains('='),
        !k.contains('&'),
        !v.contains('&'),
    ensures
        query_params(k + seq!['='] + v) == Map::<Seq<char>, Seq<char>>::empty().insert(
            k,
            decode_bytes(encode_utf8(v)),
        ),
{
    let q = k + seq!['='] + v;
    assert(!q.contains('&')) by {
        if q.contains('&') {
            let i = choose|i: int| 0 <= i < q.len() && q[i] == '&';
            if i < k.len() {
                assert(k[i] == '&');
            } else if i > k.len() {
                assert(v[i - k.len() - 1] == '&');
            }
        }
    }
    lemma_split_single(q, '&');
    let j = k.len() as int;
    assert(q[j] == '=');
    assert forall|x: int| 0 <= x < j implies q[x] != '=' by {
        assert(q[x] == k[x]);
    }
    assert(is_first(q, '=', j));
    let c = choose|x: int| is_first(q, '=', x);
    assert(c == j);
    assert(q.take(j) =~= k);
    assert(q.skip(j + 1) =~= v);
    let pieces = split_on(q, '&');
    assert(pieces.drop_last() =~= Seq::<Seq<char>>::empty());
    assert(pieces.last() == q);
    assert(pair_of(q) == Some((k, v)));
    assert(params_of(pieces.drop_last()) =~= Map::<Seq<char>, Seq<char>>::empty());
    assert(query_params(q) =~= Map::<Seq<char>, Seq<char>>::empty().insert(
        k,
        decode_bytes(encode_utf8(v)),
    ));
}

/// A text without the separator is one piece.
pub proof fn lemma_split_single(s: Seq<char>, sep: char)
    requires
        !s.contains(sep),
    ensures
        split_on(s, sep) == seq![s],
    decreases s.len(),
{
    if s.len() > 0 {
        let s1 = s.drop_last();
        assert(!s1.contains(sep)) by {
            if s1.contains(sep) {
                let i = choose|i: int| 0 <= i < s1.len() && s1[i] == sep;
                assert(s[i] == sep);
            }
        }
        lemma_split_single(s1, sep);
        assert(s.last() != sep) by {
            if s.last() == sep {
                assert(s[s.len() - 1] == sep);
            }
        }
        assert(s1.push(s.last()) =~= s);
        assert(seq![s1].update(0, s1.push(s.last())) =~= seq![s]);
    } else {
        assert(s =~= Seq::<char>::empty());
    }
}

/// Bytes other than `%` and `+` decode to the character of the same value.
pub proof fn law_decode_plain(b: Seq<u8>)
    requires
        forall|i: int| 0 <= i < b.len() ==> b[i] != PERCENT && b[i] != PLUS,
    ensures
        decode_bytes(b) == b.map_values(|x: u8| x as char),
    decreases b.len(),
{
    if b.len() > 0 {
        let r = b.skip(1);
        assert forall|i: int| 0 <= i < r.len() implies r[i] != PERCENT && r[i] != PLUS by {
            assert(r[i] == b[i + 1]);
        }
        law_decode_plain(r);
        assert(decode_bytes(b) =~= b.map_values(|x: u8| x as char));
    }
}

/// Decoding never lengthens: one character per byte at most.
pub proof fn law_decode_shorter(b: Seq<u8>)
    ensures
        decode_bytes(b).len() <= b.len(),
    decreases b.len(),
{
    if b.len() > 0 {
        if b[0] == PERCENT {
            let n: int = if b.len() < 3 {
                b.len() as int
            } else {
                3
            };
            law_decode_shorter(b.skip(n));
        } else {
            law_decode_shorter(b.skip(1));
        }
    }
}

/// The hexadecimal digit for `d` (`0 <= d < 16`), in lower or upper case.
pub open spec fn hex_digit_byte(d: int, upper: bool) -> u8 {
    if d < 10 {
        (0x30 + d) as u8
    } else if upper {
        (0x41 + d - 10) as u8
    } else {
        (0x61 + d - 10) as u8
    }
}

/// Percent-encoding undone: `%` followed by the two hexadecimal digits of
/// any byte `x` (each digit in either case) decodes to the character with
/// value `x`, and what follows decodes on its own.
pub proof fn law_escape_decodes_to_byte(x: u8, hi_upper: bool, lo_upper: bool, rest: Seq<u8>)
    ensures
        decode_bytes(
            seq![PERCENT, hex_digit_byte(x as int / 16, hi_upper), hex_digit_byte(x as int % 16, lo_upper)]
                + rest,
        ) == seq![x as char] + decode_bytes(rest),
{
    let h = hex_digit_byte(x as int / 16, hi_upper);
    let l = hex_digit_byte(x as int % 16, lo_upper);
    let b = seq![PERCENT, h, l] + rest;
    assert(b[0] == PERCENT);
    assert(b[1] == h);
    assert(b[2] == l);
    assert(hex_value(h) == Some(x as int / 16));
    assert(hex_value(l) == Some(x as int % 16));
    assert(escape_digit(b, 1) * 16 + escape_digit(b, 2) == x);
    assert(b.skip(3) =~= rest);
}

/// A `+` decodes to a space, and what follows decodes on its own.
pub proof fn law_plus_is_space(rest: Seq<u8>)
    ensures
        decode_bytes(seq![PLUS] + rest) == seq![' '] + decode_bytes(rest),
{
    let b = seq![PLUS] + rest;
    assert(b[0] == PLUS);
    assert(b.skip(1) =~= rest);
}

} // verus!
