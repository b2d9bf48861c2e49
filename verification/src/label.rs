//! Label text decoding shared by every renderer: KaTeX `$$…$$` fences are
//! unwrapped to their (trimmed) inner expression, then `#`-prefixed entity
//! codes are resolved (`#quot;` → `"`, `#35;` → `#`, `#x2665;` → `♥`).

use vstd::prelude::*;
use crate::text::{
    chars_of, extend_chars, find, find_from, is_ascii_digit, lemma_find_bounds, slice_chars,
    eq_str, string_of, trim, trim_chars,
};

verus! {

pub open spec fn dollar_pair() -> Seq<char> {
    seq!['$', '$']
}

/// `s` with every matched `$$…$$` pair replaced by its trimmed inner text;
/// an unmatched trailing `$$` is kept as is.
pub open spec fn strip_math(s: Seq<char>) -> Seq<char>
    decreases s.len(),
{
    match find(s, dollar_pair()) {
        None => s,
        Some(st) => {
            if st < 0 || st + 2 > s.len() {
                s
            } else {
                match find(s.skip(st + 2), dollar_pair()) {
                    None => s,
                    Some(e) => {
                        if e < 0 || st + 2 + e + 2 > s.len() {
                            s
                        } else {
                            s.take(st) + trim(s.subrange(st + 2, st + 2 + e)) + strip_math(
                                s.skip(st + 2 + e + 2),
                            )
                        }
                    }
                }
            }
        }
    }
}

/// Value of an ASCII hex digit.
pub open spec fn hex_digit(c: char) -> int {
    if '0' <= c && c <= '9' {
        (c as int) - ('0' as int)
    } else if 'a' <= c && c <= 'f' {
        (c as int) - ('a' as int) + 10
    } else {
        (c as int) - ('A' as int) + 10
    }
}

pub open spec fn is_hex_digit(c: char) -> bool {
    is_ascii_digit(c) || ('a' <= c && c <= 'f') || ('A' <= c && c <= 'F')
}

/// Numeric value of a run of digits in base `radix` (10 or 16).
pub open spec fn digits_value(s: Seq<char>, radix: int) -> int
    decreases s.len(),
{
    if s.len() == 0 {
        0
    } else {
        digits_value(s.drop_last(), radix) * radix + hex_digit(s.last())
    }
}

pub open spec fn all_digits(s: Seq<char>, radix: int) -> bool {
    forall|i: int|
        0 <= i < s.len() ==> if radix == 16 {
            is_hex_digit(#[trigger] s[i])
        } else {
            is_ascii_digit(s[i])
        }
}

/// `u32::from_str_radix(s, radix)`: an optional leading `+`, then at least
/// one digit of the radix, with the value fitting in a `u32`.
pub open spec fn parse_u32(s: Seq<char>, radix: int) -> Option<u32> {
    let d = if s.len() > 0 && s[0] == '+' {
        s.drop_first()
    } else {
        s
    };
    if d.len() > 0 && all_digits(d, radix) && digits_value(d, radix) <= u32::MAX {
        Some(digits_value(d, radix) as u32)
    } else {
        None
    }
}

/// `char::from_u32`: the scalar values exclude the surrogate range.
pub open spec fn is_scalar(v: u32) -> bool {
    v <= 0xD7FF || (0xE000 <= v && v <= 0x10FFFF)
}

pub open spec fn named_entity(t: Seq<char>) -> Option<char> {
    if t == seq!['q', 'u', 'o', 't'] {
        Some('"')
    } else if t == seq!['a', 'm', 'p'] {
        Some('&')
    } else if t == seq!['l', 't'] {
        Some('<')
    } else if t == seq!['g', 't'] {
        Some('>')
    } else if t == seq!['a', 'p', 'o', 's'] {
        Some('\'')
    } else if t == seq!['n', 'b', 's', 'p'] {
        Some('\u{a0}')
    } else if t == seq!['h', 'e', 'a', 'r', 't', 's'] {
        Some('♥')
    } else if t == seq!['c', 'o', 'l', 'o', 'n'] {
        Some(':')
    } else if t == seq!['s', 'e', 'm', 'i'] {
        Some(';')
    } else {
        None
    }
}

/// The character an entity token (the text between `#` and `;`) stands for.
pub open spec fn entity_char(t: Seq<char>) -> Option<char> {
    if t.len() > 0 && (t[0] == 'x' || t[0] == 'X') {
        match parse_u32(t.drop_first(), 16) {
            Some(v) => if is_scalar(v) {
                Some(v as char)
            } else {
                None
            },
            None => None,
        }
    } else if all_digits(t, 10) {
        match parse_u32(t, 10) {
            Some(v) => if is_scalar(v) {
                Some(v as char)
            } else {
                None
            },
            None => None,
        }
    } else {
        named_entity(t)
    }
}

/// The entity at the start of `s` (which begins with `#`): the decoded
/// character and the length `#token;` it spans. The token must be 1 to 10
/// characters long.
pub open spec fn entity_at(s: Seq<char>) -> Option<(char, int)> {
    if s.len() == 0 || s[0] != '#' {
        None
    } else {
        match find(s.drop_first(), seq![';']) {
            None => None,
            Some(end) => {
                let token = s.drop_first().take(end);
                if token.len() == 0 || token.len() > 10 {
                    None
                } else {
                    match entity_char(token) {
                        Some(c) => Some((c, end + 2)),
                        None => None,
                    }
                }
            }
        }
    }
}

/// `s` with every decodable `#…;` entity replaced by its character.
pub open spec fn decode_entities(s: Seq<char>) -> Seq<char>
    decreases s.len(),
{
    if s.len() == 0 {
        s
    } else {
        match entity_at(s) {
            Some((c, len)) => if 0 < len <= s.len() {
                seq![c] + decode_entities(s.skip(len))
            } else {
                s
            },
            None => seq![s[0]] + decode_entities(s.drop_first()),
        }
    }
}

/// What a label displays: math fences unwrapped, then entities decoded.
pub open spec fn decoded_label(s: Seq<char>) -> Seq<char> {
    decode_entities(strip_math(s))
}

/// `char::from_u32`: `Some` exactly for Unicode scalar values.
#[verifier::external_body]
fn char_from_u32(v: u32) -> (r: Option<char>)
    ensures
        r is Some <==> is_scalar(v),
        r matches Some(c) ==> c == v as char,
{
    char::from_u32(v)
}

fn dollars() -> (r: Vec<char>)
    ensures
        r@ == dollar_pair(),
{
    let mut v: Vec<char> = Vec::new();
    v.push('$');
    v.push('$');
    assert(v@ =~= dollar_pair());
    v
}

/// Unwrap `$$…$$` math fences (see [`strip_math`]).
pub fn strip_math_chars(s: &[char]) -> (r: Vec<char>)
    ensures
        r@ == strip_math(s@),
{
    let dd = dollars();
    let mut out: Vec<char> = Vec::new();
    let mut rest: usize = 0;
    assert(s@.skip(0) =~= s@);
    assert(out@ + strip_math(s@) =~= strip_math(s@));
    loop
        invariant
            rest <= s.len(),
            dd@ == dollar_pair(),
            strip_math(s@) == out@ + strip_math(s@.skip(rest as int)),
        ensures
            rest <= s.len(),
            strip_math(s@) == out@ + s@.skip(rest as int),
        decreases s.len() - rest,
    {
        let ghost r = s@.skip(rest as int);
        proof {
            lemma_find_bounds(r, dollar_pair());
        }
        match find_from(s, rest, dd.as_slice()) {
            None => {
                break ;
            },
            Some(start) => {
                proof {
                    assert(s@.skip(start + 2) =~= r.skip(start - rest + 2));
                    lemma_find_bounds(r.skip(start - rest + 2), dollar_pair());
                }
                match find_from(s, start + 2, dd.as_slice()) {
                    None => {
                        break ;
                    },
                    Some(end) => {
                        let head = slice_chars(s, rest, start);
                        let inner = slice_chars(s, start + 2, end);
                        let t = trim_chars(inner.as_slice());
                        extend_chars(&mut out, head.as_slice());
                        extend_chars(&mut out, t.as_slice());
                        proof {
                            let st = start - rest;
                            let e = end - start - 2;
                            assert(r.take(st) =~= head@);
                            assert(r.subrange(st + 2, st + 2 + e) =~= inner@);
                            assert(r.skip(st + 2 + e + 2) =~= s@.skip(end + 2));
                        }
                        rest = end + 2;
                    },
                }
            },
        }
    }
    let tail = slice_chars(s, rest, s.len());
    proof {
        assert(tail@ =~= s@.skip(rest as int));
    }
    extend_chars(&mut out, tail.as_slice());
    out
}

/// Value of the digits `d` in `radix`, if all are digits and it fits a `u32`.
fn digits_u32(d: &[char], radix: u64) -> (r: Option<u32>)
    requires
        radix == 10 || radix == 16,
        d.len() <= 10,
    ensures
        r is Some <==> (d.len() > 0 && all_digits(d@, radix as int) && digits_value(
            d@,
            radix as int,
        ) <= u32::MAX),
        r matches Some(v) ==> v == digits_value(d@, radix as int),
{
    if d.len() == 0 {
        return None;
    }
    let mut acc: u64 = 0;
    let mut i: usize = 0;
    while i < d.len()
        invariant
            i <= d.len() <= 10,
            radix == 10 || radix == 16,
            all_digits(d@.take(i as int), radix as int),
            acc == digits_value(d@.take(i as int), radix as int),
            acc < pow_bound(i as nat, radix as nat),
        decreases d.len() - i,
    {
        let c = d[i];
        let ok = if radix == 16 {
            ('0' <= c && c <= '9') || ('a' <= c && c <= 'f') || ('A' <= c && c <= 'F')
        } else {
            '0' <= c && c <= '9'
        };
        if !ok {
            assert(!all_digits(d@, radix as int)) by {
                assert(d@[i as int] == c);
            }
            return None;
        }
        let dv: u64 = if '0' <= c && c <= '9' {
            (c as u64) - 48
        } else if 'a' <= c && c <= 'f' {
            (c as u64) - 87
        } else {
            (c as u64) - 55
        };
        proof {
            lemma_pow_bound_step(i as nat, radix as nat);
            assert(acc * radix + dv < pow_bound((i + 1) as nat, radix as nat)) by (nonlinear_arith)
                requires
                    acc < pow_bound(i as nat, radix as nat),
                    dv < radix,
                    pow_bound((i + 1) as nat, radix as nat) == pow_bound(i as nat, radix as nat)
                        * radix,
            ;
            lemma_pow_bound_max((i + 1) as nat, radix as nat);
        }
        acc = acc * radix + dv;
        proof {
            assert(d@.take(i + 1).drop_last() =~= d@.take(i as int));
            assert(d@.take(i + 1).last() == c);
        }
        i = i + 1;
    }
    assert(d@.take(d.len() as int) =~= d@);
    if acc <= 0xFFFF_FFFF {
        Some(acc as u32)
    } else {
        None
    }
}

pub open spec fn pow_bound(n: nat, radix: nat) -> nat
    decreases n,
{
    if n == 0 {
        1
    } else {
        pow_bound((n - 1) as nat, radix) * radix
    }
}

proof fn lemma_pow_bound_step(n: nat, radix: nat)
    ensures
        pow_bound(n + 1, radix) == pow_bound(n, radix) * radix,
{
}

proof fn lemma_pow_bound_max(n: nat, radix: nat)
    requires
        n <= 10,
        radix <= 16,
    ensures
        pow_bound(n, radix) <= 0x100_0000_0000,
    decreases n,
{
    if n > 0 {
        lemma_pow_bound_max((n - 1) as nat, radix);
        lemma_pow_bound_mono((n - 1) as nat, radix);
    }
}

proof fn lemma_pow_bound_mono(n: nat, radix: nat)
    requires
        n <= 9,
        radix <= 16,
    ensures
        pow_bound(n, radix) <= pow_bound(n, 16),
        pow_bound(n + 1, radix) <= pow_bound(n + 1, 16),
        pow_bound(n + 1, 16) <= 0x100_0000_0000,
    decreases n,
{
    reveal_with_fuel(pow_bound, 11);
    if n > 0 {
        lemma_pow_bound_mono((n - 1) as nat, radix);
    }
    assert(pow_bound(n + 1, radix) <= pow_bound(n + 1, 16)) by (nonlinear_arith)
        requires
            pow_bound(n, radix) <= pow_bound(n, 16),
            radix <= 16,
            pow_bound(n + 1, radix) == pow_bound(n, radix) * radix,
            pow_bound(n + 1, 16) == pow_bound(n, 16) * 16,
    ;
}

/// `u32::from_str_radix(s, radix)` on a token of at most ten characters.
fn parse_u32_chars(s: &[char], radix: u64) -> (r: Option<u32>)
    requires
        radix == 10 || radix == 16,
        s.len() <= 10,
    ensures
        r == parse_u32(s@, radix as int),
{
    if s.len() > 0 && s[0] == '+' {
        let d = slice_chars(s, 1, s.len());
        assert(d@ =~= s@.drop_first());
        digits_u32(d.as_slice(), radix)
    } else {
        digits_u32(s, radix)
    }
}

fn named_entity_exec(t: &[char]) -> (r: Option<char>)
    ensures
        r == named_entity(t@),
{
    proof {
        reveal_strlit("quot");
        reveal_strlit("amp");
        reveal_strlit("lt");
        reveal_strlit("gt");
        reveal_strlit("apos");
        reveal_strlit("nbsp");
        reveal_strlit("hearts");
        reveal_strlit("colon");
        reveal_strlit("semi");
        assert("quot"@ =~= seq!['q', 'u', 'o', 't']);
        assert("amp"@ =~= seq!['a', 'm', 'p']);
        assert("lt"@ =~= seq!['l', 't']);
        assert("gt"@ =~= seq!['g', 't']);
        assert("apos"@ =~= seq!['a', 'p', 'o', 's']);
        assert("nbsp"@ =~= seq!['n', 'b', 's', 'p']);
        assert("hearts"@ =~= seq!['h', 'e', 'a', 'r', 't', 's']);
        assert("colon"@ =~= seq!['c', 'o', 'l', 'o', 'n']);
        assert("semi"@ =~= seq!['s', 'e', 'm', 'i']);
    }
    if eq_str(t, "quot") {
        Some('"')
    } else if eq_str(t, "amp") {
        Some('&')
    } else if eq_str(t, "lt") {
        Some('<')
    } else if eq_str(t, "gt") {
        Some('>')
    } else if eq_str(t, "apos") {
        Some('\'')
    } else if eq_str(t, "nbsp") {
        Some('\u{a0}')
    } else if eq_str(t, "hearts") {
        Some('♥')
    } else if eq_str(t, "colon") {
        Some(':')
    } else if eq_str(t, "semi") {
        Some(';')
    } else {
        None
    }
}

fn entity_char_exec(t: &[char]) -> (r: Option<char>)
    requires
        t.len() <= 10,
    ensures
        r == entity_char(t@),
{
    if t.len() > 0 && (t[0] == 'x' || t[0] == 'X') {
        let h = slice_chars(t, 1, t.len());
        assert(h@ =~= t@.drop_first());
        match parse_u32_chars(h.as_slice(), 16) {
            Some(v) => char_from_u32(v),
            None => None,
        }
    } else {
        let mut all = true;
        let mut i: usize = 0;
        while i < t.len()
            invariant
                i <= t.len(),
                all == all_digits(t@.take(i as int), 10),
            decreases t.len() - i,
        {
            if !('0' <= t[i] && t[i] <= '9') {
                all = false;
            }
            assert(t@.take(i + 1)[i as int] == t@[i as int]);
            i = i + 1;
        }
        assert(t@.take(t.len() as int) =~= t@);
        if all {
            match parse_u32_chars(t, 10) {
                Some(v) => char_from_u32(v),
                None => None,
            }
        } else {
            named_entity_exec(t)
        }
    }
}

/// The entity starting at `s[i]` (see [`entity_at`]).
fn decode_entity(s: &[char], i: usize) -> (r: Option<(char, usize)>)
    requires
        i < s.len(),
    ensures
        match entity_at(s@.skip(i as int)) {
            Some((c, len)) => r == Some((c, len as usize)) && 0 < len <= s.len() - i,
            None => r is None,
        },
{
    let ghost r0 = s@.skip(i as int);
    if s[i] != '#' {
        return None;
    }
    let mut semi: Vec<char> = Vec::new();
    semi.push(';');
    assert(semi@ =~= seq![';']);
    assert(s@.skip(i + 1) =~= r0.drop_first());
    proof {
        lemma_find_bounds(r0.drop_first(), seq![';']);
    }
    match find_from(s, i + 1, semi.as_slice()) {
        None => None,
        Some(endp) => {
            let end = endp - (i + 1);
            if end == 0 || end > 10 {
                return None;
            }
            let token = slice_chars(s, i + 1, endp);
            assert(token@ =~= r0.drop_first().take(end as int));
            match entity_char_exec(token.as_slice()) {
                Some(c) => Some((c, end + 2)),
                None => None,
            }
        },
    }
}

/// Resolve `#…;` entity codes (see [`decode_entities`]).
pub fn decode_entities_chars(s: &[char]) -> (r: Vec<char>)
    ensures
        r@ == decode_entities(s@),
{
    let mut out: Vec<char> = Vec::new();
    let mut i: usize = 0;
    assert(s@.skip(0) =~= s@);
    assert(out@ + decode_entities(s@) =~= decode_entities(s@));
    while i < s.len()
        invariant
            i <= s.len(),
            decode_entities(s@) == out@ + decode_entities(s@.skip(i as int)),
        decreases s.len() - i,
    {
        let ghost r0 = s@.skip(i as int);
        match decode_entity(s, i) {
            Some((c, len)) => {
                out.push(c);
                assert(r0.skip(len as int) =~= s@.skip(i + len));
                i = i + len;
            },
            None => {
                out.push(s[i]);
                assert(r0.drop_first() =~= s@.skip(i + 1));
                i = i + 1;
            },
        }
    }
    assert(s@.skip(s.len() as int) =~= Seq::<char>::empty());
    assert(out@ + Seq::<char>::empty() =~= out@);
    out
}

/// Decode a label held as characters (see [`decoded_label`]).
pub fn decode_label_chars(s: &[char]) -> (r: Vec<char>)
    ensures
        r@ == decoded_label(s@),
{
    let m = strip_math_chars(s);
    decode_entities_chars(m.as_slice())
}

/// Decode a display label the way Mermaid does before rendering
/// text: strip KaTeX math fences, then resolve `#`-prefixed entity codes.
pub fn decode_label(s: &str) -> (r: String)
    ensures
        r@ == decoded_label(s@),
{
    let v = chars_of(s);
    let d = decode_label_chars(v.as_slice());
    string_of(d.as_slice())
}


proof fn lemma_no_dollar_pair(s: Seq<char>)
    requires
        !s.contains('$'),
    ensures
        find(s, dollar_pair()) is None,
{
    lemma_find_bounds(s, dollar_pair());
    if let Some(k) = find(s, dollar_pair()) {
        assert(s.skip(k).take(2)[0] == '$');
        assert(s[k] == '$');
    }
}

proof fn lemma_decode_no_hash(s: Seq<char>)
    requires
        !s.contains('#'),
    ensures
        decode_entities(s) == s,
    decreases s.len(),
{
    if s.len() > 0 {
        assert(s[0] != '#');
        assert(!s.drop_first().contains('#')) by {
            if s.drop_first().contains('#') {
                let j = choose|j: int| 0 <= j < s.drop_first().len() && s.drop_first()[j] == '#';
                assert(s[j + 1] == '#');
            }
        }
        lemma_decode_no_hash(s.drop_first());
        assert(seq![s[0]] + s.drop_first() =~= s);
    }
}

/// A label with no `#` and no `$` is displayed exactly as written.
pub proof fn law_plain_label_unchanged(s: Seq<char>)
    requires
        !s.contains('#'),
        !s.contains('$'),
    ensures
        decoded_label(s) == s,
{
    lemma_no_dollar_pair(s);
    lemma_decode_no_hash(s);
}

/// Text without a `$$` pair has no math fences to strip.
pub proof fn law_no_fence_no_change(s: Seq<char>)
    requires
        find(s, dollar_pair()) is None,
    ensures
        strip_math(s) == s,
{
}

} // verus!
