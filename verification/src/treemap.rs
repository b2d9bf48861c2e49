//! Treemap helpers: sibling ordering, thousands grouping of formatted values
//! and `#rgb`/`#rrggbb` parsing of fills.

use vstd::prelude::*;
use vstd::string::StringSliceAdditionalSpecFns;
use crate::color::{hex_u8_at, hex_u8_doubled, is_continuation, parse_hex_u8};
use crate::text::{
    chars_of, extend_chars, find, find_from, is_ascii_digit, lemma_find_bounds, slice_chars, string_of,
};

verus! {

/// `#rrggbb`, or `#rgb` read as `#rrggbb` with every digit doubled.
pub open spec fn treemap_hex_spec(b: Seq<u8>) -> Option<(u8, u8, u8)> {
    if b.len() == 7 && b[0] == 0x23 {
        match (
            parse_hex_u8(b.subrange(1, 3)),
            parse_hex_u8(b.subrange(3, 5)),
            parse_hex_u8(b.subrange(5, 7)),
        ) {
            (Some(r), Some(g), Some(bl)) => Some((r, g, bl)),
            _ => None,
        }
    } else if b.len() == 4 && b[0] == 0x23 {
        match (
            parse_hex_u8(seq![b[1], b[1]]),
            parse_hex_u8(seq![b[2], b[2]]),
            parse_hex_u8(seq![b[3], b[3]]),
        ) {
            (Some(r), Some(g), Some(bl)) => Some((r, g, bl)),
            _ => None,
        }
    } else {
        None
    }
}

/// The digit slices of a `#…` fill of three or six bytes do not cut a
/// character: such a fill is not accepted, as slicing the `str` there panics.
pub open spec fn hex_slices_ok(b: Seq<u8>) -> bool {
    &&& (b.len() == 7 && b[0] == 0x23 ==> !is_continuation(b[3]) && !is_continuation(b[5]))
    &&& (b.len() == 4 && b[0] == 0x23 ==> !is_continuation(b[2]) && !is_continuation(b[3]))
}

/// Parse `#rgb`/`#rrggbb` into RGB bytes; `None` for any other syntax.
pub fn parse_hex(c: &str) -> (r: Option<(u8, u8, u8)>)
    requires
        hex_slices_ok(c.spec_bytes()),
    ensures
        r == treemap_hex_spec(c.spec_bytes()),
{
    let b = c.as_bytes();
    if b.len() == 7 && b[0] == 0x23 {
        match (hex_u8_at(b, 1, 3), hex_u8_at(b, 3, 5), hex_u8_at(b, 5, 7)) {
            (Some(r), Some(g), Some(bl)) => Some((r, g, bl)),
            _ => None,
        }
    } else if b.len() == 4 && b[0] == 0x23 {
        match (hex_u8_doubled(b, 1), hex_u8_doubled(b, 2), hex_u8_doubled(b, 3)) {
            (Some(r), Some(g), Some(bl)) => Some((r, g, bl)),
            _ => None,
        }
    } else {
        None
    }
}

/// The first `n` characters of the integer digits `s`, with `,` inserted
/// before every character that is followed by a multiple of three characters
/// (except the first).
pub open spec fn group_digits(s: Seq<char>, n: int) -> Seq<char>
    decreases n,
{
    if n <= 0 {
        seq![]
    } else {
        group_digits(s, n - 1) + if n - 1 > 0 && (s.len() - (n - 1)) % 3 == 0 {
            seq![',', s[n - 1]]
        } else {
            seq![s[n - 1]]
        }
    }
}

/// Thousands separators in the integer part of a numeric string, keeping any
/// leading `-` and any fractional part.
pub open spec fn group_thousands_spec(s: Seq<char>) -> Seq<char> {
    let neg = s.len() > 0 && s[0] == '-';
    let sign: Seq<char> = if neg {
        seq!['-']
    } else {
        seq![]
    };
    let rest = if neg {
        s.drop_first()
    } else {
        s
    };
    match find(rest, seq!['.']) {
        Some(k) => sign + group_digits(rest.take(k), k) + seq!['.'] + rest.skip(k + 1),
        None => sign + group_digits(rest, rest.len() as int),
    }
}

fn group_chars(int_part: &[char], out: &mut Vec<char>)
    ensures
        final(out)@ == old(out)@ + group_digits(int_part@, int_part.len() as int),
{
    let len = int_part.len();
    let mut idx: usize = 0;
    while idx < len
        invariant
            idx <= len == int_part.len(),
            out@ == old(out)@ + group_digits(int_part@, idx as int),
        decreases len - idx,
    {
        if idx > 0 && (len - idx) % 3 == 0 {
            out.push(',');
        }
        out.push(int_part[idx]);
        idx = idx + 1;
        assert(out@ =~= old(out)@ + group_digits(int_part@, idx as int));
    }
}

/// Insert `,` thousands separators into the integer part of a numeric
/// string, preserving any sign and fractional part.
pub fn group_thousands(s: &str) -> (r: String)
    ensures
        r@ == group_thousands_spec(s@),
{
    let v = chars_of(s);
    let neg = v.len() > 0 && v[0] == '-';
    let rest = if neg {
        slice_chars(v.as_slice(), 1, v.len())
    } else {
        slice_chars(v.as_slice(), 0, v.len())
    };
    assert(neg ==> rest@ =~= s@.drop_first());
    assert(!neg ==> rest@ =~= s@);
    let mut out: Vec<char> = Vec::new();
    if neg {
        out.push('-');
    }
    let mut dot: Vec<char> = Vec::new();
    dot.push('.');
    assert(dot@ =~= seq!['.']);
    assert(rest@.skip(0) =~= rest@);
    proof {
        lemma_find_bounds(rest@, seq!['.']);
    }
    match find_from(rest.as_slice(), 0, dot.as_slice()) {
        Some(k) => {
            let int_part = slice_chars(rest.as_slice(), 0, k);
            assert(int_part@ =~= rest@.take(k as int));
            group_chars(int_part.as_slice(), &mut out);
            out.push('.');
            let frac = slice_chars(rest.as_slice(), k + 1, rest.len());
            assert(frac@ =~= rest@.skip(k + 1));
            extend_chars(&mut out, frac.as_slice());
        },
        None => {
            group_chars(rest.as_slice(), &mut out);
        },
    }
    assert(out@ =~= group_thousands_spec(s@));
    string_of(out.as_slice())
}

/// Sibling `a` comes before sibling `b`: a larger value first, ties in
/// source order.
pub open spec fn ranks_before(keys: Seq<u64>, a: int, b: int) -> bool {
    keys[a] > keys[b] || (keys[a] == keys[b] && a < b)
}

/// `order` lists every index of `keys` exactly once, by value descending,
/// ties keeping source order.
pub open spec fn is_value_order(keys: Seq<u64>, order: Seq<usize>) -> bool {
    &&& order.len() == keys.len()
    &&& forall|i: int| 0 <= i < order.len() ==> #[trigger] order[i] < keys.len()
    &&& forall|k: usize| k < keys.len() ==> #[trigger] order.contains(k)
    &&& forall|i: int, j: int|
        0 <= i < j < order.len() ==> ranks_before(keys, #[trigger] order[i] as int, #[trigger] order[j] as int)
}

/// Order sibling indices by value descending, ties keeping source order.
/// `keys[i]` orders like sibling `i`'s value (see [`total_order_key`]).
pub fn order_by_value(keys: &[u64]) -> (r: Vec<usize>)
    ensures
        is_value_order(keys@, r@),
{
    let mut res: Vec<usize> = Vec::new();
    let mut i: usize = 0;
    while i < keys.len()
        invariant
            i <= keys.len(),
            res.len() == i,
            forall|m: int| 0 <= m < res.len() ==> #[trigger] res@[m] < i,
            forall|k: usize| k < i ==> #[trigger] res@.contains(k),
            forall|a: int, b: int|
                0 <= a < b < res.len() ==> ranks_before(keys@, #[trigger] res@[a] as int, #[trigger] res@[b] as int),
        decreases keys.len() - i,
    {
        let ki = keys[i];
        let mut p = res.len();
        while p > 0 && keys[res[p - 1]] < ki
            invariant
                p <= res.len(),
                res.len() == i,
                i < keys.len(),
                ki == keys@[i as int],
                forall|m: int| 0 <= m < res.len() ==> #[trigger] res@[m] < i,
                forall|m: int| p <= m < res.len() ==> keys@[#[trigger] res@[m] as int] < ki,
            decreases p,
        {
            p = p - 1;
        }
        let ghost old_res = res@;
        res.insert(p, i);
        proof {
            assert forall|m: int| 0 <= m < res.len() implies #[trigger] res@[m] < i + 1 by {
                if m < p {
                    assert(res@[m] == old_res[m]);
                } else if m > p {
                    assert(res@[m] == old_res[m - 1]);
                }
            }
            assert forall|k: usize| k < i + 1 implies #[trigger] res@.contains(k) by {
                if k == i {
                    assert(res@[p as int] == i);
                } else {
                    assert(old_res.contains(k));
                    let w = choose|w: int| 0 <= w < old_res.len() && old_res[w] == k;
                    if w < p {
                        assert(res@[w] == old_res[w]);
                    } else {
                        assert(res@[w + 1] == old_res[w]);
                    }
                }
            }
            assert forall|a: int, b: int| 0 <= a < b < res.len() implies ranks_before(
                keys@,
                #[trigger] res@[a] as int,
                #[trigger] res@[b] as int,
            ) by {
                if a < p && b < p {
                    assert(res@[a] == old_res[a] && res@[b] == old_res[b]);
                } else if a < p && b == p {
                    assert(res@[a] == old_res[a]);
                    assert(keys@[old_res[a] as int] >= ki) by {
                        if a == p - 1 {
                        } else {
                            assert(ranks_before(keys@, old_res[a] as int, old_res[p - 1] as int));
                        }
                    }
                    assert(old_res[a] < i);
                } else if a < p && b > p {
                    assert(res@[a] == old_res[a] && res@[b] == old_res[b - 1]);
                } else if a == p {
                    assert(res@[b] == old_res[b - 1]);
                    assert(keys@[old_res[b - 1] as int] < ki);
                } else {
                    assert(res@[a] == old_res[a - 1] && res@[b] == old_res[b - 1]);
                }
            }
        }
        i = i + 1;
    }
    res
}

/// Map an `f64` bit pattern to a `u64` that orders like the IEEE total order of `f64`:
/// negative values (sign bit set) have all bits flipped, the others get the
/// sign bit set.
pub open spec fn total_key_spec(bits: u64) -> u64 {
    if bits >= 0x8000_0000_0000_0000 {
        !bits
    } else {
        bits | 0x8000_0000_0000_0000
    }
}

/// The ordering key of an `f64` given by its bits (see [`total_key_spec`]).
pub fn total_order_key(bits: u64) -> (r: u64)
    ensures
        r == total_key_spec(bits),
{
    if bits >= 0x8000_0000_0000_0000 {
        !bits
    } else {
        bits | 0x8000_0000_0000_0000
    }
}


/// `s` with every `,` removed.
pub open spec fn without_commas(s: Seq<char>) -> Seq<char>
    decreases s.len(),
{
    if s.len() == 0 {
        s
    } else if s[0] == ',' {
        without_commas(s.drop_first())
    } else {
        seq![s[0]] + without_commas(s.drop_first())
    }
}

proof fn lemma_without_commas_add(a: Seq<char>, b: Seq<char>)
    ensures
        without_commas(a + b) == without_commas(a) + without_commas(b),
    decreases a.len(),
{
    if a.len() == 0 {
        assert(a + b =~= b);
    } else {
        lemma_without_commas_add(a.drop_first(), b);
        assert((a + b).drop_first() =~= a.drop_first() + b);
        assert((a + b)[0] == a[0]);
        if a[0] != ',' {
            assert(seq![a[0]] + (without_commas(a.drop_first()) + without_commas(b)) =~= (seq![a[0]]
                + without_commas(a.drop_first())) + without_commas(b));
        }
    }
}

proof fn lemma_without_commas_none(s: Seq<char>)
    requires
        !s.contains(','),
    ensures
        without_commas(s) == s,
    decreases s.len(),
{
    if s.len() > 0 {
        assert(s[0] != ',');
        assert(!s.drop_first().contains(',')) by {
            if s.drop_first().contains(',') {
                let j = choose|j: int| 0 <= j < s.drop_first().len() && s.drop_first()[j] == ',';
                assert(s[j + 1] == ',');
            }
        }
        lemma_without_commas_none(s.drop_first());
        assert(seq![s[0]] + s.drop_first() =~= s);
    }
}

proof fn lemma_group_digits(t: Seq<char>, n: int)
    requires
        0 <= n <= t.len(),
        !t.contains(','),
    ensures
        without_commas(group_digits(t, n)) == t.take(n),
    decreases n,
{
    if n > 0 {
        lemma_group_digits(t, n - 1);
        let piece = if n - 1 > 0 && (t.len() - (n - 1)) % 3 == 0 {
            seq![',', t[n - 1]]
        } else {
            seq![t[n - 1]]
        };
        lemma_without_commas_add(group_digits(t, n - 1), piece);
        assert(t[n - 1] != ',');
        assert(without_commas(seq![t[n - 1]]) =~= seq![t[n - 1]]) by {
            assert(seq![t[n - 1]].drop_first() =~= Seq::<char>::empty());
            assert(without_commas(Seq::<char>::empty()) =~= Seq::<char>::empty());
            assert(seq![t[n - 1]] + Seq::<char>::empty() =~= seq![t[n - 1]]);
        }
        if n - 1 > 0 && (t.len() - (n - 1)) % 3 == 0 {
            assert(seq![',', t[n - 1]].drop_first() =~= seq![t[n - 1]]);
        }
        assert(t.take(n - 1) + seq![t[n - 1]] =~= t.take(n));
    } else {
        assert(t.take(0) =~= Seq::<char>::empty());
    }
}

proof fn lemma_group_digits_congruent(t: Seq<char>, u: Seq<char>, m: int)
    requires
        0 <= m <= t.len(),
        m <= u.len(),
        (t.len() - u.len()) % 3 == 0,
        forall|i: int| 0 <= i < m ==> t[i] == u[i],
    ensures
        group_digits(t, m) == group_digits(u, m),
    decreases m,
{
    if m > 0 {
        lemma_group_digits_congruent(t, u, m - 1);
        assert((t.len() - (m - 1)) % 3 == 0 <==> (u.len() - (m - 1)) % 3 == 0) by {
            assert(t.len() - (m - 1) == (u.len() - (m - 1)) + (t.len() - u.len()));
        }
    }
}

proof fn lemma_group_digits_last_three(t: Seq<char>)
    requires
        t.len() > 3,
    ensures
        group_digits(t, t.len() as int) == group_digits(t.take(t.len() - 3), t.len() - 3) + seq![
            ',',
            t[t.len() - 3],
            t[t.len() - 2],
            t[t.len() - 1],
        ],
{
    let n = t.len() as int;
    let u = t.take(n - 3);
    lemma_group_digits_congruent(t, u, n - 3);
    assert(group_digits(t, n - 2) == group_digits(t, n - 3) + seq![',', t[n - 3]]);
    assert(group_digits(t, n - 1) == group_digits(t, n - 2) + seq![t[n - 2]]);
    assert(group_digits(t, n) == group_digits(t, n - 1) + seq![t[n - 1]]);
    assert(group_digits(t, n) =~= group_digits(t, n - 3) + seq![',', t[n - 3], t[n - 2], t[n - 1]]);
}

/// Where the grouping puts its commas: counted from the right end of the
/// grouped digits, every fourth character is a comma and no other is, so
/// there is one before each group of three digits and never one first.
pub proof fn law_commas_every_three_digits(t: Seq<char>)
    requires
        !t.contains(','),
    ensures
        group_digits(t, t.len() as int).len() == t.len() + if t.len() > 0 {
            (t.len() - 1) / 3
        } else {
            0
        },
        forall|j: int|
            0 <= j < group_digits(t, t.len() as int).len() ==> (#[trigger] group_digits(
                t,
                t.len() as int,
            )[group_digits(t, t.len() as int).len() - 1 - j] == ',' <==> j % 4 == 3),
    decreases t.len(),
{
    let n = t.len() as int;
    let g = group_digits(t, n);
    if n <= 3 {
        assert(g =~= t) by {
            lemma_group_digits_short(t, n);
        }
        assert forall|j: int| 0 <= j < g.len() implies (#[trigger] g[g.len() - 1 - j] == ',' <==> j
            % 4 == 3) by {
            assert(t[n - 1 - j] != ',') by {
                if t[n - 1 - j] == ',' {
                    assert(t.contains(','));
                }
            }
        }
    } else {
        let u = t.take(n - 3);
        assert(!u.contains(',')) by {
            if u.contains(',') {
                let k = choose|k: int| 0 <= k < u.len() && u[k] == ',';
                assert(t[k] == ',');
            }
        }
        law_commas_every_three_digits(u);
        lemma_group_digits_last_three(t);
        let h = group_digits(u, n - 3);
        assert(g == h + seq![',', t[n - 3], t[n - 2], t[n - 1]]);
        assert forall|j: int| 0 <= j < g.len() implies (#[trigger] g[g.len() - 1 - j] == ',' <==> j
            % 4 == 3) by {
            if j < 3 {
                assert(g[g.len() - 1 - j] == t[n - 1 - j]);
                assert(t[n - 1 - j] != ',') by {
                    if t[n - 1 - j] == ',' {
                        assert(t.contains(','));
                    }
                }
            } else if j == 3 {
            } else {
                assert(g[g.len() - 1 - j] == h[h.len() - 1 - (j - 4)]);
                assert(h[h.len() - 1 - (j - 4)] == ',' <==> (j - 4) % 4 == 3);
            }
        }
    }
}

proof fn lemma_group_digits_short(t: Seq<char>, m: int)
    requires
        0 <= m <= t.len(),
        t.len() <= 3,
    ensures
        group_digits(t, m) == t.take(m),
    decreases m,
{
    if m > 0 {
        lemma_group_digits_short(t, m - 1);
        assert(t.take(m - 1) + seq![t[m - 1]] =~= t.take(m));
    } else {
        assert(t.take(0) =~= Seq::<char>::empty());
    }
}

/// Grouping only inserts separators: removing every `,` from the grouped
/// text gives back the input (for input without commas).
pub proof fn law_grouping_only_adds_commas(s: Seq<char>)
    requires
        !s.contains(','),
    ensures
        without_commas(group_thousands_spec(s)) == s,
{
    let neg = s.len() > 0 && s[0] == '-';
    let sign: Seq<char> = if neg {
        seq!['-']
    } else {
        seq![]
    };
    let rest = if neg {
        s.drop_first()
    } else {
        s
    };
    assert(sign + rest =~= s);
    assert(!rest.contains(',')) by {
        if rest.contains(',') {
            let j = choose|j: int| 0 <= j < rest.len() && rest[j] == ',';
            if neg {
                assert(s[j + 1] == ',');
            } else {
                assert(s[j] == ',');
            }
        }
    }
    lemma_without_commas_none(sign);
    lemma_find_bounds(rest, seq!['.']);
    match find(rest, seq!['.']) {
        Some(k) => {
            let ip = rest.take(k);
            let fr = rest.skip(k + 1);
            assert(!ip.contains(',')) by {
                if ip.contains(',') {
                    let j = choose|j: int| 0 <= j < ip.len() && ip[j] == ',';
                    assert(rest[j] == ',');
                }
            }
            assert(!fr.contains(',')) by {
                if fr.contains(',') {
                    let j = choose|j: int| 0 <= j < fr.len() && fr[j] == ',';
                    assert(rest[k + 1 + j] == ',');
                }
            }
            lemma_group_digits(ip, k);
            lemma_without_commas_none(fr);
            assert(ip.take(k) =~= ip);
            lemma_without_commas_add(sign, group_digits(ip, k));
            lemma_without_commas_add(sign + group_digits(ip, k), seq!['.']);
            lemma_without_commas_add(sign + group_digits(ip, k) + seq!['.'], fr);
            assert(without_commas(seq!['.']) =~= seq!['.']) by {
                assert(seq!['.'].drop_first() =~= Seq::<char>::empty());
                assert(without_commas(Seq::<char>::empty()) =~= Seq::<char>::empty());
                assert(seq!['.'] + Seq::<char>::empty() =~= seq!['.']);
            }
            assert(rest.skip(k).take(1)[0] == '.');
            assert(rest[k] == '.');
            assert(ip + seq!['.'] + fr =~= rest);
            assert(sign + ip + seq!['.'] + fr =~= s);
        },
        None => {
            lemma_group_digits(rest, rest.len() as int);
            assert(rest.take(rest.len() as int) =~= rest);
            lemma_without_commas_add(sign, group_digits(rest, rest.len() as int));
        },
    }
}

/// The sortable key of the IEEE total order of `f64`: the bits as an `i64`, with the
/// magnitude bits flipped for negative values.
pub open spec fn ieee_total_key(bits: u64) -> i64 {
    let x = bits as i64;
    x ^ ((((x >> 63) as u64) >> 1) as i64)
}

/// [`total_key_spec`] orders bit patterns exactly as the IEEE total order of `f64` does.
pub proof fn law_total_key_matches_ieee_order(a: u64, b: u64)
    ensures
        (total_key_spec(a) < total_key_spec(b)) == (ieee_total_key(a) < ieee_total_key(b)),
        (total_key_spec(a) == total_key_spec(b)) == (a == b),
{
    assert((total_key_spec(a) < total_key_spec(b)) == (ieee_total_key(a) < ieee_total_key(b)))
        by (bit_vector);
    assert((total_key_spec(a) == total_key_spec(b)) == (a == b)) by (bit_vector);
}

/// The supported `valueFormat` subset: `$` prefix, `,` thousands grouping,
/// `.N` decimal places and `%` percentage.
#[derive(Clone, Copy, PartialEq, Eq, Debug, Structural)]
pub struct ValueFormat {
    pub currency: bool,
    pub percent: bool,
    pub thousands: bool,
    /// Decimal places after `.`; `None` when the format has no `.`.
    pub decimals: Option<usize>,
}

/// Numeric value of a run of ASCII digits.
pub open spec fn digits_value(d: Seq<char>) -> nat
    decreases d.len(),
{
    if d.len() == 0 {
        0
    } else {
        digits_value(d.drop_last()) * 10 + ((d.last() as u32 - '0' as u32) as nat)
    }
}

/// Length of the run of ASCII digits that `s` starts with.
pub open spec fn digit_run(s: Seq<char>, i: int) -> int
    decreases s.len() - i,
{
    if 0 <= i < s.len() && is_ascii_digit(s[i]) {
        digit_run(s, i + 1)
    } else {
        i
    }
}

/// Decimal places: the digits right after the first `.`, read as a
/// `usize` (0 when there are none or they overflow).
pub open spec fn decimals_spec(fmt: Seq<char>) -> Option<usize> {
    match find(fmt, seq!['.']) {
        Some(p) => {
            let rest = fmt.skip(p + 1);
            let d = rest.take(digit_run(rest, 0));
            if d.len() > 0 && digits_value(d) <= usize::MAX {
                Some(digits_value(d) as usize)
            } else {
                Some(0)
            }
        },
        None => None,
    }
}

/// The format read from `valueFormat`, `,` when unset.
pub open spec fn value_format_spec(fmt: Option<Seq<char>>) -> ValueFormat {
    let f = match fmt {
        Some(v) => v,
        None => seq![','],
    };
    ValueFormat {
        currency: f.contains('$'),
        percent: f.contains('%'),
        thousands: f.contains(','),
        decimals: decimals_spec(f),
    }
}

/// A formatted number body with grouping, `$` and `%` applied.
pub open spec fn decorate_spec(body: Seq<char>, f: ValueFormat) -> Seq<char> {
    let b = if f.thousands {
        group_thousands_spec(body)
    } else {
        body
    };
    (if f.currency {
        seq!['$']
    } else {
        seq![]
    }) + b + (if f.percent {
        seq!['%']
    } else {
        seq![]
    })
}

fn contains_char(v: &[char], c: char) -> (r: bool)
    ensures
        r == v@.contains(c),
{
    let mut i: usize = 0;
    while i < v.len()
        invariant
            i <= v.len(),
            forall|k: int| 0 <= k < i ==> v@[k] != c,
        decreases v.len() - i,
    {
        if v[i] == c {
            assert(v@[i as int] == c);
            return true;
        }
        i = i + 1;
    }
    false
}

proof fn lemma_digit_run(s: Seq<char>, i: int)
    requires
        0 <= i <= s.len(),
    ensures
        i <= digit_run(s, i) <= s.len(),
        forall|k: int| i <= k < digit_run(s, i) ==> is_ascii_digit(#[trigger] s[k]),
        digit_run(s, i) < s.len() ==> !is_ascii_digit(s[digit_run(s, i)]),
    decreases s.len() - i,
{
    if i < s.len() && is_ascii_digit(s[i]) {
        lemma_digit_run(s, i + 1);
    }
}

/// Read the decimal places after the first `.` of `v`.
fn decimals_of(v: &[char]) -> (r: Option<usize>)
    ensures
        r == decimals_spec(v@),
{
    proof {
        reveal_strlit(".");
    }
    let dot: Vec<char> = chars_of(".");
    assert(dot@ =~= seq!['.']);
    assert(v@.skip(0) =~= v@);
    match find_from(v, 0, dot.as_slice()) {
        None => None,
        Some(p) => {
            let ghost rest = v@.skip(p + 1);
            proof {
                lemma_find_bounds(v@, seq!['.']);
                lemma_digit_run(rest, 0);
            }
            let mut j: usize = p + 1;
            let mut val: Option<usize> = Some(0);
            while j < v.len() && '0' <= v[j] && v[j] <= '9'
                invariant
                    p + 1 <= j <= v.len(),
                    rest == v@.skip(p + 1),
                    j - (p + 1) <= digit_run(rest, 0),
                    forall|k: int| 0 <= k < digit_run(rest, 0) ==> is_ascii_digit(#[trigger] rest[k]),
                    digit_run(rest, 0) <= rest.len(),
                    digit_run(rest, 0) < rest.len() ==> !is_ascii_digit(rest[digit_run(rest, 0)]),
                    val == (if digits_value(rest.take(j - (p + 1))) <= usize::MAX {
                        Some(digits_value(rest.take(j - (p + 1))) as usize)
                    } else {
                        None::<usize>
                    }),
                decreases v.len() - j,
            {
                let ghost before = rest.take(j - (p + 1));
                let d = (v[j] as u32 - '0' as u32) as usize;
                assert(rest[j - (p + 1)] == v@[j as int]);
                val = match val {
                    Some(x) => match x.checked_mul(10) {
                        Some(y) => y.checked_add(d),
                        None => None,
                    },
                    None => None,
                };
                j = j + 1;
                assert(rest.take(j - (p + 1)).drop_last() =~= before);
            }
            assert(j - (p + 1) == digit_run(rest, 0)) by {
                if j < v.len() {
                    assert(rest[j - (p + 1)] == v@[j as int]);
                }
            }
            match val {
                Some(x) => if j > p + 1 {
                    Some(x)
                } else {
                    Some(0)
                },
                None => Some(0),
            }
        },
    }
}

impl ValueFormat {
    /// Read `valueFormat` (`,` when unset): which of `$`, `%` and `,` it
    /// holds, and the digits after its first `.`.
    pub fn parse(fmt: Option<&str>) -> (r: ValueFormat)
        ensures
            r == value_format_spec(
                match fmt {
                    Some(v) => Some(v@),
                    None => None,
                },
            ),
    {
        let v = match fmt {
            Some(f) => chars_of(f),
            None => {
                let mut d: Vec<char> = Vec::new();
                d.push(',');
                assert(d@ =~= seq![',']);
                d
            },
        };
        ValueFormat {
            currency: contains_char(v.as_slice(), '$'),
            percent: contains_char(v.as_slice(), '%'),
            thousands: contains_char(v.as_slice(), ','),
            decimals: decimals_of(v.as_slice()),
        }
    }

    /// Apply grouping, the `$` prefix and the `%` suffix to a formatted
    /// number `body`.
    pub fn decorate(&self, body: &str) -> (r: String)
        ensures
            r@ == decorate_spec(body@, *self),
    {
        let b = if self.thousands {
            chars_of(group_thousands(body).as_str())
        } else {
            chars_of(body)
        };
        let mut out: Vec<char> = Vec::new();
        if self.currency {
            out.push('$');
        }
        extend_chars(&mut out, b.as_slice());
        if self.percent {
            out.push('%');
        }
        assert(out@ =~= decorate_spec(body@, *self));
        string_of(out.as_slice())
    }
}

} // verus!
