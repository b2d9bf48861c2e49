//! Mindmap helpers: leaf counting (the angular share of a subtree), Font
//! Awesome icon names and hex color parsing.

use vstd::prelude::*;
use vstd::string::StringSliceAdditionalSpecFns;
use crate::color::{hex_u8_at, is_continuation, parse_hex_u8};
use crate::text::{
    chars_of, is_ws_exec, lemma_skip_ws, lemma_word_end, skip_ws, slice_chars, starts_with,
    string_of, trim, trim_chars, word_end,
};

verus! {

/// A mindmap node: its label, optional icon class string and children.
pub struct MindmapNode {
    pub text: String,
    pub icon: Option<String>,
    pub children: Vec<MindmapNode>,
}

/// Leaves below (and including) a node: a childless node counts one.
pub open spec fn leaf_count(n: MindmapNode) -> nat
    decreases n,
{
    if n.children.len() == 0 {
        1
    } else {
        leaf_sum(n.children@, n.children@.len() as int)
    }
}

/// Leaves below the first `k` nodes of `s`.
pub open spec fn leaf_sum(s: Seq<MindmapNode>, k: int) -> nat
    decreases s, k,
{
    if k <= 0 || k > s.len() {
        0
    } else {
        leaf_sum(s, k - 1) + leaf_count(s[k - 1])
    }
}

proof fn lemma_leaf_sum_mono(s: Seq<MindmapNode>, a: int, b: int)
    requires
        0 <= a <= b <= s.len(),
    ensures
        leaf_sum(s, a) <= leaf_sum(s, b),
    decreases b - a,
{
    if a < b {
        lemma_leaf_sum_mono(s, a, b - 1);
    }
}

/// Number of leaves of the subtree at `n`.
pub fn leaves(n: &MindmapNode) -> (r: usize)
    requires
        leaf_count(*n) <= usize::MAX,
    ensures
        r == leaf_count(*n),
    decreases *n,
{
    if n.children.len() == 0 {
        return 1;
    }
    let ghost s = n.children@;
    let mut total: usize = 0;
    let mut i: usize = 0;
    while i < n.children.len()
        invariant
            i <= n.children.len(),
            s == n.children@,
            n.children.len() > 0,
            leaf_count(*n) == leaf_sum(s, s.len() as int),
            leaf_count(*n) <= usize::MAX,
            total == leaf_sum(s, i as int),
        decreases n.children.len() - i,
    {
        proof {
            lemma_leaf_sum_mono(s, i + 1, s.len() as int);
            assert(leaf_sum(s, i + 1) == leaf_sum(s, i as int) + leaf_count(s[i as int]));
        }
        let c = leaves(&n.children[i]);
        total = total + c;
        i = i + 1;
    }
    total
}

/// The icon name shown for a Font Awesome class string: the last word that
/// starts with `fa-` (prefix removed), else the last word, else empty.
pub open spec fn icon_scan(s: Seq<char>, i: int, fa: Option<Seq<char>>, last: Option<Seq<char>>) -> Seq<
    char,
>
    decreases s.len() - i,
{
    let j = skip_ws(s, i);
    if i < 0 || j < i || j >= s.len() {
        match fa {
            Some(f) => f,
            None => match last {
                Some(l) => l,
                None => seq![],
            },
        }
    } else {
        let k = word_end(s, j);
        if k <= j || k > s.len() {
            seq![]
        } else {
            let w = s.subrange(j, k);
            let fa2 = if starts_with(w, seq!['f', 'a', '-']) {
                Some(w.skip(3))
            } else {
                fa
            };
            icon_scan(s, k, fa2, Some(w))
        }
    }
}

pub open spec fn icon_name_spec(s: Seq<char>) -> Seq<char> {
    icon_scan(s, 0, None, None)
}

/// The icon name of a class string such as `fa fa-book` (see
/// [`icon_name_spec`]).
pub fn icon_name(icon: &str) -> (r: String)
    ensures
        r@ == icon_name_spec(icon@),
{
    let s = chars_of(icon);
    let mut fa: Option<Vec<char>> = None;
    let mut last: Option<Vec<char>> = None;
    let mut i: usize = 0;
    loop
        invariant
            i <= s.len(),
            s@ == icon@,
            icon_name_spec(s@) == icon_scan(
                s@,
                i as int,
                match fa {
                    Some(f) => Some(f@),
                    None => None,
                },
                match last {
                    Some(l) => Some(l@),
                    None => None,
                },
            ),
        decreases s.len() - i,
    {
        proof {
            lemma_skip_ws(s@, i as int);
        }
        let mut j = i;
        while j < s.len() && is_ws_exec(s[j])
            invariant
                i <= j <= s.len(),
                skip_ws(s@, i as int) == skip_ws(s@, j as int),
            decreases s.len() - j,
        {
            j = j + 1;
        }
        if j >= s.len() {
            let out = match fa {
                Some(f) => f,
                None => match last {
                    Some(l) => l,
                    None => Vec::new(),
                },
            };
            return string_of(out.as_slice());
        }
        proof {
            lemma_word_end(s@, j as int);
        }
        let mut k = j;
        while k < s.len() && !is_ws_exec(s[k])
            invariant
                j <= k <= s.len(),
                word_end(s@, j as int) == word_end(s@, k as int),
            decreases s.len() - k,
        {
            k = k + 1;
        }
        let w = slice_chars(s.as_slice(), j, k);
        let is_fa = w.len() >= 3 && w[0] == 'f' && w[1] == 'a' && w[2] == '-';
        assert(is_fa == starts_with(w@, seq!['f', 'a', '-'])) by {
            if w@.len() >= 3 {
                assert(is_fa ==> w@.take(3) =~= seq!['f', 'a', '-']);
                assert(starts_with(w@, seq!['f', 'a', '-']) ==> w@.take(3)[0] == 'f' && w@.take(3)[1]
                    == 'a' && w@.take(3)[2] == '-');
            }
        }
        if is_fa {
            let tail = slice_chars(w.as_slice(), 3, w.len());
            assert(tail@ =~= w@.skip(3));
            fa = Some(tail);
        }
        last = Some(w);
        i = k;
    }
}

/// `#rrggbb`, or `#rgb` with each digit scaled by 17, as channel values.
pub open spec fn mindmap_hex_spec(b: Seq<u8>) -> Option<(u8, u8, u8)> {
    if b.len() == 7 && b[0] == 0x23 {
        match (
            parse_hex_u8(b.subrange(1, 3)),
            parse_hex_u8(b.subrange(3, 5)),
            parse_hex_u8(b.subrange(5, 7)),
        ) {
            (Some(r), Some(g), Some(bl)) => Some((r, g, bl)),
            _ => None,
        }
    } else if b.len() == 4 && b[0] == 0x23 {
        match (
            parse_hex_u8(b.subrange(1, 2)),
            parse_hex_u8(b.subrange(2, 3)),
            parse_hex_u8(b.subrange(3, 4)),
        ) {
            (Some(r), Some(g), Some(bl)) => Some(((r * 17) as u8, (g * 17) as u8, (bl * 17) as u8)),
            _ => None,
        }
    } else {
        None
    }
}

/// The UTF-8 bytes of `s` with surrounding whitespace trimmed.
pub open spec fn trimmed_bytes(s: Seq<char>) -> Seq<u8> {
    vstd::utf8::encode_utf8(trim(s))
}

/// The digit slices of the trimmed color do not cut a character: such a
/// color is not accepted, as slicing the `str` there panics.
pub open spec fn mindmap_slices_ok(b: Seq<u8>) -> bool {
    &&& (b.len() == 7 && b[0] == 0x23 ==> !is_continuation(b[3]) && !is_continuation(b[5]))
    &&& (b.len() == 4 && b[0] == 0x23 ==> !is_continuation(b[2]) && !is_continuation(b[3]))
}

/// Parse a (trimmed) `#rgb`/`#rrggbb` color into channel values.
pub fn parse_hex(s: &str) -> (r: Option<(u8, u8, u8)>)
    requires
        mindmap_slices_ok(trimmed_bytes(s@)),
    ensures
        r == mindmap_hex_spec(trimmed_bytes(s@)),
{
    let t = string_of(trim_chars(chars_of(s).as_slice()).as_slice());
    let b = t.as_str().as_bytes();
    if b.len() == 7 && b[0] == 0x23 {
        match (hex_u8_at(b, 1, 3), hex_u8_at(b, 3, 5), hex_u8_at(b, 5, 7)) {
            (Some(r), Some(g), Some(bl)) => Some((r, g, bl)),
            _ => None,
        }
    } else if b.len() == 4 && b[0] == 0x23 {
        match (hex_u8_at(b, 1, 2), hex_u8_at(b, 2, 3), hex_u8_at(b, 3, 4)) {
            (Some(r), Some(g), Some(bl)) => {
                assert(r < 16 && g < 16 && bl < 16);
                Some((r * 17, g * 17, bl * 17))
            },
            _ => None,
        }
    } else {
        None
    }
}

} // verus!
