//! Inline-HTML label markup. Labels may carry a small whitelist of inline
//! tags, mapped onto styled runs:
//!
//! - `<b>`/`<strong>` → bold
//! - `<i>`/`<em>`     → italic
//! - `<u>`            → underline
//! - `<span style="color:…">` → colored
//! - `<a href="…">`   → linked
//!
//! Unknown tags are stripped (not escaped). Tag scanning runs on the raw
//! source before entity decoding, so `#lt;`-encoded angle brackets never
//! masquerade as tags. A backtick-fenced markdown string instead carries
//! `**bold**`/`*italic*` emphasis.

use vstd::prelude::*;
use crate::label::{decode_label_chars, decoded_label};
use crate::text::{
    chars_of, eq_ignore_case, eq_ignore_case_exec, eq_str, extend_chars, find, find_from,
    is_ascii_alnum, is_ascii_alpha, lemma_find_bounds, lower_chars, lower_seq, slice_chars,
    string_of, trim, trim_bounds, trim_chars, trim_end, trim_end_chars, trim_start, trim_start_chars,
};

verus! {

/// The styling a run of text carries.
pub struct Sty {
    pub bold: bool,
    pub italic: bool,
    pub underline: bool,
    pub color: Option<Seq<char>>,
    pub href: Option<Seq<char>>,
}

/// A styled run: its (decoded) text and its style.
pub struct SpanV {
    pub text: Seq<char>,
    pub style: Sty,
}

/// The style of text outside every tag.
pub open spec fn plain_sty() -> Sty {
    Sty { bold: false, italic: false, underline: false, color: None, href: None }
}

/// A scanned tag: `</name attrs/>`.
pub struct TagV {
    pub close: bool,
    pub self_closing: bool,
    pub name: Seq<char>,
    pub attrs: Seq<char>,
}

pub open spec fn opt_view(o: Option<Vec<char>>) -> Option<Seq<char>> {
    match o {
        Some(v) => Some(v@),
        None => None,
    }
}

pub open spec fn opt_string_view(o: Option<String>) -> Option<Seq<char>> {
    match o {
        Some(v) => Some(v@),
        None => None,
    }
}

/// A run of label text carrying its inline styling.
#[derive(Debug, Clone, Default, PartialEq)]
pub struct Span {
    pub text: String,
    pub bold: bool,
    pub italic: bool,
    pub underline: bool,
    pub color: Option<String>,
    pub href: Option<String>,
}

impl View for Span {
    type V = SpanV;

    open spec fn view(&self) -> SpanV {
        SpanV {
            text: self.text@,
            style: Sty {
                bold: self.bold,
                italic: self.italic,
                underline: self.underline,
                color: opt_string_view(self.color),
                href: opt_string_view(self.href),
            },
        }
    }
}

impl Span {
    /// True when the run carries no styling.
    pub fn is_plain(&self) -> (r: bool)
        ensures
            r == (self@.style == plain_sty()),
    {
        !self.bold && !self.italic && !self.underline && self.color.is_none()
            && self.href.is_none()
    }

    /// Does this run carry exactly the style `s`?
    pub fn styled_like(&self, s: &Style) -> (r: bool)
        ensures
            r == (self@.style == s@),
    {
        self.bold == s.bold && self.italic == s.italic && self.underline == s.underline
            && opt_text_eq(&self.color, &s.color) && opt_text_eq(&self.href, &s.href)
    }
}

fn opt_text_eq(a: &Option<String>, b: &Option<Vec<char>>) -> (r: bool)
    ensures
        r == (opt_string_view(*a) == opt_view(*b)),
{
    match (a, b) {
        (Some(x), Some(y)) => eq_str(y.as_slice(), x.as_str()),
        (None, None) => true,
        _ => false,
    }
}

/// Current style while scanning.
pub struct Style {
    pub bold: bool,
    pub italic: bool,
    pub underline: bool,
    pub color: Option<Vec<char>>,
    pub href: Option<Vec<char>>,
}

impl View for Style {
    type V = Sty;

    open spec fn view(&self) -> Sty {
        Sty {
            bold: self.bold,
            italic: self.italic,
            underline: self.underline,
            color: opt_view(self.color),
            href: opt_view(self.href),
        }
    }
}

fn copy_opt(o: &Option<Vec<char>>) -> (r: Option<Vec<char>>)
    ensures
        opt_view(r) == opt_view(*o),
{
    match o {
        Some(v) => {
            let c = slice_chars(v.as_slice(), 0, v.len());
            assert(c@ =~= v@);
            Some(c)
        },
        None => None,
    }
}

fn opt_eq(a: &Option<Vec<char>>, b: &Option<Vec<char>>) -> (r: bool)
    ensures
        r == (opt_view(*a) == opt_view(*b)),
{
    match (a, b) {
        (Some(x), Some(y)) => {
            if x.len() != y.len() {
                assert(x@.len() != y@.len());
                return false;
            }
            let mut i: usize = 0;
            while i < x.len()
                invariant
                    i <= x.len(),
                    x.len() == y.len(),
                    opt_view(*a) == Some(x@),
                    opt_view(*b) == Some(y@),
                    forall|k: int| 0 <= k < i ==> x@[k] == y@[k],
                decreases x.len() - i,
            {
                if x[i] != y[i] {
                    assert(x@[i as int] != y@[i as int]);
                    return false;
                }
                i = i + 1;
            }
            assert(x@ =~= y@);
            true
        },
        (None, None) => true,
        _ => false,
    }
}

impl Style {
    fn plain() -> (r: Style)
        ensures
            r@ == plain_sty(),
    {
        Style { bold: false, italic: false, underline: false, color: None, href: None }
    }

    fn duplicate(&self) -> (r: Style)
        ensures
            r@ == self@,
    {
        Style {
            bold: self.bold,
            italic: self.italic,
            underline: self.underline,
            color: copy_opt(&self.color),
            href: copy_opt(&self.href),
        }
    }

    fn same(&self, other: &Style) -> (r: bool)
        ensures
            r == (self@ == other@),
    {
        self.bold == other.bold && self.italic == other.italic && self.underline
            == other.underline && opt_eq(&self.color, &other.color) && opt_eq(
            &self.href,
            &other.href,
        )
    }
}

/// End of the ASCII-alphanumeric run of `s` starting at `j`.
pub open spec fn name_end(s: Seq<char>, j: int) -> int
    decreases s.len() - j,
{
    if 0 <= j < s.len() && is_ascii_alnum(s[j]) {
        name_end(s, j + 1)
    } else {
        j
    }
}

/// Position of the first `>` at or after `j` that is not inside a quoted
/// attribute value; `quote` is the quote currently open.
pub open spec fn gt_from(s: Seq<char>, j: int, quote: Option<char>) -> Option<int>
    decreases s.len() - j,
{
    if j < 0 || j >= s.len() {
        None
    } else {
        let c = s[j];
        match quote {
            Some(q) => gt_from(
                s,
                j + 1,
                if c == q {
                    None
                } else {
                    Some(q)
                },
            ),
            None => if c == '"' || c == '\'' {
                gt_from(s, j + 1, Some(c))
            } else if c == '>' {
                Some(j)
            } else {
                gt_from(s, j + 1, None)
            },
        }
    }
}

/// The tag at the start of `s`, with the number of characters it spans:
/// `<`, an optional `/`, an ASCII-letter-led alphanumeric name, attribute
/// text up to the first unquoted `>` (trimmed, a trailing `/` marking a
/// self-closing tag), and `>`.
pub open spec fn tag_at(s: Seq<char>) -> Option<(TagV, int)> {
    if s.len() == 0 || s[0] != '<' {
        None
    } else {
        let close = s.len() > 1 && s[1] == '/';
        let ns: int = if close {
            2
        } else {
            1
        };
        if ns >= s.len() || !is_ascii_alpha(s[ns]) {
            None
        } else {
            let ne = name_end(s, ns);
            match gt_from(s, ne, None) {
                None => None,
                Some(gt) => {
                    let a0 = trim(s.subrange(ne, gt));
                    let sc = a0.len() > 0 && a0.last() == '/';
                    let attrs = if sc {
                        trim_end(a0.drop_last())
                    } else {
                        a0
                    };
                    Some(
                        (
                            TagV { close, self_closing: sc, name: s.subrange(ns, ne), attrs },
                            gt + 1,
                        ),
                    )
                },
            }
        }
    }
}

/// A scanned tag.
pub struct Tag {
    pub close: bool,
    pub self_closing: bool,
    pub name: Vec<char>,
    pub attrs: Vec<char>,
}

impl View for Tag {
    type V = TagV;

    open spec fn view(&self) -> TagV {
        TagV {
            close: self.close,
            self_closing: self.self_closing,
            name: self.name@,
            attrs: self.attrs@,
        }
    }
}

proof fn lemma_name_end(s: Seq<char>, j: int)
    requires
        0 <= j <= s.len(),
    ensures
        j <= name_end(s, j) <= s.len(),
    decreases s.len() - j,
{
    if j < s.len() && is_ascii_alnum(s[j]) {
        lemma_name_end(s, j + 1);
    }
}

proof fn lemma_gt_from(s: Seq<char>, j: int, quote: Option<char>)
    requires
        0 <= j,
    ensures
        gt_from(s, j, quote) matches Some(g) ==> j <= g < s.len(),
    decreases s.len() - j,
{
    if j < s.len() {
        let c = s[j];
        match quote {
            Some(q) => lemma_gt_from(
                s,
                j + 1,
                if c == q {
                    None
                } else {
                    Some(q)
                },
            ),
            None => {
                if c == '"' || c == '\'' {
                    lemma_gt_from(s, j + 1, Some(c));
                } else if c != '>' {
                    lemma_gt_from(s, j + 1, None);
                }
            },
        }
    }
}

/// Scan the tag starting at `s[i]` (see [`tag_at`]).
pub fn parse_tag(s: &[char], i: usize) -> (r: Option<(Tag, usize)>)
    requires
        i <= s.len(),
    ensures
        match tag_at(s@.skip(i as int)) {
            Some((t, len)) => r matches Some((tag, l)) && tag@ == t && l == len && 0 < len <= s.len()
                - i,
            None => r is None,
        },
{
    let ghost g = s@.skip(i as int);
    if i >= s.len() || s[i] != '<' {
        return None;
    }
    let mut j = i + 1;
    let close = j < s.len() && s[j] == '/';
    if close {
        j = j + 1;
    }
    let ns = j;
    if j >= s.len() || !(('a' <= s[j] && s[j] <= 'z') || ('A' <= s[j] && s[j] <= 'Z')) {
        return None;
    }
    while j < s.len() && (('a' <= s[j] && s[j] <= 'z') || ('A' <= s[j] && s[j] <= 'Z') || (
    '0' <= s[j] && s[j] <= '9'))
        invariant
            ns <= j <= s.len(),
            i < ns,
            g == s@.skip(i as int),
            name_end(g, ns - i) == name_end(g, j - i),
        decreases s.len() - j,
    {
        j = j + 1;
    }
    let ne = j;
    assert(name_end(g, ns - i) == ne - i);
    let mut quote: Option<char> = None;
    while j < s.len()
        invariant
            ne <= j <= s.len(),
            i < ne,
            g == s@.skip(i as int),
            gt_from(g, ne - i, None) == gt_from(g, j - i, quote),
        ensures
            ne <= j <= s.len(),
            j < s.len() ==> gt_from(g, ne - i, None) == Some(j - i),
            j >= s.len() ==> gt_from(g, ne - i, None) is None,
        decreases s.len() - j,
    {
        let c = s[j];
        match quote {
            Some(q) => {
                if c == q {
                    quote = None;
                }
            },
            None => {
                if c == '"' || c == '\'' {
                    quote = Some(c);
                } else if c == '>' {
                    break ;
                }
            },
        }
        j = j + 1;
    }
    if j >= s.len() {
        return None;
    }
    let gt = j;
    assert(gt_from(g, ne - i, None) == Some(gt - i));
    let name = slice_chars(s, ns, ne);
    let raw = slice_chars(s, ne, gt);
    assert(raw@ =~= g.subrange(ne - i, gt - i));
    assert(name@ =~= g.subrange(ns - i, ne - i));
    let a0 = {
        let (a, b) = trim_bounds(raw.as_slice());
        slice_chars(raw.as_slice(), a, b)
    };
    let sc = a0.len() > 0 && a0[a0.len() - 1] == '/';
    let attrs = if sc {
        let cut = slice_chars(a0.as_slice(), 0, a0.len() - 1);
        assert(cut@ =~= a0@.drop_last());
        trim_end_chars(cut.as_slice())
    } else {
        a0
    };
    Some((Tag { close, self_closing: sc, name, attrs }, gt + 1 - i))
}


/// The value of attribute `key` in an attribute run: the first occurrence of
/// `key` (compared case-insensitively, at a word start, at or after `from`)
/// followed by optional spaces, `=`, optional spaces and a single- or
/// double-quoted value. A non-quoted value moves the search on; an empty
/// remainder or a missing closing quote ends it with `None`.
pub open spec fn attr_from(attrs: Seq<char>, key: Seq<char>, from: int) -> Option<Seq<char>>
    decreases attrs.len() - from,
{
    if key.len() == 0 || from < 0 || from > attrs.len() {
        None
    } else {
        let lower = lower_seq(attrs);
        match find(lower.skip(from), key) {
            None => None,
            Some(rel) => {
                let at = from + rel;
                if rel < 0 || at + key.len() > attrs.len() {
                    None
                } else {
                    let boundary = at == 0 || !is_ascii_alnum(lower[at - 1]);
                    let trimmed = trim_start(attrs.skip(at + key.len()));
                    if boundary && trimmed.len() > 0 && trimmed[0] == '=' {
                        let rest = trim_start(trimmed.drop_first());
                        if rest.len() == 0 {
                            None
                        } else if rest[0] == '"' || rest[0] == '\'' {
                            match find(rest.drop_first(), seq![rest[0]]) {
                                None => None,
                                Some(e) => Some(rest.drop_first().take(e)),
                            }
                        } else {
                            attr_from(attrs, key, at + key.len())
                        }
                    } else {
                        attr_from(attrs, key, at + key.len())
                    }
                }
            },
        }
    }
}

pub open spec fn attr_value_spec(attrs: Seq<char>, key: Seq<char>) -> Option<Seq<char>> {
    attr_from(attrs, key, 0)
}

/// Read the value of attribute `key` (lower case) from a tag's attribute
/// run, accepting double- or single-quoted values.
pub fn attr_value(attrs: &[char], key: &[char]) -> (r: Option<Vec<char>>)
    requires
        key.len() > 0,
    ensures
        opt_view(r) == attr_value_spec(attrs@, key@),
{
    let lower = lower_chars(attrs);
    let mut from: usize = 0;
    loop
        invariant
            from <= attrs.len(),
            key.len() > 0,
            lower@ == lower_seq(attrs@),
            lower@.len() == attrs@.len(),
            attr_value_spec(attrs@, key@) == attr_from(attrs@, key@, from as int),
        decreases attrs.len() - from,
    {
        proof {
            lemma_find_bounds(lower@.skip(from as int), key@);
        }
        let at = match find_from(lower.as_slice(), from, key) {
            None => {
                return None;
            },
            Some(at) => at,
        };
        let boundary = at == 0 || !(('a' <= lower[at - 1] && lower[at - 1] <= 'z') || ('A'
            <= lower[at - 1] && lower[at - 1] <= 'Z') || ('0' <= lower[at - 1] && lower[at - 1]
            <= '9'));
        let after = slice_chars(attrs, at + key.len(), attrs.len());
        assert(after@ =~= attrs@.skip(at + key.len()));
        let trimmed = trim_start_chars(after.as_slice());
        if boundary && trimmed.len() > 0 && trimmed[0] == '=' {
            let t1 = slice_chars(trimmed.as_slice(), 1, trimmed.len());
            assert(t1@ =~= trimmed@.drop_first());
            let rest = trim_start_chars(t1.as_slice());
            if rest.len() == 0 {
                return None;
            }
            let q = rest[0];
            if q == '"' || q == '\'' {
                let val = slice_chars(rest.as_slice(), 1, rest.len());
                assert(val@ =~= rest@.drop_first());
                let mut qv: Vec<char> = Vec::new();
                qv.push(q);
                assert(qv@ =~= seq![rest@[0]]);
                proof {
                    lemma_find_bounds(val@, qv@);
                    assert(val@.skip(0) =~= val@);
                }
                match find_from(val.as_slice(), 0, qv.as_slice()) {
                    None => {
                        return None;
                    },
                    Some(e) => {
                        let out = slice_chars(val.as_slice(), 0, e);
                        assert(out@ =~= val@.take(e as int));
                        return Some(out);
                    },
                }
            }
        }
        from = at + key.len();
    }
}

pub open spec fn color_word() -> Seq<char> {
    seq!['c', 'o', 'l', 'o', 'r']
}

pub open spec fn style_word() -> Seq<char> {
    seq!['s', 't', 'y', 'l', 'e']
}

pub open spec fn href_word() -> Seq<char> {
    seq!['h', 'r', 'e', 'f']
}

/// The first `color` declaration of a `;`-separated CSS declaration list.
/// A declaration without `:` met before it ends the search with `None`.
pub open spec fn color_decl(style: Seq<char>) -> Option<Seq<char>>
    decreases style.len(),
{
    let semi = find(style, seq![';']);
    let decl = match semi {
        Some(k) => style.take(k),
        None => style,
    };
    match find(decl, seq![':']) {
        None => None,
        Some(c) => {
            let v = trim(decl.skip(c + 1));
            if eq_ignore_case(trim(decl.take(c)), color_word()) && v.len() > 0 {
                Some(v)
            } else {
                match semi {
                    Some(k) => if 0 <= k < style.len() {
                        color_decl(style.skip(k + 1))
                    } else {
                        None
                    },
                    None => None,
                }
            }
        },
    }
}

/// `color:<value>` taken from a `style="…"` attribute.
pub open spec fn style_color_spec(attrs: Seq<char>) -> Option<Seq<char>> {
    match attr_value_spec(attrs, style_word()) {
        Some(st) => color_decl(st),
        None => None,
    }
}

fn word(w: &str) -> (r: Vec<char>)
    ensures
        r@ == w@,
{
    chars_of(w)
}

fn color_decl_exec(style: &[char]) -> (r: Option<Vec<char>>)
    ensures
        opt_view(r) == color_decl(style@),
    decreases style.len(),
{
    let mut semi: Vec<char> = Vec::new();
    semi.push(';');
    assert(semi@ =~= seq![';']);
    let mut colon: Vec<char> = Vec::new();
    colon.push(':');
    assert(colon@ =~= seq![':']);
    assert(style@.skip(0) =~= style@);
    proof {
        lemma_find_bounds(style@, seq![';']);
    }
    let k = find_from(style, 0, semi.as_slice());
    let decl = match k {
        Some(k) => slice_chars(style, 0, k),
        None => slice_chars(style, 0, style.len()),
    };
    assert(decl@ =~= match find(style@, seq![';']) {
        Some(k) => style@.take(k),
        None => style@,
    });
    assert(decl@.skip(0) =~= decl@);
    proof {
        lemma_find_bounds(decl@, seq![':']);
    }
    match find_from(decl.as_slice(), 0, colon.as_slice()) {
        None => None,
        Some(c) => {
            let rawv = slice_chars(decl.as_slice(), c + 1, decl.len());
            assert(rawv@ =~= decl@.skip(c + 1));
            let v = trim_chars(rawv.as_slice());
            let rawk = slice_chars(decl.as_slice(), 0, c);
            assert(rawk@ =~= decl@.take(c as int));
            let key = trim_chars(rawk.as_slice());
            let cw = word("color");
            proof {
                reveal_strlit("color");
                assert(cw@ =~= color_word());
            }
            if eq_ignore_case_exec(key.as_slice(), cw.as_slice()) && v.len() > 0 {
                Some(v)
            } else {
                match k {
                    Some(k) => {
                        let tail = slice_chars(style, k + 1, style.len());
                        assert(tail@ =~= style@.skip(k + 1));
                        color_decl_exec(tail.as_slice())
                    },
                    None => None,
                }
            }
        },
    }
}

/// Extract `color:<value>` from a `style="…"` attribute run.
pub fn style_color(attrs: &[char]) -> (r: Option<Vec<char>>)
    ensures
        opt_view(r) == style_color_spec(attrs@),
{
    let sw = word("style");
    proof {
        reveal_strlit("style");
        assert(sw@ =~= style_word());
    }
    match attr_value(attrs, sw.as_slice()) {
        Some(st) => color_decl_exec(st.as_slice()),
        None => None,
    }
}

/// The open-tag stack: each entry holds the lower-cased tag name and the
/// style in force before the tag opened.
pub open spec fn stack_view(v: Seq<(Vec<char>, Style)>) -> Seq<(Seq<char>, Sty)> {
    v.map_values(|p: (Vec<char>, Style)| (p.0@, p.1@))
}

/// Index of the innermost open tag named `name`.
pub open spec fn last_pos(stack: Seq<(Seq<char>, Sty)>, name: Seq<char>) -> Option<int>
    decreases stack.len(),
{
    if stack.len() == 0 {
        None
    } else if stack.last().0 == name {
        Some(stack.len() - 1)
    } else {
        last_pos(stack.drop_last(), name)
    }
}

proof fn lemma_last_pos(stack: Seq<(Seq<char>, Sty)>, name: Seq<char>)
    ensures
        last_pos(stack, name) matches Some(p) ==> 0 <= p < stack.len() && stack[p].0 == name,
    decreases stack.len(),
{
    if stack.len() > 0 && stack.last().0 != name {
        lemma_last_pos(stack.drop_last(), name);
    }
}

/// The effect of a tag on the current style and the open-tag stack. A close
/// tag restores the style saved by the innermost open tag of that name (and
/// drops everything opened after it); an unmatched close is ignored. An open
/// tag from the whitelist sets its property and is pushed; a self-closing
/// tag styles nothing; an unknown tag changes nothing.
pub open spec fn apply_tag_spec(tag: TagV, cur: Sty, stack: Seq<(Seq<char>, Sty)>) -> (
    Sty,
    Seq<(Seq<char>, Sty)>,
) {
    let name = lower_seq(tag.name);
    if tag.close {
        match last_pos(stack, name) {
            Some(p) => (stack[p].1, stack.take(p)),
            None => (cur, stack),
        }
    } else {
        let recognized = name == seq!['b'] || name == seq!['s', 't', 'r', 'o', 'n', 'g'] || name
            == seq!['i'] || name == seq!['e', 'm'] || name == seq!['u'] || name == seq![
            's',
            'p',
            'a',
            'n',
        ] || name == seq!['a'];
        if tag.self_closing {
            (cur, stack)
        } else if !recognized {
            (cur, stack)
        } else {
            let next = if name == seq!['b'] || name == seq!['s', 't', 'r', 'o', 'n', 'g'] {
                Sty { bold: true, ..cur }
            } else if name == seq!['i'] || name == seq!['e', 'm'] {
                Sty { italic: true, ..cur }
            } else if name == seq!['u'] {
                Sty { underline: true, ..cur }
            } else if name == seq!['s', 'p', 'a', 'n'] {
                match style_color_spec(tag.attrs) {
                    Some(c) => Sty { color: Some(c), ..cur },
                    None => cur,
                }
            } else {
                match attr_value_spec(tag.attrs, href_word()) {
                    Some(h) => Sty { href: Some(h), ..cur },
                    None => cur,
                }
            };
            (next, stack.push((name, cur)))
        }
    }
}

/// Apply a tag to the current style and open-tag stack (see
/// [`apply_tag_spec`]).
pub fn apply_tag(tag: &Tag, cur: &mut Style, stack: &mut Vec<(Vec<char>, Style)>)
    ensures
        (final(cur)@, stack_view(final(stack)@)) == apply_tag_spec(
            tag@,
            old(cur)@,
            stack_view(old(stack)@),
        ),
{
    let name = lower_chars(tag.name.as_slice());
    let ghost sv = stack_view(stack@);
    if tag.close {
        let mut p = stack.len();
        assert(sv.take(p as int) =~= sv);
        while p > 0
            invariant
                p <= stack.len(),
                tag.close,
                stack@ == old(stack)@,
                *cur == *old(cur),
                sv == stack_view(stack@),
                name@ == lower_seq(tag.name@),
                last_pos(sv, name@) == last_pos(sv.take(p as int), name@),
            decreases p,
        {
            let hit = {
                let e = &stack[p - 1].0;
                let same = e.len() == name.len() && {
                    let mut k: usize = 0;
                    let mut eq = true;
                    while k < e.len()
                        invariant
                            k <= e.len(),
                            e.len() == name.len(),
                            eq == (forall|m: int| 0 <= m < k ==> e@[m] == name@[m]),
                        decreases e.len() - k,
                    {
                        if e[k] != name[k] {
                            eq = false;
                        }
                        k = k + 1;
                    }
                    proof {
                        if eq {
                            assert(e@ =~= name@);
                        } else {
                            assert(e@ != name@);
                        }
                    }
                    eq
                };
                assert(sv[p - 1].0 == e@);
                same
            };
            assert(sv.take(p as int).last() == sv[p - 1]);
            assert(sv.take(p as int).drop_last() =~= sv.take(p - 1));
            if hit {
                assert(last_pos(sv.take(p as int), name@) == Some(p - 1));
                assert(sv[p - 1].1 == stack@[p - 1].1@);
                let restored = stack[p - 1].1.duplicate();
                *cur = restored;
                stack.truncate(p - 1);
                assert(stack_view(stack@) =~= sv.take(p - 1));
                assert(sv == stack_view(old(stack)@));
                assert(apply_tag_spec(tag@, old(cur)@, sv) == (sv[p - 1].1, sv.take(p - 1)));
                assert(cur@ == sv[p - 1].1);
                return ;
            }
            p = p - 1;
        }
        assert(sv.take(0) =~= Seq::<(Seq<char>, Sty)>::empty());
        return ;
    }
    let saved = cur.duplicate();
    proof {
        reveal_strlit("b");
        reveal_strlit("strong");
        reveal_strlit("i");
        reveal_strlit("em");
        reveal_strlit("u");
        reveal_strlit("span");
        reveal_strlit("a");
        reveal_strlit("href");
    }
    let nm = name.as_slice();
    let is_b = eq_str(nm, "b") || eq_str(nm, "strong");
    let is_i = eq_str(nm, "i") || eq_str(nm, "em");
    let is_u = eq_str(nm, "u");
    let is_span = eq_str(nm, "span");
    let is_a = eq_str(nm, "a");
    proof {
        assert("b"@ =~= seq!['b']);
        assert("strong"@ =~= seq!['s', 't', 'r', 'o', 'n', 'g']);
        assert("i"@ =~= seq!['i']);
        assert("em"@ =~= seq!['e', 'm']);
        assert("u"@ =~= seq!['u']);
        assert("span"@ =~= seq!['s', 'p', 'a', 'n']);
        assert("a"@ =~= seq!['a']);
        assert("href"@ =~= href_word());
    }
    let recognized = is_b || is_i || is_u || is_span || is_a;
    if tag.self_closing || !recognized {
        return ;
    }
    if is_b {
        cur.bold = true;
    } else if is_i {
        cur.italic = true;
    } else if is_u {
        cur.underline = true;
    } else if is_span {
        match style_color(tag.attrs.as_slice()) {
            Some(c) => {
                cur.color = Some(c);
            },
            None => {},
        }
    } else {
        let hw = word("href");
        match attr_value(tag.attrs.as_slice(), hw.as_slice()) {
            Some(h) => {
                cur.href = Some(h);
            },
            None => {},
        }
    }
    stack.push((name, saved));
    assert(stack_view(stack@) =~= sv.push((lower_seq(tag.name@), old(cur)@)));
}


/// `buf` (decoded) appended as a run of style `cur`: merged into the last run
/// when that run has the same style, pushed as a new run otherwise. An empty
/// buffer changes nothing.
pub open spec fn flush_spec(spans: Seq<SpanV>, buf: Seq<char>, cur: Sty) -> Seq<SpanV> {
    if buf.len() == 0 {
        spans
    } else {
        let text = decoded_label(buf);
        if spans.len() > 0 && spans.last().style == cur {
            spans.update(spans.len() - 1, SpanV { text: spans.last().text + text, style: cur })
        } else {
            spans.push(SpanV { text, style: cur })
        }
    }
}

/// The final flush; a line that produced no run yields one empty plain run.
pub open spec fn finish_spans(spans: Seq<SpanV>, buf: Seq<char>, cur: Sty) -> Seq<SpanV> {
    let f = flush_spec(spans, buf, cur);
    if f.len() == 0 {
        seq![SpanV { text: seq![], style: plain_sty() }]
    } else {
        f
    }
}

/// Scanner state over one line of HTML-tagged text.
pub struct ScanSt {
    pub spans: Seq<SpanV>,
    pub buf: Seq<char>,
    pub cur: Sty,
    pub stack: Seq<(Seq<char>, Sty)>,
}

/// Scan `line` from position `i`: a `<` that opens a tag flushes the pending
/// text and applies the tag; every other character is buffered.
pub open spec fn scan(line: Seq<char>, i: int, st: ScanSt) -> ScanSt
    decreases line.len() - i,
{
    if i < 0 || i >= line.len() {
        st
    } else {
        match tag_at(line.skip(i)) {
            Some((tag, len)) => if line[i] == '<' && 0 < len <= line.len() - i {
                let next = apply_tag_spec(tag, st.cur, st.stack);
                scan(
                    line,
                    i + len,
                    ScanSt {
                        spans: flush_spec(st.spans, st.buf, st.cur),
                        buf: seq![],
                        cur: next.0,
                        stack: next.1,
                    },
                )
            } else {
                scan(line, i + 1, ScanSt { buf: st.buf.push(line[i]), ..st })
            },
            None => scan(line, i + 1, ScanSt { buf: st.buf.push(line[i]), ..st }),
        }
    }
}

/// The inner text of a backtick-fenced markdown string (after trimming).
pub open spec fn fenced(line: Seq<char>) -> Option<Seq<char>> {
    let t = trim(line);
    if t.len() >= 2 && t[0] == '`' && t.last() == '`' {
        Some(t.subrange(1, t.len() - 1))
    } else {
        None
    }
}

/// Scan markdown emphasis: a doubled `*`/`_` toggles bold, a single one
/// toggles italic; other characters are buffered.
pub open spec fn md_scan(s: Seq<char>, i: int, spans: Seq<SpanV>, buf: Seq<char>, cur: Sty) -> (
    Seq<SpanV>,
    Seq<char>,
    Sty,
)
    decreases s.len() - i,
{
    if i < 0 || i >= s.len() {
        (spans, buf, cur)
    } else if (s[i] == '*' || s[i] == '_') && i + 1 < s.len() && s[i + 1] == s[i] {
        md_scan(s, i + 2, flush_spec(spans, buf, cur), seq![], Sty { bold: !cur.bold, ..cur })
    } else if s[i] == '*' || s[i] == '_' {
        md_scan(s, i + 1, flush_spec(spans, buf, cur), seq![], Sty { italic: !cur.italic, ..cur })
    } else {
        md_scan(s, i + 1, spans, buf.push(s[i]), cur)
    }
}

/// The styled runs of a markdown-string body.
pub open spec fn markdown_spans(inner: Seq<char>) -> Seq<SpanV> {
    let st = md_scan(inner, 0, seq![], seq![], plain_sty());
    finish_spans(st.0, st.1, st.2)
}

/// One line parsed with the carried style and open-tag stack: the runs, and
/// the style and stack handed on to the next line. A fenced markdown line is
/// self-contained and leaves the carried state untouched.
pub open spec fn parse_line_spec(line: Seq<char>, cur: Sty, stack: Seq<(Seq<char>, Sty)>) -> (
    Seq<SpanV>,
    Sty,
    Seq<(Seq<char>, Sty)>,
) {
    match fenced(line) {
        Some(inner) => (markdown_spans(inner), cur, stack),
        None => {
            let st = scan(line, 0, ScanSt { spans: seq![], buf: seq![], cur, stack });
            (finish_spans(st.spans, st.buf, st.cur), st.cur, st.stack)
        },
    }
}

/// Every line parsed in order, the style stack carried across lines.
pub open spec fn parse_lines_spec(
    lines: Seq<Seq<char>>,
    cur: Sty,
    stack: Seq<(Seq<char>, Sty)>,
) -> Seq<Seq<SpanV>>
    decreases lines.len(),
{
    if lines.len() == 0 {
        seq![]
    } else {
        let r = parse_line_spec(lines[0], cur, stack);
        seq![r.0] + parse_lines_spec(lines.drop_first(), r.1, r.2)
    }
}

/// The visible text of a label with every tag removed (entities untouched).
pub open spec fn strip_tags_spec(s: Seq<char>) -> Seq<char>
    decreases s.len(),
{
    if s.len() == 0 {
        s
    } else {
        match tag_at(s) {
            Some((t, len)) => if 0 < len <= s.len() {
                strip_tags_spec(s.skip(len))
            } else {
                seq![s[0]] + strip_tags_spec(s.drop_first())
            },
            None => seq![s[0]] + strip_tags_spec(s.drop_first()),
        }
    }
}

/// A run being built.
pub struct Run {
    pub text: Vec<char>,
    pub style: Style,
}

impl View for Run {
    type V = SpanV;

    open spec fn view(&self) -> SpanV {
        SpanV { text: self.text@, style: self.style@ }
    }
}

pub open spec fn runs_view(v: Seq<Run>) -> Seq<SpanV> {
    v.map_values(|r: Run| r@)
}

pub open spec fn spans_view(v: Seq<Span>) -> Seq<SpanV> {
    v.map_values(|r: Span| r@)
}

fn flush(runs: &mut Vec<Run>, buf: &mut Vec<char>, cur: &Style)
    ensures
        runs_view(final(runs)@) == flush_spec(runs_view(old(runs)@), old(buf)@, cur@),
        final(buf)@ == Seq::<char>::empty(),
{
    if buf.len() == 0 {
        assert(buf@ =~= Seq::<char>::empty());
        return ;
    }
    let text = decode_label_chars(buf.as_slice());
    buf.clear();
    let ghost rv = runs_view(runs@);
    let n = runs.len();
    if n > 0 && runs[n - 1].style.same(cur) {
        let mut last = runs.pop().unwrap();
        extend_chars(&mut last.text, text.as_slice());
        runs.push(last);
        assert(runs_view(runs@) =~= rv.update(
            rv.len() - 1,
            SpanV { text: rv.last().text + decoded_label(old(buf)@), style: cur@ },
        ));
    } else {
        runs.push(Run { text, style: cur.duplicate() });
        assert(runs_view(runs@) =~= rv.push(
            SpanV { text: decoded_label(old(buf)@), style: cur@ },
        ));
    }
}

fn opt_string(o: &Option<Vec<char>>) -> (r: Option<String>)
    ensures
        opt_string_view(r) == opt_view(*o),
{
    match o {
        Some(v) => Some(string_of(v.as_slice())),
        None => None,
    }
}

fn to_spans(runs: &Vec<Run>) -> (r: Vec<Span>)
    ensures
        spans_view(r@) == runs_view(runs@),
{
    let mut out: Vec<Span> = Vec::new();
    let mut i: usize = 0;
    while i < runs.len()
        invariant
            i <= runs.len(),
            spans_view(out@) == runs_view(runs@.take(i as int)),
        decreases runs.len() - i,
    {
        let r = &runs[i];
        let sp = Span {
            text: string_of(r.text.as_slice()),
            bold: r.style.bold,
            italic: r.style.italic,
            underline: r.style.underline,
            color: opt_string(&r.style.color),
            href: opt_string(&r.style.href),
        };
        assert(sp@ == runs@[i as int]@);
        let ghost prev = out@;
        out.push(sp);
        assert(spans_view(out@) =~= spans_view(prev).push(runs@[i as int]@));
        assert(runs@.take(i + 1) =~= runs@.take(i as int).push(runs@[i as int]));
        assert(runs_view(runs@.take(i + 1)) =~= runs_view(runs@.take(i as int)).push(
            runs@[i as int]@,
        ));
        i = i + 1;
    }
    assert(runs@.take(runs.len() as int) =~= runs@);
    out
}

fn finish(runs: &mut Vec<Run>, buf: &mut Vec<char>, cur: &Style) -> (r: Vec<Span>)
    ensures
        spans_view(r@) == finish_spans(runs_view(old(runs)@), old(buf)@, cur@),
{
    flush(runs, buf, cur);
    if runs.len() == 0 {
        runs.push(Run { text: Vec::new(), style: Style::plain() });
        assert(runs_view(runs@) =~= seq![SpanV { text: seq![], style: plain_sty() }]);
    }
    to_spans(runs)
}

/// If `line` (trimmed) is a backtick-fenced markdown string, its inner text.
fn fenced_markdown(line: &[char]) -> (r: Option<Vec<char>>)
    ensures
        opt_view(r) == fenced(line@),
{
    let t = trim_chars(line);
    if t.len() >= 2 && t[0] == '`' && t[t.len() - 1] == '`' {
        Some(slice_chars(t.as_slice(), 1, t.len() - 1))
    } else {
        None
    }
}

/// Parse a markdown-string body into styled runs (see [`markdown_spans`]).
fn parse_markdown_spans(s: &[char]) -> (r: Vec<Span>)
    ensures
        spans_view(r@) == markdown_spans(s@),
{
    let mut runs: Vec<Run> = Vec::new();
    let mut buf: Vec<char> = Vec::new();
    let mut cur = Style::plain();
    let mut i: usize = 0;
    assert(runs_view(runs@) =~= Seq::<SpanV>::empty());
    while i < s.len()
        invariant
            i <= s.len() + 1,
            md_scan(s@, 0, seq![], seq![], plain_sty()) == md_scan(
                s@,
                i as int,
                runs_view(runs@),
                buf@,
                cur@,
            ),
        decreases s.len() + 1 - i,
    {
        let c = s[i];
        if (c == '*' || c == '_') && i + 1 < s.len() && s[i + 1] == c {
            flush(&mut runs, &mut buf, &cur);
            cur.bold = !cur.bold;
            i = i + 2;
        } else if c == '*' || c == '_' {
            flush(&mut runs, &mut buf, &cur);
            cur.italic = !cur.italic;
            i = i + 1;
        } else {
            buf.push(c);
            i = i + 1;
        }
    }
    finish(&mut runs, &mut buf, &cur)
}

/// Parse one line, threading the caller's current style and open-tag stack.
pub fn parse_line(line: &[char], cur: &mut Style, stack: &mut Vec<(Vec<char>, Style)>) -> (r: Vec<
    Span,
>)
    ensures
        (spans_view(r@), final(cur)@, stack_view(final(stack)@)) == parse_line_spec(
            line@,
            old(cur)@,
            stack_view(old(stack)@),
        ),
{
    if let Some(inner) = fenced_markdown(line) {
        return parse_markdown_spans(inner.as_slice());
    }
    let mut runs: Vec<Run> = Vec::new();
    let mut buf: Vec<char> = Vec::new();
    let mut i: usize = 0;
    let ghost init = ScanSt {
        spans: seq![],
        buf: seq![],
        cur: cur@,
        stack: stack_view(stack@),
    };
    assert(runs_view(runs@) =~= Seq::<SpanV>::empty());
    while i < line.len()
        invariant
            i <= line.len(),
            scan(line@, 0, init) == scan(
                line@,
                i as int,
                ScanSt {
                    spans: runs_view(runs@),
                    buf: buf@,
                    cur: cur@,
                    stack: stack_view(stack@),
                },
            ),
        decreases line.len() - i,
    {
        if line[i] == '<' {
            if let Some((tag, len)) = parse_tag(line, i) {
                flush(&mut runs, &mut buf, cur);
                apply_tag(&tag, cur, stack);
                i = i + len;
                continue ;
            }
        }
        buf.push(line[i]);
        i = i + 1;
    }
    let out = finish(&mut runs, &mut buf, cur);
    out
}

/// Parse one line on its own, starting from plain text with no open tags.
pub fn parse_spans(line: &str) -> (r: Vec<Span>)
    ensures
        spans_view(r@) == parse_line_spec(line@, plain_sty(), seq![]).0,
{
    let mut cur = Style::plain();
    let mut stack: Vec<(Vec<char>, Style)> = Vec::new();
    assert(stack_view(stack@) =~= Seq::<(Seq<char>, Sty)>::empty());
    let v = chars_of(line);
    parse_line(v.as_slice(), &mut cur, &mut stack)
}

pub open spec fn lines_view(v: Seq<&str>) -> Seq<Seq<char>> {
    v.map_values(|l: &str| l@)
}

pub open spec fn span_lines_view(v: Seq<Vec<Span>>) -> Seq<Seq<SpanV>> {
    v.map_values(|l: Vec<Span>| spans_view(l@))
}

/// Parse already-split label lines into per-line styled runs, carrying the
/// open-tag style stack across the line breaks.
pub fn parse_lines(lines: &[&str]) -> (r: Vec<Vec<Span>>)
    ensures
        span_lines_view(r@) == parse_lines_spec(lines_view(lines@), plain_sty(), seq![]),
{
    let mut cur = Style::plain();
    let mut stack: Vec<(Vec<char>, Style)> = Vec::new();
    let mut out: Vec<Vec<Span>> = Vec::new();
    let ghost all = lines_view(lines@);
    assert(stack_view(stack@) =~= Seq::<(Seq<char>, Sty)>::empty());
    assert(all.skip(0) =~= all);
    let mut i: usize = 0;
    while i < lines.len()
        invariant
            i <= lines.len(),
            all == lines_view(lines@),
            parse_lines_spec(all, plain_sty(), seq![]) == span_lines_view(out@)
                + parse_lines_spec(all.skip(i as int), cur@, stack_view(stack@)),
        decreases lines.len() - i,
    {
        let v = chars_of(lines[i]);
        let ghost before_cur = cur@;
        let ghost before_stack = stack_view(stack@);
        let spans = parse_line(v.as_slice(), &mut cur, &mut stack);
        proof {
            assert(all.skip(i as int)[0] == lines@[i as int]@);
            assert(all.skip(i as int).drop_first() =~= all.skip(i + 1));
        }
        out.push(spans);
        assert(span_lines_view(out@) =~= span_lines_view(out@.drop_last()).push(
            spans_view(out@.last()@),
        ));
        i = i + 1;
    }
    assert(all.skip(lines.len() as int) =~= Seq::<Seq<char>>::empty());
    out
}

/// Concatenate a label's visible text with every HTML tag removed, leaving
/// entity codes untouched.
pub fn strip_tags(s: &str) -> (r: String)
    ensures
        r@ == strip_tags_spec(s@),
{
    let v = chars_of(s);
    let mut out: Vec<char> = Vec::new();
    let mut i: usize = 0;
    assert(v@.skip(0) =~= v@);
    while i < v.len()
        invariant
            i <= v.len(),
            v@ == s@,
            strip_tags_spec(s@) == out@ + strip_tags_spec(v@.skip(i as int)),
        decreases v.len() - i,
    {
        let ghost r0 = v@.skip(i as int);
        if v[i] == '<' {
            if let Some((_, len)) = parse_tag(v.as_slice(), i) {
                assert(r0.skip(len as int) =~= v@.skip(i + len));
                i = i + len;
                continue ;
            }
        }
        out.push(v[i]);
        assert(r0.drop_first() =~= v@.skip(i + 1));
        i = i + 1;
    }
    assert(v@.skip(v.len() as int) =~= Seq::<char>::empty());
    assert(out@ + Seq::<char>::empty() =~= out@);
    string_of(out.as_slice())
}


/// No two neighbouring runs share a style.
pub open spec fn runs_merged(spans: Seq<SpanV>) -> bool {
    forall|i: int| 0 <= i < spans.len() - 1 ==> #[trigger] spans[i].style != spans[i + 1].style
}

proof fn lemma_flush_merged(spans: Seq<SpanV>, buf: Seq<char>, cur: Sty)
    requires
        runs_merged(spans),
    ensures
        runs_merged(flush_spec(spans, buf, cur)),
{
    let f = flush_spec(spans, buf, cur);
    if buf.len() > 0 {
        if spans.len() > 0 && spans.last().style == cur {
            assert forall|i: int| 0 <= i < f.len() - 1 implies #[trigger] f[i].style != f[i + 1].style by {
                assert(f[i].style == spans[i].style && f[i + 1].style == spans[i + 1].style);
            }
        } else {
            assert forall|i: int| 0 <= i < f.len() - 1 implies #[trigger] f[i].style != f[i + 1].style by {
                if i + 1 < spans.len() {
                    assert(f[i] == spans[i] && f[i + 1] == spans[i + 1]);
                }
            }
        }
    }
}

proof fn lemma_finish_merged(spans: Seq<SpanV>, buf: Seq<char>, cur: Sty)
    requires
        runs_merged(spans),
    ensures
        runs_merged(finish_spans(spans, buf, cur)),
        finish_spans(spans, buf, cur).len() > 0,
{
    lemma_flush_merged(spans, buf, cur);
}

proof fn lemma_scan_merged(line: Seq<char>, i: int, st: ScanSt)
    requires
        runs_merged(st.spans),
    ensures
        runs_merged(scan(line, i, st).spans),
    decreases line.len() - i,
{
    if 0 <= i < line.len() {
        match tag_at(line.skip(i)) {
            Some((tag, len)) => {
                if line[i] == '<' && 0 < len <= line.len() - i {
                    lemma_flush_merged(st.spans, st.buf, st.cur);
                    let next = apply_tag_spec(tag, st.cur, st.stack);
                    lemma_scan_merged(
                        line,
                        i + len,
                        ScanSt {
                            spans: flush_spec(st.spans, st.buf, st.cur),
                            buf: seq![],
                            cur: next.0,
                            stack: next.1,
                        },
                    );
                } else {
                    lemma_scan_merged(line, i + 1, ScanSt { buf: st.buf.push(line[i]), ..st });
                }
            },
            None => lemma_scan_merged(line, i + 1, ScanSt { buf: st.buf.push(line[i]), ..st }),
        }
    }
}

proof fn lemma_md_scan_merged(s: Seq<char>, i: int, spans: Seq<SpanV>, buf: Seq<char>, cur: Sty)
    requires
        runs_merged(spans),
    ensures
        runs_merged(md_scan(s, i, spans, buf, cur).0),
    decreases s.len() - i,
{
    if 0 <= i < s.len() {
        if (s[i] == '*' || s[i] == '_') && i + 1 < s.len() && s[i + 1] == s[i] {
            lemma_flush_merged(spans, buf, cur);
            lemma_md_scan_merged(s, i + 2, flush_spec(spans, buf, cur), seq![], Sty { bold: !cur.bold, ..cur });
        } else if s[i] == '*' || s[i] == '_' {
            lemma_flush_merged(spans, buf, cur);
            lemma_md_scan_merged(
                s,
                i + 1,
                flush_spec(spans, buf, cur),
                seq![],
                Sty { italic: !cur.italic, ..cur },
            );
        } else {
            lemma_md_scan_merged(s, i + 1, spans, buf.push(s[i]), cur);
        }
    }
}

/// Every parsed line yields at least one run, and neighbouring runs never
/// share a style (runs of the same style are merged).
pub proof fn law_line_runs_merged(line: Seq<char>, cur: Sty, stack: Seq<(Seq<char>, Sty)>)
    ensures
        parse_line_spec(line, cur, stack).0.len() > 0,
        runs_merged(parse_line_spec(line, cur, stack).0),
{
    match fenced(line) {
        Some(inner) => {
            lemma_md_scan_merged(inner, 0, seq![], seq![], plain_sty());
            let st = md_scan(inner, 0, seq![], seq![], plain_sty());
            lemma_finish_merged(st.0, st.1, st.2);
        },
        None => {
            let init = ScanSt { spans: seq![], buf: seq![], cur, stack };
            lemma_scan_merged(line, 0, init);
            let st = scan(line, 0, init);
            lemma_finish_merged(st.spans, st.buf, st.cur);
        },
    }
}

proof fn lemma_scan_plain(line: Seq<char>, i: int, st: ScanSt)
    requires
        0 <= i <= line.len(),
        !line.contains('<'),
    ensures
        scan(line, i, st) == (ScanSt { buf: st.buf + line.skip(i), ..st }),
    decreases line.len() - i,
{
    if i < line.len() {
        assert(line[i] != '<');
        lemma_scan_plain(line, i + 1, ScanSt { buf: st.buf.push(line[i]), ..st });
        assert(st.buf.push(line[i]) + line.skip(i + 1) =~= st.buf + line.skip(i));
    } else {
        assert(st.buf + line.skip(i) =~= st.buf);
    }
}

/// A line without tags (no `<`) that is not a markdown string is one run in
/// the carried style holding the decoded line, and leaves the carried style
/// and tag stack as they were; an empty line is one empty plain run.
pub proof fn law_tag_free_line_is_one_run(line: Seq<char>, cur: Sty, stack: Seq<(Seq<char>, Sty)>)
    requires
        !line.contains('<'),
        fenced(line) is None,
    ensures
        parse_line_spec(line, cur, stack) == (
            if line.len() > 0 {
                seq![SpanV { text: decoded_label(line), style: cur }]
            } else {
                seq![SpanV { text: seq![], style: plain_sty() }]
            },
            cur,
            stack,
        ),
{
    let init = ScanSt { spans: seq![], buf: seq![], cur, stack };
    lemma_scan_plain(line, 0, init);
    assert(Seq::<char>::empty() + line.skip(0) =~= line);
}

/// Parsing produces one run list per input line.
pub proof fn law_one_run_list_per_line(lines: Seq<Seq<char>>, cur: Sty, stack: Seq<(Seq<char>, Sty)>)
    ensures
        parse_lines_spec(lines, cur, stack).len() == lines.len(),
    decreases lines.len(),
{
    if lines.len() > 0 {
        let r = parse_line_spec(lines[0], cur, stack);
        law_one_run_list_per_line(lines.drop_first(), r.1, r.2);
    }
}

/// Text without `<` has no tags: stripping tags returns it unchanged.
pub proof fn law_strip_tags_plain_identity(s: Seq<char>)
    requires
        !s.contains('<'),
    ensures
        strip_tags_spec(s) == s,
    decreases s.len(),
{
    if s.len() > 0 {
        assert(s[0] != '<');
        assert(!s.drop_first().contains('<')) by {
            if s.drop_first().contains('<') {
                let j = choose|j: int| 0 <= j < s.drop_first().len() && s.drop_first()[j] == '<';
                assert(s[j + 1] == '<');
            }
        }
        law_strip_tags_plain_identity(s.drop_first());
        assert(seq![s[0]] + s.drop_first() =~= s);
    }
}

/// A tag outside the whitelist (or self-closing) changes neither the style
/// nor the open-tag stack.
pub proof fn law_unknown_tag_changes_nothing(tag: TagV, cur: Sty, stack: Seq<(Seq<char>, Sty)>)
    requires
        !tag.close,
        tag.self_closing || !(lower_seq(tag.name) == seq!['b'] || lower_seq(tag.name) == seq![
            's',
            't',
            'r',
            'o',
            'n',
            'g',
        ] || lower_seq(tag.name) == seq!['i'] || lower_seq(tag.name) == seq!['e', 'm']
            || lower_seq(tag.name) == seq!['u'] || lower_seq(tag.name) == seq!['s', 'p', 'a', 'n']
            || lower_seq(tag.name) == seq!['a']),
    ensures
        apply_tag_spec(tag, cur, stack) == (cur, stack),
{
}

/// A close tag matching no open tag is ignored.
pub proof fn law_unmatched_close_ignored(tag: TagV, cur: Sty, stack: Seq<(Seq<char>, Sty)>)
    requires
        tag.close,
        forall|i: int| 0 <= i < stack.len() ==> stack[i].0 != lower_seq(tag.name),
    ensures
        apply_tag_spec(tag, cur, stack) == (cur, stack),
{
    lemma_last_pos(stack, lower_seq(tag.name));
}

} // verus!
