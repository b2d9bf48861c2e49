//! Timeline helpers: layout direction, event word-wrapping and the hex
//! parsing behind the block colors.

use vstd::prelude::*;
use vstd::string::StringSliceAdditionalSpecFns;
use crate::color::{hex_u8_at, is_continuation, parse_hex_u8};
use crate::text::{
    chars_of, is_ws, is_ws_exec, lemma_skip_ws, lemma_word_end, skip_ws, slice_chars, string_of, word_end,
};

verus! {

/// Events wrap to lines of at most this many characters.
pub const EVENT_WRAP: usize = 18;

/// `#rrggbb`: three two-digit hex channels after `#`.
pub open spec fn hex6_spec(b: Seq<u8>) -> Option<(u8, u8, u8)> {
    if b.len() == 7 && b[0] == 0x23 {
        match (
            parse_hex_u8(b.subrange(1, 3)),
            parse_hex_u8(b.subrange(3, 5)),
            parse_hex_u8(b.subrange(5, 7)),
        ) {
            (Some(r), Some(g), Some(bl)) => Some((r, g, bl)),
            _ => None,
        }
    } else {
        None
    }
}

/// Slicing a seven-byte `#…` string into two-byte channels does not cut a
/// character: such a string is not accepted, as slicing the `str` there panics.
pub open spec fn six_digit_slices_ok(b: Seq<u8>) -> bool {
    b.len() == 7 && b[0] == 0x23 ==> !is_continuation(b[3]) && !is_continuation(b[5])
}

/// Parse `#rrggbb` into channel bytes; `None` for any other syntax.
pub fn parse_hex6(color: &str) -> (r: Option<(u8, u8, u8)>)
    requires
        six_digit_slices_ok(color.spec_bytes()),
    ensures
        r == hex6_spec(color.spec_bytes()),
{
    let b = color.as_bytes();
    if b.len() != 7 || b[0] != 0x23 {
        return None;
    }
    let r = hex_u8_at(b, 1, 3);
    let g = hex_u8_at(b, 3, 5);
    let bl = hex_u8_at(b, 5, 7);
    match (r, g, bl) {
        (Some(r), Some(g), Some(bl)) => Some((r, g, bl)),
        _ => None,
    }
}

pub open spec fn or_max(o: Option<u8>) -> u8 {
    match o {
        Some(v) => v,
        None => 255,
    }
}

/// The channels a six-digit `#…` fill is read as for picking a text color:
/// an unparsable channel counts as 255. `None` when `fill` is not `#`
/// followed by six bytes.
pub open spec fn fill_channels_spec(b: Seq<u8>) -> Option<(u8, u8, u8)> {
    if b.len() == 7 && b[0] == 0x23 {
        Some(
            (
                or_max(parse_hex_u8(b.subrange(1, 3))),
                or_max(parse_hex_u8(b.subrange(3, 5))),
                or_max(parse_hex_u8(b.subrange(5, 7))),
            ),
        )
    } else {
        None
    }
}

/// Channels of a `#rrggbb` fill (unparsable channels read as 255).
pub fn fill_channels(fill: &str) -> (r: Option<(u8, u8, u8)>)
    requires
        six_digit_slices_ok(fill.spec_bytes()),
    ensures
        r == fill_channels_spec(fill.spec_bytes()),
{
    let b = fill.as_bytes();
    if b.len() != 7 || b[0] != 0x23 {
        return None;
    }
    let r = match hex_u8_at(b, 1, 3) {
        Some(v) => v,
        None => 255,
    };
    let g = match hex_u8_at(b, 3, 5) {
        Some(v) => v,
        None => 255,
    };
    let bl = match hex_u8_at(b, 5, 7) {
        Some(v) => v,
        None => 255,
    };
    Some((r, g, bl))
}

pub open spec fn vertical_spec(direction: Option<Seq<char>>) -> bool {
    match direction {
        Some(d) => d == seq!['T', 'B'] || d == seq!['T', 'D'] || d == seq!['B', 'T'],
        None => false,
    }
}

/// `direction TB`/`TD`/`BT` render the timeline vertically.
pub fn is_vertical(direction: &Option<String>) -> (r: bool)
    ensures
        r == vertical_spec(
            match direction {
                Some(d) => Some(d@),
                None => None,
            },
        ),
{
    match direction {
        Some(d) => {
            let c = chars_of(d.as_str());
            proof {
                reveal_strlit("TB");
                reveal_strlit("TD");
                reveal_strlit("BT");
                assert("TB"@ =~= seq!['T', 'B']);
                assert("TD"@ =~= seq!['T', 'D']);
                assert("BT"@ =~= seq!['B', 'T']);
            }
            crate::text::eq_str(c.as_slice(), "TB") || crate::text::eq_str(c.as_slice(), "TD")
                || crate::text::eq_str(c.as_slice(), "BT")
        },
        None => false,
    }
}

/// Add one word: it starts the first line, joins the current line when the
/// result stays within [`EVENT_WRAP`] characters, or starts a new line.
pub open spec fn wrap_step(lines: Seq<Seq<char>>, line: Seq<char>, w: Seq<char>) -> (
    Seq<Seq<char>>,
    Seq<char>,
) {
    if line.len() == 0 {
        (lines, w)
    } else if line.len() < EVENT_WRAP && w.len() <= EVENT_WRAP - 1 - line.len() {
        (lines, line + seq![' '] + w)
    } else {
        (lines.push(line), w)
    }
}

pub open spec fn wrap_finish(lines: Seq<Seq<char>>, line: Seq<char>) -> Seq<Seq<char>> {
    let l2 = if line.len() > 0 {
        lines.push(line)
    } else {
        lines
    };
    if l2.len() == 0 {
        seq![seq![]]
    } else {
        l2
    }
}

/// Word-wrap the whitespace-separated words of `s` from position `i`.
pub open spec fn wrap_from(s: Seq<char>, i: int, lines: Seq<Seq<char>>, line: Seq<char>) -> Seq<
    Seq<char>,
>
    decreases s.len() - i,
{
    let j = skip_ws(s, i);
    if i < 0 || j < i || j >= s.len() {
        wrap_finish(lines, line)
    } else {
        let k = word_end(s, j);
        if k <= j || k > s.len() {
            wrap_finish(lines, line)
        } else {
            let st = wrap_step(lines, line, s.subrange(j, k));
            wrap_from(s, k, st.0, st.1)
        }
    }
}

pub open spec fn wrap_spec(s: Seq<char>) -> Seq<Seq<char>> {
    wrap_from(s, 0, seq![], seq![])
}

pub open spec fn lines_view(v: Seq<Vec<char>>) -> Seq<Seq<char>> {
    v.map_values(|l: Vec<char>| l@)
}

pub open spec fn strings_view(v: Seq<String>) -> Seq<Seq<char>> {
    v.map_values(|l: String| l@)
}

/// Word-wrap an event label to lines of at most [`EVENT_WRAP`] characters,
/// breaking on whitespace; a longer single word keeps a line of its own.
pub fn wrap_event(text: &str) -> (r: Vec<String>)
    ensures
        strings_view(r@) == wrap_spec(text@),
{
    let s = chars_of(text);
    let mut lines: Vec<Vec<char>> = Vec::new();
    let mut line: Vec<char> = Vec::new();
    let mut i: usize = 0;
    assert(lines_view(lines@) =~= Seq::<Seq<char>>::empty());
    loop
        invariant
            i <= s.len(),
            s@ == text@,
            wrap_spec(s@) == wrap_from(s@, i as int, lines_view(lines@), line@),
        ensures
            wrap_spec(s@) == wrap_finish(lines_view(lines@), line@),
        decreases s.len() - i,
    {
        proof {
            lemma_skip_ws(s@, i as int);
        }
        let mut j = i;
        while j < s.len() && is_ws_exec(s[j])
            invariant
                i <= j <= s.len(),
                skip_ws(s@, i as int) == skip_ws(s@, j as int),
            decreases s.len() - j,
        {
            j = j + 1;
        }
        if j >= s.len() {
            break ;
        }
        proof {
            lemma_word_end(s@, j as int);
        }
        let mut k = j;
        while k < s.len() && !is_ws_exec(s[k])
            invariant
                j <= k <= s.len(),
                word_end(s@, j as int) == word_end(s@, k as int),
            decreases s.len() - k,
        {
            k = k + 1;
        }
        let w = slice_chars(s.as_slice(), j, k);
        let ghost before_lines = lines_view(lines@);
        let ghost before_line = line@;
        if line.len() == 0 {
            line = w;
        } else if line.len() < EVENT_WRAP && w.len() <= EVENT_WRAP - 1 - line.len() {
            line.push(' ');
            crate::text::extend_chars(&mut line, w.as_slice());
        } else {
            let done = line;
            lines.push(done);
            line = w;
        }
        proof {
            let st = wrap_step(before_lines, before_line, s@.subrange(j as int, k as int));
            assert(lines_view(lines@) =~= st.0);
            assert(line@ =~= st.1);
        }
        i = k;
    }
    let ghost fl = lines_view(lines@);
    let ghost fline = line@;
    if line.len() > 0 {
        lines.push(line);
    }
    if lines.len() == 0 {
        lines.push(Vec::new());
    }
    assert(lines_view(lines@) =~= wrap_finish(fl, fline));
    let mut out: Vec<String> = Vec::new();
    let mut m: usize = 0;
    while m < lines.len()
        invariant
            m <= lines.len(),
            strings_view(out@) == lines_view(lines@).take(m as int),
        decreases lines.len() - m,
    {
        let st = string_of(lines[m].as_slice());
        let ghost prev = out@;
        out.push(st);
        assert(strings_view(out@) =~= strings_view(prev).push(lines@[m as int]@));
        assert(lines_view(lines@).take(m + 1) =~= lines_view(lines@).take(m as int).push(
            lines@[m as int]@,
        ));
        m = m + 1;
        assert(strings_view(out@) =~= lines_view(lines@).take(m as int));
    }
    assert(lines_view(lines@).take(lines.len() as int) =~= lines_view(lines@));
    out
}


/// A wrapped line fits the width, or is a single over-long word.
pub open spec fn line_fits(l: Seq<char>) -> bool {
    l.len() <= EVENT_WRAP || forall|m: int| 0 <= m < l.len() ==> !is_ws(#[trigger] l[m])
}

pub open spec fn lines_ok(lines: Seq<Seq<char>>) -> bool {
    forall|n: int| 0 <= n < lines.len() ==> line_fits(#[trigger] lines[n]) && lines[n].len() > 0
}

proof fn lemma_wrap_from_ok(s: Seq<char>, i: int, lines: Seq<Seq<char>>, line: Seq<char>)
    requires
        0 <= i <= s.len(),
        lines_ok(lines),
        line_fits(line),
    ensures
        wrap_from(s, i, lines, line) == seq![Seq::<char>::empty()] || lines_ok(
            wrap_from(s, i, lines, line),
        ),
        forall|n: int|
            0 <= n < wrap_from(s, i, lines, line).len() ==> line_fits(
                #[trigger] wrap_from(s, i, lines, line)[n],
            ),
    decreases s.len() - i,
{
    lemma_skip_ws(s, i);
    let j = skip_ws(s, i);
    if j >= s.len() {
        let l2 = if line.len() > 0 {
            lines.push(line)
        } else {
            lines
        };
        assert(lines_ok(l2));
        if l2.len() == 0 {
            assert(line_fits(Seq::<char>::empty()));
        }
    } else {
        lemma_word_end(s, j);
        let k = word_end(s, j);
        let w = s.subrange(j, k);
        assert(line_fits(w)) by {
            assert forall|m: int| 0 <= m < w.len() implies !is_ws(#[trigger] w[m]) by {
                assert(w[m] == s[j + m]);
            }
        }
        let st = wrap_step(lines, line, w);
        assert(lines_ok(st.0));
        assert(line_fits(st.1));
        lemma_wrap_from_ok(s, k, st.0, st.1);
    }
}

/// Every wrapped event line is at most [`EVENT_WRAP`] characters long or a
/// single word that is longer; no line is empty unless the event has no
/// words, in which case there is exactly one empty line.
pub proof fn law_wrapped_lines_fit(s: Seq<char>)
    ensures
        forall|n: int| 0 <= n < wrap_spec(s).len() ==> line_fits(#[trigger] wrap_spec(s)[n]),
        wrap_spec(s) == seq![Seq::<char>::empty()] || lines_ok(wrap_spec(s)),
        wrap_spec(s).len() > 0,
{
    lemma_wrap_from_ok(s, 0, seq![], seq![]);
    if wrap_spec(s) != seq![Seq::<char>::empty()] {
        assert(lines_ok(wrap_spec(s)));
    }
    lemma_wrap_nonempty(s, 0, seq![], seq![]);
}

proof fn lemma_wrap_nonempty(s: Seq<char>, i: int, lines: Seq<Seq<char>>, line: Seq<char>)
    ensures
        wrap_from(s, i, lines, line).len() > 0,
    decreases s.len() - i,
{
    let j = skip_ws(s, i);
    if !(i < 0 || j < i || j >= s.len()) {
        let k = word_end(s, j);
        if !(k <= j || k > s.len()) {
            let st = wrap_step(lines, line, s.subrange(j, k));
            lemma_wrap_nonempty(s, k, st.0, st.1);
        }
    }
}


proof fn lemma_digit_byte(d: int, upper: bool)
    requires
        0 <= d < 16,
    ensures
        ({
            let c = if upper {
                crate::color::hex_digit_upper(d)
            } else {
                crate::color::hex_digit_lower(d)
            };
            &&& '\0' <= c <= '\u{7f}'
            &&& crate::color::is_hex_byte(c as u8)
            &&& crate::color::hex_byte_val(c as u8) == d
            &&& c as u8 != 0x2b
        }),
{
}

/// A color written by [`crate::color::format_hex_color`] reads back through
/// [`parse_hex6`] as the same channels.
pub proof fn law_hex_color_round_trip(r: u8, g: u8, b: u8, upper: bool)
    ensures
        six_digit_slices_ok(vstd::utf8::encode_utf8(crate::color::hex_color(r, g, b, upper))),
        hex6_spec(vstd::utf8::encode_utf8(crate::color::hex_color(r, g, b, upper))) == Some(
            (r, g, b),
        ),
{
    let cs = crate::color::hex_color(r, g, b, upper);
    lemma_digit_byte((r / 16) as int, upper);
    lemma_digit_byte((r % 16) as int, upper);
    lemma_digit_byte((g / 16) as int, upper);
    lemma_digit_byte((g % 16) as int, upper);
    lemma_digit_byte((b / 16) as int, upper);
    lemma_digit_byte((b % 16) as int, upper);
    assert(cs.len() == 7);
    assert(vstd::utf8::is_ascii_chars(cs));
    vstd::utf8::is_ascii_chars_encode_utf8(cs);
    let bs = vstd::utf8::encode_utf8(cs);
    assert(bs[0] == cs[0] as u8);
    assert(bs[1] == cs[1] as u8);
    assert(bs[2] == cs[2] as u8);
    assert(bs[3] == cs[3] as u8);
    assert(bs[4] == cs[4] as u8);
    assert(bs[5] == cs[5] as u8);
    assert(bs[6] == cs[6] as u8);
    assert(bs.subrange(1, 3) =~= seq![bs[1], bs[2]]);
    assert(bs.subrange(3, 5) =~= seq![bs[3], bs[4]]);
    assert(bs.subrange(5, 7) =~= seq![bs[5], bs[6]]);
}

/// The whitespace-separated words of `s` from position `i`.
pub open spec fn words_from(s: Seq<char>, i: int) -> Seq<Seq<char>>
    decreases s.len() - i,
{
    let j = skip_ws(s, i);
    if i < 0 || j < i || j >= s.len() {
        seq![]
    } else {
        let k = word_end(s, j);
        if k <= j || k > s.len() {
            seq![]
        } else {
            seq![s.subrange(j, k)] + words_from(s, k)
        }
    }
}

/// Pieces of text joined with single spaces.
pub open spec fn join_spaced(parts: Seq<Seq<char>>) -> Seq<char>
    decreases parts.len(),
{
    if parts.len() == 0 {
        seq![]
    } else if parts.len() == 1 {
        parts[0]
    } else {
        join_spaced(parts.drop_last()) + seq![' '] + parts.last()
    }
}

/// The lines of a wrap in progress: the finished ones and the open one.
pub open spec fn pending(lines: Seq<Seq<char>>, line: Seq<char>) -> Seq<Seq<char>> {
    if line.len() > 0 {
        lines.push(line)
    } else {
        lines
    }
}

proof fn lemma_join_concat(a: Seq<Seq<char>>, b: Seq<Seq<char>>)
    ensures
        join_spaced(a + b) == if a.len() == 0 {
            join_spaced(b)
        } else if b.len() == 0 {
            join_spaced(a)
        } else {
            join_spaced(a) + seq![' '] + join_spaced(b)
        },
    decreases b.len(),
{
    if a.len() == 0 {
        assert(a + b =~= b);
    } else if b.len() == 0 {
        assert(a + b =~= a);
    } else if b.len() == 1 {
        assert((a + b).drop_last() =~= a);
        assert((a + b).last() == b[0]);
    } else {
        lemma_join_concat(a, b.drop_last());
        assert((a + b).drop_last() =~= a + b.drop_last());
        assert((a + b).last() == b.last());
    }
}

proof fn lemma_join_words(s: Seq<char>, i: int, lines: Seq<Seq<char>>, line: Seq<char>)
    requires
        0 <= i <= s.len(),
        line.len() == 0 ==> lines.len() == 0,
    ensures
        join_spaced(wrap_from(s, i, lines, line)) == join_spaced(pending(lines, line) + words_from(s, i)),
    decreases s.len() - i,
{
    lemma_skip_ws(s, i);
    let j = skip_ws(s, i);
    if j >= s.len() {
        assert(pending(lines, line) + words_from(s, i) =~= pending(lines, line));
        if pending(lines, line).len() == 0 {
            assert(wrap_finish(lines, line) == seq![Seq::<char>::empty()]);
        }
    } else {
        lemma_word_end(s, j);
        let k = word_end(s, j);
        let w = s.subrange(j, k);
        let st = wrap_step(lines, line, w);
        lemma_join_words(s, k, st.0, st.1);
        let rest = words_from(s, k);
        assert(words_from(s, i) == seq![w] + rest);
        let p = pending(lines, line);
        assert(p + words_from(s, i) =~= p.push(w) + rest);
        let q = pending(st.0, st.1);
        // The open line after the step spells the same text as `p` plus `w`.
        assert(join_spaced(q) == join_spaced(p.push(w))) by {
            if line.len() == 0 {
                assert(q =~= seq![w]);
                assert(p.push(w) =~= seq![w]);
            } else if line.len() < EVENT_WRAP && w.len() <= EVENT_WRAP - 1 - line.len() {
                let joined = line + seq![' '] + w;
                assert(q == lines.push(joined));
                assert(lines.push(joined).drop_last() =~= lines);
                assert(lines.push(line).push(w).drop_last() =~= lines.push(line));
                assert(lines.push(line).drop_last() =~= lines);
                assert(join_spaced(lines.push(line).push(w)) == join_spaced(lines.push(line)) + seq![' ']
                    + w);
                if lines.len() == 0 {
                    assert(join_spaced(lines.push(joined)) == joined);
                    assert(join_spaced(lines.push(line)) == line);
                } else {
                    assert(join_spaced(lines.push(joined)) == join_spaced(lines) + seq![' '] + joined);
                    assert(join_spaced(lines.push(line)) == join_spaced(lines) + seq![' '] + line);
                }
                assert(join_spaced(lines.push(joined)) =~= join_spaced(lines.push(line).push(w)));
            } else {
                assert(q =~= p.push(w));
            }
        }
        lemma_join_concat(q, rest);
        lemma_join_concat(p.push(w), rest);
    }
}

/// Wrapping only turns some of the single spaces between words into line
/// breaks: no word is dropped, cut or reordered. Joining the lines with
/// spaces gives the words of the event joined with spaces.
pub proof fn law_wrap_keeps_every_word(s: Seq<char>)
    ensures
        join_spaced(wrap_spec(s)) == join_spaced(words_from(s, 0)),
{
    lemma_join_words(s, 0, seq![], seq![]);
    assert(pending(seq![], seq![]) + words_from(s, 0) =~= words_from(s, 0));
}

} // verus!
