//! Sequence diagram helpers: message stroke styles, participant glyphs,
//! participant label lines and autonumber labels.

use vstd::prelude::*;
use crate::text::{
    chars_of, decimal, extend_chars, find, find_from, lemma_find_bounds, push_decimal,
    slice_chars, string_of, trim, trim_chars,
};

verus! {

/// The arrow of a message.
#[derive(Clone, Copy, PartialEq, Eq, Debug, Structural)]
pub enum ArrowKind {
    Solid,
    SolidArrow,
    Dashed,
    DashedArrow,
    Cross,
    DashedCross,
    Open,
    DashedOpen,
    BiSolidArrow,
    BiDashedArrow,
    HalfArrowTop,
    HalfArrowBottom,
    DashedHalfArrowTop,
    DashedHalfArrowBottom,
    HalfArrowStartTop,
    HalfArrowStartBottom,
    DashedHalfArrowStartTop,
    DashedHalfArrowStartBottom,
}

pub open spec fn opt_lit(o: Option<&str>) -> Option<Seq<char>> {
    match o {
        Some(s) => Some(s@),
        None => None,
    }
}

/// `(dash pattern, start marker, end marker)` of an arrow kind.
pub open spec fn stroke_spec(a: ArrowKind) -> (Seq<char>, Option<Seq<char>>, Option<Seq<char>>) {
    let dash = "6 4"@;
    let solid = ""@;
    let filled = Some("arrow-filled"@);
    let cross = Some("arrow-cross"@);
    let open = Some("arrow-open"@);
    let top = Some("arrow-half-top"@);
    let bottom = Some("arrow-half-bottom"@);
    match a {
        ArrowKind::Solid => (solid, None, None),
        ArrowKind::SolidArrow => (solid, None, filled),
        ArrowKind::Dashed => (dash, None, None),
        ArrowKind::DashedArrow => (dash, None, filled),
        ArrowKind::Cross => (solid, None, cross),
        ArrowKind::DashedCross => (dash, None, cross),
        ArrowKind::Open => (solid, None, open),
        ArrowKind::DashedOpen => (dash, None, open),
        ArrowKind::BiSolidArrow => (solid, filled, filled),
        ArrowKind::BiDashedArrow => (dash, filled, filled),
        ArrowKind::HalfArrowTop => (solid, None, top),
        ArrowKind::HalfArrowBottom => (solid, None, bottom),
        ArrowKind::DashedHalfArrowTop => (dash, None, top),
        ArrowKind::DashedHalfArrowBottom => (dash, None, bottom),
        ArrowKind::HalfArrowStartTop => (solid, top, None),
        ArrowKind::HalfArrowStartBottom => (solid, bottom, None),
        ArrowKind::DashedHalfArrowStartTop => (dash, top, None),
        ArrowKind::DashedHalfArrowStartBottom => (dash, bottom, None),
    }
}

/// Dash pattern and start/end marker ids of a message arrow.
pub fn stroke_for(a: ArrowKind) -> (r: (&'static str, Option<&'static str>, Option<&'static str>))
    ensures
        (r.0@, opt_lit(r.1), opt_lit(r.2)) == stroke_spec(a),
{
    match a {
        ArrowKind::Solid => ("", None, None),
        ArrowKind::SolidArrow => ("", None, Some("arrow-filled")),
        ArrowKind::Dashed => ("6 4", None, None),
        ArrowKind::DashedArrow => ("6 4", None, Some("arrow-filled")),
        ArrowKind::Cross => ("", None, Some("arrow-cross")),
        ArrowKind::DashedCross => ("6 4", None, Some("arrow-cross")),
        ArrowKind::Open => ("", None, Some("arrow-open")),
        ArrowKind::DashedOpen => ("6 4", None, Some("arrow-open")),
        ArrowKind::BiSolidArrow => ("", Some("arrow-filled"), Some("arrow-filled")),
        ArrowKind::BiDashedArrow => ("6 4", Some("arrow-filled"), Some("arrow-filled")),
        ArrowKind::HalfArrowTop => ("", None, Some("arrow-half-top")),
        ArrowKind::HalfArrowBottom => ("", None, Some("arrow-half-bottom")),
        ArrowKind::DashedHalfArrowTop => ("6 4", None, Some("arrow-half-top")),
        ArrowKind::DashedHalfArrowBottom => ("6 4", None, Some("arrow-half-bottom")),
        ArrowKind::HalfArrowStartTop => ("", Some("arrow-half-top"), None),
        ArrowKind::HalfArrowStartBottom => ("", Some("arrow-half-bottom"), None),
        ArrowKind::DashedHalfArrowStartTop => ("6 4", Some("arrow-half-top"), None),
        ArrowKind::DashedHalfArrowStartBottom => ("6 4", Some("arrow-half-bottom"), None),
    }
}

/// The kind of a sequence participant.
#[derive(Clone, Copy, PartialEq, Eq, Debug, Structural)]
pub enum ParticipantKind {
    Participant,
    Actor,
    Boundary,
    Control,
    Entity,
    Database,
}

/// The UML robustness / persistence stereotype glyphs.
#[derive(Clone, Copy, PartialEq, Eq, Debug, Structural)]
pub enum Glyph {
    Boundary,
    Control,
    Entity,
    Database,
}

pub open spec fn glyph_spec(kind: ParticipantKind) -> Option<Glyph> {
    match kind {
        ParticipantKind::Boundary => Some(Glyph::Boundary),
        ParticipantKind::Control => Some(Glyph::Control),
        ParticipantKind::Entity => Some(Glyph::Entity),
        ParticipantKind::Database => Some(Glyph::Database),
        _ => None,
    }
}

impl Glyph {
    /// The stereotype glyph for a participant kind, or `None` for a plain
    /// participant or stick-figure actor.
    pub fn from_kind(kind: ParticipantKind) -> (r: Option<Glyph>)
        ensures
            r == glyph_spec(kind),
    {
        match kind {
            ParticipantKind::Boundary => Some(Glyph::Boundary),
            ParticipantKind::Control => Some(Glyph::Control),
            ParticipantKind::Entity => Some(Glyph::Entity),
            ParticipantKind::Database => Some(Glyph::Database),
            _ => None,
        }
    }
}

/// Every occurrence of `pat` (non-empty) replaced by a newline.
pub open spec fn replace_nl(s: Seq<char>, pat: Seq<char>) -> Seq<char>
    decreases s.len(),
{
    if pat.len() == 0 {
        s
    } else {
        match find(s, pat) {
            Some(k) => if 0 <= k && k + pat.len() <= s.len() {
                s.take(k) + seq!['\n'] + replace_nl(s.skip(k + pat.len()), pat)
            } else {
                s
            },
            None => s,
        }
    }
}

/// Pieces of `s` between newlines.
pub open spec fn split_nl(s: Seq<char>) -> Seq<Seq<char>>
    decreases s.len(),
{
    match find(s, seq!['\n']) {
        Some(k) => if 0 <= k < s.len() {
            seq![s.take(k)] + split_nl(s.skip(k + 1))
        } else {
            seq![s]
        },
        None => seq![s],
    }
}

/// `<br/>`, `<br />`, `<br>` and a literal `\n` each break the label.
pub open spec fn normalize_breaks(s: Seq<char>) -> Seq<char> {
    replace_nl(replace_nl(replace_nl(replace_nl(s, "<br/>"@), "<br />"@), "<br>"@), "\\n"@)
}

/// The trimmed lines of a participant label.
pub open spec fn label_lines_spec(s: Seq<char>) -> Seq<Seq<char>> {
    split_nl(normalize_breaks(s)).map_values(|l: Seq<char>| trim(l))
}

fn replace_with_nl(s: &[char], pat: &[char]) -> (r: Vec<char>)
    requires
        pat.len() > 0,
    ensures
        r@ == replace_nl(s@, pat@),
{
    let mut out: Vec<char> = Vec::new();
    let mut i: usize = 0;
    assert(s@.skip(0) =~= s@);
    loop
        invariant
            i <= s.len(),
            pat.len() > 0,
            replace_nl(s@, pat@) == out@ + replace_nl(s@.skip(i as int), pat@),
        decreases s.len() - i,
    {
        proof {
            lemma_find_bounds(s@.skip(i as int), pat@);
        }
        match find_from(s, i, pat) {
            None => {
                let tail = slice_chars(s, i, s.len());
                assert(tail@ =~= s@.skip(i as int));
                extend_chars(&mut out, tail.as_slice());
                return out;
            },
            Some(k) => {
                let head = slice_chars(s, i, k);
                assert(head@ =~= s@.skip(i as int).take(k - i));
                extend_chars(&mut out, head.as_slice());
                out.push('\n');
                assert(s@.skip(i as int).skip(k - i + pat.len()) =~= s@.skip(k + pat.len()));
                assert(out@ + replace_nl(s@.skip(k + pat.len()), pat@) =~= old_out_plus(
                    out@,
                    s@.skip(k + pat.len()),
                    pat@,
                ));
                i = k + pat.len();
            },
        }
    }
}

spec fn old_out_plus(o: Seq<char>, rest: Seq<char>, pat: Seq<char>) -> Seq<char> {
    o + replace_nl(rest, pat)
}

fn split_lines(s: &[char]) -> (r: Vec<Vec<char>>)
    ensures
        r@.map_values(|l: Vec<char>| l@) == split_nl(s@),
{
    let mut out: Vec<Vec<char>> = Vec::new();
    let mut i: usize = 0;
    let mut nl: Vec<char> = Vec::new();
    nl.push('\n');
    assert(nl@ =~= seq!['\n']);
    assert(s@.skip(0) =~= s@);
    assert(out@.map_values(|l: Vec<char>| l@) =~= Seq::<Seq<char>>::empty());
    loop
        invariant
            i <= s.len(),
            nl@ == seq!['\n'],
            split_nl(s@) == out@.map_values(|l: Vec<char>| l@) + split_nl(s@.skip(i as int)),
        decreases s.len() - i,
    {
        proof {
            lemma_find_bounds(s@.skip(i as int), seq!['\n']);
        }
        let ghost prev = out@.map_values(|l: Vec<char>| l@);
        match find_from(s, i, nl.as_slice()) {
            None => {
                let tail = slice_chars(s, i, s.len());
                assert(tail@ =~= s@.skip(i as int));
                out.push(tail);
                assert(out@.map_values(|l: Vec<char>| l@) =~= prev.push(s@.skip(i as int)));
                return out;
            },
            Some(k) => {
                let head = slice_chars(s, i, k);
                assert(head@ =~= s@.skip(i as int).take(k - i));
                out.push(head);
                assert(out@.map_values(|l: Vec<char>| l@) =~= prev.push(head@));
                assert(s@.skip(i as int).skip(k - i + 1) =~= s@.skip(k + 1));
                i = k + 1;
            },
        }
    }
}

/// Split a participant label into trimmed lines at `<br>` variants and
/// literal `\n` escapes.
pub fn label_lines(label: &str) -> (r: Vec<String>)
    ensures
        r@.map_values(|l: String| l@) == label_lines_spec(label@),
{
    let s0 = chars_of(label);
    proof {
        reveal_strlit("<br/>");
        reveal_strlit("<br />");
        reveal_strlit("<br>");
        reveal_strlit("\\n");
    }
    let s1 = replace_with_nl(s0.as_slice(), chars_of("<br/>").as_slice());
    let s2 = replace_with_nl(s1.as_slice(), chars_of("<br />").as_slice());
    let s3 = replace_with_nl(s2.as_slice(), chars_of("<br>").as_slice());
    let s4 = replace_with_nl(s3.as_slice(), chars_of("\\n").as_slice());
    let pieces = split_lines(s4.as_slice());
    let ghost pv = pieces@.map_values(|l: Vec<char>| l@);
    let mut out: Vec<String> = Vec::new();
    let mut m: usize = 0;
    while m < pieces.len()
        invariant
            m <= pieces.len(),
            pv == pieces@.map_values(|l: Vec<char>| l@),
            pv == split_nl(normalize_breaks(label@)),
            out@.map_values(|l: String| l@) == pv.take(m as int).map_values(
                |l: Seq<char>| trim(l),
            ),
        decreases pieces.len() - m,
    {
        let t = trim_chars(pieces[m].as_slice());
        let st = string_of(t.as_slice());
        let ghost prev = out@;
        out.push(st);
        assert(out@.map_values(|l: String| l@) =~= prev.map_values(|l: String| l@).push(
            trim(pv[m as int]),
        ));
        assert(pv.take(m + 1).map_values(|l: Seq<char>| trim(l)) =~= pv.take(m as int).map_values(
            |l: Seq<char>| trim(l),
        ).push(trim(pv[m as int])));
        m = m + 1;
    }
    assert(pv.take(pieces.len() as int) =~= pv);
    out
}

/// Dot-joined decimal renderings of `v`.
pub open spec fn dotted(v: Seq<u32>) -> Seq<char>
    decreases v.len(),
{
    if v.len() == 0 {
        seq![]
    } else if v.len() == 1 {
        decimal(v[0] as nat)
    } else {
        dotted(v.drop_last()) + seq!['.'] + decimal(v.last() as nat)
    }
}

/// Advance the innermost autonumber counter and render the whole counter
/// stack dot-joined (`1.2.3`).
pub fn bump(stack: &mut Vec<u32>) -> (r: String)
    requires
        old(stack).len() > 0 ==> old(stack)@.last() < u32::MAX,
    ensures
        final(stack)@ == if old(stack).len() > 0 {
            old(stack)@.update(old(stack).len() - 1, (old(stack)@.last() + 1) as u32)
        } else {
            old(stack)@
        },
        r@ == dotted(final(stack)@),
{
    let n = stack.len();
    if n > 0 {
        let v = stack[n - 1];
        stack.set(n - 1, v + 1);
    }
    let mut out: Vec<char> = Vec::new();
    let mut i: usize = 0;
    while i < stack.len()
        invariant
            i <= stack.len(),
            out@ == dotted(stack@.take(i as int)),
        decreases stack.len() - i,
    {
        if i > 0 {
            out.push('.');
        }
        push_decimal(&mut out, stack[i]);
        i = i + 1;
        assert(stack@.take(i as int).drop_last() =~= stack@.take(i - 1));
    }
    assert(stack@.take(stack.len() as int) =~= stack@);
    string_of(out.as_slice())
}

/// Each solid arrow and its dashed counterpart carry the same markers and
/// differ only in the line: solid arrows have no dash pattern, dashed ones
/// the `6 4` pattern.
pub proof fn law_dashed_counterparts(solid: ArrowKind, dashed: ArrowKind)
    requires
        (solid, dashed) == (ArrowKind::Solid, ArrowKind::Dashed) || (solid, dashed) == (
            ArrowKind::SolidArrow,
            ArrowKind::DashedArrow,
        ) || (solid, dashed) == (ArrowKind::Cross, ArrowKind::DashedCross) || (solid, dashed) == (
            ArrowKind::Open,
            ArrowKind::DashedOpen,
        ) || (solid, dashed) == (ArrowKind::BiSolidArrow, ArrowKind::BiDashedArrow) || (
            solid,
            dashed,
        ) == (ArrowKind::HalfArrowTop, ArrowKind::DashedHalfArrowTop) || (solid, dashed) == (
            ArrowKind::HalfArrowBottom,
            ArrowKind::DashedHalfArrowBottom,
        ) || (solid, dashed) == (ArrowKind::HalfArrowStartTop, ArrowKind::DashedHalfArrowStartTop)
            || (solid, dashed) == (
            ArrowKind::HalfArrowStartBottom,
            ArrowKind::DashedHalfArrowStartBottom,
        ),
    ensures
        stroke_spec(solid).1 == stroke_spec(dashed).1,
        stroke_spec(solid).2 == stroke_spec(dashed).2,
        stroke_spec(solid).0 == Seq::<char>::empty(),
        stroke_spec(dashed).0 == seq!['6', ' ', '4'],
{
    reveal_strlit("");
    reveal_strlit("6 4");
}

/// Which ends carry which marker: the `…Arrow` kinds end in a filled
/// arrowhead (the two-headed ones start in one too), crosses end in a cross,
/// open arrows in an open head, half arrows in the half head of their side
/// (at the end, or at the start for the `…Start…` kinds), and plain lines
/// have no markers.
pub proof fn law_arrow_markers(a: ArrowKind)
    ensures
        (a == ArrowKind::SolidArrow || a == ArrowKind::DashedArrow || a == ArrowKind::BiSolidArrow
            || a == ArrowKind::BiDashedArrow) ==> stroke_spec(a).2 == Some("arrow-filled"@),
        (a == ArrowKind::BiSolidArrow || a == ArrowKind::BiDashedArrow) ==> stroke_spec(a).1 == Some(
            "arrow-filled"@,
        ),
        (a == ArrowKind::Cross || a == ArrowKind::DashedCross) ==> stroke_spec(a).2 == Some(
            "arrow-cross"@,
        ),
        (a == ArrowKind::Open || a == ArrowKind::DashedOpen) ==> stroke_spec(a).2 == Some(
            "arrow-open"@,
        ),
        (a == ArrowKind::HalfArrowTop || a == ArrowKind::DashedHalfArrowTop) ==> stroke_spec(a).2
            == Some("arrow-half-top"@) && stroke_spec(a).1 is None,
        (a == ArrowKind::HalfArrowBottom || a == ArrowKind::DashedHalfArrowBottom) ==> stroke_spec(
            a,
        ).2 == Some("arrow-half-bottom"@) && stroke_spec(a).1 is None,
        (a == ArrowKind::HalfArrowStartTop || a == ArrowKind::DashedHalfArrowStartTop)
            ==> stroke_spec(a).1 == Some("arrow-half-top"@) && stroke_spec(a).2 is None,
        (a == ArrowKind::HalfArrowStartBottom || a == ArrowKind::DashedHalfArrowStartBottom)
            ==> stroke_spec(a).1 == Some("arrow-half-bottom"@) && stroke_spec(a).2 is None,
        (a == ArrowKind::Solid || a == ArrowKind::Dashed) ==> stroke_spec(a).1 is None
            && stroke_spec(a).2 is None,
        !(a == ArrowKind::BiSolidArrow || a == ArrowKind::BiDashedArrow || a
            == ArrowKind::HalfArrowStartTop || a == ArrowKind::HalfArrowStartBottom || a
            == ArrowKind::DashedHalfArrowStartTop || a == ArrowKind::DashedHalfArrowStartBottom)
            ==> stroke_spec(a).1 is None,
{
}

/// The four stereotype participants draw the glyph of the same name; plain
/// participants and actors draw none.
pub proof fn law_glyph_matches_stereotype(kind: ParticipantKind)
    ensures
        kind == ParticipantKind::Boundary <==> glyph_spec(kind) == Some(Glyph::Boundary),
        kind == ParticipantKind::Control <==> glyph_spec(kind) == Some(Glyph::Control),
        kind == ParticipantKind::Entity <==> glyph_spec(kind) == Some(Glyph::Entity),
        kind == ParticipantKind::Database <==> glyph_spec(kind) == Some(Glyph::Database),
        (kind == ParticipantKind::Participant || kind == ParticipantKind::Actor) <==> glyph_spec(
            kind,
        ) is None,
{
}

} // verus!
