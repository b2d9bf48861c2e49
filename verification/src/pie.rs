//! Pie chart helpers: legend placement and legend-label truncation.

use vstd::prelude::*;
use crate::text::{chars_of, eq_str, lower_chars, lower_seq, slice_chars, string_of, trim, trim_chars};

verus! {

/// Where the legend sits relative to the pie (`config.pie.legendPosition`).
#[derive(Clone, Copy, PartialEq, Eq, Debug, Structural)]
pub enum LegendPos {
    Right,
    Left,
    Top,
    Bottom,
}

pub open spec fn legend_pos_spec(s: Option<Seq<char>>) -> LegendPos {
    match s {
        Some(v) => {
            let k = lower_seq(trim(v));
            if k == seq!['l', 'e', 'f', 't'] {
                LegendPos::Left
            } else if k == seq!['t', 'o', 'p'] {
                LegendPos::Top
            } else if k == seq!['b', 'o', 't', 't', 'o', 'm'] {
                LegendPos::Bottom
            } else {
                LegendPos::Right
            }
        },
        None => LegendPos::Right,
    }
}

impl LegendPos {
    /// Parse a legend position (trimmed, ASCII case-insensitive); anything
    /// unrecognized (or nothing) places the legend on the right.
    pub fn parse(s: Option<&str>) -> (r: LegendPos)
        ensures
            r == legend_pos_spec(
                match s {
                    Some(v) => Some(v@),
                    None => None,
                },
            ),
    {
        match s {
            Some(v) => {
                let c = chars_of(v);
                let t = trim_chars(c.as_slice());
                let k = lower_chars(t.as_slice());
                proof {
                    reveal_strlit("left");
                    reveal_strlit("top");
                    reveal_strlit("bottom");
                    assert("left"@ =~= seq!['l', 'e', 'f', 't']);
                    assert("top"@ =~= seq!['t', 'o', 'p']);
                    assert("bottom"@ =~= seq!['b', 'o', 't', 't', 'o', 'm']);
                }
                if eq_str(k.as_slice(), "left") {
                    LegendPos::Left
                } else if eq_str(k.as_slice(), "top") {
                    LegendPos::Top
                } else if eq_str(k.as_slice(), "bottom") {
                    LegendPos::Bottom
                } else {
                    LegendPos::Right
                }
            },
            None => LegendPos::Right,
        }
    }
}

/// Length of a label in characters.
pub fn label_len(s: &str) -> (r: usize)
    ensures
        r == s@.len(),
{
    chars_of(s).len()
}

/// A label cut to at most `n` characters: longer labels keep their first
/// `n - 1` characters followed by an ellipsis.
pub open spec fn truncate_spec(s: Seq<char>, n: int) -> Seq<char> {
    if s.len() <= n {
        s
    } else {
        s.take(if n >= 1 {
            n - 1
        } else {
            0
        }) + seq!['…']
    }
}

/// Truncate a label to `n` characters (see [`truncate_spec`]).
pub fn truncate(s: &str, n: usize) -> (r: String)
    ensures
        r@ == truncate_spec(s@, n as int),
{
    let chars = chars_of(s);
    if chars.len() <= n {
        string_of(chars.as_slice())
    } else {
        let keep = if n >= 1 {
            n - 1
        } else {
            0
        };
        let mut out = slice_chars(chars.as_slice(), 0, keep);
        out.push('…');
        assert(out@ =~= truncate_spec(s@, n as int));
        string_of(out.as_slice())
    }
}

} // verus!
