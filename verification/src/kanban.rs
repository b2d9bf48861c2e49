//! Kanban helpers: the border color of a ticket's priority.

use vstd::prelude::*;
use crate::text::{chars_of, eq_ignore_case, eq_ignore_case_exec, trim, trim_chars};

verus! {

/// The border color for a ticket priority (trimmed, compared ASCII
/// case-insensitively); unknown or absent priorities get none.
pub open spec fn priority_color_spec(p: Option<Seq<char>>) -> Option<Seq<char>> {
    match p {
        Some(v) => {
            let t = trim(v);
            if eq_ignore_case(t, "Very High"@) {
                Some("#ff0000"@)
            } else if eq_ignore_case(t, "High"@) {
                Some("#ff8800"@)
            } else if eq_ignore_case(t, "Low"@) {
                Some("#00b0f0"@)
            } else if eq_ignore_case(t, "Very Low"@) {
                Some("#8fd6ff"@)
            } else {
                None
            }
        },
        None => None,
    }
}

/// Border color of a ticket priority (see [`priority_color_spec`]).
pub fn priority_color(priority: Option<&str>) -> (r: Option<&'static str>)
    ensures
        match r {
            Some(c) => priority_color_spec(
                match priority {
                    Some(v) => Some(v@),
                    None => None,
                },
            ) == Some(c@),
            None => priority_color_spec(
                match priority {
                    Some(v) => Some(v@),
                    None => None,
                },
            ) is None,
        },
{
    match priority {
        Some(p) => {
            let t = trim_chars(chars_of(p).as_slice());
            if eq_ignore_case_exec(t.as_slice(), chars_of("Very High").as_slice()) {
                Some("#ff0000")
            } else if eq_ignore_case_exec(t.as_slice(), chars_of("High").as_slice()) {
                Some("#ff8800")
            } else if eq_ignore_case_exec(t.as_slice(), chars_of("Low").as_slice()) {
                Some("#00b0f0")
            } else if eq_ignore_case_exec(t.as_slice(), chars_of("Very Low").as_slice()) {
                Some("#8fd6ff")
            } else {
                None
            }
        },
        None => None,
    }
}

} // verus!
