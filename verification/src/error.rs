//! The error a render can fail with.

use vstd::prelude::*;
use crate::text::{chars_of, extend_chars, string_of};

verus! {

/// A failure to parse diagram source, carrying the parser's message.
#[derive(Clone, Debug)]
pub struct ParseError {
    pub message: String,
}

/// Why a render failed.
#[derive(Debug)]
#[non_exhaustive]
pub enum RenderError {
    Parse(ParseError),
}

impl From<ParseError> for RenderError {
    fn from(e: ParseError) -> (r: RenderError) {
        RenderError::Parse(e)
    }
}

impl vstd::std_specs::convert::FromSpecImpl<ParseError> for RenderError {
    open spec fn obeys_from_spec() -> bool {
        true
    }

    open spec fn from_spec(e: ParseError) -> RenderError {
        RenderError::Parse(e)
    }
}

impl RenderError {
    /// The error's display text: `parse error: <message>`.
    pub fn message(&self) -> (r: String)
        ensures
            r@ == match self {
                RenderError::Parse(e) => "parse error: "@ + e.message@,
            },
    {
        match self {
            RenderError::Parse(e) => {
                let mut out = chars_of("parse error: ");
                extend_chars(&mut out, chars_of(e.message.as_str()).as_slice());
                string_of(out.as_slice())
            },
        }
    }
}

} // verus!
