//! Requirement diagram helpers: the `<<…>>` header of a requirement box and
//! the title-cased display of enum-valued fields.

use vstd::prelude::*;
use crate::text::{chars_of, extend_chars, slice_chars, string_of, upper};

verus! {

/// The kind of a requirement box.
#[derive(Clone, Copy, PartialEq, Eq, Debug, Structural)]
pub enum RequirementKind {
    Requirement,
    Functional,
    Interface,
    Performance,
    Physical,
    DesignConstraint,
}

pub open spec fn requirement_title_spec(kind: RequirementKind) -> Seq<char> {
    match kind {
        RequirementKind::Requirement => "Requirement"@,
        RequirementKind::Functional => "Functional Requirement"@,
        RequirementKind::Interface => "Interface Requirement"@,
        RequirementKind::Performance => "Performance Requirement"@,
        RequirementKind::Physical => "Physical Requirement"@,
        RequirementKind::DesignConstraint => "Design Constraint"@,
    }
}

/// Title-cased type name shown inside the `<<…>>` header.
pub fn requirement_title(kind: RequirementKind) -> (r: &'static str)
    ensures
        r@ == requirement_title_spec(kind),
{
    match kind {
        RequirementKind::Requirement => "Requirement",
        RequirementKind::Functional => "Functional Requirement",
        RequirementKind::Interface => "Interface Requirement",
        RequirementKind::Performance => "Performance Requirement",
        RequirementKind::Physical => "Physical Requirement",
        RequirementKind::DesignConstraint => "Design Constraint",
    }
}

/// `#lt;#lt;inner#gt;#gt;`: the stereotype in guillemet form, the angle
/// brackets written as entity codes so the tag scanner leaves them alone.
pub open spec fn angle_wrap_spec(inner: Seq<char>) -> Seq<char> {
    "#lt;#lt;"@ + inner + "#gt;#gt;"@
}

/// Wrap a stereotype in the `<<…>>` guillemet form (see [`angle_wrap_spec`]).
pub fn angle_wrap(inner: &str) -> (r: String)
    ensures
        r@ == angle_wrap_spec(inner@),
{
    let mut out = chars_of("#lt;#lt;");
    extend_chars(&mut out, chars_of(inner).as_slice());
    extend_chars(&mut out, chars_of("#gt;#gt;").as_slice());
    string_of(out.as_slice())
}

/// What `char::to_uppercase` yields for a character (Unicode default case
/// conversion; possibly several characters).
pub uninterp spec fn char_uppercase(c: char) -> Seq<char>;

/// `char::to_uppercase`, collected into a `String`. Claims: the result is
/// the character's Unicode uppercase mapping, and for an ASCII character it
/// is the single ASCII uppercase form (letters `a`..=`z` shift, everything
/// else is unchanged), as the standard library documents for ASCII.
#[verifier::external_body]
fn to_uppercase_string(c: char) -> (r: String)
    ensures
        r@ == char_uppercase(c),
        (c as u32) < 0x80 ==> r@ == seq![upper(c)],
{
    c.to_uppercase().collect()
}

/// The first character upper-cased (Unicode), the rest unchanged.
pub open spec fn title_value_spec(s: Seq<char>) -> Seq<char> {
    if s.len() == 0 {
        s
    } else {
        char_uppercase(s[0]) + s.drop_first()
    }
}

/// Title-case the leading letter of an enum-valued field (`high` → `High`).
pub fn title_value(s: &str) -> (r: String)
    ensures
        r@ == title_value_spec(s@),
{
    let c = chars_of(s);
    if c.len() == 0 {
        return String::new();
    }
    let first = to_uppercase_string(c[0]);
    let mut out = chars_of(first.as_str());
    let rest = slice_chars(c.as_slice(), 1, c.len());
    extend_chars(&mut out, rest.as_slice());
    assert(rest@ =~= s@.drop_first());
    string_of(out.as_slice())
}

/// The header of a requirement subtype is the subtype's name followed by
/// the plain requirement title: `Functional`, `Interface`, `Performance` and
/// `Physical` each read `<name> Requirement`; the design constraint reads
/// `Design Constraint`.
pub proof fn law_requirement_titles(kind: RequirementKind)
    ensures
        requirement_title_spec(RequirementKind::Requirement) == "Requirement"@,
        kind == RequirementKind::Functional ==> requirement_title_spec(kind) == "Functional"@ + " "@
            + requirement_title_spec(RequirementKind::Requirement),
        kind == RequirementKind::Interface ==> requirement_title_spec(kind) == "Interface"@ + " "@
            + requirement_title_spec(RequirementKind::Requirement),
        kind == RequirementKind::Performance ==> requirement_title_spec(kind) == "Performance"@
            + " "@ + requirement_title_spec(RequirementKind::Requirement),
        kind == RequirementKind::Physical ==> requirement_title_spec(kind) == "Physical"@ + " "@
            + requirement_title_spec(RequirementKind::Requirement),
        kind == RequirementKind::DesignConstraint ==> requirement_title_spec(kind) == "Design"@
            + " "@ + "Constraint"@,
{
    reveal_strlit("Requirement");
    reveal_strlit(" ");
    reveal_strlit("Functional");
    reveal_strlit("Interface");
    reveal_strlit("Performance");
    reveal_strlit("Physical");
    reveal_strlit("Design");
    reveal_strlit("Constraint");
    reveal_strlit("Functional Requirement");
    reveal_strlit("Interface Requirement");
    reveal_strlit("Performance Requirement");
    reveal_strlit("Physical Requirement");
    reveal_strlit("Design Constraint");
    assert("Functional Requirement"@ =~= "Functional"@ + " "@ + "Requirement"@);
    assert("Interface Requirement"@ =~= "Interface"@ + " "@ + "Requirement"@);
    assert("Performance Requirement"@ =~= "Performance"@ + " "@ + "Requirement"@);
    assert("Physical Requirement"@ =~= "Physical"@ + " "@ + "Requirement"@);
    assert("Design Constraint"@ =~= "Design"@ + " "@ + "Constraint"@);
}

} // verus!
