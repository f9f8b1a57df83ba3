//! Pattern-based rewrites of citation and title text.
use vstd::prelude::*;
use regex::Regex;

verus! {

/// A number, white space, and a lower-case `a` glued to a capitalised
/// abbreviation: `43 aCP`.
pub const DIGIT_GLUED_ABBREV: &'static str = r"(\d+)\s+a([A-ZÄÖÜ][A-ZÄÖÜa-zäöüß]{1,})\b";

/// Its repair: `43 a CP`.
pub const DIGIT_GLUED_REPAIR: &'static str = "${1} a ${2}";

/// White space and a lower-case `a` glued to a capitalised abbreviation:
/// ` aBauR`.
pub const SPACE_GLUED_ABBREV: &'static str = r"(\s)a([A-ZÄÖÜ][A-ZÄÖÜa-zäöüß]{1,})\b";

/// Its repair: ` a BauR`, the white space kept. The group numbers stand in
/// braces: `$1a` would name a group `1a`.
pub const SPACE_GLUED_REPAIR: &'static str = "${1}a ${2}";

/// A footnote number glued to the last word of a title: `administration3`.
pub const FOOTNOTE_NUMBER: &'static str = r"([a-zàâäéèêëïîôùûüÿœæç])\d+$";

/// The footnote number dropped.
pub const FOOTNOTE_REPAIR: &'static str = "$1";

/// A parenthetical aside: `(PA)`, `(SR 123.45)`.
pub const PAREN_ASIDE: &'static str = r"\([^)]*\)";

/// The patterns that this library rewrites with; each compiles.
pub open spec fn rewrite_pattern(p: Seq<char>) -> bool {
    p == DIGIT_GLUED_ABBREV@ || p == SPACE_GLUED_ABBREV@ || p == FOOTNOTE_NUMBER@ || p
        == PAREN_ASIDE@
}

/// What `Regex::replace_all` returns for a pattern, a text and a replacement.
pub uninterp spec fn regex_replaced(pattern: Seq<char>, text: Seq<char>, replacement: Seq<char>) -> Seq<char>;

/// Relies on `regex::Regex::new` and `Regex::replace_all`: every
/// non-overlapping match of the pattern is replaced, `$n` standing for the
/// n-th group. `Regex::new` fails only on a pattern that does not compile,
/// which `requires` leaves out.
#[verifier::external_body]
pub fn replace_all(pattern: &str, text: &str, replacement: &str) -> (r: String)
    requires
        rewrite_pattern(pattern@),
    ensures
        r@ == regex_replaced(pattern@, text@, replacement@),
{
    Regex::new(pattern).unwrap().replace_all(text, replacement).into_owned()
}

/// Separates a lower-case `a` from the capitalised abbreviation glued to it,
/// after a number and after white space: `43 aCP` becomes `43 a CP`.
pub open spec fn repaired_citation(s: Seq<char>) -> Seq<char> {
    regex_replaced(
        SPACE_GLUED_ABBREV@,
        regex_replaced(DIGIT_GLUED_ABBREV@, s, DIGIT_GLUED_REPAIR@),
        SPACE_GLUED_REPAIR@,
    )
}

/// Separates a lower-case `a` from the capitalised abbreviation glued to it:
/// `43 aCP` becomes `43 a CP`, ` aBauR` becomes ` a BauR`.
pub fn normalize_citation(citation: &str) -> (r: String)
    ensures
        r@ == repaired_citation(citation@),
{
    let first = replace_all(DIGIT_GLUED_ABBREV, citation, DIGIT_GLUED_REPAIR);
    replace_all(SPACE_GLUED_ABBREV, first.as_str(), SPACE_GLUED_REPAIR)
}

/// Drops a footnote number glued to the last word of a title.
pub fn clean_law_title(title: &str) -> (r: String)
    ensures
        r@ == regex_replaced(FOOTNOTE_NUMBER@, title@, FOOTNOTE_REPAIR@),
{
    replace_all(FOOTNOTE_NUMBER, title, FOOTNOTE_REPAIR)
}

/// Drops parenthetical asides.
pub fn strip_asides(text: &str) -> (r: String)
    ensures
        r@ == regex_replaced(PAREN_ASIDE@, text@, ""@),
{
    replace_all(PAREN_ASIDE, text, "")
}

} // verus!
