//! The cascade that finds the raw law abbreviation of a citation.
//!
//! The probes, in order of priority:
//!
//! 1. a registry number after `RS`, then after `SR` (either letter case):
//!    `RS 220`, `SR 101.1`; the number is a run of digits groups joined by
//!    single periods and must end at a word boundary;
//! 2. the word "constitution" in a corpus language, in any letter case;
//! 3. a short spelling of the constitution as a token in parentheses, then
//!    as a bare token;
//! 4. the first token in parentheses that is no common word;
//! 5. the first bare token that is no common word.
//!
//! A token in parentheses is `(` followed by an upper-case initial and 1 to
//! 15 letters or hyphens, then `)`. A bare token is an upper-case initial and
//! 1 to 15 letters, between word boundaries. Letters are ASCII letters and
//! `ÄÖÜäöü`; word characters are ASCII letters and digits, `_`, and the
//! Latin letters from U+00C0 to U+024F.
use vstd::prelude::*;
use crate::articles::{ci_is, ci_is_exec, skip_spaces, skip_spaces_exec};
use crate::text::{chars_of, contains, contains_spec, is_digit_spec, lower_of, string_of, to_lower};
use crate::vocab::{Vocabulary, common_words, constitution_aliases, constitution_words, in_list};

verus! {

pub open spec fn is_word_char(c: char) -> bool {
    ('a' <= c && c <= 'z') || ('A' <= c && c <= 'Z') || ('0' <= c && c <= '9') || c == '_'
        || ('\u{C0}' <= c && c <= '\u{24F}' && c != '\u{D7}' && c != '\u{F7}')
}

fn is_word_char_exec(c: char) -> (r: bool)
    ensures
        r == is_word_char(c),
{
    ('a' <= c && c <= 'z') || ('A' <= c && c <= 'Z') || ('0' <= c && c <= '9') || c == '_'
        || ('\u{C0}' <= c && c <= '\u{24F}' && c != '\u{D7}' && c != '\u{F7}')
}

pub open spec fn is_upper_initial(c: char) -> bool {
    ('A' <= c && c <= 'Z') || c == 'Ä' || c == 'Ö' || c == 'Ü'
}

pub open spec fn is_token_letter(c: char) -> bool {
    is_upper_initial(c) || ('a' <= c && c <= 'z') || c == 'ä' || c == 'ö' || c == 'ü'
}

fn is_upper_initial_exec(c: char) -> (r: bool)
    ensures
        r == is_upper_initial(c),
{
    ('A' <= c && c <= 'Z') || c == 'Ä' || c == 'Ö' || c == 'Ü'
}

fn is_token_letter_exec(c: char) -> (r: bool)
    ensures
        r == is_token_letter(c),
{
    is_upper_initial_exec(c) || ('a' <= c && c <= 'z') || c == 'ä' || c == 'ö' || c == 'ü'
}

/// The first position at or after `i` that holds no token letter (with
/// hyphens counted as letters where `hyphen` is set).
pub open spec fn letters_end(s: Seq<char>, i: int, hyphen: bool) -> int
    decreases s.len() - i,
{
    if 0 <= i < s.len() && (is_token_letter(s[i]) || (hyphen && s[i] == '-')) {
        letters_end(s, i + 1, hyphen)
    } else {
        i
    }
}

fn letters_end_exec(s: &Vec<char>, i: usize, hyphen: bool) -> (r: usize)
    requires
        i <= s.len(),
    ensures
        r as int == letters_end(s@, i as int, hyphen),
        i <= r <= s.len(),
{
    let mut j = i;
    while j < s.len() && (is_token_letter_exec(s[j]) || (hyphen && s[j] == '-'))
        invariant
            i <= j <= s.len(),
            letters_end(s@, j as int, hyphen) == letters_end(s@, i as int, hyphen),
        decreases s.len() - j,
    {
        j += 1;
    }
    j
}

/// The end of a registry number starting at `j`: digits, and periods that a
/// digit follows.
pub open spec fn dotted_end(s: Seq<char>, j: int) -> int
    decreases s.len() - j,
{
    if 0 <= j < s.len() && (is_digit_spec(s[j]) || (s[j] == '.' && j + 1 < s.len()
        && is_digit_spec(s[j + 1]))) {
        dotted_end(s, j + 1)
    } else {
        j
    }
}

fn dotted_end_exec(s: &Vec<char>, i: usize) -> (r: usize)
    requires
        i <= s.len(),
    ensures
        r as int == dotted_end(s@, i as int),
        i <= r <= s.len(),
{
    let mut j = i;
    while j < s.len() && (('0' <= s[j] && s[j] <= '9') || (s[j] == '.' && j + 1 < s.len() && '0'
        <= s[j + 1] && s[j + 1] <= '9'))
        invariant
            i <= j <= s.len(),
            dotted_end(s@, j as int) == dotted_end(s@, i as int),
        decreases s.len() - j,
    {
        j += 1;
    }
    j
}

pub open spec fn boundary_before(s: Seq<char>, i: int) -> bool {
    i == 0 || !is_word_char(s[i - 1])
}

pub open spec fn boundary_at(s: Seq<char>, e: int) -> bool {
    e == s.len() || !is_word_char(s[e])
}

pub open spec fn code_start(s: Seq<char>, i: int) -> int {
    skip_spaces(s, i + 2)
}

pub open spec fn code_end(s: Seq<char>, i: int) -> int {
    dotted_end(s, code_start(s, i))
}

/// The letters `x` and `y` (either case), then a registry number, start at `i`.
pub open spec fn code_at(s: Seq<char>, i: int, x: char, y: char) -> bool {
    &&& 0 <= i
    &&& i + 2 <= s.len()
    &&& boundary_before(s, i)
    &&& ci_is(s[i], x)
    &&& ci_is(s[i + 1], y)
    &&& code_start(s, i) < s.len()
    &&& is_digit_spec(s[code_start(s, i)])
    &&& boundary_at(s, code_end(s, i))
}

pub open spec fn code_number(s: Seq<char>, i: int) -> Seq<char> {
    s.subrange(code_start(s, i), code_end(s, i))
}

/// A token in parentheses starts at `i` (at the parenthesis).
pub open spec fn paren_token_at(s: Seq<char>, i: int) -> bool {
    &&& 0 <= i
    &&& i + 1 < s.len()
    &&& s[i] == '('
    &&& is_upper_initial(s[i + 1])
    &&& 2 <= letters_end(s, i + 2, true) - (i + 1) <= 16
    &&& letters_end(s, i + 2, true) < s.len()
    &&& s[letters_end(s, i + 2, true)] == ')'
}

pub open spec fn paren_token(s: Seq<char>, i: int) -> Seq<char> {
    s.subrange(i + 1, letters_end(s, i + 2, true))
}

/// A bare token starts at `i`.
pub open spec fn bare_token_at(s: Seq<char>, i: int) -> bool {
    &&& 0 <= i < s.len()
    &&& boundary_before(s, i)
    &&& is_upper_initial(s[i])
    &&& 2 <= letters_end(s, i + 1, false) - i <= 16
    &&& boundary_at(s, letters_end(s, i + 1, false))
}

pub open spec fn bare_token(s: Seq<char>, i: int) -> Seq<char> {
    s.subrange(i, letters_end(s, i + 1, false))
}

/// The kinds of position that the cascade looks for.
#[derive(Clone, Copy, Debug, PartialEq, Eq)]
pub enum Probe {
    RsCode,
    SrCode,
    ParenWord,
    BareWord,
}

/// The position `i` is of the kind `p`; for tokens, one that is no common word.
pub open spec fn probe_holds(p: Probe, s: Seq<char>, i: int) -> bool {
    match p {
        Probe::RsCode => code_at(s, i, 'r', 's'),
        Probe::SrCode => code_at(s, i, 's', 'r'),
        Probe::ParenWord => paren_token_at(s, i) && !common_words().contains(
            token_lower(paren_token(s, i)),
        ),
        Probe::BareWord => bare_token_at(s, i) && !common_words().contains(
            token_lower(bare_token(s, i)),
        ),
    }
}

pub open spec fn is_first(p: Probe, s: Seq<char>, i: int) -> bool {
    0 <= i && probe_holds(p, s, i) && forall|j: int| 0 <= j < i ==> !probe_holds(p, s, j)
}

/// The first position of the kind `p`, if any.
pub open spec fn first_probe(p: Probe, s: Seq<char>) -> Option<int> {
    if exists|i: int| is_first(p, s, i) {
        Some(choose|i: int| is_first(p, s, i))
    } else {
        None
    }
}

/// The text names the constitution: in words (in its lower-case form
/// `lowered`), or by a short spelling in or out of parentheses.
pub open spec fn names_constitution(s: Seq<char>, lowered: Seq<char>) -> bool {
    ||| exists|k: int| 0 <= k < constitution_words().len() && contains_spec(lowered, constitution_words()[k])
    ||| exists|i: int| paren_token_at(s, i) && constitution_aliases().contains(token_lower(paren_token(s, i)))
    ||| exists|i: int| bare_token_at(s, i) && constitution_aliases().contains(token_lower(bare_token(s, i)))
}

/// The marker under which the constitution is filed.
pub open spec fn constitution_marker() -> Seq<char> {
    "Cst."@
}

/// The raw law abbreviation of a citation, by the cascade.
pub open spec fn law_abbreviation(s: Seq<char>) -> Option<Seq<char>> {
    law_abbreviation_lowered(s, lower_of(s))
}

/// The raw law abbreviation of a citation whose lower-case form is
/// `lowered`, by the cascade.
pub open spec fn law_abbreviation_lowered(s: Seq<char>, lowered: Seq<char>) -> Option<Seq<char>> {
    match first_probe(Probe::RsCode, s) {
        Some(i) => Some(code_number(s, i)),
        None => match first_probe(Probe::SrCode, s) {
            Some(i) => Some(code_number(s, i)),
            None => if names_constitution(s, lowered) {
                Some(constitution_marker())
            } else {
                match first_probe(Probe::ParenWord, s) {
                    Some(i) => Some(paren_token(s, i)),
                    None => match first_probe(Probe::BareWord, s) {
                        Some(i) => Some(bare_token(s, i)),
                        None => None,
                    },
                }
            },
        },
    }
}

proof fn lemma_first_probe_holds(p: Probe, s: Seq<char>)
    ensures
        first_probe(p, s) matches Some(i) ==> is_first(p, s, i),
{
}

/// The cascade never gives an empty abbreviation.
pub proof fn lemma_abbreviation_nonempty(s: Seq<char>, lowered: Seq<char>)
    ensures
        law_abbreviation_lowered(s, lowered) matches Some(a) ==> a.len() > 0,
{
    reveal_strlit("Cst.");
    lemma_first_probe_holds(Probe::RsCode, s);
    lemma_first_probe_holds(Probe::SrCode, s);
    lemma_first_probe_holds(Probe::ParenWord, s);
    lemma_first_probe_holds(Probe::BareWord, s);
    if let Some(i) = first_probe(Probe::RsCode, s) {
        lemma_code_number_nonempty(s, i, 'r', 's');
    } else if let Some(i) = first_probe(Probe::SrCode, s) {
        lemma_code_number_nonempty(s, i, 's', 'r');
    } else if names_constitution(s, lowered) {
        assert(constitution_marker().len() == 4);
    } else if let Some(i) = first_probe(Probe::ParenWord, s) {
        assert(paren_token(s, i).len() >= 2);
    } else if let Some(i) = first_probe(Probe::BareWord, s) {
        lemma_letters_end_bound(s, i + 1, false);
        assert(bare_token(s, i).len() >= 2);
    }
}

proof fn lemma_letters_end_bound(s: Seq<char>, j: int, hyphen: bool)
    requires
        0 <= j <= s.len(),
    ensures
        j <= letters_end(s, j, hyphen) <= s.len(),
    decreases s.len() - j,
{
    if 0 <= j < s.len() && (is_token_letter(s[j]) || (hyphen && s[j] == '-')) {
        lemma_letters_end_bound(s, j + 1, hyphen);
    }
}

proof fn lemma_dotted_end_grows(s: Seq<char>, j: int)
    ensures
        dotted_end(s, j) >= j,
        0 <= j < s.len() && is_digit_spec(s[j]) ==> dotted_end(s, j) > j,
    decreases s.len() - j,
{
    if 0 <= j < s.len() && (is_digit_spec(s[j]) || (s[j] == '.' && j + 1 < s.len() && is_digit_spec(s[j + 1]))) {
        lemma_dotted_end_grows(s, j + 1);
    }
}

proof fn lemma_dotted_end_bound(s: Seq<char>, j: int)
    requires
        0 <= j <= s.len(),
    ensures
        dotted_end(s, j) <= s.len(),
    decreases s.len() - j,
{
    if 0 <= j < s.len() && (is_digit_spec(s[j]) || (s[j] == '.' && j + 1 < s.len() && is_digit_spec(s[j + 1]))) {
        lemma_dotted_end_bound(s, j + 1);
    }
}

proof fn lemma_spaces_grow(s: Seq<char>, j: int)
    ensures
        skip_spaces(s, j) >= j,
    decreases s.len() - j,
{
    if 0 <= j < s.len() && crate::text::is_space_spec(s[j]) {
        lemma_spaces_grow(s, j + 1);
    }
}

proof fn lemma_code_number_nonempty(s: Seq<char>, i: int, x: char, y: char)
    requires
        code_at(s, i, x, y),
    ensures
        code_number(s, i).len() > 0,
{
    lemma_spaces_grow(s, i + 2);
    lemma_dotted_end_grows(s, code_start(s, i));
    lemma_dotted_end_bound(s, code_start(s, i));
}

proof fn lemma_first_probe(p: Probe, s: Seq<char>, i: int)
    requires
        is_first(p, s, i),
    ensures
        first_probe(p, s) == Some(i),
{
    let k = choose|k: int| is_first(p, s, k);
    if k < i {
        assert(!probe_holds(p, s, k));
    } else if k > i {
        assert(!probe_holds(p, s, i));
    }
}

proof fn lemma_no_probe(p: Probe, s: Seq<char>)
    requires
        forall|j: int| 0 <= j < s.len() ==> !probe_holds(p, s, j),
        forall|j: int| j >= s.len() ==> !probe_holds(p, s, j),
    ensures
        first_probe(p, s) is None,
{
}

pub(crate) fn slice_chars(s: &Vec<char>, a: usize, b: usize) -> (r: Vec<char>)
    requires
        a <= b <= s.len(),
    ensures
        r@ == s@.subrange(a as int, b as int),
{
    let mut r: Vec<char> = Vec::new();
    let mut k = a;
    while k < b
        invariant
            a <= k <= b <= s.len(),
            r@ == s@.subrange(a as int, k as int),
        decreases b - k,
    {
        r.push(s[k]);
        assert(s@.subrange(a as int, k + 1) =~= s@.subrange(a as int, k as int).push(s@[k as int]));
        k += 1;
    }
    r
}

/// The lower-case form of a token letter: the ASCII capitals and `ÄÖÜ` map
/// to their small letters, as `char::to_lowercase` maps them; every other
/// character stays.
pub open spec fn lower_letter(c: char) -> char {
    if 'A' <= c && c <= 'Z' {
        ((c as u8) + 32) as char
    } else if c == 'Ä' {
        'ä'
    } else if c == 'Ö' {
        'ö'
    } else if c == 'Ü' {
        'ü'
    } else {
        c
    }
}

/// The lower-case form of a token.
pub open spec fn token_lower(t: Seq<char>) -> Seq<char> {
    t.map_values(|c: char| lower_letter(c))
}

fn lower_letter_exec(c: char) -> (r: char)
    ensures
        r == lower_letter(c),
{
    if 'A' <= c && c <= 'Z' {
        ((c as u8) + 32) as char
    } else if c == 'Ä' {
        'ä'
    } else if c == 'Ö' {
        'ö'
    } else if c == 'Ü' {
        'ü'
    } else {
        c
    }
}

/// The lower-case form of the token `s[a..b]`.
fn lowered_slice(s: &Vec<char>, a: usize, b: usize) -> (r: String)
    requires
        a <= b <= s.len(),
    ensures
        r@ == token_lower(s@.subrange(a as int, b as int)),
{
    let mut v: Vec<char> = Vec::new();
    let mut k = a;
    while k < b
        invariant
            a <= k <= b <= s.len(),
            v@ == token_lower(s@.subrange(a as int, k as int)),
        decreases b - k,
    {
        v.push(lower_letter_exec(s[k]));
        assert(token_lower(s@.subrange(a as int, k + 1)) =~= token_lower(s@.subrange(a as int, k as int)).push(lower_letter(s@[k as int])));
        k += 1;
    }
    string_of(&v)
}

/// The end of the registry number, where the letters `x`, `y` and a number
/// start at `i`.
fn code_at_exec(s: &Vec<char>, i: usize, x: char, y: char) -> (r: Option<(usize, usize)>)
    requires
        'a' <= x <= 'z',
        'a' <= y <= 'z',
        i < s.len(),
    ensures
        r is Some <==> code_at(s@, i as int, x, y),
        r matches Some(pe) ==> pe.0 == code_start(s@, i as int) && pe.1 == code_end(s@, i as int)
            && pe.0 <= pe.1 <= s.len(),
{
    if s.len() - i < 2 {
        return None;
    }
    if !(i == 0 || !is_word_char_exec(s[i - 1])) {
        return None;
    }
    if !(ci_is_exec(s[i], x) && ci_is_exec(s[i + 1], y)) {
        return None;
    }
    let p = skip_spaces_exec(s, i + 2);
    if p >= s.len() || !('0' <= s[p] && s[p] <= '9') {
        return None;
    }
    let e = dotted_end_exec(s, p);
    if e < s.len() && is_word_char_exec(s[e]) {
        return None;
    }
    Some((p, e))
}

/// The end of the token in parentheses that starts at `i`, if one does.
fn paren_token_exec(s: &Vec<char>, i: usize) -> (r: Option<usize>)
    requires
        i < s.len(),
    ensures
        r is Some <==> paren_token_at(s@, i as int),
        r matches Some(e) ==> e as int == letters_end(s@, i + 2, true) && i + 1 <= e <= s.len(),
{
    if s.len() - i < 2 || s[i] != '(' || !is_upper_initial_exec(s[i + 1]) {
        return None;
    }
    let e = letters_end_exec(s, i + 2, true);
    if e - (i + 1) < 2 || e - (i + 1) > 16 || e >= s.len() || s[e] != ')' {
        return None;
    }
    Some(e)
}

/// The end of the bare token that starts at `i`, if one does.
fn bare_token_exec(s: &Vec<char>, i: usize) -> (r: Option<usize>)
    requires
        i < s.len(),
    ensures
        r is Some <==> bare_token_at(s@, i as int),
        r matches Some(e) ==> e as int == letters_end(s@, i + 1, false) && i <= e <= s.len(),
{
    if !(i == 0 || !is_word_char_exec(s[i - 1])) || !is_upper_initial_exec(s[i]) {
        return None;
    }
    let e = letters_end_exec(s, i + 1, false);
    if e - i < 2 || e - i > 16 || (e < s.len() && is_word_char_exec(s[e])) {
        return None;
    }
    Some(e)
}

/// The first registry number after the letters `x`, `y`.
fn first_code(s: &Vec<char>, x: char, y: char, p: Ghost<Probe>) -> (r: Option<Vec<char>>)
    requires
        'a' <= x <= 'z',
        'a' <= y <= 'z',
        forall|j: int| probe_holds(p@, s@, j) == code_at(s@, j, x, y),
    ensures
        r matches Some(v) ==> exists|i: int| is_first(p@, s@, i) && v@ == code_number(s@, i),
        r is None ==> first_probe(p@, s@) is None,
{
    let mut i: usize = 0;
    while i < s.len()
        invariant
            i <= s.len(),
            'a' <= x <= 'z',
            'a' <= y <= 'z',
            forall|j: int| probe_holds(p@, s@, j) == code_at(s@, j, x, y),
            forall|j: int| 0 <= j < i ==> !probe_holds(p@, s@, j),
        decreases s.len() - i,
    {
        match code_at_exec(s, i, x, y) {
            Some((a, b)) => {
                let v = slice_chars(s, a, b);
                assert(is_first(p@, s@, i as int) && v@ == code_number(s@, i as int));
                return Some(v);
            },
            None => {},
        }
        i += 1;
    }
    proof {
        lemma_no_probe(p@, s@);
    }
    None
}

/// The first token (in parentheses where `paren` is set) that is no common word.
fn first_uncommon_token(s: &Vec<char>, paren: bool, vocab: &Vocabulary, p: Ghost<Probe>) -> (r:
    Option<Vec<char>>)
    requires
        vocab.wf(),
        paren ==> p@ == Probe::ParenWord,
        !paren ==> p@ == Probe::BareWord,
    ensures
        r matches Some(v) ==> exists|i: int|
            is_first(p@, s@, i) && v@ == (if paren {
                paren_token(s@, i)
            } else {
                bare_token(s@, i)
            }),
        r is None ==> first_probe(p@, s@) is None,
{
    let mut i: usize = 0;
    while i < s.len()
        invariant
            i <= s.len(),
            vocab.wf(),
            paren ==> p@ == Probe::ParenWord,
            !paren ==> p@ == Probe::BareWord,
            forall|j: int| 0 <= j < i ==> !probe_holds(p@, s@, j),
        decreases s.len() - i,
    {
        let found = if paren {
            paren_token_exec(s, i)
        } else {
            bare_token_exec(s, i)
        };
        match found {
            Some(e) => {
                let a = if paren {
                    i + 1
                } else {
                    i
                };
                let lowered = lowered_slice(s, a, e);
                if !in_list(&vocab.common, &lowered) {
                    let v = slice_chars(s, a, e);
                    assert(is_first(p@, s@, i as int));
                    assert(v@ == (if paren {
                        paren_token(s@, i as int)
                    } else {
                        bare_token(s@, i as int)
                    }));
                    return Some(v);
                }
            },
            None => {},
        }
        i += 1;
    }
    proof {
        lemma_no_probe(p@, s@);
    }
    None
}

/// Does some token (in parentheses where `paren` is set) spell the constitution?
fn has_constitution_token(s: &Vec<char>, paren: bool, vocab: &Vocabulary) -> (r: bool)
    requires
        vocab.wf(),
    ensures
        paren ==> (r == exists|i: int| paren_token_at(s@, i) && constitution_aliases().contains(
            token_lower(paren_token(s@, i)),
        )),
        !paren ==> (r == exists|i: int| bare_token_at(s@, i) && constitution_aliases().contains(
            token_lower(bare_token(s@, i)),
        )),
{
    let mut i: usize = 0;
    while i < s.len()
        invariant
            i <= s.len(),
            vocab.wf(),
            paren ==> forall|j: int| 0 <= j < i ==> !(paren_token_at(s@, j) && constitution_aliases().contains(
                token_lower(paren_token(s@, j)),
            )),
            !paren ==> forall|j: int| 0 <= j < i ==> !(bare_token_at(s@, j) && constitution_aliases().contains(
                token_lower(bare_token(s@, j)),
            )),
        decreases s.len() - i,
    {
        let found = if paren {
            paren_token_exec(s, i)
        } else {
            bare_token_exec(s, i)
        };
        match found {
            Some(e) => {
                let a = if paren {
                    i + 1
                } else {
                    i
                };
                let lowered = lowered_slice(s, a, e);
                if in_list(&vocab.aliases, &lowered) {
                    return true;
                }
            },
            None => {},
        }
        i += 1;
    }
    false
}

/// Does the lower-case text hold a word for "constitution"?
fn mentions_constitution(lower: &Vec<char>, vocab: &Vocabulary) -> (r: bool)
    requires
        vocab.wf(),
    ensures
        r == exists|k: int| 0 <= k < constitution_words().len() && contains_spec(lower@, constitution_words()[k]),
{
    let mut k: usize = 0;
    while k < vocab.constitution.len()
        invariant
            k <= vocab.constitution@.len(),
            vocab.wf(),
            forall|m: int| 0 <= m < k ==> !contains_spec(lower@, constitution_words()[m]),
        decreases vocab.constitution.len() - k,
    {
        let word = chars_of(vocab.constitution[k].as_str());
        assert(word@ == constitution_words()[k as int]);
        if contains(lower, &word) {
            return true;
        }
        k += 1;
    }
    false
}

/// The raw law abbreviation of a citation: the first probe of the cascade
/// that finds one.
pub fn extract_law_abbreviation(citation: &str, vocab: &Vocabulary) -> (r: Option<String>)
    requires
        vocab.wf(),
    ensures
        r matches Some(v) ==> law_abbreviation(citation@) == Some(v@),
        r is None ==> law_abbreviation(citation@) is None,
{
    let lower = to_lower(citation);
    abbreviation_from_lowered(citation, lower.as_str(), vocab)
}

/// The raw law abbreviation of a citation whose lower-case form is
/// `lowered`: the first probe of the cascade that finds one.
pub fn abbreviation_from_lowered(citation: &str, lowered: &str, vocab: &Vocabulary) -> (r: Option<String>)
    requires
        vocab.wf(),
    ensures
        r matches Some(v) ==> law_abbreviation_lowered(citation@, lowered@) == Some(v@),
        r is None ==> law_abbreviation_lowered(citation@, lowered@) is None,
{
    let s = chars_of(citation);
    match first_code(&s, 'r', 's', Ghost(Probe::RsCode)) {
        Some(v) => {
            proof {
                let i = choose|i: int| is_first(Probe::RsCode, s@, i) && v@ == code_number(s@, i);
                lemma_first_probe(Probe::RsCode, s@, i);
            }
            return Some(string_of(&v));
        },
        None => {},
    }
    match first_code(&s, 's', 'r', Ghost(Probe::SrCode)) {
        Some(v) => {
            proof {
                let i = choose|i: int| is_first(Probe::SrCode, s@, i) && v@ == code_number(s@, i);
                lemma_first_probe(Probe::SrCode, s@, i);
            }
            return Some(string_of(&v));
        },
        None => {},
    }
    let lower_chars = chars_of(lowered);
    if mentions_constitution(&lower_chars, vocab) || has_constitution_token(&s, true, vocab)
        || has_constitution_token(&s, false, vocab) {
        return Some(String::from_str("Cst."));
    }
    match first_uncommon_token(&s, true, vocab, Ghost(Probe::ParenWord)) {
        Some(v) => {
            proof {
                let i = choose|i: int| is_first(Probe::ParenWord, s@, i) && v@ == paren_token(s@, i);
                lemma_first_probe(Probe::ParenWord, s@, i);
            }
            return Some(string_of(&v));
        },
        None => {},
    }
    match first_uncommon_token(&s, false, vocab, Ghost(Probe::BareWord)) {
        Some(v) => {
            proof {
                let i = choose|i: int| is_first(Probe::BareWord, s@, i) && v@ == bare_token(s@, i);
                lemma_first_probe(Probe::BareWord, s@, i);
            }
            Some(string_of(&v))
        },
        None => None,
    }
}

} // verus!
