//! Resolution of a citation or context text to a law key by the law's title.
use vstd::prelude::*;
use crate::abbrev::opt_view;
use crate::rewrite::{clean_law_title, strip_asides, regex_replaced, FOOTNOTE_NUMBER, FOOTNOTE_REPAIR, PAREN_ASIDE};
use crate::text::{chars_of, contains, contains_spec, is_space, is_space_spec, lower_of, string_of, to_lower};
use crate::vocab::{Vocabulary, direct_title_common_words, in_list, title_common_words, views_of};

verus! {

pub open spec fn is_end_punct(c: char) -> bool {
    c == '.' || c == ',' || c == ';' || c == ':'
}

/// The words of `s` joined by single spaces, as `split_whitespace` and
/// `join(" ")` give them.
pub open spec fn collapse_ws(s: Seq<char>) -> Seq<char>
    decreases s.len(),
{
    if s.len() == 0 {
        s
    } else {
        let r = collapse_ws(s.drop_last());
        let c = s.last();
        if is_space_spec(c) {
            r
        } else if s.len() >= 2 && is_space_spec(s[s.len() - 2]) && r.len() > 0 {
            r.push(' ').push(c)
        } else {
            r.push(c)
        }
    }
}

/// `s` without trailing periods, commas, semicolons and colons.
pub open spec fn trim_punct_end(s: Seq<char>) -> Seq<char>
    decreases s.len(),
{
    if s.len() > 0 && is_end_punct(s.last()) {
        trim_punct_end(s.drop_last())
    } else {
        s
    }
}

/// Lower case, white space collapsed, trailing punctuation dropped.
pub open spec fn normalized_text(s: Seq<char>) -> Seq<char> {
    trim_punct_end(collapse_ws(lower_of(s)))
}

/// The maximal runs of characters other than white space.
pub open spec fn words_of(s: Seq<char>) -> Seq<Seq<char>>
    decreases s.len(),
{
    if s.len() == 0 {
        Seq::empty()
    } else {
        let r = words_of(s.drop_last());
        let c = s.last();
        if is_space_spec(c) {
            r
        } else if s.len() >= 2 && !is_space_spec(s[s.len() - 2]) && r.len() > 0 {
            r.drop_last().push(r.last().push(c))
        } else {
            r.push(seq![c])
        }
    }
}

pub open spec fn char_utf8_len(c: char) -> nat {
    let u = c as u32;
    if u < 0x80 {
        1
    } else if u < 0x800 {
        2
    } else if u < 0x10000 {
        3
    } else {
        4
    }
}

/// The length of `s` in UTF-8 bytes, as `str::len` gives it.
pub open spec fn utf8_len(s: Seq<char>) -> nat
    decreases s.len(),
{
    if s.len() == 0 {
        0
    } else {
        utf8_len(s.drop_last()) + char_utf8_len(s.last())
    }
}

/// The two ways of matching a text against the titles.
#[derive(Clone, Copy, Debug, PartialEq, Eq)]
pub enum TitleRule {
    /// For a wide context: words over 3 bytes, and a share of them that
    /// relaxes as their number grows (half, 45%, 40%).
    Context,
    /// For a citation itself: words over 4 bytes, all of them when there are
    /// at most three, else 70%.
    Direct,
}

pub open spec fn rule_min_len(rule: TitleRule) -> nat {
    match rule {
        TitleRule::Context => 3,
        TitleRule::Direct => 4,
    }
}

pub open spec fn rule_stop_words(rule: TitleRule) -> Seq<Seq<char>> {
    match rule {
        TitleRule::Context => title_common_words(),
        TitleRule::Direct => direct_title_common_words(),
    }
}

/// A title in which `found` of `n` distinctive words stand is accepted.
pub open spec fn rule_accepts(rule: TitleRule, found: nat, n: nat) -> bool {
    match rule {
        TitleRule::Context => if n <= 3 {
            2 * found >= n
        } else if n <= 6 {
            20 * found >= 9 * n
        } else {
            5 * found >= 2 * n
        },
        TitleRule::Direct => if n <= 3 {
            found >= n
        } else {
            10 * found >= 7 * n
        },
    }
}

/// The words longer than `min_len` bytes that are not in `stop`, in order.
pub open spec fn distinctive(ws: Seq<Seq<char>>, min_len: nat, stop: Seq<Seq<char>>) -> Seq<Seq<char>>
    decreases ws.len(),
{
    if ws.len() == 0 {
        ws
    } else {
        let r = distinctive(ws.drop_last(), min_len, stop);
        let w = ws.last();
        if utf8_len(w) > min_len && !stop.contains(w) {
            r.push(w)
        } else {
            r
        }
    }
}

/// How many of `ws` stand in `title`.
pub open spec fn count_found(ws: Seq<Seq<char>>, title: Seq<char>) -> nat
    decreases ws.len(),
{
    if ws.len() == 0 {
        0
    } else {
        count_found(ws.drop_last(), title) + if contains_spec(title, ws.last()) {
            1nat
        } else {
            0nat
        }
    }
}

/// The shortest title, in bytes, that fuzzy matching considers.
pub open spec fn min_title_len() -> nat {
    20
}

/// The accepted title with most words found, the first of them on a tie,
/// with its count.
pub open spec fn best_title(
    table: Seq<(Seq<char>, Seq<char>)>,
    ws: Seq<Seq<char>>,
    rule: TitleRule,
) -> Option<(Seq<char>, nat)>
    decreases table.len(),
{
    if table.len() == 0 {
        None
    } else {
        let prev = best_title(table.drop_last(), ws, rule);
        let t = table.last().0;
        let f = count_found(ws, t);
        let better = match prev {
            Some(p) => f > p.1,
            None => true,
        };
        if utf8_len(t) >= min_title_len() && rule_accepts(rule, f, ws.len()) && better {
            Some((table.last().1, f))
        } else {
            prev
        }
    }
}

/// The law key of the first title equal to `t`.
pub open spec fn exact_title(table: Seq<(Seq<char>, Seq<char>)>, t: Seq<char>) -> Option<Seq<char>>
    decreases table.len(),
{
    if table.len() == 0 {
        None
    } else if table[0].0 == t {
        Some(table[0].1)
    } else {
        exact_title(table.drop_first(), t)
    }
}

/// The law key that a normalized text resolves to: an equal title, else the
/// best fuzzy match on at least two distinctive words.
pub open spec fn title_match(
    table: Seq<(Seq<char>, Seq<char>)>,
    normalized: Seq<char>,
    rule: TitleRule,
) -> Option<Seq<char>> {
    match exact_title(table, normalized) {
        Some(k) => Some(k),
        None => {
            let ws = distinctive(words_of(normalized), rule_min_len(rule), rule_stop_words(rule));
            if ws.len() < 2 {
                None
            } else {
                match best_title(table, ws, rule) {
                    Some(p) => Some(p.0),
                    None => None,
                }
            }
        },
    }
}

/// A title table: law titles and their law keys, in order. A title may
/// stand more than once; the exact match then takes the first entry, and
/// the fuzzy match the first of the entries with most words found.
pub open spec fn titles_view(t: Seq<(String, String)>) -> Seq<(Seq<char>, Seq<char>)> {
    t.map_values(|e: (String, String)| (e.0@, e.1@))
}

pub(crate) fn collapse_ws_exec(s: &Vec<char>) -> (r: Vec<char>)
    ensures
        r@ == collapse_ws(s@),
{
    let mut r: Vec<char> = Vec::new();
    let mut k: usize = 0;
    while k < s.len()
        invariant
            k <= s.len(),
            r@ == collapse_ws(s@.subrange(0, k as int)),
        decreases s.len() - k,
    {
        let ghost p = s@.subrange(0, k + 1);
        assert(p.drop_last() =~= s@.subrange(0, k as int));
        let c = s[k];
        if is_space(c) {
        } else if k >= 1 && is_space(s[k - 1]) && r.len() > 0 {
            assert(p[p.len() - 2] == s@[k - 1]);
            r.push(' ');
            r.push(c);
        } else {
            proof {
                if k >= 1 {
                    assert(p[p.len() - 2] == s@[k - 1]);
                }
            }
            r.push(c);
        }
        k += 1;
    }
    assert(s@.subrange(0, s.len() as int) =~= s@);
    r
}

proof fn lemma_trim_punct_to(s: Seq<char>, b: int)
    requires
        0 <= b <= s.len(),
        forall|k: int| b <= k < s.len() ==> is_end_punct(#[trigger] s[k]),
        b == 0 || !is_end_punct(s[b - 1]),
    ensures
        trim_punct_end(s) == s.subrange(0, b),
    decreases s.len() - b,
{
    if b < s.len() {
        assert(s.drop_last().subrange(0, b) =~= s.subrange(0, b));
        lemma_trim_punct_to(s.drop_last(), b);
    } else {
        assert(s.subrange(0, s.len() as int) =~= s);
    }
}

fn trim_punct_end_exec(s: &Vec<char>) -> (r: Vec<char>)
    ensures
        r@ == trim_punct_end(s@),
{
    let mut b: usize = s.len();
    while b > 0 && (s[b - 1] == '.' || s[b - 1] == ',' || s[b - 1] == ';' || s[b - 1] == ':')
        invariant
            b <= s.len(),
            forall|k: int| b <= k < s.len() ==> is_end_punct(#[trigger] s@[k]),
        decreases b,
    {
        b -= 1;
    }
    proof {
        lemma_trim_punct_to(s@, b as int);
    }
    let mut r: Vec<char> = Vec::new();
    let mut k: usize = 0;
    while k < b
        invariant
            k <= b <= s.len(),
            r@ == s@.subrange(0, k as int),
        decreases b - k,
    {
        r.push(s[k]);
        assert(s@.subrange(0, k + 1) =~= s@.subrange(0, k as int).push(s@[k as int]));
        k += 1;
    }
    r
}

/// Lower case, white space collapsed to single spaces, trailing periods,
/// commas, semicolons and colons dropped.
pub fn normalize_text(text: &str) -> (r: String)
    ensures
        r@ == normalized_text(text@),
{
    let lower = to_lower(text);
    collapse_lowered(lower.as_str())
}

/// A lower-case text with white space collapsed to single spaces and
/// trailing periods, commas, semicolons and colons dropped.
pub fn collapse_lowered(lowered: &str) -> (r: String)
    ensures
        r@ == trim_punct_end(collapse_ws(lowered@)),
{
    let chars = chars_of(lowered);
    let collapsed = collapse_ws_exec(&chars);
    let trimmed = trim_punct_end_exec(&collapsed);
    string_of(&trimmed)
}

/// Parenthetical asides dropped, then normalized as by `normalize_text`.
pub fn normalize_title_for_matching(text: &str) -> (r: String)
    ensures
        r@ == normalized_text(regex_replaced(PAREN_ASIDE@, text@, ""@)),
{
    let stripped = strip_asides(text);
    normalize_text(stripped.as_str())
}

pub(crate) fn words_exec(s: &Vec<char>) -> (r: Vec<Vec<char>>)
    ensures
        r@.map_values(|w: Vec<char>| w@) == words_of(s@),
{
    let mut r: Vec<Vec<char>> = Vec::new();
    let mut k: usize = 0;
    while k < s.len()
        invariant
            k <= s.len(),
            r@.map_values(|w: Vec<char>| w@) == words_of(s@.subrange(0, k as int)),
        decreases s.len() - k,
    {
        let ghost p = s@.subrange(0, k + 1);
        let ghost before = r@.map_values(|w: Vec<char>| w@);
        assert(p.drop_last() =~= s@.subrange(0, k as int));
        let c = s[k];
        if is_space(c) {
        } else if k >= 1 && !is_space(s[k - 1]) && r.len() > 0 {
            assert(p[p.len() - 2] == s@[k - 1]);
            let mut last = r.pop().unwrap();
            last.push(c);
            r.push(last);
            assert(r@.map_values(|w: Vec<char>| w@) =~= before.drop_last().push(before.last().push(c)));
        } else {
            proof {
                if k >= 1 {
                    assert(p[p.len() - 2] == s@[k - 1]);
                }
            }
            let mut w: Vec<char> = Vec::new();
            w.push(c);
            r.push(w);
            assert(r@.map_values(|w: Vec<char>| w@) =~= before.push(seq![c]));
        }
        k += 1;
    }
    assert(s@.subrange(0, s.len() as int) =~= s@);
    r
}

/// Is the UTF-8 length of `s` above `bound`?
fn utf8_len_exceeds(s: &Vec<char>, bound: usize) -> (r: bool)
    requires
        bound <= 1000,
    ensures
        r == (utf8_len(s@) > bound),
{
    let mut total: usize = 0;
    let mut k: usize = 0;
    while k < s.len()
        invariant
            k <= s.len(),
            bound <= 1000,
            total == utf8_len(s@.subrange(0, k as int)),
            total <= bound,
        decreases s.len() - k,
    {
        assert(s@.subrange(0, k + 1).drop_last() =~= s@.subrange(0, k as int));
        let u = s[k] as u32;
        let w: usize = if u < 0x80 {
            1
        } else if u < 0x800 {
            2
        } else if u < 0x10000 {
            3
        } else {
            4
        };
        total = total + w;
        k += 1;
        if total > bound {
            proof {
                lemma_utf8_len_prefix(s@, k as int);
            }
            return true;
        }
    }
    assert(s@.subrange(0, s.len() as int) =~= s@);
    false
}

proof fn lemma_utf8_len_prefix(s: Seq<char>, k: int)
    requires
        0 <= k <= s.len(),
    ensures
        utf8_len(s) >= utf8_len(s.subrange(0, k)),
    decreases s.len() - k,
{
    if k < s.len() {
        lemma_utf8_len_prefix(s, k + 1);
        assert(s.subrange(0, k + 1).drop_last() =~= s.subrange(0, k));
    } else {
        assert(s.subrange(0, k) =~= s);
    }
}

fn distinctive_exec(ws: &Vec<Vec<char>>, rule: TitleRule, vocab: &Vocabulary) -> (r: Vec<Vec<char>>)
    requires
        vocab.wf(),
    ensures
        r@.map_values(|w: Vec<char>| w@) == distinctive(
            ws@.map_values(|w: Vec<char>| w@),
            rule_min_len(rule),
            rule_stop_words(rule),
        ),
{
    let ghost wv = ws@.map_values(|w: Vec<char>| w@);
    let min_len: usize = match rule {
        TitleRule::Context => 3,
        TitleRule::Direct => 4,
    };
    let stop = match rule {
        TitleRule::Context => &vocab.title_common,
        TitleRule::Direct => &vocab.direct_title_common,
    };
    let mut r: Vec<Vec<char>> = Vec::new();
    let mut k: usize = 0;
    while k < ws.len()
        invariant
            k <= ws.len(),
            wv == ws@.map_values(|w: Vec<char>| w@),
            min_len == rule_min_len(rule),
            views_of(stop@) == rule_stop_words(rule),
            r@.map_values(|w: Vec<char>| w@) == distinctive(
                wv.subrange(0, k as int),
                rule_min_len(rule),
                rule_stop_words(rule),
            ),
        decreases ws.len() - k,
    {
        assert(wv.subrange(0, k + 1).drop_last() =~= wv.subrange(0, k as int));
        let ghost before = r@.map_values(|w: Vec<char>| w@);
        let w = &ws[k];
        if utf8_len_exceeds(w, min_len) {
            let as_string = string_of(w);
            if !in_list(stop, &as_string) {
                r.push(w.clone());
                assert(r@.map_values(|w: Vec<char>| w@) =~= before.push(wv[k as int]));
            }
        }
        k += 1;
    }
    assert(wv.subrange(0, ws.len() as int) =~= wv);
    r
}

fn count_found_exec(ws: &Vec<Vec<char>>, title: &Vec<char>) -> (r: usize)
    ensures
        r == count_found(ws@.map_values(|w: Vec<char>| w@), title@),
{
    let ghost wv = ws@.map_values(|w: Vec<char>| w@);
    let mut n: usize = 0;
    let mut k: usize = 0;
    while k < ws.len()
        invariant
            k <= ws.len(),
            wv == ws@.map_values(|w: Vec<char>| w@),
            n == count_found(wv.subrange(0, k as int), title@),
            n <= k,
        decreases ws.len() - k,
    {
        assert(wv.subrange(0, k + 1).drop_last() =~= wv.subrange(0, k as int));
        if contains(title, &ws[k]) {
            n += 1;
        }
        k += 1;
    }
    assert(wv.subrange(0, ws.len() as int) =~= wv);
    n
}

fn rule_accepts_exec(rule: TitleRule, found: usize, n: usize) -> (r: bool)
    requires
        found <= n,
    ensures
        r == rule_accepts(rule, found as nat, n as nat),
{
    let f = found as u128;
    let m = n as u128;
    match rule {
        TitleRule::Context => if m <= 3 {
            2 * f >= m
        } else if m <= 6 {
            20 * f >= 9 * m
        } else {
            5 * f >= 2 * m
        },
        TitleRule::Direct => if m <= 3 {
            f >= m
        } else {
            10 * f >= 7 * m
        },
    }
}

/// The law key of the first title equal to `t`.
fn exact_title_exec(titles: &Vec<(String, String)>, t: &String) -> (r: Option<String>)
    ensures
        opt_view(r) == exact_title(titles_view(titles@), t@),
{
    let ghost tv = titles_view(titles@);
    assert(tv.subrange(0, tv.len() as int) =~= tv);
    let mut k: usize = 0;
    while k < titles.len()
        invariant
            k <= titles.len(),
            tv == titles_view(titles@),
            exact_title(tv, t@) == exact_title(tv.subrange(k as int, tv.len() as int), t@),
        decreases titles.len() - k,
    {
        let ghost rest = tv.subrange(k as int, tv.len() as int);
        assert(rest.drop_first() =~= tv.subrange(k + 1, tv.len() as int));
        assert(rest[0] == tv[k as int]);
        if titles[k].0 == *t {
            return Some(titles[k].1.clone());
        }
        k += 1;
    }
    None
}

/// The law key that a normalized text resolves to under `rule`.
fn match_title(normalized: &String, titles: &Vec<(String, String)>, rule: TitleRule, vocab: &Vocabulary) -> (r: Option<String>)
    requires
        vocab.wf(),
    ensures
        opt_view(r) == title_match(titles_view(titles@), normalized@, rule),
{
    let ghost tv = titles_view(titles@);
    match exact_title_exec(titles, normalized) {
        Some(k) => {
            return Some(k);
        },
        None => {},
    }
    let chars = chars_of(normalized.as_str());
    let all_words = words_exec(&chars);
    let ws = distinctive_exec(&all_words, rule, vocab);
    let ghost wv = ws@.map_values(|w: Vec<char>| w@);
    if ws.len() < 2 {
        return None;
    }
    let mut best: Option<(String, usize)> = None;
    let mut k: usize = 0;
    while k < titles.len()
        invariant
            k <= titles.len(),
            tv == titles_view(titles@),
            wv == ws@.map_values(|w: Vec<char>| w@),
            2 <= ws.len(),
            match best {
                Some(b) => best_title(tv.subrange(0, k as int), wv, rule) == Some((b.0@, b.1 as nat)),
                None => best_title(tv.subrange(0, k as int), wv, rule) is None,
            },
        decreases titles.len() - k,
    {
        assert(tv.subrange(0, k + 1).drop_last() =~= tv.subrange(0, k as int));
        let title = &titles[k].0;
        let title_chars = chars_of(title.as_str());
        let long_enough = utf8_len_exceeds(&title_chars, 19);
        if long_enough {
            let found = count_found_exec(&ws, &title_chars);
            proof {
                lemma_count_found_bound(wv, title@);
            }
            let better = match &best {
                Some(b) => found > b.1,
                None => true,
            };
            if better && rule_accepts_exec(rule, found, ws.len()) {
                best = Some((titles[k].1.clone(), found));
            }
        }
        k += 1;
    }
    assert(tv.subrange(0, titles.len() as int) =~= tv);
    match best {
        Some(b) => Some(b.0),
        None => None,
    }
}

proof fn lemma_count_found_bound(ws: Seq<Seq<char>>, t: Seq<char>)
    ensures
        count_found(ws, t) <= ws.len(),
    decreases ws.len(),
{
    if ws.len() > 0 {
        lemma_count_found_bound(ws.drop_last(), t);
    }
}

/// The law key of the title that a context text names: footnote numbers
/// dropped, normalized, then matched exactly or by its distinctive words.
/// Where titles tie, the first in the table wins.
pub fn find_law_by_title(text: &str, titles: &Vec<(String, String)>, vocab: &Vocabulary) -> (r: Option<String>)
    requires
        vocab.wf(),
    ensures
        opt_view(r) == title_match(
            titles_view(titles@),
            normalized_text(regex_replaced(FOOTNOTE_NUMBER@, text@, FOOTNOTE_REPAIR@)),
            TitleRule::Context,
        ),
{
    let cleaned = clean_law_title(text);
    let normalized = normalize_text(cleaned.as_str());
    match_title(&normalized, titles, TitleRule::Context, vocab)
}

/// The law key of the title that a citation names: parenthetical asides
/// dropped, normalized, then matched exactly or by its distinctive words.
/// Where titles tie, the first in the table wins.
pub fn find_law_by_title_direct(citation: &str, titles: &Vec<(String, String)>, vocab: &Vocabulary) -> (r: Option<String>)
    requires
        vocab.wf(),
    ensures
        opt_view(r) == title_match(
            titles_view(titles@),
            normalized_text(regex_replaced(PAREN_ASIDE@, citation@, ""@)),
            TitleRule::Direct,
        ),
{
    let normalized = normalize_title_for_matching(citation);
    match_title(&normalized, titles, TitleRule::Direct, vocab)
}

/// The law keys of a title table are all non-empty.
pub open spec fn keys_nonempty(table: Seq<(Seq<char>, Seq<char>)>) -> bool {
    forall|i: int| 0 <= i < table.len() ==> (#[trigger] table[i]).1.len() > 0
}

proof fn lemma_exact_title_nonempty(table: Seq<(Seq<char>, Seq<char>)>, t: Seq<char>)
    requires
        keys_nonempty(table),
    ensures
        exact_title(table, t) matches Some(k) ==> k.len() > 0,
    decreases table.len(),
{
    if table.len() > 0 && table[0].0 != t {
        assert(keys_nonempty(table.drop_first())) by {
            assert forall|i: int| 0 <= i < table.drop_first().len() implies (#[trigger] table.drop_first()[i]).1.len() > 0 by {
                assert(table.drop_first()[i] == table[i + 1]);
            }
        }
        lemma_exact_title_nonempty(table.drop_first(), t);
    } else if table.len() > 0 {
        assert(table[0].1.len() > 0);
    }
}

proof fn lemma_best_title_nonempty(table: Seq<(Seq<char>, Seq<char>)>, ws: Seq<Seq<char>>, rule: TitleRule)
    requires
        keys_nonempty(table),
    ensures
        best_title(table, ws, rule) matches Some(p) ==> p.0.len() > 0,
    decreases table.len(),
{
    if table.len() > 0 {
        assert(keys_nonempty(table.drop_last())) by {
            assert forall|i: int| 0 <= i < table.drop_last().len() implies (#[trigger] table.drop_last()[i]).1.len() > 0 by {
                assert(table.drop_last()[i] == table[i]);
            }
        }
        lemma_best_title_nonempty(table.drop_last(), ws, rule);
        assert(table.last() == table[table.len() - 1]);
    }
}

/// A title match gives a non-empty law key where the table's keys are.
pub proof fn lemma_title_match_nonempty(table: Seq<(Seq<char>, Seq<char>)>, normalized: Seq<char>, rule: TitleRule)
    requires
        keys_nonempty(table),
    ensures
        title_match(table, normalized, rule) matches Some(k) ==> k.len() > 0,
{
    lemma_exact_title_nonempty(table, normalized);
    let ws = distinctive(words_of(normalized), rule_min_len(rule), rule_stop_words(rule));
    lemma_best_title_nonempty(table, ws, rule);
}

} // verus!
