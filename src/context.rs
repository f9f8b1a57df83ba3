//! Locating a citation in its fragment's text and cutting a window of
//! context around it.
use vstd::prelude::*;
use crate::citation::slice_chars;
use crate::text::{chars_of, find_first, is_space_spec, lower_of, occurs_at, contains_spec, string_of, to_lower};
use crate::title::{collapse_ws, collapse_ws_exec, words_exec, words_of};

verus! {

/// Words of context taken on each side of a citation found by its words.
pub const CONTEXT_WORDS: usize = 20;

/// The first position at which `needle` stands in `hay`.
pub open spec fn first_occurrence(hay: Seq<char>, needle: Seq<char>) -> int {
    choose|p: int| occurs_at(hay, needle, p) && forall|j: int| 0 <= j < p ==> !occurs_at(hay, needle, j)
}

proof fn lemma_first_occurrence(hay: Seq<char>, needle: Seq<char>, p: int)
    requires
        occurs_at(hay, needle, p),
        forall|j: int| 0 <= j < p ==> !occurs_at(hay, needle, j),
    ensures
        first_occurrence(hay, needle) == p,
{
    let q = first_occurrence(hay, needle);
    assert(occurs_at(hay, needle, q) && forall|j: int| 0 <= j < q ==> !occurs_at(hay, needle, j));
    if q < p {
        assert(!occurs_at(hay, needle, q));
    } else if q > p {
        assert(!occurs_at(hay, needle, p));
    }
}

/// How often `c` stands in `s`.
pub open spec fn count_char(s: Seq<char>, c: char) -> nat
    decreases s.len(),
{
    if s.len() == 0 {
        0
    } else {
        count_char(s.drop_last(), c) + if s.last() == c {
            1nat
        } else {
            0nat
        }
    }
}

/// The position just after the parenthesis that brings `balance` open
/// parentheses, scanning from `from`, to zero; the end of `s` if none does.
pub open spec fn balance_end(s: Seq<char>, from: int, balance: nat) -> int
    decreases s.len() - from,
{
    if from < 0 || from >= s.len() {
        s.len() as int
    } else if s[from] == '(' {
        balance_end(s, from + 1, balance + 1)
    } else if s[from] == ')' {
        if balance <= 1 {
            from + 1
        } else {
            balance_end(s, from + 1, (balance - 1) as nat)
        }
    } else {
        balance_end(s, from + 1, balance)
    }
}

/// The balance left after the characters of `w` from `k` on, or 0 as soon as
/// it reaches zero.
pub open spec fn scan_word(w: Seq<char>, k: int, balance: nat) -> nat
    decreases w.len() - k,
{
    if k < 0 || k >= w.len() {
        balance
    } else if w[k] == '(' {
        scan_word(w, k + 1, balance + 1)
    } else if w[k] == ')' {
        if balance <= 1 {
            0
        } else {
            scan_word(w, k + 1, (balance - 1) as nat)
        }
    } else {
        scan_word(w, k + 1, balance)
    }
}

/// The index just after the word in which `balance` open parentheses close,
/// scanning words from `from`; the number of words if they never do.
pub open spec fn word_balance_end(ws: Seq<Seq<char>>, from: int, balance: nat) -> int
    decreases ws.len() - from,
{
    if from < 0 || from >= ws.len() {
        ws.len() as int
    } else if scan_word(ws[from], 0, balance) == 0 {
        from + 1
    } else {
        word_balance_end(ws, from + 1, scan_word(ws[from], 0, balance))
    }
}

/// Words joined by single spaces.
pub open spec fn join_words(ws: Seq<Seq<char>>) -> Seq<char>
    decreases ws.len(),
{
    if ws.len() == 0 {
        Seq::empty()
    } else if ws.len() == 1 {
        ws[0]
    } else {
        join_words(ws.drop_last()).push(' ') + ws.last()
    }
}

pub open spec fn min_int(a: int, b: int) -> int {
    if a <= b {
        a
    } else {
        b
    }
}

pub open spec fn max_int(a: int, b: int) -> int {
    if a >= b {
        a
    } else {
        b
    }
}

/// The citation, extended to balance its parentheses, and a window of `size`
/// characters on each side, where the lower-case citation `cl` stands in the
/// lower-case content `tl`.
pub open spec fn exact_window(
    citation: Seq<char>,
    content: Seq<char>,
    cl: Seq<char>,
    tl: Seq<char>,
    size: nat,
) -> (Seq<char>, Seq<char>) {
    let p = first_occurrence(tl, cl);
    let n = content.len() as int;
    let start = if p < n {
        p
    } else {
        0
    };
    let cit_end = start + citation.len();
    let open = count_char(citation, '(');
    let close = count_char(citation, ')');
    let ext = if open > close {
        balance_end(content, cit_end, (open - close) as nat)
    } else {
        cit_end
    };
    (
        content.subrange(start, min_int(ext, n)),
        content.subrange(max_int(start - size, 0), min_int(ext + size, n)),
    )
}

/// The citation, extended to balance its parentheses, and a window of
/// `CONTEXT_WORDS` words on each side, where the words of the lower-case
/// citation `cl` stand in those of the lower-case content `tl`. The word
/// positions are clamped to the content's words; none where the content has
/// no words.
pub open spec fn word_window(
    citation: Seq<char>,
    content: Seq<char>,
    cl: Seq<char>,
    tl: Seq<char>,
) -> Option<(Seq<char>, Seq<char>)> {
    let cn = collapse_ws(cl);
    let tn = collapse_ws(tl);
    let pos = first_occurrence(tn, cn);
    let cw = words_of(content);
    let len = cw.len() as int;
    let found = words_of(tn.subrange(0, pos)).len() as int;
    let wb = min_int(found, len);
    let we = min_int(found + words_of(cn).len(), len);
    let ct = join_words(cw.subrange(wb, we));
    let open = count_char(ct, '(');
    let close = count_char(ct, ')');
    let ce = if open > close {
        word_balance_end(cw, we, (open - close) as nat)
    } else {
        we
    };
    let sw = max_int(wb - CONTEXT_WORDS, 0);
    let ew = min_int(ce + CONTEXT_WORDS, len);
    if len > 0 {
        Some((join_words(cw.subrange(wb, ce)), join_words(cw.subrange(sw, ew))))
    } else {
        None
    }
}

/// Given the lower-case forms `cl` and `tl` of the citation and the
/// content: where `cl` stands in `tl`, the exact window; else, where the
/// words of `cl` stand in those of `tl`, the word window; else none.
pub open spec fn context_from_lowered(
    citation: Seq<char>,
    content: Seq<char>,
    cl: Seq<char>,
    tl: Seq<char>,
    size: nat,
) -> Option<(Seq<char>, Seq<char>)> {
    if contains_spec(tl, cl) {
        Some(exact_window(citation, content, cl, tl, size))
    } else if contains_spec(collapse_ws(tl), collapse_ws(cl)) {
        word_window(citation, content, cl, tl)
    } else {
        None
    }
}

/// Where the citation stands in the content, letter case aside, its exact
/// window; else, where its words stand in the content's words, its word
/// window; else none.
pub open spec fn citation_context(citation: Seq<char>, content: Seq<char>, size: nat) -> Option<(Seq<char>, Seq<char>)> {
    context_from_lowered(citation, content, lower_of(citation), lower_of(content), size)
}

pub open spec fn pair_view(r: Option<(String, String)>) -> Option<(Seq<char>, Seq<char>)> {
    match r {
        Some(p) => Some((p.0@, p.1@)),
        None => None,
    }
}

fn count_char_exec(s: &Vec<char>, c: char) -> (r: usize)
    ensures
        r == count_char(s@, c),
        r <= s.len(),
{
    let mut n: usize = 0;
    let mut k: usize = 0;
    while k < s.len()
        invariant
            k <= s.len(),
            n == count_char(s@.subrange(0, k as int), c),
            n <= k,
        decreases s.len() - k,
    {
        assert(s@.subrange(0, k + 1).drop_last() =~= s@.subrange(0, k as int));
        if s[k] == c {
            n += 1;
        }
        k += 1;
    }
    assert(s@.subrange(0, s.len() as int) =~= s@);
    n
}

fn balance_end_exec(s: &Vec<char>, from: usize, balance: usize) -> (r: usize)
    requires
        balance >= 1,
    ensures
        r as int == balance_end(s@, from as int, balance as nat),
        r <= s.len(),
        r >= from || r == s.len(),
{
    if from >= s.len() {
        return s.len();
    }
    let mut b: u128 = balance as u128;
    let mut i = from;
    while i < s.len()
        invariant
            from <= i <= s.len(),
            b >= 1,
            b <= balance + (i - from),
            balance_end(s@, from as int, balance as nat) == balance_end(s@, i as int, b as nat),
        decreases s.len() - i,
    {
        if s[i] == '(' {
            b += 1;
        } else if s[i] == ')' {
            if b <= 1 {
                return i + 1;
            }
            b -= 1;
        }
        i += 1;
    }
    s.len()
}

fn scan_word_exec(w: &Vec<char>, balance: u128) -> (r: u128)
    requires
        balance + w.len() <= u128::MAX,
    ensures
        r as nat == scan_word(w@, 0, balance as nat),
        r <= balance + w.len(),
{
    let mut b = balance;
    let mut k: usize = 0;
    while k < w.len()
        invariant
            k <= w.len(),
            balance + w.len() <= u128::MAX,
            b <= balance + k,
            scan_word(w@, 0, balance as nat) == scan_word(w@, k as int, b as nat),
        decreases w.len() - k,
    {
        if w[k] == '(' {
            b += 1;
        } else if w[k] == ')' {
            if b <= 1 {
                return 0;
            }
            b -= 1;
        }
        k += 1;
    }
    b
}

proof fn lemma_words_bounded(s: Seq<char>)
    ensures
        forall|k: int| 0 <= k < words_of(s).len() ==> #[trigger] words_of(s)[k].len() <= s.len(),
    decreases s.len(),
{
    if s.len() > 0 {
        let r = words_of(s.drop_last());
        lemma_words_bounded(s.drop_last());
        let c = s.last();
        if is_space_spec(c) {
        } else if s.len() >= 2 && !is_space_spec(s[s.len() - 2]) && r.len() > 0 {
            let t = r.drop_last().push(r.last().push(c));
            assert forall|k: int| 0 <= k < t.len() implies #[trigger] t[k].len() <= s.len() by {
                if k < t.len() - 1 {
                    assert(t[k] == r[k]);
                }
            }
        } else {
            let t = r.push(seq![c]);
            assert forall|k: int| 0 <= k < t.len() implies #[trigger] t[k].len() <= s.len() by {
                if k < t.len() - 1 {
                    assert(t[k] == r[k]);
                }
            }
        }
    }
}

proof fn lemma_bound_step(b: int, balance: int, d: int, limit: int, wl: int, nb: int)
    requires
        0 <= d,
        0 <= limit,
        0 <= wl <= limit,
        b <= balance + d * limit,
        nb <= b + wl,
    ensures
        nb <= balance + (d + 1) * limit,
{
    assert((d + 1) * limit == d * limit + limit) by (nonlinear_arith);
}

proof fn lemma_bound_fits(balance: int, d: int, limit: int, wl: int)
    requires
        0 <= balance <= usize::MAX,
        0 <= d <= usize::MAX,
        0 <= wl <= limit <= usize::MAX,
    ensures
        balance + d * limit + wl <= u128::MAX,
{
    assert(d * limit <= usize::MAX * usize::MAX) by (nonlinear_arith)
        requires
            0 <= d <= usize::MAX,
            0 <= limit <= usize::MAX,
    ;
}

fn word_balance_end_exec(ws: &Vec<Vec<char>>, from: usize, balance: usize, limit: usize) -> (r: usize)
    requires
        forall|k: int| 0 <= k < ws@.len() ==> #[trigger] ws@[k]@.len() <= limit,
        balance >= 1,
    ensures
        r as int == word_balance_end(ws@.map_values(|w: Vec<char>| w@), from as int, balance as nat),
        r <= ws.len(),
        r >= from || r == ws.len(),
{
    let ghost wv = ws@.map_values(|w: Vec<char>| w@);
    if from >= ws.len() {
        return ws.len();
    }
    let mut b: u128 = balance as u128;
    let mut i = from;
    while i < ws.len()
        invariant
            from <= i <= ws.len(),
            wv == ws@.map_values(|w: Vec<char>| w@),
            b >= 1,
            b <= balance + (i - from) * limit,
            forall|k: int| 0 <= k < ws@.len() ==> #[trigger] ws@[k]@.len() <= limit,
            word_balance_end(wv, from as int, balance as nat) == word_balance_end(wv, i as int, b as nat),
        decreases ws.len() - i,
    {
        assert(wv[i as int] == ws@[i as int]@);
        proof {
            lemma_bound_fits(balance as int, (i - from) as int, limit as int, ws@[i as int]@.len() as int);
        }
        let nb = scan_word_exec(&ws[i], b);
        if nb == 0 {
            return i + 1;
        }
        proof {
            lemma_bound_step(b as int, balance as int, (i - from) as int, limit as int, ws@[i as int]@.len() as int, nb as int);
        }
        b = nb;
        i += 1;
    }
    ws.len()
}

fn join_words_exec(ws: &Vec<Vec<char>>, a: usize, b: usize) -> (r: Vec<char>)
    requires
        a <= b <= ws.len(),
    ensures
        r@ == join_words(ws@.map_values(|w: Vec<char>| w@).subrange(a as int, b as int)),
{
    let ghost wv = ws@.map_values(|w: Vec<char>| w@);
    let mut r: Vec<char> = Vec::new();
    let mut k = a;
    while k < b
        invariant
            a <= k <= b <= ws.len(),
            wv == ws@.map_values(|w: Vec<char>| w@),
            r@ == join_words(wv.subrange(a as int, k as int)),
        decreases b - k,
    {
        let ghost prev = wv.subrange(a as int, k as int);
        assert(wv.subrange(a as int, k + 1).drop_last() =~= prev);
        if k > a {
            r.push(' ');
        }
        let w = &ws[k];
        let mut j: usize = 0;
        let ghost base = r@;
        while j < w.len()
            invariant
                j <= w.len(),
                r@ == base + w@.subrange(0, j as int),
            decreases w.len() - j,
        {
            r.push(w[j]);
            assert(w@.subrange(0, j + 1) =~= w@.subrange(0, j as int).push(w@[j as int]));
            assert(base + w@.subrange(0, j + 1) =~= (base + w@.subrange(0, j as int)).push(w@[j as int]));
            j += 1;
        }
        proof {
            assert(w@.subrange(0, w@.len() as int) =~= w@);
            assert(wv[k as int] == w@);
            if k == a {
                assert(wv.subrange(a as int, k + 1).len() == 1);
                assert(base =~= Seq::<char>::empty());
                assert(r@ =~= w@);
            }
        }
        k += 1;
    }
    r
}

/// The citation as it stands in `content` (extended to the right until its
/// parentheses balance) and the text around it, given the lower-case forms
/// of both: `context_size` characters on each side where the lower-case
/// citation stands in the lower-case content; else `CONTEXT_WORDS` words on
/// each side where its words stand in the content's words. None only where
/// neither is found, or the content has no words.
pub fn context_from_lowered_text(
    citation: &str,
    content: &str,
    lowered_citation: &str,
    lowered_content: &str,
    context_size: usize,
) -> (r: Option<(String, String)>)
    ensures
        pair_view(r) == context_from_lowered(
            citation@,
            content@,
            lowered_citation@,
            lowered_content@,
            context_size as nat,
        ),
        r is None ==> !contains_spec(lowered_content@, lowered_citation@) && (!contains_spec(
            collapse_ws(lowered_content@),
            collapse_ws(lowered_citation@),
        ) || words_of(content@).len() == 0),
{
    let cl_chars = chars_of(lowered_citation);
    let tl_chars = chars_of(lowered_content);
    let text = chars_of(content);
    let cit = chars_of(citation);
    match find_first(&tl_chars, &cl_chars) {
        Some(p) => {
            proof {
                lemma_first_occurrence(tl_chars@, cl_chars@, p as int);
            }
            let n = text.len();
            let start = if p < n {
                p
            } else {
                0
            };
            let cit_end = if cit.len() > usize::MAX - start {
                usize::MAX
            } else {
                start + cit.len()
            };
            let open = count_char_exec(&cit, '(');
            let close = count_char_exec(&cit, ')');
            let ext = if open > close {
                balance_end_exec(&text, cit_end, open - close)
            } else {
                cit_end
            };
            let stop = if ext < n {
                ext
            } else {
                n
            };
            let complete = slice_chars(&text, start, stop);
            let ctx_start = if start >= context_size {
                start - context_size
            } else {
                0
            };
            let ctx_end = if ext >= n || context_size >= n - ext {
                n
            } else {
                ext + context_size
            };
            let context = slice_chars(&text, ctx_start, ctx_end);
            return Some((string_of(&complete), string_of(&context)));
        },
        None => {},
    }
    let cn = collapse_ws_exec(&cl_chars);
    let tn = collapse_ws_exec(&tl_chars);
    let pos = match find_first(&tn, &cn) {
        Some(pos) => pos,
        None => {
            return None;
        },
    };
    proof {
        lemma_first_occurrence(tn@, cn@, pos as int);
    }
    let before = slice_chars(&tn, 0, pos);
    let found = words_exec(&before).len();
    let wc = words_exec(&cn).len();
    let cw = words_exec(&text);
    let ghost cwv = cw@.map_values(|w: Vec<char>| w@);
    let len = cw.len();
    if len == 0 {
        return None;
    }
    let wb = if found < len {
        found
    } else {
        len
    };
    let we = if found >= len || wc >= len - found {
        len
    } else {
        found + wc
    };
    let ct = join_words_exec(&cw, wb, we);
    let open = count_char_exec(&ct, '(');
    let close = count_char_exec(&ct, ')');
    let ce = if open > close {
        proof {
            lemma_words_bounded(text@);
            assert forall|k: int| 0 <= k < cw@.len() implies #[trigger] cw@[k]@.len() <= text.len() by {
                assert(cwv[k] == cw@[k]@);
            }
        }
        word_balance_end_exec(&cw, we, open - close, text.len())
    } else {
        we
    };
    let sw = if wb >= CONTEXT_WORDS {
        wb - CONTEXT_WORDS
    } else {
        0
    };
    let ew = if CONTEXT_WORDS >= len - ce {
        len
    } else {
        ce + CONTEXT_WORDS
    };
    let complete = join_words_exec(&cw, wb, ce);
    let context = join_words_exec(&cw, sw, ew);
    Some((string_of(&complete), string_of(&context)))
}

/// The citation as it stands in `content` (extended to the right until its
/// parentheses balance) and the text around it: `context_size` characters
/// on each side where the citation stands in the content, letter case
/// aside; else `CONTEXT_WORDS` words on each side where its words stand in
/// the content's words.
pub fn extract_context_around_citation(citation: &str, content: &str, context_size: usize) -> (r: Option<(String, String)>)
    ensures
        pair_view(r) == citation_context(citation@, content@, context_size as nat),
{
    let cl = to_lower(citation);
    let tl = to_lower(content);
    context_from_lowered_text(citation, content, cl.as_str(), tl.as_str(), context_size)
}

} // verus!
