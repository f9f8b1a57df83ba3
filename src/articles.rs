//! Article-number sets and their extraction from citation text.
//!
//! Three forms of article reference are recognised, each introduced by the
//! marker `art` in any letter case, an optional `.`, and optional white space:
//!
//! * `Art. N ff` (also `ss`, `sq`, `sqq`): the articles `N` to `N + 10`;
//! * `Art. N-M` (also `à`, `bis`): the articles `N` to `M`, when `N <= M`;
//! * `Art. N`: the article `N`.
//!
//! Every position at which the marker stands contributes independently, and
//! a number that does not fit in a `u32` contributes nothing.
use vstd::prelude::*;
use ahash::AHashSet;
use crate::text::{chars_of, is_space, is_space_spec, is_digit_spec};

verus! {

#[verifier::external_type_specification]
#[verifier::external_body]
#[verifier::reject_recursive_types(T)]
#[verifier::reject_recursive_types(S)]
pub struct ExAHashSet<T, S>(AHashSet<T, S>);

#[verifier::external_type_specification]
#[verifier::external_body]
pub struct ExRandomState(ahash::RandomState);

/// The members of a set of article numbers.
pub uninterp spec fn article_set_contents(s: AHashSet<u32>) -> Set<u32>;

/// Relies on `ahash::AHashSet::new`: a set with no members.
#[verifier::external_body]
pub fn new_article_set() -> (r: AHashSet<u32>)
    ensures
        article_set_contents(r) == Set::<u32>::empty(),
{
    AHashSet::new()
}

/// Relies on `HashSet::insert`, which `AHashSet` dereferences to: the number
/// becomes a member and the other members stay.
#[verifier::external_body]
pub fn insert_article(s: &mut AHashSet<u32>, n: u32)
    ensures
        article_set_contents(*final(s)) == article_set_contents(*old(s)).insert(n),
{
    s.insert(n);
}

/// Relies on `&AHashSet & &AHashSet` (`BitAnd`): a new set of the numbers
/// that both hold.
#[verifier::external_body]
pub fn common_articles(a: &AHashSet<u32>, b: &AHashSet<u32>) -> (r: AHashSet<u32>)
    ensures
        article_set_contents(r) == article_set_contents(*a).intersect(article_set_contents(*b)),
{
    a & b
}

/// Relies on `HashSet::iter`, which `AHashSet` dereferences to: each member
/// once, in an order that the hasher decides.
#[verifier::external_body]
pub fn article_members(s: &AHashSet<u32>) -> (r: Vec<u32>)
    ensures
        r@.to_set() == article_set_contents(*s),
        r@.no_duplicates(),
{
    s.iter().copied().collect()
}

/// `c` is the ASCII letter `lower`, in either case.
pub open spec fn ci_is(c: char, lower: char) -> bool {
    c == lower || (c as u32) + 32 == (lower as u32)
}

pub fn ci_is_exec(c: char, lower: char) -> (r: bool)
    requires
        'a' <= lower <= 'z',
    ensures
        r == ci_is(c, lower),
{
    c == lower || (c as u32) + 32 == (lower as u32)
}

/// The marker `art` starts at `i`.
pub open spec fn art_at(s: Seq<char>, i: int) -> bool {
    0 <= i && i + 3 <= s.len() && ci_is(s[i], 'a') && ci_is(s[i + 1], 'r') && ci_is(s[i + 2], 't')
}

pub open spec fn after_dot(s: Seq<char>, i: int) -> int {
    if 0 <= i < s.len() && s[i] == '.' {
        i + 1
    } else {
        i
    }
}

/// The first position at or after `i` that holds no white space.
pub open spec fn skip_spaces(s: Seq<char>, i: int) -> int
    decreases s.len() - i,
{
    if 0 <= i < s.len() && is_space_spec(s[i]) {
        skip_spaces(s, i + 1)
    } else {
        i
    }
}

/// The first position at or after `i` that holds no ASCII digit.
pub open spec fn skip_digits(s: Seq<char>, i: int) -> int
    decreases s.len() - i,
{
    if 0 <= i < s.len() && is_digit_spec(s[i]) {
        skip_digits(s, i + 1)
    } else {
        i
    }
}

/// The decimal value of a run of ASCII digits.
pub open spec fn digits_value(d: Seq<char>) -> nat
    decreases d.len(),
{
    if d.len() == 0 {
        0
    } else {
        digits_value(d.drop_last()) * 10 + ((d.last() as int) - ('0' as int)) as nat
    }
}

pub open spec fn number_start(s: Seq<char>, i: int) -> int {
    skip_spaces(s, after_dot(s, i + 3))
}

pub open spec fn number_end(s: Seq<char>, i: int) -> int {
    skip_digits(s, number_start(s, i))
}

/// An article reference `art N` starts at `i`.
pub open spec fn has_number(s: Seq<char>, i: int) -> bool {
    art_at(s, i) && number_end(s, i) > number_start(s, i)
}

pub open spec fn first_number(s: Seq<char>, i: int) -> nat {
    digits_value(s.subrange(number_start(s, i), number_end(s, i)))
}

/// `ss`, `ff` or `sq`, in either case, starts at `j`.
pub open spec fn following_at(s: Seq<char>, j: int) -> bool {
    0 <= j && j + 2 <= s.len() && (
        (ci_is(s[j], 's') && ci_is(s[j + 1], 's'))
        || (ci_is(s[j], 'f') && ci_is(s[j + 1], 'f'))
        || (ci_is(s[j], 's') && ci_is(s[j + 1], 'q')))
}

/// The reference at `i` is open-ended: `art N ff`.
pub open spec fn open_ended_at(s: Seq<char>, i: int) -> bool {
    has_number(s, i) && following_at(s, skip_spaces(s, number_end(s, i)))
}

/// The length of the range separator (`-`, `à`, `bis`) at `j`, or 0.
pub open spec fn separator_len(s: Seq<char>, j: int) -> int {
    if 0 <= j < s.len() && (s[j] == '-' || s[j] == 'à' || s[j] == 'À') {
        1
    } else if 0 <= j && j + 3 <= s.len() && ci_is(s[j], 'b') && ci_is(s[j + 1], 'i') && ci_is(
        s[j + 2],
        's',
    ) {
        3
    } else {
        0
    }
}

pub open spec fn separator_start(s: Seq<char>, i: int) -> int {
    skip_spaces(s, number_end(s, i))
}

pub open spec fn second_start(s: Seq<char>, i: int) -> int {
    skip_spaces(s, separator_start(s, i) + separator_len(s, separator_start(s, i)))
}

pub open spec fn second_end(s: Seq<char>, i: int) -> int {
    skip_digits(s, second_start(s, i))
}

/// The reference at `i` is a range: `art N-M`.
pub open spec fn range_at(s: Seq<char>, i: int) -> bool {
    has_number(s, i) && separator_len(s, separator_start(s, i)) > 0 && second_end(s, i)
        > second_start(s, i)
}

pub open spec fn second_number(s: Seq<char>, i: int) -> nat {
    digits_value(s.subrange(second_start(s, i), second_end(s, i)))
}

/// The article `n` is referred to by the reference that starts at `i`.
pub open spec fn contributes(s: Seq<char>, i: int, n: u32) -> bool {
    &&& has_number(s, i)
    &&& first_number(s, i) <= u32::MAX
    &&& {
        ||| n == first_number(s, i)
        ||| (open_ended_at(s, i) && first_number(s, i) <= n <= first_number(s, i) + 10)
        ||| (range_at(s, i) && second_number(s, i) <= u32::MAX && first_number(s, i) <= n
            <= second_number(s, i))
    }
}

/// The article numbers that a citation refers to.
pub open spec fn article_numbers(s: Seq<char>) -> Set<u32> {
    Set::new(|n: u32| exists|i: int| 0 <= i < s.len() && contributes(s, i, n))
}

pub(crate) fn skip_spaces_exec(s: &Vec<char>, i: usize) -> (r: usize)
    requires
        i <= s.len(),
    ensures
        r as int == skip_spaces(s@, i as int),
        i <= r <= s.len(),
{
    let mut j = i;
    while j < s.len() && is_space(s[j])
        invariant
            i <= j <= s.len(),
            skip_spaces(s@, j as int) == skip_spaces(s@, i as int),
        decreases s.len() - j,
    {
        j += 1;
    }
    j
}

pub(crate) fn skip_digits_exec(s: &Vec<char>, i: usize) -> (r: usize)
    requires
        i <= s.len(),
    ensures
        r as int == skip_digits(s@, i as int),
        i <= r <= s.len(),
{
    let mut j = i;
    while j < s.len() && '0' <= s[j] && s[j] <= '9'
        invariant
            i <= j <= s.len(),
            skip_digits(s@, j as int) == skip_digits(s@, i as int),
        decreases s.len() - j,
    {
        j += 1;
    }
    j
}

proof fn lemma_skip_digits_all(s: Seq<char>, i: int)
    requires
        0 <= i <= s.len(),
    ensures
        i <= skip_digits(s, i) <= s.len(),
        forall|k: int| i <= k < skip_digits(s, i) ==> is_digit_spec(#[trigger] s[k]),
    decreases s.len() - i,
{
    if i < s.len() && is_digit_spec(s[i]) {
        lemma_skip_digits_all(s, i + 1);
    }
}

proof fn lemma_skip_spaces_range(s: Seq<char>, i: int)
    requires
        0 <= i <= s.len(),
    ensures
        i <= skip_spaces(s, i) <= s.len(),
    decreases s.len() - i,
{
    if i < s.len() && is_space_spec(s[i]) {
        lemma_skip_spaces_range(s, i + 1);
    }
}

proof fn lemma_digits_value_grows(d: Seq<char>, c: char)
    requires
        is_digit_spec(c),
    ensures
        digits_value(d.push(c)) == digits_value(d) * 10 + ((c as int) - ('0' as int)),
        digits_value(d.push(c)) >= digits_value(d),
{
    assert(d.push(c).drop_last() =~= d);
}

/// The value of the digits `s[from..to]`, where it fits in a `u32`.
fn parse_digits(s: &Vec<char>, from: usize, to: usize) -> (r: Option<u32>)
    requires
        from <= to <= s.len(),
        forall|k: int| from <= k < to ==> is_digit_spec(#[trigger] s@[k]),
    ensures
        r matches Some(v) ==> v as nat == digits_value(s@.subrange(from as int, to as int)),
        r is None <==> digits_value(s@.subrange(from as int, to as int)) > u32::MAX,
{
    let mut acc: u64 = 0;
    let mut big = false;
    let mut k = from;
    while k < to
        invariant
            from <= k <= to <= s.len(),
            forall|m: int| from <= m < to ==> is_digit_spec(#[trigger] s@[m]),
            !big ==> acc as nat == digits_value(s@.subrange(from as int, k as int)),
            !big ==> acc <= u32::MAX,
            big ==> digits_value(s@.subrange(from as int, k as int)) > u32::MAX,
        decreases to - k,
    {
        let c = s[k];
        proof {
            assert(s@.subrange(from as int, k + 1) =~= s@.subrange(from as int, k as int).push(c));
            lemma_digits_value_grows(s@.subrange(from as int, k as int), c);
        }
        if !big {
            let d = (c as u32 - '0' as u32) as u64;
            acc = acc * 10 + d;
            if acc > 0xFFFF_FFFF {
                big = true;
            }
        }
        k += 1;
    }
    if big {
        None
    } else {
        Some(acc as u32)
    }
}

/// Adds the numbers `a..=b` to `set`.
fn insert_range(set: &mut AHashSet<u32>, a: u32, b: u32)
    ensures
        article_set_contents(*final(set)) == article_set_contents(*old(set)).union(
            Set::new(|n: u32| a <= n <= b),
        ),
{
    let ghost start = article_set_contents(*set);
    if a > b {
        assert(Set::new(|n: u32| a <= n <= b) =~= Set::<u32>::empty());
        assert(start.union(Set::<u32>::empty()) =~= start);
        return;
    }
    let mut n: u64 = a as u64;
    while n <= b as u64
        invariant
            a <= n <= b as u64 + 1,
            article_set_contents(*set) == start.union(Set::new(|m: u32| a <= m && (m as u64) < n)),
        decreases b as u64 + 1 - n,
    {
        insert_article(set, n as u32);
        assert(start.union(Set::new(|m: u32| a <= m && (m as u64) < n)).insert(n as u32)
            =~= start.union(Set::new(|m: u32| a <= m && (m as u64) < n + 1)));
        n += 1;
    }
    assert(Set::new(|m: u32| a <= m && (m as u64) < n) =~= Set::new(|m: u32| a <= m <= b));
}

/// Adds to `set` the numbers that the reference starting at `i` refers to.
fn add_numbers_at(s: &Vec<char>, i: usize, set: &mut AHashSet<u32>)
    requires
        i < s.len(),
    ensures
        article_set_contents(*final(set)) == article_set_contents(*old(set)).union(
            Set::new(|n: u32| contributes(s@, i as int, n)),
        ),
{
    let ghost sq = s@;
    let ghost start = article_set_contents(*set);
    let ghost here = Set::new(|n: u32| contributes(sq, i as int, n));
    if !(s.len() - i >= 3 && ci_is_exec(s[i], 'a') && ci_is_exec(s[i + 1], 'r') && ci_is_exec(
        s[i + 2],
        't',
    )) {
        assert(here =~= Set::<u32>::empty());
        assert(start.union(here) =~= start);
        return;
    }
    let dot = if s.len() - i > 3 && s[i + 3] == '.' {
        i + 4
    } else {
        i + 3
    };
    assert(dot as int == after_dot(sq, i + 3));
    let ns = skip_spaces_exec(s, dot);
    let ne = skip_digits_exec(s, ns);
    proof {
        lemma_skip_digits_all(sq, ns as int);
    }
    if ne == ns {
        assert(here =~= Set::<u32>::empty());
        assert(start.union(here) =~= start);
        return;
    }
    let first = match parse_digits(s, ns, ne) {
        Some(v) => v,
        None => {
            assert(here =~= Set::<u32>::empty());
            assert(start.union(here) =~= start);
            return;
        },
    };
    insert_article(set, first);
    let sep = skip_spaces_exec(s, ne);
    // open-ended reference
    let open = s.len() - sep >= 2 && (
        (ci_is_exec(s[sep], 's') && ci_is_exec(s[sep + 1], 's'))
        || (ci_is_exec(s[sep], 'f') && ci_is_exec(s[sep + 1], 'f'))
        || (ci_is_exec(s[sep], 's') && ci_is_exec(s[sep + 1], 'q')));
    assert(open == open_ended_at(sq, i as int));
    if open {
        let top = if first > u32::MAX - 10 {
            u32::MAX
        } else {
            first + 10
        };
        insert_range(set, first, top);
    }
    // range reference
    let sep_len: usize = if sep < s.len() && (s[sep] == '-' || s[sep] == 'à' || s[sep] == 'À') {
        1
    } else if s.len() - sep >= 3 && ci_is_exec(s[sep], 'b') && ci_is_exec(s[sep + 1], 'i')
        && ci_is_exec(s[sep + 2], 's') {
        3
    } else {
        0
    };
    assert(sep_len as int == separator_len(sq, sep as int));
    if sep_len > 0 {
        let ss = skip_spaces_exec(s, sep + sep_len);
        let se = skip_digits_exec(s, ss);
        proof {
            lemma_skip_digits_all(sq, ss as int);
        }
        if se > ss {
            match parse_digits(s, ss, se) {
                Some(second) => {
                    insert_range(set, first, second);
                    assert(range_at(sq, i as int) && second_number(sq, i as int) == second);
                },
                None => {},
            }
        }
    }
    proof {
        assert(article_set_contents(*set) =~= start.union(here));
    }
}

/// The article numbers that `citation` refers to.
pub fn extract_article_numbers(citation: &str) -> (r: AHashSet<u32>)
    ensures
        article_set_contents(r) == article_numbers(citation@),
{
    let s = chars_of(citation);
    let mut set = new_article_set();
    let mut i: usize = 0;
    while i < s.len()
        invariant
            i <= s.len(),
            s@ == citation@,
            article_set_contents(set) == Set::new(
                |n: u32| exists|j: int| 0 <= j < i && contributes(s@, j, n),
            ),
        decreases s.len() - i,
    {
        let ghost before = article_set_contents(set);
        add_numbers_at(&s, i, &mut set);
        proof {
            let next = Set::new(|n: u32| exists|j: int| 0 <= j < i + 1 && contributes(s@, j, n));
            assert forall|n: u32| next.contains(n) implies #[trigger] article_set_contents(
                set,
            ).contains(n) by {
                let j = choose|j: int| 0 <= j < i + 1 && contributes(s@, j, n);
                if j < i {
                    assert(before.contains(n));
                }
            }
            assert(article_set_contents(set) =~= next);
        }
        i += 1;
    }
    assert(Set::new(|n: u32| exists|j: int| 0 <= j < s.len() && contributes(s@, j, n))
        =~= article_numbers(citation@));
    set
}

proof fn lemma_skip_digits_to(s: Seq<char>, i: int, e: int)
    requires
        0 <= i <= e <= s.len(),
        forall|k: int| i <= k < e ==> is_digit_spec(#[trigger] s[k]),
        e == s.len() || !is_digit_spec(s[e]),
    ensures
        skip_digits(s, i) == e,
    decreases e - i,
{
    if i < e {
        lemma_skip_digits_to(s, i + 1, e);
    }
}

/// A range whose end is below its start contributes no number of the range:
/// the reference refers to its first number alone.
pub proof fn lemma_descending_range_adds_nothing(s: Seq<char>, i: int)
    requires
        range_at(s, i),
        second_number(s, i) < first_number(s, i),
    ensures
        forall|n: u32| contributes(s, i, n) ==> n == first_number(s, i),
{
    let j = separator_start(s, i);
    assert(!following_at(s, j));
}

/// `Art. N ff`, with no other reference, refers to exactly the eleven articles
/// `N` to `N + 10`.
pub proof fn lemma_open_ended_window(d: Seq<char>)
    requires
        d.len() > 0,
        forall|k: int| 0 <= k < d.len() ==> is_digit_spec(#[trigger] d[k]),
        digits_value(d) + 10 <= u32::MAX,
    ensures
        article_numbers(seq!['A', 'r', 't', '.', ' '] + d + seq![' ', 'f', 'f']) == Set::new(
            |n: u32| digits_value(d) <= n <= digits_value(d) + 10,
        ),
{
    let s = seq!['A', 'r', 't', '.', ' '] + d + seq![' ', 'f', 'f'];
    let e: int = 5 + d.len() as int;
    assert(s[e] == ' ' && s[e + 1] == 'f' && s[e + 2] == 'f');
    assert(forall|k: int| 0 <= k < d.len() ==> s[5 + k] == d[k]);
    assert(skip_spaces(s, 5) == 5) by {
        assert(is_digit_spec(s[5]));
    }
    assert(skip_spaces(s, 4) == 5);
    assert(number_start(s, 0) == 5);
    assert(forall|k: int| 5 <= k < e ==> is_digit_spec(#[trigger] s[k])) by {
        assert forall|k: int| 5 <= k < e implies is_digit_spec(#[trigger] s[k]) by {
            assert(s[k] == d[k - 5]);
        }
    }
    lemma_skip_digits_to(s, 5, e);
    assert(s.subrange(5, e) =~= d);
    assert(skip_spaces(s, e + 1) == e + 1);
    assert(skip_spaces(s, e) == e + 1);
    assert(open_ended_at(s, 0));
    assert(separator_len(s, e + 1) == 0);
    assert(!range_at(s, 0));
    assert forall|j: int| 0 < j < s.len() implies !art_at(s, j) by {
        if j >= 5 && j < e {
            assert(s[j] == d[j - 5]);
        }
    }
    let w = Set::new(|n: u32| digits_value(d) <= n <= digits_value(d) + 10);
    assert forall|n: u32| article_numbers(s).contains(n) <==> w.contains(n) by {
        if article_numbers(s).contains(n) {
            let j = choose|j: int| 0 <= j < s.len() && contributes(s, j, n);
            assert(j == 0);
        }
        if w.contains(n) {
            assert(contributes(s, 0, n));
        }
    }
    assert(article_numbers(s) =~= w);
}

} // verus!
