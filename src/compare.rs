//! Pairwise comparison of the citations of one law group.
use vstd::prelude::*;
use crate::articles::{article_members, article_set_contents, common_articles};
use crate::grouping::{group_view, info_view, CitationInfo, CitationView, LawGroup};

verus! {

/// One comparison of two citations of the same law from different fragments.
pub struct CitationMatchRecord {
    pub element1: String,
    pub element2: String,
    pub citation1: String,
    pub citation2: String,
    pub law: String,
    /// Always true: both citations are of `law`.
    pub same_law: bool,
    /// The two citations share an article.
    pub same_article: bool,
    pub articles1: Vec<u32>,
    pub articles2: Vec<u32>,
    pub overlapping_articles: Vec<u32>,
}

pub open spec fn strictly_ascending(v: Seq<u32>) -> bool {
    forall|i: int, j: int| 0 <= i < j < v.len() ==> v[i] < v[j]
}

/// `v` lists the members of `s` in ascending order.
pub open spec fn lists_sorted(v: Seq<u32>, s: Set<u32>) -> bool {
    strictly_ascending(v) && v.to_set() == s
}

/// The articles that two citations share.
pub open spec fn overlap(a: Set<u32>, b: Set<u32>) -> Set<u32> {
    a.intersect(b)
}

/// `r` records the comparison of `a` with `b` in the group of `law`.
pub open spec fn record_of(r: CitationMatchRecord, law: Seq<char>, a: CitationView, b: CitationView) -> bool {
    &&& r.element1@ == a.0
    &&& r.element2@ == b.0
    &&& r.citation1@ == a.1
    &&& r.citation2@ == b.1
    &&& r.law@ == law
    &&& r.same_law
    &&& lists_sorted(r.articles1@, a.3)
    &&& lists_sorted(r.articles2@, b.3)
    &&& lists_sorted(r.overlapping_articles@, overlap(a.3, b.3))
    &&& r.same_article == (overlap(a.3, b.3) != Set::<u32>::empty())
}

/// Comparing in either order gives the same shared articles and the same
/// verdict.
pub proof fn lemma_overlap_symmetric(
    r1: CitationMatchRecord,
    r2: CitationMatchRecord,
    law: Seq<char>,
    a: CitationView,
    b: CitationView,
)
    requires
        record_of(r1, law, a, b),
        record_of(r2, law, b, a),
    ensures
        r1.overlapping_articles@.to_set() == r2.overlapping_articles@.to_set(),
        r1.same_article == r2.same_article,
{
    assert(overlap(a.3, b.3) =~= overlap(b.3, a.3));
}

proof fn lemma_insert_to_set(v: Seq<u32>, p: int, x: u32)
    requires
        0 <= p <= v.len(),
    ensures
        v.insert(p, x).to_set() == v.to_set().insert(x),
{
    let w = v.insert(p, x);
    assert forall|n: u32| w.to_set().contains(n) <==> v.to_set().insert(x).contains(n) by {
        if w.to_set().contains(n) {
            let k = choose|k: int| 0 <= k < w.len() && w[k] == n;
            if k < p {
                assert(v[k] == n);
            } else if k > p {
                assert(v[k - 1] == n);
            }
        }
        if v.to_set().contains(n) {
            let k = choose|k: int| 0 <= k < v.len() && v[k] == n;
            if k < p {
                assert(w[k] == n);
            } else {
                assert(w[k + 1] == n);
            }
        }
        if n == x {
            assert(w[p] == x);
        }
    }
    assert(w.to_set() =~= v.to_set().insert(x));
}

/// The members of an article set in ascending order.
pub fn sorted_articles(s: &ahash::AHashSet<u32>) -> (r: Vec<u32>)
    ensures
        lists_sorted(r@, article_set_contents(*s)),
{
    let members = article_members(s);
    let mut r: Vec<u32> = Vec::new();
    let mut k: usize = 0;
    while k < members.len()
        invariant
            k <= members.len(),
            members@.no_duplicates(),
            strictly_ascending(r@),
            r@.to_set() == members@.subrange(0, k as int).to_set(),
        decreases members.len() - k,
    {
        let x = members[k];
        assert(!r@.to_set().contains(x)) by {
            if r@.to_set().contains(x) {
                let m = choose|m: int| 0 <= m < k && members@.subrange(0, k as int)[m] == x;
                assert(members@[m] == members@[k as int]);
            }
        }
        let mut p: usize = 0;
        while p < r.len() && r[p] < x
            invariant
                p <= r.len(),
                forall|q: int| 0 <= q < p ==> r@[q] < x,
            decreases r.len() - p,
        {
            p += 1;
        }
        let ghost before = r@;
        assert(p < before.len() ==> before[p as int] > x) by {
            if p < before.len() {
                assert(before[p as int] != x);
            }
        }
        r.insert(p, x);
        proof {
            assert(r@ == before.insert(p as int, x));
            assert forall|i: int, j: int| 0 <= i < j < r@.len() implies r@[i] < r@[j] by {
                if j < p {
                    assert(r@[i] == before[i] && r@[j] == before[j]);
                } else if j == p {
                    assert(r@[i] == before[i]);
                } else if i < p {
                    assert(r@[i] == before[i] && r@[j] == before[j - 1]);
                    assert(before[j - 1] >= before[p as int]);
                } else if i == p {
                    assert(r@[j] == before[j - 1]);
                    assert(before[j - 1] >= before[p as int]);
                } else {
                    assert(r@[i] == before[i - 1] && r@[j] == before[j - 1]);
                }
            }
            lemma_insert_to_set(before, p as int, x);
            assert(members@.subrange(0, k + 1) =~= members@.subrange(0, k as int).push(x));
            assert(members@.subrange(0, k as int).push(x).to_set() =~= members@.subrange(0, k as int).to_set().insert(x)) by {
                let s0 = members@.subrange(0, k as int);
                assert forall|n: u32| s0.push(x).to_set().contains(n) <==> s0.to_set().insert(x).contains(n) by {
                    if s0.push(x).to_set().contains(n) {
                        let m = choose|m: int| 0 <= m < s0.len() + 1 && s0.push(x)[m] == n;
                        if m < s0.len() {
                            assert(s0[m] == n);
                        }
                    }
                    if s0.to_set().contains(n) {
                        let m = choose|m: int| 0 <= m < s0.len() && s0[m] == n;
                        assert(s0.push(x)[m] == n);
                    }
                    if n == x {
                        assert(s0.push(x)[s0.len() as int] == x);
                    }
                }
            }
        }
        k += 1;
    }
    assert(members@.subrange(0, members.len() as int) =~= members@);
    r
}

/// Compares two citations of the group of `law`.
pub fn compare_pair(law: &String, c1: &CitationInfo, c2: &CitationInfo) -> (r: CitationMatchRecord)
    ensures
        record_of(r, law@, info_view(*c1), info_view(*c2)),
{
    let shared = common_articles(&c1.articles, &c2.articles);
    let overlapping_articles = sorted_articles(&shared);
    let same_article = overlapping_articles.len() > 0;
    proof {
        let o = overlap(article_set_contents(c1.articles), article_set_contents(c2.articles));
        if overlapping_articles.len() > 0 {
            assert(o.contains(overlapping_articles@[0]));
        } else {
            assert(o =~= Set::<u32>::empty()) by {
                assert forall|n: u32| !o.contains(n) by {
                    if o.contains(n) {
                        assert(overlapping_articles@.to_set().contains(n));
                    }
                }
            }
        }
    }
    CitationMatchRecord {
        element1: c1.element_id.clone(),
        element2: c2.element_id.clone(),
        citation1: c1.citation.clone(),
        citation2: c2.citation.clone(),
        law: law.clone(),
        same_law: true,
        same_article,
        articles1: sorted_articles(&c1.articles),
        articles2: sorted_articles(&c2.articles),
        overlapping_articles,
    }
}

/// The partners of citation `i` among those before `end`: the later
/// citations from another fragment, in order.
pub open spec fn partners(cs: Seq<CitationView>, i: int, end: int) -> Seq<int>
    decreases end - i,
{
    if end <= i + 1 {
        Seq::empty()
    } else {
        let p = partners(cs, i, end - 1);
        if cs[end - 1].0 != cs[i].0 {
            p.push(end - 1)
        } else {
            p
        }
    }
}

/// The compared pairs of the first `m` citations' rows, in order: each
/// citation with each later one from another fragment.
pub open spec fn compared_pairs(cs: Seq<CitationView>, m: int) -> Seq<(int, int)>
    decreases m,
{
    if m <= 0 {
        Seq::empty()
    } else {
        compared_pairs(cs, m - 1) + partners(cs, m - 1, cs.len() as int).map_values(|j: int| (m - 1, j))
    }
}

/// The candidate pairs of the first `m` rows of a group of `n`: each index
/// with each later one.
pub open spec fn candidate_pairs(n: int, m: int) -> Seq<(int, int)>
    decreases m,
{
    if m <= 0 {
        Seq::empty()
    } else {
        let width: nat = if m <= n {
            (n - m) as nat
        } else {
            0
        };
        candidate_pairs(n, m - 1) + Seq::new(width, |k: int| (m - 1, m + k))
    }
}

proof fn lemma_candidate_rows(n: int, m: int)
    requires
        0 <= m <= n,
    ensures
        2 * candidate_pairs(n, m).len() == 2 * m * n - m * (m + 1),
    decreases m,
{
    if m > 0 {
        lemma_candidate_rows(n, m - 1);
        assert(candidate_pairs(n, m).len() == candidate_pairs(n, m - 1).len() + (n - m));
        assert(2 * m * n - m * (m + 1) == 2 * (m - 1) * n - (m - 1) * m + 2 * (n - m)) by (nonlinear_arith);
    } else {
        assert(2 * m * n - m * (m + 1) == 0) by (nonlinear_arith)
            requires
                m == 0,
        ;
    }
}

/// A group of `n` citations has `n * (n - 1) / 2` candidate pairs.
pub proof fn lemma_candidate_pair_count(n: nat)
    ensures
        candidate_pairs(n as int, n as int).len() == n * (n - 1) / 2,
{
    lemma_candidate_rows(n as int, n as int);
    assert(2 * n * n - n * (n + 1) == n * (n - 1)) by (nonlinear_arith);
}

/// The number of candidate pairs in a group of `n` citations.
pub fn candidate_pair_count(n: usize) -> (r: u128)
    ensures
        r == n * (n - 1) / 2,
        r == candidate_pairs(n as int, n as int).len(),
{
    proof {
        lemma_candidate_pair_count(n as nat);
    }
    if n == 0 {
        return 0;
    }
    let m = n as u128;
    assert(m * (m - 1) <= u128::MAX) by (nonlinear_arith)
        requires
            1 <= m <= usize::MAX,
    ;
    m * (m - 1) / 2
}

/// Compares citation `i` of the group with each later citation from
/// another fragment.
pub fn compare_row(group: &LawGroup, i: usize) -> (r: Vec<CitationMatchRecord>)
    requires
        i < group.citations@.len(),
    ensures
        r@.len() == partners(group_view(*group).1, i as int, group.citations@.len() as int).len(),
        forall|k: int| 0 <= k < r@.len() ==> record_of(
            #[trigger] r@[k],
            group.law@,
            group_view(*group).1[i as int],
            group_view(*group).1[partners(group_view(*group).1, i as int, group.citations@.len() as int)[k]],
        ),
        forall|k: int| 0 <= k < r@.len() ==> (#[trigger] r@[k]).element1@ != r@[k].element2@,
{
    let ghost cs = group_view(*group).1;
    let n = group.citations.len();
    let c1 = &group.citations[i];
    let mut r: Vec<CitationMatchRecord> = Vec::new();
    let mut j = i + 1;
    while j < n
        invariant
            i < j <= n,
            n == group.citations@.len(),
            cs == group_view(*group).1,
            c1 == &group.citations@[i as int],
            r@.len() == partners(cs, i as int, j as int).len(),
            forall|k: int| 0 <= k < r@.len() ==> record_of(
                #[trigger] r@[k],
                group.law@,
                cs[i as int],
                cs[partners(cs, i as int, j as int)[k]],
            ),
            forall|k: int| 0 <= k < r@.len() ==> (#[trigger] r@[k]).element1@ != r@[k].element2@,
        decreases n - j,
    {
        let c2 = &group.citations[j];
        assert(cs[j as int] == info_view(*c2));
        assert(cs[i as int] == info_view(*c1));
        if c1.element_id != c2.element_id {
            r.push(compare_pair(&group.law, c1, c2));
        }
        assert(partners(cs, i as int, j + 1) == (if cs[j as int].0 != cs[i as int].0 {
            partners(cs, i as int, j as int).push(j as int)
        } else {
            partners(cs, i as int, j as int)
        }));
        j += 1;
    }
    r
}

/// Compares every pair of citations of the group from different fragments,
/// row by row.
pub fn compare_group(group: &LawGroup) -> (r: Vec<CitationMatchRecord>)
    ensures
        r@.len() == compared_pairs(group_view(*group).1, group.citations@.len() as int).len(),
        forall|k: int| 0 <= k < r@.len() ==> {
            let p = compared_pairs(group_view(*group).1, group.citations@.len() as int)[k];
            record_of(#[trigger] r@[k], group.law@, group_view(*group).1[p.0], group_view(*group).1[p.1])
        },
        forall|k: int| 0 <= k < r@.len() ==> (#[trigger] r@[k]).element1@ != r@[k].element2@,
{
    let ghost cs = group_view(*group).1;
    let n = group.citations.len();
    let mut r: Vec<CitationMatchRecord> = Vec::new();
    let mut i: usize = 0;
    while i < n
        invariant
            i <= n,
            n == group.citations@.len(),
            cs == group_view(*group).1,
            r@.len() == compared_pairs(cs, i as int).len(),
            forall|k: int| 0 <= k < r@.len() ==> {
                let p = compared_pairs(cs, i as int)[k];
                record_of(#[trigger] r@[k], group.law@, cs[p.0], cs[p.1])
            },
            forall|k: int| 0 <= k < r@.len() ==> (#[trigger] r@[k]).element1@ != r@[k].element2@,
        decreases n - i,
    {
        let mut row = compare_row(group, i);
        let ghost before = r@;
        let ghost row_v = row@;
        let ghost ps = partners(cs, i as int, n as int);
        r.append(&mut row);
        proof {
            let next = compared_pairs(cs, i + 1);
            assert(next == compared_pairs(cs, i as int) + ps.map_values(|j: int| (i as int, j)));
            assert forall|m: int| 0 <= m < r@.len() implies {
                let p = next[m];
                record_of(#[trigger] r@[m], group.law@, cs[p.0], cs[p.1])
            } by {
                if m >= before.len() {
                    assert(r@[m] == row_v[m - before.len()]);
                }
            }
        }
        i += 1;
    }
    r
}

/// How many of the records share an article.
pub open spec fn same_article_count(rs: Seq<CitationMatchRecord>) -> nat
    decreases rs.len(),
{
    if rs.len() == 0 {
        0
    } else {
        same_article_count(rs.drop_last()) + if rs.last().same_article {
            1nat
        } else {
            0nat
        }
    }
}

/// How many of the records share an article.
pub fn count_same_article(records: &Vec<CitationMatchRecord>) -> (r: usize)
    ensures
        r == same_article_count(records@),
{
    let mut n: usize = 0;
    let mut k: usize = 0;
    while k < records.len()
        invariant
            k <= records@.len(),
            n == same_article_count(records@.subrange(0, k as int)),
            n <= k,
        decreases records.len() - k,
    {
        assert(records@.subrange(0, k + 1).drop_last() =~= records@.subrange(0, k as int));
        if records[k].same_article {
            n += 1;
        }
        k += 1;
    }
    assert(records@.subrange(0, records@.len() as int) =~= records@);
    n
}

} // verus!
