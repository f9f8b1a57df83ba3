//! Run counts and the number formats of the run report.
use vstd::prelude::*;
use crate::grouping::{total_size, GroupsView, LawGroups};
use crate::text::string_of;

verus! {

/// The prefix of the synthesized key of a law that the index does not hold.
pub open spec fn cantonal_prefix() -> Seq<char> {
    "CANTONAL_"@
}

pub open spec fn is_cantonal(k: Seq<char>) -> bool {
    k.len() >= 9 && k.subrange(0, 9) == cantonal_prefix()
}

/// How many groups have a non-federal key.
pub open spec fn cantonal_count(gs: GroupsView) -> nat
    decreases gs.len(),
{
    if gs.len() == 0 {
        0
    } else {
        cantonal_count(gs.drop_last()) + if is_cantonal(gs.last().0) {
            1nat
        } else {
            0nat
        }
    }
}

proof fn lemma_cantonal_count_bound(gs: GroupsView)
    ensures
        cantonal_count(gs) <= gs.len(),
    decreases gs.len(),
{
    if gs.len() > 0 {
        lemma_cantonal_count_bound(gs.drop_last());
    }
}

/// Does the law key carry the non-federal prefix?
pub fn is_cantonal_key(k: &String) -> (r: bool)
    ensures
        r == is_cantonal(k@),
{
    let prefix = vec!['C', 'A', 'N', 'T', 'O', 'N', 'A', 'L', '_'];
    proof {
        reveal_strlit("CANTONAL_");
        assert(prefix@ =~= cantonal_prefix());
    }
    let chars = crate::text::chars_of(k.as_str());
    if chars.len() < 9 {
        return false;
    }
    let mut i: usize = 0;
    while i < 9
        invariant
            i <= 9 <= chars@.len(),
            chars@ == k@,
            prefix@ == cantonal_prefix(),
            prefix@.len() == 9,
            forall|j: int| 0 <= j < i ==> chars@[j] == prefix@[j],
        decreases 9 - i,
    {
        if chars[i] != prefix[i] {
            assert(chars@.subrange(0, 9)[i as int] != cantonal_prefix()[i as int]);
            return false;
        }
        i += 1;
    }
    assert(chars@.subrange(0, 9) =~= cantonal_prefix());
    true
}

/// The counts of one run.
pub struct RunCounts {
    pub total_citations: u128,
    pub parsed_citations: u128,
    pub unparseable_citations: usize,
    pub unique_laws: usize,
    pub federal_laws: usize,
    pub cantonal_laws: usize,
}

/// The counts of a run from its groups and unparseable citations: parsed and
/// unparseable add up to the total, federal and non-federal laws to the
/// number of groups.
pub fn run_counts(groups: &LawGroups, unparseable: usize) -> (r: RunCounts)
    ensures
        r.parsed_citations == total_size(groups@),
        r.unparseable_citations == unparseable,
        r.total_citations == r.parsed_citations + r.unparseable_citations,
        r.unique_laws == groups@.len(),
        r.cantonal_laws == cantonal_count(groups@),
        r.federal_laws + r.cantonal_laws == r.unique_laws,
{
    let gs = groups.groups();
    let ghost gv = groups@;
    let mut parsed: u128 = 0;
    let mut cantonal: usize = 0;
    let mut i: usize = 0;
    while i < gs.len()
        invariant
            i <= gs@.len(),
            gv == gs@.map_values(|g: crate::grouping::LawGroup| crate::grouping::group_view(g)),
            parsed == total_size(gv.subrange(0, i as int)),
            parsed <= i * 0x1_0000_0000_0000_0000,
            cantonal == cantonal_count(gv.subrange(0, i as int)),
            cantonal <= i,
        decreases gs.len() - i,
    {
        assert(gv.subrange(0, i + 1).drop_last() =~= gv.subrange(0, i as int));
        assert(gv[i as int].1.len() == gs@[i as int].citations@.len());
        parsed = parsed + gs[i].citations.len() as u128;
        if is_cantonal_key(&gs[i].law) {
            cantonal += 1;
        }
        i += 1;
    }
    assert(gv.subrange(0, gs@.len() as int) =~= gv);
    RunCounts {
        total_citations: parsed + unparseable as u128,
        parsed_citations: parsed,
        unparseable_citations: unparseable,
        unique_laws: gs.len(),
        federal_laws: gs.len() - cantonal,
        cantonal_laws: cantonal,
    }
}

pub open spec fn digit_char(d: nat) -> char {
    if d < 10 {
        ((d + 48) as u32) as char
    } else {
        '?'
    }
}

/// The decimal digits of `n`.
pub open spec fn decimal(n: nat) -> Seq<char>
    decreases n,
{
    if n < 10 {
        seq![digit_char(n)]
    } else {
        decimal(n / 10).push(digit_char(n % 10))
    }
}

/// The decimal digits of `n` with a comma before each group of three from
/// the right: `1,234,567`.
pub open spec fn with_commas(n: nat) -> Seq<char>
    decreases n,
{
    if n < 1000 {
        decimal(n)
    } else {
        with_commas(n / 1000).push(',') + seq![
            digit_char(n % 1000 / 100),
            digit_char(n % 100 / 10),
            digit_char(n % 10),
        ]
    }
}

/// Two digits, with a leading zero: `07`.
pub open spec fn two_digits(n: nat) -> Seq<char> {
    seq![digit_char(n / 10 % 10), digit_char(n % 10)]
}

fn digit_exec(d: u64) -> (r: char)
    requires
        d < 10,
    ensures
        r == digit_char(d as nat),
{
    let c = (d as u8 + 48) as char;
    assert(c == ((d + 48) as u32) as char);
    c
}

fn decimal_exec(n: u64) -> (r: Vec<char>)
    ensures
        r@ == decimal(n as nat),
    decreases n,
{
    if n < 10 {
        let mut v: Vec<char> = Vec::new();
        v.push(digit_exec(n));
        assert(v@ =~= seq![digit_char(n as nat)]);
        v
    } else {
        let mut v = decimal_exec(n / 10);
        v.push(digit_exec(n % 10));
        v
    }
}

fn with_commas_exec(n: u64) -> (r: Vec<char>)
    ensures
        r@ == with_commas(n as nat),
    decreases n,
{
    if n < 1000 {
        decimal_exec(n)
    } else {
        let mut v = with_commas_exec(n / 1000);
        let ghost head = v@;
        v.push(',');
        v.push(digit_exec(n % 1000 / 100));
        v.push(digit_exec(n % 100 / 10));
        v.push(digit_exec(n % 10));
        assert(v@ =~= head.push(',') + seq![
            digit_char((n % 1000 / 100) as nat),
            digit_char((n % 100 / 10) as nat),
            digit_char((n % 10) as nat),
        ]);
        v
    }
}

/// `n` in decimal with thousands separated by commas: `1,234,567`.
pub fn format_number(n: usize) -> (r: String)
    ensures
        r@ == with_commas(n as nat),
{
    let v = with_commas_exec(n as u64);
    string_of(&v)
}

/// `n` with its sign, `+` for zero too, and thousands separated by commas.
pub fn format_signed(n: i64) -> (r: String)
    ensures
        n >= 0 ==> r@ == seq!['+'] + with_commas(n as nat),
        n < 0 ==> r@ == seq!['-'] + with_commas((-n) as nat),
{
    let magnitude: u64 = if n >= 0 {
        n as u64
    } else if n == i64::MIN {
        0x8000_0000_0000_0000
    } else {
        (-n) as u64
    };
    let digits = with_commas_exec(magnitude);
    let mut v: Vec<char> = Vec::new();
    v.push(if n >= 0 {
        '+'
    } else {
        '-'
    });
    let mut k: usize = 0;
    let ghost sign = v@;
    while k < digits.len()
        invariant
            k <= digits@.len(),
            v@ == sign + digits@.subrange(0, k as int),
        decreases digits.len() - k,
    {
        v.push(digits[k]);
        assert(sign + digits@.subrange(0, k + 1) =~= (sign + digits@.subrange(0, k as int)).push(digits@[k as int]));
        k += 1;
    }
    assert(digits@.subrange(0, digits@.len() as int) =~= digits@);
    assert(sign =~= seq![if n >= 0 { '+' } else { '-' }]);
    string_of(&v)
}

fn push_all(v: &mut Vec<char>, tail: &Vec<char>)
    ensures
        final(v)@ == old(v)@ + tail@,
{
    let ghost start = v@;
    let mut k: usize = 0;
    while k < tail.len()
        invariant
            k <= tail@.len(),
            v@ == start + tail@.subrange(0, k as int),
        decreases tail.len() - k,
    {
        v.push(tail[k]);
        assert(start + tail@.subrange(0, k + 1) =~= (start + tail@.subrange(0, k as int)).push(tail@[k as int]));
        k += 1;
    }
    assert(tail@.subrange(0, tail@.len() as int) =~= tail@);
}

/// A duration in seconds as `42s`, `3m 07s` or `2h 05m 09s`.
pub open spec fn duration_text(secs: nat) -> Seq<char> {
    if secs < 60 {
        decimal(secs).push('s')
    } else if secs < 3600 {
        decimal(secs / 60) + seq!['m', ' '] + two_digits(secs % 60).push('s')
    } else {
        decimal(secs / 3600) + seq!['h', ' '] + two_digits(secs % 3600 / 60) + seq!['m', ' ']
            + two_digits(secs % 60).push('s')
    }
}

/// A duration in seconds as `42s`, `3m 07s` or `2h 05m 09s`.
pub fn format_duration(secs: u64) -> (r: String)
    ensures
        r@ == duration_text(secs as nat),
{
    let mut v: Vec<char> = Vec::new();
    if secs < 60 {
        v = decimal_exec(secs);
        v.push('s');
    } else if secs < 3600 {
        v = decimal_exec(secs / 60);
        v.push('m');
        v.push(' ');
        let m = secs % 60;
        v.push(digit_exec(m / 10 % 10));
        v.push(digit_exec(m % 10));
        v.push('s');
        let ghost d = decimal((secs / 60) as nat);
        assert(v@ =~= d + seq!['m', ' '] + two_digits((secs % 60) as nat).push('s'));
    } else {
        v = decimal_exec(secs / 3600);
        let ghost d = v@;
        v.push('h');
        v.push(' ');
        let m = secs % 3600 / 60;
        v.push(digit_exec(m / 10 % 10));
        v.push(digit_exec(m % 10));
        v.push('m');
        v.push(' ');
        let s = secs % 60;
        v.push(digit_exec(s / 10 % 10));
        v.push(digit_exec(s % 10));
        v.push('s');
        assert(v@ =~= d + seq!['h', ' '] + two_digits((secs % 3600 / 60) as nat) + seq!['m', ' ']
            + two_digits((secs % 60) as nat).push('s'));
    }
    string_of(&v)
}

} // verus!
