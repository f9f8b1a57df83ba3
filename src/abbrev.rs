//! Law abbreviations: their normal form, and the index from normal form to
//! canonical law key.
use vstd::prelude::*;
use ahash::AHashMap;
use crate::text::{
    chars_of, is_digit_spec, is_numeric_char, lower_of, numeric_char, string_of, to_lower,
    trim_chars, trim_spec, trim_start_spec, trim_end_spec, is_space_spec,
};
use crate::vocab::views_of;

verus! {

#[verifier::external_type_specification]
#[verifier::external_body]
#[verifier::reject_recursive_types(K)]
#[verifier::reject_recursive_types(V)]
#[verifier::reject_recursive_types(S)]
pub struct ExAHashMap<K, V, S>(AHashMap<K, V, S>);

/// A map from normalized abbreviation to law key.
pub type AbbrevMap = AHashMap<String, String>;

/// The entries of such a map, by view.
pub type AbbrevEntries = Map<Seq<char>, Seq<char>>;

/// The entries of a map from normalized abbreviation to law key.
pub uninterp spec fn abbrev_map_contents(m: AbbrevMap) -> AbbrevEntries;

/// Relies on `ahash::AHashMap::new`: a map with no entries.
#[verifier::external_body]
fn new_abbrev_map() -> (r: AbbrevMap)
    ensures
        abbrev_map_contents(r) == AbbrevEntries::empty(),
{
    AHashMap::new()
}

/// Relies on `ahash::AHashMap::get`: the value stored under the key, if any.
#[verifier::external_body]
fn abbrev_map_get(m: &AbbrevMap, k: &String) -> (r: Option<String>)
    ensures
        r matches Some(v) ==> abbrev_map_contents(*m).contains_key(k@) && v@
            == abbrev_map_contents(*m)[k@],
        r is None ==> !abbrev_map_contents(*m).contains_key(k@),
{
    m.get(k).cloned()
}

/// Relies on `ahash::AHashMap::insert`: the key now maps to the value.
#[verifier::external_body]
fn abbrev_map_insert(m: &mut AbbrevMap, k: String, v: String)
    ensures
        abbrev_map_contents(*final(m)) == abbrev_map_contents(*old(m)).insert(k@, v@),
{
    m.insert(k, v);
}

/// `s` without its periods.
pub open spec fn strip_dots(s: Seq<char>) -> Seq<char>
    decreases s.len(),
{
    if s.len() == 0 {
        s
    } else if s.last() == '.' {
        strip_dots(s.drop_last())
    } else {
        strip_dots(s.drop_last()).push(s.last())
    }
}

/// The normal form of an abbreviation: lower case, without periods, trimmed.
pub open spec fn normalized_abbrev(s: Seq<char>) -> Seq<char> {
    trim_spec(strip_dots(lower_of(s)))
}

fn strip_dots_exec(s: &Vec<char>) -> (r: Vec<char>)
    ensures
        r@ == strip_dots(s@),
{
    let mut r: Vec<char> = Vec::new();
    let mut k: usize = 0;
    while k < s.len()
        invariant
            k <= s.len(),
            r@ == strip_dots(s@.subrange(0, k as int)),
        decreases s.len() - k,
    {
        assert(s@.subrange(0, k + 1).drop_last() =~= s@.subrange(0, k as int));
        if s[k] != '.' {
            r.push(s[k]);
        }
        k += 1;
    }
    assert(s@.subrange(0, s.len() as int) =~= s@);
    r
}

/// The normal form of an abbreviation: lower case, without periods, trimmed.
pub fn normalize_abbreviation(abbrev: &str) -> (r: String)
    ensures
        r@ == normalized_abbrev(abbrev@),
{
    let lower = to_lower(abbrev);
    strip_and_trim(lower.as_str())
}

/// A lower-case abbreviation without its periods, trimmed: the steps of
/// the normal form that follow lower-casing.
pub fn strip_and_trim(lowered: &str) -> (r: String)
    ensures
        r@ == trim_spec(strip_dots(lowered@)),
{
    let chars = chars_of(lowered);
    let stripped = strip_dots_exec(&chars);
    let trimmed = trim_chars(&stripped);
    string_of(&trimmed)
}

pub open spec fn dotless(s: Seq<char>) -> bool {
    forall|k: int| 0 <= k < s.len() ==> s[k] != '.'
}

proof fn lemma_strip_dots_dotless(s: Seq<char>)
    ensures
        dotless(strip_dots(s)),
        dotless(s) ==> strip_dots(s) == s,
    decreases s.len(),
{
    if s.len() > 0 {
        lemma_strip_dots_dotless(s.drop_last());
        if dotless(s) {
            assert(dotless(s.drop_last()));
            assert(s.drop_last().push(s.last()) =~= s);
        }
    }
}

proof fn lemma_trim_start_shape(s: Seq<char>)
    ensures
        exists|a: int| 0 <= a <= s.len() && trim_start_spec(s) == s.subrange(a, s.len() as int),
        trim_start_spec(s).len() > 0 ==> !is_space_spec(trim_start_spec(s)[0]),
    decreases s.len(),
{
    if s.len() > 0 && is_space_spec(s[0]) {
        lemma_trim_start_shape(s.drop_first());
        let a = choose|a: int|
            0 <= a <= s.drop_first().len() && trim_start_spec(s.drop_first())
                == s.drop_first().subrange(a, s.drop_first().len() as int);
        assert(s.drop_first().subrange(a, s.drop_first().len() as int) =~= s.subrange(
            a + 1,
            s.len() as int,
        ));
    } else {
        assert(s.subrange(0, s.len() as int) =~= s);
    }
}

proof fn lemma_trim_end_shape(s: Seq<char>)
    ensures
        exists|b: int| 0 <= b <= s.len() && trim_end_spec(s) == s.subrange(0, b),
        trim_end_spec(s).len() > 0 ==> !is_space_spec(trim_end_spec(s).last()),
    decreases s.len(),
{
    if s.len() > 0 && is_space_spec(s.last()) {
        lemma_trim_end_shape(s.drop_last());
        let b = choose|b: int|
            0 <= b <= s.drop_last().len() && trim_end_spec(s.drop_last()) == s.drop_last().subrange(
                0,
                b,
            );
        assert(s.drop_last().subrange(0, b) =~= s.subrange(0, b));
    } else {
        assert(s.subrange(0, s.len() as int) =~= s);
    }
}

proof fn lemma_trim_end_keeps_start(s: Seq<char>)
    requires
        s.len() > 0 ==> !is_space_spec(s[0]),
    ensures
        trim_end_spec(s).len() > 0 ==> !is_space_spec(trim_end_spec(s)[0]),
    decreases s.len(),
{
    if s.len() > 0 && is_space_spec(s.last()) {
        lemma_trim_end_keeps_start(s.drop_last());
    }
}

proof fn lemma_trim_idempotent(s: Seq<char>)
    ensures
        trim_spec(trim_spec(s)) == trim_spec(s),
        dotless(s) ==> dotless(trim_spec(s)),
{
    let t = trim_spec(s);
    lemma_trim_start_shape(s);
    lemma_trim_end_shape(trim_start_spec(s));
    lemma_trim_end_keeps_start(trim_start_spec(s));
    assert(trim_start_spec(t) == t) by {
        if t.len() > 0 {
            assert(!is_space_spec(t[0]));
        }
    }
    assert(trim_end_spec(t) == t) by {
        if t.len() > 0 {
            assert(!is_space_spec(t.last()));
        }
    }
    if dotless(s) {
        let a = choose|a: int|
            0 <= a <= s.len() && trim_start_spec(s) == s.subrange(a, s.len() as int);
        let u = trim_start_spec(s);
        let b = choose|b: int| 0 <= b <= u.len() && trim_end_spec(u) == u.subrange(0, b);
        assert forall|k: int| 0 <= k < t.len() implies t[k] != '.' by {
            assert(t[k] == s[a + k]);
        }
    }
}

/// Stripping periods and trimming, the steps that follow lower-casing in the
/// normal form of an abbreviation, change nothing the second time.
pub proof fn lemma_strip_and_trim_idempotent(t: Seq<char>)
    ensures
        trim_spec(strip_dots(trim_spec(strip_dots(t)))) == trim_spec(strip_dots(t)),
{
    lemma_strip_dots_dotless(t);
    lemma_trim_idempotent(strip_dots(t));
    let u = trim_spec(strip_dots(t));
    lemma_strip_dots_dotless(u);
    lemma_trim_idempotent(u);
}

/// Normalizing a normalized abbreviation gives it back, wherever lower-casing
/// leaves the normalized form as it is.
pub proof fn lemma_normalize_idempotent(s: Seq<char>)
    requires
        lower_of(normalized_abbrev(s)) == normalized_abbrev(s),
    ensures
        normalized_abbrev(normalized_abbrev(s)) == normalized_abbrev(s),
{
    lemma_strip_and_trim_idempotent(lower_of(s));
}

/// An abbreviation table: for each law key, its abbreviations.
pub open spec fn table_view(t: Seq<(String, Vec<String>)>) -> Seq<(Seq<char>, Seq<Seq<char>>)> {
    t.map_values(|e: (String, Vec<String>)| (e.0@, views_of(e.1@)))
}

/// `m` after filing each of `abbrevs` under `key`, where no key holds it yet.
pub open spec fn add_abbreviations(
    m: Map<Seq<char>, Seq<char>>,
    key: Seq<char>,
    abbrevs: Seq<Seq<char>>,
) -> Map<Seq<char>, Seq<char>>
    decreases abbrevs.len(),
{
    if abbrevs.len() == 0 {
        m
    } else {
        let before = add_abbreviations(m, key, abbrevs.drop_last());
        let a = normalized_abbrev(abbrevs.last());
        if before.contains_key(a) {
            before
        } else {
            before.insert(a, key)
        }
    }
}

/// The index built from a table: each normalized abbreviation maps to the
/// first law key, in table order, that lists it.
pub open spec fn index_of(table: Seq<(Seq<char>, Seq<Seq<char>>)>) -> Map<Seq<char>, Seq<char>>
    decreases table.len(),
{
    if table.len() == 0 {
        Map::empty()
    } else {
        add_abbreviations(index_of(table.drop_last()), table.last().0, table.last().1)
    }
}

/// A raw abbreviation made of numeric characters and periods alone: already
/// a canonical law key.
pub open spec fn numeric_form(s: Seq<char>) -> bool {
    forall|k: int| 0 <= k < s.len() ==> numeric_char(#[trigger] s[k]) || s[k] == '.'
}

pub open spec fn digits_and_periods(s: Seq<char>) -> bool {
    forall|k: int| 0 <= k < s.len() ==> is_digit_spec(#[trigger] s[k]) || s[k] == '.'
}

/// What `resolve` gives for a raw abbreviation, over an index's entries.
pub open spec fn resolve_spec(index: Map<Seq<char>, Seq<char>>, raw: Seq<char>) -> Option<Seq<char>> {
    if numeric_form(raw) {
        Some(raw)
    } else if index.contains_key(normalized_abbrev(raw)) {
        Some(index[normalized_abbrev(raw)])
    } else {
        None
    }
}

pub open spec fn opt_view(r: Option<String>) -> Option<Seq<char>> {
    match r {
        Some(v) => Some(v@),
        None => None,
    }
}

/// A lookup from normalized abbreviation to canonical law key.
pub struct AbbreviationIndex {
    map: AbbrevMap,
}

impl View for AbbreviationIndex {
    type V = Map<Seq<char>, Seq<char>>;

    closed spec fn view(&self) -> Map<Seq<char>, Seq<char>> {
        abbrev_map_contents(self.map)
    }
}

impl AbbreviationIndex {
    /// Builds the index from a table of law keys and their abbreviations,
    /// keeping the first law key for an abbreviation that several list.
    pub fn from_triplets(table: &Vec<(String, Vec<String>)>) -> (r: AbbreviationIndex)
        ensures
            r@ == index_of(table_view(table@)),
    {
        let mut map = new_abbrev_map();
        let ghost tv = table_view(table@);
        let mut i: usize = 0;
        while i < table.len()
            invariant
                i <= table.len(),
                tv == table_view(table@),
                abbrev_map_contents(map) == index_of(tv.subrange(0, i as int)),
            decreases table.len() - i,
        {
            let key = &table[i].0;
            let abbrevs = &table[i].1;
            let ghost base = index_of(tv.subrange(0, i as int));
            assert(tv.subrange(0, i + 1).drop_last() =~= tv.subrange(0, i as int));
            assert(tv[i as int].1 == views_of(abbrevs@));
            let mut j: usize = 0;
            while j < abbrevs.len()
                invariant
                    j <= abbrevs.len(),
                    abbrevs == &table@[i as int].1,
                    tv[i as int].1 == views_of(abbrevs@),
                    key == &table@[i as int].0,
                    abbrev_map_contents(map) == add_abbreviations(
                        base,
                        key@,
                        views_of(abbrevs@).subrange(0, j as int),
                    ),
                decreases abbrevs.len() - j,
            {
                assert(views_of(abbrevs@).subrange(0, j + 1).drop_last() =~= views_of(
                    abbrevs@,
                ).subrange(0, j as int));
                let normalized = normalize_abbreviation(abbrevs[j].as_str());
                match abbrev_map_get(&map, &normalized) {
                    Some(_) => {},
                    None => {
                        abbrev_map_insert(&mut map, normalized, key.clone());
                    },
                }
                j += 1;
            }
            assert(views_of(abbrevs@).subrange(0, abbrevs.len() as int) =~= views_of(abbrevs@));
            i += 1;
        }
        assert(tv.subrange(0, table.len() as int) =~= tv);
        AbbreviationIndex { map }
    }

    /// The law key of a raw abbreviation: the abbreviation itself where it is
    /// made of numeric characters and periods alone, else the entry of its
    /// normal form, if any.
    pub fn resolve(&self, raw: &str) -> (r: Option<String>)
        ensures
            opt_view(r) == resolve_spec(self@, raw@),
            digits_and_periods(raw@) ==> opt_view(r) == Some(raw@),
    {
        let chars = chars_of(raw);
        let mut k: usize = 0;
        let mut numeric = true;
        while k < chars.len()
            invariant
                k <= chars.len(),
                chars@ == raw@,
                numeric == (forall|m: int| 0 <= m < k ==> numeric_char(#[trigger] raw@[m]) || raw@[m] == '.'),
                digits_and_periods(raw@) ==> numeric,
            decreases chars.len() - k,
        {
            let c = chars[k];
            let ok = c == '.' || is_numeric_char(c);
            if !ok {
                numeric = false;
            }
            k += 1;
        }
        if numeric {
            return Some(String::from_str(raw));
        }
        let normalized = normalize_abbreviation(raw);
        abbrev_map_get(&self.map, &normalized)
    }
}

} // verus!
