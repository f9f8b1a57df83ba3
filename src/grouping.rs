//! Filing resolved citations into law groups, and the single pass that
//! resolves every citation of every fragment.
use vstd::prelude::*;
use ahash::AHashMap;
use crate::abbrev::{AbbreviationIndex, opt_view, resolve_spec};
use crate::articles::{article_numbers, article_set_contents, extract_article_numbers};
use crate::citation::{extract_law_abbreviation, law_abbreviation, lemma_abbreviation_nonempty};
use crate::rewrite::{regex_replaced, PAREN_ASIDE};
use crate::text::{to_upper, upper_of};
use crate::title::{
    find_law_by_title_direct, keys_nonempty, lemma_title_match_nonempty, normalized_text, title_match, titles_view,
    TitleRule,
};
use crate::vocab::Vocabulary;
use ahash::AHashSet;

verus! {

/// A map from a string key to a position.
pub type SlotMap = AHashMap<String, usize>;

/// The entries of such a map, by view.
pub type SlotEntries = Map<Seq<char>, usize>;

/// The entries of a map from key to position.
pub uninterp spec fn slot_map_contents(m: SlotMap) -> SlotEntries;

/// Relies on `ahash::AHashMap::new`: a map with no entries.
#[verifier::external_body]
pub(crate) fn new_slot_map() -> (r: SlotMap)
    ensures
        slot_map_contents(r) == SlotEntries::empty(),
{
    AHashMap::new()
}

/// Relies on `ahash::AHashMap::get`: the position stored under the key, if any.
#[verifier::external_body]
pub(crate) fn slot_map_get(m: &SlotMap, k: &String) -> (r: Option<usize>)
    ensures
        r matches Some(v) ==> slot_map_contents(*m).contains_key(k@) && v == slot_map_contents(
            *m,
        )[k@],
        r is None ==> !slot_map_contents(*m).contains_key(k@),
{
    m.get(k).copied()
}

/// Relies on `ahash::AHashMap::insert`: the key now maps to the position.
#[verifier::external_body]
pub(crate) fn slot_map_insert(m: &mut SlotMap, k: String, v: usize)
    ensures
        slot_map_contents(*final(m)) == slot_map_contents(*old(m)).insert(k@, v),
{
    m.insert(k, v);
}

/// One document fragment: its id, the raw citations found in it, and its
/// full text (possibly empty).
pub struct Element {
    pub id: String,
    pub articles_de_loi: Vec<String>,
    pub part_content: String,
}

/// A resolved citation.
pub struct CitationInfo {
    pub element_id: String,
    pub citation: String,
    pub law: String,
    pub articles: AHashSet<u32>,
}

/// A resolved citation by view: fragment id, text, law key, articles.
pub type CitationView = (Seq<char>, Seq<char>, Seq<char>, Set<u32>);

pub open spec fn info_view(c: CitationInfo) -> CitationView {
    (c.element_id@, c.citation@, c.law@, article_set_contents(c.articles))
}

pub open spec fn infos_view(cs: Seq<CitationInfo>) -> Seq<CitationView> {
    cs.map_values(|c: CitationInfo| info_view(c))
}

/// A citation that could not be resolved.
pub struct UnparseableCitation {
    pub element_id: String,
    pub citation: String,
    pub extracted_abbrev: Option<String>,
    pub reason: String,
}

/// The reason given for a citation in which no abbreviation was found.
pub const NO_ABBREVIATION_FOUND: &'static str = "no_abbreviation_found";

/// An unparseable citation by view: fragment id, text, reason.
pub type UnparseableView = (Seq<char>, Seq<char>, Seq<char>);

pub open spec fn unparseable_view(u: UnparseableCitation) -> UnparseableView {
    (u.element_id@, u.citation@, u.reason@)
}

pub open spec fn unparseables_view(us: Seq<UnparseableCitation>) -> Seq<UnparseableView> {
    us.map_values(|u: UnparseableCitation| unparseable_view(u))
}

/// The resolved citations of one law, in the order they were filed.
pub struct LawGroup {
    pub law: String,
    pub citations: Vec<CitationInfo>,
}

/// Law groups by view: each law key with its citations.
pub type GroupsView = Seq<(Seq<char>, Seq<CitationView>)>;

pub open spec fn group_view(g: LawGroup) -> (Seq<char>, Seq<CitationView>) {
    (g.law@, infos_view(g.citations@))
}

/// Law keys are distinct, and every citation of a group carries the
/// group's law key.
pub open spec fn groups_wf(gs: GroupsView) -> bool {
    &&& forall|i: int, j: int| 0 <= i < gs.len() && 0 <= j < gs.len() && gs[i].0 == gs[j].0 ==> i == j
    &&& forall|i: int, k: int| 0 <= i < gs.len() && 0 <= k < gs[i].1.len() ==> #[trigger] gs[i].1[k].2 == gs[i].0
}

/// `gs` with `v` filed last in the group of its law key, which is opened
/// at the end where there is none yet.
pub open spec fn filed(gs: GroupsView, v: CitationView) -> GroupsView {
    if exists|i: int| 0 <= i < gs.len() && gs[i].0 == v.2 {
        let i = choose|i: int| 0 <= i < gs.len() && gs[i].0 == v.2;
        gs.update(i, (gs[i].0, gs[i].1.push(v)))
    } else {
        gs.push((v.2, seq![v]))
    }
}

/// How many citations the groups hold together.
pub open spec fn total_size(gs: GroupsView) -> nat
    decreases gs.len(),
{
    if gs.len() == 0 {
        0
    } else {
        total_size(gs.drop_last()) + gs.last().1.len()
    }
}

/// Law groups, in the order their law keys were first seen, with a lookup
/// from law key to group.
pub struct LawGroups {
    slots: SlotMap,
    groups: Vec<LawGroup>,
}

impl View for LawGroups {
    type V = GroupsView;

    closed spec fn view(&self) -> GroupsView {
        self.groups@.map_values(|g: LawGroup| group_view(g))
    }
}

impl LawGroups {
    pub closed spec fn wf(&self) -> bool {
        &&& groups_wf(self@)
        &&& forall|i: int| 0 <= i < self.groups@.len() ==> slot_map_contents(self.slots).contains_key(
            #[trigger] self.groups@[i].law@,
        ) && slot_map_contents(self.slots)[self.groups@[i].law@] == i
        &&& forall|k: Seq<char>| #[trigger] slot_map_contents(self.slots).contains_key(k) ==> {
            let i = slot_map_contents(self.slots)[k] as int;
            0 <= i < self.groups@.len() && self.groups@[i].law@ == k
        }
    }

    /// No groups.
    pub fn new() -> (r: LawGroups)
        ensures
            r.wf(),
            r@ == GroupsView::empty(),
    {
        let r = LawGroups { slots: new_slot_map(), groups: Vec::new() };
        assert(r@ =~= GroupsView::empty());
        r
    }

    /// Files a resolved citation last in the group of its law key.
    pub fn add(&mut self, info: CitationInfo)
        requires
            old(self).wf(),
        ensures
            final(self).wf(),
            final(self)@ == filed(old(self)@, info_view(info)),
    {
        let ghost before = self@;
        let ghost v = info_view(info);
        match slot_map_get(&self.slots, &info.law) {
            Some(i) => {
                proof {
                    assert(before[i as int].0 == v.2);
                    let j = choose|j: int| 0 <= j < before.len() && before[j].0 == v.2;
                    assert(j == i);
                }
                let ghost old_groups = self.groups@;
                self.groups[i].citations.push(info);
                proof {
                    assert(self.groups@.len() == old_groups.len());
                    assert(self.groups@[i as int].law == old_groups[i as int].law);
                    assert(self.groups@[i as int].citations@ == old_groups[i as int].citations@.push(info));
                    assert(infos_view(self.groups@[i as int].citations@) =~= before[i as int].1.push(v));
                    assert forall|k: int| 0 <= k < self.groups@.len() && k != i implies self.groups@[k] == old_groups[k] by {}
                    assert(self@ =~= before.update(i as int, (before[i as int].0, before[i as int].1.push(v))));
                }
                assert(self@ =~= filed(before, v));
            },
            None => {
                let i = self.groups.len();
                let key = info.law.clone();
                let law = info.law.clone();
                slot_map_insert(&mut self.slots, key, i);
                let mut citations: Vec<CitationInfo> = Vec::new();
                citations.push(info);
                self.groups.push(LawGroup { law, citations });
                proof {
                    assert(!(exists|j: int| 0 <= j < before.len() && before[j].0 == v.2)) by {
                        if exists|j: int| 0 <= j < before.len() && before[j].0 == v.2 {
                            let j = choose|j: int| 0 <= j < before.len() && before[j].0 == v.2;
                            assert(slot_map_contents(self.slots).contains_key(before[j].0));
                        }
                    }
                    assert(infos_view(self.groups@[i as int].citations@) =~= seq![v]);
                    assert(self@ =~= before.push((v.2, seq![v])));
                }
            },
        }
    }

    /// The groups, in the order their law keys were first seen.
    pub fn groups(&self) -> (r: &Vec<LawGroup>)
        ensures
            r@.map_values(|g: LawGroup| group_view(g)) == self@,
    {
        &self.groups
    }

    /// The number of groups.
    pub fn len(&self) -> (r: usize)
        ensures
            r == self@.len(),
    {
        self.groups.len()
    }
}

pub open spec fn titles_opt_view(t: Option<&Vec<(String, String)>>) -> Option<Seq<(Seq<char>, Seq<char>)>> {
    match t {
        Some(v) => Some(titles_view(v@)),
        None => None,
    }
}

/// The key of a law that the abbreviation index does not hold: a marker
/// prefix and the abbreviation in upper case.
pub open spec fn cantonal_key(abbrev: Seq<char>) -> Seq<char> {
    "CANTONAL_"@ + upper_of(abbrev)
}

/// The law key a citation resolves to on its own: by its abbreviation, an
/// unindexed one giving a non-federal key; else by its title, where titles
/// are available.
pub open spec fn direct_law_key(
    c: Seq<char>,
    index: Map<Seq<char>, Seq<char>>,
    titles: Option<Seq<(Seq<char>, Seq<char>)>>,
) -> Option<Seq<char>> {
    match law_abbreviation(c) {
        Some(a) => match resolve_spec(index, a) {
            Some(k) => Some(k),
            None => Some(cantonal_key(a)),
        },
        None => match titles {
            Some(t) => title_match(t, normalized_text(regex_replaced(PAREN_ASIDE@, c, ""@)), TitleRule::Direct),
            None => None,
        },
    }
}

/// The law key a citation resolves to on its own.
pub fn resolve_law_key(
    citation: &str,
    index: &AbbreviationIndex,
    titles: Option<&Vec<(String, String)>>,
    vocab: &Vocabulary,
) -> (r: Option<String>)
    requires
        vocab.wf(),
    ensures
        opt_view(r) == direct_law_key(citation@, index@, titles_opt_view(titles)),
{
    match extract_law_abbreviation(citation, vocab) {
        Some(abbrev) => match index.resolve(abbrev.as_str()) {
            Some(k) => Some(k),
            None => {
                let upper = to_upper(abbrev.as_str());
                let mut key = String::from_str("CANTONAL_");
                key.append(upper.as_str());
                Some(key)
            },
        },
        None => match titles {
            Some(t) => find_law_by_title_direct(citation, t, vocab),
            None => None,
        },
    }
}

/// The citations of the fragments, each with its fragment id, in order.
pub open spec fn flat_citations(es: Seq<Element>) -> Seq<(Seq<char>, Seq<char>)>
    decreases es.len(),
{
    if es.len() == 0 {
        Seq::empty()
    } else {
        flat_citations(es.drop_last()) + es.last().articles_de_loi@.map_values(
            |c: String| (es.last().id@, c@),
        )
    }
}

/// The groups and the unparseable citations after one pass over `cs`.
pub open spec fn group_pass(
    cs: Seq<(Seq<char>, Seq<char>)>,
    index: Map<Seq<char>, Seq<char>>,
    titles: Option<Seq<(Seq<char>, Seq<char>)>>,
) -> (GroupsView, Seq<UnparseableView>)
    decreases cs.len(),
{
    if cs.len() == 0 {
        (Seq::empty(), Seq::empty())
    } else {
        let prev = group_pass(cs.drop_last(), index, titles);
        let id = cs.last().0;
        let c = cs.last().1;
        match direct_law_key(c, index, titles) {
            Some(k) => (filed(prev.0, (id, c, k, article_numbers(c))), prev.1),
            None => (prev.0, prev.1.push((id, c, NO_ABBREVIATION_FOUND@))),
        }
    }
}

pub(crate) proof fn lemma_filed_size(gs: GroupsView, v: CitationView)
    ensures
        total_size(filed(gs, v)) == total_size(gs) + 1,
    decreases gs.len(),
{
    if exists|i: int| 0 <= i < gs.len() && gs[i].0 == v.2 {
        let i = choose|i: int| 0 <= i < gs.len() && gs[i].0 == v.2;
        lemma_update_size(gs, i, (gs[i].0, gs[i].1.push(v)));
    } else {
        assert(gs.push((v.2, seq![v])).drop_last() =~= gs);
    }
}

proof fn lemma_update_size(gs: GroupsView, i: int, g: (Seq<char>, Seq<CitationView>))
    requires
        0 <= i < gs.len(),
    ensures
        total_size(gs.update(i, g)) == total_size(gs) - gs[i].1.len() + g.1.len(),
    decreases gs.len(),
{
    if i < gs.len() - 1 {
        assert(gs.update(i, g).drop_last() =~= gs.drop_last().update(i, g));
        lemma_update_size(gs.drop_last(), i, g);
    } else {
        assert(gs.update(i, g).drop_last() =~= gs.drop_last());
    }
}

/// Grouping is a partition: together the groups and the unparseable list
/// hold every citation once.
pub proof fn lemma_grouping_partition(
    cs: Seq<(Seq<char>, Seq<char>)>,
    index: Map<Seq<char>, Seq<char>>,
    titles: Option<Seq<(Seq<char>, Seq<char>)>>,
)
    ensures
        total_size(group_pass(cs, index, titles).0) + group_pass(cs, index, titles).1.len() == cs.len(),
        groups_wf(group_pass(cs, index, titles).0),
    decreases cs.len(),
{
    if cs.len() > 0 {
        lemma_grouping_partition(cs.drop_last(), index, titles);
        let prev = group_pass(cs.drop_last(), index, titles);
        let c = cs.last().1;
        match direct_law_key(c, index, titles) {
            Some(k) => {
                let v = (cs.last().0, c, k, article_numbers(c));
                lemma_filed_size(prev.0, v);
                lemma_filed_wf(prev.0, v);
            },
            None => {},
        }
    }
}

/// Every law key of the groups is non-empty.
pub open spec fn group_keys_nonempty(gs: GroupsView) -> bool {
    forall|i: int| 0 <= i < gs.len() ==> (#[trigger] gs[i]).0.len() > 0
}

/// The law keys of the index are all non-empty.
pub open spec fn index_values_nonempty(index: Map<Seq<char>, Seq<char>>) -> bool {
    forall|k: Seq<char>| #[trigger] index.contains_key(k) ==> index[k].len() > 0
}

/// A citation resolves to a non-empty law key where the index and the
/// title table hold only non-empty keys.
pub proof fn lemma_direct_key_nonempty(
    c: Seq<char>,
    index: Map<Seq<char>, Seq<char>>,
    titles: Option<Seq<(Seq<char>, Seq<char>)>>,
)
    requires
        index_values_nonempty(index),
        titles matches Some(t) ==> keys_nonempty(t),
    ensures
        direct_law_key(c, index, titles) matches Some(k) ==> k.len() > 0,
{
    reveal_strlit("CANTONAL_");
    lemma_abbreviation_nonempty(c, crate::text::lower_of(c));
    if let Some(t) = titles {
        lemma_title_match_nonempty(t, normalized_text(regex_replaced(PAREN_ASIDE@, c, ""@)), TitleRule::Direct);
    }
}

/// Where the index and the title table hold only non-empty law keys, every
/// group of the pass has a non-empty law key.
pub proof fn lemma_grouping_keys_nonempty(
    cs: Seq<(Seq<char>, Seq<char>)>,
    index: Map<Seq<char>, Seq<char>>,
    titles: Option<Seq<(Seq<char>, Seq<char>)>>,
)
    requires
        index_values_nonempty(index),
        titles matches Some(t) ==> keys_nonempty(t),
    ensures
        group_keys_nonempty(group_pass(cs, index, titles).0),
    decreases cs.len(),
{
    if cs.len() > 0 {
        lemma_grouping_keys_nonempty(cs.drop_last(), index, titles);
        let prev = group_pass(cs.drop_last(), index, titles).0;
        let c = cs.last().1;
        lemma_direct_key_nonempty(c, index, titles);
        if let Some(k) = direct_law_key(c, index, titles) {
            let v = (cs.last().0, c, k, article_numbers(c));
            let r = filed(prev, v);
            if exists|i: int| 0 <= i < prev.len() && prev[i].0 == v.2 {
                let i = choose|i: int| 0 <= i < prev.len() && prev[i].0 == v.2;
                assert forall|j: int| 0 <= j < r.len() implies (#[trigger] r[j]).0.len() > 0 by {
                    assert(r[j].0 == prev[j].0);
                }
            } else {
                assert forall|j: int| 0 <= j < r.len() implies (#[trigger] r[j]).0.len() > 0 by {
                    if j < prev.len() {
                        assert(r[j] == prev[j]);
                    }
                }
            }
        }
    }
}

pub(crate) proof fn lemma_filed_wf(gs: GroupsView, v: CitationView)
    requires
        groups_wf(gs),
    ensures
        groups_wf(filed(gs, v)),
{
    let r = filed(gs, v);
    if exists|i: int| 0 <= i < gs.len() && gs[i].0 == v.2 {
        let i = choose|i: int| 0 <= i < gs.len() && gs[i].0 == v.2;
        assert forall|a: int, k: int| 0 <= a < r.len() && 0 <= k < r[a].1.len() implies #[trigger] r[a].1[k].2 == r[a].0 by {
            if a == i && k == gs[i].1.len() {
            } else if a == i {
                assert(r[a].1[k] == gs[a].1[k]);
            }
        }
    } else {
        assert forall|a: int, k: int| 0 <= a < r.len() && 0 <= k < r[a].1.len() implies #[trigger] r[a].1[k].2 == r[a].0 by {
            if a < gs.len() {
                assert(r[a] == gs[a]);
            }
        }
    }
}

/// Resolves every citation of every fragment in one pass: a resolved one is
/// filed in the group of its law key, the others are listed as unparseable.
pub fn group_citations_by_law(
    elements: &[Element],
    index: &AbbreviationIndex,
    titles: Option<&Vec<(String, String)>>,
    vocab: &Vocabulary,
) -> (r: (LawGroups, Vec<UnparseableCitation>))
    requires
        vocab.wf(),
    ensures
        r.0.wf(),
        (r.0@, unparseables_view(r.1@)) == group_pass(flat_citations(elements@), index@, titles_opt_view(titles)),
        forall|k: int| 0 <= k < r.1@.len() ==> (#[trigger] r.1@[k]).extracted_abbrev is None,
{
    let ghost tv = titles_opt_view(titles);
    let mut groups = LawGroups::new();
    let mut unparseable: Vec<UnparseableCitation> = Vec::new();
    let mut i: usize = 0;
    while i < elements.len()
        invariant
            i <= elements@.len(),
            vocab.wf(),
            tv == titles_opt_view(titles),
            groups.wf(),
            (groups@, unparseables_view(unparseable@)) == group_pass(flat_citations(elements@.subrange(0, i as int)), index@, tv),
            forall|k: int| 0 <= k < unparseable@.len() ==> (#[trigger] unparseable@[k]).extracted_abbrev is None,
        decreases elements.len() - i,
    {
        let element = &elements[i];
        let ghost done = flat_citations(elements@.subrange(0, i as int));
        let ghost mine = element.articles_de_loi@.map_values(|c: String| (element.id@, c@));
        assert(elements@.subrange(0, i + 1).drop_last() =~= elements@.subrange(0, i as int));
        let mut j: usize = 0;
        while j < element.articles_de_loi.len()
            invariant
                j <= element.articles_de_loi@.len(),
                vocab.wf(),
                tv == titles_opt_view(titles),
                groups.wf(),
                mine == element.articles_de_loi@.map_values(|c: String| (element.id@, c@)),
                (groups@, unparseables_view(unparseable@)) == group_pass(done + mine.subrange(0, j as int), index@, tv),
                forall|k: int| 0 <= k < unparseable@.len() ==> (#[trigger] unparseable@[k]).extracted_abbrev is None,
            decreases element.articles_de_loi.len() - j,
        {
            let citation = &element.articles_de_loi[j];
            assert((done + mine.subrange(0, j + 1)).drop_last() =~= done + mine.subrange(0, j as int));
            assert((done + mine.subrange(0, j + 1)).last() == (element.id@, citation@));
            let ghost before_u = unparseables_view(unparseable@);
            match resolve_law_key(citation.as_str(), index, titles, vocab) {
                Some(law) => {
                    let articles = extract_article_numbers(citation.as_str());
                    groups.add(CitationInfo { element_id: element.id.clone(), citation: citation.clone(), law, articles });
                },
                None => {
                    unparseable.push(UnparseableCitation {
                        element_id: element.id.clone(),
                        citation: citation.clone(),
                        extracted_abbrev: None,
                        reason: String::from_str(NO_ABBREVIATION_FOUND),
                    });
                    assert(unparseables_view(unparseable@) =~= before_u.push((element.id@, citation@, NO_ABBREVIATION_FOUND@)));
                },
            }
            j += 1;
        }
        assert(mine.subrange(0, element.articles_de_loi@.len() as int) =~= mine);
        i += 1;
    }
    assert(elements@.subrange(0, elements@.len() as int) =~= elements@);
    (groups, unparseable)
}

} // verus!
