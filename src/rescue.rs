//! Rescue of citations in which no abbreviation was found, by the text that
//! surrounds them in their fragment.
use vstd::prelude::*;
use crate::abbrev::{AbbreviationIndex, opt_view, resolve_spec};
use crate::articles::{article_numbers, extract_article_numbers};
use crate::citation::{extract_law_abbreviation, law_abbreviation};
use crate::context::{citation_context, extract_context_around_citation};
use crate::grouping::{
    filed, groups_wf, slot_map_contents, slot_map_get, slot_map_insert, new_slot_map, titles_opt_view,
    total_size, unparseable_view, unparseables_view, CitationInfo, Element, GroupsView, LawGroups,
    SlotMap, UnparseableCitation, UnparseableView, NO_ABBREVIATION_FOUND,
};
use crate::rewrite::{normalize_citation, regex_replaced, repaired_citation, FOOTNOTE_NUMBER, FOOTNOTE_REPAIR};
use crate::title::{find_law_by_title, normalized_text, title_match, TitleRule};
use crate::vocab::Vocabulary;

verus! {

/// Characters of context taken on each side of a citation found verbatim.
pub const RESCUE_WINDOW: usize = 300;

/// The law key that the abbreviation of `s` resolves to in the index.
pub open spec fn abbrev_key(s: Seq<char>, index: Map<Seq<char>, Seq<char>>) -> Option<Seq<char>> {
    match law_abbreviation(s) {
        Some(a) => resolve_spec(index, a),
        None => None,
    }
}

/// The law key that `s` names by title, matched as a context.
pub open spec fn context_title_key(s: Seq<char>, t: Seq<(Seq<char>, Seq<char>)>) -> Option<Seq<char>> {
    title_match(t, normalized_text(regex_replaced(FOOTNOTE_NUMBER@, s, FOOTNOTE_REPAIR@)), TitleRule::Context)
}

/// The law key of a rescued citation: by the indexed abbreviation of the
/// repaired citation, then of the context; then by title, of the repaired
/// citation, then of the context.
pub open spec fn rescue_key(
    repaired: Seq<char>,
    context: Seq<char>,
    index: Map<Seq<char>, Seq<char>>,
    titles: Option<Seq<(Seq<char>, Seq<char>)>>,
) -> Option<Seq<char>> {
    match abbrev_key(repaired, index) {
        Some(k) => Some(k),
        None => match abbrev_key(context, index) {
            Some(k) => Some(k),
            None => match titles {
                Some(t) => match context_title_key(repaired, t) {
                    Some(k) => Some(k),
                    None => context_title_key(context, t),
                },
                None => None,
            },
        },
    }
}

/// The text of the last fragment with the id.
pub open spec fn element_content(es: Seq<Element>, id: Seq<char>) -> Option<Seq<char>>
    decreases es.len(),
{
    if es.len() == 0 {
        None
    } else if es.last().id@ == id {
        Some(es.last().part_content@)
    } else {
        element_content(es.drop_last(), id)
    }
}

/// The law key and repaired text of an unparseable citation that its
/// context rescues.
pub open spec fn rescued(
    u: UnparseableView,
    es: Seq<Element>,
    index: Map<Seq<char>, Seq<char>>,
    titles: Option<Seq<(Seq<char>, Seq<char>)>>,
) -> Option<(Seq<char>, Seq<char>)> {
    if u.2 != NO_ABBREVIATION_FOUND@ {
        None
    } else {
        match element_content(es, u.0) {
            None => None,
            Some(content) => match citation_context(u.1, content, RESCUE_WINDOW as nat) {
                None => None,
                Some(pc) => {
                    let repaired = repaired_citation(pc.0);
                    match rescue_key(repaired, pc.1, index, titles) {
                        Some(k) => Some((k, repaired)),
                        None => None,
                    }
                },
            },
        }
    }
}

/// The groups, the citations still unparseable, and the rescue log (the
/// citation as it came, and the law key with the repaired text), after rescuing
/// what can be of `us` into `gs`.
pub open spec fn rescue_pass(
    us: Seq<UnparseableView>,
    es: Seq<Element>,
    index: Map<Seq<char>, Seq<char>>,
    titles: Option<Seq<(Seq<char>, Seq<char>)>>,
    gs: GroupsView,
) -> (GroupsView, Seq<UnparseableView>, Seq<(Seq<char>, Seq<char>)>)
    decreases us.len(),
{
    if us.len() == 0 {
        (gs, Seq::empty(), Seq::empty())
    } else {
        let prev = rescue_pass(us.drop_last(), es, index, titles, gs);
        let u = us.last();
        match rescued(u, es, index, titles) {
            Some(kn) => (
                filed(prev.0, (u.0, kn.1, kn.0, article_numbers(kn.1))),
                prev.1,
                prev.2.push((u.1, kn.0 + " "@ + kn.1)),
            ),
            None => (prev.0, prev.1.push(u), prev.2),
        }
    }
}

pub open spec fn log_view(log: Seq<(String, String)>) -> Seq<(Seq<char>, Seq<char>)> {
    log.map_values(|e: (String, String)| (e.0@, e.1@))
}

/// A rescue moves citations from the unparseable list into the groups and
/// loses none: the citations held together stay as many.
pub proof fn lemma_rescue_keeps_count(
    us: Seq<UnparseableView>,
    es: Seq<Element>,
    index: Map<Seq<char>, Seq<char>>,
    titles: Option<Seq<(Seq<char>, Seq<char>)>>,
    gs: GroupsView,
)
    requires
        groups_wf(gs),
    ensures
        total_size(rescue_pass(us, es, index, titles, gs).0) + rescue_pass(us, es, index, titles, gs).1.len()
            == total_size(gs) + us.len(),
        groups_wf(rescue_pass(us, es, index, titles, gs).0),
    decreases us.len(),
{
    if us.len() > 0 {
        lemma_rescue_keeps_count(us.drop_last(), es, index, titles, gs);
        let prev = rescue_pass(us.drop_last(), es, index, titles, gs);
        let u = us.last();
        match rescued(u, es, index, titles) {
            Some(kn) => {
                let v = (u.0, kn.1, kn.0, article_numbers(kn.1));
                crate::grouping::lemma_filed_size(prev.0, v);
                crate::grouping::lemma_filed_wf(prev.0, v);
            },
            None => {},
        }
    }
}

fn abbrev_key_exec(s: &str, index: &AbbreviationIndex, vocab: &Vocabulary) -> (r: Option<String>)
    requires
        vocab.wf(),
    ensures
        opt_view(r) == abbrev_key(s@, index@),
{
    match extract_law_abbreviation(s, vocab) {
        Some(a) => index.resolve(a.as_str()),
        None => None,
    }
}

fn rescue_key_exec(
    repaired: &str,
    context: &str,
    index: &AbbreviationIndex,
    titles: Option<&Vec<(String, String)>>,
    vocab: &Vocabulary,
) -> (r: Option<String>)
    requires
        vocab.wf(),
    ensures
        opt_view(r) == rescue_key(repaired@, context@, index@, titles_opt_view(titles)),
{
    match abbrev_key_exec(repaired, index, vocab) {
        Some(k) => {
            return Some(k);
        },
        None => {},
    }
    match abbrev_key_exec(context, index, vocab) {
        Some(k) => {
            return Some(k);
        },
        None => {},
    }
    match titles {
        Some(t) => match find_law_by_title(repaired, t, vocab) {
            Some(k) => Some(k),
            None => find_law_by_title(context, t, vocab),
        },
        None => None,
    }
}

fn copy_unparseable(u: &UnparseableCitation) -> (r: UnparseableCitation)
    ensures
        unparseable_view(r) == unparseable_view(*u),
        (r.extracted_abbrev is None) == (u.extracted_abbrev is None),
{
    UnparseableCitation {
        element_id: u.element_id.clone(),
        citation: u.citation.clone(),
        extracted_abbrev: match &u.extracted_abbrev {
            Some(a) => Some(a.clone()),
            None => None,
        },
        reason: u.reason.clone(),
    }
}

/// The law key and repaired text of one unparseable citation, where its
/// context rescues it; `slots` gives the position of the last fragment with
/// each id.
fn rescue_one(
    u: &UnparseableCitation,
    slots: &SlotMap,
    elements: &[Element],
    index: &AbbreviationIndex,
    titles: Option<&Vec<(String, String)>>,
    vocab: &Vocabulary,
) -> (r: Option<(String, String)>)
    requires
        vocab.wf(),
        forall|id: Seq<char>| #[trigger] slot_map_contents(*slots).contains_key(id) <==> element_content(elements@, id) is Some,
        forall|id: Seq<char>| #[trigger] slot_map_contents(*slots).contains_key(id) ==> {
            let k = slot_map_contents(*slots)[id] as int;
            0 <= k < elements@.len() && element_content(elements@, id) == Some(elements@[k].part_content@)
        },
    ensures
        match r {
            Some(p) => rescued(unparseable_view(*u), elements@, index@, titles_opt_view(titles)) == Some((p.0@, p.1@)),
            None => rescued(unparseable_view(*u), elements@, index@, titles_opt_view(titles)) is None,
        },
{
    let no_abbrev = String::from_str(NO_ABBREVIATION_FOUND);
    if u.reason != no_abbrev {
        return None;
    }
    let k = match slot_map_get(slots, &u.element_id) {
        Some(k) => k,
        None => {
            return None;
        },
    };
    let content = &elements[k].part_content;
    let (complete, context) = match extract_context_around_citation(u.citation.as_str(), content.as_str(), RESCUE_WINDOW) {
        Some(pc) => pc,
        None => {
            return None;
        },
    };
    let repaired = normalize_citation(complete.as_str());
    match rescue_key_exec(repaired.as_str(), context.as_str(), index, titles, vocab) {
        Some(law) => Some((law, repaired)),
        None => None,
    }
}

/// Re-resolves the citations in which no abbreviation was found by their
/// context in their fragment's text, files those rescued into
/// `law_groups`, and returns the citations still unparseable with the log
/// of the rescues: each citation as it came, with the law key and the
/// repaired text.
pub fn enrich_with_context(
    elements: &[Element],
    unparseable_list: Vec<UnparseableCitation>,
    law_groups: &mut LawGroups,
    index: &AbbreviationIndex,
    titles: Option<&Vec<(String, String)>>,
    vocab: &Vocabulary,
) -> (r: (Vec<UnparseableCitation>, Vec<(String, String)>))
    requires
        old(law_groups).wf(),
        vocab.wf(),
    ensures
        final(law_groups).wf(),
        (final(law_groups)@, unparseables_view(r.0@), log_view(r.1@)) == rescue_pass(
            unparseables_view(unparseable_list@),
            elements@,
            index@,
            titles_opt_view(titles),
            old(law_groups)@,
        ),
{
    let ghost es = elements@;
    let ghost tv = titles_opt_view(titles);
    let ghost start = law_groups@;
    let ghost uv = unparseables_view(unparseable_list@);
    // the position of the last fragment with each id
    let mut slots: SlotMap = new_slot_map();
    let mut e: usize = 0;
    while e < elements.len()
        invariant
            e <= elements@.len(),
            es == elements@,
            forall|id: Seq<char>| #[trigger] slot_map_contents(slots).contains_key(id) <==> element_content(es.subrange(0, e as int), id) is Some,
            forall|id: Seq<char>| #[trigger] slot_map_contents(slots).contains_key(id) ==> {
                let k = slot_map_contents(slots)[id] as int;
                0 <= k < e && element_content(es.subrange(0, e as int), id) == Some(es[k].part_content@)
            },
        decreases elements.len() - e,
    {
        assert(es.subrange(0, e + 1).drop_last() =~= es.subrange(0, e as int));
        slot_map_insert(&mut slots, elements[e].id.clone(), e);
        e += 1;
    }
    assert(es.subrange(0, elements@.len() as int) =~= es);
    let mut still: Vec<UnparseableCitation> = Vec::new();
    let mut log: Vec<(String, String)> = Vec::new();
    let mut i: usize = 0;
    while i < unparseable_list.len()
        invariant
            i <= unparseable_list@.len(),
            es == elements@,
            tv == titles_opt_view(titles),
            uv == unparseables_view(unparseable_list@),
            vocab.wf(),
            law_groups.wf(),
            forall|id: Seq<char>| #[trigger] slot_map_contents(slots).contains_key(id) <==> element_content(es, id) is Some,
            forall|id: Seq<char>| #[trigger] slot_map_contents(slots).contains_key(id) ==> {
                let k = slot_map_contents(slots)[id] as int;
                0 <= k < es.len() && element_content(es, id) == Some(es[k].part_content@)
            },
            (law_groups@, unparseables_view(still@), log_view(log@)) == rescue_pass(uv.subrange(0, i as int), es, index@, tv, start),
        decreases unparseable_list.len() - i,
    {
        let u = &unparseable_list[i];
        let ghost prev_still = unparseables_view(still@);
        let ghost prev_log = log_view(log@);
        assert(uv.subrange(0, i + 1).drop_last() =~= uv.subrange(0, i as int));
        assert(uv[i as int] == unparseable_view(*u));
        let outcome = rescue_one(u, &slots, elements, index, titles, vocab);
        match outcome {
            Some((law, repaired)) => {
                let articles = extract_article_numbers(repaired.as_str());
                let mut fixed = law.clone();
                fixed.append(" ");
                fixed.append(repaired.as_str());
                log.push((u.citation.clone(), fixed));
                assert(log_view(log@) =~= prev_log.push((uv[i as int].1, law@ + " "@ + repaired@)));
                law_groups.add(CitationInfo { element_id: u.element_id.clone(), citation: repaired, law, articles });
            },
            None => {
                still.push(copy_unparseable(u));
                assert(unparseables_view(still@) =~= prev_still.push(uv[i as int]));
            },
        }
        i += 1;
    }
    assert(uv.subrange(0, unparseable_list@.len() as int) =~= uv);
    (still, log)
}

} // verus!
