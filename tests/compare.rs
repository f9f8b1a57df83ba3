use ahash::AHashSet;
use law_citations::{candidate_pair_count, compare_group, compare_pair, count_same_article, CitationInfo, LawGroup};

fn info(fragment: &str, articles: &[u32]) -> CitationInfo {
    let mut set = AHashSet::new();
    for a in articles {
        set.insert(*a);
    }
    CitationInfo {
        element_id: fragment.to_string(),
        citation: format!("art. {:?} CO", articles),
        law: "220".to_string(),
        articles: set,
    }
}

#[test]
fn shared_article_is_found() {
    let law = "220".to_string();
    let r = compare_pair(&law, &info("a", &[5, 6]), &info("b", &[7, 6]));
    assert_eq!(r.overlapping_articles, vec![6]);
    assert!(r.same_article);
    assert!(r.same_law);
    assert_eq!(r.articles1, vec![5, 6]);
    assert_eq!(r.articles2, vec![6, 7]);
}

#[test]
fn disjoint_articles_are_no_match() {
    let law = "220".to_string();
    let r = compare_pair(&law, &info("a", &[5]), &info("b", &[8]));
    assert!(r.overlapping_articles.is_empty());
    assert!(!r.same_article);
}

#[test]
fn overlap_does_not_depend_on_order() {
    let law = "220".to_string();
    let a = info("a", &[1, 2, 3, 9]);
    let b = info("b", &[9, 3, 4]);
    let ab = compare_pair(&law, &a, &b);
    let ba = compare_pair(&law, &b, &a);
    assert_eq!(ab.overlapping_articles, vec![3, 9]);
    assert_eq!(ab.overlapping_articles, ba.overlapping_articles);
    assert_eq!(ab.same_article, ba.same_article);
}

#[test]
fn group_of_four_has_six_candidate_pairs() {
    assert_eq!(candidate_pair_count(4), 6);
    assert_eq!(candidate_pair_count(0), 0);
    assert_eq!(candidate_pair_count(1), 0);
    let group = LawGroup {
        law: "220".to_string(),
        citations: vec![info("a", &[1]), info("b", &[1]), info("c", &[2]), info("d", &[3])],
    };
    let records = compare_group(&group);
    assert_eq!(records.len(), 6);
    assert_eq!(count_same_article(&records), 1);
    assert_eq!((records[0].element1.as_str(), records[0].element2.as_str()), ("a", "b"));
    assert_eq!((records[5].element1.as_str(), records[5].element2.as_str()), ("c", "d"));
}

#[test]
fn pairs_from_one_fragment_are_skipped() {
    let group = LawGroup {
        law: "220".to_string(),
        citations: vec![info("a", &[1]), info("a", &[1]), info("b", &[1]), info("c", &[2])],
    };
    let records = compare_group(&group);
    assert_eq!(records.len(), 5);
    for r in &records {
        assert_ne!(r.element1, r.element2);
    }
    assert_eq!(count_same_article(&records), 2);
}
