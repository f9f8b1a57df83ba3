use law_citations::{
    enrich_with_context, group_citations_by_law, sorted_articles, AbbreviationIndex, Element, LawGroups,
    Vocabulary, NO_ABBREVIATION_FOUND,
};

fn index() -> AbbreviationIndex {
    AbbreviationIndex::from_triplets(&vec![
        ("700".to_string(), vec!["LAT".to_string()]),
        ("220".to_string(), vec!["CO".to_string()]),
    ])
}

fn element(id: &str, citations: &[&str], content: &str) -> Element {
    Element {
        id: id.to_string(),
        articles_de_loi: citations.iter().map(|c| c.to_string()).collect(),
        part_content: content.to_string(),
    }
}

#[test]
fn lat_citation_is_filed_under_its_law_key() {
    let vocab = Vocabulary::new();
    let elements = vec![element("f1", &["art. 5 LAT"], "")];
    let (groups, unparseable) = group_citations_by_law(&elements, &index(), None, &vocab);
    assert!(unparseable.is_empty());
    assert_eq!(groups.len(), 1);
    let g = &groups.groups()[0];
    assert_eq!(g.law, "700");
    assert_eq!(g.citations.len(), 1);
    assert_eq!(sorted_articles(&g.citations[0].articles), vec![5]);
}

#[test]
fn open_ended_citation_is_filed_with_its_window() {
    let vocab = Vocabulary::new();
    let elements = vec![element("f1", &["art. 3 ss CO"], "")];
    let (groups, _) = group_citations_by_law(&elements, &index(), None, &vocab);
    let g = &groups.groups()[0];
    assert_eq!(g.law, "220");
    assert_eq!(sorted_articles(&g.citations[0].articles), (3..=13).collect::<Vec<u32>>());
}

#[test]
fn unindexed_abbreviation_gets_a_cantonal_key() {
    let vocab = Vocabulary::new();
    let elements = vec![element("f1", &["§ 4 BauG"], "")];
    let (groups, unparseable) = group_citations_by_law(&elements, &index(), None, &vocab);
    assert!(unparseable.is_empty());
    assert_eq!(groups.groups()[0].law, "CANTONAL_BAUG");
}

#[test]
fn grouping_partitions_the_citations() {
    let vocab = Vocabulary::new();
    let elements = vec![
        element("f1", &["art. 5 LAT", "art. 12 al. 2", "art. 3 CO"], ""),
        element("f2", &["art. 6 LAT", "§ 4 BauG", "let. b"], ""),
    ];
    let (groups, unparseable) = group_citations_by_law(&elements, &index(), None, &vocab);
    let filed: usize = groups.groups().iter().map(|g| g.citations.len()).sum();
    assert_eq!(filed + unparseable.len(), 6);
    assert_eq!(unparseable.len(), 2);
    assert_eq!(groups.len(), 3);
    for g in groups.groups() {
        for c in &g.citations {
            assert_eq!(c.law, g.law);
        }
    }
    assert_eq!(groups.groups()[0].citations.len(), 2);
    assert_eq!(unparseable[0].reason, NO_ABBREVIATION_FOUND);
    assert_eq!(unparseable[0].citation, "art. 12 al. 2");
    assert_eq!(unparseable[1].element_id, "f2");
}

#[test]
fn empty_input_gives_nothing() {
    let vocab = Vocabulary::new();
    let (groups, unparseable) = group_citations_by_law(&[], &index(), None, &vocab);
    assert_eq!(groups.len(), 0);
    assert!(unparseable.is_empty());
}

#[test]
fn title_matching_resolves_a_citation_without_abbreviation() {
    let vocab = Vocabulary::new();
    let titles = vec![("loi fédérale sur l'aménagement du territoire".to_string(), "700".to_string())];
    let elements = vec![element("f1", &["art. 5 de la loi sur l'aménagement du territoire"], "")];
    let (groups, unparseable) = group_citations_by_law(&elements, &index(), Some(&titles), &vocab);
    assert!(unparseable.is_empty());
    assert_eq!(groups.groups()[0].law, "700");
}

#[test]
fn rescue_finds_the_law_in_the_closing_parenthesis() {
    let vocab = Vocabulary::new();
    let elements = vec![element(
        "f1",
        &["art. 5 al. 2 (loi"],
        "Le plan respecte l'art. 5 al. 2 (loi LAT) selon le recours.",
    )];
    let (mut groups, unparseable) = group_citations_by_law(&elements, &index(), None, &vocab);
    assert_eq!(unparseable.len(), 1);
    let (still, log) = enrich_with_context(&elements, unparseable, &mut groups, &index(), None, &vocab);
    assert!(still.is_empty());
    assert_eq!(log, vec![("art. 5 al. 2 (loi".to_string(), "700 art. 5 al. 2 (loi LAT)".to_string())]);
    let g = &groups.groups()[0];
    assert_eq!(g.law, "700");
    assert_eq!(g.citations[0].citation, "art. 5 al. 2 (loi LAT)");
    assert_eq!(sorted_articles(&g.citations[0].articles), vec![5]);
}

#[test]
fn rescue_keeps_what_it_cannot_resolve() {
    let vocab = Vocabulary::new();
    let elements = vec![element("f1", &["art. 9 al. 1"], "texte sans rapport")];
    let (mut groups, unparseable) = group_citations_by_law(&elements, &index(), None, &vocab);
    let (still, log) = enrich_with_context(&elements, unparseable, &mut groups, &index(), None, &vocab);
    assert_eq!(still.len(), 1);
    assert!(log.is_empty());
    assert_eq!(groups.len(), 0);
}

#[test]
fn rescue_repairs_a_glued_prefix() {
    let vocab = Vocabulary::new();
    let idx = AbbreviationIndex::from_triplets(&vec![("311.0".to_string(), vec!["CP".to_string()])]);
    let elements = vec![element("f1", &["art. 43 aCP"], "selon l'art. 43 aCP.")];
    let mut groups = LawGroups::new();
    let unparseable = vec![law_citations::UnparseableCitation {
        element_id: "f1".to_string(),
        citation: "art. 43 aCP".to_string(),
        extracted_abbrev: None,
        reason: NO_ABBREVIATION_FOUND.to_string(),
    }];
    let (still, log) = enrich_with_context(&elements, unparseable, &mut groups, &idx, None, &vocab);
    assert!(still.is_empty());
    assert_eq!(log[0].1, "311.0 art. 43 a CP");
}
