use law_citations::dataset::{analysis_column, element_from_row, fragment_id};
use law_citations::report::{format_duration, format_number, format_signed, is_cantonal_key, run_counts};
use law_citations::{group_citations_by_law, AbbreviationIndex, Element, Vocabulary};

#[test]
fn thousands_are_separated() {
    assert_eq!(format_number(0), "0");
    assert_eq!(format_number(999), "999");
    assert_eq!(format_number(1000), "1,000");
    assert_eq!(format_number(1234567), "1,234,567");
    assert_eq!(format_number(100200), "100,200");
}

#[test]
fn signed_numbers_carry_their_sign() {
    assert_eq!(format_signed(0), "+0");
    assert_eq!(format_signed(1234), "+1,234");
    assert_eq!(format_signed(-1234), "-1,234");
    assert_eq!(format_signed(i64::MIN), "-9,223,372,036,854,775,808");
}

#[test]
fn durations_in_three_forms() {
    assert_eq!(format_duration(42), "42s");
    assert_eq!(format_duration(187), "3m 07s");
    assert_eq!(format_duration(7509), "2h 05m 09s");
    assert_eq!(format_duration(60), "1m 00s");
}

#[test]
fn cantonal_keys_are_recognised() {
    assert!(is_cantonal_key(&"CANTONAL_BAUG".to_string()));
    assert!(!is_cantonal_key(&"700".to_string()));
    assert!(!is_cantonal_key(&"CANTONAL".to_string()));
}

#[test]
fn run_counts_add_up() {
    let vocab = Vocabulary::new();
    let index = AbbreviationIndex::from_triplets(&vec![("700".to_string(), vec!["LAT".to_string()])]);
    let elements = vec![Element {
        id: "f1".to_string(),
        articles_de_loi: vec!["art. 5 LAT".to_string(), "§ 2 BauG".to_string(), "al. 3".to_string()],
        part_content: String::new(),
    }];
    let (groups, unparseable) = group_citations_by_law(&elements, &index, None, &vocab);
    let counts = run_counts(&groups, unparseable.len());
    assert_eq!(counts.total_citations, 3);
    assert_eq!(counts.parsed_citations, 2);
    assert_eq!(counts.unparseable_citations, 1);
    assert_eq!(counts.unique_laws, 2);
    assert_eq!(counts.federal_laws, 1);
    assert_eq!(counts.cantonal_laws, 1);
}

#[test]
fn fragment_ids_join_document_and_part() {
    assert_eq!(fragment_id("doc", Some("3")), "doc_3");
    assert_eq!(fragment_id("doc", None), "doc_0");
}

#[test]
fn blank_citations_are_dropped() {
    let e = element_from_row(
        "doc_1".to_string(),
        vec!["art. 5 LAT".to_string(), "   ".to_string(), "".to_string(), "art. 6 CO".to_string()],
        "texte".to_string(),
    )
    .unwrap();
    assert_eq!(e.id, "doc_1");
    assert_eq!(e.articles_de_loi, vec!["art. 5 LAT".to_string(), "art. 6 CO".to_string()]);
    assert_eq!(e.part_content, "texte");
    assert!(element_from_row("doc_2".to_string(), vec![" \t".to_string()], String::new()).is_none());
    assert!(element_from_row("doc_3".to_string(), vec![], String::new()).is_none());
}

#[test]
fn analysis_column_follows_the_layout() {
    assert_eq!(analysis_column(6), 5);
    assert_eq!(analysis_column(7), 5);
    assert_eq!(analysis_column(5), 4);
}
