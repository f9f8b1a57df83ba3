use law_citations::title::collapse_lowered;
use law_citations::{
    clean_law_title, find_law_by_title, find_law_by_title_direct, normalize_citation, normalize_text,
    normalize_title_for_matching, Vocabulary,
};

fn titles() -> Vec<(String, String)> {
    vec![
        ("loi fédérale sur l'aménagement du territoire".to_string(), "700".to_string()),
        ("loi sur la protection de l'environnement".to_string(), "814.01".to_string()),
        ("code des obligations".to_string(), "220".to_string()),
        ("code civil".to_string(), "210".to_string()),
    ]
}

#[test]
fn normalize_text_collapses_and_trims() {
    assert_eq!(normalize_text("  Loi   Fédérale\tsur X.;, "), "loi fédérale sur x");
    assert_eq!(normalize_text(""), "");
}

#[test]
fn normalize_title_drops_asides() {
    assert_eq!(normalize_title_for_matching("Loi sur la procédure (PA) (RS 172.021)."), "loi sur la procédure ");
}

#[test]
fn citation_repair_splits_glued_prefix() {
    assert_eq!(normalize_citation("43 aCP"), "43 a CP");
    assert_eq!(normalize_citation("art. 5 aBauR"), "art. 5 a BauR");
    assert_eq!(normalize_citation("art. 5 CP"), "art. 5 CP");
    assert_eq!(normalize_citation("selon aBauR"), "selon a BauR");
    assert_eq!(normalize_citation("selon\taBauR 4"), "selon\ta BauR 4");
}

#[test]
fn footnote_number_is_dropped() {
    assert_eq!(clean_law_title("administration3"), "administration");
    assert_eq!(clean_law_title("RS 700"), "RS 700");
}

#[test]
fn context_title_matches_exactly_after_cleaning() {
    let vocab = Vocabulary::new();
    assert_eq!(
        find_law_by_title("Loi sur la protection de l'environnement3", &titles(), &vocab),
        Some("814.01".to_string())
    );
}

#[test]
fn context_title_matches_by_distinctive_words() {
    let vocab = Vocabulary::new();
    assert_eq!(
        find_law_by_title("voir aménagement territoire cantonal", &titles(), &vocab),
        Some("700".to_string())
    );
}

#[test]
fn direct_title_needs_all_words_when_few() {
    let vocab = Vocabulary::new();
    assert_eq!(
        find_law_by_title_direct("art. 5 de la loi fédérale sur l'aménagement du territoire", &titles(), &vocab),
        Some("700".to_string())
    );
    assert_eq!(find_law_by_title_direct("art. 5 territoire montagne", &titles(), &vocab), None);
}

#[test]
fn too_few_distinctive_words_do_not_match() {
    let vocab = Vocabulary::new();
    assert_eq!(find_law_by_title("loi territoire", &titles(), &vocab), None);
}

#[test]
fn short_titles_are_not_fuzzy_matched() {
    let vocab = Vocabulary::new();
    assert_eq!(find_law_by_title("code civil fédéral", &titles(), &vocab), None);
}

#[test]
fn collapse_lowered_keeps_letter_case() {
    assert_eq!(collapse_lowered("  Loi  X ;"), "Loi X ");
}
