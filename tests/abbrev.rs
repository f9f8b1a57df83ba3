use law_citations::citation::abbreviation_from_lowered;
use law_citations::abbrev::strip_and_trim;
use law_citations::{extract_law_abbreviation, normalize_abbreviation, AbbreviationIndex, Vocabulary};

fn table() -> Vec<(String, Vec<String>)> {
    vec![
        ("700".to_string(), vec!["LAT".to_string(), "RPG".to_string()]),
        ("220".to_string(), vec!["CO".to_string(), "OR".to_string()]),
        ("999".to_string(), vec!["C.O.".to_string()]),
    ]
}

#[test]
fn normalization_lowers_strips_periods_and_trims() {
    assert_eq!(normalize_abbreviation("Cst."), "cst");
    assert_eq!(normalize_abbreviation("  B.G.G. "), "bgg");
    assert_eq!(normalize_abbreviation(""), "");
}

#[test]
fn normalization_is_idempotent_on_examples() {
    for raw in ["Cst.", " LAT ", "StPO", "a.b.c", "  ", "ÜbG"] {
        let once = normalize_abbreviation(raw);
        assert_eq!(normalize_abbreviation(&once), once);
    }
}

#[test]
fn index_resolves_by_normal_form() {
    let index = AbbreviationIndex::from_triplets(&table());
    assert_eq!(index.resolve("LAT"), Some("700".to_string()));
    assert_eq!(index.resolve("rpg"), Some("700".to_string()));
    assert_eq!(index.resolve("O.R."), Some("220".to_string()));
    assert_eq!(index.resolve("XYZ"), None);
}

#[test]
fn index_keeps_first_law_key_for_shared_abbreviation() {
    let index = AbbreviationIndex::from_triplets(&table());
    assert_eq!(index.resolve("CO"), Some("220".to_string()));
}

#[test]
fn numeric_abbreviation_is_returned_unchanged() {
    let index = AbbreviationIndex::from_triplets(&table());
    assert_eq!(index.resolve("101.1"), Some("101.1".to_string()));
    assert_eq!(index.resolve("220"), Some("220".to_string()));
}

#[test]
fn cascade_prefers_registry_number() {
    let vocab = Vocabulary::new();
    assert_eq!(extract_law_abbreviation("Art. 5 LAT (RS 700)", &vocab), Some("700".to_string()));
    assert_eq!(extract_law_abbreviation("art. 2 SR 101.1 BV", &vocab), Some("101.1".to_string()));
}

#[test]
fn cascade_finds_the_constitution() {
    let vocab = Vocabulary::new();
    assert_eq!(extract_law_abbreviation("art. 8 Constitution fédérale", &vocab), Some("Cst.".to_string()));
    assert_eq!(extract_law_abbreviation("Art. 29 Abs. 2 BV", &vocab), Some("Cst.".to_string()));
    assert_eq!(extract_law_abbreviation("art. 9 (Cst)", &vocab), Some("Cst.".to_string()));
}

#[test]
fn cascade_prefers_parenthesized_token() {
    let vocab = Vocabulary::new();
    assert_eq!(
        extract_law_abbreviation("Art. 34 Abs. 2 Bundesgericht (BGG)", &vocab),
        Some("BGG".to_string())
    );
    assert_eq!(
        extract_law_abbreviation("Art. 34 Abs. 2 Bundesgericht", &vocab),
        Some("Bundesgericht".to_string())
    );
    assert_eq!(extract_law_abbreviation("Art. 34 Abs. 2 (BGG)", &vocab), Some("BGG".to_string()));
}

#[test]
fn cascade_skips_common_words() {
    let vocab = Vocabulary::new();
    assert_eq!(extract_law_abbreviation("Art. 5 LAT", &vocab), Some("LAT".to_string()));
    assert_eq!(extract_law_abbreviation("art. 12 let. a", &vocab), None);
    assert_eq!(extract_law_abbreviation("Art. 12 Abs. 1", &vocab), None);
}

#[test]
fn cascade_on_a_given_lower_case_form() {
    let vocab = Vocabulary::new();
    assert_eq!(
        abbreviation_from_lowered("Art. 8 de la Constitution fédérale", "art. 8 de la constitution fédérale", &vocab),
        Some("Cst.".to_string())
    );
    assert_eq!(abbreviation_from_lowered("Art. 5 LAT", "art. 5 lat", &vocab), Some("LAT".to_string()));
    assert_eq!(abbreviation_from_lowered("Art. 5 ÜBG", "art. 5 übg", &vocab), Some("ÜBG".to_string()));
}

#[test]
fn strip_and_trim_takes_a_lower_case_form() {
    assert_eq!(strip_and_trim(" c.st. "), "cst");
    assert_eq!(strip_and_trim(&strip_and_trim(" c.st. ")), "cst");
}
