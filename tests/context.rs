use law_citations::context::context_from_lowered_text;
use law_citations::extract_context_around_citation;

#[test]
fn exact_match_extends_to_closing_parenthesis() {
    let content = "Selon l'art. 5 (LAT) le plan est clos.";
    let r = extract_context_around_citation("art. 5 (LAT", content, 5);
    assert_eq!(r, Some(("art. 5 (LAT)".to_string(), "on l'art. 5 (LAT) le p".to_string())));
}

#[test]
fn exact_match_window_is_clipped_to_the_text() {
    let content = "art. 5 LAT";
    let r = extract_context_around_citation("ART. 5", content, 300);
    assert_eq!(r, Some(("art. 5".to_string(), "art. 5 LAT".to_string())));
}

#[test]
fn unbalanced_parenthesis_runs_to_the_end() {
    let content = "vu art. 5 (LAT et suite";
    let r = extract_context_around_citation("art. 5 (LAT", content, 0);
    assert_eq!(r, Some(("art. 5 (LAT et suite".to_string(), "art. 5 (LAT et suite".to_string())));
}

#[test]
fn whitespace_differences_use_the_word_window() {
    let content = "Le recours selon art.  5\n LAT est admis.";
    let r = extract_context_around_citation("art. 5 LAT", content, 10);
    assert_eq!(
        r,
        Some(("art. 5 LAT".to_string(), "Le recours selon art. 5 LAT est admis.".to_string()))
    );
}

#[test]
fn absent_citation_gives_none() {
    assert_eq!(extract_context_around_citation("art. 9 CO", "rien de tel", 300), None);
}

#[test]
fn word_window_is_clamped_to_the_content() {
    let r = extract_context_around_citation("ab  c", "xab c", 10);
    assert_eq!(r, Some(("c".to_string(), "xab c".to_string())));
}

#[test]
fn lowered_forms_are_taken_as_given() {
    let r = context_from_lowered_text("ART. 5", "voir Art. 5 LAT", "art. 5", "voir art. 5 lat", 4);
    assert_eq!(r, Some(("Art. 5".to_string(), "oir Art. 5 LAT".to_string())));
}
