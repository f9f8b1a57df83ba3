use law_citations::{extract_article_numbers, sorted_articles};

fn numbers(text: &str) -> Vec<u32> {
    sorted_articles(&extract_article_numbers(text))
}

#[test]
fn open_ended_ff_gives_eleven_articles() {
    assert_eq!(numbers("Art. 5 ff"), (5..=15).collect::<Vec<u32>>());
}

#[test]
fn open_ended_ss_with_abbreviation() {
    assert_eq!(numbers("art. 3 ss CO"), vec![3, 4, 5, 6, 7, 8, 9, 10, 11, 12, 13]);
}

#[test]
fn open_ended_sqq() {
    assert_eq!(numbers("art. 7 sqq."), (7..=17).collect::<Vec<u32>>());
}

#[test]
fn descending_range_adds_only_the_start() {
    assert_eq!(numbers("Art. 10-5"), vec![10]);
}

#[test]
fn ascending_ranges_in_three_spellings() {
    assert_eq!(numbers("Art. 5-7"), vec![5, 6, 7]);
    assert_eq!(numbers("Art. 5 bis 7"), vec![5, 6, 7]);
    assert_eq!(numbers("art 12 à 14"), vec![12, 13, 14]);
}

#[test]
fn plain_references_collect_into_a_set() {
    assert_eq!(numbers("art. 8 et art. 3, ART. 8"), vec![3, 8]);
}

#[test]
fn no_marker_no_numbers() {
    assert!(numbers("al. 2 let. b").is_empty());
    assert!(numbers("").is_empty());
}

#[test]
fn number_beyond_u32_is_dropped() {
    assert!(numbers("Art. 99999999999").is_empty());
    assert_eq!(numbers("Art. 4294967295"), vec![4294967295]);
}

#[test]
fn open_ended_near_the_top_stops_at_u32_max() {
    assert_eq!(numbers("Art. 4294967290 ff"), (4294967290..=4294967295).collect::<Vec<u32>>());
}

#[test]
fn marker_glued_to_digits() {
    assert_eq!(numbers("Art.12 LAT"), vec![12]);
}
