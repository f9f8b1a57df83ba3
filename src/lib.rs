//! Resolution of free-text statute citations to law keys and article numbers,
//! grouping by law, and pairwise article-overlap comparison.
//!
//! The pipeline: every citation of every fragment is resolved by the
//! abbreviation cascade (`citation`), the abbreviation index (`abbrev`) and,
//! failing those, the law titles (`title`), and filed in its law group
//! (`grouping`); citations left unresolved can be rescued by the text around
//! them (`context`, `rescue`); the citations of each group are then compared
//! pairwise (`compare`). `dataset` turns input rows into fragments and
//! `report` gives the run counts and the number formats of the report.
pub mod text;
pub mod articles;
pub mod vocab;
pub mod abbrev;
pub mod citation;
pub mod rewrite;
pub mod title;
pub mod context;
pub mod grouping;
pub mod rescue;
pub mod compare;
pub mod report;
pub mod dataset;

pub use abbrev::{normalize_abbreviation, AbbreviationIndex};
pub use articles::extract_article_numbers;
pub use citation::extract_law_abbreviation;
pub use compare::{
    candidate_pair_count, compare_group, compare_pair, compare_row, count_same_article,
    sorted_articles, CitationMatchRecord,
};
pub use context::extract_context_around_citation;
pub use grouping::{
    group_citations_by_law, resolve_law_key, CitationInfo, Element, LawGroup, LawGroups,
    UnparseableCitation, NO_ABBREVIATION_FOUND,
};
pub use rescue::{enrich_with_context, RESCUE_WINDOW};
pub use rewrite::{clean_law_title, normalize_citation};
pub use title::{find_law_by_title, find_law_by_title_direct, normalize_text, normalize_title_for_matching};
pub use vocab::Vocabulary;
