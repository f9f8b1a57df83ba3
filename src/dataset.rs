//! Turning the rows of a dataset into fragments.
use vstd::prelude::*;
use crate::grouping::Element;
use crate::text::{chars_of, trim_chars, trim_spec};
use crate::vocab::views_of;

verus! {

/// The part number of a row that gives none.
pub open spec fn default_part() -> Seq<char> {
    "0"@
}

/// The fragment id of a part of a document: `<document>_<part>`.
pub open spec fn fragment_id_of(uuid: Seq<char>, part: Seq<char>) -> Seq<char> {
    uuid + "_"@ + part
}

/// The fragment id of a part of a document, the part defaulting to `0`.
pub fn fragment_id(uuid: &str, part_number: Option<&str>) -> (r: String)
    ensures
        r@ == fragment_id_of(
            uuid@,
            match part_number {
                Some(p) => p@,
                None => default_part(),
            },
        ),
{
    let mut id = String::from_str(uuid);
    id.append("_");
    match part_number {
        Some(p) => id.append(p),
        None => id.append("0"),
    }
    id
}

/// `s` holds nothing but white space.
pub open spec fn blank(s: Seq<char>) -> bool {
    trim_spec(s).len() == 0
}

/// The citations that are not blank, in order.
pub open spec fn non_blank(cs: Seq<Seq<char>>) -> Seq<Seq<char>>
    decreases cs.len(),
{
    if cs.len() == 0 {
        cs
    } else if blank(cs.last()) {
        non_blank(cs.drop_last())
    } else {
        non_blank(cs.drop_last()).push(cs.last())
    }
}

/// The fragment of a row: its citations without the blank ones; none where
/// no citation is left.
pub fn element_from_row(id: String, citations: Vec<String>, part_content: String) -> (r: Option<Element>)
    ensures
        non_blank(views_of(citations@)).len() == 0 ==> r is None,
        non_blank(views_of(citations@)).len() > 0 ==> (r matches Some(e) && e.id@ == id@ && views_of(
            e.articles_de_loi@,
        ) == non_blank(views_of(citations@)) && e.part_content@ == part_content@),
{
    let ghost cv = views_of(citations@);
    let mut kept: Vec<String> = Vec::new();
    let mut k: usize = 0;
    while k < citations.len()
        invariant
            k <= citations@.len(),
            cv == views_of(citations@),
            views_of(kept@) == non_blank(cv.subrange(0, k as int)),
        decreases citations.len() - k,
    {
        assert(cv.subrange(0, k + 1).drop_last() =~= cv.subrange(0, k as int));
        let chars = chars_of(citations[k].as_str());
        let trimmed = trim_chars(&chars);
        if trimmed.len() > 0 {
            let ghost before = views_of(kept@);
            kept.push(citations[k].clone());
            assert(views_of(kept@) =~= before.push(cv[k as int]));
        }
        k += 1;
    }
    assert(cv.subrange(0, citations@.len() as int) =~= cv);
    if kept.len() == 0 {
        None
    } else {
        Some(Element { id, articles_de_loi: kept, part_content })
    }
}

/// The column of the analysis payload in a CSV row of `fields` columns: the
/// sixth in the full layout, the fifth in the layout without the text.
pub fn analysis_column(fields: usize) -> (r: usize)
    ensures
        fields >= 6 ==> r == 5,
        fields < 6 ==> r == 4,
{
    if fields >= 6 {
        5
    } else {
        4
    }
}

} // verus!
