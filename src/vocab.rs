//! The fixed word lists that the parsers and matchers consult, built once and
//! shared read-only.
use vstd::prelude::*;

verus! {

/// Words that are never taken for a law abbreviation: article and structural
/// markers, connectives, generic legal terms and month names.
pub open spec fn common_words() -> Seq<Seq<char>> {
    seq![
        "art"@, "artikel"@, "article"@,
        "abs"@, "al"@, "lit"@, "let"@, "ch"@, "bst"@, "ziff"@, "satz"@, "anhang"@,
        "du"@, "de"@, "vom"@, "der"@, "des"@, "und"@, "et"@, "bzw"@, "recte"@, "ff"@, "ss"@,
        "antrag"@, "verordnung"@, "gesetzes"@, "loi"@, "constitution"@, "convention"@,
        "conseil"@, "proposition"@, "tribunal"@, "gegen"@, "für"@, "über"@,
        "januar"@, "februar"@, "märz"@, "april"@, "mai"@, "juni"@, "juli"@,
        "august"@, "september"@, "oktober"@, "november"@, "dezember"@,
        "janvier"@, "février"@, "mars"@, "avril"@, "juin"@, "juillet"@,
        "août"@, "septembre"@, "octobre"@, "novembre"@, "décembre"@,
        "le"@, "la"@, "les"@, "planungs"@, "baureglements"@,
    ]
}

/// Short spellings of the federal constitution.
pub open spec fn constitution_aliases() -> Seq<Seq<char>> {
    seq!["cst"@, "cste"@, "bv"@, "cost"@, "but"@]
}

/// The word "constitution" in the corpus languages.
pub open spec fn constitution_words() -> Seq<Seq<char>> {
    seq!["constitution"@, "verfassung"@, "costituzione"@]
}

/// Words of law titles that carry no distinction, for context matching.
pub open spec fn title_common_words() -> Seq<Seq<char>> {
    seq![
        "loi"@, "ordonnance"@, "décret"@, "arrêté"@, "règlement"@, "gesetz"@,
        "verordnung"@, "beschluss"@, "bundesgesetz"@, "legge"@, "ordinanza"@,
        "decreto"@, "fédérale"@, "federale"@, "suisse"@, "svizzera"@, "schweiz"@,
        "concernant"@, "betreffend"@, "concerning"@, "über"@, "sulla"@, "sur"@,
        "pour"@, "dans"@, "avec"@, "même"@, "ainsi"@, "aussi"@,
    ]
}

/// Words of law titles that carry no distinction, for direct citation matching.
pub open spec fn direct_title_common_words() -> Seq<Seq<char>> {
    seq![
        "loi"@, "ordonnance"@, "décret"@, "arrêté"@, "règlement"@, "gesetz"@,
        "verordnung"@, "beschluss"@, "bundesgesetz"@, "legge"@, "ordinanza"@,
        "decreto"@, "fédérale"@, "federale"@, "suisse"@, "svizzera"@, "schweiz"@,
        "concernant"@, "betreffend"@, "concerning"@, "über"@, "sulla"@, "sur"@,
        "pour"@, "dans"@, "avec"@, "même"@, "ainsi"@, "aussi"@, "fédéral"@,
        "federal"@, "vom"@, "della"@, "del"@, "relative"@, "relatif"@,
        "relativa"@, "relativi"@,
    ]
}

pub open spec fn views_of(v: Seq<String>) -> Seq<Seq<char>> {
    v.map_values(|w: String| w@)
}

/// The word lists, each held as owned strings.
pub struct Vocabulary {
    pub common: Vec<String>,
    pub aliases: Vec<String>,
    pub constitution: Vec<String>,
    pub title_common: Vec<String>,
    pub direct_title_common: Vec<String>,
}

impl Vocabulary {
    pub open spec fn wf(&self) -> bool {
        &&& views_of(self.common@) == common_words()
        &&& views_of(self.aliases@) == constitution_aliases()
        &&& views_of(self.constitution@) == constitution_words()
        &&& views_of(self.title_common@) == title_common_words()
        &&& views_of(self.direct_title_common@) == direct_title_common_words()
    }

    pub fn new() -> (r: Vocabulary)
        ensures
            r.wf(),
    {
        let common = owned_words(
            vec![
                "art", "artikel", "article",
                "abs", "al", "lit", "let", "ch", "bst", "ziff", "satz", "anhang",
                "du", "de", "vom", "der", "des", "und", "et", "bzw", "recte", "ff", "ss",
                "antrag", "verordnung", "gesetzes", "loi", "constitution", "convention",
                "conseil", "proposition", "tribunal", "gegen", "für", "über",
                "januar", "februar", "märz", "april", "mai", "juni", "juli",
                "august", "september", "oktober", "november", "dezember",
                "janvier", "février", "mars", "avril", "juin", "juillet",
                "août", "septembre", "octobre", "novembre", "décembre",
                "le", "la", "les", "planungs", "baureglements",
            ],
        );
        let aliases = owned_words(vec!["cst", "cste", "bv", "cost", "but"]);
        let constitution = owned_words(vec!["constitution", "verfassung", "costituzione"]);
        let title_common = owned_words(
            vec![
                "loi", "ordonnance", "décret", "arrêté", "règlement", "gesetz",
                "verordnung", "beschluss", "bundesgesetz", "legge", "ordinanza",
                "decreto", "fédérale", "federale", "suisse", "svizzera", "schweiz",
                "concernant", "betreffend", "concerning", "über", "sulla", "sur",
                "pour", "dans", "avec", "même", "ainsi", "aussi",
            ],
        );
        let direct_title_common = owned_words(
            vec![
                "loi", "ordonnance", "décret", "arrêté", "règlement", "gesetz",
                "verordnung", "beschluss", "bundesgesetz", "legge", "ordinanza",
                "decreto", "fédérale", "federale", "suisse", "svizzera", "schweiz",
                "concernant", "betreffend", "concerning", "über", "sulla", "sur",
                "pour", "dans", "avec", "même", "ainsi", "aussi", "fédéral",
                "federal", "vom", "della", "del", "relative", "relatif",
                "relativa", "relativi",
            ],
        );
        let r = Vocabulary { common, aliases, constitution, title_common, direct_title_common };
        assert(views_of(r.common@) =~= common_words());
        assert(views_of(r.aliases@) =~= constitution_aliases());
        assert(views_of(r.constitution@) =~= constitution_words());
        assert(views_of(r.title_common@) =~= title_common_words());
        assert(views_of(r.direct_title_common@) =~= direct_title_common_words());
        r
    }
}

fn owned_words(words: Vec<&str>) -> (r: Vec<String>)
    ensures
        r@.len() == words@.len(),
        forall|k: int| 0 <= k < words@.len() ==> #[trigger] r@[k]@ == words@[k]@,
{
    let mut r: Vec<String> = Vec::new();
    let mut k: usize = 0;
    while k < words.len()
        invariant
            k <= words@.len(),
            r@.len() == k,
            forall|m: int| 0 <= m < k ==> #[trigger] r@[m]@ == words@[m]@,
        decreases words.len() - k,
    {
        r.push(String::from_str(words[k]));
        k += 1;
    }
    r
}

/// Is `w` one of `list`?
pub fn in_list(list: &Vec<String>, w: &String) -> (r: bool)
    ensures
        r == views_of(list@).contains(w@),
{
    let mut k: usize = 0;
    while k < list.len()
        invariant
            k <= list@.len(),
            forall|m: int| 0 <= m < k ==> list@[m]@ != w@,
        decreases list.len() - k,
    {
        if list[k] == *w {
            assert(views_of(list@)[k as int] == w@);
            return true;
        }
        k += 1;
    }
    proof {
        if views_of(list@).contains(w@) {
            let m = choose|m: int| 0 <= m < views_of(list@).len() && views_of(list@)[m] == w@;
            assert(list@[m]@ == w@);
        }
    }
    false
}

} // verus!
