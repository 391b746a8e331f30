//! Entities and the extractors that find them.

use vstd::prelude::*;
use crate::text::{contains_str, contains_text, lowercased, str_to_lowercase};

verus! {

/// An entity that was found in a text. `confidence` is a single-precision
/// number by bit pattern.
#[derive(Debug, PartialEq, Eq)]
pub struct Entity {
    pub text: String,
    pub label: String,
    pub confidence: u32,
}

/// What finds the entities of a text.
pub trait EntityExtractor {
    fn extract(&self, text: &str) -> (r: Result<Vec<Entity>, String>);
}

/// The bit pattern of the confidence 0.9 in single precision.
pub const CONFIDENCE_MOCK: u32 = 0x3f66_6666;

/// Whether `e` is the entity for the keyword `keyword` with the label `label`
/// and the confidence `confidence`.
pub open spec fn is_keyword_entity(e: Entity, keyword: Seq<char>, label: Seq<char>, confidence: u32) -> bool {
    e.text@ == keyword && e.label@ == label && e.confidence == confidence
}

/// Appends the entity for `keyword` where the lower-case text `lower` holds
/// the lower-case form of the keyword.
pub fn push_if_mentioned(
    entities: &mut Vec<Entity>,
    lower: &str,
    keyword: &str,
    label: &str,
    confidence: u32,
) -> (added: bool)
    ensures
        added == contains_text(lower@, lowercased(keyword@)),
        added ==> final(entities)@.len() == old(entities)@.len() + 1 && is_keyword_entity(
            final(entities)@.last(),
            keyword@,
            label@,
            confidence,
        ) && final(entities)@.drop_last() == old(entities)@,
        !added ==> final(entities)@ == old(entities)@,
{
    let low = str_to_lowercase(keyword);
    if contains_str(lower, low.as_str()) {
        let ghost before = entities@;
        entities.push(Entity { text: keyword.to_owned(), label: label.to_owned(), confidence });
        assert(entities@.drop_last() =~= before);
        true
    } else {
        false
    }
}

/// An extractor that finds a fixed set of keywords.
#[derive(Debug, PartialEq, Eq)]
pub struct MockEntityExtractor {
    keywords: Vec<(String, String)>,
}

impl MockEntityExtractor {
    /// The keywords with their labels.
    pub closed spec fn keyword_list(&self) -> Seq<(String, String)> {
        self.keywords@
    }

    /// The extractor for the keywords `Rust`, `Python`, `AI`, `Database`,
    /// `Graph` and `Vector`.
    pub fn new() -> (e: Self)
        ensures
            e.keyword_list().len() == 6,
            e.keyword_list()[0].0@ == "Rust"@ && e.keyword_list()[0].1@ == "Language"@,
            e.keyword_list()[1].0@ == "Python"@ && e.keyword_list()[1].1@ == "Language"@,
            e.keyword_list()[2].0@ == "AI"@ && e.keyword_list()[2].1@ == "Topic"@,
            e.keyword_list()[3].0@ == "Database"@ && e.keyword_list()[3].1@ == "Topic"@,
            e.keyword_list()[4].0@ == "Graph"@ && e.keyword_list()[4].1@ == "Concept"@,
            e.keyword_list()[5].0@ == "Vector"@ && e.keyword_list()[5].1@ == "Concept"@,
    {
        let mut keywords: Vec<(String, String)> = Vec::new();
        keywords.push(("Rust".to_owned(), "Language".to_owned()));
        keywords.push(("Python".to_owned(), "Language".to_owned()));
        keywords.push(("AI".to_owned(), "Topic".to_owned()));
        keywords.push(("Database".to_owned(), "Topic".to_owned()));
        keywords.push(("Graph".to_owned(), "Concept".to_owned()));
        keywords.push(("Vector".to_owned(), "Concept".to_owned()));
        MockEntityExtractor { keywords }
    }

    /// The entities of `text`: one for each keyword that the text holds, in
    /// any case of letters, in the order of the keywords.
    pub fn extract_entities(&self, text: &str) -> (out: Vec<Entity>)
        ensures
            labelled_entities(lowercased(text@), self.keyword_list(), CONFIDENCE_MOCK, out@),
    {
        let lower = str_to_lowercase(text);
        let mut out: Vec<Entity> = Vec::new();
        let mut k: usize = 0;
        assert(self.keywords@.take(0) =~= Seq::<(String, String)>::empty());
        while k < self.keywords.len()
            invariant
                k <= self.keywords.len(),
                lower@ == lowercased(text@),
                labelled_entities(lower@, self.keywords@.take(k as int), CONFIDENCE_MOCK, out@),
            decreases self.keywords.len() - k,
        {
            proof {
                let t = self.keywords@.take(k + 1);
                assert(t.drop_last() =~= self.keywords@.take(k as int));
                assert(t.last() == self.keywords@[k as int]);
            }
            let added = push_if_mentioned(
                &mut out,
                lower.as_str(),
                self.keywords[k].0.as_str(),
                self.keywords[k].1.as_str(),
                CONFIDENCE_MOCK,
            );
            k += 1;
        }
        assert(self.keywords@.take(self.keywords.len() as int) =~= self.keywords@);
        out
    }
}

/// Whether `out` lists the entities for the keywords of `keywords` that the
/// lower-case text `lower` holds, in order, each with the label of its keyword
/// and the confidence `confidence`.
pub open spec fn labelled_entities(
    lower: Seq<char>,
    keywords: Seq<(String, String)>,
    confidence: u32,
    out: Seq<Entity>,
) -> bool
    decreases keywords.len(),
{
    if keywords.len() == 0 {
        out.len() == 0
    } else if contains_text(lower, lowercased(keywords.last().0@)) {
        out.len() > 0 && is_keyword_entity(
            out.last(),
            keywords.last().0@,
            keywords.last().1@,
            confidence,
        ) && labelled_entities(lower, keywords.drop_last(), confidence, out.drop_last())
    } else {
        labelled_entities(lower, keywords.drop_last(), confidence, out)
    }
}

impl Default for MockEntityExtractor {
    /// The extractor with the six keywords of `new`.
    fn default() -> (e: Self)
        ensures
            e.keyword_list().len() == 6,
            e.keyword_list()[0].0@ == "Rust"@ && e.keyword_list()[0].1@ == "Language"@,
            e.keyword_list()[1].0@ == "Python"@ && e.keyword_list()[1].1@ == "Language"@,
            e.keyword_list()[2].0@ == "AI"@ && e.keyword_list()[2].1@ == "Topic"@,
            e.keyword_list()[3].0@ == "Database"@ && e.keyword_list()[3].1@ == "Topic"@,
            e.keyword_list()[4].0@ == "Graph"@ && e.keyword_list()[4].1@ == "Concept"@,
            e.keyword_list()[5].0@ == "Vector"@ && e.keyword_list()[5].1@ == "Concept"@,
    {
        MockEntityExtractor::new()
    }
}

impl EntityExtractor for MockEntityExtractor {
    /// The entities of `text`, as `extract_entities` finds them; never fails.
    fn extract(&self, text: &str) -> (r: Result<Vec<Entity>, String>)
        ensures
            r matches Ok(found) && labelled_entities(
                lowercased(text@),
                self.keyword_list(),
                CONFIDENCE_MOCK,
                found@,
            ),
    {
        Ok(self.extract_entities(text))
    }
}

} // verus!
