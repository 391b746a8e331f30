//! The lightweight extraction models, which find keywords.

use vstd::prelude::*;
use crate::ner::{is_keyword_entity, push_if_mentioned, Entity, EntityExtractor};
use crate::ordered::Duplicate;
use crate::registry::{
    family_activated, family_of, registered, ModelRegistry, RegistryError, RegistryFault,
};
use crate::text::{contains_text, lowercased, str_to_lowercase};

verus! {

/// The name of the model that finds signals of relations and hints of
/// entities.
pub const TRIPLEX_LITE_MODEL: &'static str = "triplex-lite";

/// The name of the model that finds technical topics.
pub const GLM_FLASH_LITE_MODEL: &'static str = "glm-4-flash-lite";

/// The bit pattern of the confidence 0.86 in single precision.
pub const CONFIDENCE_RELATION_SIGNAL: u32 = 0x3f5c_28f6;

/// The bit pattern of the confidence 0.82 in single precision.
pub const CONFIDENCE_ENTITY_HINT: u32 = 0x3f51_eb85;

/// The bit pattern of the confidence 0.8 in single precision.
pub const CONFIDENCE_RUST_TOPIC: u32 = 0x3f4c_cccd;

/// The bit pattern of the confidence 0.84 in single precision.
pub const CONFIDENCE_TECHNICAL_TOPIC: u32 = 0x3f57_0a3d;

/// The model that finds signals of relations, hints of entities and the
/// topic Rust.
#[derive(Debug, Clone, Copy, PartialEq, Eq)]
pub struct TriplexLiteExtractor;

/// The model that finds technical topics.
#[derive(Debug, Clone, Copy, PartialEq, Eq)]
pub struct GlmFlashLiteExtractor;

/// The entities for the keywords of `keywords` that the lower-case text
/// `lower` holds, in order, each with the label `label` and the confidence
/// `confidence`.
pub open spec fn keyword_entities(
    lower: Seq<char>,
    keywords: Seq<Seq<char>>,
    label: Seq<char>,
    confidence: u32,
    out: Seq<Entity>,
) -> bool
    decreases keywords.len(),
{
    if keywords.len() == 0 {
        out.len() == 0
    } else if contains_text(lower, lowercased(keywords.last())) {
        out.len() > 0 && is_keyword_entity(out.last(), keywords.last(), label, confidence)
            && keyword_entities(lower, keywords.drop_last(), label, confidence, out.drop_last())
    } else {
        keyword_entities(lower, keywords.drop_last(), label, confidence, out)
    }
}

/// The keywords that signal a relation.
pub open spec fn relation_signals() -> Seq<Seq<char>> {
    seq!["acquired"@, "merged"@, "invested"@, "partnership"@]
}

/// The keywords that hint at an entity.
pub open spec fn entity_hints() -> Seq<Seq<char>> {
    seq!["company"@, "organization"@, "startup"@]
}

/// The keywords that name a technical topic.
pub open spec fn technical_topics() -> Seq<Seq<char>> {
    seq!["graph"@, "vector"@, "database"@, "index"@, "query"@]
}

/// The entities for the keywords `keywords` that the lower-case text `lower`
/// holds.
fn find_keywords(lower: &str, keywords: &Vec<&'static str>, label: &str, confidence: u32) -> (out: Vec<
    Entity,
>)
    ensures
        keyword_entities(
            lower@,
            keywords@.map_values(|k: &'static str| k@),
            label@,
            confidence,
            out@,
        ),
{
    let ghost all = keywords@.map_values(|k: &'static str| k@);
    let mut out: Vec<Entity> = Vec::new();
    let mut i: usize = 0;
    assert(all.take(0) =~= Seq::<Seq<char>>::empty());
    while i < keywords.len()
        invariant
            i <= keywords.len(),
            all == keywords@.map_values(|k: &'static str| k@),
            keyword_entities(lower@, all.take(i as int), label@, confidence, out@),
        decreases keywords.len() - i,
    {
        proof {
            let t = all.take(i + 1);
            assert(t.drop_last() =~= all.take(i as int));
            assert(t.last() == keywords@[i as int]@);
        }
        let added = push_if_mentioned(&mut out, lower, keywords[i], label, confidence);
        i += 1;
    }
    assert(all.take(keywords.len() as int) =~= all);
    out
}

/// Whether `out` is what the triplex model finds in `text`: the signals of
/// relations, then the hints of entities, then the topic Rust, for the
/// keywords that the text holds in any case of letters, each group in the
/// order of its keywords.
pub open spec fn triplex_finds(text: Seq<char>, out: Seq<Entity>) -> bool {
    exists|a: Seq<Entity>, b: Seq<Entity>, c: Seq<Entity>|
        #![trigger a + b + c]
        out == a + b + c && keyword_entities(
            lowercased(text),
            relation_signals(),
            "RelationSignal"@,
            CONFIDENCE_RELATION_SIGNAL,
            a,
        ) && keyword_entities(
            lowercased(text),
            entity_hints(),
            "EntityHint"@,
            CONFIDENCE_ENTITY_HINT,
            b,
        ) && keyword_entities(
            lowercased(text),
            seq!["rust"@],
            "TechnicalTopic"@,
            CONFIDENCE_RUST_TOPIC,
            c,
        )
}

/// Whether `out` is what the flash model finds in `text`: the technical
/// topics that the text names, in any case of letters, in the order of the
/// topics.
pub open spec fn glm_finds(text: Seq<char>, out: Seq<Entity>) -> bool {
    keyword_entities(
        lowercased(text),
        technical_topics(),
        "TechnicalTopic"@,
        CONFIDENCE_TECHNICAL_TOPIC,
        out,
    )
}

impl TriplexLiteExtractor {
    /// The entities of `text`: the signals of relations, then the hints of
    /// entities, then the topic Rust, for the keywords that the text holds in
    /// any case of letters.
    pub fn extract_entities(&self, text: &str) -> (out: Vec<Entity>)
        ensures
            triplex_finds(text@, out@),
    {
        let lower = str_to_lowercase(text);
        let mut signals: Vec<&'static str> = Vec::new();
        signals.push("acquired");
        signals.push("merged");
        signals.push("invested");
        signals.push("partnership");
        assert(signals@.map_values(|k: &'static str| k@) =~= relation_signals());
        let mut a = find_keywords(
            lower.as_str(),
            &signals,
            "RelationSignal",
            CONFIDENCE_RELATION_SIGNAL,
        );
        let mut hints: Vec<&'static str> = Vec::new();
        hints.push("company");
        hints.push("organization");
        hints.push("startup");
        assert(hints@.map_values(|k: &'static str| k@) =~= entity_hints());
        let mut b = find_keywords(lower.as_str(), &hints, "EntityHint", CONFIDENCE_ENTITY_HINT);
        let mut topics: Vec<&'static str> = Vec::new();
        topics.push("rust");
        assert(topics@.map_values(|k: &'static str| k@) =~= seq!["rust"@]);
        let mut c = find_keywords(lower.as_str(), &topics, "TechnicalTopic", CONFIDENCE_RUST_TOPIC);
        let ghost sa = a@;
        let ghost sb = b@;
        let ghost sc = c@;
        a.append(&mut b);
        a.append(&mut c);
        assert(a@ =~= sa + sb + sc);
        a
    }
}

impl GlmFlashLiteExtractor {
    /// The entities of `text`: the technical topics that the text names, in
    /// any case of letters.
    pub fn extract_entities(&self, text: &str) -> (out: Vec<Entity>)
        ensures
            glm_finds(text@, out@),
    {
        let lower = str_to_lowercase(text);
        let mut topics: Vec<&'static str> = Vec::new();
        topics.push("graph");
        topics.push("vector");
        topics.push("database");
        topics.push("index");
        topics.push("query");
        assert(topics@.map_values(|k: &'static str| k@) =~= technical_topics());
        find_keywords(lower.as_str(), &topics, "TechnicalTopic", CONFIDENCE_TECHNICAL_TOPIC)
    }
}

impl EntityExtractor for TriplexLiteExtractor {
    /// The entities of `text`, as `extract_entities` finds them; never fails.
    fn extract(&self, text: &str) -> (r: Result<Vec<Entity>, String>)
        ensures
            r matches Ok(found) && triplex_finds(text@, found@),
    {
        Ok(self.extract_entities(text))
    }
}

impl EntityExtractor for GlmFlashLiteExtractor {
    /// The entities of `text`, as `extract_entities` finds them; never fails.
    fn extract(&self, text: &str) -> (r: Result<Vec<Entity>, String>)
        ensures
            r matches Ok(found) && glm_finds(text@, found@),
    {
        Ok(self.extract_entities(text))
    }
}

/// One of the lightweight models.
#[derive(Debug, Clone, Copy, PartialEq, Eq, Structural)]
pub enum LightweightModel {
    TriplexLite,
    GlmFlashLite,
}

impl View for LightweightModel {
    type V = LightweightModel;

    open spec fn view(&self) -> LightweightModel {
        *self
    }
}

impl Duplicate for LightweightModel {
    fn duplicate(&self) -> (r: Self) {
        *self
    }
}

impl EntityExtractor for LightweightModel {
    /// The entities that the model finds in `text`: those of the triplex
    /// model or those of the flash model. Never fails.
    fn extract(&self, text: &str) -> (r: Result<Vec<Entity>, String>)
        ensures
            r matches Ok(found) && match self {
                LightweightModel::TriplexLite => triplex_finds(text@, found@),
                LightweightModel::GlmFlashLite => glm_finds(text@, found@),
            },
    {
        match self {
            LightweightModel::TriplexLite => Ok(TriplexLiteExtractor.extract_entities(text)),
            LightweightModel::GlmFlashLite => Ok(GlmFlashLiteExtractor.extract_entities(text)),
        }
    }
}

/// Registers the lightweight models at version `1.0.0` and activates that
/// version of `triplex-lite`. Fails where a version is registered already;
/// what was registered before the failure stays registered.
pub fn register_default_lightweight_models(registry: &mut ModelRegistry<LightweightModel>) -> (r:
    Result<(), RegistryError>)
    ensures
        ({
            let version = "1.0.0"@;
            let first = registered(
                old(registry)@,
                TRIPLEX_LITE_MODEL@,
                version,
                LightweightModel::TriplexLite@,
            );
            let second = registered(
                first,
                GLM_FLASH_LITE_MODEL@,
                version,
                LightweightModel::GlmFlashLite@,
            );
            if family_of(old(registry)@, TRIPLEX_LITE_MODEL@).versions.contains_key(version) {
                r matches Err(e) && e@ == RegistryFault::VersionAlreadyExists(
                    TRIPLEX_LITE_MODEL@,
                    version,
                ) && final(registry)@ == old(registry)@
            } else if family_of(first, GLM_FLASH_LITE_MODEL@).versions.contains_key(version) {
                r matches Err(e) && e@ == RegistryFault::VersionAlreadyExists(
                    GLM_FLASH_LITE_MODEL@,
                    version,
                ) && final(registry)@ == first
            } else {
                r is Ok && final(registry)@ == second.insert(
                    TRIPLEX_LITE_MODEL@,
                    family_activated(second[TRIPLEX_LITE_MODEL@], version),
                )
            }
        }),
{
    match registry.register(TRIPLEX_LITE_MODEL, "1.0.0", LightweightModel::TriplexLite) {
        Err(e) => {
            return Err(e);
        },
        Ok(()) => {},
    }
    match registry.register(GLM_FLASH_LITE_MODEL, "1.0.0", LightweightModel::GlmFlashLite) {
        Err(e) => {
            return Err(e);
        },
        Ok(()) => {},
    }
    match registry.activate(TRIPLEX_LITE_MODEL, "1.0.0") {
        Err(e) => Err(e),
        Ok(_) => Ok(()),
    }
}

} // verus!
