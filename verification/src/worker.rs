//! The extraction worker: from the entities of a node to the transactions
//! that write them.

use vstd::prelude::*;
use vstd::utf8::encode_utf8;
use crate::hashing::{digest_id, id_of_digest, sha256, sha256_of};
use crate::model::{Edge, Node};
use crate::ner::Entity;
use crate::ordered::Duplicate;
use crate::registry::{
    is_resolution, registered, resolution, FamilyView, ModelRegistry, RegistryError,
    ResolvedModel,
};
use crate::sorted_map::Metadata;
use crate::state::{IndexMutation, OpView};

verus! {

/// The id of the node of the entity with the surface text `text`.
pub open spec fn entity_id_of(text: Seq<char>) -> u64 {
    id_of_digest(sha256_of(encode_utf8(text)))
}

/// The id of the node of the entity with the surface text `text`: the first
/// eight bytes of the SHA-256 digest of the text.
pub fn entity_node_id(text: &str) -> (id: u64)
    ensures
        id == entity_id_of(text@),
{
    let digest = sha256(text.as_bytes());
    digest_id(&digest)
}

/// The reference `name@version` of a resolved model.
pub fn extraction_model_ref<E>(resolved: &ResolvedModel<E>) -> (r: String)
    ensures
        r@ == resolved.model_id@ + "@"@ + resolved.version@,
{
    let mut r = resolved.model_id.clone();
    r.append("@");
    r.append(resolved.version.as_str());
    r
}

/// The metadata of the node of an entity.
pub open spec fn entity_node_metadata(
    label: Seq<char>,
    model_ref: Seq<char>,
    snapshot_id: Seq<char>,
) -> Map<Seq<char>, Seq<char>> {
    Map::<Seq<char>, Seq<char>>::empty().insert("type"@, "entity"@).insert("label"@, label).insert(
        "extraction_model_id"@,
        model_ref,
    ).insert("snapshot_id"@, snapshot_id)
}

/// The metadata of the edge from a node to an entity that it mentions.
pub open spec fn mention_metadata(model_ref: Seq<char>, snapshot_id: Seq<char>) -> Map<
    Seq<char>,
    Seq<char>,
> {
    Map::<Seq<char>, Seq<char>>::empty().insert("extraction_model_id"@, model_ref).insert(
        "snapshot_id"@,
        snapshot_id,
    )
}

/// The transaction that writes one extracted entity: the node of the entity,
/// without embedding, and the edge `mentions` from the node of the text to it,
/// weighted with the confidence of the extraction.
pub fn extraction_transaction(
    node_id: u64,
    entity: &Entity,
    model_ref: &str,
    snapshot_id: &str,
) -> (tx: Vec<IndexMutation>)
    ensures
        tx@.len() == 2,
        tx@[0]@ matches OpView::Put(n) && n.id == entity_id_of(entity.text@) && n.embedding.len()
            == 0 && n.data == entity.text@ && n.metadata == entity_node_metadata(
            entity.label@,
            model_ref@,
            snapshot_id@,
        ),
        tx@[1]@ matches OpView::PutEdge(e) && e.source == node_id && e.target == entity_id_of(
            entity.text@,
        ) && e.relation == "mentions"@ && e.weight == entity.confidence && e.metadata
            == mention_metadata(model_ref@, snapshot_id@),
{
    let target_id = entity_node_id(entity.text.as_str());
    let mut node_meta = Metadata::new();
    node_meta.insert("type".to_owned(), "entity".to_owned());
    node_meta.insert("label".to_owned(), entity.label.clone());
    node_meta.insert("extraction_model_id".to_owned(), model_ref.to_owned());
    node_meta.insert("snapshot_id".to_owned(), snapshot_id.to_owned());
    let node = Node {
        id: target_id,
        embedding: Vec::new(),
        data: entity.text.clone(),
        metadata: node_meta,
    };
    let mut edge_meta = Metadata::new();
    edge_meta.insert("extraction_model_id".to_owned(), model_ref.to_owned());
    edge_meta.insert("snapshot_id".to_owned(), snapshot_id.to_owned());
    let edge = Edge {
        source: node_id,
        target: target_id,
        relation: "mentions".to_owned(),
        weight: entity.confidence,
        metadata: edge_meta,
    };
    let mut tx: Vec<IndexMutation> = Vec::new();
    tx.push(IndexMutation::PutNode(node));
    tx.push(IndexMutation::PutEdge(edge));
    tx
}

/// The worker: the registry of models and the model to fall back on.
#[derive(Debug, PartialEq, Eq)]
pub struct Worker<E: Duplicate> {
    registry: ModelRegistry<E>,
    default_model_ref: String,
}

impl<E: Duplicate> Worker<E> {
    /// The registry of the worker.
    pub closed spec fn models(&self) -> ModelRegistry<E> {
        self.registry
    }

    /// The reference of the model to fall back on.
    pub closed spec fn default_ref(&self) -> Seq<char> {
        self.default_model_ref@
    }

    /// A worker with one extractor, registered as `legacy-default` at version
    /// `1.0.0`.
    pub fn new(extractor: E) -> (w: Self)
        ensures
            w.default_ref() == "legacy-default"@,
            w.models()@ == registered(
                Map::<Seq<char>, FamilyView<E::V>>::empty(),
                "legacy-default"@,
                "1.0.0"@,
                extractor@,
            ),
            w.models()@.contains_key("legacy-default"@),
            w.models()@["legacy-default"@].versions.contains_key("1.0.0"@),
            w.models()@["legacy-default"@].versions["1.0.0"@] == extractor@,
            w.models()@["legacy-default"@].active == Some("1.0.0"@),
    {
        let mut registry: ModelRegistry<E> = ModelRegistry::new();
        let r = registry.register("legacy-default", "1.0.0", extractor);
        Worker { registry, default_model_ref: "legacy-default".to_owned() }
    }

    /// A worker on the registry `registry` that falls back on the model
    /// `default_model_ref`.
    pub fn with_registry(registry: ModelRegistry<E>, default_model_ref: &str) -> (w: Self)
        ensures
            w.models() == registry,
            w.default_ref() == default_model_ref@,
    {
        Worker { registry, default_model_ref: default_model_ref.to_owned() }
    }

    /// The model for a job: the model that the job names, or the model to fall
    /// back on where the job's model does not resolve.
    pub fn resolve_model(&self, model_ref: &str) -> (r: Result<ResolvedModel<E>, RegistryError>)
        ensures
            is_resolution(
                self.models()@,
                if resolution(self.models()@, model_ref@) is Ok {
                    model_ref@
                } else {
                    self.default_ref()
                },
                r,
            ),
    {
        match self.registry.resolve(model_ref) {
            Ok(m) => Ok(m),
            Err(_) => self.registry.resolve(self.default_model_ref.as_str()),
        }
    }

    /// The transactions that write the entities of a node: one for each
    /// entity, in order.
    pub fn process_extraction(
        &self,
        node_id: u64,
        entities: &Vec<Entity>,
        resolved: &ResolvedModel<E>,
        snapshot_id: &str,
    ) -> (txs: Vec<Vec<IndexMutation>>)
        ensures
            txs@.len() == entities@.len(),
            forall|i: int|
                0 <= i < txs@.len() ==> {
                    let tx = #[trigger] txs@[i]@;
                    let model_ref = resolved.model_id@ + "@"@ + resolved.version@;
                    &&& tx.len() == 2
                    &&& tx[0]@ matches OpView::Put(n) && n.id == entity_id_of(entities@[i].text@)
                        && n.embedding.len() == 0 && n.data == entities@[i].text@ && n.metadata == entity_node_metadata(
                        entities@[i].label@,
                        model_ref,
                        snapshot_id@,
                    )
                    &&& tx[1]@ matches OpView::PutEdge(e) && e.source == node_id && e.target
                        == entity_id_of(entities@[i].text@) && e.relation == "mentions"@
                        && e.weight == entities@[i].confidence && e.metadata == mention_metadata(
                        model_ref,
                        snapshot_id@,
                    )
                },
    {
        let model_ref = extraction_model_ref(resolved);
        let mut txs: Vec<Vec<IndexMutation>> = Vec::new();
        let mut i: usize = 0;
        while i < entities.len()
            invariant
                i <= entities.len(),
                model_ref@ == resolved.model_id@ + "@"@ + resolved.version@,
                txs@.len() == i,
                forall|j: int|
                    0 <= j < i ==> {
                        let tx = #[trigger] txs@[j]@;
                        &&& tx.len() == 2
                        &&& tx[0]@ matches OpView::Put(n) && n.id == entity_id_of(
                            entities@[j].text@,
                        ) && n.embedding.len() == 0 && n.data == entities@[j].text@ && n.metadata
                            == entity_node_metadata(
                            entities@[j].label@,
                            model_ref@,
                            snapshot_id@,
                        )
                        &&& tx[1]@ matches OpView::PutEdge(e) && e.source == node_id && e.target
                            == entity_id_of(entities@[j].text@) && e.relation == "mentions"@
                            && e.weight == entities@[j].confidence && e.metadata
                            == mention_metadata(model_ref@, snapshot_id@)
                    },
            decreases entities.len() - i,
        {
            txs.push(extraction_transaction(node_id, &entities[i], model_ref.as_str(), snapshot_id));
            i += 1;
        }
        txs
    }
}

} // verus!
