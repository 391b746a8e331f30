//! The ingestion pipeline: from a request to the nodes that are persisted.
//!
//! The pipeline decides and prepares; the caller embeds the chunks, persists
//! the nodes through the repository and hands the jobs to the queue.

use vstd::prelude::*;
use vstd::utf8::{decode_utf8, encode_utf8, encode_utf8_decode_utf8, valid_utf8};
use dashmap::DashMap;
use crate::audit::{AuditEvent, AuditOperation, AuditOutcome};
use crate::auth::AuthzError;
use crate::bytes::{le64, push_le64};
use crate::chunker::Chunker;
use crate::engine::copy_opt;
use crate::extract::{content_kind_of, detect_content_kind, extract_utf8, ContentKind};
use crate::governance::{Breach, GovernanceError, GovernancePolicyStore, TenantGovernancePolicy};
use crate::hashing::{concat_bytes, digest_id, hex_of, id_of_digest, sha256, sha256_of};
use crate::ingest::{chunk_views, Chunk, ChunkView, ContentHash, IngestionRequest};
use crate::model::Node;
use crate::ordered::Duplicate;
use crate::policy::{ContentPolicy, PolicyError};
use crate::queue::Job;
use crate::repo::RepoError;
use crate::sorted_map::{Metadata, SortedSet};
use crate::state::MaterializedState;
use crate::text::{decimal_of, is_blank, is_blank_str, texts_of, u64_to_decimal};

verus! {

/// Why an ingest failed.
#[derive(Debug, PartialEq, Eq)]
pub enum IngestionError {
    Storage(RepoError),
    UnsupportedType(String),
    InvalidUtf8,
    ExtractionFailed(String),
    Policy(PolicyError),
    JobQueue(String),
    IdempotencyConflict(String),
    Unauthorized(AuthzError),
    Governance(GovernanceError),
}

impl IngestionError {
    /// The message of the error, as characters.
    pub open spec fn message_text(&self) -> Seq<char> {
        match self {
            IngestionError::Storage(e) => "Storage error: "@ + e.message_text(),
            IngestionError::UnsupportedType(t) => "Unsupported content type: "@ + t@,
            IngestionError::InvalidUtf8 => "Invalid UTF-8 content"@,
            IngestionError::ExtractionFailed(m) => "Content extraction failed: "@ + m@,
            IngestionError::Policy(e) => "Policy error: "@ + e.message_text(),
            IngestionError::JobQueue(m) => "Job Queue error: "@ + m@,
            IngestionError::IdempotencyConflict(k)
                => "Idempotency conflict: processing already in progress for key "@ + k@,
            IngestionError::Unauthorized(e) => "Authorization error: "@ + e.message_text(),
            IngestionError::Governance(e) => "Governance error: "@ + e.message_text(),
        }
    }

    /// The message of the error.
    pub fn message(&self) -> (s: String)
        ensures
            s@ == self.message_text(),
    {
        match self {
            IngestionError::Storage(e) => {
                let mut s = "Storage error: ".to_owned();
                s.append(e.message().as_str());
                s
            },
            IngestionError::UnsupportedType(t) => {
                let mut s = "Unsupported content type: ".to_owned();
                s.append(t.as_str());
                s
            },
            IngestionError::InvalidUtf8 => "Invalid UTF-8 content".to_owned(),
            IngestionError::ExtractionFailed(m) => {
                let mut s = "Content extraction failed: ".to_owned();
                s.append(m.as_str());
                s
            },
            IngestionError::Policy(e) => {
                let mut s = "Policy error: ".to_owned();
                s.append(e.message().as_str());
                s
            },
            IngestionError::JobQueue(m) => {
                let mut s = "Job Queue error: ".to_owned();
                s.append(m.as_str());
                s
            },
            IngestionError::IdempotencyConflict(k) => {
                let mut s = "Idempotency conflict: processing already in progress for key ".to_owned();
                s.append(k.as_str());
                s
            },
            IngestionError::Unauthorized(e) => {
                let mut s = "Authorization error: ".to_owned();
                s.append(e.message().as_str());
                s
            },
            IngestionError::Governance(e) => {
                let mut s = "Governance error: ".to_owned();
                s.append(e.message().as_str());
                s
            },
        }
    }
}

/// What stops an ingest before anything is persisted, as mathematical values.
pub enum IngestFault {
    UnsupportedType(Seq<char>),
    InvalidUtf8,
    ExtractionFailed(Seq<char>),
    Policy(Seq<char>),
    Governance(Breach),
}

/// The fault that the error `e` reports, where it reports one.
pub open spec fn fault_of(e: IngestionError) -> Option<IngestFault> {
    match e {
        IngestionError::UnsupportedType(t) => Some(IngestFault::UnsupportedType(t@)),
        IngestionError::InvalidUtf8 => Some(IngestFault::InvalidUtf8),
        IngestionError::ExtractionFailed(w) => Some(IngestFault::ExtractionFailed(w@)),
        IngestionError::Policy(PolicyError::ForbiddenContent(w)) => Some(IngestFault::Policy(w@)),
        IngestionError::Governance(g) => Some(IngestFault::Governance(g@)),
        _ => None,
    }
}

/// The embedding model of an ingest that names none.
pub const DEFAULT_MODEL_ID: &'static str = "embedding-default-v1";

/// The extraction model of an ingest that names none.
pub const DEFAULT_EXTRACTION_MODEL_ID: &'static str = "triplex-lite@1.0.0";

/// The model of `request`, or `default_model_id` where it names none.
pub fn effective_ingest_model_id(request: &IngestionRequest, default_model_id: &str) -> (id: String)
    ensures
        id@ == match request.model() {
            Some(m) => m@,
            None => default_model_id@,
        },
{
    match request.model_id() {
        Some(m) => m.to_owned(),
        None => default_model_id.to_owned(),
    }
}

/// The audit event of an ingest.
pub fn build_audit_event(
    outcome: AuditOutcome,
    model_id: &str,
    actor: Option<String>,
    tenant: Option<String>,
    error: Option<String>,
) -> (e: AuditEvent)
    ensures
        e.sequence == 0,
        e.operation == AuditOperation::Ingest,
        e.outcome == outcome,
        e.model_id matches Some(m) && m@ == model_id@,
        e.actor == actor,
        e.tenant == tenant,
        e.snapshot_id is None,
        e.metadata@ == match error {
            Some(err) => Map::<Seq<char>, Seq<char>>::empty().insert("error"@, err@),
            None => Map::<Seq<char>, Seq<char>>::empty(),
        },
{
    let mut event = AuditEvent::new(AuditOperation::Ingest, outcome);
    event.model_id = Some(model_id.to_owned());
    event.actor = actor;
    event.tenant = tenant;
    match error {
        Some(err) => {
            event.metadata.insert("error".to_owned(), err);
        },
        None => {},
    }
    event
}

/// The id of the `index`-th chunk of the content with the hash
/// `content_hash`.
pub open spec fn chunk_id_of(content_hash: Seq<char>, index: u64) -> u64 {
    id_of_digest(sha256_of(encode_utf8(content_hash) + le64(index)))
}

/// The id of a chunk: the first eight bytes of the SHA-256 digest of the
/// content hash followed by the place of the chunk, little-endian.
pub fn derive_chunk_id(content_hash: &str, index: u64) -> (id: u64)
    ensures
        id == chunk_id_of(content_hash@, index),
{
    let mut data = concat_bytes(content_hash.as_bytes(), &[]);
    assert(data@ =~= encode_utf8(content_hash@));
    push_le64(&mut data, index);
    let digest = sha256(data.as_slice());
    digest_id(&digest)
}

/// What the extraction of the text of a request gives: the text and the
/// metadata, or the fault. `pdf_text` is what the PDF extractor gave for the
/// file, if it gave anything; a blank text counts as none.
pub open spec fn extraction_of(request: IngestionRequest, pdf_text: Option<String>) -> Result<
    (Seq<char>, Map<Seq<char>, Seq<char>>),
    IngestFault,
> {
    match request {
        IngestionRequest::Text { content, metadata, .. } => Ok((content@, metadata@)),
        IngestionRequest::File { filename, content, mime_type, metadata, .. } => {
            let meta = metadata@.insert("filename"@, filename@).insert("mime_type"@, mime_type@);
            match content_kind_of(mime_type@, Some(filename@)) {
                ContentKind::Unsupported => Err(IngestFault::UnsupportedType(mime_type@)),
                ContentKind::Pdf => if pdf_text is Some && !is_blank(pdf_text->0@) {
                    Ok((pdf_text->0@, meta))
                } else {
                    Err(IngestFault::ExtractionFailed("pdf"@))
                },
                _ => if valid_utf8(content@) {
                    Ok((decode_utf8(content@), meta))
                } else {
                    Err(IngestFault::InvalidUtf8)
                },
            }
        },
    }
}

/// The text and the metadata of a request. A file is read by its kind: text,
/// Markdown and JSON as UTF-8, PDF through what the caller extracted from it.
/// The metadata of a file names the file and its media type.
pub fn extract_request_text(request: IngestionRequest, pdf_text: Option<String>) -> (r: Result<
    (String, Metadata),
    IngestionError,
>)
    ensures
        match extraction_of(request, pdf_text) {
            Ok((text, meta)) => r matches Ok((t, m)) && t@ == text && m@ == meta,
            Err(fault) => r matches Err(e) && fault_of(e) == Some(fault),
        },
        request matches IngestionRequest::Text { content, metadata, .. } ==> r matches Ok((t, m))
            && t == content && m == metadata,
{
    match request {
        IngestionRequest::Text { content, metadata, .. } => Ok((content, metadata)),
        IngestionRequest::File { filename, content, mime_type, metadata, .. } => {
            let kind = detect_content_kind(mime_type.as_str(), Some(filename.as_str()));
            let mut metadata = metadata;
            metadata.insert("filename".to_owned(), filename);
            metadata.insert("mime_type".to_owned(), mime_type.clone());
            match kind {
                ContentKind::Text | ContentKind::Markdown | ContentKind::Json => {
                    match extract_utf8(content.as_slice()) {
                        Ok(text) => {
                            proof {
                                encode_utf8_decode_utf8(text@);
                            }
                            Ok((text, metadata))
                        },
                        Err(_) => Err(IngestionError::InvalidUtf8),
                    }
                },
                ContentKind::Pdf => match pdf_text {
                    Some(text) => {
                        if is_blank_str(text.as_str()) {
                            Err(IngestionError::ExtractionFailed("pdf".to_owned()))
                        } else {
                            Ok((text, metadata))
                        }
                    },
                    None => Err(IngestionError::ExtractionFailed("pdf".to_owned())),
                },
                ContentKind::Unsupported => Err(IngestionError::UnsupportedType(mime_type)),
            }
        },
    }
}

/// The concurrent map of the `dashmap` crate. Nothing inside it is visible
/// here; `held_keys` names what a map of lock keys holds.
#[verifier::external_type_specification]
#[verifier::external_body]
#[verifier::reject_recursive_types(K)]
#[verifier::reject_recursive_types(V)]
#[verifier::reject_recursive_types(S)]
pub struct ExDashMap<K, V, S>(DashMap<K, V, S>);

/// The keys under which a map of lock keys has an entry.
pub uninterp spec fn held_keys(m: DashMap<String, ()>) -> Set<Seq<char>>;

/// A map of lock keys without entries.
///
/// Wraps `DashMap::new`, which creates an empty map.
#[verifier::external_body]
fn lock_map_new() -> (m: DashMap<String, ()>)
    ensures
        held_keys(m) == Set::<Seq<char>>::empty(),
{
    DashMap::new()
}

/// Whether the map has an entry under `key`.
///
/// Wraps `DashMap::contains_key`, which looks the key up and says whether the
/// map holds it.
#[verifier::external_body]
fn lock_map_contains(m: &DashMap<String, ()>, key: &str) -> (r: bool)
    ensures
        r == held_keys(*m).contains(key@),
{
    m.contains_key(key)
}

/// Puts an entry under `key`.
///
/// Wraps `DashMap::insert`, which stores the pair, in place of an entry with
/// the same key where there is one; the other entries stay.
#[verifier::external_body]
fn lock_map_insert(m: &mut DashMap<String, ()>, key: String)
    ensures
        held_keys(*final(m)) == held_keys(*old(m)).insert(key@),
{
    m.insert(key, ());
}

/// Takes the entry under `key` out, where there is one.
///
/// Wraps `DashMap::remove`, which removes the entry with the key if the map
/// has it; the other entries stay.
#[verifier::external_body]
fn lock_map_remove(m: &mut DashMap<String, ()>, key: &str)
    ensures
        held_keys(*final(m)) == held_keys(*old(m)).remove(key@),
{
    m.remove(key);
}

/// The ingests that are in flight, by lock key.
pub struct InflightLocks {
    keys: DashMap<String, ()>,
}

impl View for InflightLocks {
    type V = Set<Seq<char>>;

    closed spec fn view(&self) -> Set<Seq<char>> {
        held_keys(self.keys)
    }
}

impl InflightLocks {
    /// No ingest in flight.
    pub fn new() -> (l: Self)
        ensures
            l@ == Set::<Seq<char>>::empty(),
    {
        InflightLocks { keys: lock_map_new() }
    }

    /// Takes the lock `key`. Fails, and changes nothing, where an ingest holds
    /// it.
    pub fn try_acquire(&mut self, key: &str) -> (taken: bool)
        ensures
            taken == !old(self)@.contains(key@),
            final(self)@ == old(self)@.insert(key@),
    {
        if lock_map_contains(&self.keys, key) {
            assert(self@ =~= old(self)@.insert(key@));
            return false;
        }
        lock_map_insert(&mut self.keys, key.to_owned());
        true
    }

    /// Gives the lock `key` back.
    pub fn release(&mut self, key: &str)
        ensures
            final(self)@ == old(self)@.remove(key@),
    {
        lock_map_remove(&mut self.keys, key);
    }
}

/// The metadata that governance stamps on what a tenant ingests.
pub open spec fn governed_metadata(
    metadata: Map<Seq<char>, Seq<char>>,
    tenant: Seq<char>,
    policy: TenantGovernancePolicy,
    now: u64,
) -> Map<Seq<char>, Seq<char>> {
    let stamped = metadata.insert("tenant"@, tenant).insert(
        "residency_region"@,
        policy.residency_region@,
    ).insert(
        "retention_until_unix"@,
        decimal_of(crate::governance::retention_deadline(policy.retention_days, now) as nat),
    );
    match policy.encryption.kms_key_id {
        Some(id) => stamped.insert("kms_key_id"@, id@),
        None => stamped,
    }
}

/// The region of the metadata `metadata`, if it names one.
pub open spec fn region_of(metadata: Map<Seq<char>, Seq<char>>) -> Option<Seq<char>> {
    if metadata.contains_key("region"@) {
        Some(metadata["region"@])
    } else {
        None
    }
}

/// Checks the residency of what is ingested against the policy of the
/// tenant: nothing is checked without a tenant or without a policy.
pub fn validate_governance_preflight(
    policy: &Option<TenantGovernancePolicy>,
    metadata: &Metadata,
) -> (r: Result<(), GovernanceError>)
    ensures
        match policy {
            None => r is Ok,
            Some(p) => match r {
                Ok(()) => crate::governance::residency_breach(*p, region_of(metadata@)) is None,
                Err(e) => crate::governance::residency_breach(*p, region_of(metadata@)) == Some(
                    e@,
                ),
            },
        },
{
    match policy {
        None => Ok(()),
        Some(p) => {
            let key = "region".to_owned();
            match metadata.get(&key) {
                Some(region) => p.ensure_residency(Some(region.as_str())),
                None => p.ensure_residency(None),
            }
        },
    }
}

/// Checks the residency again and stamps the metadata with the tenant, the
/// residency region, the end of the retention and the key id of the policy.
pub fn apply_governance(
    policy: &Option<TenantGovernancePolicy>,
    tenant: &str,
    metadata: &mut Metadata,
    now_unix: u64,
) -> (r: Result<(), GovernanceError>)
    ensures
        match policy {
            None => r is Ok && final(metadata)@ == old(metadata)@,
            Some(p) => match r {
                Ok(()) => crate::governance::residency_breach(*p, region_of(old(metadata)@))
                    is None && final(metadata)@ == governed_metadata(
                    old(metadata)@,
                    tenant@,
                    *p,
                    now_unix,
                ),
                Err(e) => crate::governance::residency_breach(*p, region_of(old(metadata)@))
                    == Some(e@) && final(metadata)@ == old(metadata)@,
            },
        },
{
    match policy {
        None => Ok(()),
        Some(p) => {
            match validate_governance_preflight(policy, metadata) {
                Err(e) => {
                    return Err(e);
                },
                Ok(()) => {},
            }
            metadata.insert("tenant".to_owned(), tenant.to_owned());
            metadata.insert("residency_region".to_owned(), p.residency_region.clone());
            metadata.insert(
                "retention_until_unix".to_owned(),
                u64_to_decimal(p.retention_deadline_unix(now_unix)),
            );
            match p.kms_key_id() {
                Some(id) => {
                    metadata.insert("kms_key_id".to_owned(), id.to_owned());
                },
                None => {},
            }
            Ok(())
        },
    }
}

/// What an ingest has to do.
#[derive(Debug, PartialEq, Eq)]
pub enum IngestPlan {
    /// The request was ingested before: these are its node ids.
    Known(Vec<u64>),
    /// The request is new: these are its chunks, to be embedded and
    /// persisted.
    Fresh(FreshIngest),
}

/// A new ingest: what it persists, and under which keys it is recorded.
#[derive(Debug, PartialEq, Eq)]
pub struct FreshIngest {
    /// The lock that the ingest holds until the caller releases it.
    pub lock_key: String,
    pub content_hash: String,
    pub idempotency_key: Option<String>,
    pub embedding_model_id: String,
    pub extraction_model_id: String,
    /// The chunks in order; the `i`-th becomes the node `chunk_id_of(hash, i)`.
    pub chunks: Vec<Chunk>,
}

/// The keys under which the node ids of an ingest are recorded, in order: the
/// idempotency key where there is one, then the content hash.
pub open spec fn record_keys_of(key: Option<Seq<char>>, hash: Seq<char>) -> Seq<Seq<char>> {
    match key {
        Some(k) => seq![k, hash],
        None => seq![hash],
    }
}

impl FreshIngest {
    /// The ids of the nodes that the ingest persists, in the order of its
    /// chunks.
    pub fn node_ids(&self) -> (ids: Vec<u64>)
        ensures
            ids@.len() == self.chunks@.len(),
            forall|i: int|
                0 <= i < ids@.len() ==> #[trigger] ids@[i] == chunk_id_of(
                    self.content_hash@,
                    i as u64,
                ),
    {
        let mut ids: Vec<u64> = Vec::new();
        let mut i: usize = 0;
        while i < self.chunks.len()
            invariant
                i <= self.chunks.len(),
                ids@.len() == i,
                forall|j: int|
                    0 <= j < i ==> #[trigger] ids@[j] == chunk_id_of(self.content_hash@, j as u64),
            decreases self.chunks.len() - i,
        {
            ids.push(derive_chunk_id(self.content_hash.as_str(), i as u64));
            i += 1;
        }
        ids
    }

    /// The keys under which the node ids of the ingest are recorded once its
    /// nodes are persisted, in order.
    pub fn record_keys(&self) -> (keys: Vec<String>)
        ensures
            texts_of(keys@) == record_keys_of(
                match self.idempotency_key {
                    Some(k) => Some(k@),
                    None => None,
                },
                self.content_hash@,
            ),
    {
        let mut keys: Vec<String> = Vec::new();
        match &self.idempotency_key {
            Some(k) => {
                keys.push(k.clone());
            },
            None => {},
        }
        keys.push(self.content_hash.clone());
        proof {
            if self.idempotency_key is Some {
                assert(texts_of(keys@) =~= seq![
                    self.idempotency_key->0@,
                    self.content_hash@,
                ]);
            } else {
                assert(texts_of(keys@) =~= seq![self.content_hash@]);
            }
        }
        keys
    }
}

/// The metadata that an ingest stamps on its chunks before governance: the
/// content hash, the embedding model and the idempotency key.
pub open spec fn stamped_metadata(
    metadata: Map<Seq<char>, Seq<char>>,
    hash: Seq<char>,
    model: Seq<char>,
    key: Option<Seq<char>>,
) -> Map<Seq<char>, Seq<char>> {
    let stamped = metadata.insert("content_hash"@, hash).insert("model_id"@, model);
    match key {
        Some(k) => stamped.insert("idempotency_key"@, k),
        None => stamped,
    }
}

/// The metadata after governance: with a tenant and a policy the residency is
/// checked and the policy is stamped, else nothing changes.
pub open spec fn governance_of(
    metadata: Map<Seq<char>, Seq<char>>,
    tenant: Option<Seq<char>>,
    policy: Option<TenantGovernancePolicy>,
    now: u64,
) -> Result<Map<Seq<char>, Seq<char>>, IngestFault> {
    if tenant is Some && policy is Some {
        match crate::governance::residency_breach(policy->0, region_of(metadata)) {
            Some(b) => Err(IngestFault::Governance(b)),
            None => Ok(governed_metadata(metadata, tenant->0, policy->0, now)),
        }
    } else {
        Ok(metadata)
    }
}

/// The idempotency key of a request, as characters.
pub open spec fn key_text(request: IngestionRequest) -> Option<Seq<char>> {
    match request.key() {
        Some(k) => Some(k@),
        None => None,
    }
}

/// The model of a request, or `default_model` where it names none.
pub open spec fn model_text(request: IngestionRequest, default_model: Seq<char>) -> Seq<char> {
    match request.model() {
        Some(m) => m@,
        None => default_model,
    }
}

/// The chunks of a new request, or the fault that stops its ingest: the text
/// is extracted, the metadata is stamped and governed, the content policy is
/// applied, and the text that passes is chunked.
pub open spec fn prepared_chunks<C: Chunker, P: ContentPolicy>(
    chunker: C,
    content_policy: P,
    request: IngestionRequest,
    pdf_text: Option<String>,
    tenant: Option<Seq<char>>,
    policy: Option<TenantGovernancePolicy>,
    now: u64,
    default_model: Seq<char>,
) -> Result<Seq<ChunkView>, IngestFault> {
    match extraction_of(request, pdf_text) {
        Err(fault) => Err(fault),
        Ok((text, metadata)) => {
            let stamped = stamped_metadata(
                metadata,
                hex_of(sha256_of(request.hashed_bytes())),
                model_text(request, default_model),
                key_text(request),
            );
            match governance_of(stamped, tenant, policy, now) {
                Err(fault) => Err(fault),
                Ok(governed) => match content_policy.outcome(text) {
                    Err(word) => Err(IngestFault::Policy(word)),
                    Ok(clean) => Ok(chunker.chunks_of(clean, governed)),
                },
            }
        },
    }
}

/// The node ids that are recorded for a request with the idempotency key
/// `key` and the content hash `hash`: those of the key where it is recorded,
/// else those of the hash.
pub open spec fn recorded_ids(
    idempotency: Map<Seq<char>, Seq<u64>>,
    key: Option<Seq<char>>,
    hash: Seq<char>,
) -> Option<Seq<u64>> {
    if key is Some && idempotency.contains_key(key->0) {
        Some(idempotency[key->0])
    } else if idempotency.contains_key(hash) {
        Some(idempotency[hash])
    } else {
        None
    }
}

/// The lock key of a request: its idempotency key, or its content hash.
pub open spec fn lock_key_of(key: Option<Seq<char>>, hash: Seq<char>) -> Seq<char> {
    match key {
        Some(k) => k,
        None => hash,
    }
}

/// The pipeline: the chunker, the content policy, and the ingests in flight.
pub struct IngestionPipeline<C: Chunker, P: ContentPolicy> {
    chunker: C,
    policy: P,
    default_model_id: String,
    default_extraction_model_id: String,
    locks: InflightLocks,
}

impl<C: Chunker, P: ContentPolicy> IngestionPipeline<C, P> {
    /// The lock keys of the ingests in flight.
    pub closed spec fn in_flight(&self) -> Set<Seq<char>> {
        self.locks@
    }

    /// The content policy.
    pub closed spec fn content_policy(&self) -> P {
        self.policy
    }

    /// The embedding model of requests that name none.
    pub closed spec fn default_model(&self) -> Seq<char> {
        self.default_model_id@
    }

    /// The extraction model of requests that name none.
    pub closed spec fn default_extraction_model(&self) -> Seq<char> {
        self.default_extraction_model_id@
    }

    /// The chunker.
    pub closed spec fn text_chunker(&self) -> C {
        self.chunker
    }

    /// A pipeline with the given components.
    pub fn with_components(chunker: C, policy: P, default_model_id: &str) -> (p: Self)
        ensures
            p.in_flight() == Set::<Seq<char>>::empty(),
            p.content_policy() == policy,
            p.text_chunker() == chunker,
            p.default_model() == default_model_id@,
            p.default_extraction_model() == DEFAULT_EXTRACTION_MODEL_ID@,
    {
        IngestionPipeline {
            chunker,
            policy,
            default_model_id: default_model_id.to_owned(),
            default_extraction_model_id: DEFAULT_EXTRACTION_MODEL_ID.to_owned(),
            locks: InflightLocks::new(),
        }
    }

    /// Gives back the lock of an ingest that is over.
    pub fn release(&mut self, lock_key: &str)
        ensures
            final(self).in_flight() == old(self).in_flight().remove(lock_key@),
            final(self).content_policy() == old(self).content_policy(),
            final(self).text_chunker() == old(self).text_chunker(),
            final(self).default_model() == old(self).default_model(),
            final(self).default_extraction_model() == old(self).default_extraction_model(),
    {
        self.locks.release(lock_key);
    }

    /// Plans the ingest of `request` against the state `state`.
    ///
    /// `policy` is the governance policy of the tenant, where it has one; it
    /// counts only where there is a tenant. The residency of the request is
    /// checked first. Then the request takes
    /// its lock, and fails where an ingest holds it. A request whose
    /// idempotency key or content hash is recorded is known: its recorded node
    /// ids are the result, and nothing is to be persisted. Else the text is
    /// extracted, the metadata is stamped, the content policy is applied and
    /// the text is chunked. A fresh ingest keeps its lock until the caller
    /// releases it; every other outcome gives the lock back.
    ///
    /// `pdf_text` is what the PDF extractor gave for the file of the request,
    /// if it gave anything; a blank text counts as none.
    pub fn ingest_internal(
        &mut self,
        state: &MaterializedState,
        request: IngestionRequest,
        tenant: Option<&str>,
        policy: &Option<TenantGovernancePolicy>,
        pdf_text: Option<String>,
        now_unix: u64,
    ) -> (r: Result<IngestPlan, IngestionError>)
        ensures
            final(self).content_policy() == old(self).content_policy(),
            final(self).text_chunker() == old(self).text_chunker(),
            final(self).default_model() == old(self).default_model(),
            final(self).default_extraction_model() == old(self).default_extraction_model(),
            ({
                let hash = hex_of(sha256_of(request.hashed_bytes()));
                let key = key_text(request);
                let lock = lock_key_of(key, hash);
                let who = match tenant {
                    Some(t) => Some(t@),
                    None => None,
                };
                let preflight = if who is Some && policy is Some {
                    crate::governance::residency_breach(policy->0, region_of(request.meta()@))
                } else {
                    None
                };
                if preflight is Some {
                    r matches Err(IngestionError::Governance(e)) && Some(e@) == preflight
                        && final(self).in_flight() == old(self).in_flight()
                } else if old(self).in_flight().contains(lock) {
                    r matches Err(IngestionError::IdempotencyConflict(k)) && k@ == lock
                        && final(self).in_flight() == old(self).in_flight()
                } else {
                    match recorded_ids(state@.idempotency, key, hash) {
                        Some(ids) => r matches Ok(IngestPlan::Known(known)) && known@ == ids
                            && final(self).in_flight() == old(self).in_flight(),
                        None => match prepared_chunks(
                            old(self).text_chunker(),
                            old(self).content_policy(),
                            request,
                            pdf_text,
                            who,
                            *policy,
                            now_unix,
                            old(self).default_model(),
                        ) {
                            Ok(chunks) => r matches Ok(IngestPlan::Fresh(f)) && f.lock_key@ == lock
                                && f.content_hash@ == hash && (match f.idempotency_key {
                                Some(k) => Some(k@),
                                None => None,
                            }) == key && f.embedding_model_id@ == model_text(
                                request,
                                old(self).default_model(),
                            ) && f.extraction_model_id@ == model_text(
                                request,
                                old(self).default_extraction_model(),
                            ) && chunk_views(f.chunks@) == chunks && final(self).in_flight() == old(self).in_flight().insert(lock),
                            Err(fault) => r matches Err(e) && fault_of(e) == Some(fault) && final(self).in_flight() == old(self).in_flight(),
                        },
                    }
                }
            }),
    {
        let ghost req = request;
        let ghost pdf = pdf_text;
        if tenant.is_some() {
            match validate_governance_preflight(policy, request.metadata()) {
                Err(e) => {
                    return Err(IngestionError::Governance(e));
                },
                Ok(()) => {},
            }
        }
        let content_hash = request.content_hash();
        let idempotency_key = match request.idempotency_key() {
            Some(k) => Some(k.to_owned()),
            None => None,
        };
        let lock_key = match &idempotency_key {
            Some(k) => k.clone(),
            None => content_hash.clone(),
        };
        let ghost locks_before = self.locks@;
        if !self.locks.try_acquire(lock_key.as_str()) {
            assert(self.locks@ =~= locks_before);
            return Err(IngestionError::IdempotencyConflict(lock_key));
        }
        match &idempotency_key {
            Some(k) => match state.check_idempotency(k.as_str()) {
                Some(ids) => {
                    self.locks.release(lock_key.as_str());
                    assert(self.locks@ =~= locks_before);
                    return Ok(IngestPlan::Known(ids));
                },
                None => {},
            },
            None => {},
        }
        match state.check_idempotency(content_hash.as_str()) {
            Some(ids) => {
                self.locks.release(lock_key.as_str());
                assert(self.locks@ =~= locks_before);
                return Ok(IngestPlan::Known(ids));
            },
            None => {},
        }
        let embedding_model_id = effective_ingest_model_id(&request, self.default_model_id.as_str());
        let extraction_model_id = effective_ingest_model_id(
            &request,
            self.default_extraction_model_id.as_str(),
        );
        let (text, mut metadata) = match extract_request_text(request, pdf_text) {
            Ok(pair) => pair,
            Err(e) => {
                self.locks.release(lock_key.as_str());
                assert(self.locks@ =~= locks_before);
                return Err(e);
            },
        };
        metadata.insert("content_hash".to_owned(), content_hash.clone());
        metadata.insert("model_id".to_owned(), embedding_model_id.clone());
        match &idempotency_key {
            Some(k) => {
                metadata.insert("idempotency_key".to_owned(), k.clone());
            },
            None => {},
        }
        match tenant {
            Some(t) => match apply_governance(policy, t, &mut metadata, now_unix) {
                Err(e) => {
                    self.locks.release(lock_key.as_str());
                    assert(self.locks@ =~= locks_before);
                    return Err(IngestionError::Governance(e));
                },
                Ok(()) => {},
            },
            None => {},
        }
        let text = match self.policy.apply(text.as_str()) {
            Ok(t) => t,
            Err(e) => {
                self.locks.release(lock_key.as_str());
                assert(self.locks@ =~= locks_before);
                return Err(IngestionError::Policy(e));
            },
        };
        let chunks = self.chunker.chunk(text.as_str(), metadata);
        Ok(
            IngestPlan::Fresh(
                FreshIngest {
                    lock_key,
                    content_hash,
                    idempotency_key,
                    embedding_model_id,
                    extraction_model_id,
                    chunks,
                },
            ),
        )
    }
}

/// The node of the `index`-th chunk of a fresh ingest, with the embedding
/// that the caller computed.
pub fn chunk_node(content_hash: &str, index: u64, chunk: Chunk, embedding: Vec<u32>) -> (node: Node)
    ensures
        node.id == chunk_id_of(content_hash@, index),
        node.embedding == embedding,
        node.data == chunk.content,
        node.metadata == chunk.metadata,
{
    Node {
        id: derive_chunk_id(content_hash, index),
        embedding,
        data: chunk.content,
        metadata: chunk.metadata,
    }
}

/// The extraction job for a node that was persisted under the snapshot
/// `snapshot_id`.
pub fn extraction_job(node_id: u64, content: &str, model_id: &str, snapshot_id: &str) -> (job: Job)
    ensures
        job matches Job::ExtractEntities { node_id: n, content: c, model_id: m, snapshot_id: s }
            && n == node_id && c@ == content@ && m@ == model_id@ && s@ == snapshot_id@,
{
    Job::ExtractEntities {
        node_id,
        content: content.to_owned(),
        model_id: model_id.to_owned(),
        snapshot_id: snapshot_id.to_owned(),
    }
}

} // verus!
