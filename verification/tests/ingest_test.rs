use alayasiki::audit::{
    AuditEvent, AuditOperation, AuditOutcome, AuditSink, InMemoryAuditSink,
};
use alayasiki::auth::{Action, Authorizer, AuthzError, Principal, ResourceContext};
use alayasiki::chunker::{ChunkingConfig, SemanticChunker};
use alayasiki::crypto::NoOpCipher;
use alayasiki::embedding::{
    deterministic_embedding, deterministic_embedding_bytes, unit_bits_of, DeterministicEmbedder,
    Embedder,
};
use alayasiki::governance::{
    EncryptionPolicy, GovernanceError, InMemoryGovernancePolicyStore, TenantGovernancePolicy,
};
use alayasiki::ingest::{ContentHash, IngestionRequest};
use alayasiki::lightweight::{register_default_lightweight_models, LightweightModel};
use alayasiki::ner::EntityExtractor;
use alayasiki::policy::{BasicPolicy, ContentPolicy, NoOpPolicy, PolicyError};
use alayasiki::processor::{
    build_audit_event, chunk_node, derive_chunk_id, effective_ingest_model_id, extract_request_text,
    extraction_job, InflightLocks, IngestPlan, IngestionError, IngestionPipeline,
    DEFAULT_MODEL_ID,
};
use alayasiki::queue::Job;
use alayasiki::registry::ModelRegistry;
use alayasiki::repo::Repository;
use alayasiki::sorted_map::Metadata;
use alayasiki::wal::Wal;
use alayasiki::worker::{entity_node_id, Worker};

const NOW: u64 = 1_700_000_000;

fn embed(text: &str, model_id: &str, dims: usize) -> Vec<u32> {
    deterministic_embedding(text, model_id, dims)
}

fn meta(pairs: &[(&str, &str)]) -> Metadata {
    let mut m = Metadata::new();
    for (k, v) in pairs {
        m.insert(k.to_string(), v.to_string());
    }
    m
}

fn text_request(content: &str, metadata: Metadata, key: Option<&str>, model: Option<&str>) -> IngestionRequest {
    IngestionRequest::Text {
        content: content.to_string(),
        metadata,
        idempotency_key: key.map(|k| k.to_string()),
        model_id: model.map(|m| m.to_string()),
    }
}

fn copy_request(r: &IngestionRequest) -> IngestionRequest {
    match r {
        IngestionRequest::Text { content, metadata, idempotency_key, model_id } => {
            let mut m = Metadata::new();
            for i in 0..metadata.len() {
                m.insert(metadata.key_at(i).clone(), metadata.value_at(i).clone());
            }
            IngestionRequest::Text {
                content: content.clone(),
                metadata: m,
                idempotency_key: idempotency_key.clone(),
                model_id: model_id.clone(),
            }
        }
        IngestionRequest::File { .. } => unreachable!(),
    }
}

struct Bench<P: ContentPolicy> {
    pipeline: IngestionPipeline<SemanticChunker, P>,
    repo: Repository<NoOpCipher>,
    jobs: Vec<Job>,
    sink: InMemoryAuditSink,
    store: InMemoryGovernancePolicyStore,
    dims: usize,
}

fn bench() -> Bench<NoOpPolicy> {
    bench_with(NoOpPolicy)
}

fn bench_with<P: ContentPolicy>(policy: P) -> Bench<P> {
    Bench {
        pipeline: IngestionPipeline::with_components(SemanticChunker::default(), policy, DEFAULT_MODEL_ID),
        repo: Repository::new(Wal::new(NoOpCipher)),
        jobs: Vec::new(),
        sink: InMemoryAuditSink::default(),
        store: InMemoryGovernancePolicyStore::default(),
        dims: DeterministicEmbedder::default().dims(),
    }
}

impl<P: ContentPolicy> Bench<P> {
    fn run(&mut self, request: IngestionRequest, tenant: Option<&str>) -> Result<Vec<u64>, IngestionError> {
        let policy = match tenant {
            Some(t) => self.store.get_policy(t).map_err(IngestionError::Governance)?,
            None => None,
        };
        let plan = self.pipeline.ingest_internal(
            self.repo.materialized(),
            request,
            tenant,
            &policy,
            None,
            NOW,
        )?;
        let fresh = match plan {
            IngestPlan::Known(ids) => return Ok(ids),
            IngestPlan::Fresh(f) => f,
        };
        let ids = fresh.node_ids();
        let keys = fresh.record_keys();
        let lock = fresh.lock_key.clone();
        let mut outcome = Ok(());
        for (i, chunk) in fresh.chunks.into_iter().enumerate() {
            let content = chunk.content.clone();
            let vector = embed(&content, &fresh.embedding_model_id, self.dims);
            let node = chunk_node(&fresh.content_hash, i as u64, chunk, vector);
            let id = node.id;
            if let Err(e) = self.repo.put_node(node, b"node") {
                outcome = Err(IngestionError::Storage(e));
                break;
            }
            let snapshot = self.repo.current_snapshot_id();
            self.jobs.push(extraction_job(id, &content, &fresh.extraction_model_id, &snapshot));
        }
        if outcome.is_ok() {
            for key in keys {
                if let Err(e) = self.repo.record_idempotency(&key, ids.clone(), b"key") {
                    outcome = Err(IngestionError::Storage(e));
                    break;
                }
            }
        }
        self.pipeline.release(&lock);
        outcome.map(|_| ids)
    }

    fn audited(
        &mut self,
        request: IngestionRequest,
        model_id: String,
        actor: Option<String>,
        tenant: Option<String>,
    ) -> Result<Vec<u64>, IngestionError> {
        let result = self.run(request, tenant.as_deref());
        let outcome = if result.is_ok() { AuditOutcome::Succeeded } else { AuditOutcome::Failed };
        let error = result.as_ref().err().map(|e| e.message());
        let _ = self.sink.record(build_audit_event(outcome, &model_id, actor, tenant, error));
        result
    }

    fn ingest(&mut self, request: IngestionRequest) -> Result<Vec<u64>, IngestionError> {
        let model_id = effective_ingest_model_id(&request, DEFAULT_MODEL_ID);
        self.audited(request, model_id, None, None)
    }

    fn ingest_authorized(
        &mut self,
        request: IngestionRequest,
        principal: &Principal,
        authorizer: &Authorizer,
        resource: &ResourceContext,
    ) -> Result<Vec<u64>, IngestionError> {
        let model_id = effective_ingest_model_id(&request, DEFAULT_MODEL_ID);
        if let Err(err) = authorizer.authorize(principal, Action::Ingest, resource) {
            let _ = self.sink.record(build_audit_event(
                AuditOutcome::Denied,
                &model_id,
                Some(principal.subject.clone()),
                Some(principal.tenant.clone()),
                Some(err.message()),
            ));
            return Err(IngestionError::Unauthorized(err));
        }
        self.audited(
            request,
            model_id,
            Some(principal.subject.clone()),
            Some(principal.tenant.clone()),
        )
    }

    fn work(&mut self, worker: &Worker<LightweightModel>) {
        let jobs: Vec<Job> = self.jobs.drain(..).collect();
        for job in jobs {
            let Job::ExtractEntities { node_id, content, model_id, snapshot_id } = job;
            let Ok(resolved) = worker.resolve_model(&model_id) else { continue };
            let Ok(entities) = resolved.extractor.extract(&content) else { continue };
            for tx in worker.process_extraction(node_id, &entities, &resolved, &snapshot_id) {
                let _ = self.repo.apply_index_transaction(tx, b"tx");
            }
        }
    }
}

fn strings(items: &[&str]) -> Vec<String> {
    items.iter().map(|s| s.to_string()).collect()
}

#[test]
fn test_ingestion_flow() {
    let mut b = bench();
    let content = "Hello world. This is a test of the ingestion pipeline.";
    let request = text_request(content, meta(&[("source", "test")]), None, None);

    let node_ids = b.ingest(request).unwrap();
    assert!(!node_ids.is_empty());

    let node = b.repo.get_node(node_ids[0]).unwrap();
    assert!(node.data.contains("Hello world"));
    assert_eq!(node.metadata.get(&"source".to_string()).unwrap(), "test");
    assert!(!node.embedding.is_empty());
    assert_eq!(node.embedding.len(), 768);
    assert_eq!(node.metadata.get(&"model_id".to_string()).unwrap(), "embedding-default-v1");
    assert_eq!(node.metadata.get(&"chunk_index".to_string()).unwrap(), "0");
    assert_eq!(node.metadata.get(&"chunk_overlap".to_string()).unwrap(), "100");
    assert_eq!(
        node.metadata.get(&"chunk_chars".to_string()).unwrap(),
        &content.len().to_string()
    );
}

#[test]
fn test_ingestion_idempotency_key() {
    let mut b = bench();
    let request = text_request("Idempotent content", meta(&[("source", "test")]), Some("fixed-key"), None);

    let first_ids = b.ingest(copy_request(&request)).unwrap();
    let lsn = b.repo.current_lsn();
    let nodes = b.repo.list_node_ids();
    let second_ids = b.ingest(request).unwrap();

    assert_eq!(first_ids, second_ids);
    assert_eq!(b.repo.current_lsn(), lsn);
    assert_eq!(b.repo.list_node_ids(), nodes);
}

#[test]
fn second_ingest_of_the_same_content_returns_the_first_ids() {
    let mut b = bench();
    let first = b.ingest(text_request("Same content", Metadata::new(), None, None)).unwrap();
    let lsn = b.repo.current_lsn();
    let second = b
        .ingest(text_request("Same content", meta(&[("other", "metadata")]), Some("new-key"), None))
        .unwrap();
    assert_eq!(first, second);
    assert_eq!(b.repo.current_lsn(), lsn);
    assert_eq!(b.repo.check_idempotency("new-key"), None);
}

#[test]
fn same_key_with_other_content_returns_the_recorded_ids() {
    let mut b = bench();
    let first = b.ingest(text_request("first", Metadata::new(), Some("k"), None)).unwrap();
    let second = b.ingest(text_request("second", Metadata::new(), Some("k"), None)).unwrap();
    assert_eq!(first, second);
    assert_eq!(b.repo.list_node_ids().len(), 1);
}

#[test]
fn request_in_flight_is_an_idempotency_conflict() {
    let mut b = bench();
    let request = text_request("Busy content", Metadata::new(), Some("busy"), None);
    let plan = b
        .pipeline
        .ingest_internal(b.repo.materialized(), copy_request(&request), None, &None, None, NOW)
        .unwrap();
    let lock = match plan {
        IngestPlan::Fresh(f) => f.lock_key,
        IngestPlan::Known(_) => panic!("nothing is recorded yet"),
    };
    assert_eq!(lock, "busy");
    assert_eq!(
        b.ingest(copy_request(&request)),
        Err(IngestionError::IdempotencyConflict("busy".to_string()))
    );
    b.pipeline.release(&lock);
    assert!(b.ingest(request).is_ok());
}

#[test]
fn test_ingestion_policy_forbidden_word() {
    let mut b = bench_with(BasicPolicy::new(vec!["forbidden".to_string()], true));
    let request = text_request("This contains a forbidden token.", Metadata::new(), None, None);
    let result = b.ingest(request);
    assert!(result.is_err());
    assert_eq!(
        result,
        Err(IngestionError::Policy(PolicyError::ForbiddenContent("forbidden".to_string())))
    );
    assert!(b.repo.list_node_ids().is_empty());
    let again = b.ingest(text_request("This contains a forbidden token.", Metadata::new(), None, None));
    assert!(matches!(again, Err(IngestionError::Policy(_))));
}

#[test]
fn basic_policy_matches_in_any_case_and_masks_personal_data() {
    let policy = BasicPolicy::new(strings(&["Secret", "classified"]), true);
    assert_eq!(
        policy.apply("a CLASSIFIED and secret text"),
        Err(PolicyError::ForbiddenContent("Secret".to_string()))
    );
    assert_eq!(
        policy.apply("mail  bob@example.com or\tcall +1-555-123-4567 now"),
        Ok("mail [EMAIL] or call [PHONE] now".to_string())
    );
    let plain = BasicPolicy::new(Vec::new(), false);
    assert_eq!(plain.apply("a  b@c.d"), Ok("a  b@c.d".to_string()));
    assert_eq!(NoOpPolicy.apply("x  y"), Ok("x  y".to_string()));
    assert_eq!(
        PolicyError::ForbiddenContent("w".to_string()).message(),
        "Forbidden content detected: w"
    );
}

#[test]
fn test_ingestion_with_job_queue() {
    let mut b = bench();
    let mut registry = ModelRegistry::new();
    register_default_lightweight_models(&mut registry).unwrap();
    let worker = Worker::with_registry(registry, "triplex-lite");

    let node_ids = b.ingest(text_request("The company acquired a startup.", Metadata::new(), None, None)).unwrap();
    let source_id = node_ids[0];
    assert_eq!(b.jobs.len(), 1);
    b.work(&worker);

    let neighbors = b.repo.materialized().hyper_index().expand_graph(source_id, 1);
    assert!(!neighbors.is_empty());
    let company = entity_node_id("company");
    assert!(neighbors.iter().any(|(id, hop)| *id == company && *hop == 1));
    let entity = b.repo.get_node(company).unwrap();
    assert_eq!(entity.data, "company");
    assert!(entity.embedding.is_empty());
    assert_eq!(entity.metadata.get(&"type".to_string()).unwrap(), "entity");
    assert_eq!(entity.metadata.get(&"label".to_string()).unwrap(), "EntityHint");
    assert_eq!(
        entity.metadata.get(&"extraction_model_id".to_string()).unwrap(),
        "triplex-lite@1.0.0"
    );
    assert_eq!(entity.metadata.get(&"snapshot_id".to_string()).unwrap(), "wal-lsn-1");
    let edge_meta = b.repo.get_edge_metadata(source_id, company, "mentions");
    assert_eq!(
        edge_meta.get(&"extraction_model_id".to_string()).unwrap(),
        "triplex-lite@1.0.0"
    );
    assert_eq!(edge_meta.get(&"snapshot_id".to_string()).unwrap(), "wal-lsn-1");
}

#[test]
fn test_ingestion_enqueues_fixed_model_and_snapshot_for_reproducibility() {
    let mut b = bench();
    let request = text_request("Graph database query", Metadata::new(), None, Some("triplex-lite@1.0.0"));
    b.ingest(request).unwrap();

    assert!(!b.jobs.is_empty());
    match &b.jobs[0] {
        Job::ExtractEntities { model_id, snapshot_id, .. } => {
            assert_eq!(model_id, "triplex-lite@1.0.0");
            assert!(snapshot_id.starts_with("wal-lsn-"));
            assert_eq!(snapshot_id, "wal-lsn-1");
        }
    }
}

#[test]
fn job_without_a_model_names_the_default_extraction_model() {
    let mut b = bench();
    let ids = b.ingest(text_request("Some text", Metadata::new(), None, None)).unwrap();
    match &b.jobs[0] {
        Job::ExtractEntities { node_id, content, model_id, .. } => {
            assert_eq!(*node_id, ids[0]);
            assert_eq!(content, "Some text");
            assert_eq!(model_id, "triplex-lite@1.0.0");
        }
    }
}

#[test]
fn ingest_records_audit_event_with_model_id() {
    let mut b = bench();
    let request = text_request("audit trail text", Metadata::new(), None, Some("embedding-audit-v1"));
    b.ingest(request).unwrap();

    let events = b.sink.events().unwrap();
    assert_eq!(events.len(), 1);
    assert_eq!(events[0].operation, AuditOperation::Ingest);
    assert_eq!(events[0].outcome, AuditOutcome::Succeeded);
    assert_eq!(events[0].model_id.as_deref(), Some("embedding-audit-v1"));
    assert_eq!(events[0].sequence, 1);
}

#[test]
fn ingest_authorized_records_denied_audit_event() {
    let mut b = bench();
    let request = text_request("unauthorized ingestion", Metadata::new(), None, None);
    let principal = Principal::new("reader-1", "acme").with_roles(strings(&["reader"]));
    let result = b.ingest_authorized(request, &principal, &Authorizer::default(), &ResourceContext::new("acme"));
    assert!(result.is_err());

    let events = b.sink.events().unwrap();
    assert_eq!(events.len(), 1);
    assert_eq!(events[0].operation, AuditOperation::Ingest);
    assert_eq!(events[0].outcome, AuditOutcome::Denied);
    assert_eq!(events[0].actor.as_deref(), Some("reader-1"));
    assert_eq!(events[0].tenant.as_deref(), Some("acme"));
    assert!(events[0].metadata.contains_key(&"error".to_string()));
    assert_eq!(
        events[0].metadata.get(&"error".to_string()).unwrap(),
        "permission denied for action Ingest"
    );
}

#[test]
fn in_memory_sink_records_monotonic_sequence() {
    let mut sink = InMemoryAuditSink::default();

    sink.record(AuditEvent::new(AuditOperation::Ingest, AuditOutcome::Succeeded))
        .unwrap();
    sink.record(AuditEvent::new(AuditOperation::Query, AuditOutcome::Succeeded))
        .unwrap();

    let events = sink.events().unwrap();
    assert_eq!(events.len(), 2);
    assert_eq!(events[0].sequence, 1);
    assert_eq!(events[1].sequence, 2);
}

#[test]
fn audit_sequence_overrides_what_the_event_carries() {
    let mut sink = InMemoryAuditSink::default();
    for _ in 0..5 {
        let mut e = AuditEvent::new(AuditOperation::Query, AuditOutcome::Failed);
        e.sequence = 99;
        sink.record(e).unwrap();
    }
    let seqs: Vec<u64> = sink.events().unwrap().iter().map(|e| e.sequence).collect();
    assert_eq!(seqs, vec![1, 2, 3, 4, 5]);
}

#[test]
fn ingest_authorized_allows_ingestor_role() {
    let mut b = bench();
    let principal = Principal::new("user-1", "acme").with_roles(strings(&["ingestor"]));
    let ids = b
        .ingest_authorized(
            text_request("Authorized ingestion text", Metadata::new(), None, None),
            &principal,
            &Authorizer::default(),
            &ResourceContext::new("acme"),
        )
        .unwrap();
    assert!(!ids.is_empty());
    assert!(!b.repo.list_node_ids().is_empty());
}

#[test]
fn ingest_authorized_denies_reader_role() {
    let mut b = bench();
    let principal = Principal::new("user-1", "acme").with_roles(strings(&["reader"]));
    let err = b
        .ingest_authorized(
            text_request("Authorized ingestion text", Metadata::new(), None, None),
            &principal,
            &Authorizer::default(),
            &ResourceContext::new("acme"),
        )
        .unwrap_err();
    assert!(matches!(
        err,
        IngestionError::Unauthorized(AuthzError::PermissionDenied { .. })
    ));
    assert!(b.repo.list_node_ids().is_empty());
}

#[test]
fn ingest_authorized_enforces_abac_attributes() {
    let mut b = bench();
    let principal = Principal::new("user-1", "acme")
        .with_roles(strings(&["ingestor"]))
        .with_attribute("department", "finance");
    let resource = ResourceContext::new("acme").require_attribute("department", "research");
    let err = b
        .ingest_authorized(
            text_request("Authorized ingestion text", Metadata::new(), None, None),
            &principal,
            &Authorizer::default(),
            &resource,
        )
        .unwrap_err();
    assert!(matches!(
        err,
        IngestionError::Unauthorized(AuthzError::AttributeMismatch { .. })
    ));
    assert!(b.repo.list_node_ids().is_empty());
}

#[test]
fn ingest_authorized_rejects_region_mismatch_policy() {
    let mut b = bench();
    b.store
        .upsert_policy(TenantGovernancePolicy::new("acme", "ap-northeast-1", 30))
        .unwrap();
    let principal = Principal::new("ingestor-1", "acme").with_roles(strings(&["ingestor"]));
    let err = b
        .ingest_authorized(
            text_request("governed content", meta(&[("region", "us-east-1")]), None, None),
            &principal,
            &Authorizer::default(),
            &ResourceContext::new("acme"),
        )
        .unwrap_err();
    assert!(matches!(
        err,
        IngestionError::Governance(GovernanceError::ResidencyViolation { .. })
    ));
    assert!(b.repo.list_node_ids().is_empty());
    let events = b.sink.events().unwrap();
    assert_eq!(events[0].outcome, AuditOutcome::Failed);
}

#[test]
fn ingest_authorized_stamps_retention_and_kms_metadata() {
    let mut b = bench();
    let policy = TenantGovernancePolicy::new("acme", "ap-northeast-1", 7)
        .with_encryption(EncryptionPolicy::kms("kms-key-acme"))
        .unwrap();
    b.store.upsert_policy(policy).unwrap();
    let principal = Principal::new("ingestor-1", "acme").with_roles(strings(&["ingestor"]));
    let ids = b
        .ingest_authorized(
            text_request("governed content", meta(&[("region", "ap-northeast-1")]), None, None),
            &principal,
            &Authorizer::default(),
            &ResourceContext::new("acme"),
        )
        .unwrap();

    let node = b.repo.get_node(ids[0]).unwrap();
    let get = |k: &str| node.metadata.get(&k.to_string()).cloned();
    assert_eq!(get("tenant"), Some("acme".to_string()));
    assert_eq!(get("residency_region"), Some("ap-northeast-1".to_string()));
    assert_eq!(get("kms_key_id"), Some("kms-key-acme".to_string()));
    let retention = get("retention_until_unix").unwrap().parse::<u64>().unwrap();
    assert_eq!(retention, NOW + 7 * 86_400);
}

#[test]
fn ungoverned_tenant_and_anonymous_ingest_are_not_stamped() {
    let mut b = bench();
    b.store
        .upsert_policy(TenantGovernancePolicy::new("acme", "eu", 7))
        .unwrap();
    let ids = b.ingest(text_request("free text", Metadata::new(), None, None)).unwrap();
    let node = b.repo.get_node(ids[0]).unwrap();
    assert!(!node.metadata.contains_key(&"tenant".to_string()));
    let other = Principal::new("i", "globex").with_roles(strings(&["ingestor"]));
    let ids = b
        .ingest_authorized(
            text_request("other text", Metadata::new(), None, None),
            &other,
            &Authorizer::default(),
            &ResourceContext::new("globex"),
        )
        .unwrap();
    let node = b.repo.get_node(ids[0]).unwrap();
    assert!(!node.metadata.contains_key(&"retention_until_unix".to_string()));
}

#[test]
fn content_hash_is_the_digest_of_tag_and_content() {
    let text = text_request("abc", Metadata::new(), None, None);
    assert_eq!(text.content_hash().len(), 64);
    assert!(text.content_hash().chars().all(|c| c.is_ascii_hexdigit() && !c.is_ascii_uppercase()));
    let same = text_request("abc", meta(&[("k", "v")]), Some("key"), Some("m"));
    assert_eq!(text.content_hash(), same.content_hash());
    let other = text_request("abd", Metadata::new(), None, None);
    assert_ne!(text.content_hash(), other.content_hash());
    let file = IngestionRequest::file("a.txt".to_string(), b"abc".to_vec(), "text/plain".to_string(), Metadata::new());
    assert_ne!(text.content_hash(), file.content_hash());
    let empty = text_request("", Metadata::new(), None, None);
    assert_eq!(
        empty.content_hash(),
        "982d9e3eb996f559e633f4d194def3761d909f5a3b647d1a851fead67c32c9d1"
    );
}

#[test]
fn chunk_ids_are_derived_from_hash_and_index() {
    let a = derive_chunk_id("hash", 0);
    let b = derive_chunk_id("hash", 1);
    let c = derive_chunk_id("other", 0);
    assert_ne!(a, b);
    assert_ne!(a, c);
    assert_eq!(a, derive_chunk_id("hash", 0));
    assert_eq!(entity_node_id(""), 0x141c_fc98_42c4_b0e3);
}

#[test]
fn files_are_read_by_their_kind() {
    let md = IngestionRequest::file("notes.md".to_string(), "# Title".as_bytes().to_vec(), "application/octet-stream".to_string(), Metadata::new());
    let (text, m) = extract_request_text(md, None).unwrap();
    assert_eq!(text, "# Title");
    assert_eq!(m.get(&"filename".to_string()).unwrap(), "notes.md");
    assert_eq!(m.get(&"mime_type".to_string()).unwrap(), "application/octet-stream");

    let bad = IngestionRequest::file("a.txt".to_string(), vec![0xff, 0xfe], "text/plain".to_string(), Metadata::new());
    assert_eq!(extract_request_text(bad, None), Err(IngestionError::InvalidUtf8));

    let exe = IngestionRequest::file("a.exe".to_string(), vec![1], "application/x-msdownload".to_string(), Metadata::new());
    assert_eq!(
        extract_request_text(exe, None),
        Err(IngestionError::UnsupportedType("application/x-msdownload".to_string()))
    );

    let pdf = IngestionRequest::file("a.pdf".to_string(), vec![1], "application/pdf".to_string(), Metadata::new());
    let (text, _) = extract_request_text(pdf, Some("Hello PDF".to_string())).unwrap();
    assert_eq!(text, "Hello PDF");
    let broken = IngestionRequest::file("a.pdf".to_string(), vec![1], "application/pdf".to_string(), Metadata::new());
    assert_eq!(
        extract_request_text(broken, None),
        Err(IngestionError::ExtractionFailed("pdf".to_string()))
    );
    let blank = IngestionRequest::file("a.pdf".to_string(), vec![1], "application/pdf".to_string(), Metadata::new());
    assert_eq!(
        extract_request_text(blank, Some(" \n ".to_string())),
        Err(IngestionError::ExtractionFailed("pdf".to_string()))
    );
}

#[test]
fn long_text_is_chunked_with_overlap() {
    let chunker = SemanticChunker::new(ChunkingConfig { max_chars: 40, overlap_chars: 5 });
    let text = "First sentence is here. Second sentence follows it. Third sentence ends the text.";
    let chunks = chunker.chunk_text(text, &meta(&[("source", "t")]));
    assert!(chunks.len() >= 2);
    for (i, c) in chunks.iter().enumerate() {
        assert_eq!(c.metadata.get(&"chunk_index".to_string()).unwrap(), &i.to_string());
        assert_eq!(c.metadata.get(&"chunk_overlap".to_string()).unwrap(), "5");
        assert_eq!(c.metadata.get(&"chunk_chars".to_string()).unwrap(), &c.content.len().to_string());
        assert_eq!(c.metadata.get(&"source".to_string()).unwrap(), "t");
        assert_eq!(c.embedding, None);
        assert!(c.content.chars().count() <= 45);
    }
    assert!(text.starts_with(chunks[0].content.as_str()));
    let tail: String = {
        let cs: Vec<char> = chunks[0].content.chars().collect();
        cs[cs.len() - 5..].iter().collect()
    };
    assert!(chunks[1].content.starts_with(&tail));
    assert!(chunker.chunk_text("", &Metadata::new()).is_empty());
}

#[test]
fn deterministic_embedding_is_reproducible_for_same_inputs() {
    let a = deterministic_embedding("hello", "embedding-default-v1", 8);
    let b = deterministic_embedding("hello", "embedding-default-v1", 8);
    assert_eq!(a, b);
}

#[test]
fn deterministic_embedding_changes_when_model_changes() {
    let a = deterministic_embedding("hello", "embedding-default-v1", 8);
    let b = deterministic_embedding("hello", "embedding-alt-v1", 8);
    assert_ne!(a, b);
}

#[test]
fn every_byte_becomes_its_number_between_minus_one_and_one() {
    for b in 0..=255u8 {
        let expected = (b as f32 / 127.5) - 1.0;
        assert_eq!(unit_bits_of(b), expected.to_bits(), "byte {}", b);
    }
    assert_eq!(f32::from_bits(unit_bits_of(0)), -1.0);
    assert_eq!(f32::from_bits(unit_bits_of(255)), 1.0);
}

#[test]
fn embedding_is_the_numbers_of_the_digest_bytes() {
    let bytes = deterministic_embedding_bytes("hello", "embedding-default-v1", 40);
    let numbers = deterministic_embedding("hello", "embedding-default-v1", 40);
    assert_eq!(numbers.len(), 40);
    for (b, n) in bytes.iter().zip(numbers.iter()) {
        assert_eq!(f32::from_bits(*n), (*b as f32 / 127.5) - 1.0);
    }
    assert_eq!(&numbers[0..8], &numbers[32..40]);
    assert_eq!(deterministic_embedding("x", "m", 0).len(), 1);
    let embedder = DeterministicEmbedder::new(5);
    assert_eq!(embedder.embed("x", "m"), deterministic_embedding("x", "m", 5));
    assert_eq!(DeterministicEmbedder::default().embed("x", "m").len(), 768);
}

#[test]
fn embedding_bytes_repeat_the_digest() {
    let bytes = deterministic_embedding_bytes("", "", 40);
    let digest: [u8; 8] = [0xe3, 0xb0, 0xc4, 0x42, 0x98, 0xfc, 0x1c, 0x14];
    assert_eq!(&bytes[0..8], &digest);
    assert_eq!(&bytes[32..40], &digest);
    assert_eq!(deterministic_embedding_bytes("x", "m", 0).len(), 1);
    assert_eq!(DeterministicEmbedder::new(3).embed_bytes("x", "m").len(), 3);
    assert_eq!(
        deterministic_embedding_bytes("ab", "c", 4),
        deterministic_embedding_bytes("b", "ca", 4)
    );
}

#[test]
fn identical_request_is_ingested_once() {
    let mut b = bench();
    let first = b.ingest(text_request("hello", Metadata::new(), Some("k1"), None)).unwrap();
    assert_eq!(first.len(), 1);
    let nodes = b.repo.list_node_ids();
    let lsn = b.repo.current_lsn();
    let second = b.ingest(text_request("hello", Metadata::new(), Some("k1"), None)).unwrap();
    assert_eq!(second, first);
    assert_eq!(b.repo.list_node_ids(), nodes);
    assert_eq!(b.repo.current_lsn(), lsn);
    assert_eq!(b.repo.check_idempotency("k1"), Some(first.clone()));
    let node = b.repo.get_node(first[0]).unwrap();
    assert_eq!(node.data, "hello");
    assert_eq!(node.metadata.get(&"idempotency_key".to_string()).unwrap(), "k1");
    assert_eq!(b.jobs.len(), 1);
}

#[test]
fn inflight_locks_are_held_until_they_are_released() {
    let mut locks = InflightLocks::new();
    assert!(locks.try_acquire("a"));
    assert!(!locks.try_acquire("a"));
    assert!(locks.try_acquire("b"));
    locks.release("a");
    assert!(!locks.try_acquire("b"));
    assert!(locks.try_acquire("a"));
    locks.release("missing");
    locks.release("b");
    assert!(locks.try_acquire("b"));
    assert!(!locks.try_acquire("a"));
}
