use alayasiki::backup::RepositoryBackupSnapshot;
use alayasiki::crypto::NoOpCipher;
use alayasiki::error::{AlayasikiError, ErrorCode};
use alayasiki::model::{Edge, Node};
use alayasiki::ordered::Duplicate;
use alayasiki::repo::{
    backup_of, parse_wal_snapshot_lsn, snapshot_id_for, validate_against, RepoError, Repository,
};
use alayasiki::snapshot::SnapshotManager;
use alayasiki::sorted_map::{Metadata, SortedMap};
use alayasiki::state::{
    mutations_to_tx_operations, IndexMutation, MaterializedState, TxOperation, WalEntry,
};
use alayasiki::wal::Wal;

fn bits(values: &[f32]) -> Vec<u32> {
    values.iter().map(|v| v.to_bits()).collect()
}

fn node(id: u64, embedding: &[f32], data: &str) -> Node {
    Node::new(id, bits(embedding), data.to_string())
}

fn edge(source: u64, target: u64, relation: &str, weight: f32) -> Edge {
    Edge::new(source, target, relation, weight.to_bits())
}

fn edge_with(source: u64, target: u64, relation: &str, weight: f32, meta: &[(&str, &str)]) -> Edge {
    let mut e = edge(source, target, relation, weight);
    for (k, v) in meta {
        e.metadata.insert(k.to_string(), v.to_string());
    }
    e
}

fn copy_entry(entry: &WalEntry) -> WalEntry {
    match entry {
        WalEntry::Put(n) => WalEntry::Put(n.clone()),
        WalEntry::PutEdge(e) => WalEntry::PutEdge(e.clone()),
        WalEntry::Delete(id) => WalEntry::Delete(*id),
        WalEntry::IdempotencyKey { key, node_ids } => WalEntry::IdempotencyKey {
            key: key.clone(),
            node_ids: node_ids.clone(),
        },
        WalEntry::Transaction(ops) => {
            WalEntry::Transaction(ops.iter().map(|o| o.duplicate()).collect())
        }
    }
}

/// A log file and a codec kept in memory: a payload is the place of its entry
/// in `table`.
struct Disk {
    log: Vec<u8>,
    table: Vec<WalEntry>,
    snapshots: Vec<(u64, RepositoryBackupSnapshot)>,
}

impl Disk {
    fn new() -> Self {
        Disk { log: Vec::new(), table: Vec::new(), snapshots: Vec::new() }
    }

    fn encode(&mut self, entry: WalEntry) -> Vec<u8> {
        self.table.push(entry);
        ((self.table.len() - 1) as u32).to_le_bytes().to_vec()
    }

    fn decode(&self, payload: &[u8]) -> WalEntry {
        let mut raw = [0u8; 4];
        raw.copy_from_slice(payload);
        copy_entry(&self.table[u32::from_le_bytes(raw) as usize])
    }

    fn write(&mut self, frame: &(u64, Vec<u8>)) {
        self.log.extend_from_slice(&frame.1);
    }

    fn entries(&self) -> (Wal<NoOpCipher>, Vec<(u64, WalEntry)>) {
        let mut wal = Wal::new(NoOpCipher);
        let replay = wal.replay(&self.log).unwrap();
        let entries = replay
            .records
            .iter()
            .map(|r| (r.lsn, self.decode(&r.payload)))
            .collect();
        (wal, entries)
    }

    fn selected(&self, upper: u64) -> Option<(u64, RepositoryBackupSnapshot)> {
        let names: Vec<String> = self
            .snapshots
            .iter()
            .map(|s| alayasiki::snapshot::snapshot_file_name(s.0))
            .collect();
        let manager = SnapshotManager::new("snapshots");
        manager
            .latest_snapshot_at_or_before(&names, upper)
            .map(|(lsn, index)| (lsn, copy_backup(&self.snapshots[index].1)))
    }

    fn open(&self, with_snapshots: bool) -> Result<Repository<NoOpCipher>, RepoError> {
        let (wal, entries) = self.entries();
        let manager = if with_snapshots { Some(SnapshotManager::new("snapshots")) } else { None };
        let selected = if with_snapshots { self.selected(u64::MAX) } else { None };
        Repository::open_internal(wal, manager, &selected, &entries)
    }

    fn put_node(&mut self, repo: &mut Repository<NoOpCipher>, n: Node) -> u64 {
        let encoded = self.encode(WalEntry::Put(n.clone()));
        let frame = repo.put_node(n, &encoded).unwrap();
        self.write(&frame);
        frame.0
    }

    fn put_edge(&mut self, repo: &mut Repository<NoOpCipher>, e: Edge) -> Result<u64, RepoError> {
        let encoded = self.encode(WalEntry::PutEdge(e.clone()));
        let frame = repo.put_edge(e, &encoded)?;
        self.write(&frame);
        Ok(frame.0)
    }

    fn delete_node(&mut self, repo: &mut Repository<NoOpCipher>, id: u64) -> u64 {
        let encoded = self.encode(WalEntry::Delete(id));
        let frame = repo.delete_node(id, &encoded).unwrap();
        self.write(&frame);
        frame.0
    }

    fn transact(
        &mut self,
        repo: &mut Repository<NoOpCipher>,
        mutations: Vec<IndexMutation>,
    ) -> Result<Option<u64>, RepoError> {
        let encoded = self.encode(WalEntry::Transaction(mutations_to_tx_operations(&mutations)));
        let frame = repo.apply_index_transaction(mutations, &encoded)?;
        if let Some(f) = &frame {
            self.write(f);
        }
        Ok(frame.map(|f| f.0))
    }

    fn record(
        &mut self,
        repo: &mut Repository<NoOpCipher>,
        key: &str,
        ids: Vec<u64>,
    ) -> Option<u64> {
        let encoded = self.encode(WalEntry::IdempotencyKey {
            key: key.to_string(),
            node_ids: ids.clone(),
        });
        let frame = repo.record_idempotency(key, ids, &encoded).unwrap();
        if let Some(f) = &frame {
            self.write(f);
        }
        frame.map(|f| f.0)
    }

    fn backup(&mut self, repo: &Repository<NoOpCipher>) -> Result<String, RepoError> {
        let snapshot = repo.create_backup_snapshot()?;
        let id = snapshot_id_for(snapshot.lsn);
        self.snapshots.push((snapshot.lsn, snapshot));
        Ok(id)
    }

    fn view(
        &self,
        repo: &Repository<NoOpCipher>,
        snapshot_id: &str,
    ) -> Result<alayasiki::repo::SnapshotView, RepoError> {
        let (_, entries) = self.entries();
        let selected = match parse_wal_snapshot_lsn(snapshot_id) {
            Some(lsn) if repo.snapshot_manager().is_some() => self.selected(lsn),
            _ => None,
        };
        repo.load_snapshot_view(snapshot_id, &selected, &entries)
    }
}

fn copy_backup(b: &RepositoryBackupSnapshot) -> RepositoryBackupSnapshot {
    backup_of(&alayasiki::backup::state_from_backup(b), b.lsn)
}

fn similarities(state: &MaterializedState, query: &[u32]) -> Vec<u32> {
    let index = state.hyper_index().vector_index();
    (0..index.len())
        .map(|i| {
            let e = index.embedding_at(i);
            if e.len() != query.len() || e.is_empty() {
                return 0f32.to_bits();
            }
            let mut dot = 0.0f32;
            let mut na = 0.0f32;
            let mut nb = 0.0f32;
            for j in 0..e.len() {
                let x = f32::from_bits(e[j]);
                let y = f32::from_bits(query[j]);
                dot += x * y;
                na += x * x;
                nb += y * y;
            }
            if na == 0.0 || nb == 0.0 { 0f32.to_bits() } else { (dot / (na.sqrt() * nb.sqrt())).to_bits() }
        })
        .collect()
}

#[test]
fn test_repo_put_get() {
    let mut disk = Disk::new();
    let mut repo = disk.open(false).unwrap();

    let n = node(1, &[0.1, 0.2, 0.3], "Test Node");
    disk.put_node(&mut repo, n.clone());

    let retrieved = repo.get_node(1).unwrap();
    assert_eq!(retrieved, n);
}

#[test]
fn test_repo_replay_on_restart() {
    let mut disk = Disk::new();
    {
        let mut repo = disk.open(false).unwrap();
        disk.put_node(&mut repo, node(1, &[1.0], "Node 1"));
        disk.put_node(&mut repo, node(2, &[2.0], "Node 2"));
    }
    {
        let repo = disk.open(false).unwrap();
        assert_eq!(repo.get_node(1).unwrap().data, "Node 1");
        assert_eq!(repo.get_node(2).unwrap().data, "Node 2");
        assert_eq!(repo.current_lsn(), 2);
    }
}

#[test]
fn test_repo_delete_tombstone() {
    let mut disk = Disk::new();
    {
        let mut repo = disk.open(false).unwrap();
        disk.put_node(&mut repo, node(1, &[1.0], "Node 1"));
        disk.delete_node(&mut repo, 1);
    }
    {
        let repo = disk.open(false).unwrap();
        assert_eq!(repo.get_node(1), Err(RepoError::NotFound));
    }
}

#[test]
fn test_repo_edge_and_index_restore() {
    let mut disk = Disk::new();
    {
        let mut repo = disk.open(false).unwrap();
        disk.put_node(&mut repo, node(1, &[1.0, 0.0], "N1"));
        disk.put_node(&mut repo, node(2, &[0.0, 1.0], "N2"));
        disk.put_edge(&mut repo, edge(1, 2, "links", 1.0)).unwrap();

        let neighbors = repo.materialized().hyper_index().expand_graph(1, 1);
        assert_eq!(neighbors.len(), 1);
        assert_eq!(neighbors[0].0, 2);
    }
    {
        let repo = disk.open(false).unwrap();
        let state = repo.materialized();
        let q = bits(&[1.0, 0.0]);
        let sims = similarities(state, &q);
        let search_res = state.hyper_index().search_vector(&q, &sims, 1);
        assert_eq!(search_res.len(), 1);
        assert_eq!(search_res[0].0, 1);

        let neighbors = state.hyper_index().expand_graph(1, 1);
        assert_eq!(neighbors.len(), 1);
        assert_eq!(neighbors[0].0, 2);
    }
}

#[test]
fn test_index_transaction_commits_all_mutations() {
    let mut disk = Disk::new();
    let mut repo = disk.open(false).unwrap();

    disk.transact(
        &mut repo,
        vec![
            IndexMutation::PutNode(node(1, &[1.0, 0.0], "N1")),
            IndexMutation::PutNode(node(2, &[0.0, 1.0], "N2")),
            IndexMutation::PutEdge(edge(1, 2, "links", 1.0)),
        ],
    )
    .unwrap();

    assert_eq!(repo.get_node(1).unwrap().data, "N1");
    assert_eq!(repo.get_node(2).unwrap().data, "N2");

    let neighbors = repo.materialized().hyper_index().expand_graph(1, 1);
    assert_eq!(neighbors.len(), 1);
    assert_eq!(neighbors[0].0, 2);
}

#[test]
fn test_index_transaction_rollback_on_validation_error() {
    let mut disk = Disk::new();
    let mut repo = disk.open(false).unwrap();

    let result = disk.transact(
        &mut repo,
        vec![
            IndexMutation::PutNode(node(1, &[1.0], "N1")),
            IndexMutation::PutEdge(edge(1, 999, "links", 1.0)),
        ],
    );

    assert!(result.is_err());
    assert!(matches!(result, Err(RepoError::InvalidTransaction(_))));
    assert!(repo.get_node(1).is_err(), "node should not be partially committed");
    assert!(disk.log.is_empty());
    assert_eq!(repo.current_lsn(), 0);

    let reopened = disk.open(false).unwrap();
    assert!(reopened.get_node(1).is_err());
}

#[test]
fn test_index_transaction_persists_single_wal_record() {
    let mut disk = Disk::new();
    let mut repo = disk.open(false).unwrap();

    disk.transact(
        &mut repo,
        vec![
            IndexMutation::PutNode(node(1, &[1.0], "N1")),
            IndexMutation::PutNode(node(2, &[2.0], "N2")),
            IndexMutation::PutEdge(edge(1, 2, "links", 1.0)),
        ],
    )
    .unwrap();

    let (_, entries) = disk.entries();
    assert_eq!(entries.len(), 1, "a transaction is one record");
    match &entries[0].1 {
        WalEntry::Transaction(ops) => assert_eq!(ops.len(), 3),
        other => panic!("expected a transaction, got {:?}", other),
    }
}

#[test]
fn empty_transaction_writes_nothing() {
    let mut disk = Disk::new();
    let mut repo = disk.open(false).unwrap();
    assert_eq!(disk.transact(&mut repo, vec![]), Ok(None));
    assert_eq!(repo.current_lsn(), 0);
    assert!(disk.log.is_empty());
}

#[test]
fn put_edge_to_unknown_endpoint_fails_and_logs_nothing() {
    let mut disk = Disk::new();
    let mut repo = disk.open(false).unwrap();
    disk.put_node(&mut repo, node(1, &[1.0], "N1"));
    let before = disk.log.len();

    let missing_target = disk.put_edge(&mut repo, edge(1, 999, "links", 1.0));
    assert_eq!(
        missing_target,
        Err(RepoError::InvalidTransaction(
            "edge target 999 does not exist".to_string()
        ))
    );
    let missing_source = disk.put_edge(&mut repo, edge(7, 1, "links", 1.0));
    assert_eq!(
        missing_source,
        Err(RepoError::InvalidTransaction(
            "edge source 7 does not exist".to_string()
        ))
    );
    assert_eq!(disk.log.len(), before);
    assert_eq!(repo.current_lsn(), 1);
    assert!(repo.materialized().hyper_index().graph_index().neighbors(1).is_empty());
    assert_eq!(repo.get_node(1).unwrap().data, "N1");
}

#[test]
fn validation_walks_the_batch_in_order() {
    let nodes: SortedMap<u64, Node> = SortedMap::new();
    let ok = vec![
        IndexMutation::PutNode(node(1, &[], "a")),
        IndexMutation::PutNode(node(2, &[], "b")),
        IndexMutation::PutEdge(edge(1, 2, "r", 1.0)),
        IndexMutation::DeleteNode(2),
    ];
    assert_eq!(validate_against(&nodes, &ok), Ok(()));

    let early_edge = vec![
        IndexMutation::PutEdge(edge(1, 2, "r", 1.0)),
        IndexMutation::PutNode(node(1, &[], "a")),
        IndexMutation::PutNode(node(2, &[], "b")),
    ];
    assert_eq!(
        validate_against(&nodes, &early_edge),
        Err(RepoError::InvalidTransaction(
            "edge source 1 does not exist".to_string()
        ))
    );

    let after_delete = vec![
        IndexMutation::PutNode(node(1, &[], "a")),
        IndexMutation::PutNode(node(2, &[], "b")),
        IndexMutation::DeleteNode(2),
        IndexMutation::PutEdge(edge(1, 2, "r", 1.0)),
    ];
    assert_eq!(
        validate_against(&nodes, &after_delete),
        Err(RepoError::InvalidTransaction(
            "edge target 2 does not exist".to_string()
        ))
    );

    let unknown_delete = vec![IndexMutation::DeleteNode(5)];
    assert_eq!(validate_against(&nodes, &unknown_delete), Err(RepoError::NotFound));
}

#[test]
fn delete_then_put_edge_leaves_no_dangling_edge() {
    let mut disk = Disk::new();
    let mut repo = disk.open(false).unwrap();
    disk.put_node(&mut repo, node(1, &[1.0], "N1"));
    disk.put_node(&mut repo, node(2, &[2.0], "N2"));
    disk.put_edge(&mut repo, edge(1, 2, "links", 1.0)).unwrap();
    disk.delete_node(&mut repo, 2);
    assert!(disk.put_edge(&mut repo, edge(1, 2, "links", 1.0)).is_err());
    assert!(repo.get_node(2).is_err());
    let neighbors = repo.materialized().hyper_index().expand_graph(1, 1);
    assert!(!neighbors.iter().any(|(id, _)| *id == 2));
    assert!(repo.get_edge_metadata(1, 2, "links").is_empty());
}

#[test]
fn test_load_snapshot_view_reconstructs_historical_state() {
    let mut disk = Disk::new();
    let mut repo = disk.open(false).unwrap();

    disk.put_node(&mut repo, node(1, &[1.0], "N1"));
    let snapshot_lsn_1 = repo.current_snapshot_id();

    disk.put_node(&mut repo, node(2, &[2.0], "N2"));
    disk.delete_node(&mut repo, 1);

    let view_at_lsn_1 = disk.view(&repo, &snapshot_lsn_1).unwrap();
    assert_eq!(view_at_lsn_1.snapshot_id(), snapshot_lsn_1);
    assert_eq!(view_at_lsn_1.list_node_ids(), vec![1]);
    assert_eq!(view_at_lsn_1.get_nodes_by_ids(&[1])[0].data, "N1");

    let view_at_lsn_3 = disk.view(&repo, "wal-lsn-3").unwrap();
    assert_eq!(view_at_lsn_3.list_node_ids(), vec![2]);

    assert_eq!(repo.list_node_ids(), vec![2]);
}

#[test]
fn test_load_snapshot_view_rejects_missing_or_invalid_snapshot_id() {
    let mut disk = Disk::new();
    let mut repo = disk.open(false).unwrap();
    disk.put_node(&mut repo, node(1, &[1.0], "N1"));

    let missing = disk.view(&repo, "wal-lsn-99");
    assert!(matches!(missing, Err(RepoError::SnapshotNotFound(_))));

    let invalid = disk.view(&repo, "snap-custom");
    assert!(matches!(invalid, Err(RepoError::InvalidSnapshotId(_))));
}

#[test]
fn test_open_with_snapshots_restores_snapshot_and_wal_delta() {
    let mut disk = Disk::new();
    {
        let mut repo = disk.open(true).unwrap();
        disk.put_node(&mut repo, node(1, &[1.0], "N1"));
        disk.put_node(&mut repo, node(2, &[2.0], "N2"));

        let backup_id = disk.backup(&repo).unwrap();
        assert_eq!(backup_id, "wal-lsn-2");

        disk.put_node(&mut repo, node(3, &[3.0], "N3"));
    }

    let reopened = disk.open(true).unwrap();
    assert_eq!(reopened.list_node_ids(), vec![1, 2, 3]);
}

#[test]
fn test_restore_from_latest_backup_rebuilds_in_memory_state() {
    let mut disk = Disk::new();
    let mut repo = disk.open(true).unwrap();
    disk.put_node(&mut repo, node(1, &[1.0], "N1"));
    disk.put_node(&mut repo, node(2, &[2.0], "N2"));
    disk.backup(&repo).unwrap();
    disk.delete_node(&mut repo, 2);

    let (_, entries) = disk.entries();
    let selected = disk.selected(u64::MAX);
    let restored_snapshot = repo.restore_from_latest_backup(&selected, &entries).unwrap();
    assert_eq!(restored_snapshot, "wal-lsn-3");
    assert_eq!(repo.list_node_ids(), vec![1]);
}

#[test]
fn test_backup_requires_snapshot_manager_configuration() {
    let disk = Disk::new();
    let mut repo = disk.open(false).unwrap();

    let create_backup = repo.create_backup_snapshot();
    assert!(matches!(create_backup, Err(RepoError::SnapshotNotConfigured)));

    let restore = repo.restore_from_latest_backup(&None, &Vec::new());
    assert!(matches!(restore, Err(RepoError::SnapshotNotConfigured)));
}

#[test]
fn test_open_with_snapshots_rejects_snapshot_newer_than_wal() {
    let mut disk = Disk::new();
    {
        let mut repo = disk.open(true).unwrap();
        disk.put_node(&mut repo, node(1, &[1.0], "N1"));
        disk.put_node(&mut repo, node(2, &[2.0], "N2"));
        let snapshot_id = disk.backup(&repo).unwrap();
        assert_eq!(snapshot_id, "wal-lsn-2");
    }

    disk.log.clear();

    let reopened = disk.open(true);
    assert!(matches!(
        reopened,
        Err(RepoError::SnapshotNotFound(ref snapshot_id)) if snapshot_id == "wal-lsn-2"
    ));
}

#[test]
fn snapshot_with_a_foreign_lsn_is_rejected() {
    let mut disk = Disk::new();
    let mut repo = disk.open(true).unwrap();
    disk.put_node(&mut repo, node(1, &[1.0], "N1"));
    let snapshot = repo.create_backup_snapshot().unwrap();
    let (wal, entries) = disk.entries();
    let opened = Repository::open_internal(
        wal,
        Some(SnapshotManager::new("snapshots")),
        &Some((snapshot.lsn + 1, snapshot)),
        &entries,
    );
    assert!(matches!(opened, Err(RepoError::Deserialization)));
}

#[test]
fn restart_after_a_torn_write_restores_the_committed_state() {
    let mut disk = Disk::new();
    {
        let mut repo = disk.open(false).unwrap();
        disk.put_node(&mut repo, node(1, &[1.0], "A"));
        disk.put_node(&mut repo, node(2, &[2.0], "B"));
        disk.put_node(&mut repo, node(3, &[3.0], "C"));
    }
    let committed = disk.log.len();
    disk.log.extend_from_slice(&[0x00, 0x00, 0x00, 0x00, 0x07]);

    let mut wal = Wal::new(NoOpCipher);
    let replay = wal.replay(&disk.log).unwrap();
    assert_eq!(replay.valid_len, committed);
    disk.log.truncate(replay.valid_len);

    let mut repo = disk.open(false).unwrap();
    assert_eq!(repo.list_node_ids(), vec![1, 2, 3]);
    assert_eq!(repo.get_node(2).unwrap().data, "B");
    assert_eq!(disk.put_node(&mut repo, node(4, &[4.0], "D")), 4);
    let again = disk.open(false).unwrap();
    assert_eq!(again.list_node_ids(), vec![1, 2, 3, 4]);
}

#[test]
fn restart_yields_the_same_state_as_before_the_crash() {
    let mut disk = Disk::new();
    let mut repo = disk.open(false).unwrap();
    disk.put_node(&mut repo, node(1, &[1.0, 0.0], "N1"));
    disk.put_node(&mut repo, node(2, &[0.0, 1.0], "N2"));
    disk.put_node(&mut repo, node(3, &[1.0, 1.0], "N3"));
    disk.put_edge(&mut repo, edge_with(1, 2, "links", 0.5, &[("source", "doc-a")])).unwrap();
    disk.transact(
        &mut repo,
        vec![
            IndexMutation::PutEdge(edge(2, 3, "cites", 0.25)),
            IndexMutation::DeleteNode(1),
            IndexMutation::PutNode(node(4, &[0.5, 0.5], "N4")),
        ],
    )
    .unwrap();
    disk.record(&mut repo, "key-1", vec![2, 3]);

    let reopened = disk.open(false).unwrap();
    assert_eq!(reopened.list_node_ids(), repo.list_node_ids());
    assert_eq!(reopened.list_node_ids(), vec![2, 3, 4]);
    assert_eq!(
        reopened.materialized().hyper_index().graph_index().edges(),
        repo.materialized().hyper_index().graph_index().edges()
    );
    assert_eq!(
        reopened.materialized().hyper_index().graph_index().edges(),
        vec![(2, 3, 0.25f32.to_bits())]
    );
    assert_eq!(reopened.check_idempotency("key-1"), Some(vec![2, 3]));
    assert_eq!(reopened.current_lsn(), repo.current_lsn());
    assert_eq!(reopened.current_snapshot_id(), "wal-lsn-6");
    assert_eq!(
        backup_of(reopened.materialized(), 6),
        backup_of(repo.materialized(), 6)
    );
}

#[test]
fn upsert_replaces_weight_and_metadata_and_survives_replay() {
    let mut disk = Disk::new();
    let mut repo = disk.open(false).unwrap();
    disk.put_node(&mut repo, node(1, &[1.0], "N1"));
    disk.put_node(&mut repo, node(2, &[2.0], "N2"));
    disk.put_edge(
        &mut repo,
        edge_with(1, 2, "links", 0.3, &[("source", "old"), ("confidence", "0.4")]),
    )
    .unwrap();
    disk.put_edge(&mut repo, edge_with(1, 2, "links", 0.95, &[("source", "new")])).unwrap();

    for r in [&repo, &disk.open(false).unwrap()] {
        let out = r.materialized().hyper_index().graph_index().neighbors(1);
        assert_eq!(out, vec![(2, "links".to_string(), 0.95f32.to_bits())]);
        let meta = r.get_edge_metadata(1, 2, "links");
        assert_eq!(meta.len(), 1);
        assert_eq!(meta.get(&"source".to_string()), Some(&"new".to_string()));
    }

    disk.put_edge(&mut repo, edge(1, 2, "links", 0.95)).unwrap();
    assert!(repo.get_edge_metadata(1, 2, "links").is_empty());
    assert!(disk.open(false).unwrap().get_edge_metadata(1, 2, "links").is_empty());
}

#[test]
fn idempotency_records_are_write_once() {
    let mut disk = Disk::new();
    let mut repo = disk.open(false).unwrap();
    assert_eq!(repo.check_idempotency("k"), None);
    assert_eq!(disk.record(&mut repo, "k", vec![1, 2]), Some(1));
    assert_eq!(disk.record(&mut repo, "k", vec![9]), None);
    assert_eq!(repo.check_idempotency("k"), Some(vec![1, 2]));
    assert_eq!(repo.current_lsn(), 1);
    let reopened = disk.open(false).unwrap();
    assert_eq!(reopened.check_idempotency("k"), Some(vec![1, 2]));
}

#[test]
fn snapshot_view_is_pinned_while_the_live_state_moves_on() {
    let mut disk = Disk::new();
    let mut repo = disk.open(true).unwrap();
    disk.put_node(&mut repo, node(1, &[1.0], "old-only"));
    let s1 = repo.current_snapshot_id();
    disk.backup(&repo).unwrap();
    disk.delete_node(&mut repo, 1);
    disk.put_node(&mut repo, node(2, &[2.0], "new-only"));

    let pinned = disk.view(&repo, &s1).unwrap();
    assert_eq!(pinned.list_node_ids(), vec![1]);
    assert_eq!(pinned.get_nodes_by_ids(&[1, 2]).len(), 1);
    assert_eq!(pinned.embedding_dimension(), Some(1));
    assert_eq!(repo.list_node_ids(), vec![2]);
    let zero = disk.view(&repo, "wal-lsn-0").unwrap();
    assert!(zero.list_node_ids().is_empty());
    assert_eq!(zero.embedding_dimension(), None);
}

#[test]
fn snapshot_ids_are_formed_and_parsed() {
    assert_eq!(snapshot_id_for(0), "wal-lsn-0");
    assert_eq!(snapshot_id_for(1234), "wal-lsn-1234");
    assert_eq!(parse_wal_snapshot_lsn("wal-lsn-1234"), Some(1234));
    assert_eq!(parse_wal_snapshot_lsn("wal-lsn-"), None);
    assert_eq!(parse_wal_snapshot_lsn("wal-lsn-12x"), None);
    assert_eq!(parse_wal_snapshot_lsn("lsn-12"), None);
    assert_eq!(parse_wal_snapshot_lsn("wal-lsn-18446744073709551616"), None);
}

#[test]
fn get_nodes_by_ids_skips_unknown_ids_and_orders_by_id() {
    let mut disk = Disk::new();
    let mut repo = disk.open(false).unwrap();
    disk.put_node(&mut repo, node(3, &[1.0, 2.0], "c"));
    disk.put_node(&mut repo, node(1, &[], "a"));
    let got: Vec<u64> = repo.get_nodes_by_ids(&[3, 8, 1, 3]).iter().map(|n| n.id).collect();
    assert_eq!(got, vec![1, 3, 3]);
    assert_eq!(repo.embedding_dimension(), Some(2));
}

#[test]
fn backup_lists_everything_in_order() {
    let mut state = MaterializedState::empty();
    state.put_node(node(2, &[1.0], "b"));
    state.put_node(node(1, &[2.0], "a"));
    state.put_edge(edge_with(2, 1, "r", 0.5, &[("k", "v")]));
    state.put_edge(edge(1, 2, "s", 0.25));
    state.record_idempotency("z", vec![1]);
    state.record_idempotency("a", vec![2]);
    let b = backup_of(&state, 9);
    assert_eq!(b.lsn, 9);
    assert_eq!(b.nodes.iter().map(|n| n.id).collect::<Vec<_>>(), vec![1, 2]);
    assert_eq!(
        b.edges.iter().map(|e| (e.source, e.target)).collect::<Vec<_>>(),
        vec![(1, 2), (2, 1)]
    );
    assert_eq!(
        b.idempotency.iter().map(|r| r.key.as_str()).collect::<Vec<_>>(),
        vec!["a", "z"]
    );
    assert_eq!(b.edge_metadata.len(), 1);
    assert_eq!(b.edge_metadata[0].relation, "r");
    let restored = alayasiki::backup::state_from_backup(&b);
    assert_eq!(backup_of(&restored, 9), b);
}

#[test]
fn repo_errors_have_messages_and_codes() {
    assert_eq!(RepoError::NotFound.message(), "Not found");
    assert_eq!(RepoError::NotFound.error_code(), ErrorCode::NotFound);
    assert_eq!(
        RepoError::InvalidTransaction("x".to_string()).message(),
        "Invalid transaction: x"
    );
    assert_eq!(
        RepoError::InvalidTransaction("x".to_string()).error_code(),
        ErrorCode::InvalidArgument
    );
    assert_eq!(
        RepoError::SnapshotNotFound("wal-lsn-9".to_string()).error_code(),
        ErrorCode::NotFound
    );
    assert_eq!(RepoError::Serialization.error_code(), ErrorCode::Internal);
    assert_eq!(ErrorCode::PermissionDenied.as_str(), "PERMISSION_DENIED");
}

#[test]
fn metadata_is_kept_by_key() {
    let mut m = Metadata::new();
    m.insert("b".to_string(), "2".to_string());
    m.insert("a".to_string(), "1".to_string());
    m.insert("b".to_string(), "3".to_string());
    assert_eq!(m.len(), 2);
    assert_eq!(m.key_at(0), "a");
    assert_eq!(m.value_at(1), "3");
    assert_eq!(m.remove(&"a".to_string()), Some("1".to_string()));
    assert_eq!(m.remove(&"a".to_string()), None);
    assert!(!m.contains_key(&"a".to_string()));
    assert_eq!(m.position(&"b".to_string()), Some(0));
}

#[test]
fn mutations_become_operations_in_order() {
    let ops = mutations_to_tx_operations(&vec![
        IndexMutation::DeleteNode(4),
        IndexMutation::PutNode(node(1, &[], "a")),
    ]);
    assert_eq!(ops.len(), 2);
    assert_eq!(ops[0], TxOperation::Delete(4));
    assert!(matches!(&ops[1], TxOperation::Put(n) if n.id == 1));
}

#[test]
fn log_is_read_without_moving_the_lsn() {
    let mut disk = Disk::new();
    let mut repo = disk.open(false).unwrap();
    disk.put_node(&mut repo, node(1, &[1.0], "A"));
    disk.put_node(&mut repo, node(2, &[2.0], "B"));
    let fresh = Repository::new(Wal::new(NoOpCipher));
    let read = fresh.read_log(&disk.log).unwrap();
    assert_eq!(read.records.len(), 2);
    assert_eq!(read.last_lsn, 2);
    assert_eq!(read.valid_len, disk.log.len());
    assert_eq!(fresh.current_lsn(), 0);
    let mut broken = disk.log.clone();
    let last = broken.len() - 1;
    broken[last] ^= 0xff;
    assert_eq!(
        fresh.read_log(&broken),
        Err(RepoError::Wal(alayasiki::wal::WalError::CrcMismatch))
    );
}

#[test]
fn idempotency_record_becomes_visible_with_its_commit() {
    let mut repo = Repository::new(Wal::new(NoOpCipher));
    let framed = repo.begin_idempotency("k", b"record").unwrap();
    assert_eq!(framed.as_ref().map(|f| f.0), Some(1));
    assert_eq!(repo.check_idempotency("k"), None);
    assert_eq!(repo.current_lsn(), 1);
    repo.commit_idempotency("k", vec![4, 5]);
    assert_eq!(repo.check_idempotency("k"), Some(vec![4, 5]));
    assert_eq!(repo.begin_idempotency("k", b"again"), Ok(None));
    repo.commit_idempotency("k", vec![9]);
    assert_eq!(repo.check_idempotency("k"), Some(vec![4, 5]));
    assert_eq!(repo.current_lsn(), 1);
}

#[test]
fn transaction_becomes_visible_with_its_commit() {
    let mut repo = Repository::new(Wal::new(NoOpCipher));
    let batch = || vec![IndexMutation::PutNode(node(1, &[1.0], "A"))];
    let framed = repo.begin_transaction(&batch(), b"tx").unwrap().unwrap();
    assert_eq!(framed.0, 1);
    assert_eq!(&framed.1[16..], b"tx");
    assert!(repo.get_node(1).is_err());
    repo.commit_transaction(batch());
    assert_eq!(repo.get_node(1).unwrap().data, "A");
    assert_eq!(repo.current_snapshot_id(), "wal-lsn-1");
}

#[test]
fn test_edge_update_with_empty_metadata_clears_old_provenance() {
    let mut disk = Disk::new();
    let mut repo = disk.open(false).unwrap();
    disk.put_node(&mut repo, node(1, &[1.0], "NodeA"));
    disk.put_node(&mut repo, node(2, &[2.0], "NodeB"));

    disk.put_edge(&mut repo, edge_with(1, 2, "links", 0.9, &[("extraction_model_id", "old-model-v1")]))
        .unwrap();
    let meta = repo.get_edge_metadata(1, 2, "links");
    assert_eq!(meta.get(&"extraction_model_id".to_string()).unwrap(), "old-model-v1");

    disk.put_edge(&mut repo, edge(1, 2, "links", 0.95)).unwrap();
    let meta_after = repo.get_edge_metadata(1, 2, "links");
    assert!(meta_after.is_empty());
}

#[test]
fn test_edge_update_replaces_provenance_not_appends() {
    let mut disk = Disk::new();
    let mut repo = disk.open(false).unwrap();
    disk.put_node(&mut repo, node(1, &[1.0], "NodeA"));
    disk.put_node(&mut repo, node(2, &[2.0], "NodeB"));

    disk.put_edge(
        &mut repo,
        edge_with(1, 2, "links", 0.8, &[("extraction_model_id", "old-model"), ("source", "old-source.pdf")]),
    )
    .unwrap();
    disk.put_edge(&mut repo, edge_with(1, 2, "links", 0.95, &[("extraction_model_id", "new-model-v2")]))
        .unwrap();

    let meta = repo.get_edge_metadata(1, 2, "links");
    assert_eq!(meta.get(&"extraction_model_id".to_string()).unwrap(), "new-model-v2");
    assert!(!meta.contains_key(&"source".to_string()));
}

#[test]
fn test_edge_upsert_updates_weight_in_graph_index() {
    let mut disk = Disk::new();
    let mut repo = disk.open(false).unwrap();
    disk.put_node(&mut repo, node(1, &[1.0], "NodeA"));
    disk.put_node(&mut repo, node(2, &[2.0], "NodeB"));
    disk.put_edge(&mut repo, edge(1, 2, "links", 0.5)).unwrap();
    disk.put_edge(&mut repo, edge(1, 2, "links", 0.9)).unwrap();

    let neighbors = repo.materialized().hyper_index().graph_index().neighbors(1);
    let matching: Vec<_> = neighbors.iter().filter(|(t, r, _)| *t == 2 && r == "links").collect();
    assert_eq!(matching.len(), 1);
    assert!((f32::from_bits(matching[0].2) - 0.9).abs() < f32::EPSILON);
}

#[test]
fn test_edge_upsert_survives_wal_replay() {
    let mut disk = Disk::new();
    {
        let mut repo = disk.open(false).unwrap();
        disk.put_node(&mut repo, node(1, &[1.0], "N1"));
        disk.put_node(&mut repo, node(2, &[2.0], "N2"));
        disk.put_edge(&mut repo, edge_with(1, 2, "links", 0.5, &[("extraction_model_id", "old")])).unwrap();
        disk.put_edge(&mut repo, edge_with(1, 2, "links", 0.95, &[("extraction_model_id", "new")])).unwrap();
    }
    {
        let repo = disk.open(false).unwrap();
        let neighbors = repo.materialized().hyper_index().graph_index().neighbors(1);
        let matching: Vec<_> = neighbors.iter().filter(|(t, r, _)| *t == 2 && r == "links").collect();
        assert_eq!(matching.len(), 1);
        assert!((f32::from_bits(matching[0].2) - 0.95).abs() < f32::EPSILON);
        let meta = repo.get_edge_metadata(1, 2, "links");
        assert_eq!(meta.get(&"extraction_model_id".to_string()).unwrap(), "new");
    }
}

#[test]
fn failed_edge_transaction_leaves_the_committed_state_alone() {
    let mut disk = Disk::new();
    let mut repo = disk.open(false).unwrap();
    disk.put_node(&mut repo, node(1, &[1.0], "one"));
    disk.transact(
        &mut repo,
        vec![IndexMutation::PutNode(node(2, &[2.0], "two")), IndexMutation::PutEdge(edge(1, 2, "r", 1.0))],
    )
    .unwrap();
    let written = disk.log.len();

    let failed = disk.transact(&mut repo, vec![IndexMutation::PutEdge(edge(2, 99, "r", 1.0))]);
    assert!(matches!(failed, Err(RepoError::InvalidTransaction(_))));
    assert_eq!(disk.log.len(), written);

    let reopened = disk.open(false).unwrap();
    assert_eq!(reopened.list_node_ids(), vec![1, 2]);
    assert_eq!(
        reopened.materialized().hyper_index().graph_index().edges(),
        vec![(1, 2, 1.0f32.to_bits())]
    );
    assert_eq!(reopened.current_lsn(), 2);
}
