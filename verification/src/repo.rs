//! The repository: validated, logged, all-or-nothing updates of the
//! materialised state.
//!
//! A transaction is validated against the nodes that are visible, framed as
//! one log record, and applied as a whole. The repository works in memory: the
//! caller serialises the batch, writes and flushes the bytes that a
//! transaction returns, and only then lets the transaction take effect.

use vstd::prelude::*;
use crate::crypto::AtRestCipher;
use crate::error::{AlayasikiError, ErrorCode};
use crate::model::{Edge, Node, NodeView};
use crate::ordered::Duplicate;
use crate::snapshot::{SnapshotError, SnapshotManager};
use crate::sorted_map::{strictly_sorted, Metadata, SortedMap, SortedSet};
use crate::ann::{lists_entries, scored_entries, top_ranked};
use crate::backup::{
    backup_state, collect_backup_edges, is_edge_backup, state_from_backup,
    BackupEdgeMetadataRecord, BackupIdempotencyRecord, RepositoryBackupSnapshot,
};
use crate::graph::{outgoing, EdgeData};
use crate::ordered::{Ordered, Ranked};
use crate::state::{
    apply_op, apply_ops, empty_state, entry_views, is_first_dimension, known_ids, meta_for,
    mutation_views, replay_range, EdgeMetaKey, IndexMutation, MaterializedState, OpView,
    RepoState, WalEntry,
};
use crate::sorting::sorted_ids;
use crate::text::{
    chars_of, decimal_of, is_prefix, lemma_decimal_of, parse_decimal, parse_u64, slice_chars,
    starts_with, string_of, u64_to_decimal,
};
use crate::wal::{frames_payload, last_lsn_of, scan, Replay, Wal, WalError};

verus! {

/// Why a repository operation failed.
#[derive(Debug, PartialEq, Eq)]
pub enum RepoError {
    Wal(WalError),
    Serialization,
    Deserialization,
    NotFound,
    InvalidTransaction(String),
    InvalidSnapshotId(String),
    SnapshotNotFound(String),
    SnapshotNotConfigured,
    Snapshot(SnapshotError),
}

impl RepoError {
    /// The message of the error, as characters.
    pub open spec fn message_text(&self) -> Seq<char> {
        match self {
            RepoError::Wal(e) => "WAL error: "@ + e.message_text(),
            RepoError::Serialization => "Serialization error"@,
            RepoError::Deserialization => "Deserialization error"@,
            RepoError::NotFound => "Not found"@,
            RepoError::InvalidTransaction(m) => "Invalid transaction: "@ + m@,
            RepoError::InvalidSnapshotId(m) => "Invalid snapshot id: "@ + m@,
            RepoError::SnapshotNotFound(m) => "Snapshot not found: "@ + m@,
            RepoError::SnapshotNotConfigured => "Snapshot manager is not configured"@,
            RepoError::Snapshot(e) => "Snapshot error: "@ + e.message_text(),
        }
    }

    /// The message of the error.
    pub fn message(&self) -> (s: String)
        ensures
            s@ == self.message_text(),
    {
        match self {
            RepoError::Wal(e) => {
                let mut s = "WAL error: ".to_owned();
                s.append(e.message().as_str());
                s
            },
            RepoError::Serialization => "Serialization error".to_owned(),
            RepoError::Deserialization => "Deserialization error".to_owned(),
            RepoError::NotFound => "Not found".to_owned(),
            RepoError::InvalidTransaction(m) => {
                let mut s = "Invalid transaction: ".to_owned();
                s.append(m.as_str());
                s
            },
            RepoError::InvalidSnapshotId(m) => {
                let mut s = "Invalid snapshot id: ".to_owned();
                s.append(m.as_str());
                s
            },
            RepoError::SnapshotNotFound(m) => {
                let mut s = "Snapshot not found: ".to_owned();
                s.append(m.as_str());
                s
            },
            RepoError::SnapshotNotConfigured => "Snapshot manager is not configured".to_owned(),
            RepoError::Snapshot(e) => {
                let mut s = "Snapshot error: ".to_owned();
                s.append(e.message().as_str());
                s
            },
        }
    }
}

impl AlayasikiError for RepoError {
    open spec fn code(&self) -> ErrorCode {
        match self {
            RepoError::NotFound => ErrorCode::NotFound,
            RepoError::SnapshotNotFound(_) => ErrorCode::NotFound,
            RepoError::InvalidTransaction(_) => ErrorCode::InvalidArgument,
            RepoError::InvalidSnapshotId(_) => ErrorCode::InvalidArgument,
            _ => ErrorCode::Internal,
        }
    }

    fn error_code(&self) -> (c: ErrorCode) {
        match self {
            RepoError::NotFound => ErrorCode::NotFound,
            RepoError::SnapshotNotFound(_) => ErrorCode::NotFound,
            RepoError::InvalidTransaction(_) => ErrorCode::InvalidArgument,
            RepoError::InvalidSnapshotId(_) => ErrorCode::InvalidArgument,
            _ => ErrorCode::Internal,
        }
    }
}

/// The snapshot id of the state after `lsn` committed records.
pub open spec fn snapshot_id_of(lsn: u64) -> Seq<char> {
    "wal-lsn-"@ + decimal_of(lsn as nat)
}

/// The lsn that a snapshot id names: the id is `wal-lsn-` followed by a
/// decimal number.
pub open spec fn wal_snapshot_lsn(id: Seq<char>) -> Option<u64> {
    if is_prefix("wal-lsn-"@, id) {
        parse_decimal(id.skip("wal-lsn-"@.len() as int))
    } else {
        None
    }
}

/// A snapshot id names the lsn it was made for.
pub proof fn lemma_snapshot_id_round_trip(lsn: u64)
    ensures
        wal_snapshot_lsn(snapshot_id_of(lsn)) == Some(lsn),
{
    let pre = "wal-lsn-"@;
    let id = snapshot_id_of(lsn);
    assert(id.take(pre.len() as int) =~= pre);
    assert(id.skip(pre.len() as int) =~= decimal_of(lsn as nat));
    lemma_decimal_of(lsn as nat);
}

/// The snapshot id of the state after `lsn` committed records.
pub fn snapshot_id_for(lsn: u64) -> (id: String)
    ensures
        id@ == snapshot_id_of(lsn),
{
    let mut id = "wal-lsn-".to_owned();
    id.append(u64_to_decimal(lsn).as_str());
    id
}

/// The lsn that `snapshot_id` names, if it is well formed.
pub fn parse_wal_snapshot_lsn(snapshot_id: &str) -> (r: Option<u64>)
    ensures
        r == wal_snapshot_lsn(snapshot_id@),
{
    let id = chars_of(snapshot_id);
    let pre = chars_of("wal-lsn-");
    if !starts_with(&id, &pre) {
        return None;
    }
    let rest = slice_chars(&id, pre.len(), id.len());
    assert(rest@ =~= id@.skip(pre.len() as int));
    let text = string_of(&rest);
    parse_u64(text.as_str())
}

/// What makes a batch of mutations invalid.
pub enum TxFault {
    /// An edge starts at a node that is not visible.
    MissingSource(u64),
    /// An edge ends at a node that is not visible.
    MissingTarget(u64),
    /// A delete names a node that is not visible.
    MissingNode,
}

/// The first fault of `ops` against the visible node ids, if there is one.
/// A put makes its node visible to the mutations behind it, and a delete
/// hides it from them.
pub open spec fn first_fault(visible: Set<u64>, ops: Seq<OpView>) -> Option<TxFault>
    decreases ops.len(),
{
    if ops.len() == 0 {
        None
    } else {
        let rest = ops.drop_first();
        match ops[0] {
            OpView::Put(n) => first_fault(visible.insert(n.id), rest),
            OpView::PutEdge(e) => if !visible.contains(e.source) {
                Some(TxFault::MissingSource(e.source))
            } else if !visible.contains(e.target) {
                Some(TxFault::MissingTarget(e.target))
            } else {
                first_fault(visible, rest)
            },
            OpView::Delete(id) => if !visible.contains(id) {
                Some(TxFault::MissingNode)
            } else {
                first_fault(visible.remove(id), rest)
            },
        }
    }
}

/// Whether `e` is the error that reports `fault`.
pub open spec fn reports(e: RepoError, fault: TxFault) -> bool {
    match fault {
        TxFault::MissingSource(id) => e matches RepoError::InvalidTransaction(m) && m@
            == "edge source "@ + decimal_of(id as nat) + " does not exist"@,
        TxFault::MissingTarget(id) => e matches RepoError::InvalidTransaction(m) && m@
            == "edge target "@ + decimal_of(id as nat) + " does not exist"@,
        TxFault::MissingNode => e == RepoError::NotFound,
    }
}

/// Validates a batch of mutations against the nodes of `nodes`.
pub fn validate_against(nodes: &SortedMap<u64, Node>, mutations: &Vec<IndexMutation>) -> (r:
    Result<(), RepoError>)
    ensures
        match r {
            Ok(()) => first_fault(nodes@.dom(), mutation_views(mutations@)) is None,
            Err(e) => first_fault(nodes@.dom(), mutation_views(mutations@)) matches Some(f)
                && reports(e, f),
        },
{
    let mut visible: SortedSet<u64> = SortedSet::new();
    let n = nodes.len();
    let mut k: usize = 0;
    while k < n
        invariant
            n == nodes.pairs().len(),
            k <= n,
            forall|id: u64|
                visible@.contains(id) <==> (exists|j: int|
                    0 <= j < k && (#[trigger] nodes.pairs()[j]).0 == id),
        decreases n - k,
    {
        let id = *nodes.key_at(k);
        visible.insert(id);
        k += 1;
    }
    proof {
        assert(visible@ =~= nodes@.dom()) by {
            assert forall|id: u64| visible@.contains(id) <==> nodes@.dom().contains(id) by {
                if visible@.contains(id) {
                    let j = choose|j: int| 0 <= j < n && (#[trigger] nodes.pairs()[j]).0 == id;
                    crate::sorted_map::lemma_pairs_map_at::<u64, NodeView>(nodes.pairs(), j);
                }
                if nodes@.dom().contains(id) {
                    let j = crate::sorted_map::key_index(nodes.pairs(), id);
                    assert(nodes.pairs()[j].0 == id);
                }
            }
        }
    }
    let ghost all = mutation_views(mutations@);
    let mut i: usize = 0;
    assert(all.skip(0) =~= all);
    while i < mutations.len()
        invariant
            i <= mutations.len(),
            all == mutation_views(mutations@),
            first_fault(nodes@.dom(), all) == first_fault(visible@, all.skip(i as int)),
        decreases mutations.len() - i,
    {
        let ghost rest = all.skip(i as int);
        proof {
            assert(rest[0] == mutations@[i as int]@);
            assert(rest.drop_first() =~= all.skip(i + 1));
        }
        match &mutations[i] {
            IndexMutation::PutNode(node) => {
                visible.insert(node.id);
            },
            IndexMutation::PutEdge(edge) => {
                if !visible.contains(&edge.source) {
                    let mut m = "edge source ".to_owned();
                    m.append(u64_to_decimal(edge.source).as_str());
                    m.append(" does not exist");
                    return Err(RepoError::InvalidTransaction(m));
                }
                if !visible.contains(&edge.target) {
                    let mut m = "edge target ".to_owned();
                    m.append(u64_to_decimal(edge.target).as_str());
                    m.append(" does not exist");
                    return Err(RepoError::InvalidTransaction(m));
                }
            },
            IndexMutation::DeleteNode(id) => {
                if !visible.remove(id) {
                    return Err(RepoError::NotFound);
                }
            },
        }
        i += 1;
    }
    Ok(())
}

/// A repository: the materialised state, the log that makes it durable, and
/// the snapshot directory where one is configured.
pub struct Repository<C: AtRestCipher> {
    wal: Wal<C>,
    state: MaterializedState,
    snapshot_manager: Option<SnapshotManager>,
}

impl<C: AtRestCipher> Repository<C> {
    /// The materialised state.
    pub closed spec fn state(&self) -> RepoState {
        self.state@
    }

    /// The lsn of the last record that was framed.
    pub closed spec fn lsn(&self) -> u64 {
        self.wal.lsn()
    }

    /// The cipher of the log.
    pub closed spec fn cipher(&self) -> C {
        self.wal.cipher()
    }

    /// The snapshot directory that is configured, if one is.
    pub closed spec fn snapshot_dir(&self) -> Option<Seq<char>> {
        match self.snapshot_manager {
            Some(m) => Some(m.dir_text()),
            None => None,
        }
    }

    /// Whether a snapshot directory is configured.
    pub open spec fn has_snapshots(&self) -> bool {
        self.snapshot_dir() is Some
    }

    /// An empty repository on the log `wal`, without replay and without
    /// snapshots.
    pub fn new(wal: Wal<C>) -> (r: Self)
        ensures
            r.state() == crate::state::empty_state(),
            r.lsn() == wal.lsn(),
            r.cipher() == wal.cipher(),
            r.snapshot_dir() is None,
    {
        Repository { wal, state: MaterializedState::empty(), snapshot_manager: None }
    }

    /// The materialised state, for reading.
    pub fn materialized(&self) -> (s: &MaterializedState)
        ensures
            s@ == self.state(),
    {
        &self.state
    }

    /// The snapshot directory, where one is configured.
    pub fn snapshot_manager(&self) -> (m: Option<&SnapshotManager>)
        ensures
            match m {
                Some(manager) => self.snapshot_dir() == Some(manager.dir_text()),
                None => self.snapshot_dir() is None,
            },
    {
        self.snapshot_manager.as_ref()
    }

    /// Validates a batch of mutations against the nodes that are visible now.
    pub fn validate_index_transaction(&self, mutations: &Vec<IndexMutation>) -> (r: Result<
        (),
        RepoError,
    >)
        ensures
            match r {
                Ok(()) => first_fault(self.state().nodes.dom(), mutation_views(mutations@))
                    is None,
                Err(e) => first_fault(
                    self.state().nodes.dom(),
                    mutation_views(mutations@),
                ) matches Some(f) && reports(e, f),
            },
    {
        validate_against(self.state.nodes(), mutations)
    }

    /// The first half of a transaction: validates the batch and frames its
    /// record `encoded` under the next lsn. The state stays as it is; the
    /// caller writes and flushes the returned bytes and then applies the batch
    /// with `commit_transaction`. An invalid batch gives out no lsn and no
    /// bytes. An empty batch needs no record.
    pub fn begin_transaction(&mut self, mutations: &Vec<IndexMutation>, encoded: &[u8]) -> (r:
        Result<Option<(u64, Vec<u8>)>, RepoError>)
        ensures
            final(self).state() == old(self).state(),
            final(self).cipher() == old(self).cipher(),
            final(self).snapshot_dir() == old(self).snapshot_dir(),
            match r {
                Ok(None) => mutations@.len() == 0 && final(self).lsn() == old(self).lsn(),
                Ok(Some((lsn, bytes))) => {
                    &&& mutations@.len() > 0
                    &&& first_fault(old(self).state().nodes.dom(), mutation_views(mutations@))
                        is None
                    &&& old(self).lsn() < u64::MAX
                    &&& lsn == old(self).lsn() + 1
                    &&& final(self).lsn() == lsn
                    &&& frames_payload(old(self).cipher(), lsn, bytes@, encoded@)
                },
                Err(e) => {
                    &&& mutations@.len() > 0
                    &&& final(self).lsn() == old(self).lsn()
                    &&& match first_fault(
                        old(self).state().nodes.dom(),
                        mutation_views(mutations@),
                    ) {
                        Some(f) => reports(e, f),
                        None => e is Wal,
                    }
                },
            },
    {
        if mutations.len() == 0 {
            return Ok(None);
        }
        match self.validate_index_transaction(mutations) {
            Err(e) => Err(e),
            Ok(()) => match self.wal.append(encoded) {
                Ok(framed) => Ok(Some(framed)),
                Err(e) => Err(RepoError::Wal(e)),
            },
        }
    }

    /// The second half of a transaction: applies the batch in order.
    pub fn commit_transaction(&mut self, mutations: Vec<IndexMutation>)
        ensures
            final(self).state() == apply_ops(old(self).state(), mutation_views(mutations@)),
            final(self).lsn() == old(self).lsn(),
            final(self).cipher() == old(self).cipher(),
            final(self).snapshot_dir() == old(self).snapshot_dir(),
    {
        self.state.apply_mutations(mutations);
    }

    /// Applies a batch of mutations as one transaction: all of them or none.
    /// `encoded` is the serialised record of the batch. On success the batch
    /// is applied in order and the bytes of its log record are returned (none
    /// for an empty batch). On failure nothing changes: the state and the lsn
    /// stay as they were, and no record is framed.
    pub fn apply_index_transaction(&mut self, mutations: Vec<IndexMutation>, encoded: &[u8]) -> (r:
        Result<Option<(u64, Vec<u8>)>, RepoError>)
        ensures
            final(self).cipher() == old(self).cipher(),
            final(self).snapshot_dir() == old(self).snapshot_dir(),
            match r {
                Ok(None) => mutations@.len() == 0 && final(self).lsn() == old(self).lsn()
                    && final(self).state() == old(self).state(),
                Ok(Some((lsn, bytes))) => {
                    &&& mutations@.len() > 0
                    &&& first_fault(old(self).state().nodes.dom(), mutation_views(mutations@))
                        is None
                    &&& final(self).state() == apply_ops(
                        old(self).state(),
                        mutation_views(mutations@),
                    )
                    &&& old(self).lsn() < u64::MAX
                    &&& lsn == old(self).lsn() + 1
                    &&& final(self).lsn() == lsn
                    &&& frames_payload(old(self).cipher(), lsn, bytes@, encoded@)
                },
                Err(e) => {
                    &&& mutations@.len() > 0
                    &&& final(self).state() == old(self).state()
                    &&& final(self).lsn() == old(self).lsn()
                    &&& match first_fault(
                        old(self).state().nodes.dom(),
                        mutation_views(mutations@),
                    ) {
                        Some(f) => reports(e, f),
                        None => e is Wal,
                    }
                },
            },
    {
        match self.begin_transaction(&mutations, encoded) {
            Err(e) => Err(e),
            Ok(None) => Ok(None),
            Ok(Some(framed)) => {
                self.commit_transaction(mutations);
                Ok(Some(framed))
            },
        }
    }

    /// Puts one node, as a transaction of one mutation.
    pub fn put_node(&mut self, node: Node, encoded: &[u8]) -> (r: Result<(u64, Vec<u8>), RepoError>)
        ensures
            final(self).cipher() == old(self).cipher(),
            final(self).snapshot_dir() == old(self).snapshot_dir(),
            match r {
                Ok((lsn, bytes)) => {
                    &&& final(self).state() == apply_op(old(self).state(), OpView::Put(node@))
                    &&& lsn == old(self).lsn() + 1
                    &&& final(self).lsn() == lsn
                    &&& frames_payload(old(self).cipher(), lsn, bytes@, encoded@)
                },
                Err(e) => final(self).state() == old(self).state() && final(self).lsn() == old(
                    self,
                ).lsn() && e is Wal,
            },
    {
        let ghost op = OpView::Put(node@);
        let mut batch: Vec<IndexMutation> = Vec::new();
        batch.push(IndexMutation::PutNode(node));
        proof {
            lemma_single(old(self).state(), mutation_views(batch@), op);
            assert(mutation_views(batch@).drop_first() =~= Seq::<OpView>::empty());
        }
        match self.apply_index_transaction(batch, encoded) {
            Ok(Some(framed)) => Ok(framed),
            Ok(None) => Err(RepoError::Serialization),
            Err(e) => Err(e),
        }
    }

    /// Puts one edge, as a transaction of one mutation. Both endpoints must be
    /// nodes of the repository.
    pub fn put_edge(&mut self, edge: Edge, encoded: &[u8]) -> (r: Result<(u64, Vec<u8>), RepoError>)
        ensures
            final(self).cipher() == old(self).cipher(),
            final(self).snapshot_dir() == old(self).snapshot_dir(),
            match r {
                Ok((lsn, bytes)) => {
                    &&& old(self).state().nodes.contains_key(edge.source)
                    &&& old(self).state().nodes.contains_key(edge.target)
                    &&& final(self).state() == apply_op(old(self).state(), OpView::PutEdge(edge@))
                    &&& lsn == old(self).lsn() + 1
                    &&& final(self).lsn() == lsn
                    &&& frames_payload(old(self).cipher(), lsn, bytes@, encoded@)
                },
                Err(e) => {
                    &&& final(self).state() == old(self).state()
                    &&& final(self).lsn() == old(self).lsn()
                    &&& if !old(self).state().nodes.contains_key(edge.source) {
                        reports(e, TxFault::MissingSource(edge.source))
                    } else if !old(self).state().nodes.contains_key(edge.target) {
                        reports(e, TxFault::MissingTarget(edge.target))
                    } else {
                        e is Wal
                    }
                },
            },
    {
        let ghost op = OpView::PutEdge(edge@);
        let mut batch: Vec<IndexMutation> = Vec::new();
        batch.push(IndexMutation::PutEdge(edge));
        proof {
            lemma_single(old(self).state(), mutation_views(batch@), op);
            assert(mutation_views(batch@).drop_first() =~= Seq::<OpView>::empty());
        }
        match self.apply_index_transaction(batch, encoded) {
            Ok(Some(framed)) => Ok(framed),
            Ok(None) => Err(RepoError::Serialization),
            Err(e) => Err(e),
        }
    }

    /// Deletes one node, as a transaction of one mutation. The node must
    /// exist.
    pub fn delete_node(&mut self, id: u64, encoded: &[u8]) -> (r: Result<(u64, Vec<u8>), RepoError>)
        ensures
            final(self).cipher() == old(self).cipher(),
            final(self).snapshot_dir() == old(self).snapshot_dir(),
            match r {
                Ok((lsn, bytes)) => {
                    &&& old(self).state().nodes.contains_key(id)
                    &&& final(self).state() == apply_op(old(self).state(), OpView::Delete(id))
                    &&& lsn == old(self).lsn() + 1
                    &&& final(self).lsn() == lsn
                    &&& frames_payload(old(self).cipher(), lsn, bytes@, encoded@)
                },
                Err(e) => {
                    &&& final(self).state() == old(self).state()
                    &&& final(self).lsn() == old(self).lsn()
                    &&& if !old(self).state().nodes.contains_key(id) {
                        e == RepoError::NotFound
                    } else {
                        e is Wal
                    }
                },
            },
    {
        let ghost op = OpView::Delete(id);
        let mut batch: Vec<IndexMutation> = Vec::new();
        batch.push(IndexMutation::DeleteNode(id));
        proof {
            lemma_single(old(self).state(), mutation_views(batch@), op);
            assert(mutation_views(batch@).drop_first() =~= Seq::<OpView>::empty());
        }
        match self.apply_index_transaction(batch, encoded) {
            Ok(Some(framed)) => Ok(framed),
            Ok(None) => Err(RepoError::Serialization),
            Err(e) => Err(e),
        }
    }

    /// Reads a log with the cipher of the repository: the intact records,
    /// decrypted, in log order. Nothing changes.
    pub fn read_log(&self, log: &[u8]) -> (r: Result<Replay, RepoError>)
        ensures
            match r {
                Ok(rep) => {
                    let s = scan(log@);
                    &&& !s.corrupt
                    &&& rep.valid_len == s.valid_len
                    &&& rep.records@.len() == s.frames.len()
                    &&& forall|i: int|
                        0 <= i < s.frames.len() ==> (#[trigger] rep.records@[i]).lsn
                            == s.frames[i].0 && self.cipher().opens(s.frames[i].1) == Some(
                            rep.records@[i].payload@,
                        )
                    &&& rep.last_lsn == last_lsn_of(s.frames)
                },
                Err(RepoError::Wal(WalError::Encryption(_))) => exists|i: int|
                    0 <= i < scan(log@).frames.len() && self.cipher().opens(
                        (#[trigger] scan(log@).frames[i]).1,
                    ) is None,
                Err(RepoError::Wal(WalError::CrcMismatch)) => scan(log@).corrupt,
                Err(_) => false,
            },
    {
        match self.wal.read_log(log) {
            Ok(rep) => Ok(rep),
            Err(e) => Err(RepoError::Wal(e)),
        }
    }

    /// The snapshot id of the current state: `wal-lsn-<N>` for the lsn `N` of
    /// the last record.
    pub fn current_snapshot_id(&self) -> (id: String)
        ensures
            id@ == snapshot_id_of(self.lsn()),
    {
        snapshot_id_for(self.wal.current_lsn())
    }

    /// The lsn of the last record.
    pub fn current_lsn(&self) -> (n: u64)
        ensures
            n == self.lsn(),
    {
        self.wal.current_lsn()
    }
}

impl<C: AtRestCipher> Repository<C> {
    /// The node stored under `id`.
    pub fn get_node(&self, id: u64) -> (r: Result<Node, RepoError>)
        ensures
            match r {
                Ok(n) => self.state().nodes.contains_key(id) && n@ == self.state().nodes[id],
                Err(e) => !self.state().nodes.contains_key(id) && e == RepoError::NotFound,
            },
    {
        match self.state.get_node(id) {
            Some(n) => Ok(n),
            None => Err(RepoError::NotFound),
        }
    }

    /// The ids of the nodes, in increasing order.
    pub fn list_node_ids(&self) -> (out: Vec<u64>)
        ensures
            strictly_sorted::<u64>(out@),
            forall|id: u64| out@.contains(id) <==> self.state().nodes.contains_key(id),
    {
        self.state.list_node_ids()
    }

    /// The nodes stored under the given ids, ordered by id.
    pub fn get_nodes_by_ids(&self, ids: &[u64]) -> (out: Vec<Node>)
        ensures
            out@.len() == sorted_ids(known_ids(self.state().nodes, ids@)).len(),
            forall|i: int|
                0 <= i < out@.len() ==> {
                    let id = #[trigger] sorted_ids(known_ids(self.state().nodes, ids@))[i];
                    self.state().nodes.contains_key(id) && out@[i]@ == self.state().nodes[id]
                },
    {
        self.state.get_nodes_by_ids(ids)
    }

    /// The dimension of the embeddings: that of the node with the least id
    /// among the nodes that have an embedding.
    pub fn embedding_dimension(&self) -> (r: Option<usize>)
        ensures
            match r {
                Some(d) => is_first_dimension(self.state().nodes, d),
                None => forall|id: u64|
                    self.state().nodes.contains_key(id) ==> (
                    #[trigger] self.state().nodes[id]).embedding.len() == 0,
            },
    {
        self.state.embedding_dimension()
    }

    /// The node ids recorded under the idempotency key `key`, if any.
    pub fn check_idempotency(&self, key: &str) -> (r: Option<Vec<u64>>)
        ensures
            match r {
                Some(ids) => self.state().idempotency.contains_key(key@) && ids@
                    == self.state().idempotency[key@],
                None => !self.state().idempotency.contains_key(key@),
            },
    {
        self.state.check_idempotency(key)
    }

    /// The first half of recording an idempotency key: frames the record
    /// `encoded` under the next lsn, unless the key is recorded already. The
    /// state stays as it is; the caller writes and flushes the returned bytes
    /// and then records the key with `commit_idempotency`.
    pub fn begin_idempotency(&mut self, key: &str, encoded: &[u8]) -> (r: Result<
        Option<(u64, Vec<u8>)>,
        RepoError,
    >)
        ensures
            final(self).state() == old(self).state(),
            final(self).cipher() == old(self).cipher(),
            final(self).snapshot_dir() == old(self).snapshot_dir(),
            match r {
                Ok(None) => old(self).state().idempotency.contains_key(key@) && final(self).lsn()
                    == old(self).lsn(),
                Ok(Some((lsn, bytes))) => {
                    &&& !old(self).state().idempotency.contains_key(key@)
                    &&& lsn == old(self).lsn() + 1
                    &&& final(self).lsn() == lsn
                    &&& frames_payload(old(self).cipher(), lsn, bytes@, encoded@)
                },
                Err(e) => !old(self).state().idempotency.contains_key(key@) && final(self).lsn()
                    == old(self).lsn() && e is Wal,
            },
    {
        if self.state.check_idempotency(key).is_some() {
            return Ok(None);
        }
        match self.wal.append(encoded) {
            Err(e) => Err(RepoError::Wal(e)),
            Ok(framed) => Ok(Some(framed)),
        }
    }

    /// The second half of recording an idempotency key: records `node_ids`
    /// under `key`, unless the key is recorded already.
    pub fn commit_idempotency(&mut self, key: &str, node_ids: Vec<u64>)
        ensures
            final(self).lsn() == old(self).lsn(),
            final(self).cipher() == old(self).cipher(),
            final(self).snapshot_dir() == old(self).snapshot_dir(),
            final(self).state() == (if old(self).state().idempotency.contains_key(key@) {
                old(self).state()
            } else {
                RepoState {
                    idempotency: old(self).state().idempotency.insert(key@, node_ids@),
                    ..old(self).state()
                }
            }),
    {
        if self.state.check_idempotency(key).is_none() {
            self.state.record_idempotency(key, node_ids);
        }
    }

    /// Records `node_ids` under the idempotency key `key`, once: where the key
    /// is recorded already nothing changes and no record is framed. Else the
    /// record `encoded` is framed under the next lsn and the key is recorded;
    /// the caller writes and flushes the returned bytes.
    pub fn record_idempotency(&mut self, key: &str, node_ids: Vec<u64>, encoded: &[u8]) -> (r:
        Result<Option<(u64, Vec<u8>)>, RepoError>)
        ensures
            final(self).cipher() == old(self).cipher(),
            final(self).snapshot_dir() == old(self).snapshot_dir(),
            match r {
                Ok(None) => old(self).state().idempotency.contains_key(key@) && final(self).state()
                    == old(self).state() && final(self).lsn() == old(self).lsn(),
                Ok(Some((lsn, bytes))) => {
                    &&& !old(self).state().idempotency.contains_key(key@)
                    &&& final(self).state() == (RepoState {
                        idempotency: old(self).state().idempotency.insert(key@, node_ids@),
                        ..old(self).state()
                    })
                    &&& lsn == old(self).lsn() + 1
                    &&& final(self).lsn() == lsn
                    &&& frames_payload(old(self).cipher(), lsn, bytes@, encoded@)
                },
                Err(e) => !old(self).state().idempotency.contains_key(key@) && final(self).state()
                    == old(self).state() && final(self).lsn() == old(self).lsn() && e is Wal,
            },
    {
        if self.state.check_idempotency(key).is_some() {
            return Ok(None);
        }
        match self.wal.append(encoded) {
            Err(e) => Err(RepoError::Wal(e)),
            Ok(framed) => {
                self.state.record_idempotency(key, node_ids);
                Ok(Some(framed))
            },
        }
    }

    /// The metadata of the edge `(source, target, relation)`; empty where none
    /// is stored.
    pub fn get_edge_metadata(&self, source: u64, target: u64, relation: &str) -> (m: Metadata)
        ensures
            m@ == if self.state().edge_metadata.contains_key((source, target, relation@)) {
                self.state().edge_metadata[(source, target, relation@)]
            } else {
                Map::<Seq<char>, Seq<char>>::empty()
            },
    {
        self.state.get_edge_metadata(source, target, relation)
    }

    /// The metadata of the edges with the given logical keys, for the keys
    /// that have any.
    pub fn get_edge_metadata_bulk(&self, keys: &Vec<EdgeMetaKey>) -> (out: SortedMap<
        EdgeMetaKey,
        Metadata,
    >)
        ensures
            out@ == meta_for(self.state().edge_metadata, keys@),
    {
        self.state.get_edge_metadata_bulk(keys)
    }

    /// The full state at the current lsn, for a backup snapshot file. Fails
    /// where no snapshot directory is configured.
    pub fn create_backup_snapshot(&self) -> (r: Result<RepositoryBackupSnapshot, RepoError>)
        ensures
            match r {
                Ok(b) => self.has_snapshots() && is_backup_of(self.state(), self.lsn(), b),
                Err(e) => !self.has_snapshots() && e == RepoError::SnapshotNotConfigured,
            },
    {
        if self.snapshot_manager.is_none() {
            return Err(RepoError::SnapshotNotConfigured);
        }
        Ok(backup_of(&self.state, self.wal.current_lsn()))
    }
}

/// Whether `b` is the backup snapshot of the state `s` at `lsn`: it lists the
/// nodes by id, the edges by logical key, the idempotency records by key and
/// the edge metadata by logical key, each in increasing order and each
/// complete.
pub open spec fn is_backup_of(s: RepoState, lsn: u64, b: RepositoryBackupSnapshot) -> bool {
    &&& b.lsn == lsn
    &&& forall|i: int, j: int|
        0 <= i < j < b.nodes@.len() ==> (#[trigger] b.nodes@[i]).id < (#[trigger] b.nodes@[j]).id
    &&& forall|i: int|
        0 <= i < b.nodes@.len() ==> s.nodes.contains_key((#[trigger] b.nodes@[i]).id)
            && s.nodes[b.nodes@[i].id] == b.nodes@[i]@
    &&& forall|id: u64|
        s.nodes.contains_key(id) ==> exists|i: int|
            0 <= i < b.nodes@.len() && (#[trigger] b.nodes@[i]).id == id
    &&& is_edge_backup(s.index.edges, b.edges@)
    &&& forall|i: int, j: int|
        0 <= i < j < b.idempotency@.len() ==> crate::text::lex_lt(
            (#[trigger] b.idempotency@[i]).key@,
            (#[trigger] b.idempotency@[j]).key@,
        )
    &&& forall|i: int|
        0 <= i < b.idempotency@.len() ==> s.idempotency.contains_key(
            (#[trigger] b.idempotency@[i]).key@,
        ) && s.idempotency[b.idempotency@[i].key@] == b.idempotency@[i].node_ids@
    &&& forall|k: Seq<char>|
        s.idempotency.contains_key(k) ==> exists|i: int|
            0 <= i < b.idempotency@.len() && (#[trigger] b.idempotency@[i]).key@ == k
    &&& forall|i: int, j: int|
        0 <= i < j < b.edge_metadata@.len() ==> <EdgeMetaKey as Ranked>::key_lt(
            meta_record_key(#[trigger] b.edge_metadata@[i]),
            meta_record_key(#[trigger] b.edge_metadata@[j]),
        )
    &&& forall|i: int|
        0 <= i < b.edge_metadata@.len() ==> s.edge_metadata.contains_key(
            meta_record_key(#[trigger] b.edge_metadata@[i]),
        ) && s.edge_metadata[meta_record_key(b.edge_metadata@[i])] == b.edge_metadata@[i].metadata@
    &&& forall|k: (u64, u64, Seq<char>)|
        s.edge_metadata.contains_key(k) ==> exists|i: int|
            0 <= i < b.edge_metadata@.len() && meta_record_key(#[trigger] b.edge_metadata@[i])
                == k
}

/// The logical key of the edge that a metadata record belongs to.
pub open spec fn meta_record_key(r: BackupEdgeMetadataRecord) -> (u64, u64, Seq<char>) {
    (r.source, r.target, r.relation@)
}

/// The backup snapshot of `state` at `lsn`.
pub fn backup_of(state: &MaterializedState, lsn: u64) -> (b: RepositoryBackupSnapshot)
    ensures
        is_backup_of(state@, lsn, b),
{
    let node_map = state.nodes();
    let n = node_map.len();
    let mut nodes: Vec<Node> = Vec::new();
    let mut i: usize = 0;
    while i < n
        invariant
            n == node_map.pairs().len(),
            i <= n,
            nodes@.len() == i,
            forall|id: u64| node_map@.contains_key(id) ==> (#[trigger] node_map@[id]).id == id,
            forall|j: int|
                0 <= j < i ==> (#[trigger] nodes@[j])@ == node_map.pairs()[j].1 && node_map@[node_map.pairs()[j].0]
                    == nodes@[j]@ && node_map@.contains_key(node_map.pairs()[j].0),
        decreases n - i,
    {
        nodes.push(node_map.value_at(i).duplicate());
        i += 1;
    }
    let edges = collect_backup_edges(state);
    let idem_map = state.idempotency_index();
    let ni = idem_map.len();
    let mut idempotency: Vec<BackupIdempotencyRecord> = Vec::new();
    let mut k: usize = 0;
    while k < ni
        invariant
            ni == idem_map.pairs().len(),
            k <= ni,
            idempotency@.len() == k,
            forall|j: int|
                0 <= j < k ==> (#[trigger] idempotency@[j]).key@ == idem_map.pairs()[j].0
                    && idempotency@[j].node_ids@ == idem_map.pairs()[j].1,
        decreases ni - k,
    {
        idempotency.push(
            BackupIdempotencyRecord {
                key: idem_map.key_at(k).clone(),
                node_ids: idem_map.value_at(k).duplicate(),
            },
        );
        k += 1;
    }
    let meta_map = state.edge_metadata();
    let nm = meta_map.len();
    let mut edge_metadata: Vec<BackupEdgeMetadataRecord> = Vec::new();
    let mut l: usize = 0;
    while l < nm
        invariant
            nm == meta_map.pairs().len(),
            l <= nm,
            edge_metadata@.len() == l,
            forall|j: int|
                0 <= j < l ==> meta_record_key(#[trigger] edge_metadata@[j])
                    == meta_map.pairs()[j].0 && edge_metadata@[j].metadata@
                    == meta_map.pairs()[j].1,
        decreases nm - l,
    {
        let key = meta_map.key_at(l);
        edge_metadata.push(
            BackupEdgeMetadataRecord {
                source: key.0,
                target: key.1,
                relation: key.2.clone(),
                metadata: meta_map.value_at(l).duplicate(),
            },
        );
        l += 1;
    }
    let b = RepositoryBackupSnapshot { lsn, nodes, edges, idempotency, edge_metadata };
    proof {
        let s = state@;
        let np = node_map.pairs();
        let ip = idem_map.pairs();
        let mp = meta_map.pairs();
        assert forall|j: int| 0 <= j < np.len() implies (#[trigger] b.nodes@[j]).id == np[j].0 by {
            crate::sorted_map::lemma_pairs_map_at::<u64, NodeView>(np, j);
            assert(b.nodes@[j]@ == np[j].1);
        }
        assert forall|a: int, c: int| 0 <= a < c < b.nodes@.len() implies (#[trigger] b.nodes@[a]).id
            < (#[trigger] b.nodes@[c]).id by {
            assert(<u64 as Ranked>::key_lt(np[a].0, np[c].0));
        }
        assert forall|id: u64| s.nodes.contains_key(id) implies exists|j: int|
            0 <= j < b.nodes@.len() && (#[trigger] b.nodes@[j]).id == id by {
            let j = crate::sorted_map::key_index(np, id);
            assert(b.nodes@[j].id == id);
        }
        assert forall|a: int, c: int| 0 <= a < c < b.idempotency@.len() implies crate::text::lex_lt(
            (#[trigger] b.idempotency@[a]).key@,
            (#[trigger] b.idempotency@[c]).key@,
        ) by {
            assert(<String as Ranked>::key_lt(ip[a].0, ip[c].0));
        }
        assert forall|j: int| 0 <= j < b.idempotency@.len() implies s.idempotency.contains_key(
            (#[trigger] b.idempotency@[j]).key@,
        ) && s.idempotency[b.idempotency@[j].key@] == b.idempotency@[j].node_ids@ by {
            crate::sorted_map::lemma_pairs_map_at::<String, Seq<u64>>(ip, j);
        }
        assert forall|key: Seq<char>| s.idempotency.contains_key(key) implies exists|j: int|
            0 <= j < b.idempotency@.len() && (#[trigger] b.idempotency@[j]).key@ == key by {
            let j = crate::sorted_map::key_index(ip, key);
            assert(b.idempotency@[j].key@ == key);
        }
        assert forall|a: int, c: int| 0 <= a < c < b.edge_metadata@.len() implies <EdgeMetaKey as Ranked>::key_lt(
            meta_record_key(#[trigger] b.edge_metadata@[a]),
            meta_record_key(#[trigger] b.edge_metadata@[c]),
        ) by {
            assert(<EdgeMetaKey as Ranked>::key_lt(mp[a].0, mp[c].0));
        }
        assert forall|j: int| 0 <= j < b.edge_metadata@.len() implies s.edge_metadata.contains_key(
            meta_record_key(#[trigger] b.edge_metadata@[j]),
        ) && s.edge_metadata[meta_record_key(b.edge_metadata@[j])]
            == b.edge_metadata@[j].metadata@ by {
            crate::sorted_map::lemma_pairs_map_at::<EdgeMetaKey, Map<Seq<char>, Seq<char>>>(mp, j);
        }
        assert forall|key: (u64, u64, Seq<char>)|
            s.edge_metadata.contains_key(key) implies exists|j: int|
            0 <= j < b.edge_metadata@.len() && meta_record_key(#[trigger] b.edge_metadata@[j])
                == key by {
            let j = crate::sorted_map::key_index(mp, key);
            assert(meta_record_key(b.edge_metadata@[j]) == key);
        }
    }
    b
}

/// The base of a materialisation: the state of the selected backup snapshot
/// with its lsn, or the empty state with lsn 0 where none was selected.
pub open spec fn base_of(selected: Option<(u64, RepositoryBackupSnapshot)>) -> (RepoState, u64) {
    match selected {
        Some((lsn, b)) => (backup_state(b), lsn),
        None => (empty_state(), 0),
    }
}

/// Builds the base of a materialisation from the backup snapshot that was
/// selected: the snapshot that the file named for `lsn` holds. Fails where the
/// snapshot does not carry the lsn of its file name.
pub fn load_materialized_state_from_backup(
    selected: &Option<(u64, RepositoryBackupSnapshot)>,
) -> (r: Result<(MaterializedState, u64), RepoError>)
    ensures
        match r {
            Ok((state, lsn)) => (state@, lsn) == base_of(*selected) && (selected matches Some(
                (file_lsn, b),
            ) ==> b.lsn == file_lsn),
            Err(e) => e == RepoError::Deserialization && (selected matches Some((file_lsn, b))
                && b.lsn != file_lsn),
        },
{
    match selected {
        None => Ok((MaterializedState::empty(), 0)),
        Some((file_lsn, snapshot)) => {
            if snapshot.lsn != *file_lsn {
                return Err(RepoError::Deserialization);
            }
            Ok((state_from_backup(snapshot), *file_lsn))
        },
    }
}

/// An immutable view of the state at one snapshot id.
#[derive(Debug, PartialEq, Eq)]
pub struct SnapshotView {
    snapshot_id: String,
    state: MaterializedState,
}

impl SnapshotView {
    /// The snapshot id, as characters.
    pub closed spec fn id_text(&self) -> Seq<char> {
        self.snapshot_id@
    }

    /// The state that the view shows.
    pub closed spec fn state(&self) -> RepoState {
        self.state@
    }

    /// The snapshot id that the view was made for.
    pub fn snapshot_id(&self) -> (id: &str)
        ensures
            id@ == self.id_text(),
    {
        self.snapshot_id.as_str()
    }

    /// The materialised state of the view, for reading.
    pub fn materialized(&self) -> (s: &MaterializedState)
        ensures
            s@ == self.state(),
            s.vector_pairs() == self.vector_pairs(),
    {
        &self.state
    }

    /// The ids of the nodes, in increasing order.
    pub fn list_node_ids(&self) -> (out: Vec<u64>)
        ensures
            strictly_sorted::<u64>(out@),
            forall|id: u64| out@.contains(id) <==> self.state().nodes.contains_key(id),
    {
        self.state.list_node_ids()
    }

    /// The nodes stored under the given ids, ordered by id.
    pub fn get_nodes_by_ids(&self, ids: &[u64]) -> (out: Vec<Node>)
        ensures
            out@.len() == sorted_ids(known_ids(self.state().nodes, ids@)).len(),
            forall|i: int|
                0 <= i < out@.len() ==> {
                    let id = #[trigger] sorted_ids(known_ids(self.state().nodes, ids@))[i];
                    self.state().nodes.contains_key(id) && out@[i]@ == self.state().nodes[id]
                },
    {
        self.state.get_nodes_by_ids(ids)
    }

    /// The dimension of the embeddings: that of the node with the least id
    /// among the nodes that have an embedding.
    pub fn embedding_dimension(&self) -> (r: Option<usize>)
        ensures
            match r {
                Some(d) => is_first_dimension(self.state().nodes, d),
                None => forall|id: u64|
                    self.state().nodes.contains_key(id) ==> (
                    #[trigger] self.state().nodes[id]).embedding.len() == 0,
            },
    {
        self.state.embedding_dimension()
    }

    /// The entries of the vector index in increasing order of id: the list of
    /// the vectors of the state.
    pub closed spec fn vector_pairs(&self) -> Seq<(u64, Seq<u32>)> {
        self.state.vector_pairs()
    }

    /// The `k` entries of the view most similar to `query`; see
    /// `LinearAnnIndex::search`.
    pub fn search_vector(&self, query: &Vec<u32>, similarities: &Vec<u32>, k: usize) -> (out: Vec<
        (u64, u32),
    >)
        requires
            similarities@.len() == self.vector_pairs().len(),
        ensures
            lists_entries(self.vector_pairs(), self.state().index.vectors),
            out@ == top_ranked(scored_entries(self.vector_pairs(), query@, similarities@), k as int),
            out@.len() <= k,
    {
        self.state.search_vector(query, similarities, k)
    }

    /// The edges that start at `node_id`, as `(target, relation, weight)`.
    pub fn neighbors(&self, node_id: u64) -> (out: Vec<EdgeData>)
        ensures
            out@.len() == outgoing(self.state().index.edges, node_id).len(),
            forall|i: int|
                0 <= i < out@.len() ==> {
                    let e = #[trigger] outgoing(self.state().index.edges, node_id)[i];
                    out@[i].0 == e.target && out@[i].1@ == e.relation && out@[i].2 == e.weight
                },
    {
        self.state.hyper_index().graph_index().neighbors(node_id)
    }

    /// The metadata of the edges with the given logical keys, for the keys
    /// that have any.
    pub fn get_edge_metadata_bulk(&self, keys: &Vec<EdgeMetaKey>) -> (out: SortedMap<
        EdgeMetaKey,
        Metadata,
    >)
        ensures
            out@ == meta_for(self.state().edge_metadata, keys@),
    {
        self.state.get_edge_metadata_bulk(keys)
    }
}

/// What `open_internal` returns for a log whose last lsn is `last_lsn`.
pub open spec fn opened_state(
    selected: Option<(u64, RepositoryBackupSnapshot)>,
    entries: Seq<(u64, WalEntry)>,
) -> RepoState {
    replay_range(base_of(selected).0, entry_views(entries), base_of(selected).1, u64::MAX)
}

impl<C: AtRestCipher> Repository<C> {
    /// Opens a repository on a log that was replayed: `wal` is the log after
    /// `Wal::replay`, `entries` are its decoded records with their lsns, and
    /// `selected` is the latest backup snapshot with the lsn of its file name,
    /// where snapshots are configured and one exists. The state is that of the
    /// snapshot with the later records replayed onto it. Fails where the
    /// snapshot is newer than the log.
    pub fn open_internal(
        wal: Wal<C>,
        snapshot_manager: Option<SnapshotManager>,
        selected: &Option<(u64, RepositoryBackupSnapshot)>,
        entries: &Vec<(u64, WalEntry)>,
    ) -> (r: Result<Self, RepoError>)
        ensures
            match r {
                Ok(repo) => {
                    &&& repo.state() == opened_state(*selected, entries@)
                    &&& repo.lsn() == wal.lsn()
                    &&& repo.cipher() == wal.cipher()
                    &&& repo.snapshot_dir() == (match snapshot_manager {
                        Some(m) => Some(m.dir_text()),
                        None => None,
                    })
                    &&& base_of(*selected).1 <= wal.lsn()
                    &&& selected matches Some((file_lsn, b)) ==> b.lsn == file_lsn
                },
                Err(e) => match selected {
                    Some((file_lsn, b)) => if b.lsn != file_lsn {
                        e == RepoError::Deserialization
                    } else {
                        file_lsn > wal.lsn() && (e matches RepoError::SnapshotNotFound(id) && id@
                            == snapshot_id_of(*file_lsn))
                    },
                    None => false,
                },
            },
    {
        match load_materialized_state_from_backup(selected) {
            Err(e) => Err(e),
            Ok((state, base_lsn)) => {
                let mut state = state;
                state.replay(entries, base_lsn, u64::MAX);
                if base_lsn > wal.current_lsn() {
                    return Err(RepoError::SnapshotNotFound(snapshot_id_for(base_lsn)));
                }
                Ok(Repository { wal, state, snapshot_manager })
            },
        }
    }

    /// The lsn that a snapshot id names, where the id is well formed and not
    /// beyond the log.
    pub fn resolve_snapshot_lsn(&self, snapshot_id: &str) -> (r: Result<u64, RepoError>)
        ensures
            match r {
                Ok(lsn) => wal_snapshot_lsn(snapshot_id@) == Some(lsn) && lsn <= self.lsn(),
                Err(e) => match wal_snapshot_lsn(snapshot_id@) {
                    None => e matches RepoError::InvalidSnapshotId(id) && id@ == snapshot_id@,
                    Some(lsn) => lsn > self.lsn() && (e matches RepoError::SnapshotNotFound(id)
                        && id@ == snapshot_id@),
                },
            },
    {
        match parse_wal_snapshot_lsn(snapshot_id) {
            None => Err(RepoError::InvalidSnapshotId(snapshot_id.to_owned())),
            Some(lsn) => {
                if lsn > self.wal.current_lsn() {
                    Err(RepoError::SnapshotNotFound(snapshot_id.to_owned()))
                } else {
                    Ok(lsn)
                }
            },
        }
    }

    /// Materialises the read view at `snapshot_id`: the state of the backup
    /// snapshot `selected` (the latest at or before the lsn of the id, where
    /// there is one) with the records of `entries` replayed onto it up to and
    /// including that lsn. Fails with `InvalidSnapshotId` on a malformed id and
    /// with `SnapshotNotFound` on an lsn beyond the log.
    pub fn load_snapshot_view(
        &self,
        snapshot_id: &str,
        selected: &Option<(u64, RepositoryBackupSnapshot)>,
        entries: &Vec<(u64, WalEntry)>,
    ) -> (r: Result<SnapshotView, RepoError>)
        ensures
            match r {
                Ok(view) => {
                    &&& wal_snapshot_lsn(snapshot_id@) matches Some(target)
                    &&& target <= self.lsn()
                    &&& view.id_text() == snapshot_id@
                    &&& view.state() == replay_range(
                        base_of(*selected).0,
                        entry_views(entries@),
                        base_of(*selected).1,
                        target,
                    )
                    &&& selected matches Some((file_lsn, b)) ==> b.lsn == file_lsn
                },
                Err(e) => match wal_snapshot_lsn(snapshot_id@) {
                    None => e matches RepoError::InvalidSnapshotId(id) && id@ == snapshot_id@,
                    Some(lsn) => if lsn > self.lsn() {
                        e matches RepoError::SnapshotNotFound(id) && id@ == snapshot_id@
                    } else {
                        e == RepoError::Deserialization && (selected matches Some((file_lsn, b))
                            && b.lsn != file_lsn)
                    },
                },
            },
    {
        match self.resolve_snapshot_lsn(snapshot_id) {
            Err(e) => Err(e),
            Ok(target) => match load_materialized_state_from_backup(selected) {
                Err(e) => Err(e),
                Ok((state, base_lsn)) => {
                    let mut state = state;
                    state.replay(entries, base_lsn, target);
                    Ok(SnapshotView { snapshot_id: snapshot_id.to_owned(), state })
                },
            },
        }
    }

    /// Rebuilds the state from the latest backup snapshot `selected` and the
    /// records of `entries` up to the current lsn, and returns the snapshot id
    /// of the restored state. Fails, and changes nothing, where no snapshot
    /// directory is configured or the snapshot does not carry the lsn of its
    /// file name.
    pub fn restore_from_latest_backup(
        &mut self,
        selected: &Option<(u64, RepositoryBackupSnapshot)>,
        entries: &Vec<(u64, WalEntry)>,
    ) -> (r: Result<String, RepoError>)
        ensures
            final(self).lsn() == old(self).lsn(),
            final(self).cipher() == old(self).cipher(),
            final(self).snapshot_dir() == old(self).snapshot_dir(),
            match r {
                Ok(id) => {
                    &&& old(self).has_snapshots()
                    &&& id@ == snapshot_id_of(old(self).lsn())
                    &&& final(self).state() == replay_range(
                        base_of(*selected).0,
                        entry_views(entries@),
                        base_of(*selected).1,
                        old(self).lsn(),
                    )
                },
                Err(e) => final(self).state() == old(self).state() && if !old(
                    self,
                ).has_snapshots() {
                    e == RepoError::SnapshotNotConfigured
                } else {
                    e == RepoError::Deserialization && (selected matches Some((file_lsn, b))
                        && b.lsn != file_lsn)
                },
            },
    {
        if self.snapshot_manager.is_none() {
            return Err(RepoError::SnapshotNotConfigured);
        }
        let target = self.wal.current_lsn();
        match load_materialized_state_from_backup(selected) {
            Err(e) => Err(e),
            Ok((state, base_lsn)) => {
                let mut state = state;
                state.replay(entries, base_lsn, target);
                self.state = state;
                Ok(snapshot_id_for(target))
            },
        }
    }

    /// Configures the snapshot directory.
    pub fn set_snapshot_manager(&mut self, manager: SnapshotManager)
        ensures
            final(self).snapshot_dir() == Some(manager.dir_text()),
            final(self).state() == old(self).state(),
            final(self).lsn() == old(self).lsn(),
            final(self).cipher() == old(self).cipher(),
    {
        self.snapshot_manager = Some(manager);
    }
}

/// Applying a batch of one mutation applies that mutation, and the batch is
/// at fault exactly if the mutation is.
pub proof fn lemma_single(s: RepoState, ops: Seq<OpView>, op: OpView)
    requires
        ops.len() == 1,
        ops[0] == op,
    ensures
        apply_ops(s, ops) == apply_op(s, op),
        first_fault(s.nodes.dom(), ops) == match op {
            OpView::Put(n) => None,
            OpView::PutEdge(e) => if !s.nodes.contains_key(e.source) {
                Some(TxFault::MissingSource(e.source))
            } else if !s.nodes.contains_key(e.target) {
                Some(TxFault::MissingTarget(e.target))
            } else {
                None
            },
            OpView::Delete(id) => if !s.nodes.contains_key(id) {
                Some(TxFault::MissingNode)
            } else {
                None
            },
        },
{
    assert(ops.drop_last() =~= Seq::<OpView>::empty());
    assert(apply_ops(s, ops.drop_last()) == s);
    let rest = ops.drop_first();
    assert(rest.len() == 0);
    let v = s.nodes.dom();
    match op {
        OpView::Put(n) => {
            assert(first_fault(v.insert(n.id), rest) is None);
        },
        OpView::PutEdge(e) => {
            assert(first_fault(v, rest) is None);
        },
        OpView::Delete(id) => {
            assert(first_fault(v.remove(id), rest) is None);
        },
    }
}

} // verus!
