//! Jobs for the extraction worker.

use vstd::prelude::*;

verus! {

/// A job.
#[derive(Debug, PartialEq, Eq)]
pub enum Job {
    /// Extract the entities of the text of a node, with the given model, and
    /// stamp what is written with the given snapshot id.
    ExtractEntities { node_id: u64, content: String, model_id: String, snapshot_id: String },
}

/// Where jobs are handed in.
pub trait JobQueue {
    fn enqueue(&mut self, job: Job) -> (r: Result<(), String>);
}

} // verus!
