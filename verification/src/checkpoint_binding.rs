//! Checkpoint-to-state binding for model-state reuse across graph retries.
//!
//! When a graph node uses a local model executor, each checkpoint can be
//! bound to a model state ID. On retry, the pre-call state is forked so the
//! retry starts from the same model state without replaying non-idempotent
//! side effects.
//!
//! Safety invariants:
//! - A parser/model retry may fork from a pre-call state but must never
//!   replay a completed non-idempotent tool.
//! - Model-state rollback must never rewind transcript/effect truth.
//! - Only lease digests may appear in receipts; never bearer secrets.
use vstd::prelude::*;

verus! {

/// Links a graph checkpoint to a model state for replay.
#[derive(Debug, Clone, PartialEq, Eq)]
pub struct CheckpointStateBinding {
    /// Graph run identifier.
    pub run_id: String,
    /// Graph node identifier.
    pub node_id: String,
    /// Monotonic attempt counter (0 = first attempt).
    pub attempt_id: u64,
    /// Model state ID at the point of this checkpoint.
    pub state_id: String,
    /// Lease digest (non-replayable, safe for logs/receipts).
    pub lease_digest: String,
    /// Tool idempotency key for the effect that follows this checkpoint,
    /// if any. A parser retry must not replay a non-idempotent tool.
    pub tool_idempotency_key: Option<String>,
    /// Whether the tool after this checkpoint has been committed.
    pub tool_committed: bool,
}

impl CheckpointStateBinding {
    /// The tool after this checkpoint is committed and not idempotent.
    pub open spec fn commits_non_idempotent(&self) -> bool {
        self.tool_committed && self.tool_idempotency_key is None
    }

    /// True if this checkpoint precedes a non-idempotent tool that has
    /// already been committed. In that case, a model retry must not
    /// replay the tool.
    pub fn blocks_retry(&self) -> (r: bool)
        ensures
            r == self.commits_non_idempotent(),
    {
        self.tool_committed && self.tool_idempotency_key.is_none()
    }

    /// True if the tool is safe to replay (idempotent or not yet
    /// committed).
    pub fn allows_retry(&self) -> (r: bool)
        ensures
            r == (!self.tool_committed || self.tool_idempotency_key is Some),
    {
        !self.tool_committed || self.tool_idempotency_key.is_some()
    }
}

/// Retry is allowed exactly when it is not blocked: no checkpoint both
/// allows and blocks a retry, and every checkpoint does one of the two.
pub proof fn lemma_retry_allowed_iff_not_blocked(b: CheckpointStateBinding)
    ensures
        (!b.tool_committed || b.tool_idempotency_key is Some) == !b.commits_non_idempotent(),
{
}

/// A joined lineage receipt for a graph node execution that used
/// model-state reuse.
#[derive(Debug, Clone)]
pub struct StateBoundExecutionReceipt {
    /// Node execution lineage.
    pub run_id: String,
    pub node_id: String,
    pub attempt_id: u64,
    /// Checkpoint identity.
    pub checkpoint_id: String,
    /// Model state IDs for pre-call and post-call states.
    pub pre_call_state_id: String,
    pub post_call_state_id: Option<String>,
    /// Lease digest (non-replayable).
    pub lease_digest: String,
    /// Tool execution metadata.
    pub tool_idempotency_key: Option<String>,
    pub tool_committed: bool,
    /// Parser outcome: did the model output parse successfully?
    pub parser_outcome: Option<String>,
    /// Effect receipt digest, if a tool was executed.
    pub effect_receipt_digest: Option<String>,
    /// Whether this execution was a retry.
    pub is_retry: bool,
    /// If this is a retry, which attempt was retried.
    pub retry_of_attempt: Option<u64>,
}

} // verus!
