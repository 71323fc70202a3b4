use agent_graph_mcp::checkpoint_binding::{CheckpointStateBinding, StateBoundExecutionReceipt};

#[test]
fn uncommitted_checkpoint_allows_retry() {
    let binding = CheckpointStateBinding {
        run_id: "r1".into(),
        node_id: "n1".into(),
        attempt_id: 0,
        state_id: "state-1".into(),
        lease_digest: "digest-1".into(),
        tool_idempotency_key: None,
        tool_committed: false,
    };
    assert!(binding.allows_retry());
    assert!(!binding.blocks_retry());
}

#[test]
fn idempotent_committed_tool_allows_retry() {
    let binding = CheckpointStateBinding {
        run_id: "r1".into(),
        node_id: "n1".into(),
        attempt_id: 0,
        state_id: "state-1".into(),
        lease_digest: "digest-1".into(),
        tool_idempotency_key: Some("idem-key-1".into()),
        tool_committed: true,
    };
    assert!(binding.allows_retry());
    assert!(!binding.blocks_retry());
}

#[test]
fn non_idempotent_committed_tool_blocks_retry() {
    let binding = CheckpointStateBinding {
        run_id: "r1".into(),
        node_id: "n1".into(),
        attempt_id: 0,
        state_id: "state-1".into(),
        lease_digest: "digest-1".into(),
        tool_idempotency_key: None,
        tool_committed: true,
    };
    assert!(binding.blocks_retry());
    assert!(!binding.allows_retry());
}

#[test]
fn receipt_carries_lineage_without_duplicate_truth() {
    let receipt = StateBoundExecutionReceipt {
        run_id: "r1".into(),
        node_id: "n1".into(),
        attempt_id: 2,
        checkpoint_id: "ckpt-1".into(),
        pre_call_state_id: "state-pre".into(),
        post_call_state_id: Some("state-post".into()),
        lease_digest: "digest-1".into(),
        tool_idempotency_key: Some("idem-1".into()),
        tool_committed: true,
        parser_outcome: Some("parsed".into()),
        effect_receipt_digest: Some("effect-digest".into()),
        is_retry: true,
        retry_of_attempt: Some(1),
    };

    assert!(receipt.is_retry);
    assert_eq!(receipt.retry_of_attempt, Some(1));
    assert_ne!(
        receipt.pre_call_state_id,
        receipt.post_call_state_id.unwrap()
    );
}
