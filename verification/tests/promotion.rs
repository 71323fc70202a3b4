use agent_graph_mcp::promotion::{
    evidence_digest, verify_canonical_receipt, NonceRegistry, OperatorReceipt, PromotionError,
    PromotionStore, ReceiptIdentity, TemplateCandidateState, TemplateOutcome,
};

fn outcome(run: &str, disposition: &str) -> TemplateOutcome {
    TemplateOutcome {
        template_id: "tpl".into(),
        run_id: run.into(),
        terminal_receipt_id: format!("rcpt-{run}"),
        receipt_digest: format!("sha256:{run}"),
        disposition: disposition.into(),
        evidence_digest: "sha256:ev".into(),
    }
}

fn receipt(nonce: &str) -> OperatorReceipt {
    OperatorReceipt {
        operator_id: "operator:alice".into(),
        nonce: nonce.into(),
        authenticated: true,
    }
}

fn store_with_three_good() -> PromotionStore {
    let mut store = PromotionStore::new("tpl", "sha256:spec", "g", "v1");
    for (run, d) in [("r1", "good"), ("r2", "Supported"), ("r3", "GOOD")] {
        store.add_outcome(outcome(run, d)).unwrap();
    }
    store
}

#[test]
fn promotion_needs_three_favourable_outcomes_and_an_operator() {
    let mut nonces = NonceRegistry::new();
    let mut store = PromotionStore::new("tpl", "sha256:spec", "g", "v1");
    store.add_outcome(outcome("r1", "good")).unwrap();
    assert!(!store.eligible());
    assert_eq!(store.promote_template(receipt("n0"), &mut nonces), Err(PromotionError::NotEligible));

    let mut store = store_with_three_good();
    assert!(store.eligible());
    let anonymous = OperatorReceipt { operator_id: "user:bob".into(), nonce: "n1".into(), authenticated: true };
    assert_eq!(store.promote_template(anonymous, &mut nonces), Err(PromotionError::Unauthorized));
    assert!(!nonces.contains("n1"));
    assert_eq!(store.promote_template(receipt("n1"), &mut nonces), Ok(()));
    assert_eq!(store.state, TemplateCandidateState::Approved);
    assert_eq!(store.decisions, vec!["n1".to_owned()]);
}

#[test]
fn nonce_is_accepted_once() {
    let mut nonces = NonceRegistry::new();
    let mut first = store_with_three_good();
    let mut second = store_with_three_good();
    assert_eq!(first.promote_template(receipt("same"), &mut nonces), Ok(()));
    assert_eq!(
        second.promote_template(receipt("same"), &mut nonces),
        Err(PromotionError::AuthorizationReplayed)
    );
    assert_eq!(second.state, TemplateCandidateState::Candidate);
}

#[test]
fn adverse_outcome_quarantines_and_duplicates_are_ignored() {
    let mut store = store_with_three_good();
    store.add_outcome(outcome("r3", "bad")).unwrap();
    assert_eq!(store.state, TemplateCandidateState::Candidate);
    assert_eq!(store.outcomes.len(), 3);
    store.add_outcome(outcome("r4", "Contradicted")).unwrap();
    assert_eq!(store.state, TemplateCandidateState::Quarantined);
    assert!(!store.eligible());
    let mut foreign = outcome("r5", "good");
    foreign.template_id = "other".into();
    assert_eq!(store.add_outcome(foreign), Err(PromotionError::ReceiptMismatch("template_id".into())));
}

#[test]
fn template_state_machine() {
    type S = TemplateCandidateState;
    assert!(S::Candidate.can_transition(S::Approved));
    assert!(S::Approved.can_transition(S::Revoked));
    assert!(!S::Revoked.can_transition(S::Candidate));
    assert!(!S::Quarantined.can_transition(S::Approved));
    assert!(S::LegacyUnverified.can_transition(S::Quarantined));
    assert_eq!(S::LegacyUnverified.as_str(), "legacy_unverified");
    assert_eq!(S::Revoked.as_str(), "revoked");
}

#[test]
fn canonical_receipt_checks_each_field_then_terminality() {
    let expected = ReceiptIdentity {
        run_id: "r",
        receipt_digest: "d",
        graph_id: "g",
        graph_version: "v",
        template_id: "t",
        spec_digest: "s",
    };
    assert_eq!(verify_canonical_receipt(&expected, &expected, true), Ok(()));
    assert_eq!(verify_canonical_receipt(&expected, &expected, false), Err(PromotionError::NonTerminal));
    let other = ReceiptIdentity { graph_version: "v2", spec_digest: "s2", ..expected };
    assert_eq!(
        verify_canonical_receipt(&expected, &other, true),
        Err(PromotionError::ReceiptMismatch("graph_version".into()))
    );
}

#[test]
fn evidence_digest_is_sha256_of_lines() {
    assert_eq!(
        evidence_digest(&[]),
        "e3b0c44298fc1c149afbf4c8996fb92427ae41e4649b934ca495991b7852b855"
    );
    let a = evidence_digest(&[outcome("r1", "good")]);
    let b = evidence_digest(&[outcome("r1", "bad")]);
    assert_eq!(a.len(), 64);
    assert_ne!(a, b);
}
