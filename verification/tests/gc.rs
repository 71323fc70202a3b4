use agent_graph_mcp::gc::{gc_decisions, idle_days_before, GcAction, GcCandidateRow, GcPolicy};

fn row(graph: &str, state: &str, last: Option<&str>, execs: i64) -> GcCandidateRow {
    GcCandidateRow {
        graph: graph.into(),
        state: state.into(),
        last_execution_at: last.map(str::to_owned),
        execution_count: execs,
        pinned: false,
        legal_held: false,
        storage_bytes: 0,
    }
}

const NOW: &str = "2026-08-19 00:00:00";

#[test]
fn idle_days_parsing() {
    assert_eq!(idle_days_before(Some("2026-07-19 00:00:00"), NOW), 31);
    assert_eq!(idle_days_before(Some("2026-08-19T00:00:00Z"), NOW), 0);
    assert_eq!(idle_days_before(None, NOW), i64::MAX);
    assert_eq!(idle_days_before(Some("2026-08-20 00:00:00"), NOW), 0);
}

#[test]
fn archives_idle_active_graphs() {
    let policy = GcPolicy::default();
    let rows = vec![
        row("idle", "active", Some("2026-06-01 00:00:00"), 3),
        row("fresh", "active", Some("2026-08-18 00:00:00"), 3),
        row("nola", "active", None, 0),
    ];
    let actions = gc_decisions(&rows, &policy, NOW);
    assert!(actions.contains(&GcAction::Archive {
        graph: "idle".into()
    }));
    assert!(actions.contains(&GcAction::Archive {
        graph: "nola".into()
    }));
    assert!(!actions.contains(&GcAction::Archive {
        graph: "fresh".into()
    }));
}

#[test]
fn expires_archived_by_age_and_low_value() {
    let policy = GcPolicy::default();
    let rows = vec![
        row("old", "archived", Some("2026-05-01 00:00:00"), 10),
        row("few", "archived", Some("2026-07-01 00:00:00"), 2),
        row("young", "archived", Some("2026-08-10 00:00:00"), 10),
    ];
    let actions = gc_decisions(&rows, &policy, NOW);
    assert!(actions.contains(&GcAction::Expire {
        graph: "old".into()
    }));
    assert!(actions.contains(&GcAction::Expire {
        graph: "few".into()
    }));
    assert!(!actions.contains(&GcAction::Expire {
        graph: "young".into()
    }));
}

#[test]
fn pinned_and_held_skipped() {
    let policy = GcPolicy::default();
    let mut pinned = row("pin", "active", Some("2026-06-01 00:00:00"), 0);
    pinned.pinned = true;
    let mut held = row("hold", "active", Some("2026-06-01 00:00:00"), 0);
    held.legal_held = true;
    let actions = gc_decisions(&[pinned, held], &policy, NOW);
    assert!(actions.is_empty());
}

#[test]
fn storage_flag_independent_of_state() {
    let policy = GcPolicy::default();
    let mut big = row("big", "active", Some("2026-08-18 00:00:00"), 0);
    big.storage_bytes = 11 * 1024 * 1024;
    let actions = gc_decisions(&[big], &policy, NOW);
    assert!(actions.contains(&GcAction::FlagStorage {
        graph: "big".into()
    }));
}

#[test]
fn disabled_policy_returns_nothing() {
    let policy = GcPolicy {
        enabled: false,
        ..Default::default()
    };
    let rows = vec![row("idle", "active", Some("2026-06-01 00:00:00"), 0)];
    assert!(gc_decisions(&rows, &policy, NOW).is_empty());
}

#[test]
fn gc_actions_come_in_row_order_with_storage_flag_after_transition() {
    let policy = GcPolicy::default();
    let mut big_idle = row("big", "active", Some("2026-06-01 00:00:00"), 0);
    big_idle.storage_bytes = 10 * 1024 * 1024 + 1;
    let rows = vec![big_idle, row("old", "archived", Some("2026-05-01 00:00:00"), 10)];
    assert_eq!(
        gc_decisions(&rows, &policy, NOW),
        vec![
            GcAction::Archive { graph: "big".into() },
            GcAction::FlagStorage { graph: "big".into() },
            GcAction::Expire { graph: "old".into() },
        ]
    );
}

#[test]
fn gc_leaves_other_states_alone() {
    let policy = GcPolicy::default();
    let rows = vec![row("gone", "expired_pending_review", Some("2026-01-01 00:00:00"), 0)];
    assert!(gc_decisions(&rows, &policy, NOW).is_empty());
}

#[test]
fn idle_days_of_unparseable_timestamp_is_fully_idle() {
    assert_eq!(idle_days_before(Some("yesterday"), NOW), i64::MAX);
    assert_eq!(idle_days_before(Some("2026-08-01"), NOW), 18);
    assert_eq!(idle_days_before(Some("  2026-08-18T12:00:00+02:00 "), NOW), 0);
    assert_eq!(idle_days_before(Some("2026-08-17T22:00:00-02:00"), NOW), 1);
    assert_eq!(idle_days_before(Some("2026-02-30 00:00:00"), NOW), i64::MAX);
    assert_eq!(idle_days_before(Some("2026-08-18 25:00:00"), NOW), i64::MAX);
}

#[test]
fn idle_days_count_whole_days_between_instants() {
    assert_eq!(idle_days_before(Some("2026-02-28 00:00:00"), "2026-03-01 00:00:00"), 1);
    assert_eq!(idle_days_before(Some("2028-02-28 00:00:00"), "2028-03-01 00:00:00"), 2);
    assert_eq!(idle_days_before(Some("2026-08-18 23:00:00"), "2026-08-19 01:00:00"), 0);
    assert_eq!(idle_days_before(Some("2026-08-18 01:00:00"), "2026-08-19 01:00:00"), 1);
    assert_eq!(idle_days_before(Some("2025-12-31T23:59:59.999Z"), "2026-12-31T23:59:59Z"), 364);
    assert_eq!(idle_days_before(Some("2025-12-31T23:59:59.5Z"), "2026-12-31T23:59:59.5Z"), 365);
    assert_eq!(idle_days_before(Some("1970-01-01"), "2000-01-01"), 10957);
}

#[test]
fn storage_exactly_at_the_limit_is_not_flagged() {
    let policy = GcPolicy::default();
    let mut at = row("at", "active", Some("2026-08-18 00:00:00"), 9);
    at.storage_bytes = 10 * 1024 * 1024;
    let mut over = row("over", "active", Some("2026-08-18 00:00:00"), 9);
    over.storage_bytes = 10 * 1024 * 1024 + 1;
    assert_eq!(
        gc_decisions(&[at, over], &policy, NOW),
        vec![GcAction::FlagStorage { graph: "over".into() }]
    );
}

#[test]
fn protected_rows_can_be_left_out_beforehand() {
    let policy = GcPolicy::default();
    let mut pin = row("pin", "active", Some("2026-06-01 00:00:00"), 0);
    pin.pinned = true;
    let mut hold = row("hold", "archived", Some("2026-01-01 00:00:00"), 0);
    hold.legal_held = true;
    hold.storage_bytes = i64::MAX / 2;
    let free = row("free", "active", Some("2026-06-01 00:00:00"), 0);
    let all = vec![pin.clone(), free.clone(), hold.clone()];
    let unprotected = vec![free];
    assert_eq!(gc_decisions(&all, &policy, NOW), gc_decisions(&unprotected, &policy, NOW));
    assert!(gc_decisions(&[pin, hold], &policy, NOW).is_empty());
}
