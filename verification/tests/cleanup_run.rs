use mangodisk_core::fingerprint::plan_hash;
use mangodisk_core::operation::OperationCoordinator;
use mangodisk_core::planning::{CatalogRule, CleanupDraft, PlannedRule, PlanningContext};
use mangodisk_core::run::{RunAwaiting, RunCommand};
use mangodisk_core::service::CleanupService;
use mangodisk_core::types::{
    CleanupActionKind, CleanupActionResult, CleanupActionStatus, CleanupExecutionStage,
    CleanupRequest, CoreError, DeleteStats, RuleMeasurement,
};

fn rule(id: &str, processes: &[&str]) -> CatalogRule {
    CatalogRule {
        id: id.to_string(),
        required_stopped_processes: processes.iter().map(|p| p.to_string()).collect(),
    }
}

fn planned(id: &str, requires_app_close: bool) -> PlannedRule {
    PlannedRule { id: id.to_string(), requires_app_close }
}

fn action(id: &str, expected: u64, released: u64, affected: u64, failed: u64) -> CleanupActionResult {
    CleanupActionResult {
        rule_id: id.to_string(),
        action_kind: CleanupActionKind::Delete,
        status: CleanupActionStatus::Completed,
        reason_code: None,
        bytes_expected: expected,
        released_bytes: released,
        affected_item_count: affected,
        failed_item_count: failed,
        running_processes: Vec::new(),
    }
}

fn draft(ops: &mut OperationCoordinator, dry_run: bool) -> CleanupDraft {
    let request = CleanupRequest {
        rule_ids: vec![
            "browser.chrome".to_string(),
            "cleaner.trash".to_string(),
            "system.cache".to_string(),
        ],
        project_roots: vec!["/Users/a/projects".to_string()],
        source_selections: Vec::new(),
        dry_run,
    };
    let ctx = PlanningContext {
        registry: Ok(vec![rule("system.cache", &[]), rule("browser.chrome", &["Google Chrome"])]),
        cleaner_ids: vec!["cleaner.trash".to_string()],
        source_scoped_rule_ids: Ok(vec!["system.cache".to_string()]),
    };
    CleanupService::execute_deep_cleanup_step(ops, request, "deep-run".to_string(), ctx, 1000)
        .expect("the request is valid")
}

fn ownership() -> Result<Vec<PlannedRule>, CoreError> {
    Ok(vec![
        planned("system.cache", false),
        planned("other.rule", false),
        planned("browser.chrome", true),
    ])
}

#[test]
fn deep_cleanup_run_measures_cleans_and_totals() {
    let mut ops = OperationCoordinator::new();
    let draft = draft(&mut ops, false);
    assert_eq!(draft.cleaner_rule_ids, vec!["cleaner.trash".to_string()]);
    let (mut run, first) = draft
        .plan(&mut ops, vec!["cleaner.trash".to_string()], ownership(), 1001)
        .unwrap();
    assert_eq!(first.stage, CleanupExecutionStage::Validating);
    assert_eq!(
        first.planned_rule_ids,
        vec!["system.cache".to_string(), "browser.chrome".to_string(), "cleaner.trash".to_string()]
    );
    assert_eq!(first.total_rule_count, 3);
    assert_eq!(run.measured_rule_count, 1);
    assert_eq!(run.rules.len(), 2);
    assert_eq!(run.rules[0].index, 0);
    assert!(run.rules[0].measure);
    assert_eq!(run.rules[1].index, 2);
    assert!(!run.rules[1].measure);
    assert!(run.rules[1].requires_app_close);

    let step = run.resume(&mut ops, 1002);
    assert_eq!(step.progress.len(), 1);
    assert_eq!(step.progress[0].stage, CleanupExecutionStage::Validating);
    assert_eq!(step.progress[0].current_rule_id.as_deref(), Some("system.cache"));
    assert!(matches!(step.command, RunCommand::Measure { rule_index: 0, ref rule_id } if rule_id == "system.cache"));

    let measurement = RuleMeasurement { file_count: 3, bytes: 120 };
    let step = run.on_measured(&mut ops, Ok(measurement), 1003);
    assert_eq!(step.progress.len(), 1);
    assert_eq!(step.progress[0].validated_rule_count, 1);
    assert_eq!(step.progress[0].checked_item_count, 3);
    assert_eq!(step.progress[0].checked_bytes, 120);
    assert!(matches!(step.command, RunCommand::CaptureProcesses));
    assert_eq!(run.measurements.len(), 2);
    assert!(run.measurements[1].is_none());

    let step = run.on_processes_captured(&mut ops, Ok(()), 1004);
    assert_eq!(run.plan_id, "plan-1000");
    let expected_hash = plan_hash(
        &"plan-1000".to_string(),
        &run.request.rule_ids,
        &run.request.project_roots,
        &run.request.source_selections,
        false,
    );
    assert_eq!(run.plan_hash, expected_hash);
    assert_eq!(step.progress.len(), 1);
    assert_eq!(step.progress[0].stage, CleanupExecutionStage::Cleaning);
    assert_eq!(step.progress[0].validated_rule_count, 3);
    match step.command {
        RunCommand::ExecuteRule { rule_index, rule_id, measurement } => {
            assert_eq!(rule_index, 0);
            assert_eq!(rule_id, "system.cache");
            assert_eq!(measurement.map(|m| m.bytes), Some(120));
        }
        other => panic!("unexpected command {other:?}"),
    }

    let live = run
        .record_item(
            "/cache/a.tmp".to_string(),
            &DeleteStats { matched_bytes: 50, deleted_bytes: 50, affected_item_count: 1, failed_item_count: 0 },
            1005,
        )
        .expect("the first item is published");
    assert_eq!(live.current_item_path.as_deref(), Some("/cache/a.tmp"));
    assert_eq!(live.released_bytes, 50);

    let step = run.on_rule_finished(&mut ops, action("system.cache", 120, 100, 2, 0), 1006);
    assert_eq!(step.progress.len(), 2);
    assert_eq!(step.progress[0].completed_rule_count, 1);
    assert_eq!(step.progress[0].released_bytes, 100);
    assert_eq!(step.progress[1].current_rule_id.as_deref(), Some("browser.chrome"));
    assert!(matches!(step.command, RunCommand::ExecuteRule { rule_index: 2, measurement: None, .. }));

    let step = run.on_rule_finished(&mut ops, action("browser.chrome", 0, 30, 1, 1), 1007);
    match &step.command {
        RunCommand::RunCleaners { rule_ids } => assert_eq!(rule_ids, &vec!["cleaner.trash".to_string()]),
        other => panic!("unexpected command {other:?}"),
    }
    assert_eq!(run.awaiting, RunAwaiting::CleanerActions);

    let p = run.record_cleaner_progress("cleaner.trash".to_string(), None, 1008);
    assert_eq!(p.current_rule_id.as_deref(), Some("cleaner.trash"));
    let cleaner = action("cleaner.trash", 10, 10, 5, 0);
    let p = run.record_cleaner_progress("cleaner.trash".to_string(), Some(&cleaner), 1009);
    assert_eq!(p.completed_rule_count, 3);

    let cleaner_actions = vec![cleaner];
    assert!(run.totals_fit_with(&cleaner_actions));
    let step = run.on_cleaners_finished(cleaner_actions, 1010);
    assert_eq!(step.progress.len(), 1);
    assert_eq!(step.progress[0].stage, CleanupExecutionStage::Finalizing);
    assert_eq!(step.progress[0].current_rule_id, None);
    assert_eq!(step.progress[0].elapsed_ms, 9);
    match step.command {
        RunCommand::RecordHistory { totals } => {
            assert_eq!(totals.expected_bytes, 130);
            assert_eq!(totals.released_bytes, 140);
            assert_eq!(totals.affected_item_count, 8);
            assert_eq!(totals.failed_item_count, 1);
        }
        other => panic!("unexpected command {other:?}"),
    }

    let outcome = run.complete(&mut ops, true);
    assert!(ops.active.is_none());
    assert_eq!(outcome.plan_id, "plan-1000");
    assert_eq!(outcome.plan_hash, expected_hash);
    assert_eq!(outcome.expected_bytes, 130);
    assert_eq!(outcome.released_bytes, 140);
    assert_eq!(outcome.affected_item_count, 8);
    assert_eq!(outcome.failed_item_count, 1);
    assert!(!outcome.dry_run);
    assert!(outcome.history_saved);
    let ids = outcome.actions.iter().map(|a| a.rule_id.as_str()).collect::<Vec<_>>();
    assert_eq!(ids, vec!["system.cache", "browser.chrome", "cleaner.trash"]);
}

#[test]
fn cancellation_before_a_measurement_fails_the_run() {
    let mut ops = OperationCoordinator::new();
    let (mut run, _) = draft(&mut ops, true)
        .plan(&mut ops, vec!["cleaner.trash".to_string()], ownership(), 1)
        .unwrap();
    CleanupService::cancel(&mut ops);
    let step = run.resume(&mut ops, 2);
    assert!(step.progress.is_empty());
    assert!(matches!(step.command, RunCommand::Fail(CoreError::Cancelled)));
    assert_eq!(run.awaiting, RunAwaiting::Finished);
    assert!(ops.active.is_none());
}

#[test]
fn cancellation_during_cleaning_starts_no_further_rule() {
    let mut ops = OperationCoordinator::new();
    let (mut run, _) = draft(&mut ops, false)
        .plan(&mut ops, vec!["cleaner.trash".to_string()], ownership(), 1)
        .unwrap();
    let _ = run.resume(&mut ops, 2);
    let _ = run.on_measured(&mut ops, Ok(RuleMeasurement { file_count: 1, bytes: 77 }), 3);
    CleanupService::cancel(&mut ops);
    let step = run.on_processes_captured(&mut ops, Ok(()), 4);
    match step.command {
        RunCommand::CancelRule { rule_id, action_kind, bytes_expected } => {
            assert_eq!(rule_id, "system.cache");
            assert_eq!(action_kind, CleanupActionKind::Delete);
            assert_eq!(bytes_expected, 77);
        }
        other => panic!("unexpected command {other:?}"),
    }
    let mut cancelled = action("system.cache", 77, 0, 0, 0);
    cancelled.status = CleanupActionStatus::Cancelled;
    let step = run.on_rule_finished(&mut ops, cancelled, 5);
    assert!(matches!(step.command, RunCommand::CancelRule { bytes_expected: 0, .. }));
    assert!(ops.active.is_some());
}

#[test]
fn failed_measurement_and_process_snapshot_fail_the_run() {
    let mut ops = OperationCoordinator::new();
    let (mut run, _) = draft(&mut ops, false)
        .plan(&mut ops, vec!["cleaner.trash".to_string()], ownership(), 1)
        .unwrap();
    let _ = run.resume(&mut ops, 2);
    let step = run.on_measured(&mut ops, Err(CoreError::InvalidInput("stale source".to_string())), 3);
    assert!(matches!(step.command, RunCommand::Fail(CoreError::InvalidInput(ref m)) if m == "stale source"));
    assert!(ops.active.is_none());

    let (mut run, _) = draft(&mut ops, false)
        .plan(&mut ops, vec!["cleaner.trash".to_string()], ownership(), 1)
        .unwrap();
    let _ = run.resume(&mut ops, 2);
    let _ = run.on_measured(&mut ops, Ok(RuleMeasurement { file_count: 0, bytes: 0 }), 3);
    let step = run.on_processes_captured(&mut ops, Err("permission denied".to_string()), 4);
    match step.command {
        RunCommand::Fail(CoreError::OperationFailed(m)) => {
            assert_eq!(m, "failed to verify running applications: permission denied")
        }
        other => panic!("unexpected command {other:?}"),
    }
    assert!(ops.active.is_none());
}

#[test]
fn planning_detects_lost_rules_and_ownership_errors() {
    let mut ops = OperationCoordinator::new();
    let e = draft(&mut ops, false).plan(&mut ops, Vec::new(), ownership(), 1).unwrap_err();
    match e {
        CoreError::OperationFailed(m) => {
            assert_eq!(m, "cleanup execution planning did not preserve every selected rule")
        }
        other => panic!("unexpected error {other:?}"),
    }
    assert!(ops.active.is_none());
    let e = draft(&mut ops, false)
        .plan(
            &mut ops,
            vec!["cleaner.trash".to_string()],
            Err(CoreError::OperationFailed("ownership".to_string())),
            1,
        )
        .unwrap_err();
    assert!(matches!(e, CoreError::OperationFailed(m) if m == "ownership"));
    assert!(ops.active.is_none());
}

#[test]
fn whole_rule_cleanup_skips_measurement_and_process_capture() {
    let mut ops = OperationCoordinator::new();
    let request = CleanupRequest {
        rule_ids: vec!["system.cache".to_string()],
        project_roots: Vec::new(),
        source_selections: Vec::new(),
        dry_run: false,
    };
    let ctx = PlanningContext {
        registry: Ok(vec![rule("system.cache", &[])]),
        cleaner_ids: Vec::new(),
        source_scoped_rule_ids: Ok(Vec::new()),
    };
    let draft = CleanupService::execute_deep_cleanup_step(&mut ops, request, "r".to_string(), ctx, 42).unwrap();
    let (mut run, first) = draft
        .plan(&mut ops, Vec::new(), Ok(vec![planned("system.cache", false)]), 43)
        .unwrap();
    assert_eq!(first.stage, CleanupExecutionStage::Cleaning);
    let step = run.resume(&mut ops, 44);
    assert_eq!(run.plan_id, "plan-42");
    assert_eq!(step.progress.len(), 1);
    assert_eq!(step.progress[0].validated_rule_count, 0);
    assert!(matches!(step.command, RunCommand::ExecuteRule { rule_index: 0, measurement: None, .. }));
    let step = run.on_rule_finished(&mut ops, action("system.cache", 9, 9, 1, 0), 45);
    assert!(matches!(step.command, RunCommand::RunCleaners { ref rule_ids } if rule_ids.is_empty()));
    let overflow = vec![action("x", u64::MAX, 0, 0, 0)];
    assert!(!run.totals_fit_with(&overflow));
    let step = run.on_cleaners_finished(Vec::new(), 46);
    assert!(matches!(step.command, RunCommand::RecordHistory { .. }));
    let outcome = run.complete(&mut ops, false);
    assert_eq!(outcome.expected_bytes, 9);
    assert!(!outcome.history_saved);
    assert!(ops.active.is_none());
}

#[test]
fn execution_queue_follows_the_registry_not_the_selection() {
    let mut ops = OperationCoordinator::new();
    let queue = |ops: &mut OperationCoordinator, ids: &[&str]| {
        let request = CleanupRequest {
            rule_ids: ids.iter().map(|s| s.to_string()).collect(),
            project_roots: Vec::new(),
            source_selections: Vec::new(),
            dry_run: true,
        };
        let ctx = PlanningContext {
            registry: Ok(vec![rule("a.first", &[]), rule("b.second", &[]), rule("c.third", &[])]),
            cleaner_ids: vec!["z.cleaner".to_string()],
            source_scoped_rule_ids: Ok(Vec::new()),
        };
        let draft = CleanupService::execute_deep_cleanup_step(ops, request, "q".to_string(), ctx, 5).unwrap();
        let cleaners = draft.cleaner_rule_ids.clone();
        let (run, first) = draft
            .plan(ops, cleaners, Ok(vec![planned("a.first", false), planned("c.third", false)]), 6)
            .unwrap();
        ops.finish(run.guard);
        first.planned_rule_ids
    };
    let forward = queue(&mut ops, &["z.cleaner", "c.third", "a.first"]);
    let backward = queue(&mut ops, &["a.first", "c.third", "z.cleaner"]);
    assert_eq!(forward, backward);
    assert_eq!(forward, vec!["a.first".to_string(), "c.third".to_string(), "z.cleaner".to_string()]);
}
