use mangodisk_core::operation::{CoordinatedOperationKind, OperationCoordinator};
use mangodisk_core::planning::{CatalogRule, PlanningContext};
use mangodisk_core::service::CleanupService;
use mangodisk_core::types::{
    ApplicationCloseMode, CleanupApplicationCloseRequest, CleanupRequest, CoreError,
};

fn rule(id: &str, processes: &[&str]) -> CatalogRule {
    CatalogRule {
        id: id.to_string(),
        required_stopped_processes: processes.iter().map(|p| p.to_string()).collect(),
    }
}

fn registry() -> Vec<CatalogRule> {
    vec![
        rule("browser.chrome", &["Google Chrome"]),
        rule("system.fixture", &[]),
        rule("developer.gradle", &["java", "gradle"]),
    ]
}

fn request(ids: &[&str]) -> CleanupRequest {
    CleanupRequest {
        rule_ids: ids.iter().map(|s| s.to_string()).collect(),
        project_roots: Vec::new(),
        source_selections: Vec::new(),
        dry_run: false,
    }
}

fn context() -> PlanningContext {
    PlanningContext {
        registry: Ok(registry()),
        cleaner_ids: vec!["cleaner.trash".to_string()],
        source_scoped_rule_ids: Ok(Vec::new()),
    }
}

fn invalid_message(e: CoreError) -> String {
    match e {
        CoreError::InvalidInput(m) => m,
        other => panic!("expected an invalid input error, got {other:?}"),
    }
}

fn close_request(ids: &[&str]) -> CleanupApplicationCloseRequest {
    CleanupApplicationCloseRequest {
        rule_ids: ids.iter().map(|s| s.to_string()).collect(),
        mode: ApplicationCloseMode::Graceful,
    }
}

#[test]
fn cleanup_service_cancels_the_active_cleanup_operation() {
    let mut ops = OperationCoordinator::new();
    let operation = ops
        .start(CoordinatedOperationKind::Cleanup)
        .expect("the isolated cleanup operation must start");

    CleanupService::cancel(&mut ops);

    assert!(
        ops.ensure_not_cancelled(&operation).is_err(),
        "the public cleanup cancellation contract must reach the active operation"
    );
}

#[test]
fn cancellation_does_not_reach_other_operations() {
    let mut ops = OperationCoordinator::new();
    let operation = ops.start(CoordinatedOperationKind::ApplicationClose).unwrap();
    CleanupService::cancel(&mut ops);
    assert!(ops.ensure_not_cancelled(&operation).is_ok());
    ops.finish(operation);
    CleanupService::cancel(&mut ops);
    assert!(ops.active.is_none());
}

#[test]
fn operations_run_one_at_a_time() {
    let mut ops = OperationCoordinator::new();
    let first = ops.start(CoordinatedOperationKind::Cleanup).unwrap();
    assert!(matches!(ops.start(CoordinatedOperationKind::ApplicationClose), Err(CoreError::Busy)));
    assert!(matches!(
        CleanupService::execute_deep_cleanup_step(
            &mut ops,
            request(&["browser.chrome"]),
            "run-1".to_string(),
            context(),
            7,
        ),
        Err(CoreError::Busy)
    ));
    ops.finish(first);
    let second = ops.start(CoordinatedOperationKind::Cleanup).unwrap();
    assert_ne!(second.id, first.id);
}

#[test]
fn deep_cleanup_requires_at_least_one_rule() {
    let mut ops = OperationCoordinator::new();
    let e = CleanupService::execute_deep_cleanup_step(&mut ops, request(&[]), "run".to_string(), context(), 1)
        .unwrap_err();
    assert_eq!(invalid_message(e), "at least one cleanup rule must be selected");
    assert!(ops.active.is_none());
}

#[test]
fn deep_cleanup_requires_a_non_blank_operation_id() {
    let mut ops = OperationCoordinator::new();
    let e = CleanupService::execute_deep_cleanup_step(
        &mut ops,
        request(&["browser.chrome"]),
        " \t\u{3000}\n".to_string(),
        context(),
        1,
    )
    .unwrap_err();
    assert_eq!(invalid_message(e), "deep cleanup operation id must not be empty");
    assert!(ops.active.is_none());
}

#[test]
fn deep_cleanup_rejects_duplicate_rules() {
    let mut ops = OperationCoordinator::new();
    let e = CleanupService::execute_deep_cleanup_step(
        &mut ops,
        request(&["browser.chrome", "system.fixture", "browser.chrome"]),
        "run".to_string(),
        context(),
        1,
    )
    .unwrap_err();
    assert_eq!(invalid_message(e), "the cleanup plan contains duplicate rules");
}

#[test]
fn deep_cleanup_reports_source_selection_and_registry_errors_in_order() {
    let mut ops = OperationCoordinator::new();
    let ctx = PlanningContext {
        registry: Err(CoreError::OperationFailed("registry unavailable".to_string())),
        cleaner_ids: Vec::new(),
        source_scoped_rule_ids: Err(CoreError::InvalidInput("bad source".to_string())),
    };
    let e = CleanupService::execute_deep_cleanup_step(&mut ops, request(&["x"]), "run".to_string(), ctx, 1)
        .unwrap_err();
    assert_eq!(invalid_message(e), "bad source");
    let ctx = PlanningContext {
        registry: Err(CoreError::OperationFailed("registry unavailable".to_string())),
        cleaner_ids: Vec::new(),
        source_scoped_rule_ids: Ok(Vec::new()),
    };
    let e = CleanupService::execute_deep_cleanup_step(&mut ops, request(&["x"]), "run".to_string(), ctx, 1)
        .unwrap_err();
    assert!(matches!(e, CoreError::OperationFailed(m) if m == "registry unavailable"));
    assert!(ops.active.is_none());
}

#[test]
fn deep_cleanup_rejects_unknown_rules() {
    let mut ops = OperationCoordinator::new();
    let e = CleanupService::execute_deep_cleanup_step(
        &mut ops,
        request(&["browser.chrome", "no.such.rule"]),
        "run".to_string(),
        context(),
        1,
    )
    .unwrap_err();
    assert_eq!(invalid_message(e), "the cleanup plan contains an unknown rule");
    assert!(ops.active.is_none());
}

#[test]
fn accepted_request_holds_the_operation_and_lists_its_cleaners() {
    let mut ops = OperationCoordinator::new();
    let draft = CleanupService::execute_deep_cleanup_step_with_progress(
        &mut ops,
        request(&["cleaner.trash", "browser.chrome"]),
        "run-7".to_string(),
        context(),
        1234,
    )
    .unwrap();
    assert_eq!(draft.cleaner_rule_ids, vec!["cleaner.trash".to_string()]);
    assert_eq!(draft.started_at_ms, 1234);
    assert_eq!(draft.operation_id, "run-7");
    assert!(!draft.selected_volume_scope);
    assert_eq!(ops.active.map(|a| a.id), Some(draft.guard.id));
}

#[test]
fn execute_names_the_operation_after_the_clock() {
    let mut ops = OperationCoordinator::new();
    let draft = CleanupService::execute(&mut ops, request(&["browser.chrome"]), context(), 1725029869000)
        .unwrap();
    assert_eq!(draft.operation_id, "deep-cleanup-1725029869000");
    ops.finish(draft.guard);
    let draft = CleanupService::execute_with_progress(&mut ops, request(&["browser.chrome"]), context(), 0)
        .unwrap();
    assert_eq!(draft.operation_id, "deep-cleanup-0");
}

#[test]
fn selected_volume_cleanup_uses_the_resolved_roots() {
    let mut ops = OperationCoordinator::new();
    let busy = ops.start(CoordinatedOperationKind::Cleanup).unwrap();
    // A failed resolution is reported before the operation is even tried.
    let e = CleanupService::execute_deep_cleanup_step_with_selected_volumes_and_progress(
        &mut ops,
        request(&["browser.chrome"]),
        "run".to_string(),
        Err(CoreError::InvalidInput("unknown volume".to_string())),
        context(),
        1,
    )
    .unwrap_err();
    assert_eq!(invalid_message(e), "unknown volume");
    ops.finish(busy);
    let draft = CleanupService::execute_deep_cleanup_step_with_selected_volumes_and_progress(
        &mut ops,
        request(&["browser.chrome"]),
        "run".to_string(),
        Ok(vec!["/Volumes/Data".to_string()]),
        context(),
        1,
    )
    .unwrap();
    assert!(draft.selected_volume_scope);
    assert_eq!(draft.request.project_roots, vec!["/Volumes/Data".to_string()]);
}

#[test]
fn close_applications_resolves_processes_from_the_registry() {
    let mut ops = OperationCoordinator::new();
    let plan = CleanupService::close_applications(
        &mut ops,
        close_request(&["developer.gradle", "browser.chrome"]),
        Ok(registry()),
    )
    .unwrap();
    assert_eq!(plan.targets.len(), 2);
    assert_eq!(plan.targets[0].target_id, "developer.gradle");
    assert_eq!(plan.targets[0].executable_names, vec!["java".to_string(), "gradle".to_string()]);
    assert!(plan.targets[0].executable_paths.is_empty());
    assert_eq!(plan.targets[1].target_id, "browser.chrome");
    assert_eq!(plan.mode, ApplicationCloseMode::Graceful);
    assert_eq!(plan.guard.kind, CoordinatedOperationKind::ApplicationClose);
    ops.finish(plan.guard);
    assert!(ops.active.is_none());
}

#[test]
fn close_applications_rejects_invalid_requests() {
    let mut ops = OperationCoordinator::new();
    let e = CleanupService::close_applications(&mut ops, close_request(&[]), Ok(registry())).unwrap_err();
    assert_eq!(invalid_message(e), "the cleanup application close selection is invalid");
    let e = CleanupService::close_applications(
        &mut ops,
        close_request(&["browser.chrome", "browser.chrome"]),
        Ok(registry()),
    )
    .unwrap_err();
    assert_eq!(invalid_message(e), "the cleanup application close selection is invalid");
    let e = CleanupService::close_applications(
        &mut ops,
        close_request(&["browser.chrome", "missing"]),
        Ok(registry()),
    )
    .unwrap_err();
    assert_eq!(
        invalid_message(e),
        "the cleanup application close request contains an unknown rule"
    );
    let e = CleanupService::close_applications(
        &mut ops,
        close_request(&["system.fixture", "missing"]),
        Ok(registry()),
    )
    .unwrap_err();
    assert_eq!(invalid_message(e), "the cleanup rule does not define a close requirement");
    let e = CleanupService::close_applications(
        &mut ops,
        close_request(&["browser.chrome"]),
        Err(CoreError::OperationFailed("no registry".to_string())),
    )
    .unwrap_err();
    assert!(matches!(e, CoreError::OperationFailed(m) if m == "no registry"));
    assert!(ops.active.is_none());
}
