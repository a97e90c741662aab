use mangodisk_core::planning::{preparation_stage, requires_preflight_measurement};
use mangodisk_core::progress::ExecutionProgressReporter;
use mangodisk_core::types::{
    CleanupActionKind, CleanupActionResult, CleanupActionStatus, CleanupExecutionProgress,
    CleanupExecutionStage, DeleteStats,
};
use serde::ser::SerializeStruct;

/// The desktop event encoding of a progress snapshot (camelCase fields).
struct ProgressEvent<'a>(&'a CleanupExecutionProgress);

impl serde::Serialize for ProgressEvent<'_> {
    fn serialize<S: serde::Serializer>(&self, serializer: S) -> Result<S::Ok, S::Error> {
        let p = self.0;
        let stage = match p.stage {
            CleanupExecutionStage::Validating => "validating",
            CleanupExecutionStage::Cleaning => "cleaning",
            CleanupExecutionStage::Finalizing => "finalizing",
        };
        let mut s = serializer.serialize_struct("CleanupExecutionProgress", 8)?;
        s.serialize_field("stage", stage)?;
        s.serialize_field("plannedRuleIds", &p.planned_rule_ids)?;
        s.serialize_field("currentRuleId", &p.current_rule_id)?;
        s.serialize_field("currentItemPath", &p.current_item_path)?;
        s.serialize_field("completedRuleCount", &p.completed_rule_count)?;
        s.serialize_field("totalRuleCount", &p.total_rule_count)?;
        s.serialize_field("affectedItemCount", &p.affected_item_count)?;
        s.serialize_field("releasedBytes", &p.released_bytes)?;
        s.end()
    }
}

fn fixture_action(released_bytes: u64, affected_item_count: u64) -> CleanupActionResult {
    CleanupActionResult {
        rule_id: "system.fixture".to_string(),
        action_kind: CleanupActionKind::Delete,
        status: CleanupActionStatus::Completed,
        reason_code: None,
        bytes_expected: 120,
        released_bytes,
        affected_item_count,
        failed_item_count: 0,
        running_processes: Vec::new(),
    }
}

#[test]
fn preflight_measurement_is_limited_to_preview_and_source_scoped_requests() {
    assert!(!requires_preflight_measurement(false, false));
    assert!(requires_preflight_measurement(true, false));
    assert!(requires_preflight_measurement(false, true));
    assert!(requires_preflight_measurement(true, true));
    assert_eq!(preparation_stage(0), CleanupExecutionStage::Cleaning);
    assert_eq!(preparation_stage(1), CleanupExecutionStage::Validating);
}

#[test]
fn execution_progress_preserves_stage_order_and_final_totals() {
    let mut snapshots = Vec::new();
    let action = fixture_action(96, 2);
    {
        let mut reporter = ExecutionProgressReporter::new(vec!["system.fixture".to_string()], 0);
        snapshots.push(reporter.emit(CleanupExecutionStage::Validating, None, 0));
        reporter.record_validation(3, 120);
        snapshots.push(reporter.emit(
            CleanupExecutionStage::Validating,
            Some("system.fixture".to_string()),
            0,
        ));
        reporter.finish_validation();
        snapshots.push(reporter.emit(
            CleanupExecutionStage::Cleaning,
            Some(action.rule_id.clone()),
            0,
        ));
        reporter.record_action(&action);
        snapshots.push(reporter.emit(
            CleanupExecutionStage::Cleaning,
            Some(action.rule_id.clone()),
            0,
        ));
        snapshots.push(reporter.emit(CleanupExecutionStage::Finalizing, None, 0));
    }

    let stages = snapshots.iter().map(|progress| progress.stage).collect::<Vec<_>>();
    assert_eq!(
        stages,
        vec![
            CleanupExecutionStage::Validating,
            CleanupExecutionStage::Validating,
            CleanupExecutionStage::Cleaning,
            CleanupExecutionStage::Cleaning,
            CleanupExecutionStage::Finalizing,
        ]
    );
    assert!(snapshots
        .iter()
        .all(|progress| progress.completed_rule_count <= progress.total_rule_count));
    assert!(snapshots
        .iter()
        .all(|progress| progress.planned_rule_ids.as_slice() == ["system.fixture"]));
    let final_snapshot = snapshots.last().expect("final progress must be emitted");
    let serialized = serde_json::to_value(ProgressEvent(final_snapshot))
        .expect("cleanup execution progress must serialize for desktop events");
    assert_eq!(serialized["plannedRuleIds"][0], "system.fixture");
    assert_eq!(final_snapshot.affected_item_count, action.affected_item_count);
    assert_eq!(final_snapshot.released_bytes, action.released_bytes);
}

#[test]
fn execution_progress_reports_live_items_and_completed_rule_results() {
    let mut snapshots = Vec::new();
    let action = fixture_action(64, 1);
    {
        let mut reporter = ExecutionProgressReporter::new(vec![action.rule_id.clone()], 0);
        reporter.begin_rule();
        if let Some(progress) = reporter.record_item(
            &action.rule_id,
            "fixture/cache.tmp".to_string(),
            &DeleteStats {
                matched_bytes: 64,
                deleted_bytes: 64,
                affected_item_count: 1,
                failed_item_count: 0,
            },
            0,
        ) {
            snapshots.push(progress);
        }
        reporter.record_action(&action);
        snapshots.push(reporter.emit(
            CleanupExecutionStage::Cleaning,
            Some(action.rule_id.clone()),
            0,
        ));
    }

    let live_snapshot = snapshots
        .first()
        .expect("the first deleted item must produce live progress");
    assert_eq!(live_snapshot.current_item_path.as_deref(), Some("fixture/cache.tmp"));
    assert_eq!(live_snapshot.current_rule_affected_item_count, 1);
    assert_eq!(live_snapshot.current_rule_released_bytes, 64);
    assert_eq!(live_snapshot.affected_item_count, 1);
    assert_eq!(live_snapshot.released_bytes, 64);

    let completed_snapshot = snapshots.last().expect("the completed rule must produce a summary");
    assert_eq!(completed_snapshot.current_item_path, None);
    assert_eq!(completed_snapshot.completed_rule_count, 1);
    assert_eq!(completed_snapshot.completed_rule_results.len(), 1);
    assert_eq!(completed_snapshot.completed_rule_results[0].rule_id, action.rule_id);
    assert_eq!(completed_snapshot.completed_rule_results[0].status, action.status);
    assert_eq!(
        completed_snapshot.completed_rule_results[0].affected_item_count,
        action.affected_item_count
    );
    assert_eq!(completed_snapshot.completed_rule_results[0].released_bytes, action.released_bytes);
}

#[test]
fn live_item_progress_is_throttled_within_the_interval() {
    let mut reporter = ExecutionProgressReporter::new(vec!["system.fixture".to_string()], 1_000);
    let id = "system.fixture".to_string();
    let stats = |n: u64| DeleteStats {
        matched_bytes: n * 10,
        deleted_bytes: n * 10,
        affected_item_count: n,
        failed_item_count: 0,
    };
    let first = reporter.record_item(&id, "a".to_string(), &stats(1), 1_000);
    assert!(first.is_some());
    let throttled = reporter.record_item(&id, "b".to_string(), &stats(2), 1_079);
    assert!(throttled.is_none());
    // The counters still move even when no snapshot is published.
    assert_eq!(reporter.current_rule_affected_item_count, 2);
    assert_eq!(reporter.current_item_path.as_deref(), Some("a"));
    let next = reporter.record_item(&id, "c".to_string(), &stats(3), 1_080).unwrap();
    assert_eq!(next.current_item_path.as_deref(), Some("c"));
    assert_eq!(next.current_rule_affected_item_count, 3);
    assert_eq!(next.current_rule_released_bytes, 30);
    assert_eq!(next.elapsed_ms, 80);
    assert_eq!(next.stage, CleanupExecutionStage::Cleaning);
    assert_eq!(next.current_rule_id.as_deref(), Some("system.fixture"));
    // A clock that went backwards counts as no time elapsed.
    assert!(reporter.record_item(&id, "d".to_string(), &stats(4), 500).is_none());
    reporter.begin_rule();
    assert!(reporter.record_item(&id, "e".to_string(), &stats(1), 1_081).is_some());
}

#[test]
fn validated_and_completed_counts_never_exceed_the_plan() {
    let mut reporter = ExecutionProgressReporter::new(vec!["one".to_string()], 0);
    reporter.record_validation(1, 10);
    reporter.record_validation(u64::MAX, u64::MAX);
    let p = reporter.emit(CleanupExecutionStage::Validating, None, 5);
    assert_eq!(p.validated_rule_count, 1);
    assert_eq!(p.checked_item_count, u64::MAX);
    assert_eq!(p.checked_bytes, u64::MAX);
    let action = fixture_action(u64::MAX, 1);
    reporter.record_action(&action);
    reporter.record_action(&action);
    let p = reporter.emit(CleanupExecutionStage::Cleaning, None, 5);
    assert_eq!(p.completed_rule_count, 1);
    assert_eq!(p.total_rule_count, 1);
    assert_eq!(p.released_bytes, u64::MAX);
    assert_eq!(p.affected_item_count, 2);
    assert_eq!(p.completed_rule_results.len(), 2);
    assert_eq!(p.elapsed_ms, 5);
}

#[test]
fn snapshot_totals_include_the_rule_in_progress() {
    let mut reporter = ExecutionProgressReporter::new(vec!["one".to_string()], 0);
    reporter.record_action(&fixture_action(100, 4));
    reporter.begin_rule();
    let live = reporter
        .record_item(
            &"one".to_string(),
            "x".to_string(),
            &DeleteStats {
                matched_bytes: 7,
                deleted_bytes: 5,
                affected_item_count: 3,
                failed_item_count: 0,
            },
            10,
        )
        .unwrap();
    assert_eq!(live.affected_item_count, 7);
    assert_eq!(live.released_bytes, 105);
    reporter.finish_validation();
    assert_eq!(reporter.emit(CleanupExecutionStage::Cleaning, None, 0).validated_rule_count, 1);
}

#[test]
fn reporter_snapshots_never_go_back() {
    let ids = vec!["one".to_string(), "two".to_string()];
    let mut reporter = ExecutionProgressReporter::new(ids.clone(), 0);
    let mut snapshots = vec![reporter.emit(CleanupExecutionStage::Validating, None, 1)];
    reporter.record_validation(3, 30);
    snapshots.push(reporter.emit(CleanupExecutionStage::Validating, None, 2));
    reporter.finish_validation();
    reporter.begin_rule();
    let item = DeleteStats { matched_bytes: 9, deleted_bytes: 9, affected_item_count: 1, failed_item_count: 0 };
    if let Some(p) = reporter.record_item(&"one".to_string(), "/x".to_string(), &item, 3) {
        snapshots.push(p);
    }
    reporter.record_action(&fixture_action(9, 1));
    snapshots.push(reporter.emit(CleanupExecutionStage::Cleaning, None, 4));
    reporter.begin_rule();
    reporter.record_action(&fixture_action(1, 1));
    snapshots.push(reporter.emit(CleanupExecutionStage::Finalizing, None, 5));
    for p in &snapshots {
        assert_eq!(p.planned_rule_ids, ids);
        assert_eq!(p.total_rule_count, 2);
        assert!(p.validated_rule_count <= p.total_rule_count);
        assert!(p.completed_rule_count <= p.total_rule_count);
    }
    for w in snapshots.windows(2) {
        assert!(w[0].validated_rule_count <= w[1].validated_rule_count);
        assert!(w[0].completed_rule_count <= w[1].completed_rule_count);
        assert!(w[0].checked_item_count <= w[1].checked_item_count);
        assert!(w[0].checked_bytes <= w[1].checked_bytes);
        assert!(w[0].completed_rule_results.len() <= w[1].completed_rule_results.len());
    }
    assert_eq!(snapshots.last().unwrap().completed_rule_results.len(), 2);
}
