//! Plain data exchanged between the cleanup service and its adapters.

use vstd::prelude::*;

verus! {

/// Stage reported to the desktop shell while a cleanup executes.
#[derive(Clone, Copy, Debug, PartialEq, Eq, Structural)]
pub enum CleanupExecutionStage {
    Validating,
    Cleaning,
    Finalizing,
}

/// Outcome of one cleanup rule.
#[derive(Clone, Copy, Debug, PartialEq, Eq, Structural)]
pub enum CleanupActionStatus {
    Completed,
    Skipped,
    Blocked,
    Failed,
    Cancelled,
}

/// What a cleanup rule does to its matches.
#[derive(Clone, Copy, Debug, PartialEq, Eq, Structural)]
pub enum CleanupActionKind {
    Delete,
}

/// Result of executing (or cancelling) one cleanup rule.
#[derive(Clone, Debug)]
pub struct CleanupActionResult {
    pub rule_id: String,
    pub action_kind: CleanupActionKind,
    pub status: CleanupActionStatus,
    pub reason_code: Option<String>,
    pub bytes_expected: u64,
    pub released_bytes: u64,
    pub affected_item_count: u64,
    pub failed_item_count: u64,
    pub running_processes: Vec<String>,
}

/// Summary of a completed rule as published in progress snapshots.
#[derive(Clone, Debug)]
pub struct CleanupExecutionRuleResult {
    pub rule_id: String,
    pub status: CleanupActionStatus,
    pub affected_item_count: u64,
    pub released_bytes: u64,
}

/// A progress snapshot handed to the desktop shell.
#[derive(Clone, Debug)]
pub struct CleanupExecutionProgress {
    pub stage: CleanupExecutionStage,
    pub planned_rule_ids: Vec<String>,
    pub current_rule_id: Option<String>,
    pub current_item_path: Option<String>,
    pub current_rule_affected_item_count: u64,
    pub current_rule_released_bytes: u64,
    pub completed_rule_results: Vec<CleanupExecutionRuleResult>,
    pub validated_rule_count: u64,
    pub completed_rule_count: u64,
    pub total_rule_count: u64,
    pub checked_item_count: u64,
    pub checked_bytes: u64,
    pub affected_item_count: u64,
    pub released_bytes: u64,
    pub elapsed_ms: u64,
}

/// Running totals of a deletion pass for the rule being executed.
#[derive(Clone, Copy, Debug)]
pub struct DeleteStats {
    pub matched_bytes: u64,
    pub deleted_bytes: u64,
    pub affected_item_count: u64,
    pub failed_item_count: u64,
}

/// Result of the read-only measurement of one rule.
#[derive(Clone, Copy, Debug)]
pub struct RuleMeasurement {
    pub file_count: u64,
    pub bytes: u64,
}

/// Whether the listed source paths of a rule are kept or skipped.
#[derive(Clone, Copy, Debug, PartialEq, Eq, Structural)]
pub enum CleanupSourceSelectionMode {
    Include,
    Exclude,
}

/// A user narrowing of one rule to some of its sources.
#[derive(Clone, Debug)]
pub struct CleanupSourceSelection {
    pub rule_id: String,
    pub mode: CleanupSourceSelectionMode,
    pub paths: Vec<String>,
}

/// A deep cleanup request as submitted by the desktop shell.
#[derive(Clone, Debug)]
pub struct CleanupRequest {
    pub rule_ids: Vec<String>,
    pub project_roots: Vec<String>,
    pub source_selections: Vec<CleanupSourceSelection>,
    pub dry_run: bool,
}

/// How running applications are asked to close.
#[derive(Clone, Copy, Debug, PartialEq, Eq, Structural)]
pub enum ApplicationCloseMode {
    Graceful,
    Force,
}

/// A request to close the applications that block some cleanup rules.
#[derive(Clone, Debug)]
pub struct CleanupApplicationCloseRequest {
    pub rule_ids: Vec<String>,
    pub mode: ApplicationCloseMode,
}

/// Errors of the cleanup service.
#[derive(Clone, Debug)]
pub enum CoreError {
    /// The request was rejected; the message says why.
    InvalidInput(String),
    /// An internal step failed; the message says which.
    OperationFailed(String),
    /// Another coordinated operation is already running.
    Busy,
    /// The running operation was cancelled.
    Cancelled,
}

} // verus!
