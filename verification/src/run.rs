//! The deep cleanup step as a state machine.
//!
//! The filesystem work (measuring a rule, capturing running processes,
//! deleting a rule's files, running the specialized cleaners, saving the
//! history record) happens outside the library. A `CleanupRun` decides what
//! comes next: each event method takes the outcome of the outside work it
//! asked for and answers with the progress snapshots to publish and the next
//! command. Cancellation is read from the operation coordinator at the same
//! points at which the service checks it.

use vstd::prelude::*;
use crate::fingerprint::{plan_fingerprint, plan_hash};
use crate::operation::{OperationCoordinator, OperationGuard};
use crate::planning::{
    CatalogRule, CleanupDraft, PlannedRule, RunRule, RunRuleView, contains_string,
    keep_member_strings, keep_members, operation_failed, registry_ids,
    requires_preflight_measurement, run_rule_view, run_rules_view,
    spec_requires_preflight_measurement, spec_preparation_stage, preparation_stage,
};
use crate::progress::{ExecutionProgressReporter, copy_strings};
use crate::text::{decimal, push_decimal};
use crate::types::{
    CleanupActionKind, CleanupActionResult, CleanupExecutionProgress, CleanupExecutionStage,
    CleanupRequest, CoreError, DeleteStats, RuleMeasurement,
};

verus! {

/// The registry ids that the request selects, in registry order.
pub open spec fn selected_registry_ids(registry: Seq<CatalogRule>, selected: Seq<Seq<char>>) -> Seq<
    Seq<char>,
> {
    keep_members(registry_ids(registry), selected)
}

/// The selected rules of the ownership plan, in plan order, each with
/// whether it is measured before deletion.
pub open spec fn selected_run_rules(
    rules: Seq<PlannedRule>,
    selected: Seq<Seq<char>>,
    scoped: Seq<Seq<char>>,
    dry_run: bool,
) -> Seq<RunRuleView>
    decreases rules.len(),
{
    if rules.len() == 0 {
        Seq::empty()
    } else {
        let prev = selected_run_rules(rules.drop_last(), selected, scoped, dry_run);
        let r = rules.last();
        if selected.contains(r.id@) {
            prev.push(
                RunRuleView {
                    index: rules.len() - 1,
                    id: r.id@,
                    requires_app_close: r.requires_app_close,
                    measure: spec_requires_preflight_measurement(dry_run, scoped.contains(r.id@)),
                },
            )
        } else {
            prev
        }
    }
}

/// How many of `rules` are measured.
pub open spec fn count_measured(rules: Seq<RunRuleView>) -> nat
    decreases rules.len(),
{
    if rules.len() == 0 {
        0
    } else {
        count_measured(rules.drop_last()) + if rules.last().measure {
            1nat
        } else {
            0nat
        }
    }
}

/// The first rule at or after `from` that is measured, or the rule count.
pub open spec fn next_measured(rules: Seq<RunRuleView>, from: int) -> int
    decreases rules.len() - from,
{
    if from < 0 || from >= rules.len() {
        rules.len() as int
    } else if rules[from].measure {
        from
    } else {
        next_measured(rules, from + 1)
    }
}

/// Whether some selected rule needs its applications closed.
pub open spec fn any_requires_app_close(rules: Seq<RunRuleView>) -> bool {
    exists|k: int| 0 <= k < rules.len() && (#[trigger] rules[k]).requires_app_close
}

/// The bytes a cancelled rule expected to release: what its measurement
/// found, or nothing when it was not measured.
pub open spec fn measured_bytes(m: Option<RuleMeasurement>) -> u64 {
    match m {
        Some(x) => x.bytes,
        None => 0,
    }
}

pub open spec fn total_expected(s: Seq<CleanupActionResult>) -> nat
    decreases s.len(),
{
    if s.len() == 0 {
        0
    } else {
        total_expected(s.drop_last()) + s.last().bytes_expected as nat
    }
}

pub open spec fn total_released(s: Seq<CleanupActionResult>) -> nat
    decreases s.len(),
{
    if s.len() == 0 {
        0
    } else {
        total_released(s.drop_last()) + s.last().released_bytes as nat
    }
}

pub open spec fn total_affected(s: Seq<CleanupActionResult>) -> nat
    decreases s.len(),
{
    if s.len() == 0 {
        0
    } else {
        total_affected(s.drop_last()) + s.last().affected_item_count as nat
    }
}

pub open spec fn total_failed(s: Seq<CleanupActionResult>) -> nat
    decreases s.len(),
{
    if s.len() == 0 {
        0
    } else {
        total_failed(s.drop_last()) + s.last().failed_item_count as nat
    }
}

/// The four totals of `s` fit in `u64`.
pub open spec fn totals_fit(s: Seq<CleanupActionResult>) -> bool {
    &&& total_expected(s) <= u64::MAX
    &&& total_released(s) <= u64::MAX
    &&& total_affected(s) <= u64::MAX
    &&& total_failed(s) <= u64::MAX
}

/// The totals of a run's actions.
#[derive(Clone, Copy, Debug, PartialEq, Eq, Structural)]
pub struct ActionTotals {
    pub expected_bytes: u64,
    pub released_bytes: u64,
    pub affected_item_count: u64,
    pub failed_item_count: u64,
}

pub open spec fn totals_of(s: Seq<CleanupActionResult>) -> ActionTotals {
    ActionTotals {
        expected_bytes: total_expected(s) as u64,
        released_bytes: total_released(s) as u64,
        affected_item_count: total_affected(s) as u64,
        failed_item_count: total_failed(s) as u64,
    }
}

/// Whether the totals of `first` followed by `second` fit in `u64`.
fn totals_fit_exec(first: &Vec<CleanupActionResult>, second: &Vec<CleanupActionResult>) -> (r: bool)
    ensures
        r == totals_fit(first@ + second@),
{
    let ghost all = first@ + second@;
    let n = first.len();
    let mut e: u64 = 0;
    let mut rl: u64 = 0;
    let mut a: u64 = 0;
    let mut f: u64 = 0;
    let mut i: usize = 0;
    while i < n
        invariant
            n == first@.len(),
            all == first@ + second@,
            i <= n,
            e == total_expected(all.take(i as int)),
            rl == total_released(all.take(i as int)),
            a == total_affected(all.take(i as int)),
            f == total_failed(all.take(i as int)),
        decreases n - i,
    {
        let x = &first[i];
        assert(*x == all[i as int]);
        assert(all.take(i + 1).drop_last() =~= all.take(i as int));
        proof {
            lemma_totals_monotone(all, i + 1);
        }
        if e > u64::MAX - x.bytes_expected || rl > u64::MAX - x.released_bytes || a > u64::MAX
            - x.affected_item_count || f > u64::MAX - x.failed_item_count {
            return false;
        }
        e = e + x.bytes_expected;
        rl = rl + x.released_bytes;
        a = a + x.affected_item_count;
        f = f + x.failed_item_count;
        i = i + 1;
    }
    let mut j: usize = 0;
    while j < second.len()
        invariant
            n == first@.len(),
            all == first@ + second@,
            j <= second@.len(),
            e == total_expected(all.take(n + j)),
            rl == total_released(all.take(n + j)),
            a == total_affected(all.take(n + j)),
            f == total_failed(all.take(n + j)),
        decreases second.len() - j,
    {
        let x = &second[j];
        assert(*x == all[n + j]);
        assert(all.take(n + j + 1).drop_last() =~= all.take(n + j));
        proof {
            lemma_totals_monotone(all, n + j + 1);
        }
        if e > u64::MAX - x.bytes_expected || rl > u64::MAX - x.released_bytes || a > u64::MAX
            - x.affected_item_count || f > u64::MAX - x.failed_item_count {
            return false;
        }
        e = e + x.bytes_expected;
        rl = rl + x.released_bytes;
        a = a + x.affected_item_count;
        f = f + x.failed_item_count;
        j = j + 1;
    }
    assert(all.take(all.len() as int) =~= all);
    true
}

/// Totals of a prefix never exceed the totals of the whole sequence.
proof fn lemma_totals_monotone(s: Seq<CleanupActionResult>, k: int)
    requires
        0 <= k <= s.len(),
    ensures
        total_expected(s.take(k)) <= total_expected(s),
        total_released(s.take(k)) <= total_released(s),
        total_affected(s.take(k)) <= total_affected(s),
        total_failed(s.take(k)) <= total_failed(s),
    decreases s.len() - k,
{
    if k < s.len() {
        lemma_totals_monotone(s, k + 1);
        assert(s.take(k + 1).drop_last() =~= s.take(k));
    } else {
        assert(s.take(k) =~= s);
    }
}

fn compute_totals(actions: &Vec<CleanupActionResult>) -> (r: ActionTotals)
    requires
        totals_fit(actions@),
    ensures
        r == totals_of(actions@),
{
    let mut t = ActionTotals {
        expected_bytes: 0,
        released_bytes: 0,
        affected_item_count: 0,
        failed_item_count: 0,
    };
    let mut i: usize = 0;
    while i < actions.len()
        invariant
            i <= actions@.len(),
            totals_fit(actions@),
            t.expected_bytes == total_expected(actions@.take(i as int)),
            t.released_bytes == total_released(actions@.take(i as int)),
            t.affected_item_count == total_affected(actions@.take(i as int)),
            t.failed_item_count == total_failed(actions@.take(i as int)),
        decreases actions.len() - i,
    {
        let x = &actions[i];
        assert(actions@.take(i + 1).drop_last() =~= actions@.take(i as int));
        proof { lemma_totals_monotone(actions@, i + 1); }
        t = ActionTotals {
            expected_bytes: t.expected_bytes + x.bytes_expected,
            released_bytes: t.released_bytes + x.released_bytes,
            affected_item_count: t.affected_item_count + x.affected_item_count,
            failed_item_count: t.failed_item_count + x.failed_item_count,
        };
        i = i + 1;
    }
    assert(actions@.take(actions@.len() as int) =~= actions@);
    t
}

/// What a run waits for.
#[derive(Clone, Copy, Debug, PartialEq, Eq, Structural)]
pub enum RunAwaiting {
    /// Nothing: `resume` continues with the measurement stage.
    Measuring,
    /// The measurement of the current rule.
    Measurement,
    /// A snapshot of the running processes.
    ProcessSnapshot,
    /// The action result of the current rule.
    RuleAction,
    /// The action results of the specialized cleaners.
    CleanerActions,
    /// The history record to be saved.
    HistoryRecord,
    /// Nothing any more: the run failed or completed.
    Finished,
}

/// The outside work that a run asks for next.
#[derive(Debug)]
pub enum RunCommand {
    /// Measure the rule at `rule_index` of the ownership plan, read-only.
    Measure { rule_index: usize, rule_id: String },
    /// Capture the running processes before deletion starts.
    CaptureProcesses,
    /// Execute the rule at `rule_index` of the ownership plan.
    ExecuteRule { rule_index: usize, rule_id: String, measurement: Option<RuleMeasurement> },
    /// Report the rule as cancelled without touching its files.
    CancelRule { rule_id: String, action_kind: CleanupActionKind, bytes_expected: u64 },
    /// Run the selected specialized cleaners.
    RunCleaners { rule_ids: Vec<String> },
    /// Build and save the history record of the run's actions.
    RecordHistory { totals: ActionTotals },
    /// Stop: the execution failed with this error.
    Fail(CoreError),
}

/// Progress snapshots to publish, in order, then the next command.
#[derive(Debug)]
pub struct RunStep {
    pub progress: Vec<CleanupExecutionProgress>,
    pub command: RunCommand,
}

/// The result of a completed deep cleanup step.
#[derive(Debug)]
pub struct CleanupOutcome {
    pub plan_id: String,
    pub plan_hash: String,
    pub expected_bytes: u64,
    pub released_bytes: u64,
    pub affected_item_count: u64,
    pub failed_item_count: u64,
    pub dry_run: bool,
    pub actions: Vec<CleanupActionResult>,
    pub history_saved: bool,
}

/// A deep cleanup step in progress.
#[derive(Debug)]
pub struct CleanupRun {
    pub guard: OperationGuard,
    pub request: CleanupRequest,
    pub operation_id: String,
    pub selected_volume_scope: bool,
    pub started_at_ms: u64,
    /// The selected rules of the ownership plan, in plan order.
    pub rules: Vec<RunRule>,
    pub cleaner_rule_ids: Vec<String>,
    pub measured_rule_count: usize,
    /// The measurement of each rule handled so far, `None` if not measured.
    pub measurements: Vec<Option<RuleMeasurement>>,
    /// The rule being measured or executed.
    pub cursor: usize,
    pub reporter: ExecutionProgressReporter,
    pub actions: Vec<CleanupActionResult>,
    pub plan_id: String,
    pub plan_hash: String,
    pub totals: ActionTotals,
    pub awaiting: RunAwaiting,
}

impl CleanupRun {
    pub open spec fn rules_view(&self) -> Seq<RunRuleView> {
        run_rules_view(self.rules@)
    }

    /// The counters are consistent and each recorded measurement belongs to
    /// a measured rule.
    pub open spec fn core_wf(&self) -> bool {
        let rules = self.rules_view();
        &&& self.reporter.wf()
        &&& self.measured_rule_count == count_measured(rules)
        &&& self.cursor <= rules.len()
        &&& self.measurements@.len() <= rules.len()
        &&& forall|k: int|
            0 <= k < self.measurements@.len() ==> ((#[trigger] self.measurements@[k]) is Some
                == rules[k].measure)
    }

    /// The plan id and fingerprint are those of this run.
    pub open spec fn plan_fixed(&self) -> bool {
        &&& self.plan_id@ == "plan-"@ + decimal(self.started_at_ms as nat)
        &&& self.plan_hash@ == plan_fingerprint(
            self.plan_id@,
            self.request.rule_ids.deep_view(),
            self.request.project_roots.deep_view(),
            self.request.source_selections@,
            self.request.dry_run,
        )
    }

    /// The run's state is consistent with what it waits for.
    pub open spec fn wf(&self) -> bool {
        let rules = self.rules_view();
        &&& self.core_wf()
        &&& match self.awaiting {
            RunAwaiting::Measuring => {
                &&& self.measurements@.len() == self.cursor
                &&& self.actions@.len() == 0
            },
            RunAwaiting::Measurement => {
                &&& self.actions@.len() == 0
                &&& self.measurements@.len() == self.cursor
                &&& self.cursor < rules.len()
                &&& rules[self.cursor as int].measure
            },
            RunAwaiting::ProcessSnapshot => {
                &&& self.actions@.len() == 0
                &&& self.measurements@.len() == rules.len()
                &&& self.cursor == rules.len()
            },
            RunAwaiting::RuleAction => {
                &&& self.actions@.len() == self.cursor
                &&& self.measurements@.len() == rules.len()
                &&& self.cursor < rules.len()
                &&& self.plan_fixed()
            },
            RunAwaiting::CleanerActions => {
                &&& self.actions@.len() == self.cursor
                &&& self.measurements@.len() == rules.len()
                &&& self.cursor == rules.len()
                &&& self.plan_fixed()
            },
            RunAwaiting::HistoryRecord => {
                &&& self.plan_fixed()
                &&& totals_fit(self.actions@)
                &&& self.totals == totals_of(self.actions@)
            },
            RunAwaiting::Finished => true,
        }
    }

    /// `after` runs the same plan as `self`.
    pub open spec fn same_plan(&self, after: CleanupRun) -> bool {
        &&& after.guard == self.guard
        &&& after.request == self.request
        &&& after.operation_id == self.operation_id
        &&& after.selected_volume_scope == self.selected_volume_scope
        &&& after.started_at_ms == self.started_at_ms
        &&& after.rules == self.rules
        &&& after.cleaner_rule_ids == self.cleaner_rule_ids
        &&& after.measured_rule_count == self.measured_rule_count
    }

    /// `self` failed with `e`: the operation was released and nothing more
    /// was published.
    pub open spec fn failed_with(
        &self,
        e: CoreError,
        ops_before: OperationCoordinator,
        ops_after: OperationCoordinator,
        step: RunStep,
    ) -> bool {
        &&& self.awaiting == RunAwaiting::Finished
        &&& ops_after == ops_before.after_finish(self.guard)
        &&& step.progress@.len() == 0
        &&& step.command == RunCommand::Fail(e)
    }

    /// Starting from the rule at `cursor` with `reporter`, `self` went on
    /// cleaning: the next rule begins (and is executed, or reported
    /// cancelled when `cancel`), or the cleaners are run after the last rule.
    pub open spec fn cleaning_continued(
        &self,
        reporter: ExecutionProgressReporter,
        cursor: int,
        cancel: bool,
        progress_before: Seq<CleanupExecutionProgress>,
        progress_after: Seq<CleanupExecutionProgress>,
        cmd: RunCommand,
        now_ms: u64,
    ) -> bool {
        let rules = self.rules_view();
        if cursor < rules.len() {
            &&& self.reporter == reporter.after_begin_rule()
            &&& self.cursor == cursor
            &&& self.awaiting == RunAwaiting::RuleAction
            &&& progress_after.len() == progress_before.len() + 1
            &&& progress_after.drop_last() == progress_before
            &&& self.reporter.is_snapshot(
                progress_after.last(),
                CleanupExecutionStage::Cleaning,
                Some(self.rules@[cursor].id),
                now_ms,
            )
            &&& if cancel {
                &&& cmd matches RunCommand::CancelRule { rule_id, action_kind, bytes_expected }
                &&& cmd->CancelRule_rule_id@ == rules[cursor].id
                &&& cmd->action_kind == CleanupActionKind::Delete
                &&& cmd->bytes_expected == measured_bytes(self.measurements@[cursor])
            } else {
                &&& cmd matches RunCommand::ExecuteRule { rule_index, rule_id, measurement }
                &&& cmd->ExecuteRule_rule_index == rules[cursor].index
                &&& cmd->ExecuteRule_rule_id@ == rules[cursor].id
                &&& cmd->measurement == self.measurements@[cursor]
            }
        } else {
            &&& self.reporter == reporter
            &&& self.cursor == cursor
            &&& self.awaiting == RunAwaiting::CleanerActions
            &&& progress_after == progress_before
            &&& cmd matches RunCommand::RunCleaners { rule_ids }
            &&& cmd->rule_ids.deep_view() == self.cleaner_rule_ids.deep_view()
        }
    }

    /// With all measurements done and `reporter`, `self` began cleaning:
    /// the plan id and fingerprint are fixed, the validation stage is closed
    /// when some rule was measured, and cleaning continues at the first rule.
    pub open spec fn cleaning_began(
        &self,
        reporter: ExecutionProgressReporter,
        cancel: bool,
        progress_before: Seq<CleanupExecutionProgress>,
        progress_after: Seq<CleanupExecutionProgress>,
        cmd: RunCommand,
        now_ms: u64,
    ) -> bool {
        &&& self.plan_fixed()
        &&& self.cleaning_continued(
            if self.measured_rule_count > 0 {
                reporter.after_finish_validation()
            } else {
                reporter
            },
            0,
            cancel,
            progress_before,
            progress_after,
            cmd,
            now_ms,
        )
    }

    /// From the rule at `cursor`, with `reporter` and the measurements
    /// `measured` so far, `self` went on measuring: unmeasured rules are
    /// passed over, the next measured rule is asked for, and after the last
    /// rule the running processes are captured when some rule needs its
    /// applications closed, or cleaning begins. A cancellation fails the run.
    pub open spec fn measuring_continued(
        &self,
        reporter: ExecutionProgressReporter,
        cursor: int,
        measured: Seq<Option<RuleMeasurement>>,
        cancel: bool,
        ops_before: OperationCoordinator,
        ops_after: OperationCoordinator,
        progress_before: Seq<CleanupExecutionProgress>,
        progress_after: Seq<CleanupExecutionProgress>,
        cmd: RunCommand,
        now_ms: u64,
    ) -> bool {
        let rules = self.rules_view();
        let j = next_measured(rules, cursor);
        if cancel {
            &&& self.awaiting == RunAwaiting::Finished
            &&& ops_after == ops_before.after_finish(self.guard)
            &&& progress_after == progress_before
            &&& cmd == RunCommand::Fail(CoreError::Cancelled)
        } else {
            &&& ops_after == ops_before
            &&& self.measurements@ == measured + Seq::new(
                (j - cursor) as nat,
                |k: int| None::<RuleMeasurement>,
            )
            &&& if j < rules.len() {
                &&& self.reporter == reporter
                &&& self.cursor == j
                &&& self.awaiting == RunAwaiting::Measurement
                &&& progress_after.len() == progress_before.len() + 1
                &&& progress_after.drop_last() == progress_before
                &&& reporter.is_snapshot(
                    progress_after.last(),
                    CleanupExecutionStage::Validating,
                    Some(self.rules@[j].id),
                    now_ms,
                )
                &&& cmd matches RunCommand::Measure { rule_index, rule_id }
                &&& cmd->Measure_rule_index == rules[j].index
                &&& cmd->Measure_rule_id@ == rules[j].id
            } else if any_requires_app_close(rules) {
                &&& self.reporter == reporter
                &&& self.cursor == rules.len()
                &&& self.awaiting == RunAwaiting::ProcessSnapshot
                &&& progress_after == progress_before
                &&& cmd == RunCommand::CaptureProcesses
            } else {
                self.cleaning_began(reporter, false, progress_before, progress_after, cmd, now_ms)
            }
        }
    }
}

fn registry_id_strings(registry: &Vec<CatalogRule>) -> (r: Vec<String>)
    ensures
        r.deep_view() == registry_ids(registry@),
{
    let mut r: Vec<String> = Vec::new();
    let mut i: usize = 0;
    while i < registry.len()
        invariant
            i <= registry@.len(),
            r.deep_view() == registry_ids(registry@).take(i as int),
        decreases registry.len() - i,
    {
        let ghost before = r.deep_view();
        r.push(registry[i].id.clone());
        assert(r.deep_view() =~= before.push(registry@[i as int].id@));
        assert(registry_ids(registry@).take(i + 1) =~= registry_ids(registry@).take(i as int).push(
            registry@[i as int].id@,
        ));
        i = i + 1;
    }
    assert(registry_ids(registry@).take(registry@.len() as int) =~= registry_ids(registry@));
    r
}

proof fn lemma_count_measured_bound(rules: Seq<RunRuleView>)
    ensures
        count_measured(rules) <= rules.len(),
    decreases rules.len(),
{
    if rules.len() > 0 {
        lemma_count_measured_bound(rules.drop_last());
    }
}

fn select_run_rules(
    rules: &Vec<PlannedRule>,
    selected: &Vec<String>,
    scoped: &Vec<String>,
    dry_run: bool,
) -> (r: (Vec<RunRule>, usize))
    ensures
        run_rules_view(r.0@) == selected_run_rules(
            rules@,
            selected.deep_view(),
            scoped.deep_view(),
            dry_run,
        ),
        r.1 == count_measured(run_rules_view(r.0@)),
{
    let mut out: Vec<RunRule> = Vec::new();
    let mut count: usize = 0;
    let mut i: usize = 0;
    while i < rules.len()
        invariant
            i <= rules@.len(),
            run_rules_view(out@) == selected_run_rules(
                rules@.take(i as int),
                selected.deep_view(),
                scoped.deep_view(),
                dry_run,
            ),
            count == count_measured(run_rules_view(out@)),
            out@.len() <= i,
        decreases rules.len() - i,
    {
        let rule = &rules[i];
        let ghost t = rules@.take(i + 1);
        assert(t.drop_last() =~= rules@.take(i as int));
        assert(t.last() == rules@[i as int]);
        if contains_string(selected, &rule.id) {
            let measure = requires_preflight_measurement(dry_run, contains_string(scoped, &rule.id));
            let ghost before = run_rules_view(out@);
            let item = RunRule {
                index: i,
                id: rule.id.clone(),
                requires_app_close: rule.requires_app_close,
                measure,
            };
            let ghost iv = run_rule_view(item);
            out.push(item);
            assert(run_rules_view(out@) =~= before.push(iv));
            assert(run_rules_view(out@).drop_last() =~= before);
            proof {
                lemma_count_measured_bound(before);
            }
            if measure {
                count = count + 1;
            }
        }
        i = i + 1;
    }
    assert(rules@.take(rules@.len() as int) =~= rules@);
    (out, count)
}

impl CleanupDraft {
    /// The execution order of the selected rules: registry rules in registry
    /// order, then the cleaners in the order the cleaner catalog runs them.
    pub open spec fn planned_rule_ids(&self, cleaner_execution_ids: Seq<Seq<char>>) -> Seq<Seq<char>> {
        selected_registry_ids(self.registry@, self.request.rule_ids.deep_view())
            + cleaner_execution_ids
    }

    /// Fixes the execution order and the selected rules of the ownership
    /// plan, and publishes the first stage of the run.
    pub fn plan(
        self,
        ops: &mut OperationCoordinator,
        cleaner_execution_ids: Vec<String>,
        ownership: Result<Vec<PlannedRule>, CoreError>,
        now_ms: u64,
    ) -> (r: Result<(CleanupRun, CleanupExecutionProgress), CoreError>)
        ensures
            self.planned_rule_ids(cleaner_execution_ids.deep_view()).len()
                != self.request.rule_ids@.len() ==> {
                &&& r is Err
                &&& operation_failed(
                    r->Err_0,
                    "cleanup execution planning did not preserve every selected rule"@,
                )
                &&& *final(ops) == old(ops).after_finish(self.guard)
            },
            self.planned_rule_ids(cleaner_execution_ids.deep_view()).len()
                == self.request.rule_ids@.len() && ownership is Err ==> {
                &&& r == Err::<(CleanupRun, CleanupExecutionProgress), CoreError>(
                    ownership->Err_0,
                )
                &&& *final(ops) == old(ops).after_finish(self.guard)
            },
            self.planned_rule_ids(cleaner_execution_ids.deep_view()).len()
                == self.request.rule_ids@.len() && ownership is Ok ==> {
                let run = r->Ok_0.0;
                &&& r is Ok
                &&& *final(ops) == *old(ops)
                &&& run.wf()
                &&& run.awaiting == RunAwaiting::Measuring
                &&& run.cursor == 0
                &&& run.guard == self.guard
                &&& run.request == self.request
                &&& run.operation_id == self.operation_id
                &&& run.selected_volume_scope == self.selected_volume_scope
                &&& run.started_at_ms == self.started_at_ms
                &&& run.cleaner_rule_ids == self.cleaner_rule_ids
                &&& run.rules_view() == selected_run_rules(
                    ownership->Ok_0@,
                    self.request.rule_ids.deep_view(),
                    self.source_scoped_rule_ids.deep_view(),
                    self.request.dry_run,
                )
                &&& run.actions@.len() == 0
                &&& run.reporter.is_fresh(now_ms)
                &&& run.reporter.planned_rule_ids.deep_view() == self.planned_rule_ids(
                    cleaner_execution_ids.deep_view(),
                )
                &&& run.reporter.is_snapshot(
                    r->Ok_0.1,
                    spec_preparation_stage(run.measured_rule_count as int),
                    None,
                    now_ms,
                )
            },
    {
        let CleanupDraft {
            guard,
            request,
            operation_id,
            selected_volume_scope,
            started_at_ms,
            registry,
            source_scoped_rule_ids,
            cleaner_rule_ids,
        } = self;
        let ids = registry_id_strings(&registry);
        let mut planned = keep_member_strings(&ids, &request.rule_ids);
        let mut execution_ids = cleaner_execution_ids;
        let ghost first = planned.deep_view();
        let ghost second = execution_ids.deep_view();
        planned.append(&mut execution_ids);
        assert(planned.deep_view() =~= first + second);
        if planned.len() != request.rule_ids.len() {
            ops.finish(guard);
            return Err(
                CoreError::OperationFailed(
                    "cleanup execution planning did not preserve every selected rule".to_owned(),
                ),
            );
        }
        let reporter = ExecutionProgressReporter::new(planned, now_ms);
        let ownership_rules = match ownership {
            Ok(v) => v,
            Err(e) => {
                ops.finish(guard);
                return Err(e);
            },
        };
        let (rules, measured_rule_count) = select_run_rules(
            &ownership_rules,
            &request.rule_ids,
            &source_scoped_rule_ids,
            request.dry_run,
        );
        let first_progress = reporter.emit(preparation_stage(measured_rule_count), None, now_ms);
        let run = CleanupRun {
            guard,
            request,
            operation_id,
            selected_volume_scope,
            started_at_ms,
            rules,
            cleaner_rule_ids,
            measured_rule_count,
            measurements: Vec::new(),
            cursor: 0,
            reporter,
            actions: Vec::new(),
            plan_id: String::new(),
            plan_hash: String::new(),
            totals: ActionTotals {
                expected_bytes: 0,
                released_bytes: 0,
                affected_item_count: 0,
                failed_item_count: 0,
            },
            awaiting: RunAwaiting::Measuring,
        };
        Ok((run, first_progress))
    }
}

proof fn lemma_next_measured_skip(rules: Seq<RunRuleView>, c: int)
    requires
        0 <= c < rules.len(),
        !rules[c].measure,
    ensures
        next_measured(rules, c) == next_measured(rules, c + 1),
{
}

proof fn lemma_next_measured_bound(rules: Seq<RunRuleView>, c: int)
    requires
        0 <= c <= rules.len(),
    ensures
        c <= next_measured(rules, c) <= rules.len(),
        next_measured(rules, c) < rules.len() ==> rules[next_measured(rules, c)].measure,
    decreases rules.len() - c,
{
    if c < rules.len() && !rules[c].measure {
        lemma_next_measured_bound(rules, c + 1);
    }
}

impl CleanupRun {
    fn any_rule_requires_app_close(&self) -> (r: bool)
        ensures
            r == any_requires_app_close(self.rules_view()),
    {
        let mut i: usize = 0;
        while i < self.rules.len()
            invariant
                i <= self.rules@.len(),
                forall|k: int| 0 <= k < i ==> !(#[trigger] self.rules_view()[k]).requires_app_close,
            decreases self.rules.len() - i,
        {
            if self.rules[i].requires_app_close {
                assert(self.rules_view()[i as int].requires_app_close);
                return true;
            }
            i = i + 1;
        }
        false
    }

    /// Goes on with the rule at the cursor: begins it and asks for its
    /// execution, or for its cancelled result; after the last rule, asks for
    /// the cleaners.
    fn continue_cleaning(
        &mut self,
        ops: &OperationCoordinator,
        now_ms: u64,
        progress: &mut Vec<CleanupExecutionProgress>,
    ) -> (cmd: RunCommand)
        requires
            old(self).core_wf(),
            old(self).plan_fixed(),
            old(self).measurements@.len() == old(self).rules@.len(),
            old(self).actions@.len() == old(self).cursor,
        ensures
            old(progress)@.len() <= final(progress)@.len(),
            final(progress)@.subrange(0, old(progress)@.len() as int) == old(progress)@,
            final(self).wf(),
            old(self).same_plan(*final(self)),
            final(self).actions == old(self).actions,
            final(self).measurements == old(self).measurements,
            final(self).plan_id == old(self).plan_id,
            final(self).plan_hash == old(self).plan_hash,
            final(self).cleaning_continued(
                old(self).reporter,
                old(self).cursor as int,
                ops.cancel_requested(old(self).guard),
                old(progress)@,
                final(progress)@,
                cmd,
                now_ms,
            ),
    {
        if self.cursor < self.rules.len() {
            let c = self.cursor;
            self.reporter.begin_rule();
            let p = self.reporter.emit(
                CleanupExecutionStage::Cleaning,
                Some(self.rules[c].id.clone()),
                now_ms,
            );
            progress.push(p);
            self.awaiting = RunAwaiting::RuleAction;
            assert(final(progress)@.drop_last() =~= old(progress)@);
            if ops.ensure_not_cancelled(&self.guard).is_err() {
                let bytes = match self.measurements[c] {
                    Some(m) => m.bytes,
                    None => 0,
                };
                RunCommand::CancelRule {
                    rule_id: self.rules[c].id.clone(),
                    action_kind: CleanupActionKind::Delete,
                    bytes_expected: bytes,
                }
            } else {
                RunCommand::ExecuteRule {
                    rule_index: self.rules[c].index,
                    rule_id: self.rules[c].id.clone(),
                    measurement: self.measurements[c],
                }
            }
        } else {
            self.awaiting = RunAwaiting::CleanerActions;
            let rule_ids = copy_strings(&self.cleaner_rule_ids);
            assert(rule_ids.deep_view() =~= self.cleaner_rule_ids.deep_view());
            RunCommand::RunCleaners { rule_ids }
        }
    }

    /// Fixes the plan id and fingerprint, closes the validation stage when
    /// some rule was measured, and begins cleaning at the first rule.
    fn start_cleaning(
        &mut self,
        ops: &OperationCoordinator,
        now_ms: u64,
        progress: &mut Vec<CleanupExecutionProgress>,
    ) -> (cmd: RunCommand)
        requires
            old(self).core_wf(),
            old(self).measurements@.len() == old(self).rules@.len(),
            old(self).actions@.len() == 0,
        ensures
            old(progress)@.len() <= final(progress)@.len(),
            final(progress)@.subrange(0, old(progress)@.len() as int) == old(progress)@,
            final(self).wf(),
            old(self).same_plan(*final(self)),
            final(self).actions == old(self).actions,
            final(self).measurements == old(self).measurements,
            final(self).cleaning_began(
                old(self).reporter,
                ops.cancel_requested(old(self).guard),
                old(progress)@,
                final(progress)@,
                cmd,
                now_ms,
            ),
    {
        let mut plan_id = "plan-".to_owned();
        push_decimal(&mut plan_id, self.started_at_ms);
        let hash = plan_hash(
            &plan_id,
            &self.request.rule_ids,
            &self.request.project_roots,
            &self.request.source_selections,
            self.request.dry_run,
        );
        self.plan_id = plan_id;
        self.plan_hash = hash;
        if self.measured_rule_count > 0 {
            self.reporter.finish_validation();
        }
        self.cursor = 0;
        self.continue_cleaning(ops, now_ms, progress)
    }

    /// Goes on measuring from the cursor.
    fn continue_measuring(
        &mut self,
        ops: &mut OperationCoordinator,
        now_ms: u64,
        progress: &mut Vec<CleanupExecutionProgress>,
    ) -> (cmd: RunCommand)
        requires
            old(self).wf(),
            old(self).awaiting == RunAwaiting::Measuring,
        ensures
            old(progress)@.len() <= final(progress)@.len(),
            final(progress)@.subrange(0, old(progress)@.len() as int) == old(progress)@,
            final(self).wf(),
            old(self).same_plan(*final(self)),
            final(self).actions == old(self).actions,
            final(self).measuring_continued(
                old(self).reporter,
                old(self).cursor as int,
                old(self).measurements@,
                old(ops).cancel_requested(old(self).guard),
                *old(ops),
                *final(ops),
                old(progress)@,
                final(progress)@,
                cmd,
                now_ms,
            ),
    {
        if ops.ensure_not_cancelled(&self.guard).is_err() {
            ops.finish(self.guard);
            self.awaiting = RunAwaiting::Finished;
            return RunCommand::Fail(CoreError::Cancelled);
        }
        let ghost c0 = self.cursor as int;
        let ghost m0 = self.measurements@;
        let ghost rules = self.rules_view();
        proof {
            lemma_next_measured_bound(rules, c0);
        }
        while self.cursor < self.rules.len() && !self.rules[self.cursor].measure
            invariant
                self.core_wf(),
                old(self).same_plan(*self),
                self.actions == old(self).actions,
                self.reporter == old(self).reporter,
                self.awaiting == RunAwaiting::Measuring,
                self.measurements@.len() == self.cursor,
                rules == self.rules_view(),
                c0 <= self.cursor <= rules.len(),
                next_measured(rules, c0) == next_measured(rules, self.cursor as int),
                self.measurements@ == m0 + Seq::new(
                    (self.cursor - c0) as nat,
                    |k: int| None::<RuleMeasurement>,
                ),
            decreases self.rules.len() - self.cursor,
        {
            proof {
                lemma_next_measured_skip(rules, self.cursor as int);
            }
            self.measurements.push(None);
            assert(self.measurements@ =~= m0 + Seq::new(
                (self.cursor + 1 - c0) as nat,
                |k: int| None::<RuleMeasurement>,
            ));
            self.cursor = self.cursor + 1;
        }
        proof {
            lemma_next_measured_bound(rules, self.cursor as int);
        }
        if self.cursor < self.rules.len() {
            let c = self.cursor;
            let p = self.reporter.emit(
                CleanupExecutionStage::Validating,
                Some(self.rules[c].id.clone()),
                now_ms,
            );
            progress.push(p);
            assert(final(progress)@.drop_last() =~= old(progress)@);
            self.awaiting = RunAwaiting::Measurement;
            return RunCommand::Measure {
                rule_index: self.rules[c].index,
                rule_id: self.rules[c].id.clone(),
            };
        }
        if self.any_rule_requires_app_close() {
            self.awaiting = RunAwaiting::ProcessSnapshot;
            return RunCommand::CaptureProcesses;
        }
        self.start_cleaning(ops, now_ms, progress)
    }
}

impl CleanupRun {
    /// Continues a planned run with the measurement stage.
    pub fn resume(&mut self, ops: &mut OperationCoordinator, now_ms: u64) -> (step: RunStep)
        requires
            old(self).wf(),
            old(self).awaiting == RunAwaiting::Measuring,
        ensures
            final(self).wf(),
            old(self).same_plan(*final(self)),
            final(self).actions == old(self).actions,
            final(self).measuring_continued(
                old(self).reporter,
                old(self).cursor as int,
                old(self).measurements@,
                old(ops).cancel_requested(old(self).guard),
                *old(ops),
                *final(ops),
                Seq::empty(),
                step.progress@,
                step.command,
                now_ms,
            ),
    {
        let mut progress: Vec<CleanupExecutionProgress> = Vec::new();
        let command = self.continue_measuring(ops, now_ms, &mut progress);
        RunStep { progress, command }
    }

    /// Takes the measurement of the current rule: a failed measurement fails
    /// the run; otherwise it is accounted for, published, and measuring goes
    /// on with the next rule.
    pub fn on_measured(
        &mut self,
        ops: &mut OperationCoordinator,
        result: Result<RuleMeasurement, CoreError>,
        now_ms: u64,
    ) -> (step: RunStep)
        requires
            old(self).wf(),
            old(self).awaiting == RunAwaiting::Measurement,
        ensures
            final(self).wf(),
            old(self).same_plan(*final(self)),
            final(self).actions == old(self).actions,
            result is Err ==> final(self).failed_with(result->Err_0, *old(ops), *final(ops), step),
            result is Ok ==> {
                let m = result->Ok_0;
                let counted = old(self).reporter.after_record_validation(m.file_count, m.bytes);
                &&& step.progress@.len() >= 1
                &&& counted.is_snapshot(
                    step.progress@[0],
                    CleanupExecutionStage::Validating,
                    Some(old(self).rules@[old(self).cursor as int].id),
                    now_ms,
                )
                &&& final(self).measuring_continued(
                    counted,
                    old(self).cursor + 1,
                    old(self).measurements@.push(Some(m)),
                    old(ops).cancel_requested(old(self).guard),
                    *old(ops),
                    *final(ops),
                    seq![step.progress@[0]],
                    step.progress@,
                    step.command,
                    now_ms,
                )
            },
    {
        match result {
            Err(e) => {
                ops.finish(self.guard);
                self.awaiting = RunAwaiting::Finished;
                RunStep { progress: Vec::new(), command: RunCommand::Fail(e) }
            },
            Ok(m) => {
                let c = self.cursor;
                let n = self.rules.len();
                assert(c < n);
                self.reporter.record_validation(m.file_count, m.bytes);
                let p = self.reporter.emit(
                    CleanupExecutionStage::Validating,
                    Some(self.rules[c].id.clone()),
                    now_ms,
                );
                let mut progress: Vec<CleanupExecutionProgress> = Vec::new();
                progress.push(p);
                let ghost first = progress@;
                self.measurements.push(Some(m));
                self.cursor = c + 1;
                self.awaiting = RunAwaiting::Measuring;
                let command = self.continue_measuring(ops, now_ms, &mut progress);
                assert(progress@.subrange(0, 1) == first);
                assert(progress@[0] == first[0]);
                assert(first =~= seq![progress@[0]]);
                RunStep { progress, command }
            },
        }
    }

    /// Takes the snapshot of running processes: a failure to capture it
    /// fails the run; otherwise cleaning begins.
    pub fn on_processes_captured(
        &mut self,
        ops: &mut OperationCoordinator,
        result: Result<(), String>,
        now_ms: u64,
    ) -> (step: RunStep)
        requires
            old(self).wf(),
            old(self).awaiting == RunAwaiting::ProcessSnapshot,
        ensures
            final(self).wf(),
            old(self).same_plan(*final(self)),
            final(self).actions == old(self).actions,
            result is Err ==> {
                &&& step.command is Fail
                &&& operation_failed(
                    step.command->Fail_0,
                    "failed to verify running applications: "@ + result->Err_0@,
                )
                &&& final(self).failed_with(step.command->Fail_0, *old(ops), *final(ops), step)
            },
            result is Ok ==> {
                &&& *final(ops) == *old(ops)
                &&& final(self).measurements == old(self).measurements
                &&& final(self).cleaning_began(
                    old(self).reporter,
                    old(ops).cancel_requested(old(self).guard),
                    Seq::empty(),
                    step.progress@,
                    step.command,
                    now_ms,
                )
            },
    {
        match result {
            Err(error) => {
                let mut message = "failed to verify running applications: ".to_owned();
                message.append(error.as_str());
                ops.finish(self.guard);
                self.awaiting = RunAwaiting::Finished;
                RunStep {
                    progress: Vec::new(),
                    command: RunCommand::Fail(CoreError::OperationFailed(message)),
                }
            },
            Ok(()) => {
                let mut progress: Vec<CleanupExecutionProgress> = Vec::new();
                let command = self.start_cleaning(ops, now_ms, &mut progress);
                RunStep { progress, command }
            },
        }
    }

    /// Records an item handled by the rule being executed; returns a live
    /// snapshot unless one was published less than the interval ago.
    pub fn record_item(&mut self, path: String, stats: &DeleteStats, now_ms: u64) -> (p: Option<
        CleanupExecutionProgress,
    >)
        requires
            old(self).wf(),
            old(self).awaiting == RunAwaiting::RuleAction,
        ensures
            final(self).wf(),
            *final(self) == (CleanupRun { reporter: final(self).reporter, ..*old(self) }),
            old(self).reporter.records_item(
                final(self).reporter,
                old(self).rules@[old(self).cursor as int].id,
                path,
                *stats,
                now_ms,
                p,
            ),
    {
        let c = self.cursor;
        self.reporter.record_item(&self.rules[c].id, path, stats, now_ms)
    }

    /// Takes the result of the current rule: it is accounted for and
    /// published, and cleaning goes on with the next rule.
    pub fn on_rule_finished(
        &mut self,
        ops: &mut OperationCoordinator,
        action: CleanupActionResult,
        now_ms: u64,
    ) -> (step: RunStep)
        requires
            old(self).wf(),
            old(self).awaiting == RunAwaiting::RuleAction,
        ensures
            final(self).wf(),
            old(self).same_plan(*final(self)),
            *final(ops) == *old(ops),
            final(self).actions@ == old(self).actions@.push(action),
            final(self).measurements == old(self).measurements,
            step.progress@.len() >= 1,
            exists|counted: ExecutionProgressReporter|
                {
                    &&& #[trigger] old(self).reporter.records_action(counted, action)
                    &&& counted.is_snapshot(
                        step.progress@[0],
                        CleanupExecutionStage::Cleaning,
                        Some(old(self).rules@[old(self).cursor as int].id),
                        now_ms,
                    )
                    &&& final(self).cleaning_continued(
                        counted,
                        old(self).cursor + 1,
                        old(ops).cancel_requested(old(self).guard),
                        seq![step.progress@[0]],
                        step.progress@,
                        step.command,
                        now_ms,
                    )
                },
    {
        let c = self.cursor;
        let n = self.rules.len();
        assert(c < n);
        self.reporter.record_action(&action);
        let ghost counted = self.reporter;
        let p = self.reporter.emit(
            CleanupExecutionStage::Cleaning,
            Some(self.rules[c].id.clone()),
            now_ms,
        );
        let mut progress: Vec<CleanupExecutionProgress> = Vec::new();
        progress.push(p);
        let ghost first = progress@;
        self.actions.push(action);
        self.cursor = c + 1;
        let command = self.continue_cleaning(ops, now_ms, &mut progress);
        assert(progress@.subrange(0, 1) == first);
        assert(progress@[0] == first[0]);
        assert(first =~= seq![progress@[0]]);
        assert(old(self).reporter.records_action(counted, action));
        RunStep { progress, command }
    }

    /// Publishes the progress of a specialized cleaner: a finished cleaner
    /// with its result, or a cleaner that begins.
    pub fn record_cleaner_progress(
        &mut self,
        rule_id: String,
        action: Option<&CleanupActionResult>,
        now_ms: u64,
    ) -> (p: CleanupExecutionProgress)
        requires
            old(self).wf(),
            old(self).awaiting == RunAwaiting::CleanerActions,
        ensures
            final(self).wf(),
            *final(self) == (CleanupRun { reporter: final(self).reporter, ..*old(self) }),
            match action {
                Some(a) => old(self).reporter.records_action(final(self).reporter, *a),
                None => final(self).reporter == old(self).reporter.after_begin_rule(),
            },
            final(self).reporter.is_snapshot(
                p,
                CleanupExecutionStage::Cleaning,
                Some(rule_id),
                now_ms,
            ),
    {
        match action {
            Some(a) => self.reporter.record_action(a),
            None => self.reporter.begin_rule(),
        }
        self.reporter.emit(CleanupExecutionStage::Cleaning, Some(rule_id), now_ms)
    }

    /// Whether the totals of every action, with `cleaner_actions` added,
    /// fit in `u64`.
    pub fn totals_fit_with(&self, cleaner_actions: &Vec<CleanupActionResult>) -> (r: bool)
        ensures
            r == totals_fit(self.actions@ + cleaner_actions@),
    {
        totals_fit_exec(&self.actions, cleaner_actions)
    }

    /// Takes the results of the specialized cleaners, totals every action
    /// and asks for the history record.
    pub fn on_cleaners_finished(
        &mut self,
        cleaner_actions: Vec<CleanupActionResult>,
        now_ms: u64,
    ) -> (step: RunStep)
        requires
            old(self).wf(),
            old(self).awaiting == RunAwaiting::CleanerActions,
            totals_fit(old(self).actions@ + cleaner_actions@),
        ensures
            final(self).wf(),
            old(self).same_plan(*final(self)),
            final(self).awaiting == RunAwaiting::HistoryRecord,
            final(self).reporter == old(self).reporter,
            final(self).actions@ == old(self).actions@ + cleaner_actions@,
            final(self).totals == totals_of(final(self).actions@),
            step.progress@.len() == 1,
            final(self).reporter.is_snapshot(
                step.progress@[0],
                CleanupExecutionStage::Finalizing,
                None,
                now_ms,
            ),
            step.command == (RunCommand::RecordHistory { totals: final(self).totals }),
    {
        let mut more = cleaner_actions;
        self.actions.append(&mut more);
        let totals = compute_totals(&self.actions);
        self.totals = totals;
        self.awaiting = RunAwaiting::HistoryRecord;
        let p = self.reporter.emit(CleanupExecutionStage::Finalizing, None, now_ms);
        let mut progress: Vec<CleanupExecutionProgress> = Vec::new();
        progress.push(p);
        RunStep { progress, command: RunCommand::RecordHistory { totals } }
    }

    /// Ends the run once its history record was saved (or failed to save)
    /// and releases the operation.
    pub fn complete(self, ops: &mut OperationCoordinator, history_saved: bool) -> (r: CleanupOutcome)
        requires
            self.wf(),
            self.awaiting == RunAwaiting::HistoryRecord,
        ensures
            *final(ops) == old(ops).after_finish(self.guard),
            r.plan_id == self.plan_id,
            r.plan_hash == self.plan_hash,
            r.plan_id@ == "plan-"@ + decimal(self.started_at_ms as nat),
            r.plan_hash@ == plan_fingerprint(
                r.plan_id@,
                self.request.rule_ids.deep_view(),
                self.request.project_roots.deep_view(),
                self.request.source_selections@,
                self.request.dry_run,
            ),
            r.expected_bytes == total_expected(self.actions@),
            r.released_bytes == total_released(self.actions@),
            r.affected_item_count == total_affected(self.actions@),
            r.failed_item_count == total_failed(self.actions@),
            r.dry_run == self.request.dry_run,
            r.actions == self.actions,
            r.history_saved == history_saved,
    {
        ops.finish(self.guard);
        CleanupOutcome {
            plan_id: self.plan_id,
            plan_hash: self.plan_hash,
            expected_bytes: self.totals.expected_bytes,
            released_bytes: self.totals.released_bytes,
            affected_item_count: self.totals.affected_item_count,
            failed_item_count: self.totals.failed_item_count,
            dry_run: self.request.dry_run,
            actions: self.actions,
            history_saved,
        }
    }
}

/// Once the running cleanup was asked to stop, no further rule is executed:
/// each remaining rule is reported cancelled, expecting the bytes that its
/// measurement found.
pub proof fn lemma_cancelled_cleanup_starts_no_rule(
    run: CleanupRun,
    reporter: ExecutionProgressReporter,
    cursor: int,
    progress_before: Seq<CleanupExecutionProgress>,
    progress_after: Seq<CleanupExecutionProgress>,
    cmd: RunCommand,
    now_ms: u64,
)
    requires
        run.cleaning_continued(reporter, cursor, true, progress_before, progress_after, cmd, now_ms),
    ensures
        !(cmd is ExecuteRule),
        cursor < run.rules@.len() ==> cmd is CancelRule,
{
}

/// Every selected rule of the plan receives exactly one action before the
/// specialized cleaners run.
pub proof fn lemma_one_action_per_rule(run: CleanupRun)
    requires
        run.wf(),
        run.awaiting == RunAwaiting::CleanerActions,
    ensures
        run.actions@.len() == run.rules@.len(),
{
}

/// The run covers exactly the selected rules of the ownership plan, in plan
/// order, and measures exactly those that are previewed or narrowed to some
/// of their sources.
pub proof fn lemma_selected_run_rules(
    rules: Seq<PlannedRule>,
    selected: Seq<Seq<char>>,
    scoped: Seq<Seq<char>>,
    dry_run: bool,
)
    ensures
        forall|k: int|
            0 <= k < selected_run_rules(rules, selected, scoped, dry_run).len() ==> {
                let s = #[trigger] selected_run_rules(rules, selected, scoped, dry_run)[k];
                &&& 0 <= s.index < rules.len()
                &&& s.id == rules[s.index].id@
                &&& selected.contains(s.id)
                &&& s.requires_app_close == rules[s.index].requires_app_close
                &&& s.measure == spec_requires_preflight_measurement(dry_run, scoped.contains(s.id))
            },
        forall|a: int, b: int|
            0 <= a < b < selected_run_rules(rules, selected, scoped, dry_run).len() ==> (
            #[trigger] selected_run_rules(rules, selected, scoped, dry_run)[a]).index < (
            #[trigger] selected_run_rules(rules, selected, scoped, dry_run)[b]).index,
        forall|i: int|
            0 <= i < rules.len() && selected.contains(#[trigger] rules[i].id@) ==> exists|k: int|
                0 <= k < selected_run_rules(rules, selected, scoped, dry_run).len() && (
                #[trigger] selected_run_rules(rules, selected, scoped, dry_run)[k]).index == i,
    decreases rules.len(),
{
    if rules.len() > 0 {
        let d = rules.drop_last();
        lemma_selected_run_rules(d, selected, scoped, dry_run);
        let prev = selected_run_rules(d, selected, scoped, dry_run);
        let cur = selected_run_rules(rules, selected, scoped, dry_run);
        assert forall|k: int| 0 <= k < prev.len() implies prev[k].index < rules.len() - 1 by {
            assert(0 <= prev[k].index < d.len());
        }
        assert forall|i: int|
            0 <= i < rules.len() && selected.contains(#[trigger] rules[i].id@) implies exists|k: int|
                0 <= k < cur.len() && (#[trigger] cur[k]).index == i by {
            if i < rules.len() - 1 {
                assert(d[i] == rules[i]);
                assert(selected.contains(d[i].id@));
                let k = choose|k: int| 0 <= k < prev.len() && (#[trigger] prev[k]).index == i;
                assert(cur[k] == prev[k]);
            } else {
                assert(cur[cur.len() - 1].index == i);
            }
        }
    }
}

proof fn lemma_keep_members_same_pool(s: Seq<Seq<char>>, a: Seq<Seq<char>>, b: Seq<Seq<char>>)
    requires
        forall|x: Seq<char>| a.contains(x) == b.contains(x),
    ensures
        keep_members(s, a) == keep_members(s, b),
    decreases s.len(),
{
    if s.len() > 0 {
        lemma_keep_members_same_pool(s.drop_last(), a, b);
    }
}

/// The execution queue does not follow the selection order: two requests
/// that select the same rules, in any order, queue the same registry rules
/// in the same order.
pub proof fn lemma_queue_ignores_selection_order(
    registry: Seq<CatalogRule>,
    selected_a: Seq<Seq<char>>,
    selected_b: Seq<Seq<char>>,
)
    requires
        forall|x: Seq<char>| selected_a.contains(x) == selected_b.contains(x),
    ensures
        selected_registry_ids(registry, selected_a) == selected_registry_ids(registry, selected_b),
{
    lemma_keep_members_same_pool(registry_ids(registry), selected_a, selected_b);
}

/// No file is touched once a cancellation is seen before cleaning begins:
/// the run fails with `Cancelled`, releases the operation and publishes
/// nothing more.
pub proof fn lemma_cancel_before_cleaning_fails(
    run: CleanupRun,
    reporter: ExecutionProgressReporter,
    cursor: int,
    measured: Seq<Option<RuleMeasurement>>,
    ops_before: OperationCoordinator,
    ops_after: OperationCoordinator,
    progress_before: Seq<CleanupExecutionProgress>,
    progress_after: Seq<CleanupExecutionProgress>,
    cmd: RunCommand,
    now_ms: u64,
)
    requires
        run.measuring_continued(
            reporter,
            cursor,
            measured,
            true,
            ops_before,
            ops_after,
            progress_before,
            progress_after,
            cmd,
            now_ms,
        ),
    ensures
        cmd == RunCommand::Fail(CoreError::Cancelled),
        ops_after == ops_before.after_finish(run.guard),
        progress_after == progress_before,
        run.awaiting == RunAwaiting::Finished,
{
}

/// The totals are sums over the actions: the totals of actions `s`
/// followed by `t` are the totals of `s` plus those of `t`, and one action
/// contributes exactly its own counts.
pub proof fn lemma_totals_are_sums(s: Seq<CleanupActionResult>, t: Seq<CleanupActionResult>)
    ensures
        total_expected(s + t) == total_expected(s) + total_expected(t),
        total_released(s + t) == total_released(s) + total_released(t),
        total_affected(s + t) == total_affected(s) + total_affected(t),
        total_failed(s + t) == total_failed(s) + total_failed(t),
        total_expected(Seq::<CleanupActionResult>::empty()) == 0,
        total_released(Seq::<CleanupActionResult>::empty()) == 0,
        total_affected(Seq::<CleanupActionResult>::empty()) == 0,
        total_failed(Seq::<CleanupActionResult>::empty()) == 0,
        t.len() == 1 ==> {
            &&& total_expected(t) == t[0].bytes_expected
            &&& total_released(t) == t[0].released_bytes
            &&& total_affected(t) == t[0].affected_item_count
            &&& total_failed(t) == t[0].failed_item_count
        },
    decreases t.len(),
{
    if t.len() == 0 {
        assert(s + t =~= s);
    } else {
        lemma_totals_are_sums(s, t.drop_last());
        assert((s + t).drop_last() =~= s + t.drop_last());
        assert((s + t).last() == t.last());
        if t.len() == 1 {
            assert(t.drop_last() =~= Seq::<CleanupActionResult>::empty());
        }
    }
}

/// A run's first stage is validation exactly when some of its rules is
/// measured, and cleaning when none is.
pub proof fn lemma_first_stage_follows_measured_rules(rules: Seq<RunRuleView>)
    ensures
        (spec_preparation_stage(count_measured(rules) as int) == CleanupExecutionStage::Validating)
            <==> exists|k: int| 0 <= k < rules.len() && (#[trigger] rules[k]).measure,
        (spec_preparation_stage(count_measured(rules) as int) == CleanupExecutionStage::Cleaning)
            <==> forall|k: int| 0 <= k < rules.len() ==> !(#[trigger] rules[k]).measure,
{
    lemma_count_measured_zero(rules);
}

proof fn lemma_count_measured_zero(rules: Seq<RunRuleView>)
    ensures
        count_measured(rules) == 0 <==> forall|k: int|
            0 <= k < rules.len() ==> !(#[trigger] rules[k]).measure,
    decreases rules.len(),
{
    if rules.len() > 0 {
        lemma_count_measured_zero(rules.drop_last());
        assert forall|k: int| 0 <= k < rules.len() - 1 implies #[trigger] rules.drop_last()[k]
            == rules[k] by {}
        if count_measured(rules) == 0 {
            assert forall|k: int| 0 <= k < rules.len() implies !(#[trigger] rules[k]).measure by {
                if k < rules.len() - 1 {
                    assert(rules.drop_last()[k] == rules[k]);
                }
            }
        }
        if forall|k: int| 0 <= k < rules.len() ==> !(#[trigger] rules[k]).measure {
            assert(!rules[rules.len() - 1].measure);
            assert forall|k: int| 0 <= k < rules.drop_last().len() implies !(
            #[trigger] rules.drop_last()[k]).measure by {
                assert(!rules[k].measure);
            }
        }
    }
}

} // verus!
