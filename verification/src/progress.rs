//! The execution progress reporter: counters that the cleanup pipeline keeps
//! while it validates and deletes, and the snapshots it publishes from them.
//!
//! Times are milliseconds read from one clock by the caller; the reporter
//! only compares them.

use vstd::prelude::*;
use crate::types::{
    CleanupActionResult, CleanupExecutionProgress, CleanupExecutionRuleResult,
    CleanupExecutionStage, DeleteStats,
};

verus! {

/// Minimum time between two live item snapshots of the same rule.
pub const ITEM_PROGRESS_INTERVAL_MS: u64 = 80;

/// `a + b`, saturating at `u64::MAX`.
pub open spec fn sat_add(a: u64, b: u64) -> u64 {
    if a + b > u64::MAX { u64::MAX } else { (a + b) as u64 }
}

/// `a - b`, saturating at zero.
pub open spec fn sat_sub(a: u64, b: u64) -> u64 {
    if a < b { 0 } else { (a - b) as u64 }
}

/// One more than `count`, saturating, and never above `total`.
pub open spec fn count_one_more(count: u64, total: u64) -> u64 {
    let next = sat_add(count, 1);
    if next < total { next } else { total }
}

/// The summary of a completed rule as derived from its action result.
pub open spec fn rule_summary(action: CleanupActionResult) -> CleanupExecutionRuleResult {
    CleanupExecutionRuleResult {
        rule_id: action.rule_id,
        status: action.status,
        affected_item_count: action.affected_item_count,
        released_bytes: action.released_bytes,
    }
}

/// Copies a list of strings element by element.
pub fn copy_strings(v: &Vec<String>) -> (r: Vec<String>)
    ensures
        r@ == v@,
{
    let mut r: Vec<String> = Vec::new();
    let mut i: usize = 0;
    while i < v.len()
        invariant
            i <= v.len(),
            r@ == v@.subrange(0, i as int),
        decreases v.len() - i,
    {
        r.push(v[i].clone());
        i = i + 1;
    }
    assert(r@ =~= v@);
    r
}

/// Copies an optional string.
pub fn copy_optional_string(v: &Option<String>) -> (r: Option<String>)
    ensures
        r == *v,
{
    match v {
        Some(s) => Some(s.clone()),
        None => None,
    }
}

/// Copies one rule summary.
pub fn copy_rule_result(x: &CleanupExecutionRuleResult) -> (r: CleanupExecutionRuleResult)
    ensures
        r == *x,
{
    CleanupExecutionRuleResult {
        rule_id: x.rule_id.clone(),
        status: x.status,
        affected_item_count: x.affected_item_count,
        released_bytes: x.released_bytes,
    }
}

/// Copies a list of rule summaries element by element.
pub fn copy_rule_results(v: &Vec<CleanupExecutionRuleResult>) -> (r: Vec<CleanupExecutionRuleResult>)
    ensures
        r@ == v@,
{
    let mut r: Vec<CleanupExecutionRuleResult> = Vec::new();
    let mut i: usize = 0;
    while i < v.len()
        invariant
            i <= v.len(),
            r@ == v@.subrange(0, i as int),
        decreases v.len() - i,
    {
        r.push(copy_rule_result(&v[i]));
        i = i + 1;
    }
    assert(r@ =~= v@);
    r
}

/// Counters of one cleanup execution, from which progress snapshots are made.
#[derive(Debug)]
pub struct ExecutionProgressReporter {
    /// Clock reading when the execution started.
    pub started_ms: u64,
    /// Rule ids in execution order: declarative rules first, then cleaners.
    pub planned_rule_ids: Vec<String>,
    pub total_rule_count: u64,
    pub validated_rule_count: u64,
    pub completed_rule_count: u64,
    pub checked_item_count: u64,
    pub checked_bytes: u64,
    pub affected_item_count: u64,
    pub released_bytes: u64,
    pub current_item_path: Option<String>,
    pub current_rule_affected_item_count: u64,
    pub current_rule_released_bytes: u64,
    pub completed_rule_results: Vec<CleanupExecutionRuleResult>,
    /// Clock reading of the last live item snapshot of the current rule.
    pub last_item_emit_ms: Option<u64>,
}

impl ExecutionProgressReporter {
    /// The counters are consistent: the total is the number of planned
    /// rules, and neither validated nor completed rules exceed it.
    pub open spec fn wf(&self) -> bool {
        &&& self.total_rule_count == self.planned_rule_ids@.len()
        &&& self.validated_rule_count <= self.total_rule_count
        &&& self.completed_rule_count <= self.total_rule_count
    }

    /// `p` is the snapshot of these counters at `stage`, for `rule_id`, at
    /// clock reading `now_ms`. Totals include the rule in progress.
    pub open spec fn is_snapshot(
        &self,
        p: CleanupExecutionProgress,
        stage: CleanupExecutionStage,
        rule_id: Option<String>,
        now_ms: u64,
    ) -> bool {
        &&& p.stage == stage
        &&& p.planned_rule_ids@ == self.planned_rule_ids@
        &&& p.current_rule_id == rule_id
        &&& p.current_item_path == self.current_item_path
        &&& p.current_rule_affected_item_count == self.current_rule_affected_item_count
        &&& p.current_rule_released_bytes == self.current_rule_released_bytes
        &&& p.completed_rule_results@ == self.completed_rule_results@
        &&& p.validated_rule_count == self.validated_rule_count
        &&& p.completed_rule_count == self.completed_rule_count
        &&& p.total_rule_count == self.total_rule_count
        &&& p.checked_item_count == self.checked_item_count
        &&& p.checked_bytes == self.checked_bytes
        &&& p.affected_item_count == sat_add(
            self.affected_item_count,
            self.current_rule_affected_item_count,
        )
        &&& p.released_bytes == sat_add(self.released_bytes, self.current_rule_released_bytes)
        &&& p.elapsed_ms == sat_sub(now_ms, self.started_ms)
    }

    /// The rule-local counters are cleared, as at the start of a rule.
    pub open spec fn rule_cleared(&self) -> bool {
        &&& self.current_item_path is None
        &&& self.current_rule_affected_item_count == 0
        &&& self.current_rule_released_bytes == 0
        &&& self.last_item_emit_ms is None
    }

    /// The counters after `record_validation(item_count, bytes)`.
    pub open spec fn after_record_validation(self, item_count: u64, bytes: u64) -> Self {
        ExecutionProgressReporter {
            validated_rule_count: count_one_more(self.validated_rule_count, self.total_rule_count),
            checked_item_count: sat_add(self.checked_item_count, item_count),
            checked_bytes: sat_add(self.checked_bytes, bytes),
            ..self
        }
    }

    /// The counters after `finish_validation()`.
    pub open spec fn after_finish_validation(self) -> Self {
        ExecutionProgressReporter { validated_rule_count: self.total_rule_count, ..self }
    }

    /// The counters after `begin_rule()`.
    pub open spec fn after_begin_rule(self) -> Self {
        ExecutionProgressReporter {
            current_item_path: None,
            current_rule_affected_item_count: 0,
            current_rule_released_bytes: 0,
            last_item_emit_ms: None,
            ..self
        }
    }

    /// `after` holds the counters after `record_action(action)`.
    pub open spec fn records_action(self, after: Self, action: CleanupActionResult) -> bool {
        &&& after == (ExecutionProgressReporter {
            current_item_path: None,
            current_rule_affected_item_count: 0,
            current_rule_released_bytes: 0,
            last_item_emit_ms: None,
            completed_rule_count: count_one_more(self.completed_rule_count, self.total_rule_count),
            affected_item_count: sat_add(self.affected_item_count, action.affected_item_count),
            released_bytes: sat_add(self.released_bytes, action.released_bytes),
            completed_rule_results: after.completed_rule_results,
            ..self
        })
        &&& after.completed_rule_results@ == self.completed_rule_results@.push(rule_summary(action))
    }

    /// Every counter is zero and the clock started at `now_ms`.
    pub open spec fn is_fresh(&self, now_ms: u64) -> bool {
        &&& self.wf()
        &&& self.started_ms == now_ms
        &&& self.validated_rule_count == 0
        &&& self.completed_rule_count == 0
        &&& self.checked_item_count == 0
        &&& self.checked_bytes == 0
        &&& self.affected_item_count == 0
        &&& self.released_bytes == 0
        &&& self.rule_cleared()
        &&& self.completed_rule_results@.len() == 0
    }

    /// A reporter for `planned_rule_ids` with every counter at zero.
    pub fn new(planned_rule_ids: Vec<String>, now_ms: u64) -> (r: Self)
        ensures
            r.is_fresh(now_ms),
            r.planned_rule_ids == planned_rule_ids,
            r.total_rule_count == planned_rule_ids@.len(),
    {
        let total_rule_count = planned_rule_ids.len() as u64;
        ExecutionProgressReporter {
            started_ms: now_ms,
            planned_rule_ids,
            total_rule_count,
            validated_rule_count: 0,
            completed_rule_count: 0,
            checked_item_count: 0,
            checked_bytes: 0,
            affected_item_count: 0,
            released_bytes: 0,
            current_item_path: None,
            current_rule_affected_item_count: 0,
            current_rule_released_bytes: 0,
            completed_rule_results: Vec::new(),
            last_item_emit_ms: None,
        }
    }

    /// The snapshot of the current counters.
    pub fn emit(
        &self,
        stage: CleanupExecutionStage,
        current_rule_id: Option<String>,
        now_ms: u64,
    ) -> (p: CleanupExecutionProgress)
        ensures
            self.is_snapshot(p, stage, current_rule_id, now_ms),
    {
        CleanupExecutionProgress {
            stage,
            planned_rule_ids: copy_strings(&self.planned_rule_ids),
            current_rule_id,
            current_item_path: copy_optional_string(&self.current_item_path),
            current_rule_affected_item_count: self.current_rule_affected_item_count,
            current_rule_released_bytes: self.current_rule_released_bytes,
            completed_rule_results: copy_rule_results(&self.completed_rule_results),
            validated_rule_count: self.validated_rule_count,
            completed_rule_count: self.completed_rule_count,
            total_rule_count: self.total_rule_count,
            checked_item_count: self.checked_item_count,
            checked_bytes: self.checked_bytes,
            affected_item_count: self.affected_item_count.saturating_add(
                self.current_rule_affected_item_count,
            ),
            released_bytes: self.released_bytes.saturating_add(self.current_rule_released_bytes),
            elapsed_ms: now_ms.saturating_sub(self.started_ms),
        }
    }

    /// Accounts for one measured rule.
    pub fn record_validation(&mut self, item_count: u64, bytes: u64)
        requires
            old(self).wf(),
        ensures
            final(self).wf(),
            *final(self) == old(self).after_record_validation(item_count, bytes),
    {
        let next = self.validated_rule_count.saturating_add(1);
        self.validated_rule_count = if next < self.total_rule_count {
            next
        } else {
            self.total_rule_count
        };
        self.checked_item_count = self.checked_item_count.saturating_add(item_count);
        self.checked_bytes = self.checked_bytes.saturating_add(bytes);
    }

    /// Completes the measurement stage: every planned rule counts as
    /// validated, including rules that own their specialized validation.
    pub fn finish_validation(&mut self)
        requires
            old(self).wf(),
        ensures
            final(self).wf(),
            *final(self) == old(self).after_finish_validation(),
    {
        self.validated_rule_count = self.total_rule_count;
    }

    /// Clears the rule-local counters before a rule starts.
    pub fn begin_rule(&mut self)
        requires
            old(self).wf(),
        ensures
            final(self).wf(),
            final(self).rule_cleared(),
            *final(self) == old(self).after_begin_rule(),
    {
        self.current_item_path = None;
        self.current_rule_affected_item_count = 0;
        self.current_rule_released_bytes = 0;
        self.last_item_emit_ms = None;
    }

    /// Whether a live item snapshot taken at `now_ms` is throttled because
    /// the previous one of this rule is less than the interval ago.
    pub open spec fn item_throttled(&self, now_ms: u64) -> bool {
        &&& self.last_item_emit_ms is Some
        &&& sat_sub(now_ms, self.last_item_emit_ms->0) < ITEM_PROGRESS_INTERVAL_MS
    }

    /// `after` and `p` are the counters and the snapshot after
    /// `record_item(rule_id, path, stats, now_ms)`.
    pub open spec fn records_item(
        self,
        after: Self,
        rule_id: String,
        path: String,
        stats: DeleteStats,
        now_ms: u64,
        p: Option<CleanupExecutionProgress>,
    ) -> bool {
        if self.item_throttled(now_ms) {
            &&& p is None
            &&& after == (ExecutionProgressReporter {
                current_rule_affected_item_count: stats.affected_item_count,
                current_rule_released_bytes: stats.deleted_bytes,
                ..self
            })
        } else {
            &&& after == (ExecutionProgressReporter {
                current_rule_affected_item_count: stats.affected_item_count,
                current_rule_released_bytes: stats.deleted_bytes,
                current_item_path: Some(path),
                last_item_emit_ms: Some(now_ms),
                ..self
            })
            &&& p is Some
            &&& after.is_snapshot(p->0, CleanupExecutionStage::Cleaning, Some(rule_id), now_ms)
        }
    }

    /// Records the running totals of the rule in progress after an item was
    /// handled at `path`, and returns a live snapshot unless one was
    /// published less than the interval ago.
    pub fn record_item(
        &mut self,
        rule_id: &String,
        path: String,
        stats: &DeleteStats,
        now_ms: u64,
    ) -> (p: Option<CleanupExecutionProgress>)
        requires
            old(self).wf(),
        ensures
            final(self).wf(),
            old(self).records_item(*final(self), *rule_id, path, *stats, now_ms, p),
    {
        self.current_rule_affected_item_count = stats.affected_item_count;
        self.current_rule_released_bytes = stats.deleted_bytes;
        match self.last_item_emit_ms {
            Some(last) => {
                if now_ms.saturating_sub(last) < ITEM_PROGRESS_INTERVAL_MS {
                    return None;
                }
            },
            None => {},
        }
        self.current_item_path = Some(path);
        self.last_item_emit_ms = Some(now_ms);
        Some(self.emit(CleanupExecutionStage::Cleaning, Some(rule_id.clone()), now_ms))
    }

    /// Accounts for a finished rule: clears the rule-local counters, adds
    /// the rule's totals and appends its summary.
    pub fn record_action(&mut self, action: &CleanupActionResult)
        requires
            old(self).wf(),
        ensures
            final(self).wf(),
            final(self).rule_cleared(),
            old(self).records_action(*final(self), *action),
    {
        self.current_item_path = None;
        self.current_rule_affected_item_count = 0;
        self.current_rule_released_bytes = 0;
        self.last_item_emit_ms = None;
        let next = self.completed_rule_count.saturating_add(1);
        self.completed_rule_count = if next < self.total_rule_count {
            next
        } else {
            self.total_rule_count
        };
        self.affected_item_count = self.affected_item_count.saturating_add(
            action.affected_item_count,
        );
        self.released_bytes = self.released_bytes.saturating_add(action.released_bytes);
        self.completed_rule_results.push(
            CleanupExecutionRuleResult {
                rule_id: action.rule_id.clone(),
                status: action.status,
                affected_item_count: action.affected_item_count,
                released_bytes: action.released_bytes,
            },
        );
    }
}

/// Every snapshot of consistent counters lists the planned rules and
/// reports no more validated or completed rules than are planned.
pub proof fn lemma_snapshot_counts_bounded(
    r: ExecutionProgressReporter,
    p: CleanupExecutionProgress,
    stage: CleanupExecutionStage,
    rule_id: Option<String>,
    now_ms: u64,
)
    requires
        r.wf(),
        r.is_snapshot(p, stage, rule_id, now_ms),
    ensures
        p.total_rule_count == p.planned_rule_ids@.len(),
        p.validated_rule_count <= p.total_rule_count,
        p.completed_rule_count <= p.total_rule_count,
{
}

/// Recording a finished rule, with no saturation, adds exactly its items
/// and bytes to the totals that the next snapshot reports.
pub proof fn lemma_recorded_action_adds_totals(
    before: ExecutionProgressReporter,
    after: ExecutionProgressReporter,
    action: CleanupActionResult,
    p: CleanupExecutionProgress,
    stage: CleanupExecutionStage,
    rule_id: Option<String>,
    now_ms: u64,
)
    requires
        before.records_action(after, action),
        after.is_snapshot(p, stage, rule_id, now_ms),
        before.affected_item_count + action.affected_item_count <= u64::MAX,
        before.released_bytes + action.released_bytes <= u64::MAX,
    ensures
        p.affected_item_count == before.affected_item_count + action.affected_item_count,
        p.released_bytes == before.released_bytes + action.released_bytes,
        p.current_item_path is None,
        p.completed_rule_results@.last() == rule_summary(action),
{
}

/// A call that changes a reporter's counters (`emit` changes nothing).
pub enum ReporterCall {
    RecordValidation { item_count: u64, bytes: u64 },
    FinishValidation,
    BeginRule,
    RecordItem { rule_id: String, path: String, stats: DeleteStats, now_ms: u64 },
    RecordAction { action: CleanupActionResult },
}

/// `after` is what `call` makes of `before`, as the method's contract says.
pub open spec fn reporter_step(
    before: ExecutionProgressReporter,
    after: ExecutionProgressReporter,
    call: ReporterCall,
) -> bool {
    match call {
        ReporterCall::RecordValidation { item_count, bytes } => after
            == before.after_record_validation(item_count, bytes),
        ReporterCall::FinishValidation => after == before.after_finish_validation(),
        ReporterCall::BeginRule => after == before.after_begin_rule(),
        ReporterCall::RecordItem { rule_id, path, stats, now_ms } => exists|
            p: Option<CleanupExecutionProgress>,
        | #[trigger] before.records_item(after, rule_id, path, stats, now_ms, p),
        ReporterCall::RecordAction { action } => before.records_action(after, action),
    }
}

/// How many of `calls` record a finished rule.
pub open spec fn recorded_action_count(calls: Seq<ReporterCall>) -> nat
    decreases calls.len(),
{
    if calls.len() == 0 {
        0
    } else {
        recorded_action_count(calls.drop_last()) + if calls.last() is RecordAction {
            1nat
        } else {
            0nat
        }
    }
}

/// Counters that only grow from `a` to `b`, with `a`'s rule summaries a
/// prefix of `b`'s.
pub open spec fn counters_grow(a: ExecutionProgressReporter, b: ExecutionProgressReporter) -> bool {
    &&& a.validated_rule_count <= b.validated_rule_count
    &&& a.completed_rule_count <= b.completed_rule_count
    &&& a.checked_item_count <= b.checked_item_count
    &&& a.checked_bytes <= b.checked_bytes
    &&& a.affected_item_count <= b.affected_item_count
    &&& a.released_bytes <= b.released_bytes
    &&& a.completed_rule_results@.len() <= b.completed_rule_results@.len()
    &&& b.completed_rule_results@.subrange(0, a.completed_rule_results@.len() as int)
        == a.completed_rule_results@
}

proof fn lemma_reporter_step(
    before: ExecutionProgressReporter,
    after: ExecutionProgressReporter,
    call: ReporterCall,
)
    requires
        before.wf(),
        reporter_step(before, after, call),
    ensures
        after.wf(),
        after.planned_rule_ids == before.planned_rule_ids,
        after.total_rule_count == before.total_rule_count,
        after.started_ms == before.started_ms,
        counters_grow(before, after),
        after.completed_rule_results@.len() == before.completed_rule_results@.len() + if call is RecordAction {
            1int
        } else {
            0int
        },
{
    match call {
        ReporterCall::RecordAction { action } => {
            assert(after.completed_rule_results@.subrange(
                0,
                before.completed_rule_results@.len() as int,
            ) =~= before.completed_rule_results@);
        },
        ReporterCall::RecordItem { rule_id, path, stats, now_ms } => {
            let p = choose|p: Option<CleanupExecutionProgress>|
                #[trigger] before.records_item(after, rule_id, path, stats, now_ms, p);
            assert(after.completed_rule_results@.subrange(
                0,
                before.completed_rule_results@.len() as int,
            ) =~= before.completed_rule_results@);
        },
        _ => {
            assert(after.completed_rule_results@.subrange(
                0,
                before.completed_rule_results@.len() as int,
            ) =~= before.completed_rule_results@);
        },
    }
}

proof fn lemma_counters_grow_transitive(
    a: ExecutionProgressReporter,
    b: ExecutionProgressReporter,
    c: ExecutionProgressReporter,
)
    requires
        counters_grow(a, b),
        counters_grow(b, c),
    ensures
        counters_grow(a, c),
{
    let la = a.completed_rule_results@.len() as int;
    let lb = b.completed_rule_results@.len() as int;
    assert(c.completed_rule_results@.subrange(0, la) =~= c.completed_rule_results@.subrange(
        0,
        lb,
    ).subrange(0, la));
}

/// The states reached by `calls` from `states[0]`, one call at a time.
pub open spec fn reporter_run(
    states: Seq<ExecutionProgressReporter>,
    calls: Seq<ReporterCall>,
) -> bool {
    &&& states.len() == calls.len() + 1
    &&& forall|k: int|
        0 <= k < calls.len() ==> reporter_step(states[k], states[k + 1], #[trigger] calls[k])
}

proof fn lemma_reporter_run_prefix(
    states: Seq<ExecutionProgressReporter>,
    calls: Seq<ReporterCall>,
)
    requires
        reporter_run(states, calls),
        calls.len() > 0,
    ensures
        reporter_run(states.drop_last(), calls.drop_last()),
{
    let s2 = states.drop_last();
    let c2 = calls.drop_last();
    assert forall|k: int| 0 <= k < c2.len() implies reporter_step(
        s2[k],
        s2[k + 1],
        #[trigger] c2[k],
    ) by {
        assert(reporter_step(states[k], states[k + 1], calls[k]));
    }
}

/// Every state of a run from a fresh reporter is consistent, keeps the
/// planned rules and their count, and holds one summary per recorded rule.
proof fn lemma_reporter_states(
    states: Seq<ExecutionProgressReporter>,
    calls: Seq<ReporterCall>,
    start_ms: u64,
)
    requires
        reporter_run(states, calls),
        states[0].is_fresh(start_ms),
    ensures
        forall|i: int|
            0 <= i < states.len() ==> {
                &&& (#[trigger] states[i]).wf()
                &&& states[i].planned_rule_ids == states[0].planned_rule_ids
                &&& states[i].total_rule_count == states[0].planned_rule_ids@.len()
                &&& states[i].completed_rule_results@.len() == recorded_action_count(
                    calls.take(i),
                )
            },
    decreases calls.len(),
{
    if calls.len() == 0 {
        assert(calls.take(0) =~= Seq::<ReporterCall>::empty());
    } else {
        let n = calls.len() as int;
        let s2 = states.drop_last();
        let c2 = calls.drop_last();
        lemma_reporter_run_prefix(states, calls);
        lemma_reporter_states(s2, c2, start_ms);
        assert(s2[0] == states[0]);
        assert(s2[n - 1] == states[n - 1]);
        assert(reporter_step(states[n - 1], states[n], calls[n - 1]));
        lemma_reporter_step(states[n - 1], states[n], calls[n - 1]);
        assert forall|i: int| 0 <= i < states.len() implies {
            &&& (#[trigger] states[i]).wf()
            &&& states[i].planned_rule_ids == states[0].planned_rule_ids
            &&& states[i].total_rule_count == states[0].planned_rule_ids@.len()
            &&& states[i].completed_rule_results@.len() == recorded_action_count(calls.take(i))
        } by {
            if i < n {
                assert(s2[i] == states[i]);
                assert(c2.take(i) =~= calls.take(i));
            } else {
                assert(c2.take(n - 1) =~= calls.take(n - 1));
                assert(calls.take(n).drop_last() =~= calls.take(n - 1));
                assert(calls.take(n).last() == calls[n - 1]);
            }
        }
    }
}

/// Along a run from a consistent reporter, counters and summaries only grow.
proof fn lemma_reporter_growth(
    states: Seq<ExecutionProgressReporter>,
    calls: Seq<ReporterCall>,
)
    requires
        reporter_run(states, calls),
        forall|i: int| 0 <= i < states.len() ==> (#[trigger] states[i]).wf(),
    ensures
        forall|i: int, j: int|
            0 <= i <= j < states.len() ==> counters_grow(#[trigger] states[i], #[trigger] states[j]),
    decreases calls.len(),
{
    if calls.len() == 0 {
        assert forall|i: int, j: int| 0 <= i <= j < states.len() implies counters_grow(
            #[trigger] states[i],
            #[trigger] states[j],
        ) by {
            assert(i == 0 && j == 0);
            assert(states[0].completed_rule_results@.subrange(
                0,
                states[0].completed_rule_results@.len() as int,
            ) =~= states[0].completed_rule_results@);
        }
    } else {
        let n = calls.len() as int;
        let s2 = states.drop_last();
        let c2 = calls.drop_last();
        lemma_reporter_run_prefix(states, calls);
        assert forall|i: int| 0 <= i < s2.len() implies (#[trigger] s2[i]).wf() by {
            assert(s2[i] == states[i]);
        }
        lemma_reporter_growth(s2, c2);
        assert(states[n - 1].wf());
        assert(reporter_step(states[n - 1], states[n], calls[n - 1]));
        lemma_reporter_step(states[n - 1], states[n], calls[n - 1]);
        assert forall|i: int, j: int| 0 <= i <= j < states.len() implies counters_grow(
            #[trigger] states[i],
            #[trigger] states[j],
        ) by {
            if j < n {
                assert(s2[i] == states[i] && s2[j] == states[j]);
                assert(counters_grow(s2[i], s2[j]));
            } else if i == n {
                assert(states[i].completed_rule_results@.subrange(
                    0,
                    states[i].completed_rule_results@.len() as int,
                ) =~= states[i].completed_rule_results@);
            } else {
                assert(s2[i] == states[i] && s2[n - 1] == states[n - 1]);
                assert(counters_grow(s2[i], s2[n - 1]));
                lemma_counters_grow_transitive(states[i], states[n - 1], states[n]);
            }
        }
    }
}

/// Over any sequence of reporter calls after `new(ids, ..)`, every state is
/// consistent, keeps the planned rules and their count, holds one rule
/// summary per recorded rule, and its counters and summaries only grow.
pub proof fn lemma_reporter_sequence(
    states: Seq<ExecutionProgressReporter>,
    calls: Seq<ReporterCall>,
    start_ms: u64,
)
    requires
        reporter_run(states, calls),
        states[0].is_fresh(start_ms),
    ensures
        forall|i: int|
            0 <= i < states.len() ==> {
                &&& (#[trigger] states[i]).wf()
                &&& states[i].planned_rule_ids == states[0].planned_rule_ids
                &&& states[i].total_rule_count == states[0].planned_rule_ids@.len()
                &&& states[i].completed_rule_results@.len() == recorded_action_count(
                    calls.take(i),
                )
            },
        forall|i: int, j: int|
            0 <= i <= j < states.len() ==> counters_grow(#[trigger] states[i], #[trigger] states[j]),
{
    lemma_reporter_states(states, calls, start_ms);
    lemma_reporter_growth(states, calls);
}

/// Snapshots published along such a sequence list the planned rules, never
/// report more validated or completed rules than planned, hold one summary
/// per rule recorded so far, and never go back: later snapshots report at
/// least as many validated and completed rules, checked items and bytes, and
/// extend the earlier summaries.
pub proof fn lemma_reporter_snapshots(
    states: Seq<ExecutionProgressReporter>,
    calls: Seq<ReporterCall>,
    start_ms: u64,
    i: int,
    j: int,
    p_i: CleanupExecutionProgress,
    p_j: CleanupExecutionProgress,
    stage_i: CleanupExecutionStage,
    stage_j: CleanupExecutionStage,
    rule_i: Option<String>,
    rule_j: Option<String>,
    now_i: u64,
    now_j: u64,
)
    requires
        reporter_run(states, calls),
        states[0].is_fresh(start_ms),
        0 <= i <= j < states.len(),
        states[i].is_snapshot(p_i, stage_i, rule_i, now_i),
        states[j].is_snapshot(p_j, stage_j, rule_j, now_j),
    ensures
        p_i.planned_rule_ids@ == states[0].planned_rule_ids@,
        p_i.total_rule_count == p_i.planned_rule_ids@.len(),
        p_i.validated_rule_count <= p_i.total_rule_count,
        p_i.completed_rule_count <= p_i.total_rule_count,
        p_i.completed_rule_results@.len() == recorded_action_count(calls.take(i)),
        p_i.validated_rule_count <= p_j.validated_rule_count,
        p_i.completed_rule_count <= p_j.completed_rule_count,
        p_i.checked_item_count <= p_j.checked_item_count,
        p_i.checked_bytes <= p_j.checked_bytes,
        p_i.completed_rule_results@.len() <= p_j.completed_rule_results@.len(),
        p_j.completed_rule_results@.subrange(0, p_i.completed_rule_results@.len() as int)
            == p_i.completed_rule_results@,
{
    lemma_reporter_sequence(states, calls, start_ms);
    assert(states[i].wf());
    assert(counters_grow(states[i], states[j]));
}

/// Recording a measured rule adds its items and bytes to the checked
/// totals, capped at `u64::MAX`, counts one more validated rule, never more
/// than planned, and changes nothing else.
pub proof fn lemma_record_validation_adds(
    r: ExecutionProgressReporter,
    item_count: u64,
    bytes: u64,
)
    requires
        r.wf(),
    ensures
        ({
            let after = r.after_record_validation(item_count, bytes);
            &&& r.checked_item_count + item_count <= u64::MAX ==> after.checked_item_count
                == r.checked_item_count + item_count
            &&& r.checked_item_count + item_count > u64::MAX ==> after.checked_item_count
                == u64::MAX
            &&& r.checked_bytes + bytes <= u64::MAX ==> after.checked_bytes == r.checked_bytes
                + bytes
            &&& r.checked_bytes + bytes > u64::MAX ==> after.checked_bytes == u64::MAX
            &&& r.validated_rule_count < r.total_rule_count ==> after.validated_rule_count
                == r.validated_rule_count + 1
            &&& r.validated_rule_count >= r.total_rule_count ==> after.validated_rule_count
                == r.total_rule_count
            &&& after.completed_rule_count == r.completed_rule_count
            &&& after.completed_rule_results == r.completed_rule_results
            &&& after.affected_item_count == r.affected_item_count
            &&& after.released_bytes == r.released_bytes
            &&& after.planned_rule_ids == r.planned_rule_ids
        }),
{
}

/// Two recorded measurements add up: when the sums fit, recording
/// `(i1, b1)` then `(i2, b2)` checks `i1 + i2` items and `b1 + b2` bytes
/// more than before.
pub proof fn lemma_record_validation_accumulates(
    r: ExecutionProgressReporter,
    i1: u64,
    b1: u64,
    i2: u64,
    b2: u64,
)
    requires
        r.wf(),
        r.checked_item_count + i1 + i2 <= u64::MAX,
        r.checked_bytes + b1 + b2 <= u64::MAX,
    ensures
        r.after_record_validation(i1, b1).after_record_validation(i2, b2).checked_item_count
            == r.checked_item_count + i1 + i2,
        r.after_record_validation(i1, b1).after_record_validation(i2, b2).checked_bytes
            == r.checked_bytes + b1 + b2,
{
}

} // verus!
