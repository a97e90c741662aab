//! The cleanup service: closing the applications that block cleanup rules,
//! cancelling a running cleanup, and starting a deep cleanup step.
//!
//! Starting a step validates the request and holds the cleanup operation;
//! the returned `CleanupDraft` is then planned and driven as a `CleanupRun`.

use vstd::prelude::*;
use crate::operation::{
    ActiveOperation, CoordinatedOperationKind, OperationCoordinator, OperationGuard,
};
use crate::planning::{
    CatalogRule, CleanupDraft, PlanningContext, invalid_input, lemma_prepared_cleanup_by_view,
    prepare_cleanup, prepared_cleanup, started_and_released, strings_distinct,
};
use crate::progress::copy_strings;
use crate::text::{decimal, push_decimal};
use crate::types::{
    ApplicationCloseMode, CleanupApplicationCloseRequest, CleanupRequest, CoreError,
};

verus! {

/// The cleanup service.
pub struct CleanupService;

/// An application that must be closed before some cleanup rule may run.
#[derive(Debug)]
pub struct ResolvedApplicationCloseTarget {
    pub target_id: String,
    pub executable_names: Vec<String>,
    pub executable_paths: Vec<String>,
}

/// Validated close targets, holding the application-close operation until
/// the applications were asked to close.
#[derive(Debug)]
pub struct ApplicationClosePlan {
    pub guard: OperationGuard,
    pub mode: ApplicationCloseMode,
    pub targets: Vec<ResolvedApplicationCloseTarget>,
}

/// The position of the first registry rule named `id`, or the rule count.
pub open spec fn first_rule_index(registry: Seq<CatalogRule>, id: Seq<char>) -> int
    decreases registry.len(),
{
    if registry.len() == 0 {
        0
    } else if first_rule_index(registry.drop_last(), id) < registry.len() - 1 {
        first_rule_index(registry.drop_last(), id)
    } else if registry.last().id@ == id {
        registry.len() - 1
    } else {
        registry.len() as int
    }
}

/// Why a close request is refused.
#[derive(Clone, Copy, Debug, PartialEq, Eq, Structural)]
pub enum CloseFailure {
    InvalidSelection,
    Registry,
    UnknownRule,
    NoCloseRequirement,
}

/// The first refusal among the requested ids, in request order.
pub open spec fn first_target_failure(ids: Seq<Seq<char>>, registry: Seq<CatalogRule>) -> Option<
    CloseFailure,
>
    decreases ids.len(),
{
    if ids.len() == 0 {
        None
    } else if first_target_failure(ids.drop_last(), registry) is Some {
        first_target_failure(ids.drop_last(), registry)
    } else {
        let k = first_rule_index(registry, ids.last());
        if k >= registry.len() {
            Some(CloseFailure::UnknownRule)
        } else if registry[k].required_stopped_processes@.len() == 0 {
            Some(CloseFailure::NoCloseRequirement)
        } else {
            None
        }
    }
}

/// The first reason, in the order the service checks them, to refuse a
/// close request; `None` when it is accepted.
pub open spec fn first_close_failure(
    ids: Seq<Seq<char>>,
    registry: Result<Vec<CatalogRule>, CoreError>,
) -> Option<CloseFailure> {
    if ids.len() == 0 || !ids.no_duplicates() {
        Some(CloseFailure::InvalidSelection)
    } else if registry is Err {
        Some(CloseFailure::Registry)
    } else {
        first_target_failure(ids, registry->Ok_0@)
    }
}

/// `e` is the error that the service reports for `f`.
pub open spec fn close_failure_error(
    f: CloseFailure,
    registry: Result<Vec<CatalogRule>, CoreError>,
    e: CoreError,
) -> bool {
    match f {
        CloseFailure::InvalidSelection => invalid_input(
            e,
            "the cleanup application close selection is invalid"@,
        ),
        CloseFailure::Registry => e == registry->Err_0,
        CloseFailure::UnknownRule => invalid_input(
            e,
            "the cleanup application close request contains an unknown rule"@,
        ),
        CloseFailure::NoCloseRequirement => invalid_input(
            e,
            "the cleanup rule does not define a close requirement"@,
        ),
    }
}

/// `t` closes the applications of the first registry rule named `id`.
pub open spec fn is_close_target(t: ResolvedApplicationCloseTarget, registry: Seq<CatalogRule>, id: Seq<
    char,
>) -> bool {
    let rule = registry[first_rule_index(registry, id)];
    &&& t.target_id@ == rule.id@
    &&& t.executable_names@ == rule.required_stopped_processes@
    &&& t.executable_paths@.len() == 0
}

fn find_rule(registry: &Vec<CatalogRule>, id: &String) -> (r: usize)
    ensures
        r == first_rule_index(registry@, id@),
{
    let mut i: usize = 0;
    while i < registry.len()
        invariant
            i <= registry@.len(),
            first_rule_index(registry@.take(i as int), id@) == i,
            forall|k: int| 0 <= k <= i ==> #[trigger] first_rule_index(registry@.take(k), id@) == k,
        decreases registry.len() - i,
    {
        assert(registry@.take(i + 1).drop_last() =~= registry@.take(i as int));
        if registry[i].id == *id {
            proof {
                lemma_first_rule_index_prefix(registry@, id@, i + 1);
            }
            return i;
        }
        i = i + 1;
    }
    assert(registry@.take(registry@.len() as int) =~= registry@);
    i
}

proof fn lemma_first_rule_index_prefix(registry: Seq<CatalogRule>, id: Seq<char>, k: int)
    requires
        0 < k <= registry.len(),
        first_rule_index(registry.take(k), id) < k,
    ensures
        first_rule_index(registry, id) == first_rule_index(registry.take(k), id),
    decreases registry.len() - k,
{
    if k < registry.len() {
        assert(registry.take(k + 1).drop_last() =~= registry.take(k));
        lemma_first_rule_index_prefix(registry, id, k + 1);
    } else {
        assert(registry.take(k) =~= registry);
    }
}

impl CleanupService {
    /// Closes applications referenced by trusted declarative cleanup rules.
    ///
    /// The shell supplies only stable rule ids; process names come from the
    /// validated rule registry, so this workflow cannot become an arbitrary
    /// process termination primitive. The returned plan holds the
    /// application-close operation; the caller asks the targets to close and
    /// then finishes the operation.
    pub fn close_applications(
        ops: &mut OperationCoordinator,
        request: CleanupApplicationCloseRequest,
        registry: Result<Vec<CatalogRule>, CoreError>,
    ) -> (r: Result<ApplicationClosePlan, CoreError>)
        ensures
            old(ops).active is Some ==> r == Err::<ApplicationClosePlan, CoreError>(
                CoreError::Busy,
            ),
            old(ops).active is Some ==> *final(ops) == *old(ops),
            old(ops).active is None ==> match first_close_failure(
                request.rule_ids.deep_view(),
                registry,
            ) {
                Some(f) => {
                    &&& r is Err
                    &&& close_failure_error(f, registry, r->Err_0)
                    &&& started_and_released(*old(ops), *final(ops))
                },
                None => {
                    let plan = r->Ok_0;
                    &&& r is Ok
                    &&& plan.guard == (OperationGuard {
                        id: old(ops).next_id,
                        kind: CoordinatedOperationKind::ApplicationClose,
                    })
                    &&& *final(ops) == (OperationCoordinator {
                        active: Some(
                            ActiveOperation {
                                id: old(ops).next_id,
                                kind: CoordinatedOperationKind::ApplicationClose,
                                cancelled: false,
                            },
                        ),
                        next_id: old(ops).next_id.wrapping_add(1),
                    })
                    &&& final(ops).holds(plan.guard)
                    &&& plan.mode == request.mode
                    &&& plan.targets@.len() == request.rule_ids@.len()
                    &&& forall|k: int|
                        0 <= k < plan.targets@.len() ==> is_close_target(
                            #[trigger] plan.targets@[k],
                            registry->Ok_0@,
                            request.rule_ids@[k]@,
                        )
                },
            },
    {
        let guard = match ops.start(CoordinatedOperationKind::ApplicationClose) {
            Ok(g) => g,
            Err(e) => {
                return Err(e);
            },
        };
        if request.rule_ids.len() == 0 || !strings_distinct(&request.rule_ids) {
            ops.finish(guard);
            return Err(
                CoreError::InvalidInput(
                    "the cleanup application close selection is invalid".to_owned(),
                ),
            );
        }
        let ghost reg0 = registry;
        let rules = match registry {
            Ok(v) => v,
            Err(e) => {
                ops.finish(guard);
                return Err(e);
            },
        };
        let ghost started = *ops;
        let ghost ids = request.rule_ids.deep_view();
        let mut targets: Vec<ResolvedApplicationCloseTarget> = Vec::new();
        let mut i: usize = 0;
        while i < request.rule_ids.len()
            invariant
                i <= request.rule_ids@.len(),
                old(ops).active is None,
                *ops == started,
                started.holds(guard),
                started.next_id == old(ops).next_id.wrapping_add(1),
                started == (OperationCoordinator {
                    active: Some(
                        ActiveOperation {
                            id: old(ops).next_id,
                            kind: CoordinatedOperationKind::ApplicationClose,
                            cancelled: false,
                        },
                    ),
                    next_id: old(ops).next_id.wrapping_add(1),
                }),
                guard.id == old(ops).next_id,
                guard.kind == CoordinatedOperationKind::ApplicationClose,
                ids == request.rule_ids.deep_view(),
                ids.len() > 0,
                ids.no_duplicates(),
                reg0 == Ok::<Vec<CatalogRule>, CoreError>(rules),
                registry == reg0,
                first_target_failure(ids.take(i as int), rules@) is None,
                targets@.len() == i,
                forall|k: int|
                    0 <= k < i ==> is_close_target(
                        #[trigger] targets@[k],
                        rules@,
                        request.rule_ids@[k]@,
                    ),
            decreases request.rule_ids.len() - i,
        {
            let id = &request.rule_ids[i];
            assert(ids.take(i + 1).drop_last() =~= ids.take(i as int));
            assert(ids.take(i + 1).last() == id@);
            let k = find_rule(&rules, id);
            if k >= rules.len() {
                assert(first_target_failure(ids.take(i + 1), rules@) == Some(
                    CloseFailure::UnknownRule,
                ));
                proof {
                    lemma_target_failure_extends(ids, rules@, i as int + 1);
                }
                ops.finish(guard);
                return Err(
                    CoreError::InvalidInput(
                        "the cleanup application close request contains an unknown rule".to_owned(),
                    ),
                );
            }
            if rules[k].required_stopped_processes.len() == 0 {
                assert(first_target_failure(ids.take(i + 1), rules@) == Some(
                    CloseFailure::NoCloseRequirement,
                ));
                proof {
                    lemma_target_failure_extends(ids, rules@, i as int + 1);
                }
                ops.finish(guard);
                return Err(
                    CoreError::InvalidInput(
                        "the cleanup rule does not define a close requirement".to_owned(),
                    ),
                );
            }
            targets.push(
                ResolvedApplicationCloseTarget {
                    target_id: rules[k].id.clone(),
                    executable_names: copy_strings(&rules[k].required_stopped_processes),
                    executable_paths: Vec::new(),
                },
            );
            i = i + 1;
        }
        assert(ids.take(ids.len() as int) =~= ids);
        Ok(ApplicationClosePlan { guard, mode: request.mode, targets })
    }

    /// Requests cooperative cancellation of the active cleanup execution.
    ///
    /// Files already removed stay reflected in the result and the history;
    /// a rule in progress may finish its current step, but no later cleanup
    /// rule is started.
    pub fn cancel(ops: &mut OperationCoordinator)
        ensures
            *final(ops) == old(ops).after_cancel_cleanup(),
    {
        ops.cancel_cleanup();
    }

    /// Starts a deep cleanup step under a generated operation id.
    pub fn execute(
        ops: &mut OperationCoordinator,
        request: CleanupRequest,
        ctx: PlanningContext,
        now_ms: u64,
    ) -> (r: Result<CleanupDraft, CoreError>)
        ensures
            executed(*old(ops), *final(ops), request, ctx, now_ms, r),
    {
        Self::execute_with_progress(ops, request, ctx, now_ms)
    }

    /// Starts a deep cleanup step under the operation id
    /// `deep-cleanup-<now_ms>`; progress is published by the run.
    pub fn execute_with_progress(
        ops: &mut OperationCoordinator,
        request: CleanupRequest,
        ctx: PlanningContext,
        now_ms: u64,
    ) -> (r: Result<CleanupDraft, CoreError>)
        ensures
            executed_with_progress(*old(ops), *final(ops), request, ctx, now_ms, r),
    {
        let mut operation_id = "deep-cleanup-".to_owned();
        push_decimal(&mut operation_id, now_ms);
        let ghost id = operation_id;
        let r = Self::execute_deep_cleanup_step_with_progress(ops, request, operation_id, ctx, now_ms);
        assert(step_executed_with_progress(*old(ops), *ops, request, id, ctx, now_ms, r));
        r
    }

    /// Starts the deep cleanup step `deep_cleanup_operation_id`.
    pub fn execute_deep_cleanup_step(
        ops: &mut OperationCoordinator,
        request: CleanupRequest,
        deep_cleanup_operation_id: String,
        ctx: PlanningContext,
        now_ms: u64,
    ) -> (r: Result<CleanupDraft, CoreError>)
        ensures
            step_executed(*old(ops), *final(ops), request, deep_cleanup_operation_id, ctx, now_ms, r),
    {
        Self::execute_deep_cleanup_step_with_progress(
            ops,
            request,
            deep_cleanup_operation_id,
            ctx,
            now_ms,
        )
    }

    /// Starts the deep cleanup step `deep_cleanup_operation_id`; progress is
    /// published by the run.
    pub fn execute_deep_cleanup_step_with_progress(
        ops: &mut OperationCoordinator,
        request: CleanupRequest,
        deep_cleanup_operation_id: String,
        ctx: PlanningContext,
        now_ms: u64,
    ) -> (r: Result<CleanupDraft, CoreError>)
        ensures
            step_executed_with_progress(
                *old(ops),
                *final(ops),
                request,
                deep_cleanup_operation_id,
                ctx,
                now_ms,
                r,
            ),
    {
        Self::execute_deep_cleanup_step_with_scope(
            ops,
            request,
            deep_cleanup_operation_id,
            false,
            ctx,
            now_ms,
        )
    }

    /// Starts the deep cleanup step `deep_cleanup_operation_id` on the
    /// project roots of the selected volumes, as resolved by the caller;
    /// a failed resolution is reported before any operation starts.
    pub fn execute_deep_cleanup_step_with_selected_volumes_and_progress(
        ops: &mut OperationCoordinator,
        request: CleanupRequest,
        deep_cleanup_operation_id: String,
        resolved_project_roots: Result<Vec<String>, CoreError>,
        ctx: PlanningContext,
        now_ms: u64,
    ) -> (r: Result<CleanupDraft, CoreError>)
        ensures
            step_executed_on_selected_volumes(
                *old(ops),
                *final(ops),
                request,
                deep_cleanup_operation_id,
                resolved_project_roots,
                ctx,
                now_ms,
                r,
            ),
    {
        let roots = match resolved_project_roots {
            Ok(v) => v,
            Err(e) => {
                return Err(e);
            },
        };
        let mut request = request;
        request.project_roots = roots;
        Self::execute_deep_cleanup_step_with_scope(
            ops,
            request,
            deep_cleanup_operation_id,
            true,
            ctx,
            now_ms,
        )
    }

    /// Starts a deep cleanup step: holds the cleanup operation, then checks
    /// the request in the service's order (at least one rule, a non-blank
    /// operation id, no duplicate rule, accepted source selections, a
    /// loaded registry, only known rules).
    pub fn execute_deep_cleanup_step_with_scope(
        ops: &mut OperationCoordinator,
        request: CleanupRequest,
        deep_cleanup_operation_id: String,
        selected_volume_scope: bool,
        ctx: PlanningContext,
        now_ms: u64,
    ) -> (r: Result<CleanupDraft, CoreError>)
        ensures
            step_executed_with_scope(
                *old(ops),
                *final(ops),
                request,
                deep_cleanup_operation_id,
                selected_volume_scope,
                ctx,
                now_ms,
                r,
            ),
    {
        prepare_cleanup(ops, request, deep_cleanup_operation_id, selected_volume_scope, ctx, now_ms)
    }
}

/// What `execute_deep_cleanup_step_with_scope` does.
pub open spec fn step_executed_with_scope(
    before: OperationCoordinator,
    after: OperationCoordinator,
    request: CleanupRequest,
    operation_id: String,
    selected_volume_scope: bool,
    ctx: PlanningContext,
    now_ms: u64,
    r: Result<CleanupDraft, CoreError>,
) -> bool {
    prepared_cleanup(before, after, request, operation_id, selected_volume_scope, ctx, now_ms, r)
}

/// What `execute_deep_cleanup_step_with_progress` does.
pub open spec fn step_executed_with_progress(
    before: OperationCoordinator,
    after: OperationCoordinator,
    request: CleanupRequest,
    operation_id: String,
    ctx: PlanningContext,
    now_ms: u64,
    r: Result<CleanupDraft, CoreError>,
) -> bool {
    prepared_cleanup(before, after, request, operation_id, false, ctx, now_ms, r)
}

/// What `execute_deep_cleanup_step` does.
pub open spec fn step_executed(
    before: OperationCoordinator,
    after: OperationCoordinator,
    request: CleanupRequest,
    operation_id: String,
    ctx: PlanningContext,
    now_ms: u64,
    r: Result<CleanupDraft, CoreError>,
) -> bool {
    prepared_cleanup(before, after, request, operation_id, false, ctx, now_ms, r)
}

/// What `execute_deep_cleanup_step_with_selected_volumes_and_progress` does.
pub open spec fn step_executed_on_selected_volumes(
    before: OperationCoordinator,
    after: OperationCoordinator,
    request: CleanupRequest,
    operation_id: String,
    resolved_project_roots: Result<Vec<String>, CoreError>,
    ctx: PlanningContext,
    now_ms: u64,
    r: Result<CleanupDraft, CoreError>,
) -> bool {
    match resolved_project_roots {
        Err(e) => {
            &&& r == Err::<CleanupDraft, CoreError>(e)
            &&& after == before
        },
        Ok(roots) => prepared_cleanup(
            before,
            after,
            CleanupRequest { project_roots: roots, ..request },
            operation_id,
            true,
            ctx,
            now_ms,
            r,
        ),
    }
}

/// The operation id that `execute_with_progress` generates at `now_ms`.
pub open spec fn generated_operation_id(now_ms: u64) -> Seq<char> {
    "deep-cleanup-"@ + decimal(now_ms as nat)
}

/// What `execute_with_progress` does.
pub open spec fn executed_with_progress(
    before: OperationCoordinator,
    after: OperationCoordinator,
    request: CleanupRequest,
    ctx: PlanningContext,
    now_ms: u64,
    r: Result<CleanupDraft, CoreError>,
) -> bool {
    exists|operation_id: String|
        {
            &&& operation_id@ == generated_operation_id(now_ms)
            &&& #[trigger] prepared_cleanup(
                before,
                after,
                request,
                operation_id,
                false,
                ctx,
                now_ms,
                r,
            )
        }
}

/// What `execute` does.
pub open spec fn executed(
    before: OperationCoordinator,
    after: OperationCoordinator,
    request: CleanupRequest,
    ctx: PlanningContext,
    now_ms: u64,
    r: Result<CleanupDraft, CoreError>,
) -> bool {
    executed_with_progress(before, after, request, ctx, now_ms, r)
}

/// `execute` behaves exactly as `execute_with_progress`.
pub proof fn lemma_execute_is_execute_with_progress(
    before: OperationCoordinator,
    after: OperationCoordinator,
    request: CleanupRequest,
    ctx: PlanningContext,
    now_ms: u64,
    r: Result<CleanupDraft, CoreError>,
)
    ensures
        executed(before, after, request, ctx, now_ms, r) == executed_with_progress(
            before,
            after,
            request,
            ctx,
            now_ms,
            r,
        ),
{
}

/// `execute_with_progress` behaves exactly as
/// `execute_deep_cleanup_step_with_progress` under the operation id
/// `deep-cleanup-<now_ms>`.
pub proof fn lemma_execute_with_progress_names_the_step(
    before: OperationCoordinator,
    after: OperationCoordinator,
    request: CleanupRequest,
    ctx: PlanningContext,
    now_ms: u64,
    r: Result<CleanupDraft, CoreError>,
    operation_id: String,
)
    requires
        operation_id@ == generated_operation_id(now_ms),
    ensures
        executed_with_progress(before, after, request, ctx, now_ms, r)
            == step_executed_with_progress(before, after, request, operation_id, ctx, now_ms, r),
{
    if executed_with_progress(before, after, request, ctx, now_ms, r) {
        let id = choose|id: String|
            id@ == generated_operation_id(now_ms) && #[trigger] prepared_cleanup(
                before,
                after,
                request,
                id,
                false,
                ctx,
                now_ms,
                r,
            );
        lemma_prepared_cleanup_by_view(before, after, request, id, operation_id, false, ctx, now_ms, r);
    }
    if step_executed_with_progress(before, after, request, operation_id, ctx, now_ms, r) {
        assert(prepared_cleanup(before, after, request, operation_id, false, ctx, now_ms, r));
    }
}

/// `execute_deep_cleanup_step` behaves exactly as
/// `execute_deep_cleanup_step_with_progress`.
pub proof fn lemma_step_is_step_with_progress(
    before: OperationCoordinator,
    after: OperationCoordinator,
    request: CleanupRequest,
    operation_id: String,
    ctx: PlanningContext,
    now_ms: u64,
    r: Result<CleanupDraft, CoreError>,
)
    ensures
        step_executed(before, after, request, operation_id, ctx, now_ms, r)
            == step_executed_with_progress(before, after, request, operation_id, ctx, now_ms, r),
{
}

/// `execute_deep_cleanup_step_with_progress` behaves exactly as
/// `execute_deep_cleanup_step_with_scope` without the selected-volume scope:
/// the project roots are used as given.
pub proof fn lemma_step_with_progress_is_unscoped(
    before: OperationCoordinator,
    after: OperationCoordinator,
    request: CleanupRequest,
    operation_id: String,
    ctx: PlanningContext,
    now_ms: u64,
    r: Result<CleanupDraft, CoreError>,
)
    ensures
        step_executed_with_progress(before, after, request, operation_id, ctx, now_ms, r)
            == step_executed_with_scope(before, after, request, operation_id, false, ctx, now_ms, r),
{
}

/// With resolved roots, the selected-volume entry point behaves exactly as
/// `execute_deep_cleanup_step_with_scope` on the request with those roots
/// and the selected-volume scope; the draft, and so the plan fingerprint,
/// carries the resolved roots.
pub proof fn lemma_selected_volumes_use_resolved_roots(
    before: OperationCoordinator,
    after: OperationCoordinator,
    request: CleanupRequest,
    operation_id: String,
    roots: Vec<String>,
    ctx: PlanningContext,
    now_ms: u64,
    r: Result<CleanupDraft, CoreError>,
)
    ensures
        step_executed_on_selected_volumes(
            before,
            after,
            request,
            operation_id,
            Ok(roots),
            ctx,
            now_ms,
            r,
        ) == step_executed_with_scope(
            before,
            after,
            CleanupRequest { project_roots: roots, ..request },
            operation_id,
            true,
            ctx,
            now_ms,
            r,
        ),
        step_executed_on_selected_volumes(
            before,
            after,
            request,
            operation_id,
            Ok(roots),
            ctx,
            now_ms,
            r,
        ) && r is Ok ==> r->Ok_0.request.project_roots == roots,
{
}

proof fn lemma_target_failure_extends(ids: Seq<Seq<char>>, registry: Seq<CatalogRule>, k: int)
    requires
        0 < k <= ids.len(),
        first_target_failure(ids.take(k), registry) is Some,
    ensures
        first_target_failure(ids, registry) == first_target_failure(ids.take(k), registry),
    decreases ids.len() - k,
{
    if k < ids.len() {
        assert(ids.take(k + 1).drop_last() =~= ids.take(k));
        lemma_target_failure_extends(ids, registry, k + 1);
    } else {
        assert(ids.take(k) =~= ids);
    }
}

} // verus!
