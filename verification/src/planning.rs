//! Validation of a cleanup request and the deterministic execution plan
//! derived from it: which rules run, in which order, and which are measured
//! before anything is deleted.

use vstd::prelude::*;
use crate::operation::{
    ActiveOperation, CoordinatedOperationKind, OperationCoordinator, OperationGuard,
};
use crate::text::{is_blank, is_blank_str};
use crate::types::{CleanupExecutionStage, CleanupRequest, CoreError};

verus! {

/// A rule of the declarative rule registry.
#[derive(Debug)]
pub struct CatalogRule {
    pub id: String,
    /// Executable names that must not be running while the rule deletes.
    pub required_stopped_processes: Vec<String>,
}

/// A rule of the compiled ownership plan, in plan order.
#[derive(Debug)]
pub struct PlannedRule {
    pub id: String,
    pub requires_app_close: bool,
}

/// What the rule registry, the specialized cleaners and the source
/// selection policy answered for a request.
#[derive(Debug)]
pub struct PlanningContext {
    /// The declarative rule registry, or why it could not be loaded.
    pub registry: Result<Vec<CatalogRule>, CoreError>,
    /// Rule ids that name a specialized cleaner.
    pub cleaner_ids: Vec<String>,
    /// Rule ids that the request narrows to some of their sources, or why
    /// the source selections were rejected.
    pub source_scoped_rule_ids: Result<Vec<String>, CoreError>,
}

/// A selected rule of the ownership plan, with its position in the plan.
#[derive(Debug)]
pub struct RunRule {
    pub index: usize,
    pub id: String,
    pub requires_app_close: bool,
    /// Whether the rule is measured read-only before deletion starts.
    pub measure: bool,
}

/// The spec-level view of a `RunRule`.
pub struct RunRuleView {
    pub index: int,
    pub id: Seq<char>,
    pub requires_app_close: bool,
    pub measure: bool,
}

pub open spec fn run_rule_view(r: RunRule) -> RunRuleView {
    RunRuleView {
        index: r.index as int,
        id: r.id@,
        requires_app_close: r.requires_app_close,
        measure: r.measure,
    }
}

pub open spec fn run_rules_view(s: Seq<RunRule>) -> Seq<RunRuleView> {
    s.map_values(|r: RunRule| run_rule_view(r))
}

/// The expensive read-only traversal is limited to cases that cannot derive
/// their result from the destructive pass: a preview has no destructive
/// pass, and a source-scoped rule must authenticate its paths before any
/// selected file is removed.
pub open spec fn spec_requires_preflight_measurement(dry_run: bool, has_source_scope: bool) -> bool {
    dry_run || has_source_scope
}

/// Whether a rule is measured before deletion.
pub fn requires_preflight_measurement(dry_run: bool, has_source_scope: bool) -> (r: bool)
    ensures
        r == spec_requires_preflight_measurement(dry_run, has_source_scope),
{
    dry_run || has_source_scope
}

/// The first stage that an execution reports: validation when some rule is
/// measured, cleaning otherwise.
pub open spec fn spec_preparation_stage(measured_rule_count: int) -> CleanupExecutionStage {
    if measured_rule_count == 0 {
        CleanupExecutionStage::Cleaning
    } else {
        CleanupExecutionStage::Validating
    }
}

/// The first stage that an execution reports.
pub fn preparation_stage(measured_rule_count: usize) -> (r: CleanupExecutionStage)
    ensures
        r == spec_preparation_stage(measured_rule_count as int),
{
    if measured_rule_count == 0 {
        CleanupExecutionStage::Cleaning
    } else {
        CleanupExecutionStage::Validating
    }
}

/// `e` is a rejection of the request with message `msg`.
pub open spec fn invalid_input(e: CoreError, msg: Seq<char>) -> bool {
    e matches CoreError::InvalidInput(m) && m@ == msg
}

/// `e` is an internal failure with message `msg`.
pub open spec fn operation_failed(e: CoreError, msg: Seq<char>) -> bool {
    e matches CoreError::OperationFailed(m) && m@ == msg
}

/// The ids of registry rules, in registry order.
pub open spec fn registry_ids(registry: Seq<CatalogRule>) -> Seq<Seq<char>> {
    registry.map_values(|r: CatalogRule| r.id@)
}

/// The elements of `s` that occur in `pool`, in the order of `s`.
pub open spec fn keep_members(s: Seq<Seq<char>>, pool: Seq<Seq<char>>) -> Seq<Seq<char>>
    decreases s.len(),
{
    if s.len() == 0 {
        s
    } else if pool.contains(s.last()) {
        keep_members(s.drop_last(), pool).push(s.last())
    } else {
        keep_members(s.drop_last(), pool)
    }
}

/// Why a request is refused before any plan exists.
#[derive(Clone, Copy, Debug, PartialEq, Eq, Structural)]
pub enum PlanningFailure {
    NoRules,
    BlankOperationId,
    DuplicateRules,
    SourceSelection,
    Registry,
    UnknownRule,
}

/// A rule id that names neither a registry rule nor a cleaner.
pub open spec fn unknown_rule(id: Seq<char>, ctx: PlanningContext) -> bool {
    &&& !registry_ids(ctx.registry->Ok_0@).contains(id)
    &&& !ctx.cleaner_ids.deep_view().contains(id)
}

/// The first reason, in the order the service checks them, to refuse the
/// request; `None` when the request is accepted.
pub open spec fn first_planning_failure(
    rule_ids: Seq<Seq<char>>,
    operation_id: Seq<char>,
    ctx: PlanningContext,
) -> Option<PlanningFailure> {
    if rule_ids.len() == 0 {
        Some(PlanningFailure::NoRules)
    } else if is_blank(operation_id) {
        Some(PlanningFailure::BlankOperationId)
    } else if !rule_ids.no_duplicates() {
        Some(PlanningFailure::DuplicateRules)
    } else if ctx.source_scoped_rule_ids is Err {
        Some(PlanningFailure::SourceSelection)
    } else if ctx.registry is Err {
        Some(PlanningFailure::Registry)
    } else if exists|i: int| 0 <= i < rule_ids.len() && unknown_rule(#[trigger] rule_ids[i], ctx) {
        Some(PlanningFailure::UnknownRule)
    } else {
        None
    }
}

/// `e` is the error that the service reports for `f`.
pub open spec fn planning_failure_error(f: PlanningFailure, ctx: PlanningContext, e: CoreError) -> bool {
    match f {
        PlanningFailure::NoRules => invalid_input(e, "at least one cleanup rule must be selected"@),
        PlanningFailure::BlankOperationId => invalid_input(
            e,
            "deep cleanup operation id must not be empty"@,
        ),
        PlanningFailure::DuplicateRules => invalid_input(
            e,
            "the cleanup plan contains duplicate rules"@,
        ),
        PlanningFailure::SourceSelection => e == ctx.source_scoped_rule_ids->Err_0,
        PlanningFailure::Registry => e == ctx.registry->Err_0,
        PlanningFailure::UnknownRule => invalid_input(
            e,
            "the cleanup plan contains an unknown rule"@,
        ),
    }
}

/// The coordinator after an operation was started and abandoned again.
pub open spec fn started_and_released(before: OperationCoordinator, after: OperationCoordinator) -> bool {
    &&& after.active is None
    &&& after.next_id == before.next_id.wrapping_add(1)
}

/// An accepted request that holds the cleanup operation, waiting for the
/// execution order of its cleaners and for the ownership plan.
#[derive(Debug)]
pub struct CleanupDraft {
    pub guard: OperationGuard,
    pub request: CleanupRequest,
    pub operation_id: String,
    pub selected_volume_scope: bool,
    pub started_at_ms: u64,
    pub registry: Vec<CatalogRule>,
    pub source_scoped_rule_ids: Vec<String>,
    /// The selected rule ids that name cleaners, in selection order.
    pub cleaner_rule_ids: Vec<String>,
}

/// Whether `id` occurs in `v`.
pub fn contains_string(v: &Vec<String>, id: &String) -> (r: bool)
    ensures
        r == v.deep_view().contains(id@),
{
    let mut i: usize = 0;
    while i < v.len()
        invariant
            i <= v@.len(),
            forall|k: int| 0 <= k < i ==> v.deep_view()[k] != id@,
        decreases v.len() - i,
    {
        if v[i] == *id {
            assert(v.deep_view()[i as int] == id@);
            return true;
        }
        i = i + 1;
    }
    false
}

fn registry_contains(registry: &Vec<CatalogRule>, id: &String) -> (r: bool)
    ensures
        r == registry_ids(registry@).contains(id@),
{
    let mut i: usize = 0;
    while i < registry.len()
        invariant
            i <= registry@.len(),
            forall|k: int| 0 <= k < i ==> registry_ids(registry@)[k] != id@,
        decreases registry.len() - i,
    {
        if registry[i].id == *id {
            assert(registry_ids(registry@)[i as int] == id@);
            return true;
        }
        i = i + 1;
    }
    false
}

/// Whether no id occurs twice in `v`.
pub fn strings_distinct(v: &Vec<String>) -> (r: bool)
    ensures
        r == v.deep_view().no_duplicates(),
{
    let mut i: usize = 0;
    while i < v.len()
        invariant
            i <= v@.len(),
            forall|a: int, b: int|
                0 <= a < b < v@.len() && a < i ==> v.deep_view()[a] != v.deep_view()[b],
        decreases v.len() - i,
    {
        let mut j: usize = i + 1;
        while j < v.len()
            invariant
                i < v@.len(),
                i < j <= v@.len(),
                forall|a: int, b: int|
                    0 <= a < b < v@.len() && a < i ==> v.deep_view()[a] != v.deep_view()[b],
                forall|b: int| i < b < j ==> v.deep_view()[i as int] != v.deep_view()[b],
            decreases v.len() - j,
        {
            if v[i] == v[j] {
                assert(v.deep_view()[i as int] == v.deep_view()[j as int]);
                return false;
            }
            j = j + 1;
        }
        i = i + 1;
    }
    true
}

/// The elements of `s` that occur in `pool`, in the order of `s`.
pub fn keep_member_strings(s: &Vec<String>, pool: &Vec<String>) -> (r: Vec<String>)
    ensures
        r.deep_view() == keep_members(s.deep_view(), pool.deep_view()),
{
    let mut r: Vec<String> = Vec::new();
    let mut i: usize = 0;
    while i < s.len()
        invariant
            i <= s@.len(),
            r.deep_view() == keep_members(s.deep_view().take(i as int), pool.deep_view()),
        decreases s.len() - i,
    {
        let ghost before = r.deep_view();
        let ghost t = s.deep_view().take(i + 1);
        assert(t.drop_last() =~= s.deep_view().take(i as int));
        assert(t.last() == s@[i as int]@);
        if contains_string(pool, &s[i]) {
            r.push(s[i].clone());
            assert(r.deep_view() =~= before.push(s@[i as int]@));
        }
        i = i + 1;
    }
    assert(s.deep_view().take(s@.len() as int) =~= s.deep_view());
    r
}

/// `r` and `after` are what starting a cleanup with `before` gives: `Busy`
/// while another operation runs; otherwise the first planning failure, with
/// the operation released again, or an accepted draft holding the operation.
pub open spec fn prepared_cleanup(
    before: OperationCoordinator,
    after: OperationCoordinator,
    request: CleanupRequest,
    operation_id: String,
    selected_volume_scope: bool,
    ctx: PlanningContext,
    now_ms: u64,
    r: Result<CleanupDraft, CoreError>,
) -> bool {
    if before.active is Some {
        &&& r == Err::<CleanupDraft, CoreError>(CoreError::Busy)
        &&& after == before
    } else {
        match first_planning_failure(request.rule_ids.deep_view(), operation_id@, ctx) {
            Some(f) => {
                &&& r is Err
                &&& planning_failure_error(f, ctx, r->Err_0)
                &&& started_and_released(before, after)
            },
            None => {
                &&& r is Ok
                &&& r->Ok_0.guard == (OperationGuard {
                    id: before.next_id,
                    kind: CoordinatedOperationKind::Cleanup,
                })
                &&& after == (OperationCoordinator {
                    active: Some(
                        ActiveOperation {
                            id: before.next_id,
                            kind: CoordinatedOperationKind::Cleanup,
                            cancelled: false,
                        },
                    ),
                    next_id: before.next_id.wrapping_add(1),
                })
                &&& after.holds(r->Ok_0.guard)
                &&& !after.cancel_requested(r->Ok_0.guard)
                &&& r->Ok_0.request == request
                &&& r->Ok_0.operation_id@ == operation_id@
                &&& r->Ok_0.selected_volume_scope == selected_volume_scope
                &&& r->Ok_0.started_at_ms == now_ms
                &&& r->Ok_0.registry == ctx.registry->Ok_0
                &&& r->Ok_0.source_scoped_rule_ids == ctx.source_scoped_rule_ids->Ok_0
                &&& r->Ok_0.cleaner_rule_ids.deep_view() == keep_members(
                    request.rule_ids.deep_view(),
                    ctx.cleaner_ids.deep_view(),
                )
            },
        }
    }
}

/// Two errors are the same kind with the same message.
pub open spec fn same_error(a: CoreError, b: CoreError) -> bool {
    match (a, b) {
        (CoreError::InvalidInput(x), CoreError::InvalidInput(y)) => x@ == y@,
        (CoreError::OperationFailed(x), CoreError::OperationFailed(y)) => x@ == y@,
        (CoreError::Busy, CoreError::Busy) => true,
        (CoreError::Cancelled, CoreError::Cancelled) => true,
        _ => false,
    }
}

/// Starting a cleanup depends on the operation id only through its text.
pub proof fn lemma_prepared_cleanup_by_view(
    before: OperationCoordinator,
    after: OperationCoordinator,
    request: CleanupRequest,
    id_a: String,
    id_b: String,
    selected_volume_scope: bool,
    ctx: PlanningContext,
    now_ms: u64,
    r: Result<CleanupDraft, CoreError>,
)
    requires
        id_a@ == id_b@,
        prepared_cleanup(before, after, request, id_a, selected_volume_scope, ctx, now_ms, r),
    ensures
        prepared_cleanup(before, after, request, id_b, selected_volume_scope, ctx, now_ms, r),
{
}

/// Starting a cleanup is deterministic: the same coordinator, request,
/// operation id, scope, answers and clock give the same coordinator after,
/// and the same draft or the same error.
pub proof fn lemma_prepared_cleanup_deterministic(
    before: OperationCoordinator,
    after_a: OperationCoordinator,
    after_b: OperationCoordinator,
    request: CleanupRequest,
    operation_id: String,
    selected_volume_scope: bool,
    ctx: PlanningContext,
    now_ms: u64,
    r_a: Result<CleanupDraft, CoreError>,
    r_b: Result<CleanupDraft, CoreError>,
)
    requires
        prepared_cleanup(before, after_a, request, operation_id, selected_volume_scope, ctx, now_ms, r_a),
        prepared_cleanup(before, after_b, request, operation_id, selected_volume_scope, ctx, now_ms, r_b),
    ensures
        after_a == after_b,
        r_a is Ok <==> r_b is Ok,
        r_a is Err ==> same_error(r_a->Err_0, r_b->Err_0),
        r_a is Ok ==> {
            let (a, b) = (r_a->Ok_0, r_b->Ok_0);
            &&& a.guard == b.guard
            &&& a.request == b.request
            &&& a.operation_id@ == b.operation_id@
            &&& a.selected_volume_scope == b.selected_volume_scope
            &&& a.started_at_ms == b.started_at_ms
            &&& a.registry == b.registry
            &&& a.source_scoped_rule_ids == b.source_scoped_rule_ids
            &&& a.cleaner_rule_ids.deep_view() == b.cleaner_rule_ids.deep_view()
        },
{
    if r_a is Err {
        let e = r_a->Err_0;
        match e {
            CoreError::InvalidInput(x) => {},
            CoreError::OperationFailed(x) => {},
            CoreError::Busy => {},
            CoreError::Cancelled => {},
        }
    }
}

/// Starts the cleanup operation and validates `request` against `ctx`.
#[verifier::loop_isolation(false)]
pub fn prepare_cleanup(
    ops: &mut OperationCoordinator,
    request: CleanupRequest,
    operation_id: String,
    selected_volume_scope: bool,
    ctx: PlanningContext,
    now_ms: u64,
) -> (r: Result<CleanupDraft, CoreError>)
    ensures
        prepared_cleanup(
            *old(ops),
            *final(ops),
            request,
            operation_id,
            selected_volume_scope,
            ctx,
            now_ms,
            r,
        ),
{
    let guard = match ops.start(CoordinatedOperationKind::Cleanup) {
        Ok(g) => g,
        Err(e) => {
            return Err(e);
        },
    };
    if request.rule_ids.len() == 0 {
        ops.finish(guard);
        return Err(CoreError::InvalidInput("at least one cleanup rule must be selected".to_owned()));
    }
    if is_blank_str(operation_id.as_str()) {
        ops.finish(guard);
        return Err(
            CoreError::InvalidInput("deep cleanup operation id must not be empty".to_owned()),
        );
    }
    if !strings_distinct(&request.rule_ids) {
        ops.finish(guard);
        return Err(CoreError::InvalidInput("the cleanup plan contains duplicate rules".to_owned()));
    }
    let ghost ctx0 = ctx;
    let PlanningContext { registry, cleaner_ids, source_scoped_rule_ids } = ctx;
    let source_scoped_rule_ids = match source_scoped_rule_ids {
        Ok(v) => v,
        Err(e) => {
            ops.finish(guard);
            return Err(e);
        },
    };
    let registry = match registry {
        Ok(v) => v,
        Err(e) => {
            ops.finish(guard);
            return Err(e);
        },
    };
    let ghost started = *ops;
    let mut i: usize = 0;
    while i < request.rule_ids.len()
        invariant
            i <= request.rule_ids@.len(),
            *ops == started,
            ctx0.registry == Ok::<Vec<CatalogRule>, CoreError>(registry),
            ctx0.cleaner_ids == cleaner_ids,
            forall|k: int| 0 <= k < i ==> !unknown_rule(#[trigger] request.rule_ids.deep_view()[k], ctx0),
        decreases request.rule_ids.len() - i,
    {
        let id = &request.rule_ids[i];
        assert(request.rule_ids.deep_view()[i as int] == id@);
        if !registry_contains(&registry, id) && !contains_string(&cleaner_ids, id) {
            assert(unknown_rule(request.rule_ids.deep_view()[i as int], ctx0));
            ops.finish(guard);
            return Err(
                CoreError::InvalidInput("the cleanup plan contains an unknown rule".to_owned()),
            );
        }
        i = i + 1;
    }
    assert(!(exists|k: int|
        0 <= k < request.rule_ids.deep_view().len() && unknown_rule(
            #[trigger] request.rule_ids.deep_view()[k],
            ctx0,
        )));
    let cleaner_rule_ids = keep_member_strings(&request.rule_ids, &cleaner_ids);
    Ok(
        CleanupDraft {
            guard,
            request,
            operation_id,
            selected_volume_scope,
            started_at_ms: now_ms,
            registry,
            source_scoped_rule_ids,
            cleaner_rule_ids,
        },
    )
}

/// The first stage is cleaning exactly when no selected rule is measured,
/// and validation as soon as one is.
pub proof fn lemma_preparation_stage_follows_measurement(measured_rule_count: nat)
    ensures
        (spec_preparation_stage(measured_rule_count as int) == CleanupExecutionStage::Cleaning)
            <==> measured_rule_count == 0,
        (spec_preparation_stage(measured_rule_count as int) == CleanupExecutionStage::Validating)
            <==> measured_rule_count > 0,
{
}

/// `id` is the id of a rule of `registry` or of a cleaner.
pub open spec fn names_known_rule(id: Seq<char>, registry: Seq<CatalogRule>, cleaner_ids: Seq<String>) -> bool {
    ||| exists|j: int| 0 <= j < registry.len() && (#[trigger] registry[j]).id@ == id
    ||| exists|j: int| 0 <= j < cleaner_ids.len() && (#[trigger] cleaner_ids[j])@ == id
}

proof fn lemma_known_rule_is_not_unknown(id: Seq<char>, ctx: PlanningContext)
    requires
        ctx.registry is Ok,
    ensures
        names_known_rule(id, ctx.registry->Ok_0@, ctx.cleaner_ids@) <==> !unknown_rule(id, ctx),
{
    let reg = ctx.registry->Ok_0@;
    if registry_ids(reg).contains(id) {
        let j = choose|j: int| 0 <= j < registry_ids(reg).len() && registry_ids(reg)[j] == id;
        assert(reg[j].id@ == id);
    }
    if ctx.cleaner_ids.deep_view().contains(id) {
        let j = choose|j: int|
            0 <= j < ctx.cleaner_ids.deep_view().len() && ctx.cleaner_ids.deep_view()[j] == id;
        assert(ctx.cleaner_ids@[j]@ == id);
    }
    if exists|j: int| 0 <= j < reg.len() && (#[trigger] reg[j]).id@ == id {
        let j = choose|j: int| 0 <= j < reg.len() && (#[trigger] reg[j]).id@ == id;
        assert(registry_ids(reg)[j] == id);
    }
    if exists|j: int| 0 <= j < ctx.cleaner_ids@.len() && (#[trigger] ctx.cleaner_ids@[j])@ == id {
        let j = choose|j: int|
            0 <= j < ctx.cleaner_ids@.len() && (#[trigger] ctx.cleaner_ids@[j])@ == id;
        assert(ctx.cleaner_ids.deep_view()[j] == id);
    }
}

/// A started step names only known rules: when starting it succeeds, the
/// registry was loaded and every selected id is the id of a registry rule or
/// of a cleaner; and once the registry is loaded, a request that names some
/// other id is refused.
pub proof fn lemma_accepted_step_names_known_rules(
    before: OperationCoordinator,
    after: OperationCoordinator,
    request: CleanupRequest,
    operation_id: String,
    selected_volume_scope: bool,
    ctx: PlanningContext,
    now_ms: u64,
    r: Result<CleanupDraft, CoreError>,
)
    requires
        prepared_cleanup(before, after, request, operation_id, selected_volume_scope, ctx, now_ms, r),
    ensures
        r is Ok ==> {
            &&& ctx.registry is Ok
            &&& forall|i: int|
                0 <= i < request.rule_ids@.len() ==> names_known_rule(
                    (#[trigger] request.rule_ids@[i])@,
                    ctx.registry->Ok_0@,
                    ctx.cleaner_ids@,
                )
        },
        ctx.registry is Ok && (exists|i: int|
            0 <= i < request.rule_ids@.len() && !names_known_rule(
                (#[trigger] request.rule_ids@[i])@,
                ctx.registry->Ok_0@,
                ctx.cleaner_ids@,
            )) ==> r is Err,
{
    let ids = request.rule_ids.deep_view();
    if r is Ok {
        assert forall|i: int| 0 <= i < request.rule_ids@.len() implies names_known_rule(
            (#[trigger] request.rule_ids@[i])@,
            ctx.registry->Ok_0@,
            ctx.cleaner_ids@,
        ) by {
            assert(ids[i] == request.rule_ids@[i]@);
            assert(!unknown_rule(ids[i], ctx));
            lemma_known_rule_is_not_unknown(ids[i], ctx);
        }
    }
    if ctx.registry is Ok && (exists|i: int|
        0 <= i < request.rule_ids@.len() && !names_known_rule(
            (#[trigger] request.rule_ids@[i])@,
            ctx.registry->Ok_0@,
            ctx.cleaner_ids@,
        )) {
        let i = choose|i: int|
            0 <= i < request.rule_ids@.len() && !names_known_rule(
                (#[trigger] request.rule_ids@[i])@,
                ctx.registry->Ok_0@,
                ctx.cleaner_ids@,
            );
        assert(ids[i] == request.rule_ids@[i]@);
        lemma_known_rule_is_not_unknown(ids[i], ctx);
        assert(unknown_rule(ids[i], ctx));
    }
}

} // verus!
