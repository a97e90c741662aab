//! Coordination of long-running operations: at most one runs at a time, and
//! a running cleanup can be cancelled cooperatively.

use vstd::prelude::*;
use crate::types::CoreError;

verus! {

/// The kinds of coordinated operation.
#[derive(Clone, Copy, Debug, PartialEq, Eq, Structural)]
pub enum CoordinatedOperationKind {
    Cleanup,
    ApplicationClose,
}

/// The operation that currently holds the coordinator.
#[derive(Clone, Copy, Debug, PartialEq, Eq, Structural)]
pub struct ActiveOperation {
    pub id: u64,
    pub kind: CoordinatedOperationKind,
    pub cancelled: bool,
}

/// Names a started operation; handed back when it ends.
#[derive(Clone, Copy, Debug, PartialEq, Eq, Structural)]
pub struct OperationGuard {
    pub id: u64,
    pub kind: CoordinatedOperationKind,
}

/// Admits one operation at a time and carries its cancellation request.
#[derive(Debug)]
pub struct OperationCoordinator {
    pub active: Option<ActiveOperation>,
    pub next_id: u64,
}

impl OperationCoordinator {
    /// Whether `guard` is the running operation.
    pub open spec fn holds(&self, guard: OperationGuard) -> bool {
        &&& self.active is Some
        &&& self.active->0.id == guard.id
        &&& self.active->0.kind == guard.kind
    }

    /// Whether the running operation of `guard` was asked to stop.
    pub open spec fn cancel_requested(&self, guard: OperationGuard) -> bool {
        self.holds(guard) && self.active->0.cancelled
    }

    /// A coordinator with nothing running.
    pub fn new() -> (r: Self)
        ensures
            r.active is None,
            r.next_id == 0,
    {
        OperationCoordinator { active: None, next_id: 0 }
    }

    /// Starts an operation of `kind`, unless another one is running.
    pub fn start(&mut self, kind: CoordinatedOperationKind) -> (r: Result<OperationGuard, CoreError>)
        ensures
            old(self).active is Some ==> {
                &&& r == Err::<OperationGuard, CoreError>(CoreError::Busy)
                &&& *final(self) == *old(self)
            },
            old(self).active is None ==> {
                &&& r is Ok
                &&& r->Ok_0 == (OperationGuard { id: old(self).next_id, kind })
                &&& final(self).active == Some(
                    ActiveOperation { id: old(self).next_id, kind, cancelled: false },
                )
                &&& final(self).next_id == old(self).next_id.wrapping_add(1)
                &&& final(self).holds(r->Ok_0)
                &&& !final(self).cancel_requested(r->Ok_0)
            },
    {
        if self.active.is_some() {
            return Err(CoreError::Busy);
        }
        let id = self.next_id;
        self.active = Some(ActiveOperation { id, kind, cancelled: false });
        self.next_id = id.wrapping_add(1);
        Ok(OperationGuard { id, kind })
    }

    /// Fails with `Cancelled` once the operation of `guard` was asked to stop.
    pub fn ensure_not_cancelled(&self, guard: &OperationGuard) -> (r: Result<(), CoreError>)
        ensures
            self.cancel_requested(*guard) ==> r == Err::<(), CoreError>(CoreError::Cancelled),
            !self.cancel_requested(*guard) ==> r == Ok::<(), CoreError>(()),
    {
        match self.active {
            Some(active) => {
                if active.id == guard.id && active.kind == guard.kind && active.cancelled {
                    Err(CoreError::Cancelled)
                } else {
                    Ok(())
                }
            },
            None => Ok(()),
        }
    }

    /// The coordinator after the running cleanup, if any, is asked to stop.
    pub open spec fn after_cancel_cleanup(self) -> OperationCoordinator {
        match self.active {
            Some(a) => if a.kind == CoordinatedOperationKind::Cleanup {
                OperationCoordinator { active: Some(ActiveOperation { cancelled: true, ..a }), ..self }
            } else {
                self
            },
            None => self,
        }
    }

    /// Asks the running cleanup, if any, to stop; nothing else changes.
    pub fn cancel_cleanup(&mut self)
        ensures
            *final(self) == old(self).after_cancel_cleanup(),
    {
        match self.active {
            Some(active) => {
                if active.kind == CoordinatedOperationKind::Cleanup {
                    self.active = Some(ActiveOperation { cancelled: true, ..active });
                }
            },
            None => {},
        }
    }

    /// The coordinator after the operation of `guard` ends.
    pub open spec fn after_finish(self, guard: OperationGuard) -> OperationCoordinator {
        if self.holds(guard) {
            OperationCoordinator { active: None, ..self }
        } else {
            self
        }
    }

    /// Ends the operation of `guard`, completed or abandoned, and admits the
    /// next one; a guard that does not hold the coordinator changes nothing.
    pub fn finish(&mut self, guard: OperationGuard)
        ensures
            *final(self) == old(self).after_finish(guard),
    {
        match self.active {
            Some(active) => {
                if active.id == guard.id && active.kind == guard.kind {
                    self.active = None;
                }
            },
            None => {},
        }
    }
}

/// Once the running cleanup is asked to stop, its cancellation check
/// fails: `cancel_cleanup` followed by `ensure_not_cancelled` on the guard of
/// the running cleanup yields `Cancelled`.
pub proof fn lemma_cancel_reaches_running_cleanup(
    ops: OperationCoordinator,
    guard: OperationGuard,
)
    requires
        ops.holds(guard),
        guard.kind == CoordinatedOperationKind::Cleanup,
    ensures
        ops.after_cancel_cleanup().cancel_requested(guard),
{
}

/// Cancellation never reaches an operation of another kind.
pub proof fn lemma_cancel_spares_other_operations(
    ops: OperationCoordinator,
    guard: OperationGuard,
)
    requires
        guard.kind != CoordinatedOperationKind::Cleanup,
    ensures
        ops.after_cancel_cleanup().cancel_requested(guard) == ops.cancel_requested(guard),
{
}

/// Finishing an operation frees the coordinator: the next start succeeds.
pub proof fn lemma_finish_admits_next_operation(
    ops: OperationCoordinator,
    guard: OperationGuard,
)
    requires
        ops.holds(guard),
    ensures
        ops.after_finish(guard).active is None,
{
}

} // verus!
