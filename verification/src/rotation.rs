//! Sequencing one rotation run over the planned slots.
//!
//! A run starts from a fresh snapshot and a freshly loaded pool, visits
//! the planned slots in order, and records each slot's outcome.  A failed
//! slot — selector or write — is recorded and the run continues with the
//! next slot; nothing is retried.  The picking and the writes happen
//! outside: the caller asks for the current slot, does the work, and
//! reports back.  No state survives a run.

use vstd::prelude::*;
use crate::errors::BackdropError;
use crate::slots::Slot;
use crate::slots::plan_slots;
use crate::slots::spec_active_workspaces;
use crate::topology::TopologySnapshot;

verus! {

/// One slot the run could not rotate, with the cause.
#[derive(Debug)]
pub struct SlotFailure {
    /// The monitor token of the failed slot.
    pub monitor: String,
    /// The workspace index of the failed slot.
    pub workspace: u64,
    /// What went wrong on this slot.
    pub error: BackdropError,
}

/// The state of one rotation run.
#[derive(Debug)]
pub struct RotationRun {
    /// The slots this run writes, in plan order.
    pub slots: Vec<Slot>,
    /// How many slots have been dealt with so far.
    pub done: usize,
    /// The slots that failed, with their causes, in visit order.
    pub failures: Vec<SlotFailure>,
}

impl RotationRun {
    /// A run never stands past its plan, and cannot have failed more
    /// slots than it has visited.
    pub open spec fn wf(&self) -> bool {
        &&& self.done <= self.slots@.len()
        &&& self.failures@.len() <= self.done
    }

    /// Start a run over a snapshot's planned slots: every monitor crossed
    /// with every active workspace, nothing visited, nothing failed.
    pub fn new(snapshot: &TopologySnapshot) -> (r: RotationRun)
        requires
            snapshot.workspace_count <= usize::MAX,
            snapshot.monitors@.len() * spec_active_workspaces(
                snapshot.mode,
                snapshot.workspace_count,
            ).len() <= usize::MAX,
        ensures
            r.wf(),
            r.done == 0,
            r.failures@.len() == 0,
            ({
                let active = spec_active_workspaces(snapshot.mode, snapshot.workspace_count);
                &&& r.slots@.len() == snapshot.monitors@.len() * active.len()
                &&& forall|i: int|
                    0 <= i < r.slots@.len() ==> (#[trigger] r.slots@[i].monitor@)
                        == snapshot.monitors@[i / (active.len() as int)]@
                &&& forall|i: int|
                    0 <= i < r.slots@.len() ==> (#[trigger] r.slots@[i].workspace) == active[i % (
                    active.len() as int)]
            }),
    {
        RotationRun { slots: plan_slots(snapshot), done: 0, failures: Vec::new() }
    }

    /// The slot to rotate next, or nothing once every slot was visited.
    pub fn current(&self) -> (r: Option<(String, u64)>)
        requires
            self.wf(),
        ensures
            r is Some <==> self.done < self.slots@.len(),
            r matches Some(p) ==> p.0@ == self.slots@[self.done as int].monitor@ && p.1
                == self.slots@[self.done as int].workspace,
    {
        if self.done < self.slots.len() {
            let slot = &self.slots[self.done];
            Some((slot.monitor.clone(), slot.workspace))
        } else {
            None
        }
    }

    /// Record that the current slot was rotated: the run moves on and the
    /// failure record is untouched.
    pub fn record_success(&mut self)
        requires
            old(self).wf(),
            old(self).done < old(self).slots@.len(),
        ensures
            final(self).wf(),
            final(self).slots@ == old(self).slots@,
            final(self).done == old(self).done + 1,
            final(self).failures@ == old(self).failures@,
    {
        let n = self.slots.len();
        assert(self.done < n);
        self.done = self.done + 1;
    }

    /// Record that the current slot failed: the failure is kept with its
    /// slot and cause, and the run still moves on — one bad slot never
    /// stops the rest.
    pub fn record_failure(&mut self, error: BackdropError)
        requires
            old(self).wf(),
            old(self).done < old(self).slots@.len(),
        ensures
            final(self).wf(),
            final(self).slots@ == old(self).slots@,
            final(self).done == old(self).done + 1,
            final(self).failures@.len() == old(self).failures@.len() + 1,
            final(self).failures@.drop_last() == old(self).failures@,
            ({
                let f = final(self).failures@.last();
                &&& f.monitor@ == old(self).slots@[old(self).done as int].monitor@
                &&& f.workspace == old(self).slots@[old(self).done as int].workspace
                &&& f.error == error
            }),
    {
        let slot = &self.slots[self.done];
        let record = SlotFailure {
            monitor: slot.monitor.clone(),
            workspace: slot.workspace,
            error,
        };
        self.failures.push(record);
        let n = self.slots.len();
        assert(self.done < n);
        self.done = self.done + 1;
        proof {
            assert(self.failures@.drop_last() =~= old(self).failures@);
        }
    }

    /// Whether every planned slot was visited.
    pub fn is_done(&self) -> (r: bool)
        ensures
            r <==> self.done == self.slots@.len(),
    {
        self.done == self.slots.len()
    }

    /// How many slots failed so far.
    pub fn failure_count(&self) -> (n: usize)
        ensures
            n == self.failures@.len(),
    {
        self.failures.len()
    }
}

} // verus!
