//! The (monitor, workspace) slot grid.
//!
//! A slot owns exactly one backdrop image assignment.  The canonical slot
//! ordering is monitor-major, workspace-minor: for each monitor in
//! ascending lexicographic order, each workspace index ascending.  The
//! positional mapping of explicit assignment depends on this order, so it
//! is stated exactly: slot `i` of the grid pairs monitor `i / w` with
//! workspace `i % w`.

use vstd::prelude::*;
use vstd::arithmetic::div_mod::lemma_fundamental_div_mod_converse;
use crate::topology::BackdropMode;
use crate::topology::TopologySnapshot;

verus! {

/// One (monitor, workspace) pair.
#[derive(Debug)]
pub struct Slot {
    /// The monitor token.
    pub monitor: String,
    /// The workspace index.
    pub workspace: u64,
}

/// The workspace indices `0 .. count`.
pub fn workspace_range(count: u64) -> (r: Vec<u64>)
    requires
        count <= usize::MAX,
    ensures
        r@.len() == count,
        forall|i: int| 0 <= i < r@.len() ==> r@[i] == i as u64,
{
    let mut r: Vec<u64> = Vec::new();
    let mut w: u64 = 0;
    while w < count
        invariant
            w <= count,
            r@.len() == w,
            forall|i: int| 0 <= i < r@.len() ==> r@[i] == i as u64,
        decreases count - w,
    {
        r.push(w);
        w = w + 1;
    }
    r
}

/// The monitor-major grid over the given monitors and workspace indices:
/// grid position `i` pairs monitor `i / w` with workspace entry `i % w`,
/// where `w` is the number of workspace entries.
pub fn grid_slots(monitors: &Vec<String>, workspaces: &Vec<u64>) -> (r: Vec<Slot>)
    requires
        monitors@.len() * workspaces@.len() <= usize::MAX,
    ensures
        r@.len() == monitors@.len() * workspaces@.len(),
        forall|i: int|
            0 <= i < r@.len() ==> (#[trigger] r@[i].monitor@) == monitors@[i / (
            workspaces@.len() as int)]@,
        forall|i: int|
            0 <= i < r@.len() ==> (#[trigger] r@[i].workspace) == workspaces@[i % (
            workspaces@.len() as int)],
{
    let mut r: Vec<Slot> = Vec::new();
    let nm = monitors.len();
    let nw = workspaces.len();
    let mut a: usize = 0;
    while a < nm
        invariant
            nm == monitors@.len(),
            nw == workspaces@.len(),
            nm * nw <= usize::MAX,
            a <= nm,
            r@.len() == a * nw,
            forall|i: int|
                0 <= i < r@.len() ==> (#[trigger] r@[i].monitor@) == monitors@[i / (nw as int)]@,
            forall|i: int|
                0 <= i < r@.len() ==> (#[trigger] r@[i].workspace) == workspaces@[i % (nw as int)],
        decreases nm - a,
    {
        let mut b: usize = 0;
        proof {
            assert(a * nw + nw <= nm * nw) by (nonlinear_arith)
                requires
                    a < nm,
                    nw >= 0,
            ;
        }
        while b < nw
            invariant
                nm == monitors@.len(),
                nw == workspaces@.len(),
                a < nm,
                b <= nw,
                a * nw + nw <= nm * nw <= usize::MAX,
                r@.len() == a * nw + b,
                forall|i: int|
                    0 <= i < r@.len() ==> (#[trigger] r@[i].monitor@) == monitors@[i / (
                    nw as int)]@,
                forall|i: int|
                    0 <= i < r@.len() ==> (#[trigger] r@[i].workspace) == workspaces@[i % (
                    nw as int)],
            decreases nw - b,
        {
            proof {
                lemma_fundamental_div_mod_converse(
                    a * nw + b,
                    nw as int,
                    a as int,
                    b as int,
                );
            }
            r.push(Slot { monitor: monitors[a].clone(), workspace: workspaces[b] });
            b = b + 1;
        }
        proof {
            assert((a + 1) * nw == a * nw + nw) by (nonlinear_arith);
        }
        a = a + 1;
    }
    r
}

/// The canonical slot grid of a full topology: every monitor crossed with
/// every workspace index below the count, monitor-major.
pub fn canonical_slots(monitors: &Vec<String>, workspace_count: u64) -> (r: Vec<Slot>)
    requires
        workspace_count <= usize::MAX,
        monitors@.len() * workspace_count <= usize::MAX,
    ensures
        r@.len() == monitors@.len() * workspace_count,
        forall|i: int|
            0 <= i < r@.len() ==> (#[trigger] r@[i].monitor@) == monitors@[i / (
            workspace_count as int)]@,
        forall|i: int|
            0 <= i < r@.len() ==> (#[trigger] r@[i].workspace) == i % (workspace_count as int),
{
    let ws = workspace_range(workspace_count);
    grid_slots(monitors, &ws)
}

/// The workspace indices one rotation run targets: only the single
/// workspace in single mode, every discovered index otherwise.
pub open spec fn spec_active_workspaces(mode: BackdropMode, workspace_count: u64) -> Seq<u64> {
    match mode {
        BackdropMode::Single(w) => seq![w],
        BackdropMode::PerWorkspace => Seq::new(workspace_count as nat, |i: int| i as u64),
    }
}

/// Compute the active workspace set of a snapshot's mode.
pub fn active_workspaces(mode: BackdropMode, workspace_count: u64) -> (r: Vec<u64>)
    requires
        workspace_count <= usize::MAX,
    ensures
        r@ == spec_active_workspaces(mode, workspace_count),
{
    match mode {
        BackdropMode::Single(w) => {
            let mut r: Vec<u64> = Vec::new();
            r.push(w);
            proof {
                assert(r@ =~= seq![w]);
            }
            r
        },
        BackdropMode::PerWorkspace => {
            let r = workspace_range(workspace_count);
            proof {
                assert(r@ =~= Seq::new(workspace_count as nat, |i: int| i as u64));
            }
            r
        },
    }
}

/// The slots one rotation run writes, monitor-major over the active
/// workspace set.
pub fn plan_slots(snapshot: &TopologySnapshot) -> (r: Vec<Slot>)
    requires
        snapshot.workspace_count <= usize::MAX,
        snapshot.monitors@.len() * spec_active_workspaces(
            snapshot.mode,
            snapshot.workspace_count,
        ).len() <= usize::MAX,
    ensures
        ({
            let active = spec_active_workspaces(snapshot.mode, snapshot.workspace_count);
            &&& r@.len() == snapshot.monitors@.len() * active.len()
            &&& forall|i: int|
                0 <= i < r@.len() ==> (#[trigger] r@[i].monitor@) == snapshot.monitors@[i / (
                active.len() as int)]@
            &&& forall|i: int|
                0 <= i < r@.len() ==> (#[trigger] r@[i].workspace) == active[i % (
                active.len() as int)]
        }),
{
    let active = active_workspaces(snapshot.mode, snapshot.workspace_count);
    grid_slots(&snapshot.monitors, &active)
}

} // verus!
