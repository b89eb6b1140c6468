//! Discovering the monitor/workspace topology from the property namespace.
//!
//! A resolve pass reads the full flat property set once (the transport
//! hands over the keys), captures a monitor token from every colour-style
//! key, and canonicalizes the captures into a sorted, deduplicated monitor
//! sequence.  The workspace count is the number of last-image keys of the
//! first monitor; all monitors are assumed to expose the same count, and
//! that assumption is not checked here.  The single-workspace mode is read
//! from two optional properties; when either is missing the mode falls
//! back to a single backdrop on workspace zero.  A snapshot is immutable:
//! refreshing produces a new value.

use vstd::prelude::*;
use crate::errors::BackdropError;
use crate::keys::spec_is_last_image_key;
use crate::keys::spec_monitor_capture;
use crate::keys::extract_monitor;
use crate::keys::is_last_image_key;
use crate::strorder::canonicalize;
use crate::strorder::has_view;
use crate::strorder::lemma_has_view_index;
use crate::strorder::lemma_has_view_push;
use crate::strorder::strictly_sorted;
use crate::strorder::views;

verus! {

/// Whether rotation targets one shared workspace or every workspace.
#[derive(Debug, Clone, Copy, PartialEq, Eq, Structural)]
pub enum BackdropMode {
    /// Every monitor's rotation targets only this workspace index.
    Single(u64),
    /// Rotation targets every discovered workspace independently.
    PerWorkspace,
}

/// The immutable record of one topology discovery pass.
#[derive(Debug)]
pub struct TopologySnapshot {
    /// Monitor tokens, sorted and deduplicated.
    pub monitors: Vec<String>,
    /// Number of workspaces exposed by the first monitor.
    pub workspace_count: u64,
    /// The backdrop mode in force when the snapshot was taken.
    pub mode: BackdropMode,
}

impl TopologySnapshot {
    /// A snapshot always holds at least one monitor, in strictly
    /// ascending order.
    pub open spec fn wf(&self) -> bool {
        &&& strictly_sorted(views(self.monitors@))
        &&& self.monitors@.len() > 0
    }
}

/// `m` is a monitor token captured from some key of the set.
pub open spec fn is_monitor_of(keys: Seq<String>, m: Seq<char>) -> bool {
    exists|j: int| 0 <= j < keys.len() && spec_monitor_capture(#[trigger] keys[j]@) == Some(m)
}

/// How many keys of the set are last-image keys of monitor `m`.
pub open spec fn count_last_image(keys: Seq<String>, m: Seq<char>) -> int
    decreases keys.len(),
{
    if keys.len() == 0 {
        0
    } else {
        count_last_image(keys.drop_last(), m) + if spec_is_last_image_key(keys.last()@, m) {
            1int
        } else {
            0int
        }
    }
}

/// The mode encoded by the two optional single-workspace properties:
/// absent or unreadable properties mean a single backdrop on workspace
/// zero, and a fetched negative workspace number is clamped to zero.
pub open spec fn spec_mode(flag: Option<bool>, number: Option<i64>) -> BackdropMode {
    match (flag, number) {
        (Some(f), Some(n)) => if f {
            BackdropMode::Single(if n < 0 { 0u64 } else { n as u64 })
        } else {
            BackdropMode::PerWorkspace
        },
        _ => BackdropMode::Single(0u64),
    }
}

/// Consuming one more key grows the captured-monitor membership by that
/// key's capture, if any.
proof fn lemma_monitor_prefix_grow(keys: Seq<String>, k: int)
    requires
        0 <= k < keys.len(),
    ensures
        forall|x: Seq<char>|
            #[trigger] is_monitor_of(keys.subrange(0, k + 1), x) <==> is_monitor_of(
                keys.subrange(0, k),
                x,
            ) || spec_monitor_capture(keys[k]@) == Some(x),
{
    let pre = keys.subrange(0, k);
    let ext = keys.subrange(0, k + 1);
    assert forall|x: Seq<char>|
        #[trigger] is_monitor_of(ext, x) <==> is_monitor_of(pre, x) || spec_monitor_capture(
            keys[k]@,
        ) == Some(x) by {
        if is_monitor_of(ext, x) {
            let j = choose|j: int|
                0 <= j < ext.len() && spec_monitor_capture(#[trigger] ext[j]@) == Some(x);
            if j < k {
                assert(pre[j]@ == ext[j]@);
                assert(spec_monitor_capture(pre[j]@) == Some(x));
            } else {
                assert(ext[k]@ == keys[k]@);
            }
        }
        if is_monitor_of(pre, x) {
            let j = choose|j: int|
                0 <= j < pre.len() && spec_monitor_capture(#[trigger] pre[j]@) == Some(x);
            assert(spec_monitor_capture(ext[j]@) == Some(x));
        }
        if spec_monitor_capture(keys[k]@) == Some(x) {
            assert(spec_monitor_capture(ext[k]@) == Some(x));
        }
    }
}

/// Capture the monitor token of every colour-style key.
fn extract_monitors(keys: &Vec<String>) -> (caps: Vec<String>)
    ensures
        forall|x: Seq<char>| #[trigger] has_view(caps@, x) <==> is_monitor_of(keys@, x),
{
    let mut caps: Vec<String> = Vec::new();
    let n = keys.len();
    let mut k: usize = 0;
    proof {
        assert(keys@.subrange(0, 0).len() == 0);
    }
    while k < n
        invariant
            n == keys@.len(),
            k <= n,
            forall|x: Seq<char>|
                #[trigger] has_view(caps@, x) <==> is_monitor_of(keys@.subrange(0, k as int), x),
        decreases n - k,
    {
        let ghost prev = caps@;
        let cap = extract_monitor(keys[k].as_str());
        match cap {
            Some(m) => {
                proof {
                    lemma_has_view_push(caps@, m);
                }
                caps.push(m);
            },
            None => {},
        }
        proof {
            lemma_monitor_prefix_grow(keys@, k as int);
        }
        k = k + 1;
    }
    proof {
        assert(keys@.subrange(0, n as int) =~= keys@);
    }
    caps
}

/// Counting step: one more key adds one match or none.
proof fn lemma_count_step(keys: Seq<String>, m: Seq<char>, j: int)
    requires
        0 <= j < keys.len(),
    ensures
        count_last_image(keys.subrange(0, j + 1), m) == count_last_image(keys.subrange(0, j), m)
            + if spec_is_last_image_key(keys[j]@, m) {
            1int
        } else {
            0int
        },
{
    assert(keys.subrange(0, j + 1).drop_last() =~= keys.subrange(0, j));
    assert(keys.subrange(0, j + 1).last() == keys[j]);
}

/// Count the last-image keys of one monitor.
fn count_last_image_keys(keys: &Vec<String>, monitor: &str) -> (c: usize)
    ensures
        c as int == count_last_image(keys@, monitor@),
{
    let mut c: usize = 0;
    let n = keys.len();
    let mut j: usize = 0;
    proof {
        assert(keys@.subrange(0, 0).len() == 0);
    }
    while j < n
        invariant
            n == keys@.len(),
            j <= n,
            c <= j,
            c as int == count_last_image(keys@.subrange(0, j as int), monitor@),
        decreases n - j,
    {
        proof {
            lemma_count_step(keys@, monitor@, j as int);
        }
        if is_last_image_key(keys[j].as_str(), monitor) {
            c = c + 1;
        }
        j = j + 1;
    }
    proof {
        assert(keys@.subrange(0, n as int) =~= keys@);
    }
    c
}

/// Read the backdrop mode out of the two optional single-workspace
/// property lookups.
pub fn mode_from_lookups(flag: Option<bool>, number: Option<i64>) -> (m: BackdropMode)
    ensures
        m == spec_mode(flag, number),
{
    match (flag, number) {
        (Some(f), Some(n)) => if f {
            BackdropMode::Single(if n < 0 { 0 } else { n as u64 })
        } else {
            BackdropMode::PerWorkspace
        },
        _ => BackdropMode::Single(0),
    }
}

/// Build a topology snapshot from the flat property key set and the two
/// optional mode lookups.  Fails exactly when no key yields a monitor.
pub fn resolve_snapshot(keys: &Vec<String>, flag: Option<bool>, number: Option<i64>) -> (r: Result<
    TopologySnapshot,
    BackdropError,
>)
    ensures
        r is Ok <==> exists|x: Seq<char>| is_monitor_of(keys@, x),
        r is Err ==> r->Err_0 is NoTopology,
        r is Ok ==> r->Ok_0.wf(),
        r is Ok ==> forall|x: Seq<char>|
            #[trigger] has_view(r->Ok_0.monitors@, x) <==> is_monitor_of(keys@, x),
        r is Ok ==> r->Ok_0.workspace_count as int == count_last_image(
            keys@,
            r->Ok_0.monitors@[0]@,
        ),
        r is Ok ==> r->Ok_0.mode == spec_mode(flag, number),
{
    let caps = extract_monitors(keys);
    let monitors = canonicalize(&caps);
    if monitors.len() == 0 {
        proof {
            assert forall|x: Seq<char>| !is_monitor_of(keys@, x) by {
                assert(!has_view(monitors@, x));
            }
        }
        return Err(BackdropError::NoTopology);
    }
    proof {
        lemma_has_view_index(monitors@, 0);
        assert(is_monitor_of(keys@, monitors@[0]@));
    }
    let wc = count_last_image_keys(keys, monitors[0].as_str());
    let mode = mode_from_lookups(flag, number);
    Ok(TopologySnapshot { monitors, workspace_count: wc as u64, mode })
}

/// Accept a requested single-backdrop workspace index only when it lies
/// inside the discovered workspace range; an out-of-range request leaves
/// the stored number unchanged.
pub fn validate_workspace_request(n: i64, workspace_count: u64) -> (r: Option<i64>)
    ensures
        r is Some <==> 0 <= n && (n as int) < workspace_count as int,
        r is Some ==> r->0 == n,
{
    if n < 0 {
        None
    } else if (n as u64) >= workspace_count {
        None
    } else {
        Some(n)
    }
}

} // verus!

