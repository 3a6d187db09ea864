//! Capturing the recurrent state at the tail boundary inside a prefill pass, and one block below
//! it, without an extra pass.

use vstd::prelude::*;

use crate::sequence_state::SequenceState;

verus! {

/// What decides whether a pass captures.
#[derive(Clone, Copy, Debug)]
pub struct CaptureGate {
    pub switch_on: bool,
    pub snapshots_enabled: bool,
    /// Whether this build's kernels write the captured state.
    pub kernels_capture: bool,
    /// Whether a snapshot is already tagged with the sequence's session.
    pub session_has_history: bool,
}

/// Where a pass over `proc_start..proc_start + proc_count` splits at the tail boundary `tb`.
pub open spec fn capture_point_spec(
    seq: SequenceState,
    gate: CaptureGate,
    tb: Option<usize>,
    proc_start: int,
    proc_count: int,
) -> Option<int> {
    if gate.switch_on && gate.snapshots_enabled && gate.kernels_capture && (
    seq.cached_prefix_tokens > 0 || gate.session_has_history) && tb is Some && proc_start < tb->0
        && tb->0 < proc_start + proc_count {
        Some(tb->0 - proc_start)
    } else {
        None
    }
}

/// Where a pass splits, in its own token count; `None` when it captures nothing. A tail snapshot
/// serves only a later request of the session, so the request must have hit the prefix cache or
/// the session must have a snapshot. Only a pass that strictly crosses the boundary can split
/// there.
pub fn capture_point(
    seq: &SequenceState,
    gate: &CaptureGate,
    tb: Option<usize>,
    proc_start: usize,
    proc_count: usize,
) -> (r: Option<usize>)
    requires
        proc_start + proc_count <= usize::MAX,
    ensures
        r is Some == capture_point_spec(
            *seq,
            *gate,
            tb,
            proc_start as int,
            proc_count as int,
        ) is Some,
        r matches Some(cap) ==> capture_point_spec(
            *seq,
            *gate,
            tb,
            proc_start as int,
            proc_count as int,
        ) == Some(cap as int),
{
    if !gate.switch_on || !gate.snapshots_enabled || !gate.kernels_capture {
        return None;
    }
    if seq.cached_prefix_tokens == 0 && !gate.session_has_history {
        return None;
    }
    match tb {
        None => None,
        Some(t) => if proc_start < t && t < proc_start + proc_count {
            Some(t - proc_start)
        } else {
            None
        },
    }
}

/// How the state one block below the tail boundary is captured.
#[derive(Clone, Copy, Debug, PartialEq, Eq, Structural)]
pub enum EarlyCapture {
    /// Not at all: the pass starts after it.
    Skip,
    /// By a second split of the pass.
    InPass { cap_local: usize, tb: usize },
    /// By saving the live state before the pass, which starts exactly there.
    PrePass { tb: usize },
}

/// How the state one block below the tail boundary is captured.
pub fn early_capture(cap_local: usize, tb: usize, bs: usize) -> (r: EarlyCapture)
    ensures
        r == if bs > 0 && tb > bs && cap_local > bs {
            (EarlyCapture::InPass {
                cap_local: (cap_local - bs) as usize,
                tb: (tb - bs) as usize,
            })
        } else if bs > 0 && tb > bs && cap_local == bs {
            (EarlyCapture::PrePass { tb: (tb - bs) as usize })
        } else {
            EarlyCapture::Skip
        },
{
    if bs > 0 && cap_local > bs && tb > bs {
        EarlyCapture::InPass { cap_local: cap_local - bs, tb: tb - bs }
    } else if bs > 0 && cap_local == bs && tb > bs {
        EarlyCapture::PrePass { tb: tb - bs }
    } else {
        EarlyCapture::Skip
    }
}

/// The plan of a capturing pass.
#[derive(Clone, Copy, Debug, PartialEq, Eq, Structural)]
pub struct MidCapturePlan {
    /// Split point in the pass.
    pub cap_local: usize,
    /// Slot of the tail snapshot.
    pub snap_slot: usize,
    /// Token boundary of the tail snapshot.
    pub tb: usize,
    /// Second split point, if the earlier state is captured in the pass.
    pub cap_local_early: Option<usize>,
    /// Slot of the earlier snapshot.
    pub snap_slot_early: Option<usize>,
    /// Token boundary of the earlier snapshot.
    pub tb_early: Option<usize>,
}

/// The plan of a capturing pass, with the slots that could be had. The earlier capture is best
/// effort: without a slot only the tail is captured.
pub fn capture_plan(
    cap_local: usize,
    tb: usize,
    snap_slot: usize,
    early: EarlyCapture,
    early_slot: Option<usize>,
) -> (r: MidCapturePlan)
    ensures
        r.cap_local == cap_local,
        r.tb == tb,
        r.snap_slot == snap_slot,
        early is Skip || early_slot is None ==> r.cap_local_early is None && r.snap_slot_early is None
            && r.tb_early is None,
        early_slot is Some ==> match early {
            EarlyCapture::Skip => true,
            EarlyCapture::InPass { cap_local: c, tb: t } => r.cap_local_early == Some(c)
                && r.snap_slot_early == early_slot && r.tb_early == Some(t),
            EarlyCapture::PrePass { tb: t } => r.cap_local_early is None && r.snap_slot_early
                == early_slot && r.tb_early == Some(t),
        },
{
    let mut plan = MidCapturePlan {
        cap_local,
        snap_slot,
        tb,
        cap_local_early: None,
        snap_slot_early: None,
        tb_early: None,
    };
    if early_slot.is_some() {
        match early {
            EarlyCapture::Skip => {},
            EarlyCapture::InPass { cap_local: c, tb: t } => {
                plan.cap_local_early = Some(c);
                plan.snap_slot_early = early_slot;
                plan.tb_early = Some(t);
            },
            EarlyCapture::PrePass { tb: t } => {
                plan.snap_slot_early = early_slot;
                plan.tb_early = Some(t);
            },
        }
    }
    plan
}

/// A snapshot to register after the pass.
#[derive(Clone, Copy, Debug, PartialEq, Eq, Structural)]
pub struct Registration {
    pub tokens: usize,
    pub slot: usize,
    /// Whether it is the tail's sibling; the tail is registered first, since its registration
    /// clears the session's earlier tail and sibling.
    pub sibling: bool,
}

/// The snapshots to register after the pass, in order: the tail, then its sibling.
pub fn capture_registrations(plan: &MidCapturePlan) -> (r: Vec<Registration>)
    ensures
        r@ == seq![
            Registration { tokens: plan.tb, slot: plan.snap_slot, sibling: false },
        ] + (if plan.tb_early is Some && plan.snap_slot_early is Some {
            seq![
                Registration {
                    tokens: plan.tb_early->0,
                    slot: plan.snap_slot_early->0,
                    sibling: true,
                },
            ]
        } else {
            Seq::empty()
        }),
{
    let mut out: Vec<Registration> = Vec::new();
    out.push(Registration { tokens: plan.tb, slot: plan.snap_slot, sibling: false });
    match (plan.tb_early, plan.snap_slot_early) {
        (Some(tokens), Some(slot)) => {
            out.push(Registration { tokens, slot, sibling: true });
        },
        _ => {},
    }
    out
}

/// Captures happen inside the pass and in order: the earlier split lies strictly between the
/// pass's start and the tail's split, one block below it, and the tail's split before the pass's
/// end.
pub proof fn captures_lie_inside_pass(
    seq: SequenceState,
    gate: CaptureGate,
    tb: Option<usize>,
    proc_start: int,
    proc_count: int,
    bs: int,
)
    requires
        proc_start >= 0,
        capture_point_spec(seq, gate, tb, proc_start, proc_count) is Some,
    ensures
        ({
            let cap = capture_point_spec(seq, gate, tb, proc_start, proc_count)->0;
            &&& 0 < cap < proc_count
            &&& proc_start + cap == tb->0
            &&& (bs > 0 && cap > bs) ==> 0 < cap - bs < cap && proc_start + (cap - bs) == tb->0 - bs
        }),
{
}

/// A tail state is captured inside a pass exactly when everything for it is there, the sequence
/// has a cached prefix or its session a snapshot, and the boundary lies strictly inside the pass;
/// the split is the boundary's place in the pass.
pub proof fn tails_are_captured_inside_the_pass(
    seq: &SequenceState,
    gate: &CaptureGate,
    tb: Option<usize>,
    proc_start: usize,
    proc_count: usize,
    r: Option<usize>,
)
    requires
        call_ensures(capture_point, (seq, gate, tb, proc_start, proc_count), r),
    ensures
        r matches Some(cap) ==> tb matches Some(t) && proc_start + cap == t && 0 < cap
            < proc_count && gate.switch_on && gate.snapshots_enabled && gate.kernels_capture && (
        seq.cached_prefix_tokens > 0 || gate.session_has_history),
        r is None ==> !(gate.switch_on && gate.snapshots_enabled && gate.kernels_capture && (
        seq.cached_prefix_tokens > 0 || gate.session_has_history) && (tb matches Some(t)
            && proc_start < t && t < proc_start + proc_count)),
{
}

/// The earlier state lies one block before the tail, in the pass or exactly at its start; it is
/// skipped where the pass starts after it or there is no block before the tail.
pub proof fn early_captures_lie_one_block_before(
    cap_local: usize,
    tb: usize,
    bs: usize,
    r: EarlyCapture,
)
    requires
        call_ensures(early_capture, (cap_local, tb, bs), r),
    ensures
        r matches EarlyCapture::InPass { cap_local: c, tb: t } ==> c + bs == cap_local && t + bs
            == tb && c > 0 && t > 0 && bs > 0,
        r matches EarlyCapture::PrePass { tb: t } ==> cap_local == bs && t + bs == tb && t > 0
            && bs > 0,
        r is Skip ==> bs == 0 || tb <= bs || cap_local < bs,
{
}

/// The plan keeps the tail's split, boundary and slot, and the earlier state's only where it has
/// a slot: with its own split when it is captured in the pass, without one before it.
pub proof fn plans_keep_both_captures(
    cap_local: usize,
    tb: usize,
    snap_slot: usize,
    early: EarlyCapture,
    early_slot: Option<usize>,
    r: MidCapturePlan,
)
    requires
        call_ensures(capture_plan, (cap_local, tb, snap_slot, early, early_slot), r),
    ensures
        r.cap_local == cap_local && r.tb == tb && r.snap_slot == snap_slot,
        r.tb_early is Some <==> early_slot is Some && !(early is Skip),
        r.snap_slot_early is Some <==> r.tb_early is Some,
        r.snap_slot_early is Some ==> r.snap_slot_early == early_slot,
        r.cap_local_early is Some <==> early_slot is Some && early is InPass,
        early matches EarlyCapture::InPass { cap_local: c, tb: t } && early_slot is Some
            ==> r.cap_local_early == Some(early->cap_local),
        r.tb_early matches Some(t) ==> (match early {
            EarlyCapture::InPass { cap_local: c, tb: e } => t == e,
            EarlyCapture::PrePass { tb: e } => t == e,
            EarlyCapture::Skip => false,
        }),
{
}

/// The tail is registered first, at its own boundary and slot; then its sibling, if it was
/// captured, at its own.
pub proof fn tails_are_registered_before_siblings(plan: &MidCapturePlan, r: Vec<Registration>)
    requires
        call_ensures(capture_registrations, (plan,), r),
    ensures
        r@.len() == if plan.tb_early is Some && plan.snap_slot_early is Some {
            2int
        } else {
            1
        },
        r@[0].tokens == plan.tb && r@[0].slot == plan.snap_slot && !r@[0].sibling,
        r@.len() == 2 ==> Some(r@[1].tokens) == plan.tb_early && Some(r@[1].slot)
            == plan.snap_slot_early && r@[1].sibling,
{
}

} // verus!
