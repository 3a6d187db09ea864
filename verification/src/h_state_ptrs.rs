//! The state pointers a batched recurrence reads, one per stream.
//!
//! A pool of half-width slots cannot be handed to kernels that work in full width: each slot is
//! then widened into the sequence's staging, which the pointer names, and narrowed back after the
//! kernel ran. A full-width pool needs neither.

use vstd::prelude::*;

use crate::sequence_state::{DevicePtr, LayerState, SequenceState};
use crate::verify_ssm::{lemma_same_selection, lists_exactly};

verus! {

/// Why the pointers could not be staged, or the states not be narrowed back.
#[derive(Clone, Copy, Debug, PartialEq, Eq, Structural)]
pub enum HStateError {
    NoStreams,
    /// A stream's state of this layer is not recurrent.
    NotSsm { stream: usize },
    /// The conversion kernel is missing.
    NoKernel { stream: usize },
    /// A stream has no staging although the pool is of half-width slots.
    NoStage { stream: usize },
}

/// A conversion of one state between its pool slot and its staging.
#[derive(Clone, Copy, Debug, PartialEq, Eq, Structural)]
pub struct Convert {
    pub src: DevicePtr,
    pub dst: DevicePtr,
}

/// The pointers of the streams, the states widened on the way, and what stopped the staging. The
/// conversions before a fault have been made; they leave the pool slots unchanged.
pub struct PtrStage {
    pub ptrs: Vec<u64>,
    pub widen: Vec<Convert>,
    pub error: Option<HStateError>,
}

/// What stops the staging at a stream.
pub open spec fn stage_fault(state: LayerState, has_kernel: bool, i: int) -> Option<HStateError> {
    match state {
        LayerState::Other => Some(HStateError::NotSsm { stream: i as usize }),
        LayerState::Ssm(ssm) => if ssm.h_prefill_stage is Some && !has_kernel {
            Some(HStateError::NoKernel { stream: i as usize })
        } else {
            None
        },
    }
}

/// The pointer of a stream: its staging if it has one, else its slot.
pub open spec fn stage_ptr(state: LayerState) -> u64 {
    match state {
        LayerState::Ssm(ssm) => match ssm.h_prefill_stage {
            Some(stage) => stage.0,
            None => ssm.h_state.0,
        },
        LayerState::Other => 0,
    }
}

/// The states of layer `layer` of each stream.
pub open spec fn layer_states_of(seqs: Seq<&SequenceState>, layer: int) -> Seq<LayerState> {
    Seq::new(seqs.len(), |i: int| seqs[i].layer_states@[layer])
}

/// The widenings of the first `n` streams.
pub open spec fn widenings(states: Seq<LayerState>, n: int) -> Seq<Convert>
    decreases n,
{
    if n <= 0 {
        Seq::empty()
    } else {
        let rest = widenings(states, n - 1);
        match states[n - 1] {
            LayerState::Ssm(ssm) => match ssm.h_prefill_stage {
                Some(stage) => rest.push(Convert { src: ssm.h_state, dst: stage }),
                None => rest,
            },
            LayerState::Other => rest,
        }
    }
}

/// Stage the pointers of layer `layer`, one per stream in order.
pub fn stage_h_state_ptrs(seqs: &Vec<&SequenceState>, layer: usize, has_kernel: bool) -> (r: PtrStage)
    requires
        forall|i: int|
            0 <= i < seqs@.len() ==> layer < (#[trigger] seqs@[i]).layer_states@.len(),
    ensures
        seqs@.len() == 0 ==> r.error == Some(HStateError::NoStreams) && r.ptrs@.len() == 0
            && r.widen@.len() == 0,
        seqs@.len() > 0 ==> {
            let states = layer_states_of(seqs@, layer as int);
            let done = r.ptrs@.len() as int;
            &&& done <= seqs@.len()
            &&& forall|i: int| 0 <= i < done ==> stage_fault(states[i], has_kernel, i) is None
            &&& r.ptrs@ == Seq::new(done as nat, |i: int| stage_ptr(states[i]))
            &&& r.widen@ == widenings(states, done)
            &&& r.error == if done < seqs@.len() {
                stage_fault(states[done], has_kernel, done)
            } else {
                None
            }
            &&& done < seqs@.len() ==> r.error is Some
        },
{
    let ghost states = layer_states_of(seqs@, layer as int);
    let mut ptrs: Vec<u64> = Vec::new();
    let mut widen: Vec<Convert> = Vec::new();
    if seqs.len() == 0 {
        return PtrStage { ptrs, widen, error: Some(HStateError::NoStreams) };
    }
    let mut i: usize = 0;
    while i < seqs.len()
        invariant
            forall|i: int|
                0 <= i < seqs@.len() ==> layer < (#[trigger] seqs@[i]).layer_states@.len(),
            seqs@.len() > 0,
            states == layer_states_of(seqs@, layer as int),
            i <= seqs@.len(),
            forall|j: int| 0 <= j < i ==> stage_fault(states[j], has_kernel, j) is None,
            ptrs@ == Seq::new(i as nat, |i: int| stage_ptr(states[i])),
            widen@ == widenings(states, i as int),
        decreases seqs@.len() - i,
    {
        let seq: &SequenceState = seqs[i];
        assert(layer < seqs@[i as int].layer_states@.len());
        assert(states[i as int] == seq.layer_states@[layer as int]);
        match &seq.layer_states[layer] {
            LayerState::Ssm(ssm) => match ssm.h_prefill_stage {
                None => ptrs.push(ssm.h_state.0),
                Some(stage) => {
                    if !has_kernel {
                        return PtrStage {
                            ptrs,
                            widen,
                            error: Some(HStateError::NoKernel { stream: i }),
                        };
                    }
                    widen.push(Convert { src: ssm.h_state, dst: stage });
                    ptrs.push(stage.0);
                },
            },
            LayerState::Other => {
                return PtrStage { ptrs, widen, error: Some(HStateError::NotSsm { stream: i }) };
            },
        }
        i = i + 1;
    }
    PtrStage { ptrs, widen, error: None }
}

/// The states narrowed back, and what stopped the narrowing.
pub struct Narrowing {
    pub narrow: Vec<Convert>,
    pub error: Option<HStateError>,
}

/// What stops the narrowing at a stream.
pub open spec fn narrow_fault(state: LayerState, has_kernel: bool, i: int) -> Option<HStateError> {
    match state {
        LayerState::Other => Some(HStateError::NotSsm { stream: i as usize }),
        LayerState::Ssm(ssm) => if ssm.h_prefill_stage is None {
            Some(HStateError::NoStage { stream: i as usize })
        } else if !has_kernel {
            Some(HStateError::NoKernel { stream: i as usize })
        } else {
            None
        },
    }
}

/// The narrowing of one stream.
pub open spec fn narrowing(state: LayerState) -> Convert {
    match state {
        LayerState::Ssm(ssm) => Convert {
            src: ssm.h_prefill_stage->0,
            dst: ssm.h_state,
        },
        LayerState::Other => Convert { src: DevicePtr(0), dst: DevicePtr(0) },
    }
}

/// Narrow each stream's staging back into its slot, after a batched kernel ran over the
/// pointers. Nothing is done for a full-width pool. The conversions before a fault have been
/// made.
pub fn narrow_h_state_stages(
    half_width_pool: bool,
    seqs: &Vec<&SequenceState>,
    layer: usize,
    has_kernel: bool,
) -> (r: Narrowing)
    requires
        forall|i: int|
            0 <= i < seqs@.len() ==> layer < (#[trigger] seqs@[i]).layer_states@.len(),
    ensures
        !half_width_pool ==> r.narrow@.len() == 0 && r.error is None,
        half_width_pool ==> {
            let states = layer_states_of(seqs@, layer as int);
            let done = r.narrow@.len() as int;
            &&& done <= seqs@.len()
            &&& forall|i: int| 0 <= i < done ==> narrow_fault(states[i], has_kernel, i) is None
            &&& r.narrow@ == Seq::new(done as nat, |i: int| narrowing(states[i]))
            &&& r.error == if done < seqs@.len() {
                narrow_fault(states[done], has_kernel, done)
            } else {
                None
            }
            &&& done < seqs@.len() ==> r.error is Some
        },
{
    let ghost states = layer_states_of(seqs@, layer as int);
    let mut narrow: Vec<Convert> = Vec::new();
    if !half_width_pool {
        return Narrowing { narrow, error: None };
    }
    let mut i: usize = 0;
    while i < seqs.len()
        invariant
            half_width_pool,
            forall|i: int|
                0 <= i < seqs@.len() ==> layer < (#[trigger] seqs@[i]).layer_states@.len(),
            states == layer_states_of(seqs@, layer as int),
            i <= seqs@.len(),
            forall|j: int| 0 <= j < i ==> narrow_fault(states[j], has_kernel, j) is None,
            narrow@ == Seq::new(i as nat, |i: int| narrowing(states[i])),
        decreases seqs@.len() - i,
    {
        let seq: &SequenceState = seqs[i];
        assert(layer < seqs@[i as int].layer_states@.len());
        assert(states[i as int] == seq.layer_states@[layer as int]);
        match &seq.layer_states[layer] {
            LayerState::Ssm(ssm) => match ssm.h_prefill_stage {
                None => {
                    return Narrowing { narrow, error: Some(HStateError::NoStage { stream: i }) };
                },
                Some(stage) => {
                    if !has_kernel {
                        return Narrowing {
                            narrow,
                            error: Some(HStateError::NoKernel { stream: i }),
                        };
                    }
                    narrow.push(Convert { src: stage, dst: ssm.h_state });
                },
            },
            LayerState::Other => {
                return Narrowing { narrow, error: Some(HStateError::NotSsm { stream: i }) };
            },
        }
        i = i + 1;
    }
    Narrowing { narrow, error: None }
}

/// Narrowing undoes widening: a stream with staging is narrowed from where it was widened to,
/// back into the slot it was widened from.
pub proof fn narrowing_undoes_widening(states: Seq<LayerState>, i: int)
    requires
        0 <= i < states.len(),
        states[i] matches LayerState::Ssm(ssm) && ssm.h_prefill_stage is Some,
    ensures
        ({
            let w = widenings(states, i + 1).last();
            narrowing(states[i]) == (Convert { src: w.dst, dst: w.src })
        }),
{
}

/// The kernel is given each stream's own state: at place `i` the staging of stream `i` where it
/// has one, and its state otherwise. Without an error every stream has its place.
pub proof fn staged_pointers_are_the_streams_own(
    seqs: &Vec<&SequenceState>,
    layer: usize,
    has_kernel: bool,
    r: PtrStage,
    i: int,
)
    requires
        call_ensures(stage_h_state_ptrs, (seqs, layer, has_kernel), r),
        0 <= i < r.ptrs@.len(),
    ensures
        r.ptrs@.len() <= seqs@.len(),
        r.error is None ==> r.ptrs@.len() == seqs@.len(),
        ({
            &&& seqs@[i].layer_states@[layer as int] matches LayerState::Ssm(ssm)
            &&& match ssm.h_prefill_stage {
                Some(stage) => r.ptrs@[i] == stage.0 && has_kernel,
                None => r.ptrs@[i] == ssm.h_state.0,
            }
        }),
{
    let states = layer_states_of(seqs@, layer as int);
    assert(stage_fault(states[i], has_kernel, i) is None);
}

/// Staging stops at the first stream that cannot be staged and says why: there is no stream, its
/// state is not recurrent, or it has a staging and the kernel is missing.
pub proof fn staging_stops_at_the_first_bad_stream(
    seqs: &Vec<&SequenceState>,
    layer: usize,
    has_kernel: bool,
    r: PtrStage,
)
    requires
        call_ensures(stage_h_state_ptrs, (seqs, layer, has_kernel), r),
    ensures
        seqs@.len() == 0 ==> r.error is Some,
        r.error matches Some(e) ==> match e {
            HStateError::NoStreams => seqs@.len() == 0,
            HStateError::NotSsm { stream } => stream == r.ptrs@.len() && stream < seqs@.len()
                && seqs@[stream as int].layer_states@[layer as int] is Other,
            HStateError::NoKernel { stream } => stream == r.ptrs@.len() && stream < seqs@.len()
                && !has_kernel && (seqs@[stream as int].layer_states@[layer as int] matches LayerState::Ssm(
                ssm,
            ) && ssm.h_prefill_stage is Some),
            HStateError::NoStage { stream } => false,
        },
{
    assert(seqs.len() == seqs@.len());
}

proof fn lemma_widenings(states: Seq<LayerState>, n: int) -> (at: Seq<int>)
    requires
        0 <= n <= states.len(),
    ensures
        lists_exactly(
            at,
            n,
            |i: int| states[i] matches LayerState::Ssm(ssm) && ssm.h_prefill_stage is Some,
        ),
        widenings(states, n).len() == at.len(),
        forall|x: int|
            0 <= x < at.len() ==> (#[trigger] states[at[x]] matches LayerState::Ssm(ssm)
                && widenings(states, n)[x].src == ssm.h_state && Some(widenings(states, n)[x].dst)
                == ssm.h_prefill_stage),
    decreases n,
{
    let sel = |i: int| states[i] matches LayerState::Ssm(ssm) && ssm.h_prefill_stage is Some;
    if n <= 0 {
        Seq::empty()
    } else {
        let rest = lemma_widenings(states, n - 1);
        if sel(n - 1) {
            let at = rest.push(n - 1);
            assert forall|i: int| 0 <= i < n && #[trigger] sel(i) implies at.contains(i) by {
                if i < n - 1 {
                    let x = choose|x: int| 0 <= x < rest.len() && rest[x] == i;
                    assert(at[x] == i);
                } else {
                    assert(at[at.len() - 1] == i);
                }
            }
            assert forall|x: int| 0 <= x < at.len() implies (
            #[trigger] states[at[x]] matches LayerState::Ssm(ssm) && widenings(states, n)[x].src
                == ssm.h_state && Some(widenings(states, n)[x].dst) == ssm.h_prefill_stage) by {
                if x < rest.len() {
                    assert(widenings(states, n)[x] == widenings(states, n - 1)[x]);
                    assert(states[at[x]] == states[rest[x]]);
                }
            }
            at
        } else {
            assert forall|i: int| 0 <= i < n && #[trigger] sel(i) implies rest.contains(i) by {
                assert(i < n - 1);
            }
            rest
        }
    }
}

/// Each stream's own state is widened into its own staging, once and in stream order, for exactly
/// the staged streams that have one. `at` lists them.
pub proof fn states_are_widened_into_their_own_staging(
    seqs: &Vec<&SequenceState>,
    layer: usize,
    has_kernel: bool,
    r: PtrStage,
) -> (at: Seq<int>)
    requires
        call_ensures(stage_h_state_ptrs, (seqs, layer, has_kernel), r),
        seqs@.len() > 0,
    ensures
        lists_exactly(
            at,
            r.ptrs@.len() as int,
            |i: int|
                seqs@[i].layer_states@[layer as int] matches LayerState::Ssm(ssm)
                    && ssm.h_prefill_stage is Some,
        ),
        r.widen@.len() == at.len(),
        forall|x: int|
            0 <= x < at.len() ==> (
            seqs@[(#[trigger] at[x])].layer_states@[layer as int] matches LayerState::Ssm(ssm)
                && r.widen@[x].src == ssm.h_state && Some(r.widen@[x].dst) == ssm.h_prefill_stage),
{
    let states = layer_states_of(seqs@, layer as int);
    let n = r.ptrs@.len() as int;
    let at = lemma_widenings(states, n);
    let p = |i: int| states[i] matches LayerState::Ssm(ssm) && ssm.h_prefill_stage is Some;
    let q = |i: int|
        seqs@[i].layer_states@[layer as int] matches LayerState::Ssm(ssm) && ssm.h_prefill_stage
            is Some;
    lemma_same_selection(at, n, p, q);
    assert forall|x: int| 0 <= x < at.len() implies (
    seqs@[(#[trigger] at[x])].layer_states@[layer as int] matches LayerState::Ssm(ssm)
        && r.widen@[x].src == ssm.h_state && Some(r.widen@[x].dst) == ssm.h_prefill_stage) by {
        assert(p(at[x]));
        assert(states[at[x]] == seqs@[at[x]].layer_states@[layer as int]);
    }
    at
}

/// After the kernel each stream's staging is narrowed back into its own state, stream by stream
/// in order; a pool of full width needs none. It stops at the first stream without a recurrent
/// state, a staging or the kernel, and says which.
pub proof fn stagings_are_narrowed_into_their_own_state(
    half_width_pool: bool,
    seqs: &Vec<&SequenceState>,
    layer: usize,
    has_kernel: bool,
    r: Narrowing,
    i: int,
)
    requires
        call_ensures(narrow_h_state_stages, (half_width_pool, seqs, layer, has_kernel), r),
    ensures
        !half_width_pool ==> r.narrow@.len() == 0 && r.error is None,
        half_width_pool && r.error is None ==> r.narrow@.len() == seqs@.len(),
        0 <= i < r.narrow@.len() ==> {
            &&& half_width_pool
            &&& i < seqs@.len()
            &&& seqs@[i].layer_states@[layer as int] matches LayerState::Ssm(ssm)
            &&& Some(r.narrow@[i].src) == ssm.h_prefill_stage
            &&& r.narrow@[i].dst == ssm.h_state
        },
        r.error matches Some(e) ==> {
            let at = r.narrow@.len() as int;
            let state = seqs@[at].layer_states@[layer as int];
            &&& at < seqs@.len()
            &&& match e {
                HStateError::NotSsm { stream } => stream == at && state is Other,
                HStateError::NoStage { stream } => stream == at && (state matches LayerState::Ssm(
                    ssm,
                ) && ssm.h_prefill_stage is None),
                HStateError::NoKernel { stream } => stream == at && !has_kernel && (
                state matches LayerState::Ssm(ssm) && ssm.h_prefill_stage is Some),
                HStateError::NoStreams => false,
            }
        },
{
    assert(seqs.len() == seqs@.len());
    let states = layer_states_of(seqs@, layer as int);
    if half_width_pool && 0 <= i < r.narrow@.len() {
        assert(narrow_fault(states[i], has_kernel, i) is None);
    }
}

} // verus!
