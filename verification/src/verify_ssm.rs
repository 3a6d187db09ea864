//! Recurrent state around a speculative verify: the copies that checkpoint it before, and those
//! that roll it back to the last accepted token after.
//!
//! A rollback is planned for every layer before any copy is made, so a refused rollback copies
//! nothing.

use vstd::prelude::*;

use crate::layers::LayerType;
use crate::sequence_state::{DevicePtr, LayerState, SequenceState};

verus! {

/// One device-to-device copy.
#[derive(Clone, Copy, Debug, PartialEq, Eq, Structural)]
pub struct StateCopy {
    pub src: DevicePtr,
    pub dst: DevicePtr,
    pub bytes: usize,
}

/// Head counts and widths of the linear-attention layers.
#[derive(Clone, Copy, Debug)]
pub struct SsmDims {
    pub key_heads: usize,
    pub key_dim: usize,
    pub value_heads: usize,
    pub value_dim: usize,
    pub conv_kernel: usize,
}

impl SsmDims {
    /// Channels of the convolution: queries and keys, then values.
    pub open spec fn conv_dim(&self) -> int {
        self.key_heads * self.key_dim * 2 + self.value_heads * self.value_dim
    }

    /// Bytes of the convolution state.
    pub open spec fn conv_bytes_spec(&self) -> int {
        self.conv_dim() * self.conv_kernel * 4
    }

    /// Bytes of the convolution state, one 32-bit word per channel and kernel tap.
    pub fn conv_bytes(&self) -> (r: usize)
        requires
            self.key_heads * self.key_dim * 2 + self.value_heads * self.value_dim <= usize::MAX,
            self.conv_bytes_spec() <= usize::MAX,
        ensures
            r == self.conv_bytes_spec(),
    {
        proof {
            let a = self.key_heads as int;
            let b = self.key_dim as int;
            let c = self.value_heads as int;
            let d = self.value_dim as int;
            assert(0 <= a * b && 0 <= c * d) by (nonlinear_arith)
                requires
                    0 <= a,
                    0 <= b,
                    0 <= c,
                    0 <= d,
            ;
            let x = self.conv_dim();
            let y = self.conv_kernel as int;
            assert(0 <= x * y) by (nonlinear_arith)
                requires
                    0 <= x,
                    0 <= y,
            ;
        }
        let conv_dim: usize = self.key_heads * self.key_dim * 2 + self.value_heads * self.value_dim;
        conv_dim * self.conv_kernel * 4
    }
}

/// Why a checkpoint or rollback was refused.
#[derive(Clone, Copy, Debug, PartialEq, Eq, Structural)]
pub enum SsmStateError {
    /// A linear-attention layer holds no recurrent state.
    NotSsm { layer: usize },
    /// The rollback target lies past the intermediates a layer kept.
    TooFewIntermediates { layer: usize, available: usize },
    /// The ring for decode-time snapshots is not allocated.
    NoDecodeRing,
}

/// Which checkpoint buffers of a layer still have to be allocated.
#[derive(Clone, Copy, Debug, PartialEq, Eq, Structural)]
pub struct CheckpointNeed {
    pub h: bool,
    pub conv: bool,
}

/// Which checkpoint buffers layer `layer` still lacks; layers of other kinds need none.
pub fn checkpoint_need(seq: &SequenceState, types: &Vec<LayerType>, layer: usize) -> (r: Result<
    CheckpointNeed,
    SsmStateError,
>)
    requires
        layer < types@.len(),
        layer < seq.layer_states@.len(),
    ensures
        types@[layer as int] != LayerType::LinearAttention ==> r == Ok::<
            CheckpointNeed,
            SsmStateError,
        >(CheckpointNeed { h: false, conv: false }),
        types@[layer as int] == LayerType::LinearAttention ==> match seq.layer_states@[layer as int] {
            LayerState::Ssm(ssm) => r == Ok::<CheckpointNeed, SsmStateError>(
                CheckpointNeed {
                    h: ssm.h_state_checkpoint is None,
                    conv: ssm.conv_state_checkpoint is None,
                },
            ),
            LayerState::Other => r == Err::<CheckpointNeed, SsmStateError>(
                SsmStateError::NotSsm { layer },
            ),
        },
{
    if types[layer] != LayerType::LinearAttention {
        return Ok(CheckpointNeed { h: false, conv: false });
    }
    match &seq.layer_states[layer] {
        LayerState::Ssm(ssm) => Ok(
            CheckpointNeed {
                h: ssm.h_state_checkpoint.is_none(),
                conv: ssm.conv_state_checkpoint.is_none(),
            },
        ),
        LayerState::Other => Err(SsmStateError::NotSsm { layer }),
    }
}

/// The checkpoint copy of the state of one layer.
pub open spec fn checkpoint_h(state: LayerState, h_bytes: usize) -> Option<StateCopy> {
    match state {
        LayerState::Ssm(ssm) => match ssm.h_state_checkpoint {
            Some(dst) => Some(StateCopy { src: ssm.h_state, dst, bytes: h_bytes }),
            None => None,
        },
        LayerState::Other => None,
    }
}

/// The checkpoint copy of the convolution state of one layer.
pub open spec fn checkpoint_conv(state: LayerState, conv_bytes: usize) -> Option<StateCopy> {
    match state {
        LayerState::Ssm(ssm) => match ssm.conv_state_checkpoint {
            Some(dst) => Some(StateCopy { src: ssm.conv_state, dst, bytes: conv_bytes }),
            None => None,
        },
        LayerState::Other => None,
    }
}

/// The rollback copy of the state of one layer: its checkpoint when nothing was accepted, else
/// the intermediate after the last accepted token.
pub open spec fn rollback_h(state: LayerState, accepted: int, h_bytes: usize) -> Option<StateCopy> {
    match state {
        LayerState::Ssm(ssm) => if accepted == 0 {
            match ssm.h_state_checkpoint {
                Some(src) => Some(StateCopy { src, dst: ssm.h_state, bytes: h_bytes }),
                None => None,
            }
        } else {
            Some(
                StateCopy {
                    src: ssm.h_state_intermediates@[accepted - 1],
                    dst: ssm.h_state,
                    bytes: h_bytes,
                },
            )
        },
        LayerState::Other => None,
    }
}

/// The rollback copy of the convolution state of one layer.
pub open spec fn rollback_conv(state: LayerState, accepted: int, conv_bytes: usize) -> Option<
    StateCopy,
> {
    match state {
        LayerState::Ssm(ssm) => if accepted == 0 {
            match ssm.conv_state_checkpoint {
                Some(src) => Some(StateCopy { src, dst: ssm.conv_state, bytes: conv_bytes }),
                None => None,
            }
        } else {
            Some(
                StateCopy {
                    src: ssm.conv_state_intermediates@[accepted - 1],
                    dst: ssm.conv_state,
                    bytes: conv_bytes,
                },
            )
        },
        LayerState::Other => None,
    }
}

/// `s` with `c` appended if there is one.
pub open spec fn push_opt(s: Seq<StateCopy>, c: Option<StateCopy>) -> Seq<StateCopy> {
    match c {
        Some(x) => s.push(x),
        None => s,
    }
}

/// The copies that `f` gives for the linear-attention layers among the first `n`, in layer order.
pub open spec fn linear_copies(
    states: Seq<LayerState>,
    types: Seq<LayerType>,
    f: spec_fn(LayerState) -> Option<StateCopy>,
    n: int,
) -> Seq<StateCopy>
    decreases n,
{
    if n <= 0 {
        Seq::empty()
    } else {
        let rest = linear_copies(states, types, f, n - 1);
        if types[n - 1] == LayerType::LinearAttention {
            push_opt(rest, f(states[n - 1]))
        } else {
            rest
        }
    }
}

/// What stops a rollback to `accepted` rows at layer `i`.
pub open spec fn rollback_fault(
    states: Seq<LayerState>,
    types: Seq<LayerType>,
    accepted: int,
    i: int,
) -> Option<SsmStateError> {
    if types[i] != LayerType::LinearAttention {
        None
    } else {
        match states[i] {
            LayerState::Other => Some(SsmStateError::NotSsm { layer: i as usize }),
            LayerState::Ssm(ssm) => if accepted > ssm.h_state_intermediates@.len() {
                Some(
                    SsmStateError::TooFewIntermediates {
                        layer: i as usize,
                        available: ssm.h_state_intermediates@.len() as usize,
                    },
                )
            } else {
                None
            },
        }
    }
}

/// Whether layer `i` is the first that stops a rollback to `accepted` rows.
pub open spec fn first_fault(
    states: Seq<LayerState>,
    types: Seq<LayerType>,
    accepted: int,
    i: int,
) -> bool {
    &&& 0 <= i < states.len()
    &&& rollback_fault(states, types, accepted, i) is Some
    &&& forall|j: int| 0 <= j < i ==> rollback_fault(states, types, accepted, j) is None
}

/// The copies of a checkpoint or rollback: the states, then the convolution states.
pub struct CopyPlan {
    pub h: Vec<StateCopy>,
    pub conv: Vec<StateCopy>,
}

/// The copies that checkpoint every linear-attention layer, once every checkpoint buffer is
/// allocated.
pub fn checkpoint_ssm_states(
    seq: &SequenceState,
    types: &Vec<LayerType>,
    h_bytes: usize,
    conv_bytes: usize,
) -> (r: CopyPlan)
    requires
        types@.len() >= seq.layer_states@.len(),
    ensures
        r.h@ == linear_copies(
            seq.layer_states@,
            types@,
            |s: LayerState| checkpoint_h(s, h_bytes),
            seq.layer_states@.len() as int,
        ),
        r.conv@ == linear_copies(
            seq.layer_states@,
            types@,
            |s: LayerState| checkpoint_conv(s, conv_bytes),
            seq.layer_states@.len() as int,
        ),
{
    let ghost fh = |s: LayerState| checkpoint_h(s, h_bytes);
    let ghost fc = |s: LayerState| checkpoint_conv(s, conv_bytes);
    let mut h: Vec<StateCopy> = Vec::new();
    let mut conv: Vec<StateCopy> = Vec::new();
    let mut i: usize = 0;
    while i < seq.layer_states.len()
        invariant
            types@.len() >= seq.layer_states@.len(),
            i <= seq.layer_states@.len(),
            fh == (|s: LayerState| checkpoint_h(s, h_bytes)),
            fc == (|s: LayerState| checkpoint_conv(s, conv_bytes)),
            h@ == linear_copies(seq.layer_states@, types@, fh, i as int),
            conv@ == linear_copies(seq.layer_states@, types@, fc, i as int),
        decreases seq.layer_states@.len() - i,
    {
        if types[i] == LayerType::LinearAttention {
            match &seq.layer_states[i] {
                LayerState::Ssm(ssm) => {
                    if let Some(dst) = ssm.h_state_checkpoint {
                        h.push(StateCopy { src: ssm.h_state, dst, bytes: h_bytes });
                    }
                    if let Some(dst) = ssm.conv_state_checkpoint {
                        conv.push(StateCopy { src: ssm.conv_state, dst, bytes: conv_bytes });
                    }
                },
                LayerState::Other => {},
            }
        }
        i = i + 1;
    }
    CopyPlan { h, conv }
}

/// Whether no layer faults.
pub open spec fn no_fault(states: Seq<LayerState>, types: Seq<LayerType>, accepted: int) -> bool {
    forall|i: int|
        0 <= i < states.len() ==> rollback_fault(states, types, accepted, i) is None
}

/// Whether a layer that rolls back has the convolution state of its last accepted row.
pub open spec fn conv_covers(
    states: Seq<LayerState>,
    types: Seq<LayerType>,
    accepted: int,
    i: int,
) -> bool {
    types[i] == LayerType::LinearAttention ==> (states[i] matches LayerState::Ssm(ssm)
        ==> ssm.conv_state_intermediates@.len() >= accepted)
}

/// The first layer that cannot be rolled back, if there is one.
fn find_fault(seq: &SequenceState, types: &Vec<LayerType>, num_accepted: usize) -> (r: Option<
    SsmStateError,
>)
    requires
        types@.len() >= seq.layer_states@.len(),
    ensures
        r is None <==> no_fault(seq.layer_states@, types@, num_accepted as int),
        r matches Some(e) ==> exists|i: int|
            #[trigger] first_fault(seq.layer_states@, types@, num_accepted as int, i)
                && rollback_fault(seq.layer_states@, types@, num_accepted as int, i) == Some(e),
{
    let ghost states = seq.layer_states@;
    let ghost acc = num_accepted as int;
    let mut i: usize = 0;
    while i < seq.layer_states.len()
        invariant
            types@.len() >= seq.layer_states@.len(),
            states == seq.layer_states@,
            acc == num_accepted,
            i <= states.len(),
            forall|j: int| 0 <= j < i ==> rollback_fault(states, types@, acc, j) is None,
        decreases states.len() - i,
    {
        if types[i] == LayerType::LinearAttention {
            match &seq.layer_states[i] {
                LayerState::Ssm(ssm) => {
                    if num_accepted > ssm.h_state_intermediates.len() {
                        assert(first_fault(states, types@, acc, i as int));
                        return Some(
                            SsmStateError::TooFewIntermediates {
                                layer: i,
                                available: ssm.h_state_intermediates.len(),
                            },
                        );
                    }
                },
                LayerState::Other => {
                    assert(first_fault(states, types@, acc, i as int));
                    return Some(SsmStateError::NotSsm { layer: i });
                },
            }
        }
        i = i + 1;
    }
    None
}

/// The copies that roll every linear-attention layer back to `num_accepted` accepted rows, or the
/// first layer that cannot be rolled back; then nothing is copied.
pub fn rollback_ssm_states(
    seq: &SequenceState,
    types: &Vec<LayerType>,
    num_accepted: usize,
    h_bytes: usize,
    conv_bytes: usize,
) -> (r: Result<CopyPlan, SsmStateError>)
    requires
        types@.len() >= seq.layer_states@.len(),
        no_fault(seq.layer_states@, types@, num_accepted as int) ==> forall|i: int|
            0 <= i < seq.layer_states@.len() ==> #[trigger] conv_covers(
                seq.layer_states@,
                types@,
                num_accepted as int,
                i,
            ),
    ensures
        r is Ok <==> no_fault(seq.layer_states@, types@, num_accepted as int),
        r matches Ok(p) ==> {
            &&& p.h@ == linear_copies(
                seq.layer_states@,
                types@,
                |s: LayerState| rollback_h(s, num_accepted as int, h_bytes),
                seq.layer_states@.len() as int,
            )
            &&& p.conv@ == linear_copies(
                seq.layer_states@,
                types@,
                |s: LayerState| rollback_conv(s, num_accepted as int, conv_bytes),
                seq.layer_states@.len() as int,
            )
        },
        r matches Err(e) ==> exists|i: int|
            #[trigger] first_fault(seq.layer_states@, types@, num_accepted as int, i)
                && rollback_fault(seq.layer_states@, types@, num_accepted as int, i) == Some(e),
{
    let ghost states = seq.layer_states@;
    let ghost acc = num_accepted as int;
    let ghost fh = |s: LayerState| rollback_h(s, acc, h_bytes);
    let ghost fc = |s: LayerState| rollback_conv(s, acc, conv_bytes);
    if let Some(e) = find_fault(seq, types, num_accepted) {
        return Err(e);
    }
    let mut h: Vec<StateCopy> = Vec::new();
    let mut conv: Vec<StateCopy> = Vec::new();
    let mut i: usize = 0;
    while i < seq.layer_states.len()
        invariant
            types@.len() >= seq.layer_states@.len(),
            states == seq.layer_states@,
            acc == num_accepted,
            no_fault(states, types@, acc),
            forall|i: int|
                0 <= i < states.len() ==> #[trigger] conv_covers(states, types@, acc, i),
            i <= states.len(),
            fh == (|s: LayerState| rollback_h(s, acc, h_bytes)),
            fc == (|s: LayerState| rollback_conv(s, acc, conv_bytes)),
            h@ == linear_copies(states, types@, fh, i as int),
            conv@ == linear_copies(states, types@, fc, i as int),
        decreases states.len() - i,
    {
        if types[i] == LayerType::LinearAttention {
            assert(rollback_fault(states, types@, acc, i as int) is None);
            assert(conv_covers(states, types@, acc, i as int));
            match &seq.layer_states[i] {
                LayerState::Ssm(ssm) => {
                    if num_accepted == 0 {
                        if let Some(src) = ssm.h_state_checkpoint {
                            h.push(StateCopy { src, dst: ssm.h_state, bytes: h_bytes });
                        }
                        if let Some(src) = ssm.conv_state_checkpoint {
                            conv.push(StateCopy { src, dst: ssm.conv_state, bytes: conv_bytes });
                        }
                    } else {
                        let at: usize = num_accepted - 1;
                        h.push(
                            StateCopy {
                                src: ssm.h_state_intermediates[at],
                                dst: ssm.h_state,
                                bytes: h_bytes,
                            },
                        );
                        conv.push(
                            StateCopy {
                                src: ssm.conv_state_intermediates[at],
                                dst: ssm.conv_state,
                                bytes: conv_bytes,
                            },
                        );
                    }
                },
                LayerState::Other => {},
            }
        }
        i = i + 1;
    }
    Ok(CopyPlan { h, conv })
}

/// `c` with source and destination exchanged.
pub open spec fn reversed(c: StateCopy) -> StateCopy {
    StateCopy { src: c.dst, dst: c.src, bytes: c.bytes }
}

/// Rolling back to no accepted row undoes the checkpoint: every copy goes the other way, layer
/// by layer, and no other copy is made.
pub proof fn rollback_undoes_checkpoint(
    states: Seq<LayerState>,
    types: Seq<LayerType>,
    h_bytes: usize,
    conv_bytes: usize,
    n: int,
)
    requires
        0 <= n <= states.len(),
    ensures
        linear_copies(states, types, |s: LayerState| rollback_h(s, 0, h_bytes), n)
            == linear_copies(states, types, |s: LayerState| checkpoint_h(s, h_bytes), n).map_values(
            |c: StateCopy| reversed(c),
        ),
        linear_copies(states, types, |s: LayerState| rollback_conv(s, 0, conv_bytes), n)
            == linear_copies(
            states,
            types,
            |s: LayerState| checkpoint_conv(s, conv_bytes),
            n,
        ).map_values(|c: StateCopy| reversed(c)),
    decreases n,
{
    if n > 0 {
        rollback_undoes_checkpoint(states, types, h_bytes, conv_bytes, n - 1);
    }
    assert(linear_copies(states, types, |s: LayerState| rollback_h(s, 0, h_bytes), n)
        =~= linear_copies(states, types, |s: LayerState| checkpoint_h(s, h_bytes), n).map_values(
        |c: StateCopy| reversed(c),
    ));
    assert(linear_copies(states, types, |s: LayerState| rollback_conv(s, 0, conv_bytes), n)
        =~= linear_copies(
        states,
        types,
        |s: LayerState| checkpoint_conv(s, conv_bytes),
        n,
    ).map_values(|c: StateCopy| reversed(c)));
}

/// The pool slot and ring slot between which a decode-time snapshot is saved or restored.
pub fn decode_ring_slot(ring_enabled: bool, seq: &SequenceState, ring_slot: usize) -> (r: Result<
    (usize, usize),
    SsmStateError,
>)
    ensures
        r == if ring_enabled {
            Ok::<(usize, usize), SsmStateError>((seq.slot_idx, ring_slot))
        } else {
            Err::<(usize, usize), SsmStateError>(SsmStateError::NoDecodeRing)
        },
{
    if ring_enabled {
        Ok((seq.slot_idx, ring_slot))
    } else {
        Err(SsmStateError::NoDecodeRing)
    }
}

/// Layer numbers below `n`, each once and in order, and all that are selected.
pub open spec fn lists_exactly(at: Seq<int>, n: int, selected: spec_fn(int) -> bool) -> bool {
    &&& forall|x: int, y: int| 0 <= x < y < at.len() ==> (#[trigger] at[x]) < (#[trigger] at[y])
    &&& forall|x: int| 0 <= x < at.len() ==> 0 <= (#[trigger] at[x]) < n && selected(at[x])
    &&& forall|i: int| 0 <= i < n && #[trigger] selected(i) ==> at.contains(i)
}

proof fn lemma_copies_listed(
    states: Seq<LayerState>,
    types: Seq<LayerType>,
    f: spec_fn(LayerState) -> Option<StateCopy>,
    n: int,
) -> (at: Seq<int>)
    requires
        0 <= n <= states.len(),
    ensures
        lists_exactly(
            at,
            n,
            |i: int| types[i] == LayerType::LinearAttention && f(states[i]) is Some,
        ),
        linear_copies(states, types, f, n).len() == at.len(),
        forall|x: int|
            0 <= x < at.len() ==> #[trigger] linear_copies(states, types, f, n)[x] == f(
                states[at[x]],
            )->0,
    decreases n,
{
    let sel = |i: int| types[i] == LayerType::LinearAttention && f(states[i]) is Some;
    if n <= 0 {
        Seq::empty()
    } else {
        let rest = lemma_copies_listed(states, types, f, n - 1);
        if sel(n - 1) {
            let at = rest.push(n - 1);
            assert forall|i: int| 0 <= i < n && #[trigger] sel(i) implies at.contains(i) by {
                if i < n - 1 {
                    let x = choose|x: int| 0 <= x < rest.len() && rest[x] == i;
                    assert(at[x] == i);
                } else {
                    assert(at[at.len() - 1] == i);
                }
            }
            at
        } else {
            assert forall|i: int| 0 <= i < n && #[trigger] sel(i) implies rest.contains(i) by {
                assert(i < n - 1);
            }
            rest
        }
    }
}

/// With rows accepted, every linear-attention layer is brought to the state after its last
/// accepted row: one copy per layer, in layer order, from the layer's own intermediate
/// `num_accepted - 1` into its own live state, for both states. No checkpoint is read. `at` lists
/// the layers.
pub proof fn rollback_keeps_the_accepted_rows(
    seq: &SequenceState,
    types: &Vec<LayerType>,
    num_accepted: usize,
    h_bytes: usize,
    conv_bytes: usize,
    r: Result<CopyPlan, SsmStateError>,
) -> (at: Seq<int>)
    requires
        call_ensures(rollback_ssm_states, (seq, types, num_accepted, h_bytes, conv_bytes), r),
        types@.len() >= seq.layer_states@.len(),
        num_accepted >= 1,
        r is Ok,
    ensures
        lists_exactly(
            at,
            seq.layer_states@.len() as int,
            |i: int| types@[i] == LayerType::LinearAttention,
        ),
        r->Ok_0.h@.len() == at.len(),
        r->Ok_0.conv@.len() == at.len(),
        forall|x: int|
            0 <= x < at.len() ==> {
                &&& #[trigger] seq.layer_states@[at[x]] matches LayerState::Ssm(ssm)
                &&& r->Ok_0.h@[x].src == ssm.h_state_intermediates@[num_accepted - 1]
                &&& r->Ok_0.h@[x].dst == ssm.h_state
                &&& r->Ok_0.h@[x].bytes == h_bytes
                &&& r->Ok_0.conv@[x].src == ssm.conv_state_intermediates@[num_accepted - 1]
                &&& r->Ok_0.conv@[x].dst == ssm.conv_state
                &&& r->Ok_0.conv@[x].bytes == conv_bytes
            },
{
    let states = seq.layer_states@;
    let acc = num_accepted as int;
    let n = states.len() as int;
    let fh = |s: LayerState| rollback_h(s, acc, h_bytes);
    let fc = |s: LayerState| rollback_conv(s, acc, conv_bytes);
    let lin = |i: int| types@[i] == LayerType::LinearAttention;
    let at = lemma_copies_listed(states, types@, fh, n);
    let at2 = lemma_copies_listed(states, types@, fc, n);
    let selh = |i: int| types@[i] == LayerType::LinearAttention && fh(states[i]) is Some;
    let selc = |i: int| types@[i] == LayerType::LinearAttention && fc(states[i]) is Some;
    assert forall|i: int| 0 <= i < n && #[trigger] lin(i) implies selh(i) && selc(i) by {
        assert(rollback_fault(states, types@, acc, i) is None);
    }
    assert forall|i: int| 0 <= i < n && #[trigger] lin(i) implies at.contains(i) by {
        assert(selh(i));
    }
    assert(lists_exactly(at, n, lin)) by {
        assert forall|x: int| 0 <= x < at.len() implies 0 <= (#[trigger] at[x]) < n && lin(
            at[x],
        ) by {
            assert(selh(at[x]));
        }
    }
    assert(lists_exactly(at2, n, lin)) by {
        assert forall|x: int| 0 <= x < at2.len() implies 0 <= (#[trigger] at2[x]) < n && lin(
            at2[x],
        ) by {
            assert(selc(at2[x]));
        }
        assert forall|i: int| 0 <= i < n && #[trigger] lin(i) implies at2.contains(i) by {
            assert(selc(i));
        }
    }
    lemma_lists_agree(at, at2, n, lin);
    assert forall|x: int| 0 <= x < at.len() implies ({
        &&& #[trigger] states[at[x]] matches LayerState::Ssm(ssm)
        &&& r->Ok_0.h@[x].src == ssm.h_state_intermediates@[num_accepted - 1]
        &&& r->Ok_0.h@[x].dst == ssm.h_state
        &&& r->Ok_0.h@[x].bytes == h_bytes
        &&& r->Ok_0.conv@[x].src == ssm.conv_state_intermediates@[num_accepted - 1]
        &&& r->Ok_0.conv@[x].dst == ssm.conv_state
        &&& r->Ok_0.conv@[x].bytes == conv_bytes
    }) by {
        assert(rollback_fault(states, types@, acc, at[x]) is None);
        assert(linear_copies(states, types@, fh, n)[x] == fh(states[at[x]])->0);
        assert(linear_copies(states, types@, fc, n)[x] == fc(states[at2[x]])->0);
    }
    at
}

/// Two lists of the same selection are equal.
pub proof fn lemma_lists_agree(a: Seq<int>, b: Seq<int>, n: int, selected: spec_fn(int) -> bool)
    requires
        0 <= n,
        lists_exactly(a, n, selected),
        lists_exactly(b, n, selected),
    ensures
        a == b,
    decreases n,
{
    if n == 0 {
        assert(a.len() == 0) by {
            if a.len() > 0 {
                assert(0 <= a[0] < n);
            }
        }
        assert(b.len() == 0) by {
            if b.len() > 0 {
                assert(0 <= b[0] < n);
            }
        }
        assert(a =~= b);
    } else if selected(n - 1) {
        lemma_list_tail(a, n, selected);
        lemma_list_tail(b, n, selected);
        lemma_lists_agree(a.drop_last(), b.drop_last(), n - 1, selected);
        assert(a =~= a.drop_last().push(n - 1));
        assert(b =~= b.drop_last().push(n - 1));
    } else {
        assert forall|x: int| 0 <= x < a.len() implies 0 <= (#[trigger] a[x]) < n - 1 && selected(
            a[x],
        ) by {
            assert(selected(a[x]));
        }
        assert forall|x: int| 0 <= x < b.len() implies 0 <= (#[trigger] b[x]) < n - 1 && selected(
            b[x],
        ) by {
            assert(selected(b[x]));
        }
        lemma_lists_agree(a, b, n - 1, selected);
    }
}

proof fn lemma_list_tail(a: Seq<int>, n: int, selected: spec_fn(int) -> bool)
    requires
        0 < n,
        selected(n - 1),
        lists_exactly(a, n, selected),
    ensures
        a.len() > 0,
        a.last() == n - 1,
        lists_exactly(a.drop_last(), n - 1, selected),
{
    assert(a.contains(n - 1));
    let y = choose|y: int| 0 <= y < a.len() && a[y] == n - 1;
    assert(y == a.len() - 1) by {
        if y < a.len() - 1 {
            assert(a[y] < a[a.len() - 1]);
            assert(a[a.len() - 1] < n);
        }
    }
    let d = a.drop_last();
    assert forall|x: int| 0 <= x < d.len() implies 0 <= (#[trigger] d[x]) < n - 1 && selected(
        d[x],
    ) by {
        assert(a[x] < a[a.len() - 1]);
        assert(selected(a[x]));
    }
    assert forall|i: int| 0 <= i < n - 1 && #[trigger] selected(i) implies d.contains(i) by {
        assert(a.contains(i));
        let x = choose|x: int| 0 <= x < a.len() && a[x] == i;
        assert(d[x] == i);
    }
}

/// With nothing accepted, the live states become what they were at the checkpoint: one copy for
/// each linear-attention layer that has a checkpoint, in layer order, from the layer's own
/// checkpoint into its own live state. The layers with a state checkpoint are listed by `r.0`, those
/// with a convolution checkpoint by `r.1`.
pub proof fn rollback_to_nothing_restores_the_checkpoint(
    seq: &SequenceState,
    types: &Vec<LayerType>,
    h_bytes: usize,
    conv_bytes: usize,
    res: Result<CopyPlan, SsmStateError>,
) -> (r: (Seq<int>, Seq<int>))
    requires
        call_ensures(rollback_ssm_states, (seq, types, 0usize, h_bytes, conv_bytes), res),
        types@.len() >= seq.layer_states@.len(),
        res is Ok,
    ensures
        lists_exactly(
            r.0,
            seq.layer_states@.len() as int,
            |i: int|
                types@[i] == LayerType::LinearAttention && (seq.layer_states@[i] matches LayerState::Ssm(
                    ssm,
                ) && ssm.h_state_checkpoint is Some),
        ),
        lists_exactly(
            r.1,
            seq.layer_states@.len() as int,
            |i: int|
                types@[i] == LayerType::LinearAttention && (seq.layer_states@[i] matches LayerState::Ssm(
                    ssm,
                ) && ssm.conv_state_checkpoint is Some),
        ),
        res->Ok_0.h@.len() == r.0.len(),
        res->Ok_0.conv@.len() == r.1.len(),
        forall|x: int|
            0 <= x < r.0.len() ==> {
                &&& #[trigger] seq.layer_states@[r.0[x]] matches LayerState::Ssm(ssm)
                &&& Some(res->Ok_0.h@[x].src) == ssm.h_state_checkpoint
                &&& res->Ok_0.h@[x].dst == ssm.h_state
                &&& res->Ok_0.h@[x].bytes == h_bytes
            },
        forall|x: int|
            0 <= x < r.1.len() ==> {
                &&& #[trigger] seq.layer_states@[r.1[x]] matches LayerState::Ssm(ssm)
                &&& Some(res->Ok_0.conv@[x].src) == ssm.conv_state_checkpoint
                &&& res->Ok_0.conv@[x].dst == ssm.conv_state
                &&& res->Ok_0.conv@[x].bytes == conv_bytes
            },
{
    let states = seq.layer_states@;
    let n = states.len() as int;
    let fh = |s: LayerState| rollback_h(s, 0, h_bytes);
    let fc = |s: LayerState| rollback_conv(s, 0, conv_bytes);
    let a = lemma_copies_listed(states, types@, fh, n);
    let b = lemma_copies_listed(states, types@, fc, n);
    assert forall|x: int| 0 <= x < a.len() implies ({
        &&& #[trigger] states[a[x]] matches LayerState::Ssm(ssm)
        &&& Some(res->Ok_0.h@[x].src) == ssm.h_state_checkpoint
        &&& res->Ok_0.h@[x].dst == ssm.h_state
        &&& res->Ok_0.h@[x].bytes == h_bytes
    }) by {
        assert(linear_copies(states, types@, fh, n)[x] == fh(states[a[x]])->0);
        let sel = |i: int| types@[i] == LayerType::LinearAttention && fh(states[i]) is Some;
        assert(sel(a[x]));
    }
    assert forall|x: int| 0 <= x < b.len() implies ({
        &&& #[trigger] states[b[x]] matches LayerState::Ssm(ssm)
        &&& Some(res->Ok_0.conv@[x].src) == ssm.conv_state_checkpoint
        &&& res->Ok_0.conv@[x].dst == ssm.conv_state
        &&& res->Ok_0.conv@[x].bytes == conv_bytes
    }) by {
        assert(linear_copies(states, types@, fc, n)[x] == fc(states[b[x]])->0);
        let sel = |i: int| types@[i] == LayerType::LinearAttention && fc(states[i]) is Some;
        assert(sel(b[x]));
    }
    let hs = |i: int|
        types@[i] == LayerType::LinearAttention && (seq.layer_states@[i] matches LayerState::Ssm(
            ssm,
        ) && ssm.h_state_checkpoint is Some);
    let cs = |i: int|
        types@[i] == LayerType::LinearAttention && (seq.layer_states@[i] matches LayerState::Ssm(
            ssm,
        ) && ssm.conv_state_checkpoint is Some);
    lemma_same_selection(
        a,
        n,
        |i: int| types@[i] == LayerType::LinearAttention && fh(states[i]) is Some,
        hs,
    );
    lemma_same_selection(
        b,
        n,
        |i: int| types@[i] == LayerType::LinearAttention && fc(states[i]) is Some,
        cs,
    );
    (a, b)
}

/// A list of a selection is one of every equal selection.
pub proof fn lemma_same_selection(
    at: Seq<int>,
    n: int,
    p: spec_fn(int) -> bool,
    q: spec_fn(int) -> bool,
)
    requires
        lists_exactly(at, n, p),
        forall|i: int| 0 <= i < n ==> #[trigger] p(i) == q(i),
    ensures
        lists_exactly(at, n, q),
{
    assert forall|x: int| 0 <= x < at.len() implies 0 <= (#[trigger] at[x]) < n && q(at[x]) by {
        assert(p(at[x]));
    }
    assert forall|i: int| 0 <= i < n && #[trigger] q(i) implies at.contains(i) by {
        assert(p(i));
    }
}

/// A checkpoint saves the live states: one copy for each linear-attention layer that has a
/// checkpoint buffer, in layer order, from the layer's own live state into its own buffer. The
/// layers with a state buffer are listed by `r.0`, those with a convolution buffer by `r.1`.
pub proof fn checkpoint_saves_every_live_state(
    seq: &SequenceState,
    types: &Vec<LayerType>,
    h_bytes: usize,
    conv_bytes: usize,
    plan: CopyPlan,
) -> (r: (Seq<int>, Seq<int>))
    requires
        call_ensures(checkpoint_ssm_states, (seq, types, h_bytes, conv_bytes), plan),
        types@.len() >= seq.layer_states@.len(),
    ensures
        lists_exactly(
            r.0,
            seq.layer_states@.len() as int,
            |i: int|
                types@[i] == LayerType::LinearAttention && (seq.layer_states@[i] matches LayerState::Ssm(
                    ssm,
                ) && ssm.h_state_checkpoint is Some),
        ),
        lists_exactly(
            r.1,
            seq.layer_states@.len() as int,
            |i: int|
                types@[i] == LayerType::LinearAttention && (seq.layer_states@[i] matches LayerState::Ssm(
                    ssm,
                ) && ssm.conv_state_checkpoint is Some),
        ),
        plan.h@.len() == r.0.len(),
        plan.conv@.len() == r.1.len(),
        forall|x: int|
            0 <= x < r.0.len() ==> {
                &&& #[trigger] seq.layer_states@[r.0[x]] matches LayerState::Ssm(ssm)
                &&& plan.h@[x].src == ssm.h_state
                &&& Some(plan.h@[x].dst) == ssm.h_state_checkpoint
                &&& plan.h@[x].bytes == h_bytes
            },
        forall|x: int|
            0 <= x < r.1.len() ==> {
                &&& #[trigger] seq.layer_states@[r.1[x]] matches LayerState::Ssm(ssm)
                &&& plan.conv@[x].src == ssm.conv_state
                &&& Some(plan.conv@[x].dst) == ssm.conv_state_checkpoint
                &&& plan.conv@[x].bytes == conv_bytes
            },
{
    let states = seq.layer_states@;
    let n = states.len() as int;
    let fh = |s: LayerState| checkpoint_h(s, h_bytes);
    let fc = |s: LayerState| checkpoint_conv(s, conv_bytes);
    let a = lemma_copies_listed(states, types@, fh, n);
    let b = lemma_copies_listed(states, types@, fc, n);
    assert forall|x: int| 0 <= x < a.len() implies ({
        &&& #[trigger] states[a[x]] matches LayerState::Ssm(ssm)
        &&& plan.h@[x].src == ssm.h_state
        &&& Some(plan.h@[x].dst) == ssm.h_state_checkpoint
        &&& plan.h@[x].bytes == h_bytes
    }) by {
        assert(linear_copies(states, types@, fh, n)[x] == fh(states[a[x]])->0);
        let sel = |i: int| types@[i] == LayerType::LinearAttention && fh(states[i]) is Some;
        assert(sel(a[x]));
    }
    assert forall|x: int| 0 <= x < b.len() implies ({
        &&& #[trigger] states[b[x]] matches LayerState::Ssm(ssm)
        &&& plan.conv@[x].src == ssm.conv_state
        &&& Some(plan.conv@[x].dst) == ssm.conv_state_checkpoint
        &&& plan.conv@[x].bytes == conv_bytes
    }) by {
        assert(linear_copies(states, types@, fc, n)[x] == fc(states[b[x]])->0);
        let sel = |i: int| types@[i] == LayerType::LinearAttention && fc(states[i]) is Some;
        assert(sel(b[x]));
    }
    let hs = |i: int|
        types@[i] == LayerType::LinearAttention && (seq.layer_states@[i] matches LayerState::Ssm(
            ssm,
        ) && ssm.h_state_checkpoint is Some);
    let cs = |i: int|
        types@[i] == LayerType::LinearAttention && (seq.layer_states@[i] matches LayerState::Ssm(
            ssm,
        ) && ssm.conv_state_checkpoint is Some);
    lemma_same_selection(
        a,
        n,
        |i: int| types@[i] == LayerType::LinearAttention && fh(states[i]) is Some,
        hs,
    );
    lemma_same_selection(
        b,
        n,
        |i: int| types@[i] == LayerType::LinearAttention && fc(states[i]) is Some,
        cs,
    );
    (a, b)
}

/// A rollback is refused exactly when some linear-attention layer holds no recurrent state or
/// kept fewer intermediates than rows were accepted, and the error names the first such layer
/// and what is wrong with it.
pub proof fn rollback_is_refused_at_the_first_bad_layer(
    seq: &SequenceState,
    types: &Vec<LayerType>,
    num_accepted: usize,
    h_bytes: usize,
    conv_bytes: usize,
    r: Result<CopyPlan, SsmStateError>,
)
    requires
        call_ensures(rollback_ssm_states, (seq, types, num_accepted, h_bytes, conv_bytes), r),
        types@.len() >= seq.layer_states@.len(),
    ensures
        ({
            let good = |i: int|
                types@[i] == LayerType::LinearAttention ==> (seq.layer_states@[i] matches LayerState::Ssm(
                    ssm,
                ) && ssm.h_state_intermediates@.len() >= num_accepted);
            &&& r is Ok <==> forall|i: int|
                0 <= i < seq.layer_states@.len() ==> #[trigger] good(i)
            &&& r matches Err(e) ==> match e {
                SsmStateError::NotSsm { layer } => {
                    &&& layer < seq.layer_states@.len()
                    &&& types@[layer as int] == LayerType::LinearAttention
                    &&& seq.layer_states@[layer as int] is Other
                    &&& forall|j: int| 0 <= j < layer ==> #[trigger] good(j)
                },
                SsmStateError::TooFewIntermediates { layer, available } => {
                    &&& layer < seq.layer_states@.len()
                    &&& types@[layer as int] == LayerType::LinearAttention
                    &&& seq.layer_states@[layer as int] matches LayerState::Ssm(ssm)
                    &&& available == ssm.h_state_intermediates@.len()
                    &&& available < num_accepted
                    &&& forall|j: int| 0 <= j < layer ==> #[trigger] good(j)
                },
                SsmStateError::NoDecodeRing => false,
            }
        }),
{
    let states = seq.layer_states@;
    assert(seq.layer_states.len() == states.len());
    let acc = num_accepted as int;
    let good = |i: int|
        types@[i] == LayerType::LinearAttention ==> (states[i] matches LayerState::Ssm(ssm)
            && ssm.h_state_intermediates@.len() >= num_accepted);
    assert forall|i: int| 0 <= i < states.len() implies #[trigger] good(i) == (rollback_fault(
        states,
        types@,
        acc,
        i,
    ) is None) by {
        match states[i] {
            LayerState::Ssm(ssm) => {
                assert(ssm.h_state_intermediates.len() == ssm.h_state_intermediates@.len());
            },
            LayerState::Other => {},
        }
    }
    if let Err(e) = r {
        let i = choose|i: int|
            #[trigger] first_fault(states, types@, acc, i) && rollback_fault(states, types@, acc, i)
                == Some(e);
        assert(!good(i));
        match states[i] {
            LayerState::Ssm(ssm) => {
                assert(ssm.h_state_intermediates.len() == ssm.h_state_intermediates@.len());
            },
            LayerState::Other => {},
        }
        assert forall|j: int| 0 <= j < i implies #[trigger] good(j) by {
            assert(rollback_fault(states, types@, acc, j) is None);
        }
    } else {
        assert forall|i: int| 0 <= i < states.len() implies #[trigger] good(i) by {
            assert(rollback_fault(states, types@, acc, i) is None);
        }
    }
}

/// The convolution state holds one 32-bit word per kernel tap of every channel: the queries' and
/// the keys' channels, which are equally many, and the values'.
pub proof fn convolution_bytes_count_every_channel(d: &SsmDims, r: usize)
    requires
        call_ensures(SsmDims::conv_bytes, (d,), r),
    ensures
        r == (2 * (d.key_heads * d.key_dim) + d.value_heads * d.value_dim) * d.conv_kernel * 4,
{
}

/// A decode-time snapshot goes between the sequence's own pool slot and the asked ring slot, and
/// only while there is a ring.
pub proof fn ring_slots_belong_to_the_sequence(
    ring_enabled: bool,
    seq: &SequenceState,
    ring_slot: usize,
    r: Result<(usize, usize), SsmStateError>,
)
    requires
        call_ensures(decode_ring_slot, (ring_enabled, seq, ring_slot), r),
    ensures
        r is Ok == ring_enabled,
        r matches Ok((slot, ring)) ==> slot == seq.slot_idx && ring == ring_slot,
        r matches Err(e) ==> e is NoDecodeRing,
{
}

/// A buffer is allocated exactly where a linear-attention layer's state lacks one.
pub proof fn missing_checkpoints_are_allocated(
    seq: &SequenceState,
    types: &Vec<LayerType>,
    layer: usize,
    r: Result<CheckpointNeed, SsmStateError>,
)
    requires
        call_ensures(checkpoint_need, (seq, types, layer), r),
        layer < types@.len(),
        layer < seq.layer_states@.len(),
    ensures
        r is Err <==> types@[layer as int] == LayerType::LinearAttention
            && seq.layer_states@[layer as int] is Other,
        r matches Err(e) ==> e == (SsmStateError::NotSsm { layer }),
        r matches Ok(need) ==> {
            &&& need.h <==> types@[layer as int] == LayerType::LinearAttention
                && seq.layer_states@[layer as int]->Ssm_0.h_state_checkpoint is None
            &&& need.conv <==> types@[layer as int] == LayerType::LinearAttention
                && seq.layer_states@[layer as int]->Ssm_0.conv_state_checkpoint is None
        },
{
}

} // verus!
