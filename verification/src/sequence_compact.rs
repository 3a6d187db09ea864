//! Moving a sequence to another recurrent-state pool slot, and disowning a slot another sequence
//! took over.

use vstd::prelude::*;

use crate::layers::{count_before, lemma_count_before_bound, LayerType};
use crate::sequence_state::{DevicePtr, LayerState, SequenceState, SsmLayerState};

verus! {

/// Pool addresses of one recurrent layer for one slot.
pub struct LayerAddresses {
    pub h_state: DevicePtr,
    pub conv_state: DevicePtr,
    pub h_checkpoint: DevicePtr,
    pub conv_checkpoint: DevicePtr,
    pub h_intermediates: Vec<DevicePtr>,
    pub conv_intermediates: Vec<DevicePtr>,
}

/// Pool addresses of one slot.
pub struct SlotAddresses {
    /// Staging of an f16-sized pool; `None` otherwise.
    pub h_prefill_stage: Option<DevicePtr>,
    /// One entry per recurrent layer, in layer order.
    pub layers: Vec<LayerAddresses>,
}

/// `list` pointed at the addresses `addrs`: a list that was empty stays empty.
pub open spec fn repointed_list(list: Seq<DevicePtr>, addrs: Seq<DevicePtr>) -> Seq<DevicePtr> {
    if list.len() == 0 {
        list
    } else {
        addrs
    }
}

/// Whether `new` is `old` pointed at another slot: every address is the new slot's, and a
/// checkpoint or list of intermediates that was absent stays absent. Without draft support those
/// are left as they were.
pub open spec fn repointed(
    old_state: SsmLayerState,
    stage: Option<DevicePtr>,
    addrs: LayerAddresses,
    has_mtp: bool,
    new_state: SsmLayerState,
) -> bool {
    &&& new_state.h_state == addrs.h_state
    &&& new_state.conv_state == addrs.conv_state
    &&& new_state.h_prefill_stage == stage
    &&& new_state.h_state_checkpoint == if has_mtp && old_state.h_state_checkpoint is Some {
        Some(addrs.h_checkpoint)
    } else {
        old_state.h_state_checkpoint
    }
    &&& new_state.conv_state_checkpoint == if has_mtp && old_state.conv_state_checkpoint is Some {
        Some(addrs.conv_checkpoint)
    } else {
        old_state.conv_state_checkpoint
    }
    &&& new_state.h_state_intermediates@ == if has_mtp {
        repointed_list(old_state.h_state_intermediates@, addrs.h_intermediates@)
    } else {
        old_state.h_state_intermediates@
    }
    &&& new_state.conv_state_intermediates@ == if has_mtp {
        repointed_list(old_state.conv_state_intermediates@, addrs.conv_intermediates@)
    } else {
        old_state.conv_state_intermediates@
    }
}

/// The state of layer `i` after the move: recurrent states are repointed, the rest unchanged.
pub open spec fn layer_moved(
    old_states: Seq<LayerState>,
    types: Seq<LayerType>,
    addrs: SlotAddresses,
    has_mtp: bool,
    i: int,
    new_state: LayerState,
) -> bool {
    if types[i] == LayerType::LinearAttention && old_states[i] is Ssm {
        new_state matches LayerState::Ssm(s) && repointed(
            old_states[i]->Ssm_0,
            addrs.h_prefill_stage,
            addrs.layers@[count_before(types, LayerType::LinearAttention, i) as int],
            has_mtp,
            s,
        )
    } else {
        new_state == old_states[i]
    }
}

/// Copy of a pointer list.
fn copy_ptrs(list: &Vec<DevicePtr>) -> (r: Vec<DevicePtr>)
    ensures
        r@ == list@,
{
    let mut out: Vec<DevicePtr> = Vec::new();
    let mut i: usize = 0;
    while i < list.len()
        invariant
            i <= list@.len(),
            out@ == list@.subrange(0, i as int),
        decreases list@.len() - i,
    {
        out.push(list[i]);
        i = i + 1;
        assert(out@ =~= list@.subrange(0, i as int));
    }
    assert(out@ =~= list@);
    out
}

/// Point one recurrent state at another slot.
fn repoint(ssm: &mut SsmLayerState, stage: Option<DevicePtr>, addrs: &LayerAddresses, has_mtp: bool)
    ensures
        repointed(*old(ssm), stage, *addrs, has_mtp, *final(ssm)),
{
    ssm.h_state = addrs.h_state;
    ssm.conv_state = addrs.conv_state;
    ssm.h_prefill_stage = stage;
    if has_mtp {
        if ssm.h_state_checkpoint.is_some() {
            ssm.h_state_checkpoint = Some(addrs.h_checkpoint);
        }
        if ssm.conv_state_checkpoint.is_some() {
            ssm.conv_state_checkpoint = Some(addrs.conv_checkpoint);
        }
        if ssm.h_state_intermediates.len() != 0 {
            ssm.h_state_intermediates = copy_ptrs(&addrs.h_intermediates);
        }
        if ssm.conv_state_intermediates.len() != 0 {
            ssm.conv_state_intermediates = copy_ptrs(&addrs.conv_intermediates);
        }
    }
}

/// Whether a move to `new_slot` has anything to do.
pub fn compact_needed(seq: &SequenceState, new_slot: usize) -> (r: bool)
    ensures
        r == (seq.slot_idx != new_slot),
{
    seq.slot_idx != new_slot
}

/// The sequence once it points at `new_slot`: nothing but the slot index and the layer states has
/// changed.
pub open spec fn points_at(before: SequenceState, after: SequenceState, new_slot: usize) -> bool {
    after == (SequenceState { layer_states: after.layer_states, slot_idx: new_slot, ..before })
}

/// Point a sequence at `new_slot` once its state has been copied there. The old slot stays owned
/// until the copy has finished ([`compact_ownership`]).
pub fn compact_repoint(
    seq: &mut SequenceState,
    types: &Vec<LayerType>,
    new_slot: usize,
    addrs: &SlotAddresses,
    has_mtp: bool,
)
    requires
        types@.len() >= old(seq).layer_states@.len(),
        addrs.layers@.len() >= count_before(
            types@,
            LayerType::LinearAttention,
            old(seq).layer_states@.len() as int,
        ),
    ensures
        points_at(*old(seq), *final(seq), new_slot),
        final(seq).layer_states@.len() == old(seq).layer_states@.len(),
        forall|i: int|
            0 <= i < old(seq).layer_states@.len() ==> layer_moved(
                old(seq).layer_states@,
                types@,
                *addrs,
                has_mtp,
                i,
                #[trigger] final(seq).layer_states@[i],
            ),
{
    let ghost states0 = seq.layer_states@;
    let mut ssm_idx: usize = 0;
    let mut i: usize = 0;
    while i < seq.layer_states.len()
        invariant
            types@.len() >= states0.len(),
            addrs.layers@.len() >= count_before(
                types@,
                LayerType::LinearAttention,
                states0.len() as int,
            ),
            states0 == old(seq).layer_states@,
            seq.layer_states@.len() == states0.len(),
            *seq == (SequenceState { layer_states: seq.layer_states, ..*old(seq) }),
            i <= states0.len(),
            ssm_idx == count_before(types@, LayerType::LinearAttention, i as int),
            forall|j: int| i <= j < states0.len() ==> #[trigger] seq.layer_states@[j] == states0[j],
            forall|j: int|
                0 <= j < i ==> layer_moved(
                    states0,
                    types@,
                    *addrs,
                    has_mtp,
                    j,
                    #[trigger] seq.layer_states@[j],
                ),
        decreases states0.len() - i,
    {
        if types[i] == LayerType::LinearAttention {
            proof {
                lemma_count_mono(types@, i + 1, states0.len() as int);
                lemma_count_before_bound(types@, LayerType::LinearAttention, i as int);
            }
            assert(seq.layer_states@[i as int] == states0[i as int]);
            let stage: Option<DevicePtr> = addrs.h_prefill_stage;
            let layer_addrs: &LayerAddresses = &addrs.layers[ssm_idx];
            match &mut seq.layer_states[i] {
                LayerState::Ssm(ssm) => {
                    repoint(ssm, stage, layer_addrs, has_mtp);
                },
                LayerState::Other => {},
            }
            ssm_idx = ssm_idx + 1;
        }
        i = i + 1;
    }
    seq.slot_idx = new_slot;
}

proof fn lemma_count_mono(types: Seq<LayerType>, a: int, b: int)
    requires
        0 <= a <= b,
    ensures
        count_before(types, LayerType::LinearAttention, a) <= count_before(
            types,
            LayerType::LinearAttention,
            b,
        ),
    decreases b - a,
{
    if a < b {
        lemma_count_mono(types, a, b - 1);
    }
}

/// A change of the pool's free list.
#[derive(Clone, Copy, Debug, PartialEq, Eq, Structural)]
pub enum SlotAction {
    /// Take the slot off the free list if it is there.
    Claim(usize),
    /// Put the slot on the free list.
    Release(usize),
}

/// The sequence once its guard, if it has one, owns `new_slot`.
pub open spec fn owns_slot(before: SequenceState, after: SequenceState, new_slot: usize) -> bool {
    &&& after == (SequenceState { ssm_slot: after.ssm_slot, ..before })
    &&& after.ssm_slot is Some == before.ssm_slot is Some
    &&& before.ssm_slot is Some ==> after.slot() == Some(new_slot)
}

/// Hand the ownership over after the copy has finished: the new slot is claimed, so it is never
/// both owned and free, then the old slot is released once and the guard owns the new one.
pub fn compact_ownership(seq: &mut SequenceState, old_slot: usize, new_slot: usize) -> (r: Vec<
    SlotAction,
>)
    ensures
        r@ == seq![SlotAction::Claim(new_slot), SlotAction::Release(old_slot)],
        owns_slot(*old(seq), *final(seq), new_slot),
{
    let mut actions: Vec<SlotAction> = Vec::new();
    actions.push(SlotAction::Claim(new_slot));
    actions.push(SlotAction::Release(old_slot));
    match &mut seq.ssm_slot {
        Some(g) => {
            let _owned = g.take();
            g.migrate(new_slot);
        },
        None => {},
    }
    actions
}

/// The sequence once it has disowned its slot.
pub open spec fn detached(before: SequenceState, after: SequenceState) -> bool {
    &&& after == (SequenceState { ssm_slot: after.ssm_slot, slot_idx: usize::MAX, ..before })
    &&& after.ssm_slot is Some == before.ssm_slot is Some
    &&& after.slot() is None
}

/// Disown a retired sequence's slot after another sequence was moved into it: the guard is
/// emptied without a release, and the slot index becomes the sentinel that a free checks.
pub fn detach_slot_for_reuse(seq: &mut SequenceState)
    ensures
        detached(*old(seq), *final(seq)),
{
    match &mut seq.ssm_slot {
        Some(g) => {
            let _owned = g.take();
        },
        None => {},
    }
    seq.slot_idx = usize::MAX;
}

/// A move is needed exactly when the slot changes.
pub proof fn moves_change_the_slot(seq: &SequenceState, new_slot: usize, r: bool)
    requires
        call_ensures(compact_needed, (seq, new_slot), r),
    ensures
        !r ==> seq.slot_idx == new_slot,
        r ==> seq.slot_idx != new_slot,
{
}

/// A moved sequence points into its new slot: in the `x`-th recurrent layer, the model's layer
/// `linear[x]`, at the slot's own addresses for that layer, with the slot's staging. Checkpoints
/// and intermediates move only where it has them and the pool drafts.
pub proof fn moved_states_point_into_the_new_slot(
    seq: &mut SequenceState,
    types: &Vec<LayerType>,
    new_slot: usize,
    addrs: &SlotAddresses,
    has_mtp: bool,
    linear: Vec<usize>,
    x: int,
)
    requires
        call_ensures(compact_repoint, (seq, types, new_slot, addrs, has_mtp), ()),
        call_ensures(crate::layers::layer_indices, (types, LayerType::LinearAttention), linear),
        0 <= x < linear@.len(),
        linear@[x] < old(seq).layer_states@.len(),
        types@.len() >= old(seq).layer_states@.len(),
        old(seq).layer_states@[linear@[x] as int] is Ssm,
    ensures
        ({
            let was = old(seq).layer_states@[linear@[x] as int]->Ssm_0;
            let to = addrs.layers@[x];
            &&& final(seq).layer_states@[linear@[x] as int] matches LayerState::Ssm(now)
            &&& now.h_state == to.h_state
            &&& now.conv_state == to.conv_state
            &&& now.h_prefill_stage == addrs.h_prefill_stage
            &&& now.h_state_checkpoint is Some <==> was.h_state_checkpoint is Some
            &&& now.conv_state_checkpoint is Some <==> was.conv_state_checkpoint is Some
            &&& has_mtp && was.h_state_checkpoint is Some ==> now.h_state_checkpoint == Some(
                to.h_checkpoint,
            )
            &&& has_mtp && was.conv_state_checkpoint is Some ==> now.conv_state_checkpoint == Some(
                to.conv_checkpoint,
            )
            &&& has_mtp && was.h_state_intermediates@.len() > 0 ==> now.h_state_intermediates@
                == to.h_intermediates@
            &&& has_mtp && was.conv_state_intermediates@.len() > 0
                ==> now.conv_state_intermediates@ == to.conv_intermediates@
            &&& was.h_state_intermediates@.len() == 0 ==> now.h_state_intermediates@.len() == 0
            &&& was.conv_state_intermediates@.len() == 0 ==> now.conv_state_intermediates@.len()
                == 0
            &&& !has_mtp ==> now.h_state_checkpoint == was.h_state_checkpoint
                && now.conv_state_checkpoint == was.conv_state_checkpoint
                && now.h_state_intermediates@ == was.h_state_intermediates@
                && now.conv_state_intermediates@ == was.conv_state_intermediates@
        }),
{
    assert(types.len() == types@.len());
    let i = linear@[x] as int;
    crate::layers::lemma_rank_in_list(
        types@,
        LayerType::LinearAttention,
        types@.len() as int,
        x,
    );
    assert(types@[i] == LayerType::LinearAttention);
    assert(layer_moved(
        old(seq).layer_states@,
        types@,
        *addrs,
        has_mtp,
        i,
        final(seq).layer_states@[i],
    ));
}

/// A move changes nothing else: no layer of another kind, no state that is not recurrent, and
/// nothing of the sequence but its slot number.
pub proof fn moves_leave_the_rest(
    seq: &mut SequenceState,
    types: &Vec<LayerType>,
    new_slot: usize,
    addrs: &SlotAddresses,
    has_mtp: bool,
    i: int,
)
    requires
        call_ensures(compact_repoint, (seq, types, new_slot, addrs, has_mtp), ()),
    ensures
        final(seq).slot_idx == new_slot,
        final(seq).layer_states@.len() == old(seq).layer_states@.len(),
        0 <= i < old(seq).layer_states@.len() && (types@[i] != LayerType::LinearAttention || old(
            seq,
        ).layer_states@[i] is Other) ==> final(seq).layer_states@[i] == old(seq).layer_states@[i],
        *final(seq) == (SequenceState {
            layer_states: final(seq).layer_states,
            slot_idx: final(seq).slot_idx,
            ..*old(seq)
        }),
{
    if 0 <= i < old(seq).layer_states@.len() {
        assert(layer_moved(
            old(seq).layer_states@,
            types@,
            *addrs,
            has_mtp,
            i,
            final(seq).layer_states@[i],
        ));
    }
}

/// The new slot is claimed before the old one is released, so a slot is never without an owner
/// while its state is live; a guard then owns the new slot.
pub proof fn new_slots_are_claimed_first(
    seq: &mut SequenceState,
    old_slot: usize,
    new_slot: usize,
    r: Vec<SlotAction>,
)
    requires
        call_ensures(compact_ownership, (seq, old_slot, new_slot), r),
    ensures
        r@.len() == 2,
        r@[0] == SlotAction::Claim(new_slot),
        r@[1] == SlotAction::Release(old_slot),
        old(seq).ssm_slot is Some ==> (final(seq).ssm_slot matches Some(g) && g.slot == Some(
            new_slot,
        )),
        old(seq).ssm_slot is None ==> final(seq).ssm_slot is None,
        *final(seq) == (SequenceState { ssm_slot: final(seq).ssm_slot, ..*old(seq) }),
{
}

} // verus!
