//! Retiring a sequence: whether it goes into the prefix cache, and the release of everything it
//! owns.

use vstd::prelude::*;

use crate::graph_cache::{graphs_in, row_graph_at, SlotGraphs};
use crate::sequence_compact::{detach_slot_for_reuse, detached, owns_slot, points_at};
use crate::sequence_state::{DevicePtr, LayerState, SequenceState, SsmLayerState};
use crate::verify_graphs::{graphs_naming, records_not_naming, BatchGraphs, GraphRecord};

verus! {

/// Whether a finished sequence is inserted into the prefix cache.
///
/// It must hold a full block, the cache must be active, the prompt must have no vision pads (the
/// cache sees token ids, not pixels), and the window must not have slid, since the block table
/// then no longer parallels the tokens.
pub fn cache_sequence(seq: &SequenceState, bs: usize, cache_active: bool, vision: bool) -> (r: bool)
    ensures
        r == (seq.tokens@.len() >= bs && seq.block_table@.len() > 0 && cache_active && !vision
            && seq.window() == 0),
{
    seq.tokens.len() >= bs && seq.block_table.len() != 0 && cache_active && !vision
        && seq.hss_window_start() == 0
}

/// Blocks an eviction returned to the free list.
pub fn reclaimed_blocks(before: usize, after: usize) -> (r: usize)
    ensures
        r == if after >= before {
            after - before
        } else {
            0
        },
{
    after.saturating_sub(before)
}

/// Whether asking the prefix cache for `num_blocks` blocks can free anything.
pub fn reclaim_wanted(num_blocks: usize, cache_active: bool) -> (r: bool)
    ensures
        r == (num_blocks != 0 && cache_active),
{
    num_blocks != 0 && cache_active
}

/// The graphs that a retired sequence may have to take with it.
pub struct EngineGraphs {
    pub decode: SlotGraphs,
    pub verify2: SlotGraphs,
    pub verify3: SlotGraphs,
    pub verify4: SlotGraphs,
    pub kgamma: SlotGraphs,
    pub fused: SlotGraphs,
    pub batch_decode: BatchGraphs,
}

impl EngineGraphs {
    /// Every cache is well formed.
    pub open spec fn wf(&self) -> bool {
        &&& self.decode.wf()
        &&& self.verify2.wf()
        &&& self.verify3.wf()
        &&& self.verify4.wf()
        &&& self.kgamma.wf()
        &&& self.fused.wf()
        &&& self.batch_decode.wf()
    }
}

/// Which tokens the prefix-cache references are released over.
#[derive(Clone, Copy, Debug, PartialEq, Eq, Structural)]
pub enum ReleaseOver {
    Tokens,
    /// The prefix stored at lookup, for a prefill that failed before it filled the tokens.
    PrefixRefTokens,
}

/// The tokens the prefix-cache references are released over: the sequence's own, or the prefix
/// stored at lookup while its own are fewer than the match.
pub open spec fn released_tokens(seq: SequenceState) -> Seq<u32> {
    if seq.tokens@.len() >= seq.cached_prefix_tokens {
        seq.tokens@
    } else {
        seq.prefix_ref_tokens@
    }
}

/// However far a prefill came before its sequence was freed, the references of its match are
/// released: the release starts with the matched tokens.
pub proof fn release_covers_the_match(seq: SequenceState, prompt: Seq<u32>)
    requires
        seq.cached_prefix_tokens <= prompt.len(),
        seq.prefix_ref_tokens@ == prompt.subrange(0, seq.cached_prefix_tokens as int),
        forall|i: int|
            0 <= i < seq.tokens@.len() && i < prompt.len() ==> #[trigger] seq.tokens@[i]
                == prompt[i],
    ensures
        released_tokens(seq).len() >= seq.cached_prefix_tokens,
        released_tokens(seq).subrange(0, seq.cached_prefix_tokens as int) == prompt.subrange(
            0,
            seq.cached_prefix_tokens as int,
        ),
{
    let n = seq.cached_prefix_tokens as int;
    assert(released_tokens(seq).subrange(0, n) =~= prompt.subrange(0, n));
}

/// What retiring a sequence asks for, in this order.
pub struct FreePlan {
    /// Adapter slot to release.
    pub release_adapter: Option<i32>,
    pub release_over: ReleaseOver,
    /// KV blocks to free.
    pub free_blocks: Vec<u32>,
    /// Disk blocks to drop one reference of.
    pub disk_refs: Vec<u32>,
    /// Graphs to destroy.
    pub destroy: Vec<u64>,
}

/// The pool slot a free releases: the one the guard owns, unless the slot index is the sentinel
/// that another sequence took the slot over.
pub open spec fn slot_released(seq: SequenceState, max_slots: usize) -> Option<usize> {
    if seq.slot_idx >= max_slots {
        None
    } else {
        seq.slot()
    }
}

/// The adapter slot a free releases.
pub open spec fn adapter_released(seq: SequenceState) -> Option<i32> {
    if seq.acquired_adapter_slot >= 0 {
        Some(seq.acquired_adapter_slot)
    } else {
        None
    }
}

/// A recurrent state without addresses; its buffers belong to the pool.
pub open spec fn is_cleared(ssm: SsmLayerState) -> bool {
    &&& ssm.h_state == DevicePtr(0)
    &&& ssm.conv_state == DevicePtr(0)
    &&& ssm.h_prefill_stage is None
    &&& ssm.h_state_checkpoint is None
    &&& ssm.conv_state_checkpoint is None
    &&& ssm.h_state_intermediates@.len() == 0
    &&& ssm.conv_state_intermediates@.len() == 0
}

/// The layer states after a free: recurrent ones cleared, the others as they were.
pub open spec fn states_cleared(before: Seq<LayerState>, after: Seq<LayerState>) -> bool {
    &&& after.len() == before.len()
    &&& forall|i: int|
        0 <= i < before.len() ==> match before[i] {
            LayerState::Ssm(_) => (#[trigger] after[i]) matches LayerState::Ssm(s) && is_cleared(s),
            LayerState::Other => after[i] is Other,
        }
}

/// The sequence after a free.
pub open spec fn freed(before: SequenceState, after: SequenceState) -> bool {
    &&& after == (SequenceState {
        acquired_adapter_slot: after.acquired_adapter_slot,
        block_table: after.block_table,
        disk_block_ids: after.disk_block_ids,
        disk_last_offloaded_per_layer: after.disk_last_offloaded_per_layer,
        layer_states: after.layer_states,
        ..before
    })
    &&& after.acquired_adapter_slot == if before.acquired_adapter_slot >= 0 {
        -1int
    } else {
        before.acquired_adapter_slot as int
    }
    &&& after.block_table@.len() == 0
    &&& after.disk_block_ids@.len() == 0
    &&& after.disk_last_offloaded_per_layer@ == if before.disk_block_ids@.len() > 0 {
        Seq::new(before.disk_last_offloaded_per_layer@.len(), |i: int| 0u32)
    } else {
        before.disk_last_offloaded_per_layer@
    }
    &&& states_cleared(before.layer_states@, after.layer_states@)
}

/// The graphs destroyed with a sequence: with per-sequence layer state those of its slot, and
/// always those that carry its adapter routing.
pub open spec fn graphs_destroyed(
    graphs: EngineGraphs,
    slot_idx: usize,
    drop_slot_graphs: bool,
) -> Seq<u64> {
    let stale = if drop_slot_graphs {
        graphs_in(graphs.decode.rows(slot_idx)) + graphs_in(graphs.verify2.rows(slot_idx))
            + graphs_in(graphs.verify3.rows(slot_idx)) + graphs_in(graphs.verify4.rows(slot_idx))
            + graphs_naming(graphs.batch_decode@, slot_idx as u32)
    } else {
        Seq::empty()
    };
    stale + graphs_in(graphs.kgamma.rows(slot_idx)) + graphs_in(graphs.fused.rows(slot_idx))
}

/// No graph of `slot` is left, and every other slot's graphs are as they were.
pub open spec fn slot_dropped(before: SlotGraphs, after: SlotGraphs, slot: usize) -> bool {
    &&& forall|k: usize| after.cached(slot, k) is None
    &&& forall|s: usize, k: usize| s != slot ==> after.cached(s, k) == before.cached(s, k)
}

/// Which graph caches a free empties of the sequence's slot.
pub open spec fn graphs_after_free(
    before: EngineGraphs,
    after: EngineGraphs,
    slot_idx: usize,
    drop_slot_graphs: bool,
) -> bool {
    &&& slot_dropped(before.kgamma, after.kgamma, slot_idx)
    &&& slot_dropped(before.fused, after.fused, slot_idx)
    &&& if drop_slot_graphs {
        &&& slot_dropped(before.decode, after.decode, slot_idx)
        &&& slot_dropped(before.verify2, after.verify2, slot_idx)
        &&& slot_dropped(before.verify3, after.verify3, slot_idx)
        &&& slot_dropped(before.verify4, after.verify4, slot_idx)
        &&& after.batch_decode@ == records_not_naming(before.batch_decode@, slot_idx as u32)
    } else {
        &&& after.decode == before.decode
        &&& after.verify2 == before.verify2
        &&& after.verify3 == before.verify3
        &&& after.verify4 == before.verify4
        &&& after.batch_decode == before.batch_decode
    }
}

/// Clear the recurrent addresses of every layer.
fn clear_states(states: &mut Vec<LayerState>)
    ensures
        states_cleared(old(states)@, final(states)@),
{
    let ghost before = states@;
    let mut i: usize = 0;
    while i < states.len()
        invariant
            before == old(states)@,
            states@.len() == before.len(),
            i <= before.len(),
            forall|j: int| i <= j < before.len() ==> #[trigger] states@[j] == before[j],
            forall|j: int|
                0 <= j < i ==> match before[j] {
                    LayerState::Ssm(_) => (#[trigger] states@[j]) matches LayerState::Ssm(s)
                        && is_cleared(s),
                    LayerState::Other => states@[j] is Other,
                },
        decreases before.len() - i,
    {
        assert(states@[i as int] == before[i as int]);
        let is_ssm: bool = matches!(&states[i], LayerState::Ssm(_));
        if is_ssm {
            states.set(
                i,
                LayerState::Ssm(
                    SsmLayerState {
                        h_state: DevicePtr(0),
                        conv_state: DevicePtr(0),
                        h_prefill_stage: None,
                        h_state_checkpoint: None,
                        conv_state_checkpoint: None,
                        h_state_intermediates: Vec::new(),
                        conv_state_intermediates: Vec::new(),
                    },
                ),
            );
        }
        i = i + 1;
    }
}

/// The sequence once its pool slot was taken: its guard, if it has one, is empty.
pub open spec fn slot_taken(before: SequenceState, after: SequenceState) -> bool {
    &&& after == (SequenceState { ssm_slot: after.ssm_slot, ..before })
    &&& after.ssm_slot is Some == before.ssm_slot is Some
    &&& after.slot() is None
}

/// Take the pool slot of a sequence that retires; it is to be zeroed and released. This comes
/// first, so that a failing device cannot keep the slot from the free list. A slot another
/// sequence took over is disowned and not released.
pub fn take_slot(seq: &mut SequenceState, max_slots: usize) -> (r: Option<usize>)
    ensures
        r == slot_released(*old(seq), max_slots),
        slot_taken(*old(seq), *final(seq)),
{
    let taken: Option<usize> = match &mut seq.ssm_slot {
        Some(g) => g.take(),
        None => None,
    };
    if seq.slot_idx >= max_slots {
        None
    } else {
        taken
    }
}

/// How many layers release the device memory they allocated for the sequence.
pub fn layers_to_release(seq: &SequenceState, num_layers: usize) -> (r: usize)
    ensures
        r == if seq.layer_states@.len() < num_layers {
            seq.layer_states@.len()
        } else {
            num_layers as nat
        },
{
    if seq.layer_states.len() < num_layers {
        seq.layer_states.len()
    } else {
        num_layers
    }
}

/// Release everything else a sequence owns, once its slot is taken and its layers have released
/// their memory. Failures of these releases are reported and do not stop the later ones.
pub fn free_sequence(
    seq: &mut SequenceState,
    max_slots: usize,
    any_layer_owns_state: bool,
    graphs: &mut EngineGraphs,
) -> (r: FreePlan)
    requires
        old(graphs).wf(),
    ensures
        final(graphs).wf(),
        freed(*old(seq), *final(seq)),
        graphs_after_free(
            *old(graphs),
            *final(graphs),
            old(seq).slot_idx,
            old(seq).slot_idx < max_slots && any_layer_owns_state,
        ),
        r.release_adapter == adapter_released(*old(seq)),
        r.release_over == if old(seq).tokens@.len() >= old(seq).cached_prefix_tokens {
            ReleaseOver::Tokens
        } else {
            ReleaseOver::PrefixRefTokens
        },
        released_tokens(*old(seq)) == match r.release_over {
            ReleaseOver::Tokens => old(seq).tokens@,
            ReleaseOver::PrefixRefTokens => old(seq).prefix_ref_tokens@,
        },
        r.free_blocks@ == old(seq).block_table@,
        r.disk_refs@ == old(seq).disk_block_ids@,
        r.destroy@ == graphs_destroyed(
            *old(graphs),
            old(seq).slot_idx,
            old(seq).slot_idx < max_slots && any_layer_owns_state,
        ),
{
    let slot_reused: bool = seq.slot_idx >= max_slots;
    let mut release_adapter: Option<i32> = None;
    if seq.acquired_adapter_slot >= 0 {
        release_adapter = Some(seq.acquired_adapter_slot);
        seq.acquired_adapter_slot = -1;
    }
    let release_over: ReleaseOver = if seq.tokens.len() >= seq.cached_prefix_tokens {
        ReleaseOver::Tokens
    } else {
        ReleaseOver::PrefixRefTokens
    };
    let mut free_blocks: Vec<u32> = Vec::new();
    free_blocks.append(&mut seq.block_table);
    assert(free_blocks@ =~= old(seq).block_table@);
    let had_disk: bool = seq.disk_block_ids.len() != 0;
    let mut disk_refs: Vec<u32> = Vec::new();
    disk_refs.append(&mut seq.disk_block_ids);
    assert(disk_refs@ =~= old(seq).disk_block_ids@);
    if had_disk {
        let n: usize = seq.disk_last_offloaded_per_layer.len();
        let mut zeros: Vec<u32> = Vec::new();
        while zeros.len() < n
            invariant
                zeros@.len() <= n,
                zeros@ == Seq::new(zeros@.len(), |i: int| 0u32),
            decreases n - zeros@.len(),
        {
            zeros.push(0);
            assert(zeros@ =~= Seq::new(zeros@.len(), |i: int| 0u32));
        }
        seq.disk_last_offloaded_per_layer = zeros;
    }
    let slot_idx: usize = seq.slot_idx;
    let mut destroy: Vec<u64> = Vec::new();
    if !slot_reused && any_layer_owns_state {
        let mut dropped: Vec<u64> = graphs.decode.remove_slot(slot_idx);
        destroy.append(&mut dropped);
        let mut dropped: Vec<u64> = graphs.verify2.remove_slot(slot_idx);
        destroy.append(&mut dropped);
        let mut dropped: Vec<u64> = graphs.verify3.remove_slot(slot_idx);
        destroy.append(&mut dropped);
        let mut dropped: Vec<u64> = graphs.verify4.remove_slot(slot_idx);
        destroy.append(&mut dropped);
        let mut dropped: Vec<u64> = graphs.batch_decode.remove_slot(slot_idx as u32);
        destroy.append(&mut dropped);
    }
    clear_states(&mut seq.layer_states);
    let mut dropped: Vec<u64> = graphs.kgamma.remove_slot(slot_idx);
    destroy.append(&mut dropped);
    let mut dropped: Vec<u64> = graphs.fused.remove_slot(slot_idx);
    destroy.append(&mut dropped);
    assert(destroy@ =~= graphs_destroyed(
        *old(graphs),
        slot_idx,
        !slot_reused && any_layer_owns_state,
    ));
    FreePlan { release_adapter, release_over, free_blocks, disk_refs, destroy }
}

/// A second free releases nothing: once the slot was taken and the rest freed, there is no slot,
/// no adapter, no block and no disk reference left to release.
pub proof fn second_free_releases_nothing(
    before: SequenceState,
    taken: SequenceState,
    after: SequenceState,
    max_slots: usize,
)
    requires
        slot_taken(before, taken),
        freed(taken, after),
    ensures
        slot_released(after, max_slots) is None,
        adapter_released(after) is None,
        after.block_table@.len() == 0,
        after.disk_block_ids@.len() == 0,
{
}

/// A slot another sequence took over is not released by the sequence that lost it: after a
/// detach a free releases no slot, and the guard has none to release either, whatever the size
/// of the pool.
pub proof fn detached_slot_is_not_released(
    before: SequenceState,
    after: SequenceState,
    max_slots: usize,
)
    requires
        detached(before, after),
    ensures
        slot_released(after, max_slots) is None,
        after.slot() is None,
{
}

/// A moved sequence releases the slot it moved to, and so not the one it left: the move released
/// that one.
pub proof fn moved_sequence_releases_new_slot(
    before: SequenceState,
    repointed: SequenceState,
    after: SequenceState,
    new_slot: usize,
    max_slots: usize,
)
    requires
        before.ssm_slot is Some,
        new_slot < max_slots,
        points_at(before, repointed, new_slot),
        owns_slot(repointed, after, new_slot),
    ensures
        slot_released(after, max_slots) == Some(new_slot),
{
}

/// A finished sequence is cached exactly when it fills a block, has one, has no vision rows, its
/// window has not slid, and the cache is on.
pub proof fn finished_sequences_are_cached_when_whole(
    seq: &SequenceState,
    bs: usize,
    cache_active: bool,
    vision: bool,
    r: bool,
)
    requires
        call_ensures(cache_sequence, (seq, bs, cache_active, vision), r),
    ensures
        r <==> cache_active && !vision && bs <= seq.tokens@.len() && 0 < seq.block_table@.len()
            && seq.disk_block_ids@.len() <= seq.block_table@.len(),
{
}

/// Blocks are reclaimed exactly when some are asked for and the cache is on; what was reclaimed is
/// the growth of the free list.
pub proof fn reclaimed_blocks_are_the_growth(
    before: usize,
    after: usize,
    r: usize,
    num_blocks: usize,
    cache_active: bool,
    wanted: bool,
)
    requires
        call_ensures(reclaimed_blocks, (before, after), r),
        call_ensures(reclaim_wanted, (num_blocks, cache_active), wanted),
    ensures
        after >= before ==> before + r == after,
        after < before ==> r == 0,
        wanted <==> num_blocks > 0 && cache_active,
{
}

/// A slot is released once: the one the guard owns is handed out if the sequence still has its
/// slot, and the guard owns none afterwards, so neither a second call nor the guard releases it
/// again. Nothing else changes.
pub proof fn slots_are_released_once(
    seq: &mut SequenceState,
    max_slots: usize,
    r: Option<usize>,
    again: &mut SequenceState,
    r2: Option<usize>,
)
    requires
        call_ensures(take_slot, (seq, max_slots), r),
        call_ensures(take_slot, (again, max_slots), r2),
        *old(again) == *final(seq),
    ensures
        r is Some <==> old(seq).slot_idx < max_slots && (old(seq).ssm_slot matches Some(g) && g.slot
            is Some),
        r matches Some(slot) ==> old(seq).ssm_slot->0.slot == Some(slot),
        final(seq).ssm_slot matches Some(g) ==> g.slot is None,
        r2 is None,
        *final(seq) == (SequenceState { ssm_slot: final(seq).ssm_slot, ..*old(seq) }),
{
}

/// A sequence whose slot another one took over releases none.
pub proof fn detached_sequences_release_no_slot(
    seq: &mut SequenceState,
    later: &mut SequenceState,
    max_slots: usize,
    r: Option<usize>,
)
    requires
        call_ensures(detach_slot_for_reuse, (seq,), ()),
        call_ensures(take_slot, (later, max_slots), r),
        *old(later) == *final(seq),
    ensures
        r is None,
        final(seq).slot_idx == usize::MAX,
        final(seq).ssm_slot matches Some(g) ==> g.slot is None,
        *final(seq) == (SequenceState {
            ssm_slot: final(seq).ssm_slot,
            slot_idx: final(seq).slot_idx,
            ..*old(seq)
        }),
{
}

/// A state is released for every layer that the model and the sequence both have.
pub proof fn common_layers_are_released(seq: &SequenceState, num_layers: usize, r: usize)
    requires
        call_ensures(layers_to_release, (seq, num_layers), r),
    ensures
        r <= num_layers,
        r <= seq.layer_states@.len(),
        r == num_layers || r == seq.layer_states@.len(),
{
}

/// Freeing hands back everything the sequence holds and leaves it holding nothing: all its blocks
/// and disk ids, in order, and its adapter slot if it has one. References are released over its
/// tokens, or over the prefix stored at lookup while those are fewer than the match. A second free
/// hands back nothing.
pub proof fn freed_sequences_hand_back_what_they_hold(
    seq: &mut SequenceState,
    max_slots: usize,
    any_layer_owns_state: bool,
    graphs: &mut EngineGraphs,
    r: FreePlan,
    i: int,
)
    requires
        call_ensures(free_sequence, (seq, max_slots, any_layer_owns_state, graphs), r),
    ensures
        r.free_blocks@.len() == old(seq).block_table@.len(),
        0 <= i < old(seq).block_table@.len() ==> r.free_blocks@[i] == old(seq).block_table@[i],
        r.disk_refs@.len() == old(seq).disk_block_ids@.len(),
        0 <= i < old(seq).disk_block_ids@.len() ==> r.disk_refs@[i] == old(seq).disk_block_ids@[i],
        final(seq).block_table@.len() == 0,
        final(seq).disk_block_ids@.len() == 0,
        old(seq).acquired_adapter_slot >= 0 ==> r.release_adapter == Some(
            old(seq).acquired_adapter_slot,
        ) && final(seq).acquired_adapter_slot == -1,
        old(seq).acquired_adapter_slot < 0 ==> r.release_adapter is None,
        r.release_over is PrefixRefTokens <==> old(seq).tokens@.len() < old(
            seq,
        ).cached_prefix_tokens,
        final(seq).tokens == old(seq).tokens,
        final(seq).prefix_ref_tokens == old(seq).prefix_ref_tokens,
        final(seq).slot_idx == old(seq).slot_idx,
        final(seq).ssm_slot == old(seq).ssm_slot,
{
}

/// Freeing leaves no recurrent state pointing into the pool, and the offload cursors of a
/// sequence with disk blocks at zero.
pub proof fn freed_states_point_nowhere(
    seq: &mut SequenceState,
    max_slots: usize,
    any_layer_owns_state: bool,
    graphs: &mut EngineGraphs,
    r: FreePlan,
    i: int,
)
    requires
        call_ensures(free_sequence, (seq, max_slots, any_layer_owns_state, graphs), r),
    ensures
        final(seq).layer_states@.len() == old(seq).layer_states@.len(),
        0 <= i < old(seq).layer_states@.len() ==> match final(seq).layer_states@[i] {
            LayerState::Ssm(s) => {
                &&& old(seq).layer_states@[i] is Ssm
                &&& s.h_state.0 == 0
                &&& s.conv_state.0 == 0
                &&& s.h_prefill_stage is None
                &&& s.h_state_checkpoint is None
                &&& s.conv_state_checkpoint is None
                &&& s.h_state_intermediates@.len() == 0
                &&& s.conv_state_intermediates@.len() == 0
            },
            LayerState::Other => old(seq).layer_states@[i] is Other,
        },
        final(seq).disk_last_offloaded_per_layer@.len() == old(
            seq,
        ).disk_last_offloaded_per_layer@.len(),
        0 <= i < old(seq).disk_last_offloaded_per_layer@.len() ==> final(seq).disk_last_offloaded_per_layer@[i] == if old(seq).disk_block_ids@.len() > 0 {
            0
        } else {
            old(seq).disk_last_offloaded_per_layer@[i]
        },
{
    if 0 <= i < old(seq).layer_states@.len() {
        let now = final(seq).layer_states@[i];
        assert(now == final(seq).layer_states@[i]);
    }
}

/// Graphs of the freed slot are not found again: always those of the drafting verifies, and those
/// of the plain decode and fixed verifies exactly when the slot is the sequence's own and some
/// layer keeps state per sequence. Every graph that is not found any more is destroyed, and no
/// other slot's graphs change.
pub proof fn freed_slots_leave_no_graph(
    seq: &mut SequenceState,
    max_slots: usize,
    any_layer_owns_state: bool,
    graphs: &mut EngineGraphs,
    r: FreePlan,
    s: usize,
    k: usize,
    fused: Option<u64>,
    fused2: Option<u64>,
    kgamma: Option<u64>,
    kgamma2: Option<u64>,
    decode: Option<u64>,
    decode2: Option<u64>,
    verify2: Option<u64>,
    verify22: Option<u64>,
    verify3: Option<u64>,
    verify32: Option<u64>,
    verify4: Option<u64>,
    verify42: Option<u64>,
)
    requires
        call_ensures(free_sequence, (seq, max_slots, any_layer_owns_state, graphs), r),
        call_ensures(SlotGraphs::get, (&old(graphs).fused, s, k), fused),
        call_ensures(SlotGraphs::get, (&final(graphs).fused, s, k), fused2),
        call_ensures(SlotGraphs::get, (&old(graphs).kgamma, s, k), kgamma),
        call_ensures(SlotGraphs::get, (&final(graphs).kgamma, s, k), kgamma2),
        call_ensures(SlotGraphs::get, (&old(graphs).decode, s, k), decode),
        call_ensures(SlotGraphs::get, (&final(graphs).decode, s, k), decode2),
        call_ensures(SlotGraphs::get, (&old(graphs).verify2, s, k), verify2),
        call_ensures(SlotGraphs::get, (&final(graphs).verify2, s, k), verify22),
        call_ensures(SlotGraphs::get, (&old(graphs).verify3, s, k), verify3),
        call_ensures(SlotGraphs::get, (&final(graphs).verify3, s, k), verify32),
        call_ensures(SlotGraphs::get, (&old(graphs).verify4, s, k), verify4),
        call_ensures(SlotGraphs::get, (&final(graphs).verify4, s, k), verify42),
    ensures
        ({
            let mine = s == old(seq).slot_idx;
            let owned = mine && s < max_slots && any_layer_owns_state;
            &&& mine ==> fused2 is None && kgamma2 is None
            &&& !mine ==> fused2 == fused && kgamma2 == kgamma
            &&& owned ==> decode2 is None && verify22 is None && verify32 is None && verify42
                is None
            &&& !owned ==> decode2 == decode && verify22 == verify2 && verify32 == verify3
                && verify42 == verify4
            &&& mine && fused is Some ==> r.destroy@.contains(fused->0)
            &&& mine && kgamma is Some ==> r.destroy@.contains(kgamma->0)
            &&& owned && decode is Some ==> r.destroy@.contains(decode->0)
            &&& owned && verify2 is Some ==> r.destroy@.contains(verify2->0)
            &&& owned && verify3 is Some ==> r.destroy@.contains(verify3->0)
            &&& owned && verify4 is Some ==> r.destroy@.contains(verify4->0)
        }),
{
    let g = *old(graphs);
    let slot = old(seq).slot_idx;
    let drop = slot < max_slots && any_layer_owns_state;
    let a = graphs_in(g.decode.rows(slot));
    let b = graphs_in(g.verify2.rows(slot));
    let c = graphs_in(g.verify3.rows(slot));
    let d = graphs_in(g.verify4.rows(slot));
    let e = graphs_naming(g.batch_decode@, slot as u32);
    let f = graphs_in(g.kgamma.rows(slot));
    let h = graphs_in(g.fused.rows(slot));
    let all = r.destroy@;
    let stale = if drop {
        a + b + c + d + e
    } else {
        Seq::empty()
    };
    assert(all == stale + f + h);
    if s == slot && fused is Some {
        let x = lemma_listed(g.fused, s, k);
        assert(all[stale.len() + f.len() + x] == h[x]);
    }
    if s == slot && kgamma is Some {
        let x = lemma_listed(g.kgamma, s, k);
        assert(all[stale.len() + x] == f[x]);
    }
    if s == slot && drop {
        if decode is Some {
            let x = lemma_listed(g.decode, s, k);
            assert(all[x] == a[x]);
        }
        if verify2 is Some {
            let x = lemma_listed(g.verify2, s, k);
            assert(all[a.len() + x] == b[x]);
        }
        if verify3 is Some {
            let x = lemma_listed(g.verify3, s, k);
            assert(all[a.len() + b.len() + x] == c[x]);
        }
        if verify4 is Some {
            let x = lemma_listed(g.verify4, s, k);
            assert(all[a.len() + b.len() + c.len() + x] == d[x]);
        }
    }
}

proof fn lemma_listed(g: SlotGraphs, slot: usize, k: usize) -> (x: int)
    requires
        g.cached(slot, k) is Some,
    ensures
        0 <= x < graphs_in(g.rows(slot)).len(),
        graphs_in(g.rows(slot))[x] == g.cached(slot, k)->0,
{
    let rows = g.rows(slot);
    let x = choose|x: int| row_graph_at(rows, k, x);
    assert(row_graph_at(rows, k, x));
    x
}

/// A batched decode's graph that names the freed slot is destroyed exactly when the slot's other
/// graphs are, and every other one stays.
pub proof fn freed_slots_leave_no_batch_graph(
    seq: &mut SequenceState,
    max_slots: usize,
    any_layer_owns_state: bool,
    graphs: &mut EngineGraphs,
    r: FreePlan,
    i: int,
)
    requires
        call_ensures(free_sequence, (seq, max_slots, any_layer_owns_state, graphs), r),
        0 <= i < old(graphs).batch_decode.entries@.len(),
    ensures
        ({
            let was = old(graphs).batch_decode.entries@;
            let now = final(graphs).batch_decode.entries@;
            let owned = old(seq).slot_idx < max_slots && any_layer_owns_state;
            let names = was[i].key@.contains(old(seq).slot_idx as u32);
            &&& owned && names ==> r.destroy@.contains(was[i].graph)
            &&& !(owned && names) ==> exists|x: int|
                0 <= x < now.len() && (#[trigger] now[x]).key@ == was[i].key@ && now[x].graph
                    == was[i].graph && now[x].tick == was[i].tick
            &&& owned ==> forall|x: int|
                0 <= x < now.len() ==> !(#[trigger] now[x]).key@.contains(
                    old(seq).slot_idx as u32,
                )
        }),
{
    broadcast use vstd::seq_lib::group_filter_ensures;

    let g = *old(graphs);
    let slot = old(seq).slot_idx;
    let word = slot as u32;
    let m = g.batch_decode@;
    let drop = slot < max_slots && any_layer_owns_state;
    let now = final(graphs).batch_decode.entries@;
    let was = g.batch_decode.entries@;
    let out = |rec: GraphRecord| !rec.0.contains(word);
    let inn = |rec: GraphRecord| rec.0.contains(word);
    if drop {
        let a = graphs_in(g.decode.rows(slot));
        let b = graphs_in(g.verify2.rows(slot));
        let c = graphs_in(g.verify3.rows(slot));
        let d = graphs_in(g.verify4.rows(slot));
        let e = graphs_naming(m, word);
        assert forall|x: int| 0 <= x < now.len() implies !(#[trigger] now[x]).key@.contains(
            word,
        ) by {
            assert(final(graphs).batch_decode@[x] == m.filter(out)[x]);
            assert(out(m.filter(out)[x]));
        }
        if m[i].0.contains(word) {
            assert(inn(m[i]));
            assert(m.filter(inn).contains(m[i]));
            let x = choose|x: int| 0 <= x < m.filter(inn).len() && m.filter(inn)[x] == m[i];
            assert(e[x] == m[i].1);
            assert(r.destroy@[a.len() + b.len() + c.len() + d.len() + x] == e[x]);
        } else {
            assert(out(m[i]));
            assert(m.filter(out).contains(m[i]));
            let x = choose|x: int| 0 <= x < m.filter(out).len() && m.filter(out)[x] == m[i];
            assert(final(graphs).batch_decode@[x] == m[i]);
            assert(now[x].key@ == was[i].key@);
        }
    } else {
        assert(now[i].key@ == was[i].key@);
    }
}

} // verus!
