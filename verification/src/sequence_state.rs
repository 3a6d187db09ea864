//! One sequence's state across prefill and decode.

use vstd::prelude::*;

verus! {

/// An address in device memory. `DevicePtr(0)` is the null pointer.
#[derive(Clone, Copy, Debug, PartialEq, Eq, Structural)]
pub struct DevicePtr(pub u64);

impl DevicePtr {
    /// Whether this is the null pointer.
    pub fn is_null(&self) -> (r: bool)
        ensures
            r == (self.0 == 0),
    {
        self.0 == 0
    }
}

/// Ownership of one recurrent-state pool slot. Whoever takes the index out of the guard has to
/// release it, so an index is released once.
pub struct SlotGuard {
    pub slot: Option<usize>,
}

impl SlotGuard {
    /// The slot the guard owns.
    pub fn idx(&self) -> (r: Option<usize>)
        ensures
            r == self.slot,
    {
        self.slot
    }

    /// Take the owned index out, leaving the guard empty.
    pub fn take(&mut self) -> (r: Option<usize>)
        ensures
            r == old(self).slot,
            final(self).slot is None,
    {
        let owned = self.slot;
        self.slot = None;
        owned
    }

    /// Point the guard at another slot.
    pub fn migrate(&mut self, new_slot: usize)
        ensures
            final(self).slot == Some(new_slot),
    {
        self.slot = Some(new_slot);
    }
}

/// Recurrent state of one linear-attention layer: addresses in the state pool.
pub struct SsmLayerState {
    pub h_state: DevicePtr,
    pub conv_state: DevicePtr,
    pub h_prefill_stage: Option<DevicePtr>,
    pub h_state_checkpoint: Option<DevicePtr>,
    pub conv_state_checkpoint: Option<DevicePtr>,
    /// Entry `t` holds the state after verify row `t`.
    pub h_state_intermediates: Vec<DevicePtr>,
    pub conv_state_intermediates: Vec<DevicePtr>,
}

/// Per-layer state of a sequence.
pub enum LayerState {
    Ssm(SsmLayerState),
    /// Any state without recurrent-pool addresses.
    Other,
}

/// Device copies of the paged-attention metadata of a chunked prefill, kept across chunks so
/// each chunk uploads only the block-table entries it added.
pub struct ChunkedPrefillPageMetadata {
    /// The block table as 32-bit entries.
    pub block_table: DevicePtr,
    /// The running sequence length, one `u32`.
    pub seq_len: DevicePtr,
    /// Block-table entries allocated, sized for the whole prompt.
    pub block_capacity: usize,
    /// Block-table entries already uploaded.
    pub uploaded_blocks: usize,
}

/// One sequence's state across prefill and decode.
pub struct SequenceState {
    /// Prompt and generated token ids processed so far.
    pub tokens: Vec<u32>,
    /// Physical KV blocks of the paged cache, in logical order.
    pub block_table: Vec<u32>,
    pub seq_len: usize,
    pub layer_states: Vec<LayerState>,
    /// Handle of the draft proposer's per-sequence state; `None` without a proposer.
    pub proposer_state: Option<u64>,
    /// Pool slot of this sequence. Compaction moves it, and detaching sets it to `usize::MAX`.
    pub slot_idx: usize,
    /// Ownership of the recurrent-state pool slot; `None` for models without such a pool.
    pub ssm_slot: Option<SlotGuard>,
    /// Prompt position covered by the restored snapshot and cached KV, set by the chunk-0 prefix
    /// lookup and returned again when that lookup is replayed.
    pub marconi_skip_to: usize,
    /// Snapshot slot when the whole prompt matched a snapshot.
    pub marconi_exact_snap: Option<usize>,
    /// Session identity; `0` skips the session check of a snapshot.
    pub session_hash: u64,
    /// This sequence's claim on the shared whole-prompt hidden capture; `0` means it never owned
    /// one.
    pub mtp_capture_gen: u64,
    /// This sequence's ticket for the shared hidden-row interval; `0` matches no owner.
    pub mtp_store_gen: u64,
    /// Prefix-cache namespace of the sequence's adapter; `0` is the base model.
    pub adapter_id: u64,
    /// Paged metadata for chunked prefill, allocated by the first chunk that needs it.
    pub chunked_prefill_meta: Option<ChunkedPrefillPageMetadata>,
    /// Prompt tokens matched by the chunk-0 prefix-cache lookup.
    pub cached_prefix_tokens: usize,
    /// Prompt tokens whose KV was read from the prefix cache instead of recomputed.
    pub reused_prefix_tokens: usize,
    /// Number of `block_table` entries that came from the prefix-cache lookup.
    pub cached_prefix_blocks: usize,
    /// The matched prefix tokens, stored at lookup; empty when nothing matched.
    pub prefix_ref_tokens: Vec<u32>,
    /// Whether the chunk-0 prefix lookup has run for this sequence.
    pub prefix_lookup_applied: bool,
    /// The skip result of the chunk-0 lookup, returned again on a replay.
    pub prefix_lookup_skip: bool,
    /// Token count of a checkpoint near the prompt's end that the snapshot pool holds for this
    /// sequence.
    pub tail_checkpoint_tokens: Option<usize>,
    /// Length of the prefix, from position 0, whose paged KV this sequence has written or
    /// validly reused.
    pub kv_valid_tokens: usize,
    /// Block index of the latest decode-time checkpoint, so a boundary is not saved twice. Prefill
    /// sets it to the prompt's block count.
    pub last_decode_ckpt_block: usize,
    /// Prompt length, set by prefill.
    pub prompt_len: usize,
    /// Disk block ids, one per logical block the sequence has had, in order. Empty without the
    /// disk tier.
    pub disk_block_ids: Vec<u32>,
    /// For each attention layer, how many `disk_block_ids` entries it has offloaded.
    pub disk_last_offloaded_per_layer: Vec<u32>,
    /// `Some(k)` makes prefill score every prompt position with its top-`k` alternatives.
    pub collect_prompt_logprobs: Option<u8>,
    /// The adapter pool slot this sequence's requests select; `-1` selects the active adapter.
    pub adapter_slot: i32,
    /// The adapter pool slot this sequence holds a reference on; `-1` when none.
    pub acquired_adapter_slot: i32,
    /// Source-language token id; `0` uses the deployment default.
    pub src_lang_id: u32,
    /// Target-language token id; `0` uses the deployment default.
    pub tgt_lang_id: u32,
    /// Beam count; `1` turns beam search off.
    pub num_beams: u32,
    /// The bit pattern of the single-precision length penalty.
    pub length_penalty_bits: u32,
    /// Whether beam search stops once `num_beams` hypotheses have finished.
    pub early_stopping: bool,
}

/// The bit pattern of the single-precision number one.
pub const LENGTH_PENALTY_ONE_BITS: u32 = 0x3f80_0000;

/// Logical block index of the first entry of a block table of `table_len` entries when
/// `disk_len` logical blocks have been seen.
pub open spec fn window_start(table_len: nat, disk_len: nat) -> nat {
    if disk_len > table_len {
        (disk_len - table_len) as nat
    } else {
        0
    }
}

/// The physical block behind logical block `abs`, if it is in the window.
pub open spec fn physical_block(table: Seq<u32>, disk_len: nat, abs: int) -> Option<u32> {
    let ws = window_start(table.len(), disk_len);
    if ws <= abs < ws + table.len() {
        Some(table[abs - ws])
    } else {
        None
    }
}

impl SequenceState {
    /// A host-only sequence state: no device resources, no pool slot, no layer states, every
    /// counter zeroed.
    pub fn host_only(slot_idx: usize) -> (r: SequenceState)
        ensures
            r.slot_idx == slot_idx,
            r.tokens@.len() == 0,
            r.block_table@.len() == 0,
            r.seq_len == 0,
            r.layer_states@.len() == 0,
            r.proposer_state is None,
            r.ssm_slot is None,
            r.marconi_skip_to == 0,
            r.marconi_exact_snap is None,
            r.session_hash == 0,
            r.mtp_capture_gen == 0,
            r.mtp_store_gen == 0,
            r.adapter_id == 0,
            r.chunked_prefill_meta is None,
            r.cached_prefix_tokens == 0,
            r.reused_prefix_tokens == 0,
            r.cached_prefix_blocks == 0,
            r.prefix_ref_tokens@.len() == 0,
            !r.prefix_lookup_applied,
            !r.prefix_lookup_skip,
            r.tail_checkpoint_tokens is None,
            r.kv_valid_tokens == 0,
            r.last_decode_ckpt_block == 0,
            r.prompt_len == 0,
            r.disk_block_ids@.len() == 0,
            r.disk_last_offloaded_per_layer@.len() == 0,
            r.collect_prompt_logprobs is None,
            r.adapter_slot == -1,
            r.acquired_adapter_slot == -1,
            r.src_lang_id == 0,
            r.tgt_lang_id == 0,
            r.num_beams == 1,
            r.length_penalty_bits == LENGTH_PENALTY_ONE_BITS,
            !r.early_stopping,
    {
        SequenceState {
            tokens: Vec::new(),
            block_table: Vec::new(),
            seq_len: 0,
            layer_states: Vec::new(),
            proposer_state: None,
            slot_idx,
            ssm_slot: None,
            marconi_skip_to: 0,
            marconi_exact_snap: None,
            session_hash: 0,
            mtp_capture_gen: 0,
            mtp_store_gen: 0,
            adapter_id: 0,
            chunked_prefill_meta: None,
            cached_prefix_tokens: 0,
            reused_prefix_tokens: 0,
            cached_prefix_blocks: 0,
            prefix_ref_tokens: Vec::new(),
            prefix_lookup_applied: false,
            prefix_lookup_skip: false,
            tail_checkpoint_tokens: None,
            kv_valid_tokens: 0,
            last_decode_ckpt_block: 0,
            prompt_len: 0,
            disk_block_ids: Vec::new(),
            disk_last_offloaded_per_layer: Vec::new(),
            collect_prompt_logprobs: None,
            adapter_slot: -1,
            acquired_adapter_slot: -1,
            src_lang_id: 0,
            tgt_lang_id: 0,
            num_beams: 1,
            length_penalty_bits: LENGTH_PENALTY_ONE_BITS,
            early_stopping: false,
        }
    }

    /// Logical block index of `block_table[0]`.
    pub open spec fn window(&self) -> nat {
        window_start(self.block_table@.len(), self.disk_block_ids@.len())
    }

    /// The physical block behind logical block `abs`, if it is in the window.
    pub open spec fn block_at(&self, abs: int) -> Option<u32> {
        physical_block(self.block_table@, self.disk_block_ids@.len(), abs)
    }

    /// The pool slot the guard owns.
    pub open spec fn slot(&self) -> Option<usize> {
        match self.ssm_slot {
            Some(g) => g.slot,
            None => None,
        }
    }

    /// The recurrent-state pool slot this sequence holds, or `None` without one.
    pub fn ssm_slot_idx(&self) -> (r: Option<usize>)
        ensures
            r == self.slot(),
    {
        match &self.ssm_slot {
            Some(g) => g.idx(),
            None => None,
        }
    }

    /// Logical block index of `block_table[0]`: `disk_block_ids.len()` minus
    /// `block_table.len()`, saturating.
    pub fn hss_window_start(&self) -> (r: usize)
        ensures
            r == self.window(),
    {
        let disk_len: usize = self.disk_block_ids.len();
        let table_len: usize = self.block_table.len();
        disk_len.saturating_sub(table_len)
    }

    /// Physical block of a logical block index, or `None` when that block has left the window or
    /// is past the end of `block_table`.
    pub fn physical_block_for(&self, abs_block_idx: usize) -> (r: Option<u32>)
        ensures
            r == self.block_at(abs_block_idx as int),
    {
        let ws: usize = self.hss_window_start();
        if abs_block_idx < ws {
            return None;
        }
        let at: usize = abs_block_idx - ws;
        if at < self.block_table.len() {
            Some(self.block_table[at])
        } else {
            None
        }
    }
}

/// Sliding the window keeps the address of every block that stays: dropping the oldest table
/// entry, with its disk id kept, leaves every later logical block at the same physical block and
/// the dropped one without an address.
pub proof fn window_slide_keeps_addresses(table: Seq<u32>, disk_len: nat, abs: int)
    requires
        0 < table.len() <= disk_len,
    ensures
        abs != window_start(table.len(), disk_len) ==> physical_block(
            table.subrange(1, table.len() as int),
            disk_len,
            abs,
        ) == physical_block(table, disk_len, abs),
        physical_block(
            table.subrange(1, table.len() as int),
            disk_len,
            window_start(table.len(), disk_len) as int,
        ) is None,
{
}

/// A logical block is found exactly while it is in the window: the table's last entry is the
/// newest logical block, each earlier entry the one before, and with fewer disk ids than table
/// entries the table starts at block zero.
pub proof fn blocks_are_found_by_their_place(seq: &SequenceState, abs: usize, r: Option<u32>)
    requires
        call_ensures(SequenceState::physical_block_for, (seq, abs), r),
    ensures
        ({
            let table = seq.block_table@;
            let seen = seq.disk_block_ids@.len() as int;
            let newest = if seen > table.len() {
                seen
            } else {
                table.len() as int
            };
            &&& r is Some <==> newest - table.len() <= abs < newest
            &&& r matches Some(block) ==> block == table[table.len() - (newest - abs)]
        }),
{
}

/// The window starts after the blocks that have left it, as many as there are more disk ids than
/// table entries.
pub proof fn windows_start_after_what_left(seq: &SequenceState, r: usize)
    requires
        call_ensures(SequenceState::hss_window_start, (seq,), r),
    ensures
        seq.disk_block_ids@.len() >= seq.block_table@.len() ==> r + seq.block_table@.len()
            == seq.disk_block_ids@.len(),
        seq.disk_block_ids@.len() <= seq.block_table@.len() ==> r == 0,
{
}

/// A guard owns its slot until the slot is taken out or the guard is pointed elsewhere; a sequence
/// holds the slot its guard owns.
pub proof fn guards_own_one_slot(
    g: &mut SlotGuard,
    taken: Option<usize>,
    g2: &mut SlotGuard,
    new_slot: usize,
    seq: &SequenceState,
    held: Option<usize>,
    idx: Option<usize>,
)
    requires
        call_ensures(SlotGuard::take, (g,), taken),
        call_ensures(SlotGuard::migrate, (g2, new_slot), ()),
        call_ensures(SequenceState::ssm_slot_idx, (seq,), held),
        call_ensures(SlotGuard::idx, (old(g),), idx),
    ensures
        taken == old(g).slot,
        final(g).slot is None,
        idx == old(g).slot,
        final(g2).slot == Some(new_slot),
        held == (match seq.ssm_slot {
            Some(x) => x.slot,
            None => None,
        }),
{
}

/// A new sequence holds nothing, has seen nothing and selects the defaults; only its slot number
/// is given. An address is null exactly when it is zero.
pub proof fn new_sequences_hold_nothing(slot_idx: usize, r: SequenceState, p: &DevicePtr, null: bool)
    requires
        call_ensures(SequenceState::host_only, (slot_idx,), r),
        call_ensures(DevicePtr::is_null, (p,), null),
    ensures
        r.slot_idx == slot_idx,
        r.tokens@.len() == 0 && r.seq_len == 0 && r.prompt_len == 0,
        r.block_table@.len() == 0 && r.disk_block_ids@.len() == 0,
        r.layer_states@.len() == 0 && r.ssm_slot is None && r.proposer_state is None,
        r.cached_prefix_tokens == 0 && r.prefix_ref_tokens@.len() == 0 && r.kv_valid_tokens == 0,
        !r.prefix_lookup_applied && !r.prefix_lookup_skip && r.marconi_skip_to == 0,
        r.adapter_slot == -1 && r.acquired_adapter_slot == -1 && r.adapter_id == 0,
        r.num_beams == 1 && r.length_penalty_bits == 0x3f80_0000 && !r.early_stopping,
        null <==> p.0 == 0,
{
}

} // verus!
