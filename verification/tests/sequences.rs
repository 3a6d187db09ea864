//! Sequence state: the window, retirement, moves, and the swap record.

use metrale_model_engine::graph_cache::SlotGraphs;
use metrale_model_engine::layers::LayerType;
use metrale_model_engine::sequence::{
    cache_sequence, free_sequence, layers_to_release, reclaim_wanted, reclaimed_blocks, take_slot,
    EngineGraphs, ReleaseOver,
};
use metrale_model_engine::sequence_compact::{
    compact_needed, compact_ownership, compact_repoint, detach_slot_for_reuse, LayerAddresses,
    SlotAction, SlotAddresses,
};
use metrale_model_engine::sequence_state::{
    DevicePtr, LayerState, SequenceState, SlotGuard, SsmLayerState, LENGTH_PENALTY_ONE_BITS,
};
use metrale_model_engine::state_io::{kv_sizes, read_pairs, ssm_sizes, write_pairs, BytePair};
use metrale_model_engine::verify_graphs::BatchGraphs;

fn graphs() -> EngineGraphs {
    EngineGraphs {
        decode: SlotGraphs::new(),
        verify2: SlotGraphs::new(),
        verify3: SlotGraphs::new(),
        verify4: SlotGraphs::new(),
        kgamma: SlotGraphs::new(),
        fused: SlotGraphs::new(),
        batch_decode: BatchGraphs::new(),
    }
}

fn ssm(base: u64, intermediates: usize) -> SsmLayerState {
    SsmLayerState {
        h_state: DevicePtr(base),
        conv_state: DevicePtr(base + 1),
        h_prefill_stage: None,
        h_state_checkpoint: None,
        conv_state_checkpoint: None,
        h_state_intermediates: (0..intermediates).map(|t| DevicePtr(base + 10 + t as u64)).collect(),
        conv_state_intermediates: (0..intermediates).map(|t| DevicePtr(base + 20 + t as u64)).collect(),
    }
}

#[test]
fn host_only_state_owns_nothing() {
    let s = SequenceState::host_only(7);
    assert_eq!(s.slot_idx, 7);
    assert_eq!(s.ssm_slot_idx(), None);
    assert_eq!(s.adapter_slot, -1);
    assert_eq!(s.acquired_adapter_slot, -1);
    assert_eq!(s.num_beams, 1);
    assert_eq!(f32::from_bits(s.length_penalty_bits), 1.0);
    assert_eq!(s.length_penalty_bits, LENGTH_PENALTY_ONE_BITS);
    assert!(s.tokens.is_empty() && s.block_table.is_empty() && s.disk_block_ids.is_empty());
    assert!(!s.prefix_lookup_applied && s.tail_checkpoint_tokens.is_none());
}

#[test]
fn blocks_outside_the_window_have_no_address() {
    let mut s = SequenceState::host_only(0);
    s.block_table = vec![10, 11, 12];
    assert_eq!(s.hss_window_start(), 0);
    assert_eq!(s.physical_block_for(2), Some(12));
    assert_eq!(s.physical_block_for(3), None);
    // Two logical blocks have left the window.
    s.disk_block_ids = vec![0, 1, 2, 3, 4];
    assert_eq!(s.hss_window_start(), 2);
    assert_eq!(s.physical_block_for(1), None);
    assert_eq!(s.physical_block_for(2), Some(10));
    assert_eq!(s.physical_block_for(4), Some(12));
    assert_eq!(s.physical_block_for(5), None);
    // Dropping the oldest entry keeps every other block's address.
    s.block_table.remove(0);
    assert_eq!(s.physical_block_for(2), None);
    assert_eq!(s.physical_block_for(3), Some(11));
    assert_eq!(s.physical_block_for(4), Some(12));
}

#[test]
fn a_sequence_is_cached_only_with_a_full_block_and_a_clean_prompt() {
    let mut s = SequenceState::host_only(0);
    s.tokens = vec![1; 16];
    s.block_table = vec![3];
    assert!(cache_sequence(&s, 16, true, false));
    assert!(!cache_sequence(&s, 17, true, false));
    assert!(!cache_sequence(&s, 16, false, false));
    assert!(!cache_sequence(&s, 16, true, true));
    s.disk_block_ids = vec![0, 1];
    assert!(!cache_sequence(&s, 16, true, false));
}

#[test]
fn reclaim_counts_only_what_became_free() {
    assert!(!reclaim_wanted(0, true));
    assert!(!reclaim_wanted(4, false));
    assert!(reclaim_wanted(4, true));
    assert_eq!(reclaimed_blocks(3, 7), 4);
    assert_eq!(reclaimed_blocks(7, 3), 0);
}

#[test]
fn freeing_releases_everything_once() {
    let mut s = SequenceState::host_only(2);
    s.ssm_slot = Some(SlotGuard { slot: Some(2) });
    s.acquired_adapter_slot = 5;
    s.tokens = vec![1, 2, 3];
    s.cached_prefix_tokens = 2;
    s.block_table = vec![8, 9];
    s.disk_block_ids = vec![4, 5, 6];
    s.disk_last_offloaded_per_layer = vec![3, 2];
    s.layer_states = vec![LayerState::Ssm(ssm(100, 2)), LayerState::Other];
    let mut g = graphs();
    g.decode.insert(2, 1, 70);
    g.decode.insert(3, 1, 71);
    g.verify3.insert(2, 3, 72);
    g.kgamma.insert(2, 5, 73);
    g.kgamma.insert(2, 6, 74);
    g.fused.insert(3, 5, 75);

    assert_eq!(take_slot(&mut s, 8), Some(2));
    assert_eq!(layers_to_release(&s, 1), 1);
    let plan = free_sequence(&mut s, 8, true, &mut g);
    assert_eq!(plan.release_adapter, Some(5));
    assert_eq!(plan.release_over, ReleaseOver::Tokens);
    assert_eq!(plan.free_blocks, vec![8, 9]);
    assert_eq!(plan.disk_refs, vec![4, 5, 6]);
    assert_eq!(plan.destroy, vec![70, 72, 73, 74]);
    assert_eq!(s.disk_last_offloaded_per_layer, vec![0, 0]);
    assert_eq!(s.acquired_adapter_slot, -1);
    match &s.layer_states[0] {
        LayerState::Ssm(x) => {
            assert!(x.h_state.is_null() && x.h_state_intermediates.is_empty());
        }
        LayerState::Other => panic!("the recurrent state is gone"),
    }
    assert_eq!(g.decode.get(2, 1), None);
    assert_eq!(g.decode.get(3, 1), Some(71));
    assert_eq!(g.fused.get(3, 5), Some(75));

    // Freed again, it releases nothing.
    assert_eq!(take_slot(&mut s, 8), None);
    let again = free_sequence(&mut s, 8, true, &mut g);
    assert_eq!(again.release_adapter, None);
    assert!(again.free_blocks.is_empty() && again.disk_refs.is_empty() && again.destroy.is_empty());
}

#[test]
fn a_failed_prefill_releases_over_the_stored_prefix() {
    let mut s = SequenceState::host_only(0);
    s.cached_prefix_tokens = 4;
    s.prefix_ref_tokens = vec![1, 2, 3, 4];
    let plan = free_sequence(&mut s, 8, false, &mut graphs());
    assert_eq!(plan.release_over, ReleaseOver::PrefixRefTokens);
}

#[test]
fn slot_graphs_stay_without_per_sequence_layer_state() {
    let mut s = SequenceState::host_only(2);
    let mut g = graphs();
    g.decode.insert(2, 1, 70);
    g.fused.insert(2, 4, 71);
    let plan = free_sequence(&mut s, 8, false, &mut g);
    assert_eq!(plan.destroy, vec![71]);
    assert_eq!(g.decode.get(2, 1), Some(70));
}

#[test]
fn a_taken_over_slot_is_not_released() {
    let mut s = SequenceState::host_only(2);
    s.ssm_slot = Some(SlotGuard { slot: Some(2) });
    detach_slot_for_reuse(&mut s);
    assert_eq!(s.slot_idx, usize::MAX);
    assert_eq!(s.ssm_slot_idx(), None);
    assert_eq!(take_slot(&mut s, 8), None);
}

#[test]
fn a_moved_sequence_points_at_its_new_slot_and_releases_it() {
    let mut s = SequenceState::host_only(2);
    s.ssm_slot = Some(SlotGuard { slot: Some(2) });
    let mut first = ssm(100, 2);
    first.h_state_checkpoint = Some(DevicePtr(7));
    s.layer_states = vec![LayerState::Other, LayerState::Ssm(first), LayerState::Ssm(ssm(300, 0))];
    let types = vec![
        LayerType::FullAttention,
        LayerType::LinearAttention,
        LayerType::LinearAttention,
    ];
    let layer = |base: u64| LayerAddresses {
        h_state: DevicePtr(base),
        conv_state: DevicePtr(base + 1),
        h_checkpoint: DevicePtr(base + 2),
        conv_checkpoint: DevicePtr(base + 3),
        h_intermediates: vec![DevicePtr(base + 4), DevicePtr(base + 5), DevicePtr(base + 6)],
        conv_intermediates: vec![DevicePtr(base + 7)],
    };
    let addrs = SlotAddresses {
        h_prefill_stage: Some(DevicePtr(55)),
        layers: vec![layer(1000), layer(2000)],
    };
    assert!(!compact_needed(&s, 2));
    assert!(compact_needed(&s, 4));
    compact_repoint(&mut s, &types, 4, &addrs, true);
    assert_eq!(s.slot_idx, 4);
    match &s.layer_states[1] {
        LayerState::Ssm(x) => {
            assert_eq!(x.h_state, DevicePtr(1000));
            assert_eq!(x.h_prefill_stage, Some(DevicePtr(55)));
            assert_eq!(x.h_state_checkpoint, Some(DevicePtr(1002)));
            assert_eq!(x.conv_state_checkpoint, None);
            assert_eq!(x.h_state_intermediates.len(), 3);
            assert_eq!(x.conv_state_intermediates, vec![DevicePtr(1007)]);
        }
        LayerState::Other => panic!("the recurrent state is gone"),
    }
    match &s.layer_states[2] {
        LayerState::Ssm(x) => {
            assert_eq!(x.h_state, DevicePtr(2000));
            assert!(x.h_state_intermediates.is_empty());
        }
        LayerState::Other => panic!("the recurrent state is gone"),
    }
    let actions = compact_ownership(&mut s, 2, 4);
    assert_eq!(actions, vec![SlotAction::Claim(4), SlotAction::Release(2)]);
    assert_eq!(take_slot(&mut s, 8), Some(4));
}

#[test]
fn a_swap_record_reads_back_what_was_written() {
    let kv = vec![
        BytePair { first: vec![1, 2, 3], second: vec![4, 5, 6] },
        BytePair { first: vec![7], second: vec![8] },
        BytePair { first: vec![9, 10, 11], second: vec![12, 13, 14] },
        BytePair { first: vec![15], second: vec![16] },
    ];
    let states = vec![BytePair { first: vec![17, 18], second: vec![19] }];
    let mut record = Vec::new();
    write_pairs(&mut record, &kv);
    write_pairs(&mut record, &states);
    assert_eq!(record, (1u8..=19).collect::<Vec<u8>>());

    let sizes = kv_sizes(&vec![3, 1], 2);
    assert_eq!(sizes, vec![(3, 3), (1, 1), (3, 3), (1, 1)]);
    let (back, end) = read_pairs(&record, 0, &sizes).unwrap();
    assert_eq!(end, 16);
    for (a, b) in back.iter().zip(&kv) {
        assert_eq!(a.first, b.first);
        assert_eq!(a.second, b.second);
    }
    let (back, end) = read_pairs(&record, 16, &ssm_sizes(1, 2, 1)).unwrap();
    assert_eq!(end, record.len());
    assert_eq!(back[0].first, vec![17, 18]);
    assert_eq!(back[0].second, vec![19]);
    // A record that ends too soon is refused.
    assert!(read_pairs(&record[..15], 0, &sizes).is_none());
    assert!(read_pairs(&record, 17, &ssm_sizes(1, 2, 1)).is_none());
}
