//! Prefill of several streams: dispatch, setup, stacking, recurrent layers and the step order.

use metrale_model_engine::batch::{
    after_kernel, batch_route, batched_enabled, commit_chunk, isolate_failures,
    logits_row_base, row_shift_disabled, AfterKernel, BatchRoute, KernelOutcome,
};
use metrale_model_engine::batch_eligible::{effective_len, embed_skip, scratch_request, ScratchRequest};
use metrale_model_engine::batch_kernel::{
    batch_blocks_needed, block_uses, kv_preflight, shared_uses, slot_uses, stream_end,
    uploads_pages, zero_rule, BatchSetup, Preflight, SetupError, SharedUse, StreamEnd, StreamNeed,
    StreamRange, StreamUpload, ZeroRule,
};
use metrale_model_engine::batched_layer::{
    gdn_route, gdn_slice, kernel_layer_steps, segments, uniform_lengths, GdnRoute,
    KernelLayerStep, Segment, VarlenExtents,
};
use metrale_model_engine::h_state_ptrs::{
    narrow_h_state_stages, stage_h_state_ptrs, Convert, HStateError,
};
use metrale_model_engine::phases::{
    chunk_next, kernel_next, twophase_next, ChunkFacts, ChunkPhase, KernelPhase, KernelStep,
    TwophaseFacts, TwophasePhase,
};
use metrale_model_engine::prefill_slice::{
    kernel_batched_eligible, stream_needs, stream_shapes, PrefillSlice,
};
use metrale_model_engine::proc_range::ProcRange;
use metrale_model_engine::sequence_state::{
    DevicePtr, LayerState, SequenceState, SlotGuard, SsmLayerState,
};
use metrale_model_engine::stage_batched::{stage_batched, staged_layout, StageError, StreamStage};
use metrale_model_engine::verify_ssm::SsmDims;

#[test]
fn the_switch_words_are_read_in_any_case() {
    for word in ["1", "true", "TRUE", "tRuE"] {
        assert!(row_shift_disabled(Some(word)));
    }
    for word in ["0", "", "yes", "truee", "11"] {
        assert!(!row_shift_disabled(Some(word)));
    }
    assert!(!row_shift_disabled(None));
    for word in ["0", "false", "FALSE", "fAlSe"] {
        assert!(!batched_enabled(Some(word)));
    }
    for word in ["1", "", "no", "00"] {
        assert!(batched_enabled(Some(word)));
    }
    assert!(batched_enabled(None));
}

#[test]
fn logits_rows_shift_only_within_the_buffer() {
    // Ten rows of a hundred logits, two bytes each.
    assert_eq!(logits_row_base(3, 7, false, 2000, 100), 7);
    assert_eq!(logits_row_base(4, 7, false, 2000, 100), 0);
    assert_eq!(logits_row_base(3, 7, true, 2000, 100), 0);
    assert_eq!(logits_row_base(3, usize::MAX, false, 2000, 100), 0);
}

#[test]
fn a_step_takes_the_route_its_chunks_allow() {
    assert_eq!(batch_route(&[], 0, 8, true, true), BatchRoute::Empty);
    assert_eq!(batch_route(&[9], 0, 8, true, true), BatchRoute::Single);
    assert_eq!(batch_route(&[4], 1, 8, true, true), BatchRoute::Kernel);
    assert_eq!(
        batch_route(&[4, 9, 10], 0, 8, true, true),
        BatchRoute::TooLong { stream: 1, chunk_len: 9 }
    );
    assert_eq!(batch_route(&[4, 8], 0, 8, true, true), BatchRoute::Kernel);
    assert_eq!(batch_route(&[4, 8], 0, 8, false, true), BatchRoute::PerStream);
    assert_eq!(batch_route(&[4, 8], 0, 8, true, false), BatchRoute::PerStream);
    assert_eq!(after_kernel(KernelOutcome::Completed), AfterKernel::Return);
    assert_eq!(after_kernel(KernelOutcome::NotAdmitted), AfterKernel::PerStream);
    assert_eq!(after_kernel(KernelOutcome::Failed), AfterKernel::Fail);
    let outcomes = vec![Some(DevicePtr(5)), None, Some(DevicePtr(7))];
    assert_eq!(isolate_failures(&outcomes), vec![DevicePtr(5), DevicePtr(0), DevicePtr(7)]);
}

#[test]
fn chunks_leave_exactly_the_prompt() {
    let prompt = [1, 2, 3, 4, 5];
    let mut s = SequenceState::host_only(0);
    commit_chunk(&mut s, &prompt, 0, 2, 2);
    assert_eq!((s.tokens.clone(), s.seq_len, s.last_decode_ckpt_block), (vec![1, 2], 2, 1));
    commit_chunk(&mut s, &prompt, 2, 3, 2);
    assert_eq!((s.tokens.clone(), s.seq_len, s.last_decode_ckpt_block), (prompt.to_vec(), 5, 2));
}

#[test]
fn warm_streams_are_charged_for_what_they_process() {
    assert_eq!(effective_len(false, 100, 0, true, 100), 100);
    assert_eq!(effective_len(true, 100, 0, false, 60), 40);
    assert_eq!(effective_len(true, 100, 0, true, 100), 1);
    assert_eq!(effective_len(true, 100, 0, false, 100), 0);
    assert_eq!(effective_len(true, 100, 200, true, 60), 100);
    assert_eq!(embed_skip(true, 260, 200, 100), 60);
    assert_eq!(embed_skip(true, 999, 200, 100), 100);
    assert_eq!(embed_skip(false, 999, 200, 100), 0);
}

#[test]
fn a_batch_counts_the_blocks_it_lacks() {
    let need = |chunk_start, chunk_len, blocks, matched_tokens| StreamNeed {
        chunk_start,
        chunk_len,
        blocks,
        matched_tokens,
    };
    // Three blocks through token 33; one is there and one matched.
    assert_eq!(batch_blocks_needed(&[need(0, 33, 1, 20)], 16), Some(1));
    assert_eq!(batch_blocks_needed(&[need(0, 33, 9, 0)], 16), Some(0));
    assert_eq!(batch_blocks_needed(&[need(0, 32, 0, 0), need(32, 1, 2, 0)], 16), Some(3));
    assert_eq!(batch_blocks_needed(&[], 16), Some(0));
    // A stream that has more than it could ever need lacks nothing.
    assert_eq!(batch_blocks_needed(&[need(0, 33, usize::MAX, 20)], 16), Some(0));
    assert_eq!(batch_blocks_needed(&[need(usize::MAX, 1, 0, 0)], 16), None);
    let whole = need(0, usize::MAX, 0, 0);
    assert_eq!(batch_blocks_needed(&[whole], 1), Some(usize::MAX));
    assert_eq!(batch_blocks_needed(&[whole, need(0, 1, 0, 0)], 1), None);
    assert_eq!(kv_preflight(5, 5, false), Preflight::Admit);
    assert_eq!(kv_preflight(3, 5, false), Preflight::Evict { short: 2 });
    assert_eq!(kv_preflight(3, 5, true), Preflight::Decline);
    assert_eq!(zero_rule(true, 0), ZeroRule::All);
    assert_eq!(zero_rule(false, 0), ZeroRule::Essentials);
    assert_eq!(zero_rule(false, 16), ZeroRule::Keep);
    assert!(uploads_pages(true, 16, false, false));
    assert!(uploads_pages(false, 0, true, false));
    assert!(uploads_pages(false, 0, false, true));
    assert!(!uploads_pages(false, 16, true, true));
}

fn range(start: usize, count: usize) -> ProcRange {
    ProcRange::Compute { proc_start: start, proc_count: count, effective_seq_len_start: start }
}

fn upload(use_mrope: bool, needs_paged: bool) -> StreamUpload {
    StreamUpload {
        chunk_start: 0,
        kv_write_start: 6,
        marconi_skip: false,
        use_mrope,
        needs_paged,
        block_table_dev: DevicePtr(1),
        seq_len_dev: DevicePtr(2),
        num_blocks: 3,
    }
}

#[test]
fn streams_are_packed_one_after_another() {
    let mut b = BatchSetup::start(2, 300, 200, true, 2, 400);
    // Routing of 300 tokens, two experts, eight bytes: 4800, a multiple of 64.
    assert_eq!((b.meta_start, b.meta_bytes, b.cursor), (4800, 4096, 4800));
    let r = b.check_range(&range(0, 100)).unwrap();
    assert_eq!(b.take_stream(r, upload(false, false)), Ok(()));
    let r = b.check_range(&range(0, 200)).unwrap();
    let skipped = StreamUpload { marconi_skip: true, ..upload(false, false) };
    assert_eq!(b.take_stream(r, skipped), Ok(()));
    assert_eq!((b.streams[0].proc_off, b.streams[1].proc_off), (0, 100));
    assert_eq!((b.streams[0].kv_write_start_eff, b.streams[1].kv_write_start_eff), (6, 0));
    assert_eq!(b.total_len(), 300);
    assert_eq!(b.cursor, 4800 + 2 * 4096);
    assert_eq!(b.pointer_offset(1000, 20_000), Ok(13_992));
    assert_eq!(b.pointer_offset(1000, 14_008), Ok(13_992));
    assert_eq!(
        b.pointer_offset(1000, 14_007),
        Err(SetupError::Scratch { projected: 14_008 })
    );
    let wide = BatchSetup::start(3, 0, 1000, false, 1, 400);
    assert_eq!((wide.meta_start, wide.meta_bytes), (24_000, 16_064));
}

#[test]
fn a_stream_that_differs_fails_the_batch() {
    let mut b = BatchSetup::start(3, 300, 100, false, 2, 150);
    assert_eq!(
        b.check_range(&ProcRange::EarlyReturn),
        Err(SetupError::EarlyReturn { stream: 0 })
    );
    let r = b.check_range(&range(8, 100)).unwrap();
    assert_eq!(b.take_stream(r, upload(true, true)), Ok(()));
    assert_eq!(b.check_range(&range(8, 99)), Err(SetupError::ProcCount { stream: 1 }));
    assert_eq!(b.check_range(&range(9, 100)), Err(SetupError::SeqStart { stream: 1 }));
    let r = b.check_range(&range(8, 100)).unwrap();
    assert_eq!(b.take_stream(r, upload(false, true)), Err(SetupError::Mrope { stream: 1 }));
    assert_eq!(b.take_stream(r, upload(true, false)), Err(SetupError::Paged { stream: 1 }));
    assert_eq!(b.take_stream(r, upload(true, true)), Err(SetupError::Arena { stream: 1 }));
    assert_eq!(b.streams.len(), 1);
    assert_eq!(r, StreamRange { proc_start: 8, proc_count: 100, effective_seq_len_start: 8 });
}

#[test]
fn shared_blocks_and_slots_are_reported() {
    let mut a = SequenceState::host_only(0);
    a.block_table = vec![5, 6];
    a.ssm_slot = Some(SlotGuard { slot: Some(3) });
    let mut b = SequenceState::host_only(0);
    b.block_table = vec![7, 6, 5];
    let mut c = SequenceState::host_only(0);
    c.ssm_slot = Some(SlotGuard { slot: Some(3) });
    let seqs = vec![&a, &b, &c];
    assert_eq!(
        shared_uses(&block_uses(&seqs)),
        vec![
            SharedUse { id: 6, first: 0, second: 1 },
            SharedUse { id: 5, first: 0, second: 1 },
        ]
    );
    let slots = shared_uses(&slot_uses(&seqs));
    assert_eq!(slots, vec![SharedUse { id: 3, first: 0, second: 2 }]);
    assert!(shared_uses(&block_uses(&vec![&a, &c])).is_empty());
}

fn stage(start: usize, count: usize, blocks: usize) -> StreamStage {
    StreamStage {
        proc_start: start,
        proc_count: count,
        block_table_dev: DevicePtr(start as u64 + 100),
        seq_len_dev: DevicePtr(start as u64 + 200),
        num_blocks: blocks,
    }
}

#[test]
fn stacked_arrays_follow_each_other() {
    let l = staged_layout(2, 5, true);
    assert_eq!((l.positions_h, l.positions_w, l.slots), (24, 48, 72));
    assert_eq!((l.block_ptrs, l.seq_len_ptrs, l.cu_seqlens), (112, 128, 144));
    assert_eq!((l.kv_lens, l.staged_bytes), (160, 168));
    let l = staged_layout(2, 5, false);
    assert_eq!((l.positions_h, l.positions_w, l.slots), (0, 0, 24));

    let mut a = SequenceState::host_only(0);
    a.block_table = vec![4];
    let b = SequenceState::host_only(0);
    let infos = vec![stage(0, 2, 1), stage(7, 3, 6)];
    let staged = stage_batched(&infos, &vec![&a, &b], false, 0, 120, 120, 2, 9).unwrap();
    assert_eq!(staged.positions, vec![0, 1, 7, 8, 9]);
    assert_eq!(staged.slots, vec![8, 9, 19, 18, 19]);
    assert_eq!(staged.block_table_ptrs, vec![100, 107]);
    assert_eq!(staged.seq_len_ptrs, vec![200, 207]);
    assert_eq!(staged.cu_seqlens, vec![0, 2, 5]);
    assert_eq!(staged.kv_lens, vec![2, 10]);
    assert_eq!((staged.total_tokens, staged.chunk_len, staged.max_blocks), (5, 3, 6));
    let error = |scratch, staging| {
        stage_batched(&infos, &vec![&a, &b], false, 8, scratch, staging, 2, 9).err()
    };
    assert_eq!(error(128, 120), None);
    assert_eq!(error(127, 120), Some(StageError::ScratchTooSmall { staged_bytes: 120 }));
    assert_eq!(error(128, 119), Some(StageError::StagingTooSmall { staged_bytes: 120 }));
    let none = stage_batched(&Vec::new(), &Vec::new(), false, 0, 9, 9, 2, 9);
    assert_eq!(none.err(), Some(StageError::Empty));
}

#[test]
fn a_recurrence_is_one_call_when_it_can_be() {
    let cu = vec![0, 64, 129];
    assert_eq!(segments(&cu), vec![Segment { off: 0, len: 64 }, Segment { off: 64, len: 65 }]);
    assert!(!uniform_lengths(&cu));
    assert!(uniform_lengths(&vec![0, 5, 10]));
    assert_eq!(gdn_route(&vec![0, 5, 10]), GdnRoute::Batched { streams: 2, len: 5 });
    let extents = VarlenExtents { total_tiles: 3, max_tiles: 2, max_len: 65 };
    assert_eq!(gdn_route(&cu), GdnRoute::Varlen { streams: 2, extents });
    let d = SsmDims { key_heads: 2, key_dim: 3, value_heads: 4, value_dim: 5, conv_kernel: 4 };
    let g = gdn_slice(&d, &Segment { off: 10, len: 7 }, 17);
    assert_eq!((g.qkv, g.gate_beta), (10 * 32 * 2, 10 * 8 * 4));
    assert_eq!((g.output, g.z, g.total_len), (400, 400, 7));
}

fn recurrent(h: u64, stage: Option<u64>) -> SequenceState {
    let mut s = SequenceState::host_only(0);
    s.layer_states = vec![LayerState::Ssm(SsmLayerState {
        h_state: DevicePtr(h),
        conv_state: DevicePtr(0),
        h_prefill_stage: stage.map(DevicePtr),
        h_state_checkpoint: None,
        conv_state_checkpoint: None,
        h_state_intermediates: Vec::new(),
        conv_state_intermediates: Vec::new(),
    })];
    s
}

#[test]
fn half_width_states_are_widened_and_narrowed_back() {
    let (a, b) = (recurrent(10, Some(11)), recurrent(20, None));
    let seqs = vec![&a, &b];
    let staged = stage_h_state_ptrs(&seqs, 0, true);
    assert_eq!(staged.error, None);
    assert_eq!(staged.ptrs, vec![11, 20]);
    let widened = Convert { src: DevicePtr(10), dst: DevicePtr(11) };
    assert_eq!(staged.widen, vec![widened]);
    let no_kernel = stage_h_state_ptrs(&vec![&b, &a], 0, false);
    assert_eq!(no_kernel.error, Some(HStateError::NoKernel { stream: 1 }));
    assert_eq!(no_kernel.ptrs, vec![20]);
    assert_eq!(stage_h_state_ptrs(&Vec::new(), 0, true).error, Some(HStateError::NoStreams));
    let mut other = SequenceState::host_only(0);
    other.layer_states = vec![LayerState::Other];
    let foreign = stage_h_state_ptrs(&vec![&a, &other], 0, true);
    assert_eq!(foreign.error, Some(HStateError::NotSsm { stream: 1 }));

    let back = narrow_h_state_stages(true, &vec![&a], 0, true);
    assert_eq!(back.narrow, vec![Convert { src: widened.dst, dst: widened.src }]);
    assert_eq!(back.error, None);
    assert!(narrow_h_state_stages(false, &seqs, 0, true).narrow.is_empty());
    let missing = narrow_h_state_stages(true, &seqs, 0, true);
    assert_eq!(missing.error, Some(HStateError::NoStage { stream: 1 }));
    assert_eq!(missing.narrow.len(), 1);
    let no_kernel = narrow_h_state_stages(true, &vec![&a], 0, false);
    assert_eq!(no_kernel.error, Some(HStateError::NoKernel { stream: 0 }));
    let foreign = narrow_h_state_stages(true, &vec![&other], 0, true);
    assert_eq!(foreign.error, Some(HStateError::NotSsm { stream: 0 }));
}

#[test]
fn only_a_last_chunk_is_finalized() {
    assert_eq!(stream_end(true, 7, 0), StreamEnd::Finalize { row: 7 });
    assert_eq!(stream_end(true, 7, 2), StreamEnd::Finalize { row: 9 });
    assert_eq!(stream_end(false, 7, 2), StreamEnd::Checkpoint);
    assert_eq!(stream_end(false, usize::MAX, 2), StreamEnd::Checkpoint);
}

#[test]
fn a_kernel_batch_runs_each_layer_once_over_all_streams() {
    let steps = kernel_layer_steps(&vec![false, true], &vec![0, 3, 10], 16);
    assert_eq!(
        steps,
        vec![
            KernelLayerStep::Attention { layer: 0, rows: 10, start: 16 },
            KernelLayerStep::Project { layer: 1, rows: 10 },
            KernelLayerStep::Conv { layer: 1, stream: 0, off: 0, len: 3 },
            KernelLayerStep::Conv { layer: 1, stream: 1, off: 3, len: 7 },
            KernelLayerStep::Normalize { layer: 1, rows: 10 },
            KernelLayerStep::Recur { layer: 1 },
            KernelLayerStep::Post { layer: 1, rows: 10 },
        ]
    );
    assert!(kernel_layer_steps(&vec![], &vec![0, 3], 0).is_empty());
}

#[test]
fn packed_slices_follow_each_other_in_every_buffer() {
    let d = SsmDims { key_heads: 2, key_dim: 3, value_heads: 4, value_dim: 5, conv_kernel: 4 };
    let parts = segments(&vec![0, 3, 3, 10]);
    let slices: Vec<_> = parts.iter().map(|p| gdn_slice(&d, p, 10)).collect();
    for w in 0..2 {
        let (x, y, len) = (&slices[w], &slices[w + 1], parts[w].len);
        assert_eq!(x.qkv + len * 32 * 2, y.qkv);
        assert_eq!(x.gate_beta + len * 8 * 4, y.gate_beta);
        assert_eq!(x.output + len * 20 * 2, y.output);
        assert_eq!(x.z + len * 20 * 2, y.z);
    }
    assert_eq!(slices[2].qkv, 3 * 32 * 2);
}

#[test]
fn admission_sees_each_stream_as_it_would_run() {
    let prompt = vec![1u32; 64];
    let mut a = SequenceState::host_only(0);
    a.block_table = vec![1, 2];
    let mut b = SequenceState::host_only(1);
    let slice = |seq, len| PrefillSlice {
        prompt_tokens: &prompt,
        seq,
        chunk_start: 16,
        chunk_len: len,
        is_last_chunk: false,
    };
    let mut streams = vec![slice(&mut a, 32), slice(&mut b, 32)];
    let admits = |streams: &Vec<PrefillSlice<'_>>, arena, varlen| {
        kernel_batched_eligible(
            streams,
            &vec![0, 0],
            false,
            arena,
            false,
            128,
            1 << 20,
            1 << 19,
            false,
            varlen,
        )
    };
    // With the effective charge the second stream stages what its match leaves.
    let shapes = stream_shapes(&streams, &vec![0, 40], true);
    assert_eq!((shapes[0].eff_len, shapes[1].eff_len), (32, 8));
    assert_eq!((shapes[1].chunk_len, shapes[1].chunk_start, shapes[1].is_last), (32, 16, false));
    assert_eq!(
        scratch_request(&shapes, 2, true),
        Some(ScratchRequest::Packed { n: 2, total: 40, max_chunk: 32 })
    );
    assert!(admits(&streams, 64, false));
    assert!(!admits(&streams, 63, false));
    let needs = stream_needs(&streams, &vec![0, 16]);
    assert_eq!((needs[0].blocks, needs[1].blocks), (2, 0));
    assert_eq!((needs[0].matched_tokens, needs[1].matched_tokens), (0, 16));
    assert_eq!((needs[1].chunk_start, needs[1].chunk_len), (16, 32));
    streams[1].chunk_len = 24;
    assert!(!admits(&streams, 64, false));
    assert!(admits(&streams, 64, true));
}

#[test]
fn a_chunk_appends_its_tokens_after_the_layers() {
    let run = |facts: ChunkFacts| {
        let mut seen = Vec::new();
        let mut phase = ChunkPhase::Zero;
        while phase != ChunkPhase::Done {
            seen.push(phase);
            phase = chunk_next(phase, true, &facts);
        }
        seen
    };
    let last = run(ChunkFacts { early_return: false, needs_paged: true, is_last: true });
    assert_eq!(last.len(), 11);
    assert_eq!(last[8..], [ChunkPhase::Layers, ChunkPhase::Append, ChunkPhase::Finalize]);
    let middle = run(ChunkFacts { early_return: false, needs_paged: false, is_last: false });
    assert!(!middle.contains(&ChunkPhase::UploadPages));
    assert_eq!(*middle.last().unwrap(), ChunkPhase::Checkpoint);
    let cached = run(ChunkFacts { early_return: true, needs_paged: false, is_last: false });
    assert_eq!(cached[4..], [ChunkPhase::Range, ChunkPhase::Append]);
    let facts = ChunkFacts { early_return: false, needs_paged: false, is_last: true };
    assert_eq!(chunk_next(ChunkPhase::Layers, false, &facts), ChunkPhase::Failed);
    assert_eq!(chunk_next(ChunkPhase::Failed, true, &facts), ChunkPhase::Failed);
}

#[test]
fn a_full_cache_hit_runs_no_layer() {
    let run = |facts: TwophaseFacts| {
        let mut seen = Vec::new();
        let mut phase = TwophasePhase::Zero;
        while phase != TwophasePhase::Done {
            seen.push(phase);
            phase = twophase_next(phase, true, &facts);
        }
        seen
    };
    let hit = run(TwophaseFacts { proc_start: 64, proc_count: 0 });
    assert_eq!(hit[5..], [TwophasePhase::Blocks, TwophasePhase::FullHit]);
    let warm = run(TwophaseFacts { proc_start: 32, proc_count: 32 });
    assert!(warm.contains(&TwophasePhase::Reembed));
    assert!(warm.contains(&TwophasePhase::UploadPages));
    let cold = run(TwophaseFacts { proc_start: 0, proc_count: 64 });
    assert!(!cold.contains(&TwophasePhase::Reembed));
    assert!(!cold.contains(&TwophasePhase::UploadPages));
    assert_eq!(*cold.last().unwrap(), TwophasePhase::Insert);
    let facts = TwophaseFacts { proc_start: 0, proc_count: 64 };
    assert_eq!(twophase_next(TwophasePhase::Head, false, &facts), TwophasePhase::Failed);
}

#[test]
fn a_batch_is_declined_only_before_it_changes_anything() {
    let mut phase = KernelPhase::Preflight;
    let mut steps = 0;
    while phase != KernelPhase::Done {
        phase = kernel_next(phase, KernelStep::Went);
        steps += 1;
    }
    assert_eq!(steps, 8);
    assert_eq!(kernel_next(KernelPhase::Preflight, KernelStep::Declined), KernelPhase::NotAdmitted);
    assert_eq!(kernel_next(KernelPhase::Reserve, KernelStep::Declined), KernelPhase::NotAdmitted);
    assert_eq!(kernel_next(KernelPhase::Setup, KernelStep::Failed), KernelPhase::Failed);
}
