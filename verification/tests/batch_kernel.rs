//! Admission to the kernel-batched prefill.

use metrale_model_engine::batch_eligible::{
    batched_reserve_hybrid_ssm_ok, cache_batch_matches_compatible, check_kernel_batched_eligible,
    config_is_mla, scratch_request, ScratchRequest, StreamShape,
};
use metrale_model_engine::prefix_match::PrefixMatch;

/// A stream that stages its whole chunk (`eff_len == chunk_len`).
fn s(chunk_len: usize, chunk_start: usize, is_last: bool) -> StreamShape {
    StreamShape { chunk_len, eff_len: chunk_len, chunk_start, is_last }
}

/// A stream whose cached prefix leaves only `eff` of its `chunk_len`
/// to stage.
fn s_eff(chunk_len: usize, eff: usize, chunk_start: usize, is_last: bool) -> StreamShape {
    StreamShape { chunk_len, eff_len: eff, chunk_start, is_last }
}

// Scratch large enough that the scratch-footprint check does not
// decide any test that uses it.
const BIG_SCRATCH: usize = 8 * 1024 * 1024;
const TOP_K: usize = 8;
const MROPE: bool = false;

/// Scratch bytes of a batch: routing staging, stream metadata, stacked arrays, state pointers.
fn footprint(request: ScratchRequest, top_k: usize, mrope: bool) -> usize {
    let (n, total, longest) = match request {
        ScratchRequest::Uniform { n, chunk } => (n, n * chunk, chunk),
        ScratchRequest::Packed { n, total, max_chunk } => (n, total, max_chunk),
    };
    let routing = (total * top_k * 8).div_ceil(64) * 64;
    let meta = n * (longest * 16 + 64).max(4096);
    let positions = total * if mrope { 12 } else { 4 };
    let stacked = positions + total * 8 + n * 16 + (n + 1).div_ceil(2) * 8 + n * 4;
    routing + meta + stacked + n * 8
}

/// Admission with the footprint of the batch's own scratch request.
fn eligible(
    streams: &[StreamShape],
    n: usize,
    arena_cap: usize,
    is_mla: bool,
    head_dim: usize,
    scratch_cap: usize,
    top_k: usize,
    mrope: bool,
    allow_chunk_zero: bool,
    varlen: bool,
) -> bool {
    let needed = footprint(scratch_request(streams, n, varlen).unwrap(), top_k, mrope);
    check_kernel_batched_eligible(
        streams,
        n,
        arena_cap,
        is_mla,
        head_dim,
        scratch_cap,
        needed,
        allow_chunk_zero,
        varlen,
    )
}

fn cache_match(tokens: usize) -> PrefixMatch {
    PrefixMatch {
        matched_blocks: vec![7; tokens / 16],
        matched_disk_block_ids: Vec::new(),
        matched_tokens: tokens,
        ssm_snapshot: None,
        ssm_snapshot_tokens: 0,
        ssm_snapshot_tier_key: None,
        ssm_snapshot_tier_tokens: 0,
        ssm_snapshot_is_tail: false,
    }
}

#[test]
fn hybrid_ssm_admits_only_all_cold_reservations() {
    // A model with SSM layers admits all-cold reservations
    // (`matched_tokens == 0` everywhere).
    assert!(batched_reserve_hybrid_ssm_ok(
        &[cache_match(0), cache_match(0), cache_match(0)],
        true,
    ));
    // A warm match on such a model is refused.
    assert!(!batched_reserve_hybrid_ssm_ok(
        &[cache_match(0), cache_match(48)],
        true,
    ));
    // A model without SSM layers admits warm matches.
    assert!(batched_reserve_hybrid_ssm_ok(
        &[cache_match(48), cache_match(48)],
        false,
    ));
    // An empty list is admitted.
    assert!(batched_reserve_hybrid_ssm_ok(&[], true));
}

#[test]
fn cache_batch_accepts_equal_partial_hits() {
    assert!(cache_batch_matches_compatible(
        &[cache_match(48), cache_match(48)],
        8192,
    ));
    assert!(!cache_batch_matches_compatible(&[], 8192));
}

#[test]
fn cache_batch_rejects_mixed_processing_geometry() {
    assert!(!cache_batch_matches_compatible(
        &[cache_match(0), cache_match(48)],
        8192,
    ));
    let mut fewer_blocks = cache_match(48);
    fewer_blocks.matched_blocks.pop();
    assert!(!cache_batch_matches_compatible(
        &[cache_match(48), fewer_blocks],
        8192,
    ));
}

#[test]
fn cache_batch_rejects_restore_metadata() {
    let mut snapshot = cache_match(48);
    snapshot.ssm_snapshot = Some(3);
    snapshot.ssm_snapshot_tokens = 48;
    assert!(!cache_batch_matches_compatible(
        &[cache_match(48), snapshot],
        8192,
    ));

    let mut disk = cache_match(48);
    disk.matched_disk_block_ids = vec![9; 3];
    assert!(!cache_batch_matches_compatible(
        &[cache_match(48), disk],
        8192,
    ));

    let mut snapshot_tokens = cache_match(48);
    snapshot_tokens.ssm_snapshot_tokens = 48;
    assert!(!cache_batch_matches_compatible(
        &[cache_match(48), snapshot_tokens],
        8192,
    ));

    let mut tier_key = cache_match(48);
    tier_key.ssm_snapshot_tier_key = Some(7);
    assert!(!cache_batch_matches_compatible(
        &[cache_match(48), tier_key],
        8192,
    ));

    let mut tier_tokens = cache_match(48);
    tier_tokens.ssm_snapshot_tier_tokens = 48;
    assert!(!cache_batch_matches_compatible(
        &[cache_match(48), tier_tokens],
        8192,
    ));
}

#[test]
fn cache_batch_rejects_full_chunk_hit() {
    assert!(!cache_batch_matches_compatible(
        &[cache_match(8192), cache_match(8192)],
        8192,
    ));
}

#[test]
fn rejects_under_two_streams() {
    assert!(!eligible(
        &[],
        0,
        8192,
        false,
        256,
        BIG_SCRATCH,
        TOP_K,
        MROPE,
        false,
        false,
    ));
    assert!(!eligible(
        &[s(4096, 0, false)],
        1,
        8192,
        false,
        256,
        BIG_SCRATCH,
        TOP_K,
        MROPE,
        false,
        false,
    ));
}

#[test]
fn rejects_chunk_zero() {
    assert!(!eligible(
        &[s(4096, 0, false), s(4096, 0, false)],
        2,
        8192,
        false,
        256,
        BIG_SCRATCH,
        TOP_K,
        MROPE,
        false,
        false,
    ));
}

#[test]
fn accepts_chunk_zero_when_explicitly_allowed() {
    assert!(eligible(
        &[s(4096, 0, false), s(4096, 0, false)],
        2,
        8192,
        false,
        256,
        BIG_SCRATCH,
        TOP_K,
        MROPE,
        true,
        false,
    ));
}

#[test]
fn accepts_uniform_paged_n_2() {
    assert!(eligible(
        &[s(4096, 4096, false), s(4096, 4096, false)],
        2,
        8192,
        false,
        256,
        BIG_SCRATCH,
        TOP_K,
        MROPE,
        false,
        false,
    ));
}

#[test]
fn rejects_mismatched_chunk_len() {
    assert!(!eligible(
        &[s(4096, 4096, false), s(2048, 4096, false)],
        2,
        16384,
        false,
        256,
        BIG_SCRATCH,
        TOP_K,
        MROPE,
        false,
        false,
    ));
}

#[test]
fn rejects_mismatched_chunk_start() {
    assert!(!eligible(
        &[s(4096, 12288, false), s(4096, 4096, false)],
        2,
        16384,
        false,
        256,
        BIG_SCRATCH,
        TOP_K,
        MROPE,
        false,
        false,
    ));
}

#[test]
fn rejects_mismatched_is_last() {
    assert!(!eligible(
        &[s(4096, 4096, false), s(4096, 4096, true)],
        2,
        8192,
        false,
        256,
        BIG_SCRATCH,
        TOP_K,
        MROPE,
        false,
        false,
    ));
}

#[test]
fn rejects_arena_overflow() {
    assert!(!eligible(
        &[s(4096, 4096, false), s(4096, 4096, false)],
        2,
        4100,
        false,
        256,
        BIG_SCRATCH,
        TOP_K,
        MROPE,
        false,
        false,
    ));
}

#[test]
fn rejects_large_head_dim() {
    assert!(!eligible(
        &[s(4096, 4096, false), s(4096, 4096, false)],
        2,
        8192,
        false,
        512,
        BIG_SCRATCH,
        TOP_K,
        MROPE,
        false,
        false,
    ));
}

#[test]
fn accepts_varlen_batch_when_packed_footprint_fits() {
    // Varlen admits streams of different lengths. The arena is
    // charged their packed total, 13,649 tokens, which fits a 16,388-token
    // arena.
    let streams = [
        s(2051, 0, true),
        s(2953, 0, true),
        s(3863, 0, true),
        s(4782, 0, true),
    ];
    let arena: usize = 16_388;
    // The scratch of four streams that share the arena evenly.
    let scratch = footprint(
        ScratchRequest::Uniform { n: 4, chunk: arena.div_ceil(4) },
        TOP_K,
        MROPE,
    );
    assert!(eligible(
        &streams, 4, arena, false, 128, scratch, TOP_K, MROPE, true, true,
    ));
}

#[test]
fn rejects_scratch_footprint_overflow() {
    // The staging footprint must fit in scratch even when the
    // arena check passes. For n=4, chunk_len=935, top_k=8 with MRoPE the
    // footprint is above 348,840 bytes, so that scratch is rejected, and a
    // scratch of the footprint itself is accepted.
    let streams = [s(935, 4096, false); 4];
    let arena = 4096;
    let too_small = 348_840;
    let enlarged = footprint(ScratchRequest::Uniform { n: 4, chunk: 935 }, 8, true);
    assert!(
        !eligible(
            &streams,
            4,
            arena,
            false,
            256,
            too_small,
            8,
            true,
            false,
            false,
        ),
        "footprint must NOT fit in the 348_840 B scratch"
    );
    assert!(
        eligible(
            &streams,
            4,
            arena,
            false,
            256,
            enlarged,
            8,
            true,
            false,
            false,
        ),
        "footprint must fit once scratch is sized to it"
    );
}

/// Two 8192-token chunks charged at their raw length do not fit an
/// 8200-token arena.
#[test]
fn raw_charge_blocks_stacking_at_production_sizes() {
    assert!(!eligible(
        &[s(8192, 16, false), s(8192, 16, false)],
        2,
        8200,
        false,
        128,
        BIG_SCRATCH,
        TOP_K,
        MROPE,
        true,
        false,
    ));
}

/// The same two streams, warm: prefix hits leave 424 and 400 tokens
/// to stage, 824 of the 8200-token arena, and the batch is eligible.
#[test]
fn effective_charge_allows_warm_stacking() {
    assert!(eligible(
        &[s_eff(8192, 424, 16, false), s_eff(8192, 400, 16, false)],
        2,
        8200,
        false,
        128,
        BIG_SCRATCH,
        TOP_K,
        MROPE,
        true,
        false,
    ));
}

/// The effective charge is still a bound: warm streams whose staged
/// tokens exceed the arena in total are rejected.
#[test]
fn effective_charge_still_rejects_when_sum_exceeds_arena() {
    let streams: Vec<_> = (0..8).map(|_| s_eff(8192, 2000, 16, false)).collect();
    assert!(!eligible(
        &streams,
        8,
        8200,
        false,
        128,
        BIG_SCRATCH,
        TOP_K,
        MROPE,
        true,
        false,
    ));
}

/// A fully cached middle chunk stages zero tokens, and a batch with
/// such a stream is rejected: in the packed layout it would have no segment
/// and share its offset with the next stream.
#[test]
fn effective_charge_rejects_zero_length_stream() {
    assert!(!eligible(
        &[s_eff(2048, 176, 2048, false), s_eff(2048, 0, 2048, false)],
        2,
        8192,
        false,
        128,
        BIG_SCRATCH,
        TOP_K,
        MROPE,
        true,
        false,
    ));
}

/// Pins the rejection of latent attention through `config_is_mla`: a rank of 512 is rejected, and
/// the same batch with a rank of 0 is accepted. The other tests pass the flag as a bool, so they
/// would not notice a broken derivation.
#[test]
fn mistral_config_is_rejected_as_mla() {
    let mut kv_lora_rank = 0;
    assert!(!config_is_mla(kv_lora_rank));
    let admitted = |is_mla: bool| {
        eligible(
            &[s(2048, 16, false), s(2048, 16, false)],
            2,
            8192,
            is_mla,
            128,
            BIG_SCRATCH,
            TOP_K,
            MROPE,
            true,
            false,
        )
    };
    assert!(admitted(config_is_mla(kv_lora_rank)));

    kv_lora_rank = 512;
    assert!(config_is_mla(kv_lora_rank));
    assert!(!admitted(config_is_mla(kv_lora_rank)));
}

#[test]
fn the_scratch_request_follows_the_batch() {
    let streams = [s_eff(100, 40, 16, false), s_eff(100, 70, 16, false), s_eff(100, 9, 16, false)];
    assert_eq!(
        scratch_request(&streams, 3, true),
        Some(ScratchRequest::Packed { n: 3, total: 119, max_chunk: 70 })
    );
    assert_eq!(
        scratch_request(&streams, 3, false),
        Some(ScratchRequest::Uniform { n: 3, chunk: 70 })
    );
    assert_eq!(
        scratch_request(&[], 0, true),
        Some(ScratchRequest::Packed { n: 0, total: 0, max_chunk: 0 })
    );
    let huge = [s(usize::MAX, 16, false), s(1, 16, false)];
    assert_eq!(scratch_request(&huge, 2, true), None);
    assert_eq!(scratch_request(&huge, 2, false), None);
}

#[test]
fn the_scratch_answer_decides_at_its_bound() {
    let streams = [s(64, 16, false), s(64, 16, false)];
    let with = |cap: usize, needed: usize| {
        check_kernel_batched_eligible(&streams, 2, 128, false, 128, cap, needed, false, false)
    };
    assert!(with(500, 500));
    assert!(!with(499, 500));
    assert!(with(0, 0));
}

#[test]
fn the_order_of_the_streams_does_not_matter() {
    let sets: [[StreamShape; 3]; 4] = [
        [s_eff(100, 40, 16, false), s_eff(100, 70, 16, false), s_eff(100, 9, 16, false)],
        [s(100, 16, false), s(90, 16, false), s(80, 16, false)],
        [s(100, 16, false), s(100, 32, false), s(100, 16, false)],
        [s_eff(100, 40, 16, false), s_eff(100, 0, 16, false), s_eff(100, 9, 16, false)],
    ];
    for [a, b, c] in sets {
        for varlen in [false, true] {
            for arena in [118, 119, 269, 270] {
                let run = |streams: [StreamShape; 3]| {
                    eligible(
                        &streams, 3, arena, false, 128, BIG_SCRATCH, TOP_K, MROPE, true, varlen,
                    )
                };
                let first = run([a, b, c]);
                for order in [[a, c, b], [b, a, c], [b, c, a], [c, a, b], [c, b, a]] {
                    assert_eq!(run(order), first);
                }
            }
        }
    }
}
