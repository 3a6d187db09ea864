//! The layer loop of a single-stream prefill pass.

use vstd::prelude::*;

use crate::sequence_state::SequenceState;
use crate::twophase::{kv_write_floor, layer_kv_write_start};

verus! {

/// One device step of a prefill pass.
#[derive(Clone, Copy, Debug, PartialEq, Eq, Structural)]
pub enum PrefillStep {
    /// The layer's decode at this position.
    Decode { layer: usize, pos: usize },
    /// The layer's prefill of `count` rows from `start`; the first `kv_write_start` rows write no
    /// KV.
    Prefill { layer: usize, start: usize, count: usize, kv_write_start: usize },
    /// Hand the layer's hidden rows to the block drafter; row `t` is position `base + t`.
    CaptureLayer { layer: usize, base: usize, rows: usize },
    /// Hand the last layer's hidden rows to the drafter.
    CaptureDrafter { base: usize, rows: usize },
}

/// Whether a pass runs each layer's decode: a single token after position 0.
pub open spec fn uses_decode_path(proc_count: int, start: int) -> bool {
    proc_count == 1 && start > 0
}

/// The step of layer `layer`.
pub open spec fn layer_step(
    layer: int,
    start: usize,
    count: usize,
    kv_floor: usize,
) -> PrefillStep {
    if uses_decode_path(count as int, start as int) {
        PrefillStep::Decode { layer: layer as usize, pos: start }
    } else {
        PrefillStep::Prefill { layer: layer as usize, start, count, kv_write_start: kv_floor }
    }
}

/// The steps of a pass: each layer and its capture in turn, then the drafter's capture.
pub open spec fn prefill_steps_spec(
    num_layers: nat,
    start: usize,
    count: usize,
    kv_floor: usize,
) -> Seq<PrefillStep> {
    Seq::new(
        2 * num_layers,
        |i: int|
            if i % 2 == 0 {
                layer_step(i / 2, start, count, kv_floor)
            } else {
                PrefillStep::CaptureLayer { layer: (i / 2) as usize, base: start, rows: count }
            },
    ).push(PrefillStep::CaptureDrafter { base: start, rows: count })
}

/// The device steps of a prefill pass over `proc_count` rows from `effective_seq_len_start`.
pub fn prefill_steps(
    seq: &SequenceState,
    num_layers: usize,
    proc_count: usize,
    effective_seq_len_start: usize,
    kv_write_start: usize,
    marconi_skip: bool,
) -> (r: Vec<PrefillStep>)
    ensures
        r@ == prefill_steps_spec(
            num_layers as nat,
            effective_seq_len_start,
            proc_count,
            kv_write_floor(
                marconi_skip,
                seq.cached_prefix_tokens as int,
                effective_seq_len_start as int,
                proc_count as int,
                kv_write_start as int,
            ) as usize,
        ),
{
    let start: usize = effective_seq_len_start;
    let kv_floor: usize = layer_kv_write_start(
        seq,
        marconi_skip,
        start,
        proc_count,
        kv_write_start,
    );
    let ghost all = prefill_steps_spec(num_layers as nat, start, proc_count, kv_floor);
    let decode: bool = proc_count == 1 && start > 0;
    let mut steps: Vec<PrefillStep> = Vec::new();
    let mut layer: usize = 0;
    while layer < num_layers
        invariant
            layer <= num_layers,
            decode == uses_decode_path(proc_count as int, start as int),
            all == prefill_steps_spec(num_layers as nat, start, proc_count, kv_floor),
            steps@ == all.subrange(0, 2 * layer),
        decreases num_layers - layer,
    {
        if decode {
            steps.push(PrefillStep::Decode { layer, pos: start });
        } else {
            steps.push(
                PrefillStep::Prefill { layer, start, count: proc_count, kv_write_start: kv_floor },
            );
        }
        steps.push(PrefillStep::CaptureLayer { layer, base: start, rows: proc_count });
        layer = layer + 1;
        assert(steps@ =~= all.subrange(0, 2 * layer));
    }
    steps.push(PrefillStep::CaptureDrafter { base: start, rows: proc_count });
    assert(steps@ =~= all);
    steps
}

/// Offsets of the row and column streams from the metadata: after the temporal stream with
/// three-axis positions, else the same stream.
pub fn stream_offsets(use_mrope: bool, pos_stream_bytes: usize) -> (r: (usize, usize))
    requires
        pos_stream_bytes * 2 <= usize::MAX,
    ensures
        r.0 == if use_mrope {
            pos_stream_bytes as int
        } else {
            0
        },
        r.1 == if use_mrope {
            pos_stream_bytes * 2
        } else {
            0
        },
{
    if use_mrope {
        (pos_stream_bytes, pos_stream_bytes * 2)
    } else {
        (0, 0)
    }
}

/// Every layer runs once, in order, over all processed rows, and hands over its own rows at their
/// positions right after; the drafter gets the last layer's rows at the end. A single token past
/// the start is decoded; anything else is prefilled, and writes the KV of exactly the rows that a
/// restored match does not cover.
pub proof fn every_layer_runs_over_the_processed_rows(
    seq: &SequenceState,
    num_layers: usize,
    proc_count: usize,
    effective_seq_len_start: usize,
    kv_write_start: usize,
    marconi_skip: bool,
    r: Vec<PrefillStep>,
    layer: int,
    i: int,
)
    requires
        call_ensures(
            prefill_steps,
            (
                seq,
                num_layers,
                proc_count,
                effective_seq_len_start,
                kv_write_start,
                marconi_skip,
            ),
            r,
        ),
        0 <= layer < num_layers,
    ensures
        ({
            let start = effective_seq_len_start;
            &&& r@.len() == 2 * num_layers + 1
            &&& match r@[2 * layer] {
                PrefillStep::Decode { layer: l, pos } => proc_count == 1 && start > 0 && l == layer
                    && pos == start,
                PrefillStep::Prefill { layer: l, start: s, count, kv_write_start: floor } => {
                    &&& !(proc_count == 1 && start > 0)
                    &&& l == layer && s == start && count == proc_count
                    &&& marconi_skip && 0 <= i < proc_count ==> (i >= floor <==> start + i
                        >= seq.cached_prefix_tokens)
                    &&& !marconi_skip ==> floor == kv_write_start
                },
                _ => false,
            }
            &&& r@[2 * layer + 1] matches PrefillStep::CaptureLayer { layer: l2, base, rows }
            &&& l2 == layer && base == start && rows == proc_count
            &&& r@[2 * num_layers] matches PrefillStep::CaptureDrafter { base: b3, rows: r3 }
            &&& b3 == start && r3 == proc_count
        }),
{
    assert((2 * layer) % 2 == 0 && (2 * layer) / 2 == layer);
    assert((2 * layer + 1) % 2 == 1 && (2 * layer + 1) / 2 == layer);
}

/// The three position streams lie one after another, and coincide without three axes.
pub proof fn position_streams_lie_behind_each_other(
    use_mrope: bool,
    pos_stream_bytes: usize,
    r: (usize, usize),
)
    requires
        call_ensures(stream_offsets, (use_mrope, pos_stream_bytes), r),
    ensures
        use_mrope ==> r.0 == pos_stream_bytes && r.1 == r.0 + pos_stream_bytes,
        !use_mrope ==> r.0 == 0 && r.1 == 0,
{
}

} // verus!
