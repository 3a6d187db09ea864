//! Speculative verify of one sequence: the rows of its tokens go through every layer in one
//! pass, eagerly or as a captured graph, and on success all of them are appended.
//!
//! A caller embeds the rows, makes the blocks of every row available, uploads the metadata, then
//! replays a graph or runs the forward steps, and commits the rows last. Nothing but the commit
//! changes the sequence.

use vstd::prelude::*;

use crate::graph_cache::SlotGraphs;
use crate::kv_rows::{
    causal_lens, causal_lens_spec, positions, positions_spec, push_table_row, seq_slot,
    lemma_slot_fits, seq_slot_spec, seq_slots, table_row_spec, table_words, table_words_spec,
    MAX_BLOCK_SIZE,
};
use crate::layers::{any_layer, LayerType};
use crate::sequence_state::SequenceState;

verus! {

/// Bytes of one 16-bit element of a hidden or logits row.
pub const ROW_ELEM_BYTES: usize = 2;

/// Offset of the verify metadata in the scratch buffer.
pub const META_BASE: usize = 32768;

/// Offset of the adapter slots from the metadata base.
pub const META_SEQ_SLOT: usize = 128;

/// Offset of the cache slots from the metadata base.
pub const META_SLOTS: usize = 256;

/// Offset of the causal lengths from the metadata base.
pub const META_SEQ_LENS: usize = 512;

/// Offset of the block tables from the metadata base.
pub const META_BLOCK_TABLE: usize = 768;

/// Most rows whose adapter slots and cache slots fit between the metadata offsets.
pub const META_MAX_ROWS: usize = 32;

/// The metadata regions of up to `META_MAX_ROWS` rows do not overlap.
pub proof fn meta_regions_are_disjoint(k: int)
    requires
        0 <= k <= META_MAX_ROWS,
    ensures
        4 * k <= META_SEQ_SLOT,
        META_SEQ_SLOT + 4 * k <= META_SLOTS,
        META_SLOTS + 8 * k <= META_SEQ_LENS,
        META_SEQ_LENS + 4 * k <= META_BLOCK_TABLE,
{
}

/// A token's embedding and the byte offset of its row.
#[derive(Clone, Copy, Debug, PartialEq, Eq, Structural)]
pub struct RowEmbed {
    pub token: u32,
    pub offset: usize,
}

/// The embeddings of `tokens`, one row of `h` elements each.
pub open spec fn embed_rows_spec(tokens: Seq<u32>, h: int) -> Seq<RowEmbed> {
    Seq::new(
        tokens.len(),
        |t: int| RowEmbed { token: tokens[t], offset: (t * h * 2) as usize },
    )
}

/// The embeddings of `tokens`, one row of `h` elements each.
pub fn embed_rows(tokens: &[u32], h: usize) -> (r: Vec<RowEmbed>)
    requires
        tokens@.len() * h * 2 <= usize::MAX,
    ensures
        r@ == embed_rows_spec(tokens@, h as int),
{
    let mut out: Vec<RowEmbed> = Vec::new();
    let mut t: usize = 0;
    while t < tokens.len()
        invariant
            tokens@.len() * h * 2 <= usize::MAX,
            t <= tokens@.len(),
            out@ == embed_rows_spec(tokens@, h as int).subrange(0, t as int),
        decreases tokens@.len() - t,
    {
        proof {
            lemma_row_fits(t as int, tokens@.len() as int, h as int);
        }
        out.push(RowEmbed { token: tokens[t], offset: t * h * ROW_ELEM_BYTES });
        t = t + 1;
        assert(out@ =~= embed_rows_spec(tokens@, h as int).subrange(0, t as int));
    }
    assert(out@ =~= embed_rows_spec(tokens@, h as int));
    out
}

/// The offset of a row of a buffer that fits the address space fits it too.
pub proof fn lemma_row_fits(t: int, rows: int, h: int)
    requires
        0 <= t <= rows,
        0 <= h,
    ensures
        0 <= t * h <= rows * h,
        0 <= t * h * 2 <= rows * h * 2,
{
    assert(0 <= t * h <= rows * h) by (nonlinear_arith)
        requires
            0 <= t <= rows,
            0 <= h,
    ;
}

/// The last logical block each of `k` rows after `seq_len` needs.
pub open spec fn row_blocks_spec(seq_len: int, k: nat, bs: int) -> Seq<usize> {
    Seq::new(k, |t: int| ((seq_len + t) / bs) as usize)
}

/// The last logical block each of `k` rows after `seq_len` needs, in row order.
pub fn row_blocks(seq_len: usize, k: usize, bs: usize) -> (r: Vec<usize>)
    requires
        bs > 0,
        seq_len + k <= usize::MAX,
    ensures
        r@ == row_blocks_spec(seq_len as int, k as nat, bs as int),
{
    let mut out: Vec<usize> = Vec::new();
    let mut t: usize = 0;
    while t < k
        invariant
            bs > 0,
            seq_len + k <= usize::MAX,
            t <= k,
            out@ == row_blocks_spec(seq_len as int, t as nat, bs as int),
        decreases k - t,
    {
        let pos: usize = seq_len + t;
        out.push(pos / bs);
        t = t + 1;
    }
    out
}

/// Host copies of the attention metadata of a verify.
pub struct VerifyMeta {
    pub positions: Vec<u32>,
    pub slots: Vec<i64>,
    pub seq_lens: Vec<i32>,
    /// One row of `max_blocks` entries per verify row.
    pub block_table: Vec<i32>,
}

/// `k` copies of a block-table row.
pub open spec fn repeat_row(row: Seq<i32>, k: nat) -> Seq<i32>
    decreases k,
{
    if k == 0 {
        Seq::empty()
    } else {
        repeat_row(row, (k - 1) as nat) + row
    }
}

/// Every verify row reads the sequence's block table: entry `j` of row `r` is entry `j` of the
/// table row.
pub proof fn each_row_reads_the_table(row: Seq<i32>, k: nat, r: int, j: int)
    requires
        0 <= r < k,
        0 <= j < row.len(),
    ensures
        repeat_row(row, k).len() == k * row.len(),
        0 <= r * row.len() + j < k * row.len(),
        repeat_row(row, k)[r * row.len() + j] == row[j],
    decreases k,
{
    lemma_repeat_row_len(row, k);
    lemma_repeat_row_len(row, (k - 1) as nat);
    assert(r * row.len() + j < (r + 1) * row.len()) by (nonlinear_arith)
        requires
            0 <= j < row.len(),
    ;
    assert((r + 1) * row.len() <= k * row.len()) by (nonlinear_arith)
        requires
            r + 1 <= k,
    ;
    assert(0 <= r * row.len()) by (nonlinear_arith)
        requires
            0 <= r,
    ;
    if r < k - 1 {
        each_row_reads_the_table(row, (k - 1) as nat, r, j);
    } else {
        assert(r * row.len() == (k - 1) * row.len());
    }
}

/// `k` copies of a row have `k` times its entries.
pub proof fn lemma_repeat_row_len(row: Seq<i32>, k: nat)
    ensures
        repeat_row(row, k).len() == k * row.len(),
    decreases k,
{
    if k > 0 {
        lemma_repeat_row_len(row, (k - 1) as nat);
        assert(k * row.len() == (k - 1) * row.len() + row.len()) by (nonlinear_arith);
    } else {
        assert(k * row.len() == 0) by (nonlinear_arith)
            requires
                k == 0,
        ;
    }
}

/// The attention metadata of `k` verify rows after `seq.seq_len`: each row's position, cache slot
/// and causal length, and the sequence's block table once per row. A row whose block is outside
/// the window uses block 0.
pub fn verify_metadata(seq: &SequenceState, k: usize, bs: usize, max_blocks: usize) -> (r: VerifyMeta)
    requires
        0 < bs <= MAX_BLOCK_SIZE,
        seq.seq_len + k <= usize::MAX,
    ensures
        r.positions@ == positions_spec(seq.seq_len as int, k as nat),
        r.slots@ == Seq::new(
            k as nat,
            |t: int| seq_slot_spec(*seq, seq.seq_len + t, bs as int, 0) as i64,
        ),
        r.seq_lens@ == causal_lens_spec(seq.seq_len as int, k as nat),
        r.block_table@ == repeat_row(
            table_row_spec(seq.block_table@, max_blocks as nat),
            k as nat,
        ),
{
    let pos: Vec<u32> = positions(seq.seq_len, k);
    let slots: Vec<i64> = seq_slots(seq, seq.seq_len, k, bs, 0);
    let lens: Vec<i32> = causal_lens(seq.seq_len, k);
    let mut table: Vec<i32> = Vec::new();
    let mut row: usize = 0;
    while row < k
        invariant
            row <= k,
            table@ == repeat_row(table_row_spec(seq.block_table@, max_blocks as nat), row as nat),
        decreases k - row,
    {
        push_table_row(&mut table, &seq.block_table, max_blocks);
        row = row + 1;
    }
    VerifyMeta { positions: pos, slots, seq_lens: lens, block_table: table }
}

/// How a layer runs over the verify rows.
#[derive(Clone, Copy, Debug, PartialEq, Eq, Structural)]
pub enum LayerRoute {
    /// One call over all rows of the sequence.
    Batched,
    /// One call over the rows as separate sequences.
    MultiSeq,
    /// One call per row, with that row's metadata.
    PerToken,
}

/// The route of a layer in a verify that may be captured. With the disk tier engaged full
/// attention runs batched, since only that path reads the disk tier.
pub fn verify_layer_route(ty: LayerType, hss_engaged: bool) -> (r: LayerRoute)
    ensures
        r == verify_layer_route_spec(ty, hss_engaged),
{
    match ty {
        LayerType::FullAttention => if hss_engaged {
            LayerRoute::Batched
        } else {
            LayerRoute::MultiSeq
        },
        LayerType::SlidingAttention => LayerRoute::PerToken,
        _ => LayerRoute::Batched,
    }
}

/// The route of a layer in a verify that may be captured.
pub open spec fn verify_layer_route_spec(ty: LayerType, hss_engaged: bool) -> LayerRoute {
    match ty {
        LayerType::FullAttention => if hss_engaged {
            LayerRoute::Batched
        } else {
            LayerRoute::MultiSeq
        },
        LayerType::SlidingAttention => LayerRoute::PerToken,
        _ => LayerRoute::Batched,
    }
}

/// Which rows' hidden states a layer hands to the drafter.
#[derive(Clone, Copy, Debug, PartialEq, Eq, Structural)]
pub enum HiddenCapture {
    Row(usize),
    All(usize),
}

/// One device step of a verify forward.
#[derive(Clone, Copy, Debug, PartialEq, Eq, Structural)]
pub enum VerifyStep {
    BeginCapture,
    /// The layer over `rows` rows from position `pos` on.
    Layer { layer: usize, route: LayerRoute, pos: usize, rows: usize },
    CaptureHidden { layer: usize, capture: HiddenCapture },
    FinalNorm { rows: usize },
    LmHead { rows: usize },
    /// Argmax of one logits row, written as one 32-bit word.
    Argmax { logits_offset: usize, out_offset: usize },
    EndCapture,
}

/// The steps of all layers: each layer over the rows, then the hand-off of its hidden rows.
pub open spec fn layer_steps(
    types: Seq<LayerType>,
    hss: bool,
    capture: HiddenCapture,
    pos: usize,
    rows: usize,
) -> Seq<VerifyStep> {
    Seq::new(
        2 * types.len(),
        |i: int|
            if i % 2 == 0 {
                VerifyStep::Layer {
                    layer: (i / 2) as usize,
                    route: verify_layer_route_spec(types[i / 2], hss),
                    pos,
                    rows,
                }
            } else {
                VerifyStep::CaptureHidden { layer: (i / 2) as usize, capture }
            },
    )
}

/// The length before each of `rows` rows from `pos` on, for rows run as separate sequences.
pub fn row_lens(pos: usize, rows: usize) -> (r: Vec<usize>)
    requires
        pos + rows <= usize::MAX,
    ensures
        r@ == Seq::new(rows as nat, |t: int| (pos + t) as usize),
{
    let mut lens: Vec<usize> = Vec::new();
    while lens.len() < rows
        invariant
            pos + rows <= usize::MAX,
            lens@.len() <= rows,
            lens@ == Seq::new(lens@.len(), |t: int| (pos + t) as usize),
        decreases rows - lens@.len(),
    {
        let t: usize = lens.len();
        lens.push(pos + t);
        assert(lens@ =~= Seq::new(lens@.len(), |t: int| (pos + t) as usize));
    }
    lens
}

/// The argmax of each of `k` logits rows of `vocab` elements.
pub open spec fn argmax_steps(k: nat, vocab: int) -> Seq<VerifyStep> {
    Seq::new(
        k,
        |t: int|
            VerifyStep::Argmax {
                logits_offset: (t * vocab * 2) as usize,
                out_offset: (t * 4) as usize,
            },
    )
}

/// The whole forward of a verify: the layers, the final norm, the head and the argmax of each
/// row, inside a capture when graphs are used.
pub open spec fn forward_steps_spec(
    types: Seq<LayerType>,
    hss: bool,
    capture: HiddenCapture,
    pos: usize,
    k: usize,
    vocab: int,
    use_graphs: bool,
) -> Seq<VerifyStep> {
    let begin = if use_graphs {
        seq![VerifyStep::BeginCapture]
    } else {
        Seq::empty()
    };
    let end = if use_graphs {
        seq![VerifyStep::EndCapture]
    } else {
        Seq::empty()
    };
    begin + layer_steps(types, hss, capture, pos, k) + seq![
        VerifyStep::FinalNorm { rows: k },
        VerifyStep::LmHead { rows: k },
    ] + argmax_steps(k as nat, vocab) + end
}

/// The device steps of a verify forward over `k` rows from `pos` on.
pub fn forward_steps(
    types: &Vec<LayerType>,
    hss: bool,
    capture: HiddenCapture,
    pos: usize,
    k: usize,
    vocab: usize,
    use_graphs: bool,
) -> (r: Vec<VerifyStep>)
    requires
        k * vocab * 2 <= usize::MAX,
        k * 4 <= usize::MAX,
    ensures
        r@ == forward_steps_spec(types@, hss, capture, pos, k, vocab as int, use_graphs),
{
    let ghost begin = if use_graphs {
        seq![VerifyStep::BeginCapture]
    } else {
        Seq::empty()
    };
    let mut steps: Vec<VerifyStep> = Vec::new();
    if use_graphs {
        steps.push(VerifyStep::BeginCapture);
    }
    assert(steps@ =~= begin);
    let mut i: usize = 0;
    while i < types.len()
        invariant
            i <= types@.len(),
            steps@ == begin + layer_steps(types@, hss, capture, pos, k).subrange(0, 2 * i),
        decreases types@.len() - i,
    {
        let route: LayerRoute = verify_layer_route(types[i], hss);
        steps.push(VerifyStep::Layer { layer: i, route, pos, rows: k });
        steps.push(VerifyStep::CaptureHidden { layer: i, capture });
        i = i + 1;
        assert(steps@ =~= begin + layer_steps(types@, hss, capture, pos, k).subrange(0, 2 * i));
    }
    assert(layer_steps(types@, hss, capture, pos, k).subrange(0, 2 * i) =~= layer_steps(
        types@,
        hss,
        capture,
        pos,
        k,
    ));
    steps.push(VerifyStep::FinalNorm { rows: k });
    steps.push(VerifyStep::LmHead { rows: k });
    let ghost head = steps@;
    assert(head =~= begin + layer_steps(types@, hss, capture, pos, k) + seq![
        VerifyStep::FinalNorm { rows: k },
        VerifyStep::LmHead { rows: k },
    ]);
    let mut t: usize = 0;
    while t < k
        invariant
            k * vocab * 2 <= usize::MAX,
            k * 4 <= usize::MAX,
            t <= k,
            steps@ == head + argmax_steps(t as nat, vocab as int),
        decreases k - t,
    {
        proof {
            lemma_row_fits(t as int, k as int, vocab as int);
        }
        steps.push(
            VerifyStep::Argmax { logits_offset: t * vocab * ROW_ELEM_BYTES, out_offset: t * 4 },
        );
        t = t + 1;
        assert(steps@ =~= head + argmax_steps(t as nat, vocab as int));
    }
    if use_graphs {
        steps.push(VerifyStep::EndCapture);
    }
    assert(steps@ =~= forward_steps_spec(types@, hss, capture, pos, k, vocab as int, use_graphs));
    steps
}

/// Which verify runs.
#[derive(Clone, Copy, Debug, PartialEq, Eq, Structural)]
pub enum VerifyKind {
    /// Three rows, one graph per slot.
    K3,
    /// Any row count, one graph per slot and row count.
    KGamma,
    /// The accepted token and its drafts in one forward.
    Fused,
}

/// What decides whether a verify is captured.
#[derive(Clone, Copy, Debug)]
pub struct VerifyEnv {
    /// Whether a communicator is present.
    pub has_comm: bool,
    /// Whether the disk tier is engaged; its host I/O cannot be captured.
    pub hss_engaged: bool,
    /// Whether an adapter is loaded and adapters run eagerly.
    pub lora_eager: bool,
    /// Whether graphs are suppressed while a calibration runs.
    pub suppressed: bool,
    /// Whether a debug switch forces the eager path.
    pub force_eager: bool,
    /// Whether a verify with a communicator is captured.
    pub ep_graphs: bool,
    /// Whether every step is captured and none replayed.
    pub graph_trace: bool,
    /// Whether a captured graph is not kept.
    pub no_cache: bool,
    /// Whether every row's hidden state is handed to the drafter, not only the last row's.
    pub capture_all: bool,
}

/// Whether some layer uses sliding-window attention, whose per-row uploads cannot be captured.
pub open spec fn has_sliding(types: Seq<LayerType>) -> bool {
    exists|i: int| 0 <= i < types.len() && types[i] == LayerType::SlidingAttention
}

/// Whether a verify is captured or replayed as a graph.
pub open spec fn use_graphs_spec(kind: VerifyKind, env: VerifyEnv, types: Seq<LayerType>) -> bool {
    &&& !env.hss_engaged
    &&& !env.lora_eager
    &&& !has_sliding(types)
    &&& match kind {
        VerifyKind::K3 => !env.has_comm || env.ep_graphs || env.graph_trace,
        VerifyKind::KGamma => !env.has_comm && !env.suppressed && !env.force_eager,
        VerifyKind::Fused => !env.has_comm && !env.suppressed,
    }
}

/// Whether a verify is captured or replayed as a graph.
pub fn use_graphs(kind: VerifyKind, env: &VerifyEnv, types: &Vec<LayerType>) -> (r: bool)
    ensures
        r == use_graphs_spec(kind, *env, types@),
{
    let allowed: bool = match kind {
        VerifyKind::K3 => !env.has_comm || env.ep_graphs || env.graph_trace,
        VerifyKind::KGamma => !env.has_comm && !env.suppressed && !env.force_eager,
        VerifyKind::Fused => !env.has_comm && !env.suppressed,
    };
    allowed && !env.hss_engaged && !env.lora_eager && !any_layer(
        types,
        LayerType::SlidingAttention,
    )
}

/// Whether graphs stay suppressed: a frozen calibration lifts the suppression.
pub fn still_suppressed(suppressed: bool, calibration_tokens: usize, frozen: bool) -> (r: bool)
    ensures
        r == (suppressed && !(calibration_tokens > 0 && frozen)),
{
    suppressed && !(calibration_tokens > 0 && frozen)
}

/// The hidden rows a verify hands to the drafter: the accepted token's row of a fused verify,
/// else every row or the last one.
pub open spec fn hidden_capture_spec(kind: VerifyKind, env: VerifyEnv, k: usize) -> HiddenCapture {
    match kind {
        VerifyKind::Fused => HiddenCapture::Row(0),
        VerifyKind::K3 => HiddenCapture::Row((k - 1) as usize),
        VerifyKind::KGamma => if env.capture_all {
            HiddenCapture::All(k)
        } else {
            HiddenCapture::Row((k - 1) as usize)
        },
    }
}

/// What the forward of a verify does.
pub enum ForwardAction {
    /// There is no row to verify.
    Nothing,
    /// Replay a captured graph.
    Replay { replay: Vec<ReplayStep> },
    /// Run the steps. With `keep`, a captured graph is cached.
    Run { steps: Vec<VerifyStep>, keep: bool },
}

/// One step of a replay.
#[derive(Clone, Copy, Debug, PartialEq, Eq, Structural)]
pub enum ReplayStep {
    /// Ask the layer whether `rows` rows from `pos` on fit its buffers; the replay is refused
    /// otherwise.
    CheckRoom { layer: usize, pos: usize, rows: usize },
    Launch { graph: u64 },
    /// Bring the layer's host bookkeeping up to the `rows` rows replayed from `pos` on.
    Sync { layer: usize, pos: usize, rows: usize },
}

/// The steps of a replay: with three rows every layer is asked for room before the launch and
/// brought up to date after it.
pub open spec fn replay_steps_spec(
    kind: VerifyKind,
    num_layers: nat,
    graph: u64,
    pos: usize,
    rows: usize,
) -> Seq<ReplayStep> {
    if kind == VerifyKind::K3 {
        Seq::new(num_layers, |i: int| ReplayStep::CheckRoom { layer: i as usize, pos, rows }) + seq![
            ReplayStep::Launch { graph },
        ] + Seq::new(num_layers, |i: int| ReplayStep::Sync { layer: i as usize, pos, rows })
    } else {
        seq![ReplayStep::Launch { graph }]
    }
}

/// The steps of a replay.
fn replay_steps(kind: VerifyKind, num_layers: usize, graph: u64, pos: usize, rows: usize) -> (r: Vec<
    ReplayStep,
>)
    ensures
        r@ == replay_steps_spec(kind, num_layers as nat, graph, pos, rows),
{
    let mut steps: Vec<ReplayStep> = Vec::new();
    if kind != VerifyKind::K3 {
        steps.push(ReplayStep::Launch { graph });
        assert(steps@ =~= replay_steps_spec(kind, num_layers as nat, graph, pos, rows));
        return steps;
    }
    let mut layer: usize = 0;
    while layer < num_layers
        invariant
            layer <= num_layers,
            steps@ == Seq::new(
                layer as nat,
                |i: int| ReplayStep::CheckRoom { layer: i as usize, pos, rows },
            ),
        decreases num_layers - layer,
    {
        steps.push(ReplayStep::CheckRoom { layer, pos, rows });
        layer = layer + 1;
    }
    steps.push(ReplayStep::Launch { graph });
    let ghost head = steps@;
    let mut layer: usize = 0;
    assert(steps@ =~= head + Seq::new(0, |i: int| ReplayStep::Sync { layer: i as usize, pos, rows }));
    while layer < num_layers
        invariant
            layer <= num_layers,
            steps@ == head + Seq::new(
                layer as nat,
                |i: int| ReplayStep::Sync { layer: i as usize, pos, rows },
            ),
        decreases num_layers - layer,
    {
        steps.push(ReplayStep::Sync { layer, pos, rows });
        layer = layer + 1;
        assert(steps@ =~= head + Seq::new(
            layer as nat,
            |i: int| ReplayStep::Sync { layer: i as usize, pos, rows },
        ));
    }
    assert(steps@ =~= replay_steps_spec(kind, num_layers as nat, graph, pos, rows));
    steps
}

/// A three-row graph is launched only after every layer was asked for room for the replayed rows,
/// and every layer is brought up to those rows after the launch.
pub proof fn replay_checks_every_layer_first(
    num_layers: nat,
    graph: u64,
    pos: usize,
    rows: usize,
    layer: int,
)
    requires
        0 <= layer < num_layers,
    ensures
        ({
            let s = replay_steps_spec(VerifyKind::K3, num_layers, graph, pos, rows);
            &&& s[layer] == (ReplayStep::CheckRoom { layer: layer as usize, pos, rows })
            &&& s[num_layers as int] == (ReplayStep::Launch { graph })
            &&& s[num_layers + 1 + layer] == (ReplayStep::Sync { layer: layer as usize, pos, rows })
        }),
{
}

/// Whether a newly captured graph is cached.
pub open spec fn keeps_graph(kind: VerifyKind, env: VerifyEnv) -> bool {
    kind != VerifyKind::K3 || (!env.graph_trace && !env.no_cache)
}

/// Decide the forward of a verify of `k` rows: replay the graph cached for the sequence's slot
/// and row count, or run the forward, under capture when graphs are used.
pub fn plan_forward(
    kind: VerifyKind,
    env: &VerifyEnv,
    types: &Vec<LayerType>,
    seq: &SequenceState,
    k: usize,
    vocab: usize,
    cache: &SlotGraphs,
) -> (r: ForwardAction)
    requires
        cache.wf(),
        k * vocab * 2 <= usize::MAX,
        k * 4 <= usize::MAX,
        kind == VerifyKind::K3 ==> k == 3,
    ensures
        ({
            let graphs = use_graphs_spec(kind, *env, types@);
            let cached = cache.cached(seq.slot_idx, k);
            if kind == VerifyKind::KGamma && k == 0 {
                r is Nothing
            } else if graphs && cached is Some {
                &&& r matches ForwardAction::Replay { replay }
                &&& replay@ == replay_steps_spec(
                    kind,
                    types@.len(),
                    cached->0,
                    seq.seq_len,
                    k,
                )
                &&& cached->0 != 0
            } else {
                &&& r matches ForwardAction::Run { steps, keep }
                &&& steps@ == forward_steps_spec(
                    types@,
                    env.hss_engaged,
                    hidden_capture_spec(kind, *env, k),
                    seq.seq_len,
                    k,
                    vocab as int,
                    graphs,
                )
                &&& keep == (graphs && keeps_graph(kind, *env))
            }
        }),
{
    if kind == VerifyKind::KGamma && k == 0 {
        return ForwardAction::Nothing;
    }
    let graphs: bool = use_graphs(kind, env, types);
    if graphs {
        if let Some(graph) = cache.get(seq.slot_idx, k) {
            return ForwardAction::Replay {
                replay: replay_steps(kind, types.len(), graph, seq.seq_len, k),
            };
        }
    }
    let capture: HiddenCapture = match kind {
        VerifyKind::Fused => HiddenCapture::Row(0),
        VerifyKind::K3 => HiddenCapture::Row(k - 1),
        VerifyKind::KGamma => if env.capture_all {
            HiddenCapture::All(k)
        } else {
            HiddenCapture::Row(k - 1)
        },
    };
    let steps: Vec<VerifyStep> = forward_steps(
        types,
        env.hss_engaged,
        capture,
        seq.seq_len,
        k,
        vocab,
        graphs,
    );
    let keep: bool = graphs && (kind != VerifyKind::K3 || (!env.graph_trace && !env.no_cache));
    ForwardAction::Run { steps, keep }
}

/// Take over the graph of a finished capture; returns whether it is launched now. A null graph
/// is neither cached nor launched.
pub fn finish_capture(cache: &mut SlotGraphs, slot: usize, k: usize, graph: u64, keep: bool) -> (r:
    bool)
    requires
        old(cache).wf(),
    ensures
        final(cache).wf(),
        r == (graph != 0),
        (graph != 0 && keep) ==> final(cache).cached(slot, k) == Some(graph),
        forall|s: usize, n: usize|
            (s != slot || n != k || graph == 0 || !keep) ==> final(cache).cached(s, n) == old(
                cache,
            ).cached(s, n),
{
    if graph == 0 {
        return false;
    }
    if keep {
        cache.insert(slot, k, graph);
    }
    true
}

/// The little-endian 32-bit word at byte `at`.
pub open spec fn le_word(buf: Seq<u8>, at: int) -> int {
    buf[at] + buf[at + 1] * 0x100 + buf[at + 2] * 0x1_0000 + buf[at + 3] * 0x100_0000
}

/// The argmax tokens of `rows` rows, read from their bytes.
pub fn decode_argmax(buf: &[u8], rows: usize) -> (r: Vec<u32>)
    requires
        rows * 4 <= buf@.len(),
    ensures
        r@ == Seq::new(rows as nat, |t: int| le_word(buf@, t * 4) as u32),
{
    let bytes: usize = buf.len();
    let mut out: Vec<u32> = Vec::new();
    let mut t: usize = 0;
    while t < rows
        invariant
            rows * 4 <= bytes,
            bytes == buf@.len(),
            t <= rows,
            out@ == Seq::new(t as nat, |i: int| le_word(buf@, i * 4) as u32),
        decreases rows - t,
    {
        let at: usize = t * 4;
        let word: u32 = (buf[at] as u32) + (buf[at + 1] as u32) * 0x100 + (buf[at + 2] as u32)
            * 0x1_0000 + (buf[at + 3] as u32) * 0x100_0000;
        out.push(word);
        t = t + 1;
    }
    out
}

/// Append the verified rows: every token is kept and the length grows by their number. Rolling
/// back rejected rows is the caller's.
pub fn commit_rows(seq: &mut SequenceState, tokens: &[u32])
    requires
        old(seq).seq_len + tokens@.len() <= usize::MAX,
    ensures
        final(seq).tokens@ == old(seq).tokens@ + tokens@,
        *final(seq) == (SequenceState {
            tokens: final(seq).tokens,
            seq_len: (old(seq).seq_len + tokens@.len()) as usize,
            ..*old(seq)
        }),
{
    let mut i: usize = 0;
    while i < tokens.len()
        invariant
            i <= tokens@.len(),
            seq.tokens@ == old(seq).tokens@ + tokens@.subrange(0, i as int),
            *seq == (SequenceState { tokens: seq.tokens, ..*old(seq) }),
        decreases tokens@.len() - i,
    {
        seq.tokens.push(tokens[i]);
        i = i + 1;
        assert(seq.tokens@ =~= old(seq).tokens@ + tokens@.subrange(0, i as int));
    }
    assert(tokens@.subrange(0, i as int) =~= tokens@);
    seq.seq_len = seq.seq_len + tokens.len();
}

/// How an eager verify of `tokens` runs.
#[derive(Clone, Copy, Debug, PartialEq, Eq, Structural)]
pub enum EagerVerify {
    /// No token: no result.
    Empty,
    /// One token: a plain decode and its argmax.
    Decode { token: u32 },
    /// Several rows through each layer in turn.
    Rows { k: usize },
}

/// How an eager verify of `tokens` runs.
pub fn eager_verify(tokens: &[u32]) -> (r: EagerVerify)
    ensures
        r == if tokens@.len() == 0 {
            EagerVerify::Empty
        } else if tokens@.len() == 1 {
            (EagerVerify::Decode { token: tokens@[0] })
        } else {
            (EagerVerify::Rows { k: tokens@.len() as usize })
        },
{
    if tokens.len() == 0 {
        EagerVerify::Empty
    } else if tokens.len() == 1 {
        EagerVerify::Decode { token: tokens[0] }
    } else {
        EagerVerify::Rows { k: tokens.len() }
    }
}

/// The route of a layer in an eager verify: attention runs row by row, so that each row attends
/// and writes at its own position; every other layer runs once.
pub open spec fn eager_layer_route(ty: LayerType) -> LayerRoute {
    if ty == LayerType::FullAttention || ty == LayerType::SlidingAttention {
        LayerRoute::PerToken
    } else {
        LayerRoute::Batched
    }
}

/// The device steps of an eager verify over `k` rows from `pos` on.
pub open spec fn eager_steps_spec(types: Seq<LayerType>, pos: usize, k: usize, vocab: int) -> Seq<
    VerifyStep,
> {
    Seq::new(
        types.len(),
        |i: int| VerifyStep::Layer {
                layer: i as usize,
                route: eager_layer_route(types[i]),
                pos,
                rows: k,
            },
    ) + seq![VerifyStep::FinalNorm { rows: k }, VerifyStep::LmHead { rows: k }] + argmax_steps(
        k as nat,
        vocab,
    )
}

/// The device steps of an eager verify over `k` rows from `pos` on.
pub fn eager_steps(types: &Vec<LayerType>, pos: usize, k: usize, vocab: usize) -> (r: Vec<VerifyStep>)
    requires
        k * vocab * 2 <= usize::MAX,
        k * 4 <= usize::MAX,
    ensures
        r@ == eager_steps_spec(types@, pos, k, vocab as int),
{
    let ghost layers = Seq::new(
        types@.len(),
        |i: int| VerifyStep::Layer {
                layer: i as usize,
                route: eager_layer_route(types@[i]),
                pos,
                rows: k,
            },
    );
    let mut steps: Vec<VerifyStep> = Vec::new();
    let mut i: usize = 0;
    while i < types.len()
        invariant
            i <= types@.len(),
            layers == Seq::new(
                types@.len(),
                |i: int|
                    VerifyStep::Layer {
                layer: i as usize,
                route: eager_layer_route(types@[i]),
                pos,
                rows: k,
            },
            ),
            steps@ == layers.subrange(0, i as int),
        decreases types@.len() - i,
    {
        let route: LayerRoute = match types[i] {
            LayerType::FullAttention => LayerRoute::PerToken,
            LayerType::SlidingAttention => LayerRoute::PerToken,
            _ => LayerRoute::Batched,
        };
        steps.push(VerifyStep::Layer { layer: i, route, pos, rows: k });
        i = i + 1;
        assert(steps@ =~= layers.subrange(0, i as int));
    }
    assert(layers.subrange(0, i as int) =~= layers);
    steps.push(VerifyStep::FinalNorm { rows: k });
    steps.push(VerifyStep::LmHead { rows: k });
    let ghost head = steps@;
    assert(head =~= layers + seq![VerifyStep::FinalNorm { rows: k }, VerifyStep::LmHead { rows: k }]);
    let mut t: usize = 0;
    while t < k
        invariant
            k * vocab * 2 <= usize::MAX,
            k * 4 <= usize::MAX,
            t <= k,
            steps@ == head + argmax_steps(t as nat, vocab as int),
        decreases k - t,
    {
        proof {
            lemma_row_fits(t as int, k as int, vocab as int);
        }
        steps.push(
            VerifyStep::Argmax { logits_offset: t * vocab * ROW_ELEM_BYTES, out_offset: t * 4 },
        );
        t = t + 1;
        assert(steps@ =~= head + argmax_steps(t as nat, vocab as int));
    }
    steps
}

/// Metadata of one row decoded on its own.
pub struct TokenMeta {
    /// The row's place in the sequence.
    pub pos: usize,
    /// `pos` as uploaded.
    pub position: u32,
    pub slot: i64,
    pub seq_len: i32,
    pub block_table: Vec<i32>,
    pub max_blocks: u32,
}

/// The metadata of verify row `t` decoded on its own. A block outside the window is replaced by
/// `dummy_block`.
pub fn token_metadata(seq: &SequenceState, t: usize, bs: usize, dummy_block: u32) -> (r: TokenMeta)
    requires
        0 < bs <= MAX_BLOCK_SIZE,
        seq.seq_len + t < usize::MAX,
    ensures
        r.pos == seq.seq_len + t,
        r.position == (seq.seq_len + t) as u32,
        r.slot == seq_slot_spec(*seq, seq.seq_len + t, bs as int, dummy_block),
        r.seq_len == (seq.seq_len + t + 1) as i32,
        r.block_table@ == table_words_spec(seq.block_table@),
        r.max_blocks == seq.block_table@.len() as u32,
{
    let pos: usize = seq.seq_len + t;
    TokenMeta {
        pos,
        position: pos as u32,
        slot: seq_slot(seq, pos, bs, dummy_block),
        seq_len: (pos + 1) as i32,
        block_table: table_words(&seq.block_table),
        max_blocks: seq.block_table.len() as u32,
    }
}

/// Bytes of the staging for rows decoded on their own.
pub const TOKEN_META_BYTES: usize = 16384;

/// Offset of the block table in that staging.
pub const TOKEN_META_TABLE: usize = 256;

/// Block-table growth the staging leaves room for.
pub const TOKEN_META_SLACK: usize = 4;

/// Whether a block table of `blocks` entries, with the growth of a verify, fits the staging for
/// rows decoded on their own.
pub fn token_staging_fits(blocks: usize) -> (r: bool)
    ensures
        r == (TOKEN_META_TABLE + (blocks + TOKEN_META_SLACK) * 4 <= TOKEN_META_BYTES),
{
    blocks <= (TOKEN_META_BYTES - TOKEN_META_TABLE) / 4 - TOKEN_META_SLACK
}

/// The steps of a forward by their place: with a capture the first step begins it and the last
/// ends it; between them every layer runs once over all rows from the sequence's end on, each
/// followed by the hand-off of its own hidden rows, then the final norm and the head run over all
/// rows, then row `t`'s logits are reduced to word `t` of the output.
pub proof fn forward_runs_every_layer_over_every_row(
    kind: VerifyKind,
    env: &VerifyEnv,
    types: &Vec<LayerType>,
    seq: &SequenceState,
    k: usize,
    vocab: usize,
    cache: &SlotGraphs,
    r: ForwardAction,
    i: int,
    t: int,
)
    requires
        call_ensures(plan_forward, (kind, env, types, seq, k, vocab, cache), r),
        r is Run,
        k * vocab * 2 <= usize::MAX,
        k * 4 <= usize::MAX,
    ensures
        ({
            let steps = r->Run_steps@;
            let m = types@.len() as int;
            let captured = steps.len() > 0 && steps[0] is BeginCapture;
            let o = if captured {
                1int
            } else {
                0
            };
            &&& steps.len() == 2 * o + 2 * m + 2 + k
            &&& captured ==> steps.last() is EndCapture
            &&& 0 <= i < m ==> {
                &&& steps[o + 2 * i] matches VerifyStep::Layer { layer, route, pos, rows }
                &&& layer == i
                &&& pos == seq.seq_len
                &&& rows == k
                &&& route == match types@[i] {
                    LayerType::FullAttention => if env.hss_engaged {
                        LayerRoute::Batched
                    } else {
                        LayerRoute::MultiSeq
                    },
                    LayerType::SlidingAttention => LayerRoute::PerToken,
                    LayerType::LinearAttention => LayerRoute::Batched,
                    LayerType::Other => LayerRoute::Batched,
                }
            }
            &&& 0 <= i < m ==> {
                &&& steps[o + 2 * i + 1] matches VerifyStep::CaptureHidden { layer, capture }
                &&& layer == i
                &&& match capture {
                    HiddenCapture::All(rows) => kind is KGamma && env.capture_all && rows == k,
                    HiddenCapture::Row(row) => if kind is Fused {
                        row == 0
                    } else {
                        (k > 0 ==> row == k - 1) && !(kind is KGamma && env.capture_all)
                    },
                }
            }
            &&& steps[o + 2 * m] == (VerifyStep::FinalNorm { rows: k })
            &&& steps[o + 2 * m + 1] == (VerifyStep::LmHead { rows: k })
            &&& 0 <= t < k ==> (steps[o + 2 * m + 2 + t] matches VerifyStep::Argmax {
                logits_offset,
                out_offset,
            } && logits_offset == t * vocab * 2 && out_offset == t * 4)
        }),
{
    assert(types.len() == types@.len());
    let steps = r->Run_steps@;
    let graphs = use_graphs_spec(kind, *env, types@);
    if graphs {
        assert(steps[0] is BeginCapture);
    } else if types@.len() > 0 {
        assert(steps[0] is Layer);
    } else {
        assert(steps[0] is FinalNorm);
    }
    if 0 <= i < types@.len() {
        assert((2 * i) % 2 == 0 && (2 * i) / 2 == i);
        assert((2 * i + 1) % 2 == 1 && (2 * i + 1) / 2 == i);
    }
    if 0 <= t < k {
        lemma_row_fits(t, k as int, vocab as int);
    }
}

/// No argmax reads logits that this forward did not compute: before any argmax step the head ran
/// over more rows than the one it reads, after the final norm over as many rows, after every
/// layer; and the row lies wholly inside the head's output.
pub proof fn argmax_reads_rows_the_head_wrote(
    kind: VerifyKind,
    env: &VerifyEnv,
    types: &Vec<LayerType>,
    seq: &SequenceState,
    k: usize,
    vocab: usize,
    cache: &SlotGraphs,
    r: ForwardAction,
    a: int,
) -> (c: (int, int))
    requires
        call_ensures(plan_forward, (kind, env, types, seq, k, vocab, cache), r),
        r is Run,
        k * vocab * 2 <= usize::MAX,
        k * 4 <= usize::MAX,
        0 <= a < r->Run_steps@.len(),
        r->Run_steps@[a] is Argmax,
    ensures
        ({
            let steps = r->Run_steps@;
            let (norm, head) = c;
            &&& 0 <= norm < head < a
            &&& steps[norm] matches VerifyStep::FinalNorm { rows: normed }
            &&& steps[head] matches VerifyStep::LmHead { rows }
            &&& normed >= rows
            &&& steps[a]->logits_offset + vocab * 2 <= rows * vocab * 2
            &&& forall|x: int|
                0 <= x < steps.len() && (#[trigger] steps[x] is Layer) ==> x < norm
        }),
{
    let steps = r->Run_steps@;
    let m = types@.len() as int;
    let graphs = use_graphs_spec(kind, *env, types@);
    let o = if graphs {
        1int
    } else {
        0
    };
    let norm = o + 2 * m;
    let t = a - (norm + 2);
    let ls = layer_steps(types@, env.hss_engaged, hidden_capture_spec(kind, *env, k), seq.seq_len, k);
    assert(steps.len() == 2 * o + 2 * m + 2 + k);
    assert(steps[norm] == (VerifyStep::FinalNorm { rows: k }));
    assert(steps[norm + 1] == (VerifyStep::LmHead { rows: k }));
    assert(t >= 0) by {
        if a < norm {
            if a >= o {
                assert(steps[a] == ls[a - o]);
            }
        }
    }
    assert(t < k);
    assert(steps[a] == argmax_steps(k as nat, vocab as int)[t]);
    lemma_row_fits(t, k as int, vocab as int);
    lemma_row_fits(t + 1, k as int, vocab as int);
    assert(t * vocab * 2 + vocab * 2 == (t + 1) * vocab * 2) by (nonlinear_arith);
    assert forall|x: int| 0 <= x < steps.len() && (#[trigger] steps[x] is Layer) implies x
        < norm by {
        if x >= norm + 2 && x < norm + 2 + k {
            assert(steps[x] == argmax_steps(k as nat, vocab as int)[x - norm - 2]);
        }
    }
    (norm, norm + 1)
}

/// A forward is captured exactly where that is legal: never with the disk tier, with eager
/// adapters or with a sliding-window layer; with a communicator only the three-row verify, when
/// its graphs or their trace are on; and not while graphs are suppressed or forced off. A capture
/// is kept unless the three-row verify traces graphs or keeps none.
pub proof fn captures_only_where_legal(
    kind: VerifyKind,
    env: &VerifyEnv,
    types: &Vec<LayerType>,
    seq: &SequenceState,
    k: usize,
    vocab: usize,
    cache: &SlotGraphs,
    r: ForwardAction,
)
    requires
        call_ensures(plan_forward, (kind, env, types, seq, k, vocab, cache), r),
        r is Run,
    ensures
        ({
            let steps = r->Run_steps@;
            let captured = steps.len() > 0 && steps[0] is BeginCapture;
            let sliding = exists|i: int|
                0 <= i < types@.len() && types@[i] == LayerType::SlidingAttention;
            &&& captured ==> !env.hss_engaged && !env.lora_eager && !sliding
            &&& captured && env.has_comm ==> kind is K3 && (env.ep_graphs || env.graph_trace)
            &&& captured && env.suppressed ==> kind is K3
            &&& captured && env.force_eager ==> !(kind is KGamma)
            &&& (!env.hss_engaged && !env.lora_eager && !sliding && !env.has_comm && !env.suppressed
                && !env.force_eager) ==> captured
            &&& r->keep ==> captured
            &&& r->keep && kind is K3 ==> !env.graph_trace && !env.no_cache
            &&& captured && !(kind is K3) ==> r->keep
            &&& captured && !env.graph_trace && !env.no_cache ==> r->keep
        }),
{
    let steps = r->Run_steps@;
    if use_graphs_spec(kind, *env, types@) {
        assert(steps[0] is BeginCapture);
    } else if types@.len() > 0 {
        assert(steps[0] is Layer);
    } else {
        assert(steps[0] is FinalNorm);
    }
}

/// A replay launches the graph that is cached for the sequence's slot and row count, and no
/// other. A three-row replay first asks every layer for room for exactly the rows it will write,
/// and afterwards brings every layer up to them; other replays are the launch alone.
pub proof fn replay_launches_the_cached_graph(
    kind: VerifyKind,
    env: &VerifyEnv,
    types: &Vec<LayerType>,
    seq: &SequenceState,
    k: usize,
    vocab: usize,
    cache: &SlotGraphs,
    r: ForwardAction,
    cached: Option<u64>,
    i: int,
)
    requires
        call_ensures(plan_forward, (kind, env, types, seq, k, vocab, cache), r),
        call_ensures(SlotGraphs::get, (cache, seq.slot_idx, k), cached),
        r is Replay,
    ensures
        ({
            let steps = r->replay@;
            let m = types@.len() as int;
            &&& cached matches Some(graph)
            &&& kind is K3 ==> {
                &&& steps.len() == 2 * m + 1
                &&& steps[m] == (ReplayStep::Launch { graph })
                &&& 0 <= i < m ==> {
                    &&& steps[i] matches ReplayStep::CheckRoom { layer, pos, rows }
                    &&& layer == i && pos == seq.seq_len && rows == k
                    &&& steps[m + 1 + i] matches ReplayStep::Sync { layer: l2, pos: p2, rows: r2 }
                    &&& l2 == i && p2 == seq.seq_len && r2 == k
                }
            }
            &&& !(kind is K3) ==> steps.len() == 1 && steps[0] == (ReplayStep::Launch { graph })
        }),
{
    assert(types.len() == types@.len());
}

/// Something always runs but for an empty verify of any row count: a cached graph is replayed
/// where graphs are legal, and otherwise the forward runs.
pub proof fn only_an_empty_verify_does_nothing(
    kind: VerifyKind,
    env: &VerifyEnv,
    types: &Vec<LayerType>,
    seq: &SequenceState,
    k: usize,
    vocab: usize,
    cache: &SlotGraphs,
    r: ForwardAction,
)
    requires
        call_ensures(plan_forward, (kind, env, types, seq, k, vocab, cache), r),
    ensures
        r is Nothing <==> kind is KGamma && k == 0,
{
}

/// The steps of an eager forward by their place: every layer once over all rows from `pos` on,
/// attention row by row, then the final norm and the head over all rows, then each row's argmax.
pub proof fn eager_forward_runs_every_layer(
    types: &Vec<LayerType>,
    pos: usize,
    k: usize,
    vocab: usize,
    r: Vec<VerifyStep>,
    i: int,
    t: int,
)
    requires
        call_ensures(eager_steps, (types, pos, k, vocab), r),
        k * vocab * 2 <= usize::MAX,
        k * 4 <= usize::MAX,
    ensures
        ({
            let m = types@.len() as int;
            &&& r@.len() == m + 2 + k
            &&& 0 <= i < m ==> {
                &&& r@[i] matches VerifyStep::Layer { layer, route, pos: p, rows }
                &&& layer == i && p == pos && rows == k
                &&& route is PerToken <==> types@[i] is FullAttention || types@[i]
                    is SlidingAttention
                &&& route is Batched <==> types@[i] is LinearAttention || types@[i] is Other
            }
            &&& r@[m] == (VerifyStep::FinalNorm { rows: k })
            &&& r@[m + 1] == (VerifyStep::LmHead { rows: k })
            &&& 0 <= t < k ==> (r@[m + 2 + t] matches VerifyStep::Argmax {
                logits_offset,
                out_offset,
            } && logits_offset == t * vocab * 2 && out_offset == t * 4)
        }),
{
    assert(types.len() == types@.len());
    if 0 <= t < k {
        lemma_row_fits(t, k as int, vocab as int);
    }
}

/// Every verify row is described by itself: row `t` is at the sequence's length plus `t`, its key
/// and value go to that position's slot in the sequence's own block, it attends through itself,
/// and it reads the sequence's own blocks in order, with zeros past them.
pub proof fn verify_rows_describe_themselves(
    seq: &SequenceState,
    k: usize,
    bs: usize,
    max_blocks: usize,
    r: VerifyMeta,
    t: int,
    j: int,
)
    requires
        call_ensures(verify_metadata, (seq, k, bs, max_blocks), r),
        0 < bs <= MAX_BLOCK_SIZE,
        0 <= t < k,
        0 <= j < max_blocks,
        seq.seq_len + k <= i32::MAX,
    ensures
        ({
            let pos = seq.seq_len + t;
            let table = seq.block_table@;
            let seen = seq.disk_block_ids@.len() as int;
            let first = if seen > table.len() {
                seen - table.len()
            } else {
                0
            };
            let at = pos / bs as int - first;
            let block = if 0 <= at < table.len() {
                table[at]
            } else {
                0
            };
            &&& r.positions@.len() == k && r.slots@.len() == k && r.seq_lens@.len() == k
            &&& r.block_table@.len() == k * max_blocks
            &&& r.positions@[t] == pos
            &&& r.seq_lens@[t] == pos + 1
            &&& r.slots@[t] == block as int * bs as int + pos % bs as int
            &&& r.block_table@[t * max_blocks + j] == if j < table.len() {
                table[j] as i32
            } else {
                0
            }
        }),
{
    lemma_slot_fits(*seq, seq.seq_len + t, bs as int, 0);
    each_row_reads_the_table(table_row_spec(seq.block_table@, max_blocks as nat), k as nat, t, j);
}

/// A row decoded on its own is described like the same row of a verify: its position, its slot in
/// the sequence's own block or the dummy block, its causal length and the whole table.
pub proof fn single_rows_describe_themselves(
    seq: &SequenceState,
    t: usize,
    bs: usize,
    dummy_block: u32,
    r: TokenMeta,
)
    requires
        call_ensures(token_metadata, (seq, t, bs, dummy_block), r),
        0 < bs <= MAX_BLOCK_SIZE,
        seq.seq_len + t < i32::MAX,
    ensures
        ({
            let pos = seq.seq_len + t;
            let table = seq.block_table@;
            let seen = seq.disk_block_ids@.len() as int;
            let first = if seen > table.len() {
                seen - table.len()
            } else {
                0
            };
            let at = pos / bs as int - first;
            let block = if 0 <= at < table.len() {
                table[at]
            } else {
                dummy_block
            };
            &&& r.pos == pos
            &&& r.position == pos
            &&& r.seq_len == pos + 1
            &&& r.slot == block as int * bs as int + pos % bs as int
            &&& r.block_table@.len() == table.len()
            &&& forall|j: int|
                0 <= j < table.len() ==> #[trigger] r.block_table@[j] == table[j] as i32
            &&& r.max_blocks == table.len() as u32
        }),
{
    lemma_slot_fits(*seq, seq.seq_len + t, bs as int, dummy_block);
}

/// Row `t` of the embeddings is token `t`, and the rows lie one after another, each `h` elements
/// of two bytes wide.
pub proof fn embedded_rows_are_the_tokens(tokens: &[u32], h: usize, r: Vec<RowEmbed>, t: int)
    requires
        call_ensures(embed_rows, (tokens, h), r),
        tokens@.len() * h * 2 <= usize::MAX,
        0 <= t < tokens@.len(),
    ensures
        r@.len() == tokens@.len(),
        r@[t].token == tokens@[t],
        r@[0].offset == 0,
        t > 0 ==> r@[t].offset == r@[t - 1].offset + 2 * h,
{
    lemma_row_fits(t, tokens@.len() as int, h as int);
    lemma_row_fits(0, tokens@.len() as int, h as int);
    if t > 0 {
        lemma_row_fits(t - 1, tokens@.len() as int, h as int);
        assert(t * h * 2 == (t - 1) * h * 2 + 2 * h) by (nonlinear_arith);
    }
}

/// The block made available for row `t` is the one that holds its position.
pub proof fn row_blocks_hold_their_positions(
    seq_len: usize,
    k: usize,
    bs: usize,
    r: Vec<usize>,
    t: int,
)
    requires
        call_ensures(row_blocks, (seq_len, k, bs), r),
        bs > 0,
        seq_len + k <= usize::MAX,
        0 <= t < k,
    ensures
        r@.len() == k,
        r@[t] * bs <= seq_len + t < (r@[t] + 1) * bs,
{
    let pos = seq_len + t;
    let b = bs as int;
    let q = pos / b;
    assert(0 <= q <= pos && q * b <= pos < (q + 1) * b) by (nonlinear_arith)
        requires
            q == pos / b,
            0 <= pos,
            0 < b,
    ;
}

/// The lengths of rows run as separate sequences count up one by one from `pos`.
pub proof fn separate_rows_count_up(pos: usize, rows: usize, r: Vec<usize>, t: int)
    requires
        call_ensures(row_lens, (pos, rows), r),
        pos + rows <= usize::MAX,
        0 <= t < rows,
    ensures
        r@.len() == rows,
        r@[0] == pos,
        t > 0 ==> r@[t] == r@[t - 1] + 1,
{
}

/// Reading back gives the words that were written: token `t` is the little-endian word in bytes
/// `4 * t` to `4 * t + 3`.
pub proof fn argmax_words_are_little_endian(buf: &[u8], rows: usize, r: Vec<u32>, t: int)
    requires
        call_ensures(decode_argmax, (buf, rows), r),
        rows * 4 <= buf@.len(),
        0 <= t < rows,
    ensures
        r@.len() == rows,
        r@[t] == buf@[4 * t] + 256 * buf@[4 * t + 1] + 65536 * buf@[4 * t + 2] + 16777216 * buf@[4
            * t + 3],
{
}

/// A committed verify appends its tokens and moves the length by their number; the rest of the
/// sequence stays.
pub proof fn commits_append_every_row(seq: &mut SequenceState, tokens: &[u32])
    requires
        call_ensures(commit_rows, (seq, tokens), ()),
        old(seq).seq_len + tokens@.len() <= usize::MAX,
    ensures
        final(seq).tokens@.len() == old(seq).tokens@.len() + tokens@.len(),
        forall|i: int|
            0 <= i < old(seq).tokens@.len() ==> #[trigger] final(seq).tokens@[i] == old(
                seq,
            ).tokens@[i],
        forall|i: int|
            0 <= i < tokens@.len() ==> final(seq).tokens@[old(seq).tokens@.len() + i]
                == #[trigger] tokens@[i],
        final(seq).seq_len == old(seq).seq_len + tokens@.len(),
        final(seq).block_table == old(seq).block_table,
        final(seq).layer_states == old(seq).layer_states,
        final(seq).kv_valid_tokens == old(seq).kv_valid_tokens,
        final(seq).last_decode_ckpt_block == old(seq).last_decode_ckpt_block,
{
}

/// An eager verify with no token gives nothing, with one token is a decode of it, and otherwise
/// takes every token as a row.
pub proof fn eager_verify_takes_every_token(tokens: &[u32], r: EagerVerify)
    requires
        call_ensures(eager_verify, (tokens,), r),
    ensures
        match r {
            EagerVerify::Empty => tokens@.len() == 0,
            EagerVerify::Decode { token } => tokens@.len() == 1 && tokens@[0] == token,
            EagerVerify::Rows { k } => tokens@.len() >= 2 && k == tokens@.len() as usize,
        },
{
}

/// A graph is launched exactly when the capture gave one. A launched graph that is kept is what a
/// later lookup of its slot and row count finds, and no other lookup changes.
pub proof fn captured_graphs_are_found_again(
    cache: &mut SlotGraphs,
    slot: usize,
    k: usize,
    graph: u64,
    keep: bool,
    r: bool,
    s: usize,
    n: usize,
    before: Option<u64>,
    after: Option<u64>,
)
    requires
        call_ensures(finish_capture, (cache, slot, k, graph, keep), r),
        call_ensures(SlotGraphs::get, (old(cache), s, n), before),
        call_ensures(SlotGraphs::get, (final(cache), s, n), after),
    ensures
        r <==> graph != 0,
        after == if s == slot && n == k && graph != 0 && keep {
            Some(graph)
        } else {
            before
        },
{
}

/// Graphs are used exactly where a capture is legal and allowed, layer by layer and switch by
/// switch; a suppression lasts until a calibration with tokens is frozen.
pub proof fn graphs_are_used_where_allowed(
    kind: VerifyKind,
    env: &VerifyEnv,
    types: &Vec<LayerType>,
    r: bool,
    suppressed: bool,
    tokens: usize,
    frozen: bool,
    still: bool,
)
    requires
        call_ensures(use_graphs, (kind, env, types), r),
        call_ensures(still_suppressed, (suppressed, tokens, frozen), still),
    ensures
        ({
            let sliding = exists|i: int|
                0 <= i < types@.len() && types@[i] == LayerType::SlidingAttention;
            let legal = !env.hss_engaged && !env.lora_eager && !sliding;
            &&& kind is K3 ==> (r <==> legal && (env.has_comm ==> env.ep_graphs || env.graph_trace))
            &&& kind is KGamma ==> (r <==> legal && !env.has_comm && !env.suppressed
                && !env.force_eager)
            &&& kind is Fused ==> (r <==> legal && !env.has_comm && !env.suppressed)
        }),
        still ==> suppressed,
        suppressed && !still ==> frozen && tokens > 0,
        frozen && tokens > 0 ==> !still,
        suppressed && tokens == 0 ==> still,
{
}

/// Full attention runs its rows as separate sequences, or batched where the disk tier is read; a
/// sliding window runs row by row, and any other layer batched. A table fits the staging for single
/// rows exactly when, grown by four entries of four bytes behind the first 256 bytes, it ends
/// within 16384.
pub proof fn layers_run_where_their_rows_are_read(
    ty: LayerType,
    hss_engaged: bool,
    r: LayerRoute,
    blocks: usize,
    fits: bool,
)
    requires
        call_ensures(verify_layer_route, (ty, hss_engaged), r),
        call_ensures(token_staging_fits, (blocks,), fits),
    ensures
        r is PerToken <==> ty is SlidingAttention,
        r is MultiSeq <==> ty is FullAttention && !hss_engaged,
        fits <==> 256 + 4 * (blocks + 4) <= 16384,
{
}

/// A verify has one entry of everything per row, whatever the number of rows.
pub proof fn verifies_have_one_entry_per_row(
    seq: &SequenceState,
    k: usize,
    bs: usize,
    max_blocks: usize,
    meta: VerifyMeta,
    tokens: &[u32],
    h: usize,
    embeds: Vec<RowEmbed>,
    blocks: Vec<usize>,
    lens: Vec<usize>,
    buf: &[u8],
    words: Vec<u32>,
)
    requires
        call_ensures(verify_metadata, (seq, k, bs, max_blocks), meta),
        call_ensures(embed_rows, (tokens, h), embeds),
        call_ensures(row_blocks, (seq.seq_len, k, bs), blocks),
        call_ensures(row_lens, (seq.seq_len, k), lens),
        call_ensures(decode_argmax, (buf, k), words),
    ensures
        meta.positions@.len() == k,
        meta.slots@.len() == k,
        meta.seq_lens@.len() == k,
        meta.block_table@.len() == k * max_blocks,
        embeds@.len() == tokens@.len(),
        blocks@.len() == k,
        lens@.len() == k,
        words@.len() == k,
{
    lemma_repeat_row_len(table_row_spec(seq.block_table@, max_blocks as nat), k as nat);
}

/// The steps of any forward by their place, whatever decided on the capture: it is begun first and
/// ended last; every layer runs once over all `k` rows from `pos` on and hands over its rows as it
/// was told; then come the final norm and the head over all rows, and each row's argmax.
pub proof fn forwards_run_every_step_in_order(
    types: &Vec<LayerType>,
    hss: bool,
    capture: HiddenCapture,
    pos: usize,
    k: usize,
    vocab: usize,
    captured: bool,
    r: Vec<VerifyStep>,
    i: int,
    t: int,
)
    requires
        call_ensures(forward_steps, (types, hss, capture, pos, k, vocab, captured), r),
        k * vocab * 2 <= usize::MAX,
        k * 4 <= usize::MAX,
    ensures
        ({
            let m = types@.len() as int;
            let o = if captured {
                1int
            } else {
                0
            };
            &&& r@.len() == 2 * o + 2 * m + 2 + k
            &&& captured ==> r@[0] is BeginCapture && r@.last() is EndCapture
            &&& 0 <= i < m ==> {
                &&& r@[o + 2 * i] matches VerifyStep::Layer { layer, route, pos: p, rows }
                &&& layer == i && p == pos && rows == k
                &&& r@[o + 2 * i + 1] == (VerifyStep::CaptureHidden { layer, capture })
            }
            &&& r@[o + 2 * m] == (VerifyStep::FinalNorm { rows: k })
            &&& r@[o + 2 * m + 1] == (VerifyStep::LmHead { rows: k })
            &&& 0 <= t < k ==> (r@[o + 2 * m + 2 + t] matches VerifyStep::Argmax {
                logits_offset,
                out_offset,
            } && logits_offset == t * vocab * 2 && out_offset == t * 4)
        }),
{
    assert(types.len() == types@.len());
    if 0 <= i < types@.len() {
        assert((2 * i) % 2 == 0 && (2 * i) / 2 == i);
        assert((2 * i + 1) % 2 == 1 && (2 * i + 1) / 2 == i);
    }
    if 0 <= t < k {
        lemma_row_fits(t, k as int, vocab as int);
    }
}

} // verus!
