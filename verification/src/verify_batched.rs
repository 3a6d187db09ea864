//! Batched verify: several sequences with a few rows each in one forward pass.
//!
//! The rows are sequence-major: sequence `i` owns the rows from the sum of the earlier row counts
//! on. Rows a borrowed graph adds come after all of them and point only at the dummy block.

use vstd::prelude::*;

use crate::kv_rows::{
    causal_lens, causal_lens_spec, kv_slot, kv_slot_spec, positions, positions_spec,
    lemma_slot_fits, push_table_row, seq_slot_spec, seq_slots, table_row_spec, MAX_BLOCK_SIZE,
};
use crate::layers::{
    count_before, lemma_count_before_bound, lemma_rank_in_list, layer_indices, LayerType,
};
use crate::sequence_state::SequenceState;
use crate::verify_single::{
    commit_rows, each_row_reads_the_table, lemma_repeat_row_len, lemma_row_fits, repeat_row,
    ROW_ELEM_BYTES,
};
use crate::verify_switches::VERIFY_ROW_CAP;

verus! {

/// Sum of the first `n` row counts.
pub open spec fn sum_rows(ks: Seq<usize>, n: int) -> int
    decreases n,
{
    if n <= 0 {
        0
    } else {
        sum_rows(ks, n - 1) + ks[n - 1]
    }
}

/// Row sums grow with the number of sequences.
pub proof fn lemma_sum_rows_mono(ks: Seq<usize>, a: int, b: int)
    requires
        0 <= a <= b <= ks.len(),
    ensures
        0 <= sum_rows(ks, a) <= sum_rows(ks, b),
    decreases b,
{
    if b > 0 {
        if a == b {
            lemma_sum_rows_mono(ks, 0, b - 1);
        } else {
            lemma_sum_rows_mono(ks, a, b - 1);
        }
    }
}

/// The row ranges of the sequences are disjoint and cover all rows: every row belongs to exactly
/// one sequence.
pub proof fn rows_partition(ks: Seq<usize>, r: int)
    requires
        0 <= r < sum_rows(ks, ks.len() as int),
    ensures
        exists|i: int|
            0 <= i < ks.len() && #[trigger] sum_rows(ks, i) <= r < sum_rows(ks, i + 1),
        forall|i: int, j: int|
            0 <= i < ks.len() && 0 <= j < ks.len() && #[trigger] sum_rows(ks, i) <= r < sum_rows(
                ks,
                i + 1,
            ) && #[trigger] sum_rows(ks, j) <= r < sum_rows(ks, j + 1) ==> i == j,
{
    lemma_find_row(ks, ks.len() as int, r);
    assert forall|i: int, j: int|
        0 <= i < ks.len() && 0 <= j < ks.len() && #[trigger] sum_rows(ks, i) <= r < sum_rows(
            ks,
            i + 1,
        ) && #[trigger] sum_rows(ks, j) <= r < sum_rows(ks, j + 1) implies i == j by {
        if i < j {
            lemma_sum_rows_mono(ks, i + 1, j);
        }
        if j < i {
            lemma_sum_rows_mono(ks, j + 1, i);
        }
    }
}

proof fn lemma_find_row(ks: Seq<usize>, n: int, r: int)
    requires
        0 <= n <= ks.len(),
        0 <= r < sum_rows(ks, n),
    ensures
        exists|i: int|
            0 <= i < ks.len() && #[trigger] sum_rows(ks, i) <= r < sum_rows(ks, i + 1),
    decreases n,
{
    if n > 0 {
        if r < sum_rows(ks, n - 1) {
            lemma_find_row(ks, n - 1, r);
        } else {
            assert(sum_rows(ks, n - 1) <= r < sum_rows(ks, n - 1 + 1));
        }
    }
}

/// Capture bands of a block drafter: rows per sequence, and rows the capture buffer holds.
#[derive(Clone, Copy, Debug)]
pub struct DraftBands {
    pub kgamma: usize,
    pub save_rows: usize,
}

/// What decides whether sequences can be verified in one batch.
#[derive(Clone, Copy, Debug)]
pub struct BatchVerifyEnv {
    /// Most sequences a pointer table holds.
    pub max_seqs: usize,
    pub bands: Option<DraftBands>,
    pub has_comm: bool,
    pub lora_loaded: bool,
    pub lora_no_batch: bool,
    /// Whether the stash of verify rows is not allocated.
    pub stash_null: bool,
    /// Whether some layer declines a verify of several sequences.
    pub any_layer_declines: bool,
    pub hss_engaged: bool,
}

/// Whether `ks[i]` rows per sequence is a shape a batch may have.
pub open spec fn batch_shape_ok(ks: Seq<usize>, bands: Option<DraftBands>) -> bool {
    match bands {
        Some(b) => {
            &&& b.kgamma >= 2
            &&& forall|i: int| 0 <= i < ks.len() ==> 2 <= #[trigger] ks[i] <= b.kgamma
            &&& forall|i: int| 0 <= i < ks.len() ==> #[trigger] ks[i] == ks[0]
            &&& ks.len() * b.kgamma <= b.save_rows
        },
        None => forall|i: int| 0 <= i < ks.len() ==> 2 <= #[trigger] ks[i] <= 4,
    }
}

/// Whether sequences with `ks[i]` rows each can be verified in one batch.
pub open spec fn can_batch_verify_spec(ks: Seq<usize>, env: BatchVerifyEnv) -> bool {
    &&& 2 <= ks.len() <= env.max_seqs
    &&& batch_shape_ok(ks, env.bands)
    &&& sum_rows(ks, ks.len() as int) <= VERIFY_ROW_CAP
    &&& !env.has_comm
    &&& !(env.lora_loaded && env.lora_no_batch)
    &&& !env.stash_null
    &&& !env.any_layer_declines
    &&& !env.hss_engaged
}

/// Whether every row count lies in `lo..=hi`.
fn all_in(ks: &[usize], lo: usize, hi: usize) -> (r: bool)
    ensures
        r == forall|i: int| 0 <= i < ks@.len() ==> lo <= #[trigger] ks@[i] <= hi,
{
    let mut i: usize = 0;
    while i < ks.len()
        invariant
            i <= ks@.len(),
            forall|j: int| 0 <= j < i ==> lo <= #[trigger] ks@[j] <= hi,
        decreases ks@.len() - i,
    {
        if ks[i] < lo || ks[i] > hi {
            assert(!(lo <= ks@[i as int] <= hi));
            return false;
        }
        i = i + 1;
    }
    true
}

/// Whether every row count equals the first.
fn all_same(ks: &[usize]) -> (r: bool)
    ensures
        r == forall|i: int| 0 <= i < ks@.len() ==> #[trigger] ks@[i] == ks@[0],
{
    let mut i: usize = 0;
    while i < ks.len()
        invariant
            i <= ks@.len(),
            forall|j: int| 0 <= j < i ==> #[trigger] ks@[j] == ks@[0],
        decreases ks@.len() - i,
    {
        if ks[i] != ks[0] {
            assert(ks@[i as int] != ks@[0]);
            return false;
        }
        i = i + 1;
    }
    true
}

/// Whether the row counts sum to at most `cap`.
fn sum_within(ks: &[usize], cap: usize) -> (r: bool)
    ensures
        r == (sum_rows(ks@, ks@.len() as int) <= cap),
{
    let mut left: usize = cap;
    let mut i: usize = 0;
    while i < ks.len()
        invariant
            i <= ks@.len(),
            left == cap - sum_rows(ks@, i as int),
        decreases ks@.len() - i,
    {
        if ks[i] > left {
            proof {
                lemma_sum_rows_mono(ks@, i + 1, ks@.len() as int);
            }
            return false;
        }
        left = left - ks[i];
        i = i + 1;
    }
    true
}

/// Whether sequences with `ks[i]` rows each can be verified in one batch. Otherwise they are
/// verified one at a time.
pub fn can_batch_verify(ks: &[usize], env: &BatchVerifyEnv) -> (r: bool)
    ensures
        r == can_batch_verify_spec(ks@, *env),
{
    let n: usize = ks.len();
    if n < 2 || n > env.max_seqs {
        return false;
    }
    let shape_ok: bool = match env.bands {
        Some(b) => {
            let fits: bool = b.kgamma <= b.save_rows / n;
            proof {
                assert(fits == (n * b.kgamma <= b.save_rows)) by (nonlinear_arith)
                    requires
                        n >= 2,
                        fits == (b.kgamma <= b.save_rows / n),
                ;
            }
            b.kgamma >= 2 && all_in(ks, 2, b.kgamma) && all_same(ks) && fits
        },
        None => all_in(ks, 2, 4),
    };
    shape_ok && sum_within(ks, VERIFY_ROW_CAP) && !env.has_comm && !(env.lora_loaded
        && env.lora_no_batch) && !env.stash_null && !env.any_layer_declines && !env.hss_engaged
}

/// Why a batched verify was refused.
#[derive(Clone, Copy, Debug, PartialEq, Eq, Structural)]
pub enum BatchVerifyError {
    /// Fewer than two sequences, a row count out of range, or counts that do not match.
    Shape,
    /// More rows than the buffers hold.
    TooManyRows { rows: usize },
    /// Staging the ghost entries changed whether there are pointer tables.
    RestageFlipped,
}

/// The rows of a batch.
pub struct BatchRows {
    /// Sequence `i` owns the rows `off[i]..off[i + 1]`.
    pub off: Vec<usize>,
    pub r_total: usize,
    pub k_max: usize,
}

/// The row counts a batched verify accepts.
pub open spec fn batch_rows_ok(
    ks: Seq<usize>,
    n: int,
    num_tokens: int,
    dflash_k: Option<usize>,
) -> bool {
    &&& n >= 2
    &&& ks.len() == n
    &&& forall|i: int|
        0 <= i < ks.len() ==> 2 <= #[trigger] ks[i] <= (match dflash_k {
            Some(g) => g,
            None => 4,
        })
    &&& num_tokens == sum_rows(ks, ks.len() as int)
}

/// Whether `m` is the largest row count, or 0 when there is none.
pub open spec fn is_max_rows(ks: Seq<usize>, m: int) -> bool {
    &&& forall|i: int| 0 <= i < ks.len() ==> #[trigger] ks[i] <= m
    &&& if ks.len() == 0 {
        m == 0
    } else {
        exists|i: int| 0 <= i < ks.len() && #[trigger] ks[i] == m
    }
}

/// Lay out the rows of a batch of `n` sequences, or refuse the batch.
pub fn batch_rows(ks: &[usize], n: usize, num_tokens: usize, dflash_k: Option<usize>) -> (r: Result<
    BatchRows,
    BatchVerifyError,
>)
    ensures
        r is Ok <==> batch_rows_ok(ks@, n as int, num_tokens as int, dflash_k) && sum_rows(
            ks@,
            ks@.len() as int,
        ) <= VERIFY_ROW_CAP,
        r == Err::<BatchRows, BatchVerifyError>(BatchVerifyError::Shape) <==> !batch_rows_ok(
            ks@,
            n as int,
            num_tokens as int,
            dflash_k,
        ),
        batch_rows_ok(ks@, n as int, num_tokens as int, dflash_k) && sum_rows(
            ks@,
            ks@.len() as int,
        ) > VERIFY_ROW_CAP ==> r == Err::<BatchRows, BatchVerifyError>(
            BatchVerifyError::TooManyRows { rows: sum_rows(ks@, ks@.len() as int) as usize },
        ),
        r matches Ok(b) ==> {
            &&& b.off@ == Seq::new(ks@.len() + 1, |i: int| sum_rows(ks@, i) as usize)
            &&& b.r_total == sum_rows(ks@, ks@.len() as int)
            &&& is_max_rows(ks@, b.k_max as int)
        },
{
    let mut off: Vec<usize> = Vec::new();
    let mut acc: usize = 0;
    let mut k_max: usize = 0;
    let mut i: usize = 0;
    while i < ks.len()
        invariant
            i <= ks@.len(),
            acc == sum_rows(ks@, i as int),
            off@ == Seq::new(i as nat, |j: int| sum_rows(ks@, j) as usize),
            is_max_rows(ks@.subrange(0, i as int), k_max as int),
        decreases ks@.len() - i,
    {
        let k: usize = ks[i];
        off.push(acc);
        if k > usize::MAX - acc {
            proof {
                lemma_sum_rows_mono(ks@, i + 1, ks@.len() as int);
            }
            return Err(BatchVerifyError::Shape);
        }
        let ghost before = ks@.subrange(0, i as int);
        let ghost after = ks@.subrange(0, i + 1);
        let ghost k0 = k_max;
        assert(after[i as int] == k);
        assert(forall|j: int| 0 <= j < i ==> #[trigger] after[j] == before[j]);
        acc = acc + k;
        if k > k_max {
            k_max = k;
        }
        proof {
            if k <= k0 && i > 0 {
                let w = choose|w: int| 0 <= w < before.len() && #[trigger] before[w] == k0;
                assert(after[w] == k0);
            }
        }
        i = i + 1;
    }
    off.push(acc);
    assert(ks@.subrange(0, i as int) =~= ks@);
    assert(off@ =~= Seq::new(ks@.len() + 1, |i: int| sum_rows(ks@, i) as usize));
    let hi: usize = match dflash_k {
        Some(g) => g,
        None => 4,
    };
    if n < 2 || ks.len() != n || !all_in(ks, 2, hi) || num_tokens != acc {
        return Err(BatchVerifyError::Shape);
    }
    if acc > VERIFY_ROW_CAP {
        return Err(BatchVerifyError::TooManyRows { rows: acc });
    }
    Ok(BatchRows { off, r_total: acc, k_max })
}

/// Offset of the adapter slots from the metadata base.
pub const VMETA_SEQ_SLOT: usize = VERIFY_ROW_CAP * 4;

/// Offset of the cache slots from the metadata base.
pub const VMETA_SLOTS: usize = VERIFY_ROW_CAP * 8;

/// Offset of the causal lengths from the metadata base.
pub const VMETA_SEQ_LENS: usize = VERIFY_ROW_CAP * 16;

/// Offset of the block tables from the metadata base.
pub const VMETA_BT: usize = VERIFY_ROW_CAP * 24;

/// The metadata regions of a full batch do not overlap.
pub proof fn batch_regions_are_disjoint(rows: int)
    requires
        0 <= rows <= VERIFY_ROW_CAP,
    ensures
        4 * rows <= VMETA_SEQ_SLOT,
        VMETA_SEQ_SLOT + 4 * rows <= VMETA_SLOTS,
        VMETA_SLOTS + 8 * rows <= VMETA_SEQ_LENS,
        VMETA_SEQ_LENS + 4 * rows <= VMETA_BT,
{
}

/// Positions of the rows of the first `n` sequences.
pub open spec fn batch_positions(seqs: Seq<&SequenceState>, ks: Seq<usize>, n: int) -> Seq<u32>
    decreases n,
{
    if n <= 0 {
        Seq::empty()
    } else {
        batch_positions(seqs, ks, n - 1) + positions_spec(
            seqs[n - 1].seq_len as int,
            ks[n - 1] as nat,
        )
    }
}

/// Cache slots of the rows of one sequence.
pub open spec fn row_slots(seq: SequenceState, k: nat, bs: int) -> Seq<i64> {
    Seq::new(k, |j: int| seq_slot_spec(seq, seq.seq_len + j, bs, 0) as i64)
}

/// Cache slots of the rows of the first `n` sequences.
pub open spec fn batch_slots_spec(
    seqs: Seq<&SequenceState>,
    ks: Seq<usize>,
    n: int,
    bs: int,
) -> Seq<i64>
    decreases n,
{
    if n <= 0 {
        Seq::empty()
    } else {
        batch_slots_spec(seqs, ks, n - 1, bs) + row_slots(*seqs[n - 1], ks[n - 1] as nat, bs)
    }
}

/// Causal lengths of the rows of the first `n` sequences.
pub open spec fn batch_lens(seqs: Seq<&SequenceState>, ks: Seq<usize>, n: int) -> Seq<i32>
    decreases n,
{
    if n <= 0 {
        Seq::empty()
    } else {
        batch_lens(seqs, ks, n - 1) + causal_lens_spec(seqs[n - 1].seq_len as int, ks[n - 1] as nat)
    }
}

/// Block tables of the rows of the first `n` sequences: each row has its sequence's table.
pub open spec fn batch_tables(
    seqs: Seq<&SequenceState>,
    ks: Seq<usize>,
    n: int,
    mb: nat,
) -> Seq<i32>
    decreases n,
{
    if n <= 0 {
        Seq::empty()
    } else {
        batch_tables(seqs, ks, n - 1, mb) + repeat_row(
            table_row_spec(seqs[n - 1].block_table@, mb),
            ks[n - 1] as nat,
        )
    }
}

/// A ghost row's block table: the dummy block, then zeros.
pub open spec fn ghost_table_row(dummy_block: u32, mb: nat) -> Seq<i32> {
    Seq::new(
        mb,
        |j: int|
            if j == 0 {
                dummy_block as i32
            } else {
                0i32
            },
    )
}

/// Host copies of the batched verify's attention metadata.
pub struct BatchMeta {
    pub positions: Vec<u32>,
    pub slots: Vec<i64>,
    pub seq_lens: Vec<i32>,
    pub block_table: Vec<i32>,
    /// The adapter slot every row takes.
    pub adapter_slot: i32,
}

/// Fill the metadata of the batch's rows and of `ghost_rows` ghost rows after them.
///
/// A ghost row has position 0, a slot in the dummy block, causal length 1 and a table whose first
/// entry is the dummy block, so it never points at a live sequence.
pub fn stage_verify_metadata(
    seqs: &Vec<&SequenceState>,
    ks: &[usize],
    bs: usize,
    max_blocks: usize,
    dummy_block: u32,
    ghost_rows: usize,
) -> (r: BatchMeta)
    requires
        0 < bs <= MAX_BLOCK_SIZE,
        seqs@.len() >= 1,
        ks@.len() == seqs@.len(),
        forall|i: int|
            0 <= i < seqs@.len() ==> (#[trigger] seqs@[i]).seq_len + ks@[i] <= usize::MAX,
        ghost_rows > 0 ==> max_blocks > 0,
    ensures
        r.positions@ == batch_positions(seqs@, ks@, seqs@.len() as int) + Seq::new(
            ghost_rows as nat,
            |i: int| 0u32,
        ),
        r.slots@ == batch_slots_spec(seqs@, ks@, seqs@.len() as int, bs as int) + Seq::new(
            ghost_rows as nat,
            |i: int| kv_slot_spec(dummy_block, bs as int, 0) as i64,
        ),
        r.seq_lens@ == batch_lens(seqs@, ks@, seqs@.len() as int) + Seq::new(
            ghost_rows as nat,
            |i: int| 1i32,
        ),
        r.block_table@ == batch_tables(seqs@, ks@, seqs@.len() as int, max_blocks as nat)
            + repeat_row(ghost_table_row(dummy_block, max_blocks as nat), ghost_rows as nat),
        r.adapter_slot == seqs@[0].adapter_slot,
{
    let mut pos: Vec<u32> = Vec::new();
    let mut slots: Vec<i64> = Vec::new();
    let mut lens: Vec<i32> = Vec::new();
    let mut table: Vec<i32> = Vec::new();
    let mut i: usize = 0;
    while i < seqs.len()
        invariant
            0 < bs <= MAX_BLOCK_SIZE,
            ks@.len() == seqs@.len(),
            forall|i: int|
                0 <= i < seqs@.len() ==> (#[trigger] seqs@[i]).seq_len + ks@[i] <= usize::MAX,
            i <= seqs@.len(),
            pos@ == batch_positions(seqs@, ks@, i as int),
            slots@ == batch_slots_spec(seqs@, ks@, i as int, bs as int),
            lens@ == batch_lens(seqs@, ks@, i as int),
            table@ == batch_tables(seqs@, ks@, i as int, max_blocks as nat),
        decreases seqs@.len() - i,
    {
        let seq: &SequenceState = seqs[i];
        let k: usize = ks[i];
        assert(seqs@[i as int].seq_len + ks@[i as int] <= usize::MAX);
        let mut p: Vec<u32> = positions(seq.seq_len, k);
        let mut s: Vec<i64> = seq_slots(seq, seq.seq_len, k, bs, 0);
        let mut l: Vec<i32> = causal_lens(seq.seq_len, k);
        assert(s@ =~= row_slots(*seqs@[i as int], k as nat, bs as int));
        pos.append(&mut p);
        slots.append(&mut s);
        lens.append(&mut l);
        let ghost table0 = table@;
        let mut row: usize = 0;
        assert(table@ =~= table0 + repeat_row(
            table_row_spec(seq.block_table@, max_blocks as nat),
            0,
        ));
        while row < k
            invariant
                row <= k,
                table@ == table0 + repeat_row(
                    table_row_spec(seq.block_table@, max_blocks as nat),
                    row as nat,
                ),
            decreases k - row,
        {
            push_table_row(&mut table, &seq.block_table, max_blocks);
            row = row + 1;
            assert(table@ =~= table0 + repeat_row(
                table_row_spec(seq.block_table@, max_blocks as nat),
                row as nat,
            ));
        }
        i = i + 1;
    }
    let ghost pos0 = pos@;
    let ghost slots0 = slots@;
    let ghost lens0 = lens@;
    let ghost table0 = table@;
    let dummy_slot: i64 = kv_slot(dummy_block, bs, 0);
    let mut ghost_row: Vec<u32> = Vec::new();
    ghost_row.push(dummy_block);
    assert(table_row_spec(ghost_row@, max_blocks as nat) =~= ghost_table_row(
        dummy_block,
        max_blocks as nat,
    ));
    let mut g: usize = 0;
    assert(pos@ =~= pos0 + Seq::new(0, |i: int| 0u32));
    assert(slots@ =~= slots0 + Seq::new(0, |i: int| dummy_slot));
    assert(lens@ =~= lens0 + Seq::new(0, |i: int| 1i32));
    assert(table@ =~= table0 + repeat_row(ghost_table_row(dummy_block, max_blocks as nat), 0));
    while g < ghost_rows
        invariant
            g <= ghost_rows,
            table_row_spec(ghost_row@, max_blocks as nat) == ghost_table_row(
                dummy_block,
                max_blocks as nat,
            ),
            pos@ == pos0 + Seq::new(g as nat, |i: int| 0u32),
            slots@ == slots0 + Seq::new(g as nat, |i: int| dummy_slot),
            lens@ == lens0 + Seq::new(g as nat, |i: int| 1i32),
            table@ == table0 + repeat_row(
                ghost_table_row(dummy_block, max_blocks as nat),
                g as nat,
            ),
        decreases ghost_rows - g,
    {
        pos.push(0);
        slots.push(dummy_slot);
        lens.push(1);
        push_table_row(&mut table, &ghost_row, max_blocks);
        g = g + 1;
        assert(pos@ =~= pos0 + Seq::new(g as nat, |i: int| 0u32));
        assert(slots@ =~= slots0 + Seq::new(g as nat, |i: int| dummy_slot));
        assert(lens@ =~= lens0 + Seq::new(g as nat, |i: int| 1i32));
        assert(table@ =~= table0 + repeat_row(
            ghost_table_row(dummy_block, max_blocks as nat),
            g as nat,
        ));
    }
    let adapter_slot: i32 = seqs[0].adapter_slot;
    assert(slots@ =~= slots0 + Seq::new(
        ghost_rows as nat,
        |i: int| kv_slot_spec(dummy_block, bs as int, 0) as i64,
    ));
    BatchMeta { positions: pos, slots, seq_lens: lens, block_table: table, adapter_slot }
}

/// Row `sum_rows(ks, i) + j` carries the metadata of row `j` of sequence `i`: its own position,
/// its own cache slot, and a causal length that ends at its own position.
pub proof fn batch_row_metadata(
    seqs: Seq<&SequenceState>,
    ks: Seq<usize>,
    n: int,
    i: int,
    j: int,
    bs: int,
)
    requires
        0 <= i < n <= seqs.len(),
        ks.len() == seqs.len(),
        0 <= j < ks[i],
    ensures
        batch_positions(seqs, ks, n).len() == sum_rows(ks, n),
        batch_slots_spec(seqs, ks, n, bs).len() == sum_rows(ks, n),
        batch_lens(seqs, ks, n).len() == sum_rows(ks, n),
        0 <= sum_rows(ks, i) + j < sum_rows(ks, n),
        batch_positions(seqs, ks, n)[sum_rows(ks, i) + j] == (seqs[i].seq_len + j) as u32,
        batch_slots_spec(seqs, ks, n, bs)[sum_rows(ks, i) + j] == seq_slot_spec(
            *seqs[i],
            seqs[i].seq_len + j,
            bs,
            0,
        ) as i64,
        batch_lens(seqs, ks, n)[sum_rows(ks, i) + j] == (seqs[i].seq_len + j + 1) as i32,
    decreases n,
{
    lemma_batch_lens(seqs, ks, n, bs);
    lemma_batch_lens(seqs, ks, n - 1, bs);
    lemma_sum_rows_mono(ks, 0, i);
    lemma_sum_rows_mono(ks, i + 1, n);
    assert(sum_rows(ks, i + 1) == sum_rows(ks, i) + ks[i]);
    if i < n - 1 {
        batch_row_metadata(seqs, ks, n - 1, i, j, bs);
    }
}

proof fn lemma_batch_lens(seqs: Seq<&SequenceState>, ks: Seq<usize>, n: int, bs: int)
    requires
        0 <= n <= seqs.len(),
        ks.len() == seqs.len(),
    ensures
        batch_positions(seqs, ks, n).len() == sum_rows(ks, n),
        batch_slots_spec(seqs, ks, n, bs).len() == sum_rows(ks, n),
        batch_lens(seqs, ks, n).len() == sum_rows(ks, n),
    decreases n,
{
    if n > 0 {
        lemma_batch_lens(seqs, ks, n - 1, bs);
    }
}

/// Lengths before each row of the first `n` sequences.
pub open spec fn forward_lens(seqs: Seq<&SequenceState>, ks: Seq<usize>, n: int) -> Seq<usize>
    decreases n,
{
    if n <= 0 {
        Seq::empty()
    } else {
        forward_lens(seqs, ks, n - 1) + Seq::new(
            ks[n - 1] as nat,
            |j: int| (seqs[n - 1].seq_len + j) as usize,
        )
    }
}

/// Owner of each row of the first `n` sequences.
pub open spec fn row_owners(ks: Seq<usize>, n: int) -> Seq<usize>
    decreases n,
{
    if n <= 0 {
        Seq::empty()
    } else {
        row_owners(ks, n - 1) + Seq::new(ks[n - 1] as nat, |j: int| (n - 1) as usize)
    }
}

/// For each row in order, the length before it and the sequence whose block table it reads.
pub fn forward_rows(seqs: &Vec<&SequenceState>, ks: &[usize]) -> (r: (Vec<usize>, Vec<usize>))
    requires
        ks@.len() == seqs@.len(),
        forall|i: int|
            0 <= i < seqs@.len() ==> (#[trigger] seqs@[i]).seq_len + ks@[i] <= usize::MAX,
    ensures
        r.0@ == forward_lens(seqs@, ks@, seqs@.len() as int),
        r.1@ == row_owners(ks@, seqs@.len() as int),
{
    let mut lens: Vec<usize> = Vec::new();
    let mut owners: Vec<usize> = Vec::new();
    let mut i: usize = 0;
    while i < seqs.len()
        invariant
            ks@.len() == seqs@.len(),
            forall|i: int|
                0 <= i < seqs@.len() ==> (#[trigger] seqs@[i]).seq_len + ks@[i] <= usize::MAX,
            i <= seqs@.len(),
            lens@ == forward_lens(seqs@, ks@, i as int),
            owners@ == row_owners(ks@, i as int),
        decreases seqs@.len() - i,
    {
        let ghost lens0 = lens@;
        let ghost owners0 = owners@;
        let start: usize = seqs[i].seq_len;
        let k: usize = ks[i];
        assert(seqs@[i as int].seq_len + ks@[i as int] <= usize::MAX);
        let mut j: usize = 0;
        assert(lens@ =~= lens0 + Seq::new(0, |j: int| (start + j) as usize));
        assert(owners@ =~= owners0 + Seq::new(0, |j: int| i));
        while j < k
            invariant
                start + k <= usize::MAX,
                j <= k,
                lens@ == lens0 + Seq::new(j as nat, |j: int| (start + j) as usize),
                owners@ == owners0 + Seq::new(j as nat, |j: int| i),
            decreases k - j,
        {
            lens.push(start + j);
            owners.push(i);
            j = j + 1;
            assert(lens@ =~= lens0 + Seq::new(j as nat, |j: int| (start + j) as usize));
            assert(owners@ =~= owners0 + Seq::new(j as nat, |j: int| i));
        }
        i = i + 1;
        assert(lens@ =~= forward_lens(seqs@, ks@, i as int));
        assert(owners@ =~= row_owners(ks@, i as int));
    }
    (lens, owners)
}

/// One device step of the batched verify's layers.
#[derive(Clone, Copy, Debug, PartialEq, Eq, Structural)]
pub enum BatchStep {
    /// Full attention over all rows as separate sequences, with the states of attention layer
    /// `attn_idx`.
    Attention { layer: usize, attn_idx: usize },
    /// Any other layer over all sequences, with the offset of its pointer tables if it has any.
    VerifyMulti { layer: usize, wy_offset: Option<usize> },
    /// Copy the hidden rows `row..row + rows` into the capture band at `band`.
    CaptureBand { layer: usize, row: usize, rows: usize, band: usize },
    /// Wait for the device, so a fault names its layer.
    Sync { layer: usize },
}

/// The capture of every sequence's rows after a layer.
pub open spec fn band_steps(layer: int, ks: Seq<usize>, kgamma: int) -> Seq<BatchStep> {
    Seq::new(
        ks.len(),
        |i: int|
            BatchStep::CaptureBand {
                layer: layer as usize,
                row: sum_rows(ks, i) as usize,
                rows: ks[i],
                band: (i * kgamma) as usize,
            },
    )
}

/// The steps of one layer.
pub open spec fn batch_layer_steps(
    types: Seq<LayerType>,
    layer: int,
    ks: Seq<usize>,
    wy_stride: Option<usize>,
    bands: Option<usize>,
    diag: bool,
) -> Seq<BatchStep> {
    let first = if types[layer] == LayerType::FullAttention {
        BatchStep::Attention {
            layer: layer as usize,
            attn_idx: count_before(types, LayerType::FullAttention, layer) as usize,
        }
    } else {
        BatchStep::VerifyMulti {
            layer: layer as usize,
            wy_offset: if types[layer] == LayerType::LinearAttention && wy_stride is Some {
                Some(
                    (count_before(types, LayerType::LinearAttention, layer)
                        * wy_stride->0) as usize,
                )
            } else {
                None
            },
        }
    };
    let captures = if bands is Some {
        band_steps(layer, ks, bands->0 as int)
    } else {
        Seq::empty()
    };
    let sync = if diag {
        seq![BatchStep::Sync { layer: layer as usize }]
    } else {
        Seq::empty()
    };
    seq![first] + captures + sync
}

/// The steps of the first `n` layers.
pub open spec fn batch_steps(
    types: Seq<LayerType>,
    n: int,
    ks: Seq<usize>,
    wy_stride: Option<usize>,
    bands: Option<usize>,
    diag: bool,
) -> Seq<BatchStep>
    decreases n,
{
    if n <= 0 {
        Seq::empty()
    } else {
        batch_steps(types, n - 1, ks, wy_stride, bands, diag) + batch_layer_steps(
            types,
            n - 1,
            ks,
            wy_stride,
            bands,
            diag,
        )
    }
}

/// Append the capture of every sequence's rows after a layer.
fn push_bands(
    steps: &mut Vec<BatchStep>,
    layer: usize,
    ks: &[usize],
    off: &Vec<usize>,
    kgamma: usize,
)
    requires
        off@ == Seq::new(ks@.len() + 1, |i: int| sum_rows(ks@, i) as usize),
        ks@.len() * kgamma <= usize::MAX,
    ensures
        final(steps)@ == old(steps)@ + band_steps(layer as int, ks@, kgamma as int),
{
    let ghost bands = band_steps(layer as int, ks@, kgamma as int);
    let mut i: usize = 0;
    assert(steps@ =~= old(steps)@ + bands.subrange(0, 0));
    while i < ks.len()
        invariant
            off@ == Seq::new(ks@.len() + 1, |i: int| sum_rows(ks@, i) as usize),
            ks@.len() * kgamma <= usize::MAX,
            i <= ks@.len(),
            bands == band_steps(layer as int, ks@, kgamma as int),
            steps@ == old(steps)@ + bands.subrange(0, i as int),
        decreases ks@.len() - i,
    {
        proof {
            assert(i * kgamma <= ks@.len() * kgamma) by (nonlinear_arith)
                requires
                    i <= ks@.len(),
            ;
        }
        steps.push(BatchStep::CaptureBand { layer, row: off[i], rows: ks[i], band: i * kgamma });
        i = i + 1;
        assert(steps@ =~= old(steps)@ + bands.subrange(0, i as int));
    }
    assert(bands.subrange(0, i as int) =~= bands);
}

/// The device steps of all layers over the rows of a batch.
///
/// `wy_stride` is the byte stride between recurrent layers' pointer tables when tables are
/// staged, `bands` the rows per capture band with a block drafter.
pub fn run_verify_layers(
    types: &Vec<LayerType>,
    ks: &[usize],
    off: &Vec<usize>,
    wy_stride: Option<usize>,
    bands: Option<usize>,
    diag: bool,
) -> (r: Vec<BatchStep>)
    requires
        off@ == Seq::new(ks@.len() + 1, |i: int| sum_rows(ks@, i) as usize),
        wy_stride matches Some(s) ==> types@.len() * s <= usize::MAX,
        bands matches Some(g) ==> ks@.len() * g <= usize::MAX,
    ensures
        r@ == batch_steps(types@, types@.len() as int, ks@, wy_stride, bands, diag),
{
    let mut steps: Vec<BatchStep> = Vec::new();
    let mut attn_idx: usize = 0;
    let mut ssm_idx: usize = 0;
    let mut layer: usize = 0;
    while layer < types.len()
        invariant
            off@ == Seq::new(ks@.len() + 1, |i: int| sum_rows(ks@, i) as usize),
            wy_stride matches Some(s) ==> types@.len() * s <= usize::MAX,
            bands matches Some(g) ==> ks@.len() * g <= usize::MAX,
            layer <= types@.len(),
            attn_idx == count_before(types@, LayerType::FullAttention, layer as int),
            ssm_idx == count_before(types@, LayerType::LinearAttention, layer as int),
            steps@ == batch_steps(types@, layer as int, ks@, wy_stride, bands, diag),
        decreases types@.len() - layer,
    {
        proof {
            lemma_count_before_bound(types@, LayerType::FullAttention, layer as int);
            lemma_count_before_bound(types@, LayerType::LinearAttention, layer as int);
        }
        let ghost steps0 = steps@;
        let ty: LayerType = types[layer];
        if ty == LayerType::FullAttention {
            steps.push(BatchStep::Attention { layer, attn_idx });
            attn_idx = attn_idx + 1;
        } else {
            let mut wy_offset: Option<usize> = None;
            if ty == LayerType::LinearAttention {
                if let Some(stride) = wy_stride {
                    proof {
                        assert(ssm_idx * stride <= types@.len() * stride) by (nonlinear_arith)
                            requires
                                ssm_idx <= types@.len(),
                        ;
                    }
                    wy_offset = Some(ssm_idx * stride);
                }
                ssm_idx = ssm_idx + 1;
            }
            steps.push(BatchStep::VerifyMulti { layer, wy_offset });
        }
        if let Some(kgamma) = bands {
            push_bands(&mut steps, layer, ks, off, kgamma);
        }
        if diag {
            steps.push(BatchStep::Sync { layer });
        }
        assert(steps@ =~= steps0 + batch_layer_steps(
            types@,
            layer as int,
            ks@,
            wy_stride,
            bands,
            diag,
        ));
        layer = layer + 1;
    }
    steps
}

/// Where each argmax launch reads and writes.
#[derive(Clone, Copy, Debug, PartialEq, Eq, Structural)]
pub struct ArgmaxLaunch {
    pub rows: usize,
    pub logits_offset: usize,
    pub out_offset: usize,
}

/// The argmax launches over `r_total` logits rows: one over all rows when the batched kernel is
/// present, else one per row.
pub fn verify_rows_argmax(batch_kernel: bool, r_total: usize, vocab: usize) -> (r: Vec<ArgmaxLaunch>)
    requires
        r_total * vocab * 2 <= usize::MAX,
        r_total * 4 <= usize::MAX,
    ensures
        batch_kernel ==> r@ == seq![
            ArgmaxLaunch { rows: r_total, logits_offset: 0, out_offset: 0 },
        ],
        !batch_kernel ==> r@ == Seq::new(
            r_total as nat,
            |i: int|
                ArgmaxLaunch {
                    rows: 1,
                    logits_offset: (i * vocab * 2) as usize,
                    out_offset: (i * 4) as usize,
                },
        ),
{
    let mut out: Vec<ArgmaxLaunch> = Vec::new();
    if batch_kernel {
        out.push(ArgmaxLaunch { rows: r_total, logits_offset: 0, out_offset: 0 });
        return out;
    }
    let mut i: usize = 0;
    while i < r_total
        invariant
            r_total * vocab * 2 <= usize::MAX,
            r_total * 4 <= usize::MAX,
            i <= r_total,
            out@ == Seq::new(
                i as nat,
                |i: int|
                    ArgmaxLaunch {
                        rows: 1,
                        logits_offset: (i * vocab * 2) as usize,
                        out_offset: (i * 4) as usize,
                    },
            ),
        decreases r_total - i,
    {
        proof {
            lemma_row_fits(i as int, r_total as int, vocab as int);
        }
        out.push(
            ArgmaxLaunch {
                rows: 1,
                logits_offset: i * vocab * ROW_ELEM_BYTES,
                out_offset: i * 4,
            },
        );
        i = i + 1;
    }
    out
}

/// How the argmax words reach the host.
#[derive(Clone, Copy, Debug, PartialEq, Eq, Structural)]
pub enum Readback {
    /// Wait for the stream and read the mapped host memory.
    Mapped,
    /// Copy on the default stream.
    DefaultStream,
    /// Copy on the verify's stream into ordinary memory.
    OnStream,
    /// Copy on the verify's stream into page-locked memory.
    Pinned,
}

/// Bytes of the page-locked readback buffer.
pub const PINNED_CAP: usize = 65536;

/// How the argmax words of `r_total` rows reach the host.
pub fn readback(mapped: bool, default_stream: bool, no_pinned: bool, r_total: usize) -> (r: Readback)
    ensures
        r == if mapped {
            Readback::Mapped
        } else if default_stream {
            Readback::DefaultStream
        } else if no_pinned || r_total * 4 > PINNED_CAP {
            Readback::OnStream
        } else {
            Readback::Pinned
        },
{
    if mapped {
        Readback::Mapped
    } else if default_stream {
        Readback::DefaultStream
    } else if no_pinned || r_total > PINNED_CAP / 4 {
        Readback::OnStream
    } else {
        Readback::Pinned
    }
}

/// The pool slot and row count of each sequence, in batch order, or `None` when a sequence has no
/// slot or no row count: such a batch is not captured.
pub open spec fn graph_pairs_spec(seqs: Seq<&SequenceState>, ks: Seq<usize>) -> Option<
    Seq<(u32, u32)>,
> {
    if seqs.len() <= ks.len() && forall|i: int|
        0 <= i < seqs.len() ==> (#[trigger] seqs[i]).slot() is Some {
        Some(Seq::new(seqs.len(), |i: int| (seqs[i].slot()->0 as u32, ks[i] as u32)))
    } else {
        None
    }
}

/// The pool slot and row count of each sequence, in batch order: what a captured batch graph is
/// keyed by, beside the flags of the step.
pub fn verify_batched_graph_key(seqs: &Vec<&SequenceState>, ks: &[usize]) -> (r: Option<
    Vec<(u32, u32)>,
>)
    ensures
        r is Some == graph_pairs_spec(seqs@, ks@) is Some,
        r matches Some(pairs) ==> pairs@ == graph_pairs_spec(seqs@, ks@)->0,
{
    let mut pairs: Vec<(u32, u32)> = Vec::new();
    let mut i: usize = 0;
    while i < seqs.len()
        invariant
            i <= seqs@.len(),
            i <= ks@.len(),
            forall|j: int| 0 <= j < i ==> (#[trigger] seqs@[j]).slot() is Some,
            pairs@ == Seq::new(i as nat, |j: int| (seqs@[j].slot()->0 as u32, ks@[j] as u32)),
        decreases seqs@.len() - i,
    {
        let seq: &SequenceState = seqs[i];
        match seq.ssm_slot_idx() {
            None => {
                assert(seqs@[i as int].slot() is None);
                return None;
            },
            Some(slot) => {
                if i >= ks.len() {
                    return None;
                }
                pairs.push((slot as u32, ks[i] as u32));
            },
        }
        i = i + 1;
    }
    Some(pairs)
}

/// Whether a write-on-accept request is to be bound: it was asked for and the pointer tables it
/// reads are staged.
pub fn write_on_accept_wanted(requested: bool, wy_tables_null: bool) -> (r: bool)
    ensures
        r == (requested && !wy_tables_null),
{
    requested && !wy_tables_null
}

/// Whether the accepted rows of the latest verify may be folded into the recurrent state.
pub struct FoldPermit {
    pub eligible: bool,
}

impl FoldPermit {
    /// A verify begins: nothing may be folded until it completes.
    pub fn begin(&mut self)
        ensures
            !final(self).eligible,
    {
        self.eligible = false;
    }

    /// A verify completed. Its rows may be folded only if that was requested, the pointer tables
    /// were staged and the fold's buffers were bound.
    pub fn complete(&mut self, requested: bool, wy_tables_null: bool, bound: bool)
        ensures
            final(self).eligible == (requested && !wy_tables_null && bound),
    {
        self.eligible = requested && !wy_tables_null && bound;
    }
}

/// Staging the ghost entries must not change whether there are pointer tables: the graph would
/// be replayed against tables without them.
pub fn check_restage(staged_null: bool, restaged_null: bool) -> (r: Result<(), BatchVerifyError>)
    ensures
        r is Ok == (staged_null == restaged_null),
        r matches Err(e) ==> e == BatchVerifyError::RestageFlipped,
{
    if staged_null == restaged_null {
        Ok(())
    } else {
        Err(BatchVerifyError::RestageFlipped)
    }
}

/// The last logical block each sequence of the batch needs.
pub fn batch_blocks(seqs: &Vec<&SequenceState>, ks: &[usize], bs: usize) -> (r: Vec<usize>)
    requires
        bs > 0,
        ks@.len() == seqs@.len(),
        forall|i: int|
            0 <= i < seqs@.len() ==> ks@[i] >= 1 && (#[trigger] seqs@[i]).seq_len + ks@[i]
                <= usize::MAX,
    ensures
        r@ == Seq::new(
            seqs@.len(),
            |i: int| ((seqs@[i].seq_len + ks@[i] - 1) / bs as int) as usize,
        ),
{
    let mut out: Vec<usize> = Vec::new();
    let mut i: usize = 0;
    while i < seqs.len()
        invariant
            bs > 0,
            ks@.len() == seqs@.len(),
            forall|i: int|
                0 <= i < seqs@.len() ==> ks@[i] >= 1 && (#[trigger] seqs@[i]).seq_len + ks@[i]
                    <= usize::MAX,
            i <= seqs@.len(),
            out@ == Seq::new(
                i as nat,
                |i: int| ((seqs@[i].seq_len + ks@[i] - 1) / bs as int) as usize,
            ),
        decreases seqs@.len() - i,
    {
        assert(seqs@[i as int].seq_len + ks@[i as int] <= usize::MAX);
        let last: usize = seqs[i].seq_len + ks[i] - 1;
        out.push(last / bs);
        i = i + 1;
    }
    out
}

/// Append each sequence's rows: sequence `i` gains its own `ks[i]` tokens and its length grows by
/// `ks[i]`.
pub fn commit_batch(seqs: &mut Vec<SequenceState>, tokens: &[u32], ks: &[usize])
    requires
        ks@.len() == old(seqs)@.len(),
        tokens@.len() == sum_rows(ks@, ks@.len() as int),
        forall|i: int|
            0 <= i < ks@.len() ==> (#[trigger] old(seqs)@[i]).seq_len + ks@[i] <= usize::MAX,
    ensures
        final(seqs)@.len() == old(seqs)@.len(),
        forall|i: int|
            0 <= i < ks@.len() ==> {
                let seq = #[trigger] final(seqs)@[i];
                let was = old(seqs)@[i];
                &&& seq.tokens@ == was.tokens@ + tokens@.subrange(
                    sum_rows(ks@, i),
                    sum_rows(ks@, i + 1),
                )
                &&& seq == (SequenceState {
                    tokens: seq.tokens,
                    seq_len: (was.seq_len + ks@[i]) as usize,
                    ..was
                })
            },
{
    let mut at: usize = 0;
    let mut i: usize = 0;
    while i < ks.len()
        invariant
            ks@.len() == old(seqs)@.len(),
            seqs@.len() == old(seqs)@.len(),
            tokens@.len() == sum_rows(ks@, ks@.len() as int),
            forall|i: int|
                0 <= i < ks@.len() ==> (#[trigger] old(seqs)@[i]).seq_len + ks@[i] <= usize::MAX,
            i <= ks@.len(),
            at == sum_rows(ks@, i as int),
            forall|j: int| i <= j < ks@.len() ==> #[trigger] seqs@[j] == old(seqs)@[j],
            forall|j: int|
                0 <= j < i ==> {
                    let seq = #[trigger] seqs@[j];
                    let was = old(seqs)@[j];
                    &&& seq.tokens@ == was.tokens@ + tokens@.subrange(
                        sum_rows(ks@, j),
                        sum_rows(ks@, j + 1),
                    )
                    &&& seq == (SequenceState {
                        tokens: seq.tokens,
                        seq_len: (was.seq_len + ks@[j]) as usize,
                        ..was
                    })
                },
        decreases ks@.len() - i,
    {
        proof {
            lemma_sum_rows_mono(ks@, i + 1, ks@.len() as int);
            lemma_sum_rows_mono(ks@, 0, i as int);
            assert(old(seqs)@[i as int].seq_len + ks@[i as int] <= usize::MAX);
            assert(seqs@[i as int] == old(seqs)@[i as int]);
        }
        assert(tokens.len() == tokens@.len());
        let end: usize = at + ks[i];
        let part: &[u32] = vstd::slice::slice_subrange(tokens, at, end);
        commit_rows(&mut seqs[i], part);
        at = end;
        i = i + 1;
    }
}

/// The sum of all row counts.
pub open spec fn all_rows(ks: Seq<usize>) -> int {
    ks.fold_left(0int, |sum: int, k: usize| sum + k)
}

proof fn lemma_all_rows(ks: Seq<usize>, n: int)
    requires
        0 <= n <= ks.len(),
    ensures
        all_rows(ks.subrange(0, n)) == sum_rows(ks, n),
    decreases n,
{
    if n > 0 {
        lemma_all_rows(ks, n - 1);
        assert(ks.subrange(0, n).drop_last() =~= ks.subrange(0, n - 1));
    }
}

/// A batch is accepted exactly when it has at least two sequences, a row count for each, every
/// count between two and the most allowed (four without a block drafter), as many tokens as rows,
/// and at most 160 rows; too many rows is reported only of an otherwise good batch.
pub proof fn accepted_batches_have_good_rows(
    ks: &[usize],
    n: usize,
    num_tokens: usize,
    dflash_k: Option<usize>,
    r: Result<BatchRows, BatchVerifyError>,
)
    requires
        call_ensures(batch_rows, (ks, n, num_tokens, dflash_k), r),
    ensures
        ({
            let most = match dflash_k {
                Some(g) => g,
                None => 4,
            };
            let good = n >= 2 && ks@.len() == n && num_tokens == all_rows(ks@) && (forall|i: int|
                0 <= i < ks@.len() ==> 2 <= #[trigger] ks@[i] <= most);
            &&& r is Ok <==> good && num_tokens <= 160
            &&& r matches Err(e) ==> match e {
                BatchVerifyError::Shape => !good,
                BatchVerifyError::TooManyRows { rows } => good && rows == num_tokens && rows > 160,
                BatchVerifyError::RestageFlipped => false,
            }
        }),
{
    lemma_all_rows(ks@, ks@.len() as int);
    assert(ks@.subrange(0, ks@.len() as int) =~= ks@);
}

/// The rows are cut into the sequences in order: the offsets start at zero, grow by each
/// sequence's own count, and end at the total; the widest count is one of them.
pub proof fn rows_are_laid_out_in_order(
    ks: &[usize],
    n: usize,
    num_tokens: usize,
    dflash_k: Option<usize>,
    r: Result<BatchRows, BatchVerifyError>,
)
    requires
        call_ensures(batch_rows, (ks, n, num_tokens, dflash_k), r),
        r is Ok,
    ensures
        ({
            let rows = r->Ok_0;
            &&& rows.off@.len() == ks@.len() + 1
            &&& rows.off@[0] == 0
            &&& forall|x: int|
                0 <= x < ks@.len() ==> #[trigger] rows.off@[x + 1] == rows.off@[x] + ks@[x]
            &&& rows.r_total == rows.off@[ks@.len() as int]
            &&& rows.r_total == num_tokens
            &&& forall|i: int| 0 <= i < ks@.len() ==> #[trigger] ks@[i] <= rows.k_max
            &&& exists|i: int| 0 <= i < ks@.len() && #[trigger] ks@[i] == rows.k_max
        }),
{
    let rows = r->Ok_0;
    assert forall|x: int| 0 <= x < ks@.len() implies #[trigger] rows.off@[x + 1] == rows.off@[x]
        + ks@[x] by {
        lemma_sum_rows_mono(ks@, 0, x);
        lemma_sum_rows_mono(ks@, x + 1, ks@.len() as int);
    }
    lemma_sum_rows_mono(ks@, 0, ks@.len() as int);
}

/// Sequences are verified together only in a shape the buffers hold: two or more, up to the
/// tables' entries, each with two rows or more; up to four rows each without a block drafter, and
/// with one the same count for all, within its band and its buffer; at most 160 rows together;
/// and never with a communicator, without the stash, with the disk tier, with adapters that do not
/// batch, or against a layer that declines. Nothing else stops them.
pub proof fn batches_are_verified_where_they_fit(ks: &[usize], env: &BatchVerifyEnv, r: bool)
    requires
        call_ensures(can_batch_verify, (ks, env), r),
    ensures
        ({
            let shape = match env.bands {
                None => forall|i: int| 0 <= i < ks@.len() ==> 2 <= #[trigger] ks@[i] <= 4,
                Some(b) => {
                    &&& forall|i: int| 0 <= i < ks@.len() ==> 2 <= #[trigger] ks@[i] <= b.kgamma
                    &&& forall|i: int, j: int|
                        0 <= i < ks@.len() && 0 <= j < ks@.len() ==> #[trigger] ks@[i]
                            == #[trigger] ks@[j]
                    &&& b.kgamma * ks@.len() <= b.save_rows
                },
            };
            let stopped = env.has_comm || env.stash_null || env.any_layer_declines
                || env.hss_engaged || (env.lora_loaded && env.lora_no_batch);
            r <==> 2 <= ks@.len() <= env.max_seqs && shape && all_rows(ks@) <= 160 && !stopped
        }),
{
    lemma_all_rows(ks@, ks@.len() as int);
    assert(ks@.subrange(0, ks@.len() as int) =~= ks@);
    if 2 <= ks@.len() {
        if let Some(b) = env.bands {
            assert(b.kgamma * ks@.len() == ks@.len() * b.kgamma) by (nonlinear_arith);
            assert((forall|i: int| 0 <= i < ks@.len() ==> #[trigger] ks@[i] == ks@[0]) <==> (
            forall|i: int, j: int|
                0 <= i < ks@.len() && 0 <= j < ks@.len() ==> #[trigger] ks@[i]
                    == #[trigger] ks@[j])) by {
                if forall|i: int| 0 <= i < ks@.len() ==> #[trigger] ks@[i] == ks@[0] {
                    assert forall|i: int, j: int|
                        0 <= i < ks@.len() && 0 <= j < ks@.len() implies #[trigger] ks@[i]
                        == #[trigger] ks@[j] by {}
                }
                if forall|i: int, j: int|
                    0 <= i < ks@.len() && 0 <= j < ks@.len() ==> #[trigger] ks@[i]
                        == #[trigger] ks@[j] {
                    assert forall|i: int| 0 <= i < ks@.len() implies #[trigger] ks@[i] == ks@[0] by {
                        assert(ks@[i] == ks@[0]);
                    }
                }
            }
            if forall|i: int| 0 <= i < ks@.len() ==> 2 <= #[trigger] ks@[i] <= b.kgamma {
                assert(2 <= ks@[0] <= b.kgamma);
            }
        }
    }
}

proof fn lemma_offsets_are_sums(ks: Seq<usize>, off: Seq<usize>, i: int)
    requires
        off.len() == ks.len() + 1,
        off[0] == 0,
        forall|x: int| 0 <= x < ks.len() ==> #[trigger] off[x + 1] == off[x] + ks[x],
        0 <= i <= ks.len(),
    ensures
        off[i] == sum_rows(ks, i),
    decreases i,
{
    if i > 0 {
        lemma_offsets_are_sums(ks, off, i - 1);
        assert(off[(i - 1) + 1] == off[i - 1] + ks[i - 1]);
    }
}

proof fn lemma_tables_len(seqs: Seq<&SequenceState>, ks: Seq<usize>, n: int, mb: nat)
    requires
        0 <= n <= seqs.len(),
        ks.len() == seqs.len(),
    ensures
        batch_tables(seqs, ks, n, mb).len() == sum_rows(ks, n) * mb,
    decreases n,
{
    if n > 0 {
        lemma_tables_len(seqs, ks, n - 1, mb);
        lemma_repeat_row_len(table_row_spec(seqs[n - 1].block_table@, mb), ks[n - 1] as nat);
        assert(sum_rows(ks, n) * mb == sum_rows(ks, n - 1) * mb + ks[n - 1] * mb)
            by (nonlinear_arith)
            requires
                sum_rows(ks, n) == sum_rows(ks, n - 1) + ks[n - 1],
        ;
    } else {
        assert(sum_rows(ks, n) * mb == 0) by (nonlinear_arith)
            requires
                sum_rows(ks, n) == 0,
        ;
    }
}

proof fn lemma_table_entry(
    seqs: Seq<&SequenceState>,
    ks: Seq<usize>,
    n: int,
    mb: nat,
    i: int,
    j: int,
    b: int,
)
    requires
        0 <= i < n <= seqs.len(),
        ks.len() == seqs.len(),
        0 <= j < ks[i],
        0 <= b < mb,
    ensures
        0 <= (sum_rows(ks, i) + j) * mb + b < batch_tables(seqs, ks, n, mb).len(),
        batch_tables(seqs, ks, n, mb)[(sum_rows(ks, i) + j) * mb + b] == table_row_spec(
            seqs[i].block_table@,
            mb,
        )[b],
    decreases n,
{
    let row = table_row_spec(seqs[i].block_table@, mb);
    let place = (sum_rows(ks, i) + j) * mb + b;
    lemma_tables_len(seqs, ks, n, mb);
    lemma_tables_len(seqs, ks, n - 1, mb);
    lemma_sum_rows_mono(ks, 0, i);
    if i < n - 1 {
        lemma_table_entry(seqs, ks, n - 1, mb, i, j, b);
        lemma_sum_rows_mono(ks, n - 1, n);
        assert(sum_rows(ks, n - 1) * mb <= sum_rows(ks, n) * mb) by (nonlinear_arith)
            requires
                sum_rows(ks, n - 1) <= sum_rows(ks, n),
        ;
    } else {
        each_row_reads_the_table(row, ks[i] as nat, j, b);
        assert(place == sum_rows(ks, i) * mb + (j * mb + b)) by (nonlinear_arith)
            requires
                place == (sum_rows(ks, i) + j) * mb + b,
        ;
        assert(0 <= sum_rows(ks, i) * mb) by (nonlinear_arith)
            requires
                0 <= sum_rows(ks, i),
        ;
        assert(sum_rows(ks, n) * mb == sum_rows(ks, i) * mb + ks[i] * mb) by (nonlinear_arith)
            requires
                sum_rows(ks, n) == sum_rows(ks, i) + ks[i],
        ;
    }
}

/// Every row is described for its own sequence: row `j` of sequence `i`, at the sequence's offset
/// plus `j`, is at that sequence's length plus `j`, writes to that position's slot in the
/// sequence's own block, attends through itself, and reads the sequence's own blocks in order,
/// with zeros past them.
pub proof fn batch_rows_belong_to_their_sequence(
    seqs: &Vec<&SequenceState>,
    ks: &[usize],
    bs: usize,
    max_blocks: usize,
    dummy_block: u32,
    ghost_rows: usize,
    r: BatchMeta,
    rows: BatchRows,
    i: int,
    j: int,
    b: int,
)
    requires
        call_ensures(
            stage_verify_metadata,
            (seqs, ks, bs, max_blocks, dummy_block, ghost_rows),
            r,
        ),
        ks@.len() == seqs@.len(),
        0 < bs <= MAX_BLOCK_SIZE,
        rows.off@.len() == ks@.len() + 1,
        rows.off@[0] == 0,
        forall|x: int| 0 <= x < ks@.len() ==> #[trigger] rows.off@[x + 1] == rows.off@[x] + ks@[x],
        0 <= i < seqs@.len(),
        0 <= j < ks@[i],
        0 <= b < max_blocks,
        seqs@[i].seq_len + ks@[i] <= i32::MAX,
    ensures
        ({
            let at = rows.off@[i] + j;
            let pos = seqs@[i].seq_len + j;
            let table = seqs@[i].block_table@;
            let seen = seqs@[i].disk_block_ids@.len() as int;
            let first = if seen > table.len() {
                seen - table.len()
            } else {
                0
            };
            let place = pos / bs as int - first;
            let block = if 0 <= place < table.len() {
                table[place]
            } else {
                0
            };
            &&& r.positions@[at] == pos
            &&& r.seq_lens@[at] == pos + 1
            &&& r.slots@[at] == block as int * bs as int + pos % bs as int
            &&& r.block_table@[at * max_blocks + b] == if b < table.len() {
                table[b] as i32
            } else {
                0
            }
        }),
{
    let n = seqs@.len() as int;
    lemma_offsets_are_sums(ks@, rows.off@, i);
    batch_row_metadata(seqs@, ks@, n, i, j, bs as int);
    lemma_slot_fits(*seqs@[i], seqs@[i].seq_len + j, bs as int, 0);
    lemma_table_entry(seqs@, ks@, n, max_blocks as nat, i, j, b);
}

/// Ghost rows follow the batch's own rows and touch no sequence: each is at position zero, writes
/// to the first slot of the dummy block, attends to one token, and reads the dummy block alone.
/// There are as many rows as the batch and the ghosts have, and the batch's adapter is the first
/// sequence's.
pub proof fn ghost_rows_touch_no_sequence(
    seqs: &Vec<&SequenceState>,
    ks: &[usize],
    bs: usize,
    max_blocks: usize,
    dummy_block: u32,
    ghost_rows: usize,
    r: BatchMeta,
    rows: BatchRows,
    g: int,
    b: int,
)
    requires
        call_ensures(
            stage_verify_metadata,
            (seqs, ks, bs, max_blocks, dummy_block, ghost_rows),
            r,
        ),
        ks@.len() == seqs@.len(),
        0 < bs <= MAX_BLOCK_SIZE,
        rows.off@.len() == ks@.len() + 1,
        rows.off@[0] == 0,
        forall|x: int| 0 <= x < ks@.len() ==> #[trigger] rows.off@[x + 1] == rows.off@[x] + ks@[x],
        0 <= g < ghost_rows,
        0 <= b < max_blocks,
    ensures
        ({
            let total = rows.off@[ks@.len() as int];
            let at = total + g;
            &&& r.positions@.len() == total + ghost_rows
            &&& r.slots@.len() == total + ghost_rows
            &&& r.seq_lens@.len() == total + ghost_rows
            &&& r.block_table@.len() == (total + ghost_rows) * max_blocks
            &&& r.positions@[at] == 0
            &&& r.slots@[at] == dummy_block as int * bs as int
            &&& r.seq_lens@[at] == 1
            &&& r.block_table@[at * max_blocks + b] == if b == 0 {
                dummy_block as i32
            } else {
                0
            }
            &&& r.adapter_slot == seqs@[0].adapter_slot
        }),
{
    let n = seqs@.len() as int;
    let mb = max_blocks as int;
    let total = sum_rows(ks@, n);
    lemma_offsets_are_sums(ks@, rows.off@, n);
    lemma_batch_lens(seqs@, ks@, n, bs as int);
    lemma_tables_len(seqs@, ks@, n, max_blocks as nat);
    let row = ghost_table_row(dummy_block, max_blocks as nat);
    each_row_reads_the_table(row, ghost_rows as nat, g, b);
    assert((total + g) * mb + b == total * mb + (g * mb + b)) by (nonlinear_arith);
    assert((total + ghost_rows) * mb == total * mb + ghost_rows * mb) by (nonlinear_arith);
    assert(0 <= dummy_block as int * bs as int <= 0xffff_ffff * 0x8000_0000) by (nonlinear_arith)
        requires
            0 <= dummy_block as int <= 0xffff_ffff,
            0 < bs as int <= 0x8000_0000,
    ;
}

proof fn lemma_forward_rows(seqs: Seq<&SequenceState>, ks: Seq<usize>, n: int, i: int, j: int)
    requires
        0 <= i < n <= seqs.len(),
        ks.len() == seqs.len(),
        0 <= j < ks[i],
        seqs.len() <= usize::MAX,
    ensures
        forward_lens(seqs, ks, n).len() == sum_rows(ks, n),
        row_owners(ks, n).len() == sum_rows(ks, n),
        0 <= sum_rows(ks, i) + j < sum_rows(ks, n),
        forward_lens(seqs, ks, n)[sum_rows(ks, i) + j] == (seqs[i].seq_len + j) as usize,
        row_owners(ks, n)[sum_rows(ks, i) + j] == i,
    decreases n,
{
    lemma_forward_len(seqs, ks, n);
    lemma_forward_len(seqs, ks, n - 1);
    lemma_sum_rows_mono(ks, 0, i);
    lemma_sum_rows_mono(ks, i + 1, n);
    if i < n - 1 {
        lemma_forward_rows(seqs, ks, n - 1, i, j);
    }
}

proof fn lemma_forward_len(seqs: Seq<&SequenceState>, ks: Seq<usize>, n: int)
    requires
        0 <= n <= seqs.len(),
        ks.len() == seqs.len(),
    ensures
        forward_lens(seqs, ks, n).len() == sum_rows(ks, n),
        row_owners(ks, n).len() == sum_rows(ks, n),
    decreases n,
{
    if n > 0 {
        lemma_forward_len(seqs, ks, n - 1);
    }
}

/// Every row of the forward is its own sequence's: row `j` of sequence `i` reads sequence `i`'s
/// block table at that sequence's length plus `j`.
pub proof fn forward_rows_read_their_own_table(
    seqs: &Vec<&SequenceState>,
    ks: &[usize],
    r: (Vec<usize>, Vec<usize>),
    rows: BatchRows,
    i: int,
    j: int,
)
    requires
        call_ensures(forward_rows, (seqs, ks), r),
        ks@.len() == seqs@.len(),
        rows.off@.len() == ks@.len() + 1,
        rows.off@[0] == 0,
        forall|x: int| 0 <= x < ks@.len() ==> #[trigger] rows.off@[x + 1] == rows.off@[x] + ks@[x],
        0 <= i < seqs@.len(),
        0 <= j < ks@[i],
        seqs@[i].seq_len + ks@[i] <= usize::MAX,
    ensures
        r.0@.len() == rows.off@[ks@.len() as int],
        r.1@.len() == rows.off@[ks@.len() as int],
        r.0@[rows.off@[i] + j] == seqs@[i].seq_len + j,
        r.1@[rows.off@[i] + j] == i,
{
    assert(seqs.len() == seqs@.len());
    lemma_offsets_are_sums(ks@, rows.off@, i);
    lemma_offsets_are_sums(ks@, rows.off@, ks@.len() as int);
    lemma_forward_rows(seqs@, ks@, seqs@.len() as int, i, j);
}

proof fn lemma_batch_step(
    types: Seq<LayerType>,
    n: int,
    ks: Seq<usize>,
    wy_stride: Option<usize>,
    bands: Option<usize>,
    diag: bool,
    layer: int,
    x: int,
)
    requires
        0 <= layer < n <= types.len(),
        0 <= x < batch_layer_steps(types, layer, ks, wy_stride, bands, diag).len(),
    ensures
        ({
            let p = batch_layer_steps(types, layer, ks, wy_stride, bands, diag).len();
            let all = batch_steps(types, n, ks, wy_stride, bands, diag);
            &&& all.len() == n * p
            &&& 0 <= layer * p + x < n * p
            &&& all[layer * p + x] == batch_layer_steps(
                types,
                layer,
                ks,
                wy_stride,
                bands,
                diag,
            )[x]
        }),
    decreases n,
{
    let p = batch_layer_steps(types, layer, ks, wy_stride, bands, diag).len() as int;
    lemma_batch_steps_len(types, n, ks, wy_stride, bands, diag, p);
    lemma_batch_steps_len(types, n - 1, ks, wy_stride, bands, diag, p);
    assert(0 <= layer * p && layer * p + x < n * p) by (nonlinear_arith)
        requires
            0 <= layer < n,
            0 <= x < p,
    ;
    if layer < n - 1 {
        lemma_batch_step(types, n - 1, ks, wy_stride, bands, diag, layer, x);
    }
}

proof fn lemma_batch_steps_len(
    types: Seq<LayerType>,
    n: int,
    ks: Seq<usize>,
    wy_stride: Option<usize>,
    bands: Option<usize>,
    diag: bool,
    p: int,
)
    requires
        0 <= n,
        p == 1 + if bands is Some {
            ks.len()
        } else {
            0
        } + if diag {
            1int
        } else {
            0
        },
    ensures
        batch_steps(types, n, ks, wy_stride, bands, diag).len() == n * p,
    decreases n,
{
    if n > 0 {
        lemma_batch_steps_len(types, n - 1, ks, wy_stride, bands, diag, p);
        assert(n * p == (n - 1) * p + p) by (nonlinear_arith);
    } else {
        assert(n * p == 0) by (nonlinear_arith)
            requires
                n == 0,
        ;
    }
}

/// The layers run one after another, each once: full attention with the states of its own place
/// among the full-attention layers, a recurrent layer with its own pointer tables, at its place
/// among the recurrent layers times the stride, and any other layer with none. `full` and
/// `linear` are the two kinds in model order.
pub proof fn batch_layers_use_their_own_tables(
    types: &Vec<LayerType>,
    ks: &[usize],
    off: &Vec<usize>,
    wy_stride: Option<usize>,
    bands: Option<usize>,
    diag: bool,
    r: Vec<BatchStep>,
    full: Vec<usize>,
    linear: Vec<usize>,
    layer: int,
    x: int,
)
    requires
        call_ensures(run_verify_layers, (types, ks, off, wy_stride, bands, diag), r),
        call_ensures(layer_indices, (types, LayerType::FullAttention), full),
        call_ensures(layer_indices, (types, LayerType::LinearAttention), linear),
        0 <= layer < types@.len(),
        wy_stride matches Some(s) ==> types@.len() * s <= usize::MAX,
    ensures
        ({
            let p = 1 + if bands is Some {
                ks@.len()
            } else {
                0
            } + if diag {
                1int
            } else {
                0
            };
            &&& r@.len() == types@.len() * p
            &&& match r@[layer * p] {
                BatchStep::Attention { layer: l, attn_idx } => {
                    &&& l == layer
                    &&& types@[layer] is FullAttention
                    &&& 0 <= x < full@.len() && full@[x] == layer ==> attn_idx == x
                },
                BatchStep::VerifyMulti { layer: l, wy_offset } => {
                    &&& l == layer
                    &&& !(types@[layer] is FullAttention)
                    &&& wy_offset is Some <==> types@[layer] is LinearAttention && wy_stride is Some
                    &&& 0 <= x < linear@.len() && linear@[x] == layer && wy_stride is Some
                        ==> wy_offset->0 == x * wy_stride->0
                },
                _ => false,
            }
            &&& diag ==> r@[layer * p + p - 1] == (BatchStep::Sync { layer: layer as usize })
        }),
{
    assert(types.len() == types@.len());
    let one = batch_layer_steps(types@, layer, ks@, wy_stride, bands, diag);
    let n = types@.len() as int;
    lemma_batch_step(types@, n, ks@, wy_stride, bands, diag, layer, 0);
    if diag {
        lemma_batch_step(types@, n, ks@, wy_stride, bands, diag, layer, one.len() - 1);
        assert(one[one.len() - 1] == (BatchStep::Sync { layer: layer as usize }));
    }
    lemma_count_before_bound(types@, LayerType::FullAttention, layer);
    lemma_count_before_bound(types@, LayerType::LinearAttention, layer);
    if 0 <= x < full@.len() && full@[x] == layer {
        lemma_rank_in_list(types@, LayerType::FullAttention, n, x);
    }
    if 0 <= x < linear@.len() && linear@[x] == layer && wy_stride is Some {
        lemma_rank_in_list(types@, LayerType::LinearAttention, n, x);
        let s = wy_stride->0 as int;
        assert(0 <= x * s <= n * s) by (nonlinear_arith)
            requires
                0 <= x <= n,
                0 <= s,
        ;
    }
}

/// With a block drafter every layer hands over every sequence's own rows, each into its own band:
/// sequence `i`'s rows, from its offset on, go to band `i`.
pub proof fn captured_bands_hold_their_sequence(
    types: &Vec<LayerType>,
    ks: &[usize],
    rows: BatchRows,
    wy_stride: Option<usize>,
    kgamma: usize,
    diag: bool,
    r: Vec<BatchStep>,
    layer: int,
    i: int,
)
    requires
        call_ensures(run_verify_layers, (types, ks, &rows.off, wy_stride, Some(kgamma), diag), r),
        rows.off@.len() == ks@.len() + 1,
        rows.off@[0] == 0,
        forall|x: int| 0 <= x < ks@.len() ==> #[trigger] rows.off@[x + 1] == rows.off@[x] + ks@[x],
        0 <= layer < types@.len(),
        0 <= i < ks@.len(),
        ks@.len() * kgamma <= usize::MAX,
    ensures
        ({
            let p = 1 + ks@.len() + if diag {
                1int
            } else {
                0
            };
            &&& r@[layer * p + 1 + i] matches BatchStep::CaptureBand {
                layer: l,
                row,
                rows: count,
                band,
            }
            &&& l == layer
            &&& row == rows.off@[i]
            &&& count == ks@[i]
            &&& band == i * kgamma
        }),
{
    assert(types.len() == types@.len());
    let one = batch_layer_steps(types@, layer, ks@, wy_stride, Some(kgamma), diag);
    lemma_batch_step(
        types@,
        types@.len() as int,
        ks@,
        wy_stride,
        Some(kgamma),
        diag,
        layer,
        1 + i,
    );
    assert(one[1 + i] == band_steps(layer, ks@, kgamma as int)[i]);
    lemma_offsets_are_sums(ks@, rows.off@, i);
    assert(0 <= i * kgamma <= ks@.len() * kgamma) by (nonlinear_arith)
        requires
            0 <= i <= ks@.len(),
            0 <= kgamma,
    ;
}

/// Every logits row is reduced to its own word, by exactly one launch: row `t` by the launch that
/// starts at row `from` and covers it.
pub proof fn every_row_is_reduced_once(
    batch_kernel: bool,
    r_total: usize,
    vocab: usize,
    r: Vec<ArgmaxLaunch>,
    t: int,
    x: int,
)
    requires
        call_ensures(verify_rows_argmax, (batch_kernel, r_total, vocab), r),
        r_total * vocab * 2 <= usize::MAX,
        r_total * 4 <= usize::MAX,
        0 <= t < r_total,
        0 <= x < r@.len(),
    ensures
        ({
            let from = if batch_kernel {
                0
            } else {
                x
            };
            &&& r@.len() == if batch_kernel {
                1
            } else {
                r_total as int
            }
            &&& r@[x].logits_offset == from * vocab * 2
            &&& r@[x].out_offset == from * 4
            &&& from <= t < from + r@[x].rows <==> batch_kernel || x == t
        }),
{
    lemma_row_fits(x, r_total as int, vocab as int);
}

/// Where the argmax words are read: mapped memory first, then the default stream, and page-locked
/// memory only while the words fit it and it is not switched off.
pub proof fn readback_fits_its_buffer(
    mapped: bool,
    default_stream: bool,
    no_pinned: bool,
    r_total: usize,
    r: Readback,
)
    requires
        call_ensures(readback, (mapped, default_stream, no_pinned, r_total), r),
    ensures
        r is Mapped <==> mapped,
        r is DefaultStream <==> !mapped && default_stream,
        r is Pinned <==> !mapped && !default_stream && !no_pinned && r_total * 4 <= 65536,
{
}

/// A batch graph is keyed by each sequence's own slot and row count, in batch order, and only a
/// batch whose sequences all have both is captured.
pub proof fn graph_keys_name_every_sequence(
    seqs: &Vec<&SequenceState>,
    ks: &[usize],
    r: Option<Vec<(u32, u32)>>,
)
    requires
        call_ensures(verify_batched_graph_key, (seqs, ks), r),
    ensures
        r is Some <==> seqs@.len() <= ks@.len() && forall|i: int|
            0 <= i < seqs@.len() ==> ((#[trigger] seqs@[i]).ssm_slot matches Some(g) && g.slot
                is Some),
        r matches Some(pairs) ==> pairs@.len() == seqs@.len() && forall|i: int|
            0 <= i < pairs@.len() ==> (#[trigger] pairs@[i]).0
                == seqs@[i].ssm_slot->0.slot->0 as u32 && pairs@[i].1 == ks@[i] as u32,
{
    assert((forall|i: int| 0 <= i < seqs@.len() ==> (#[trigger] seqs@[i]).slot() is Some)
        <==> forall|i: int|
        0 <= i < seqs@.len() ==> ((#[trigger] seqs@[i]).ssm_slot matches Some(g) && g.slot
            is Some)) by {
        if forall|i: int| 0 <= i < seqs@.len() ==> (#[trigger] seqs@[i]).slot() is Some {
            assert forall|i: int| 0 <= i < seqs@.len() implies ((
            #[trigger] seqs@[i]).ssm_slot matches Some(g) && g.slot is Some) by {
                assert(seqs@[i].slot() is Some);
            }
        }
    }
    if let Some(pairs) = r {
        assert forall|i: int| 0 <= i < pairs@.len() implies (#[trigger] pairs@[i]).0
            == seqs@[i].ssm_slot->0.slot->0 as u32 && pairs@[i].1 == ks@[i] as u32 by {
            assert(seqs@[i].slot() is Some);
        }
    }
}

/// Accepted rows may be folded only after a verify that completed with the fold requested, the
/// tables staged and its buffers bound; a verify that begins takes the permit away.
pub proof fn folds_need_a_completed_request(
    permit: &mut FoldPermit,
    requested: bool,
    wy_tables_null: bool,
    bound: bool,
    wanted: bool,
)
    requires
        call_ensures(FoldPermit::complete, (permit, requested, wy_tables_null, bound), ()),
        call_ensures(write_on_accept_wanted, (requested, wy_tables_null), wanted),
    ensures
        final(permit).eligible <==> requested && !wy_tables_null && bound,
        wanted <==> requested && !wy_tables_null,
        final(permit).eligible ==> wanted,
{
}

/// A verify that begins withdraws the permit of the one before.
pub proof fn begun_verifies_fold_nothing(permit: &mut FoldPermit)
    requires
        call_ensures(FoldPermit::begin, (permit,), ()),
    ensures
        !final(permit).eligible,
{
}

/// A borrowed graph is replayed only against tables of the kind it was captured with.
pub proof fn restaging_keeps_the_tables(
    staged_null: bool,
    restaged_null: bool,
    r: Result<(), BatchVerifyError>,
)
    requires
        call_ensures(check_restage, (staged_null, restaged_null), r),
    ensures
        r is Ok <==> (staged_null && restaged_null) || (!staged_null && !restaged_null),
        r matches Err(e) ==> e is RestageFlipped,
{
}

/// The block made available for a sequence is the one that holds its last row.
pub proof fn batch_blocks_hold_the_last_row(
    seqs: &Vec<&SequenceState>,
    ks: &[usize],
    bs: usize,
    r: Vec<usize>,
    i: int,
)
    requires
        call_ensures(batch_blocks, (seqs, ks, bs), r),
        bs > 0,
        0 <= i < seqs@.len(),
        ks@[i] >= 1,
        seqs@[i].seq_len + ks@[i] <= usize::MAX,
    ensures
        r@.len() == seqs@.len(),
        r@[i] * bs <= seqs@[i].seq_len + ks@[i] - 1 < (r@[i] + 1) * bs,
{
    let last = seqs@[i].seq_len + ks@[i] - 1;
    let b = bs as int;
    let q = last / b;
    assert(0 <= q <= last && q * b <= last < (q + 1) * b) by (nonlinear_arith)
        requires
            q == last / b,
            0 <= last,
            0 < b,
    ;
}

/// A committed batch gives every sequence its own rows: sequence `i` gains the tokens between its
/// offset and the next, its length moves by its row count, and nothing else of it changes.
pub proof fn committed_tokens_go_to_their_sequence(
    seqs: &mut Vec<SequenceState>,
    tokens: &[u32],
    ks: &[usize],
    rows: BatchRows,
    i: int,
    j: int,
)
    requires
        call_ensures(commit_batch, (seqs, tokens, ks), ()),
        ks@.len() == old(seqs)@.len(),
        rows.off@.len() == ks@.len() + 1,
        rows.off@[0] == 0,
        forall|x: int| 0 <= x < ks@.len() ==> #[trigger] rows.off@[x + 1] == rows.off@[x] + ks@[x],
        tokens@.len() == rows.off@[ks@.len() as int],
        0 <= i < ks@.len(),
        0 <= j < ks@[i],
        old(seqs)@[i].seq_len + ks@[i] <= usize::MAX,
    ensures
        final(seqs)@.len() == old(seqs)@.len(),
        ({
            let was = old(seqs)@[i];
            let now = final(seqs)@[i];
            &&& now.tokens@.len() == was.tokens@.len() + ks@[i]
            &&& now.tokens@.subrange(0, was.tokens@.len() as int) == was.tokens@
            &&& now.tokens@[was.tokens@.len() + j] == tokens@[rows.off@[i] + j]
            &&& now.seq_len == was.seq_len + ks@[i]
            &&& now == (SequenceState { tokens: now.tokens, seq_len: now.seq_len, ..was })
        }),
{
    lemma_offsets_are_sums(ks@, rows.off@, i);
    lemma_offsets_are_sums(ks@, rows.off@, i + 1);
    lemma_offsets_are_sums(ks@, rows.off@, ks@.len() as int);
    lemma_sum_rows_mono(ks@, 0, i);
    lemma_sum_rows_mono(ks@, i + 1, ks@.len() as int);
    assert(rows.off@[i + 1] == rows.off@[i] + ks@[i]);
    let was = old(seqs)@[i];
    let now = final(seqs)@[i];
    assert(now.tokens@.subrange(0, was.tokens@.len() as int) =~= was.tokens@);
}

/// A batch has one entry of everything per row and ghost row, whatever their numbers, and one
/// block per sequence; its adapter is the first sequence's.
pub proof fn batches_have_one_entry_per_row(
    seqs: &Vec<&SequenceState>,
    ks: &[usize],
    bs: usize,
    max_blocks: usize,
    dummy_block: u32,
    ghost_rows: usize,
    meta: BatchMeta,
    forward: (Vec<usize>, Vec<usize>),
    blocks: Vec<usize>,
    rows: BatchRows,
)
    requires
        call_ensures(
            stage_verify_metadata,
            (seqs, ks, bs, max_blocks, dummy_block, ghost_rows),
            meta,
        ),
        call_ensures(forward_rows, (seqs, ks), forward),
        call_ensures(batch_blocks, (seqs, ks, bs), blocks),
        ks@.len() == seqs@.len(),
        rows.off@.len() == ks@.len() + 1,
        rows.off@[0] == 0,
        forall|x: int| 0 <= x < ks@.len() ==> #[trigger] rows.off@[x + 1] == rows.off@[x] + ks@[x],
    ensures
        ({
            let total = rows.off@[ks@.len() as int];
            &&& meta.positions@.len() == total + ghost_rows
            &&& meta.slots@.len() == total + ghost_rows
            &&& meta.seq_lens@.len() == total + ghost_rows
            &&& meta.block_table@.len() == (total + ghost_rows) * max_blocks
            &&& meta.adapter_slot == seqs@[0].adapter_slot
            &&& forward.0@.len() == total
            &&& forward.1@.len() == total
            &&& blocks@.len() == seqs@.len()
        }),
{
    let n = seqs@.len() as int;
    let mb = max_blocks as int;
    let total = sum_rows(ks@, n);
    lemma_offsets_are_sums(ks@, rows.off@, n);
    lemma_batch_lens(seqs@, ks@, n, bs as int);
    lemma_tables_len(seqs@, ks@, n, max_blocks as nat);
    lemma_forward_len(seqs@, ks@, n);
    lemma_repeat_row_len(ghost_table_row(dummy_block, max_blocks as nat), ghost_rows as nat);
    assert((total + ghost_rows) * mb == total * mb + ghost_rows * mb) by (nonlinear_arith);
}

/// A sequence without rows is left as it is by a commit.
pub proof fn commits_leave_sequences_without_rows(
    seqs: &mut Vec<SequenceState>,
    tokens: &[u32],
    ks: &[usize],
    i: int,
)
    requires
        call_ensures(commit_batch, (seqs, tokens, ks), ()),
        0 <= i < ks@.len(),
        ks@[i] == 0,
        tokens@.len() == all_rows(ks@),
    ensures
        final(seqs)@.len() == old(seqs)@.len(),
        final(seqs)@[i].tokens@ == old(seqs)@[i].tokens@,
        final(seqs)@[i].seq_len == old(seqs)@[i].seq_len,
{
    lemma_all_rows(ks@, ks@.len() as int);
    assert(ks@.subrange(0, ks@.len() as int) =~= ks@);
    lemma_sum_rows_mono(ks@, 0, i);
    lemma_sum_rows_mono(ks@, i + 1, ks@.len() as int);
    assert(final(seqs)@[i].tokens@ =~= old(seqs)@[i].tokens@);
}

} // verus!
