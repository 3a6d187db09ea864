//! Rows of attention metadata: where a token's key and value go in the paged cache, and the
//! positions, causal lengths and block tables that go with them.

use vstd::prelude::*;

use crate::sequence_state::SequenceState;

verus! {

/// Largest block size for which every slot of every block fits a signed 64-bit slot number.
pub const MAX_BLOCK_SIZE: usize = 0x8000_0000;

/// Slot of position `pos` in physical block `block`.
pub open spec fn kv_slot_spec(block: u32, bs: int, pos: int) -> int {
    block as int * bs + pos % bs
}

/// Slot of position `pos` of a sequence; a block outside the window is replaced by `fallback`.
pub open spec fn seq_slot_spec(seq: SequenceState, pos: int, bs: int, fallback: u32) -> int {
    match seq.block_at(pos / bs) {
        Some(block) => kv_slot_spec(block, bs, pos),
        None => kv_slot_spec(fallback, bs, pos),
    }
}

/// A slot number determines its block and the position inside the block, so tokens of different
/// blocks, or at different offsets of one block, never share a slot.
pub proof fn kv_slot_is_injective(b1: u32, p1: int, b2: u32, p2: int, bs: int)
    requires
        bs > 0,
        kv_slot_spec(b1, bs, p1) == kv_slot_spec(b2, bs, p2),
    ensures
        b1 == b2,
        p1 % bs == p2 % bs,
{
    let r1 = p1 % bs;
    let r2 = p2 % bs;
    assert(0 <= r1 < bs && 0 <= r2 < bs);
    assert(b1 as int == b2 as int) by (nonlinear_arith)
        requires
            b1 as int * bs + r1 == b2 as int * bs + r2,
            0 <= r1 < bs,
            0 <= r2 < bs,
    ;
}

/// Slot number of position `pos` in physical block `block`.
pub fn kv_slot(block: u32, bs: usize, pos: usize) -> (r: i64)
    requires
        0 < bs <= MAX_BLOCK_SIZE,
    ensures
        r == kv_slot_spec(block, bs as int, pos as int),
{
    proof {
        assert(0 <= block as int * bs as int <= 0xffff_ffff * 0x8000_0000) by (nonlinear_arith)
            requires
                0 <= block as int <= 0xffff_ffff,
                0 < bs as int <= 0x8000_0000,
        ;
    }
    (block as i64) * (bs as i64) + ((pos % bs) as i64)
}

/// Slot number of a sequence's position, with `fallback` for a block outside the window.
pub fn seq_slot(seq: &SequenceState, pos: usize, bs: usize, fallback: u32) -> (r: i64)
    requires
        0 < bs <= MAX_BLOCK_SIZE,
    ensures
        r == seq_slot_spec(*seq, pos as int, bs as int, fallback),
{
    let block = match seq.physical_block_for(pos / bs) {
        Some(b) => b,
        None => fallback,
    };
    kv_slot(block, bs, pos)
}

/// Slots of the positions `start..start + count` of a sequence.
pub fn seq_slots(seq: &SequenceState, start: usize, count: usize, bs: usize, fallback: u32) -> (r:
    Vec<i64>)
    requires
        0 < bs <= MAX_BLOCK_SIZE,
        start + count <= usize::MAX,
    ensures
        r@ == Seq::new(
            count as nat,
            |i: int| seq_slot_spec(*seq, start + i, bs as int, fallback) as i64,
        ),
{
    let mut out: Vec<i64> = Vec::new();
    let mut i: usize = 0;
    while i < count
        invariant
            0 < bs <= MAX_BLOCK_SIZE,
            start + count <= usize::MAX,
            i <= count,
            out@ == Seq::new(
                i as nat,
                |j: int| seq_slot_spec(*seq, start + j, bs as int, fallback) as i64,
            ),
        decreases count - i,
    {
        let slot: i64 = seq_slot(seq, start + i, bs, fallback);
        out.push(slot);
        i = i + 1;
    }
    out
}

/// The positions `start..start + count` as 32-bit words.
pub open spec fn positions_spec(start: int, count: nat) -> Seq<u32> {
    Seq::new(count, |i: int| (start + i) as u32)
}

/// The positions `start..start + count` as 32-bit words.
pub fn positions(start: usize, count: usize) -> (r: Vec<u32>)
    requires
        start + count <= usize::MAX,
    ensures
        r@ == positions_spec(start as int, count as nat),
{
    let mut out: Vec<u32> = Vec::new();
    let mut i: usize = 0;
    while i < count
        invariant
            start + count <= usize::MAX,
            i <= count,
            out@ == positions_spec(start as int, i as nat),
        decreases count - i,
    {
        out.push((start + i) as u32);
        i = i + 1;
    }
    out
}

/// Causal lengths of the rows at `start..start + count`: a row attends through its own position.
pub open spec fn causal_lens_spec(start: int, count: nat) -> Seq<i32> {
    Seq::new(count, |i: int| (start + i + 1) as i32)
}

/// Causal lengths of the rows at `start..start + count`.
pub fn causal_lens(start: usize, count: usize) -> (r: Vec<i32>)
    requires
        start + count <= usize::MAX,
    ensures
        r@ == causal_lens_spec(start as int, count as nat),
{
    let mut out: Vec<i32> = Vec::new();
    let mut i: usize = 0;
    while i < count
        invariant
            start + count <= usize::MAX,
            i <= count,
            out@ == causal_lens_spec(start as int, i as nat),
        decreases count - i,
    {
        out.push((start + i + 1) as i32);
        i = i + 1;
    }
    out
}

/// One block-table row of `mb` entries: the table's first `mb` blocks, then zeros.
pub open spec fn table_row_spec(table: Seq<u32>, mb: nat) -> Seq<i32> {
    Seq::new(
        mb,
        |j: int|
            if j < table.len() {
                table[j] as i32
            } else {
                0i32
            },
    )
}

/// Append one block-table row of `mb` entries to `out`.
pub fn push_table_row(out: &mut Vec<i32>, table: &Vec<u32>, mb: usize)
    ensures
        final(out)@ == old(out)@ + table_row_spec(table@, mb as nat),
{
    let mut j: usize = 0;
    while j < mb
        invariant
            j <= mb,
            out@ == old(out)@ + table_row_spec(table@, j as nat),
        decreases mb - j,
    {
        let word: i32 = if j < table.len() {
            table[j] as i32
        } else {
            0
        };
        out.push(word);
        j = j + 1;
        assert(out@ =~= old(out)@ + table_row_spec(table@, j as nat));
    }
}

/// The table's blocks as signed words.
pub open spec fn table_words_spec(table: Seq<u32>) -> Seq<i32> {
    Seq::new(table.len(), |j: int| table[j] as i32)
}

/// The table's blocks as signed words.
pub fn table_words(table: &Vec<u32>) -> (r: Vec<i32>)
    ensures
        r@ == table_words_spec(table@),
{
    let mut out: Vec<i32> = Vec::new();
    let mut j: usize = 0;
    while j < table.len()
        invariant
            j <= table.len(),
            out@ == table_words_spec(table@).subrange(0, j as int),
        decreases table.len() - j,
    {
        out.push(table[j] as i32);
        j = j + 1;
        assert(out@ =~= table_words_spec(table@).subrange(0, j as int));
    }
    out
}

/// Token `i` of a run is given the slot of its own position in the sequence's own block: the
/// block that holds position `start + i`, times the block size, plus the place inside the block.
/// A block outside the window is replaced by the fallback.
pub proof fn slots_lie_in_the_sequences_own_blocks(
    seq: &SequenceState,
    start: usize,
    count: usize,
    bs: usize,
    fallback: u32,
    r: Vec<i64>,
    i: int,
)
    requires
        call_ensures(seq_slots, (seq, start, count, bs, fallback), r),
        0 < bs <= MAX_BLOCK_SIZE,
        0 <= i < count,
    ensures
        r@.len() == count,
        ({
            let pos = start + i;
            let table = seq.block_table@;
            let seen = seq.disk_block_ids@.len() as int;
            let first = if seen > table.len() {
                seen - table.len()
            } else {
                0
            };
            let at = pos / bs as int - first;
            let block = if 0 <= at < table.len() {
                table[at]
            } else {
                fallback
            };
            r@[i] == block as int * bs as int + pos % bs as int
        }),
{
    lemma_slot_fits(*seq, start + i, bs as int, fallback);
}

/// A sequence's slot fits the signed word it is uploaded as.
pub proof fn lemma_slot_fits(seq: SequenceState, pos: int, bs: int, fallback: u32)
    requires
        0 <= pos,
        0 < bs <= MAX_BLOCK_SIZE,
    ensures
        0 <= seq_slot_spec(seq, pos, bs, fallback) <= i64::MAX,
{
    let block = match seq.block_at(pos / bs) {
        Some(b) => b,
        None => fallback,
    };
    assert(0 <= block as int * bs <= 0xffff_ffff * 0x8000_0000) by (nonlinear_arith)
        requires
            0 <= block as int <= 0xffff_ffff,
            0 < bs <= 0x8000_0000,
    ;
}

/// A row sits at its own position and attends to every token up to and including itself: the
/// rows count up one by one from `start`, and each length is its row's position plus one.
pub proof fn rows_attend_through_themselves(
    start: usize,
    count: usize,
    pos: Vec<u32>,
    lens: Vec<i32>,
    i: int,
)
    requires
        call_ensures(positions, (start, count), pos),
        call_ensures(causal_lens, (start, count), lens),
        0 <= i < count,
        start + count <= i32::MAX,
    ensures
        pos@.len() == count,
        lens@.len() == count,
        pos@[i] == start + i,
        lens@[i] == pos@[i] + 1,
{
}

/// A table row repeats the sequence's blocks in order, and is zero past them.
pub proof fn table_rows_repeat_the_blocks(out: &mut Vec<i32>, table: &Vec<u32>, mb: usize, j: int)
    requires
        call_ensures(push_table_row, (out, table, mb), ()),
        0 <= j < mb,
    ensures
        final(out)@.len() == old(out)@.len() + mb,
        forall|i: int| 0 <= i < old(out)@.len() ==> #[trigger] final(out)@[i] == old(out)@[i],
        j < table@.len() ==> final(out)@[old(out)@.len() + j] == table@[j] as i32,
        j >= table@.len() ==> final(out)@[old(out)@.len() + j] == 0,
{
}

/// The uploaded table is the sequence's table, entry by entry.
pub proof fn table_words_are_the_table(table: &Vec<u32>, r: Vec<i32>)
    requires
        call_ensures(table_words, (table,), r),
    ensures
        r@.len() == table@.len(),
        forall|j: int| 0 <= j < table@.len() ==> #[trigger] r@[j] == table@[j] as i32,
{
}

/// A position's slot is its place in its block behind all slots of the blocks before, so slots of
/// different blocks or places differ; a sequence's position has the slot of its own block there.
pub proof fn slots_are_places_in_blocks(
    block: u32,
    bs: usize,
    pos: usize,
    r: i64,
    seq: &SequenceState,
    fallback: u32,
    own: i64,
    found: Option<u32>,
)
    requires
        call_ensures(kv_slot, (block, bs, pos), r),
        call_ensures(seq_slot, (seq, pos, bs, fallback), own),
        call_ensures(SequenceState::physical_block_for, (seq, (pos / bs) as usize), found),
        0 < bs,
        block == (match found {
            Some(b) => b,
            None => fallback,
        }),
    ensures
        r == block as int * bs as int + pos as int % bs as int,
        own == r,
{
}

/// A run of rows has as many slots, positions and lengths as it has rows.
pub proof fn runs_have_one_entry_per_row(
    seq: &SequenceState,
    start: usize,
    count: usize,
    bs: usize,
    fallback: u32,
    slots: Vec<i64>,
    pos: Vec<u32>,
    lens: Vec<i32>,
)
    requires
        call_ensures(seq_slots, (seq, start, count, bs, fallback), slots),
        call_ensures(positions, (start, count), pos),
        call_ensures(causal_lens, (start, count), lens),
    ensures
        slots@.len() == count,
        pos@.len() == count,
        lens@.len() == count,
{
}

} // verus!
