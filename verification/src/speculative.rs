//! Speculative decoding on the host: how a generation runs, how the drafter gets its prompt
//! context, and which hidden rows are kept for it.

use vstd::prelude::*;

use crate::sequence_state::SequenceState;
use crate::verify_single::{lemma_row_fits, ROW_ELEM_BYTES};

verus! {

/// How a one-shot generation drafts.
#[derive(Clone, Copy, Debug, PartialEq, Eq, Structural)]
pub enum GenerateRoute {
    /// Draft by skipping recurrent layers.
    SelfSpeculative,
    /// No drafter: plain generation.
    Plain,
    /// Draft with the proposer.
    Proposer,
}

/// How a one-shot generation drafts.
pub fn generate_route(self_speculative: bool, has_proposer: bool) -> (r: GenerateRoute)
    ensures
        r == if self_speculative {
            GenerateRoute::SelfSpeculative
        } else if has_proposer {
            GenerateRoute::Proposer
        } else {
            GenerateRoute::Plain
        },
{
    if self_speculative {
        GenerateRoute::SelfSpeculative
    } else if has_proposer {
        GenerateRoute::Proposer
    } else {
        GenerateRoute::Plain
    }
}

/// What is known when a sequence first proposes.
#[derive(Clone, Copy, Debug)]
pub struct DrafterInputs {
    /// Whether the buffer of captured hidden rows is not allocated.
    pub hidden_null: bool,
    /// Whether the sequence has proposer state.
    pub has_state: bool,
    /// Rows of the shared capture.
    pub captured: usize,
    /// Generation of the shared capture.
    pub capture_gen: u64,
    /// Whether the drafter carry is armed.
    pub carry_on: bool,
    /// Rows the drafter already holds.
    pub drafter_rows: usize,
}

/// How the drafter gets its prompt context.
#[derive(Clone, Copy, Debug, PartialEq, Eq, Structural)]
pub enum DrafterAction {
    Nothing,
    /// Prefill the drafter over the prompt; with `free_carry`, a carried entry is freed first, so
    /// that it does not starve the prefill.
    ColdPrefill { free_carry: bool },
    /// Adopt the previous turn's drafter rows and append the new span.
    TryCarry,
}

/// Whether the shared capture covers the whole prompt and is still this sequence's.
pub open spec fn cold_prefill_ok(seq: SequenceState, d: DrafterInputs) -> bool {
    &&& seq.prompt_len >= 2
    &&& d.captured >= seq.prompt_len
    &&& seq.tokens@.len() >= seq.prompt_len
    &&& seq.mtp_capture_gen != 0
    &&& seq.mtp_capture_gen == d.capture_gen
}

/// How the drafter gets its prompt context on the first propose of a sequence: prefilled when
/// the capture covers the prompt, carried over when that is armed, else not at all.
pub fn ensure_drafter_context(seq: &SequenceState, d: &DrafterInputs) -> (r: DrafterAction)
    ensures
        r == if !d.has_state || d.hidden_null {
            DrafterAction::Nothing
        } else if cold_prefill_ok(*seq, *d) {
            (DrafterAction::ColdPrefill { free_carry: d.carry_on })
        } else if d.carry_on && d.drafter_rows == 0 && seq.prompt_len >= 2 {
            DrafterAction::TryCarry
        } else {
            DrafterAction::Nothing
        },
{
    if !d.has_state || d.hidden_null {
        return DrafterAction::Nothing;
    }
    let p: usize = seq.prompt_len;
    let owns: bool = seq.mtp_capture_gen != 0 && seq.mtp_capture_gen == d.capture_gen;
    if p >= 2 && d.captured >= p && seq.tokens.len() >= p && owns {
        DrafterAction::ColdPrefill { free_carry: d.carry_on }
    } else if d.carry_on && d.drafter_rows == 0 && p >= 2 {
        DrafterAction::TryCarry
    } else {
        DrafterAction::Nothing
    }
}

/// A capture of another sequence's prompt is never used: a cold prefill runs only while the
/// sequence's own stamp is the capture's.
pub proof fn foreign_capture_is_not_used(seq: SequenceState, d: DrafterInputs)
    requires
        seq.mtp_capture_gen != d.capture_gen || seq.mtp_capture_gen == 0,
    ensures
        !cold_prefill_ok(seq, d),
{
}

/// Drafter rows carried from one turn to the next.
pub struct CarriedDrafter {
    pub block_table: Vec<u32>,
    pub rows: usize,
    pub last_pair_key: Option<usize>,
    pub tokens: Vec<u32>,
    pub session_hash: u64,
}

/// Copy of a word list.
pub fn copy_words(words: &Vec<u32>) -> (r: Vec<u32>)
    ensures
        r@ == words@,
{
    let mut out: Vec<u32> = Vec::new();
    let mut i: usize = 0;
    while i < words.len()
        invariant
            i <= words@.len(),
            out@ == words@.subrange(0, i as int),
        decreases words@.len() - i,
    {
        out.push(words[i]);
        i = i + 1;
        assert(out@ =~= words@.subrange(0, i as int));
    }
    assert(out@ =~= words@);
    out
}

/// Keep a retired sequence's drafter rows in the single carry slot; returns the blocks of the
/// entry it displaced, which are to be freed.
pub fn store_carry(
    carry: &mut Option<CarriedDrafter>,
    seq: &SequenceState,
    blocks: Vec<u32>,
    rows: usize,
    last_pair_key: Option<usize>,
) -> (r: Option<Vec<u32>>)
    ensures
        *final(carry) matches Some(e) && e.block_table@ == blocks@ && e.rows == rows
            && e.last_pair_key == last_pair_key && e.tokens@ == seq.tokens@ && e.session_hash
            == seq.session_hash,
        r is Some == *old(carry) is Some,
        r matches Some(b) ==> b@ == old(carry)->0.block_table@,
{
    let entry = CarriedDrafter {
        block_table: blocks,
        rows,
        last_pair_key,
        tokens: copy_words(&seq.tokens),
        session_hash: seq.session_hash,
    };
    let previous: Option<CarriedDrafter> = carry.take();
    *carry = Some(entry);
    match previous {
        Some(e) => Some(e.block_table),
        None => None,
    }
}

/// The outcome of a carry attempt.
#[derive(Clone, Copy, Debug, PartialEq, Eq, Structural)]
pub enum CarryOutcome {
    NoCarry,
    PrefixMismatch { common: usize, entry_rows: usize },
    ForeignSession { entry_session: u64, prompt_session: u64 },
    ForeignHiddens { owner: u64, expected: u64 },
    NoHiddens,
    Adopted { rows: usize, appended: usize, first_key: usize },
}

/// What the carried entry's admission rule said about a prompt.
#[derive(Clone, Copy, Debug)]
pub struct CarryAdmission {
    /// Rows and last pair key that may be adopted.
    pub usable: Option<(usize, usize)>,
    pub session_matches: bool,
    pub common_prefix: usize,
}

/// The first step of a carry attempt.
#[derive(Clone, Copy, Debug, PartialEq, Eq, Structural)]
pub enum CarryStep {
    /// The attempt is over; with `free_blocks`, the entry's blocks are freed.
    Done { outcome: CarryOutcome, free_blocks: bool },
    /// Install the entry's blocks with these rows and this last pair key.
    Install { rows: usize, last_key: usize },
}

/// Decide what to do with the entry taken from the carry slot.
pub fn carry_admit(
    entry: &Option<CarriedDrafter>,
    admission: CarryAdmission,
    session_hash: u64,
) -> (r: CarryStep)
    ensures
        r == match *entry {
            None => CarryStep::Done { outcome: CarryOutcome::NoCarry, free_blocks: false },
            Some(e) => match admission.usable {
                Some((rows, last_key)) => CarryStep::Install { rows, last_key },
                None => CarryStep::Done {
                    outcome: if admission.session_matches {
                        CarryOutcome::PrefixMismatch {
                            common: admission.common_prefix,
                            entry_rows: e.rows,
                        }
                    } else {
                        CarryOutcome::ForeignSession {
                            entry_session: e.session_hash,
                            prompt_session: session_hash,
                        }
                    },
                    free_blocks: true,
                },
            },
        },
{
    match entry {
        None => CarryStep::Done { outcome: CarryOutcome::NoCarry, free_blocks: false },
        Some(e) => match admission.usable {
            Some((rows, last_key)) => CarryStep::Install { rows, last_key },
            None => {
                let outcome: CarryOutcome = if admission.session_matches {
                    CarryOutcome::PrefixMismatch {
                        common: admission.common_prefix,
                        entry_rows: e.rows,
                    }
                } else {
                    CarryOutcome::ForeignSession {
                        entry_session: e.session_hash,
                        prompt_session: session_hash,
                    }
                };
                CarryStep::Done { outcome, free_blocks: true }
            },
        },
    }
}

/// The append of the new span after an install.
#[derive(Clone, Copy, Debug, PartialEq, Eq, Structural)]
pub enum CarryAppend {
    Done { outcome: CarryOutcome, free_blocks: bool },
    /// Append the prompt from `first_key` on: its hidden rows start at row `first_key`, its first
    /// position is `pos_base`, after the `rows` adopted ones.
    Append { rows: usize, first_key: usize, pos_base: usize },
}

/// Decide the append once the install has been tried. A refused install frees the blocks. A
/// refused append keeps the adopted rows: the blocks then belong to the proposer state.
/// `first_key` is where the append may start, if the stored hidden rows allow one.
pub fn carry_append(
    installed: bool,
    rows: usize,
    first_key: Option<usize>,
    store_owner: u64,
    store_gen: u64,
) -> (r: CarryAppend)
    requires
        first_key matches Some(k) ==> k < usize::MAX,
    ensures
        r == if !installed {
            (CarryAppend::Done { outcome: CarryOutcome::NoCarry, free_blocks: true })
        } else {
            match first_key {
                Some(k) => CarryAppend::Append {
                    rows,
                    first_key: k,
                    pos_base: (k + 1) as usize,
                },
                None => CarryAppend::Done {
                    outcome: if store_owner != store_gen && store_owner != 0 {
                        CarryOutcome::ForeignHiddens { owner: store_owner, expected: store_gen }
                    } else {
                        CarryOutcome::NoHiddens
                    },
                    free_blocks: false,
                },
            }
        },
{
    if !installed {
        return CarryAppend::Done { outcome: CarryOutcome::NoCarry, free_blocks: true };
    }
    match first_key {
        Some(k) => CarryAppend::Append { rows, first_key: k, pos_base: k + 1 },
        None => {
            let outcome: CarryOutcome = if store_owner != store_gen && store_owner != 0 {
                CarryOutcome::ForeignHiddens { owner: store_owner, expected: store_gen }
            } else {
                CarryOutcome::NoHiddens
            };
            CarryAppend::Done { outcome, free_blocks: false }
        },
    }
}

/// The prompt tokens of an append: those from `first_key` on, as far as the sequence holds the
/// prompt.
pub fn append_tokens(tokens: &Vec<u32>, prompt_len: usize, first_key: usize) -> (r: Vec<u32>)
    requires
        first_key <= prompt_len,
        first_key <= tokens@.len(),
    ensures
        r@ == tokens@.subrange(
            first_key as int,
            if prompt_len < tokens@.len() {
                prompt_len as int
            } else {
                tokens@.len() as int
            },
        ),
{
    let end: usize = if prompt_len < tokens.len() {
        prompt_len
    } else {
        tokens.len()
    };
    let mut out: Vec<u32> = Vec::new();
    let mut i: usize = first_key;
    while i < end
        invariant
            first_key <= i <= end <= tokens@.len(),
            out@ == tokens@.subrange(first_key as int, i as int),
        decreases end - i,
    {
        out.push(tokens[i]);
        i = i + 1;
        assert(out@ =~= tokens@.subrange(first_key as int, i as int));
    }
    out
}

/// The outcome of an append: a failed one leaves the adopted rows.
pub fn carry_adopted(rows: usize, first_key: usize, appended: Option<usize>) -> (r: CarryOutcome)
    ensures
        r == (CarryOutcome::Adopted {
            rows,
            appended: match appended {
                Some(n) => n,
                None => 0,
            },
            first_key,
        }),
{
    CarryOutcome::Adopted {
        rows,
        appended: match appended {
            Some(n) => n,
            None => 0,
        },
        first_key,
    }
}

/// A copy of one hidden row between two buffers.
#[derive(Clone, Copy, Debug, PartialEq, Eq, Structural)]
pub struct RowCopy {
    pub src_offset: usize,
    pub dst_offset: usize,
    pub bytes: usize,
}

/// Why hidden rows were not kept.
#[derive(Clone, Copy, Debug, PartialEq, Eq, Structural)]
pub enum StashError {
    NotAllocated,
    TooManyRows { rows: usize },
    SlotOutOfRange { slot: usize },
}

/// The copy of row `row` to stash slot `slot`.
pub open spec fn row_copy(row: int, slot: int, h: int) -> RowCopy {
    RowCopy {
        src_offset: (row * h * 2) as usize,
        dst_offset: (slot * h * 2) as usize,
        bytes: (h * 2) as usize,
    }
}

/// Copy verify row `rows[i]` into stash slot `i` for every sequence `i`, before a propose
/// overwrites the rows.
pub fn stash_verify_hidden_rows(stash_null: bool, rows: &[usize], max_slots: usize, h: usize) -> (r:
    Result<Vec<RowCopy>, StashError>)
    requires
        forall|i: int| 0 <= i < rows@.len() ==> #[trigger] rows@[i] * h * 2 <= usize::MAX,
        max_slots * h * 2 <= usize::MAX,
        h * 2 <= usize::MAX,
    ensures
        stash_null ==> r == Err::<Vec<RowCopy>, StashError>(StashError::NotAllocated),
        !stash_null && rows@.len() > max_slots ==> r == Err::<Vec<RowCopy>, StashError>(
            StashError::TooManyRows { rows: rows@.len() as usize },
        ),
        !stash_null && rows@.len() <= max_slots ==> {
            &&& r matches Ok(copies)
            &&& copies@ == Seq::new(
                rows@.len(),
                |i: int| row_copy(rows@[i] as int, i, h as int),
            )
        },
{
    if stash_null {
        return Err(StashError::NotAllocated);
    }
    if rows.len() > max_slots {
        return Err(StashError::TooManyRows { rows: rows.len() });
    }
    let mut copies: Vec<RowCopy> = Vec::new();
    let mut i: usize = 0;
    while i < rows.len()
        invariant
            forall|i: int| 0 <= i < rows@.len() ==> #[trigger] rows@[i] * h * 2 <= usize::MAX,
            max_slots * h * 2 <= usize::MAX,
            h * 2 <= usize::MAX,
            i <= rows@.len() <= max_slots,
            copies@ == Seq::new(i as nat, |i: int| row_copy(rows@[i] as int, i, h as int)),
        decreases rows@.len() - i,
    {
        let row: usize = rows[i];
        proof {
            lemma_row_fits(i as int, max_slots as int, h as int);
            lemma_row_fits(row as int, row as int, h as int);
            assert(rows@[i as int] * h * 2 <= usize::MAX);
        }
        copies.push(
            RowCopy {
                src_offset: row * h * ROW_ELEM_BYTES,
                dst_offset: i * h * ROW_ELEM_BYTES,
                bytes: h * ROW_ELEM_BYTES,
            },
        );
        i = i + 1;
    }
    Ok(copies)
}

/// The stash offset whose row becomes the drafter's input.
pub fn stashed_row_offset(stash_null: bool, idx: usize, max_slots: usize, h: usize) -> (r: Result<
    usize,
    StashError,
>)
    requires
        max_slots * h * 2 <= usize::MAX,
    ensures
        r == if stash_null {
            Err::<usize, StashError>(StashError::NotAllocated)
        } else if idx >= max_slots {
            Err::<usize, StashError>(StashError::SlotOutOfRange { slot: idx })
        } else {
            Ok::<usize, StashError>((idx * h * 2) as usize)
        },
{
    if stash_null {
        return Err(StashError::NotAllocated);
    }
    if idx >= max_slots {
        return Err(StashError::SlotOutOfRange { slot: idx });
    }
    proof {
        lemma_row_fits(idx as int, max_slots as int, h as int);
    }
    Ok(idx * h * ROW_ELEM_BYTES)
}

/// The labels held by the catch-up ring: `count` consecutive positions from `start`.
#[derive(Clone, Copy, Debug, PartialEq, Eq, Structural)]
pub struct CatchupRing {
    pub start: usize,
    pub count: usize,
}

impl CatchupRing {
    /// The ring holds no more rows than it has.
    pub open spec fn wf(&self, ring_rows: int) -> bool {
        &&& 0 <= self.count <= ring_rows
        &&& self.start + self.count <= usize::MAX
    }

    /// Whether the row of position `pos` is held.
    pub open spec fn holds(&self, pos: int) -> bool {
        self.start <= pos < self.start + self.count
    }

    /// Store the row of position `pos`; returns its ring row. The labels stay consecutive: a gap
    /// resets the ring to this row, and a full ring drops its oldest row.
    pub fn store(&mut self, pos: usize, ring_rows: usize) -> (row: usize)
        requires
            old(self).wf(ring_rows as int),
            ring_rows > 0,
            pos < usize::MAX,
        ensures
            final(self).wf(ring_rows as int),
            row == pos % ring_rows,
            *final(self) == if old(self).count > 0 && pos == old(self).start + old(self).count {
                if old(self).count == ring_rows {
                    (CatchupRing { start: (old(self).start + 1) as usize, count: ring_rows })
                } else {
                    (CatchupRing { start: old(self).start, count: (old(self).count + 1) as usize })
                }
            } else {
                (CatchupRing { start: pos, count: 1 })
            },
            final(self).holds(pos as int),
            final(self).start + final(self).count == pos + 1,
    {
        if self.count > 0 && pos == self.start + self.count {
            if self.count == ring_rows {
                self.start = self.start + 1;
            } else {
                self.count = self.count + 1;
            }
        } else {
            self.start = pos;
            self.count = 1;
        }
        pos % ring_rows
    }
}

/// Held positions never share a ring row, so a held row is the one its label names.
pub proof fn held_rows_are_distinct(ring: CatchupRing, ring_rows: int, a: int, b: int)
    requires
        ring_rows > 0,
        ring.wf(ring_rows),
        ring.holds(a),
        ring.holds(b),
        a % ring_rows == b % ring_rows,
    ensures
        a == b,
{
    assert(a == b) by (nonlinear_arith)
        requires
            ring_rows > 0,
            -ring_rows < a - b < ring_rows,
            a % ring_rows == b % ring_rows,
    ;
}

/// The engine drafts for itself where that is on, and otherwise with a proposer if it has one.
pub proof fn drafting_goes_by_what_is_there(
    self_speculative: bool,
    has_proposer: bool,
    r: GenerateRoute,
)
    requires
        call_ensures(generate_route, (self_speculative, has_proposer), r),
    ensures
        r is SelfSpeculative <==> self_speculative,
        r is Proposer <==> has_proposer && !self_speculative,
{
}

/// A drafter is prefilled over the prompt exactly when it has state and its hidden rows are this
/// sequence's own and cover the prompt; a carried entry is freed for it where carrying is on. A
/// carry is tried only where that is not so, nothing was drafted yet and there is a prompt.
pub proof fn drafters_prefill_their_own_rows(
    seq: &SequenceState,
    d: &DrafterInputs,
    r: DrafterAction,
)
    requires
        call_ensures(ensure_drafter_context, (seq, d), r),
    ensures
        ({
            let ready = d.has_state && !d.hidden_null;
            let own = seq.mtp_capture_gen == d.capture_gen && seq.mtp_capture_gen != 0;
            let covered = 2 <= seq.prompt_len <= d.captured && seq.prompt_len
                <= seq.tokens@.len();
            &&& r is ColdPrefill <==> ready && own && covered
            &&& r matches DrafterAction::ColdPrefill { free_carry } ==> free_carry == d.carry_on
            &&& r is TryCarry <==> ready && !(own && covered) && d.carry_on && d.drafter_rows == 0
                && seq.prompt_len >= 2
        }),
{
}

/// A stored carry is the sequence's own: its blocks, rows and key, with a copy of its tokens and
/// its session; the entry it replaces hands back its blocks.
pub proof fn stored_carries_are_the_sequences_own(
    carry: &mut Option<CarriedDrafter>,
    seq: &SequenceState,
    blocks: Vec<u32>,
    rows: usize,
    last_pair_key: Option<usize>,
    r: Option<Vec<u32>>,
)
    requires
        call_ensures(store_carry, (carry, seq, blocks, rows, last_pair_key), r),
    ensures
        *final(carry) is Some,
        final(carry)->0.block_table@ == blocks@,
        final(carry)->0.rows == rows,
        final(carry)->0.last_pair_key == last_pair_key,
        final(carry)->0.tokens@ == seq.tokens@,
        final(carry)->0.session_hash == seq.session_hash,
        r is Some <==> *old(carry) is Some,
        r is Some ==> r->0@ == old(carry)->0.block_table@,
{
}

/// A carried entry is installed exactly when there is one and it is usable, with the admitted rows
/// and key. One that is not usable is freed, and the outcome says whether the session or the
/// prefix differs.
pub proof fn only_usable_entries_are_installed(
    entry: &Option<CarriedDrafter>,
    admission: CarryAdmission,
    session_hash: u64,
    r: CarryStep,
)
    requires
        call_ensures(carry_admit, (entry, admission, session_hash), r),
    ensures
        match r {
            CarryStep::Install { rows, last_key } => *entry is Some && admission.usable == Some(
                (rows, last_key),
            ),
            CarryStep::Done { outcome, free_blocks } => {
                &&& free_blocks <==> *entry is Some
                &&& *entry is None || admission.usable is None
                &&& outcome is NoCarry <==> *entry is None
                &&& outcome is PrefixMismatch ==> admission.session_matches
                &&& outcome is ForeignSession ==> !admission.session_matches
                &&& outcome matches CarryOutcome::PrefixMismatch { common, entry_rows } ==> common
                    == admission.common_prefix && entry_rows == entry->0.rows
                &&& outcome matches CarryOutcome::ForeignSession {
                    entry_session,
                    prompt_session,
                } ==> entry_session == entry->0.session_hash && prompt_session == session_hash
                &&& !(outcome is Adopted) && !(outcome is ForeignHiddens) && !(outcome
                    is NoHiddens)
            },
        },
{
}

/// An installed carry is appended to from the first key its hidden rows have, behind its own rows
/// and one position further; without rows it ends, and says whether another sequence owns them.
pub proof fn carries_append_from_their_first_key(
    installed: bool,
    rows: usize,
    first_key: Option<usize>,
    store_owner: u64,
    store_gen: u64,
    r: CarryAppend,
)
    requires
        call_ensures(carry_append, (installed, rows, first_key, store_owner, store_gen), r),
        first_key matches Some(k) ==> k < usize::MAX,
    ensures
        match r {
            CarryAppend::Append { rows: n, first_key: k, pos_base } => installed && n == rows
                && first_key == Some(k) && pos_base == k + 1,
            CarryAppend::Done { outcome, free_blocks } => {
                &&& !installed || first_key is None
                &&& free_blocks <==> !installed
                &&& outcome is NoCarry <==> !installed
                &&& outcome is ForeignHiddens <==> installed && store_owner != 0 && store_owner
                    != store_gen
                &&& outcome is NoHiddens <==> installed && (store_owner == 0 || store_owner
                    == store_gen)
                &&& outcome matches CarryOutcome::ForeignHiddens { owner, expected } ==> owner
                    == store_owner && expected == store_gen
            },
        },
{
}

/// What is appended is the prompt's own span from the first key on; what is reported is what was
/// adopted and appended.
pub proof fn appended_tokens_are_the_prompts(
    tokens: &Vec<u32>,
    prompt_len: usize,
    first_key: usize,
    r: Vec<u32>,
    i: int,
    rows: usize,
    appended: Option<usize>,
    outcome: CarryOutcome,
)
    requires
        call_ensures(append_tokens, (tokens, prompt_len, first_key), r),
        call_ensures(carry_adopted, (rows, first_key, appended), outcome),
        first_key <= prompt_len,
        first_key <= tokens@.len(),
    ensures
        first_key + r@.len() == if prompt_len < tokens@.len() {
            prompt_len as int
        } else {
            tokens@.len() as int
        },
        0 <= i < r@.len() ==> r@[i] == tokens@[first_key + i],
        outcome matches CarryOutcome::Adopted { rows: n, appended: m, first_key: k } && n == rows
            && k == first_key && m == (match appended {
            Some(x) => x,
            None => 0,
        }),
{
}

/// Each sequence's row is kept at its own place: row `i` of the batch, from its own hidden row,
/// goes to slot `i`, and a later read of that slot finds it there. More rows than slots, or no
/// stash, keep none.
pub proof fn stashed_rows_are_found_at_their_place(
    stash_null: bool,
    rows: &[usize],
    max_slots: usize,
    h: usize,
    r: Result<Vec<RowCopy>, StashError>,
    i: usize,
    at: Result<usize, StashError>,
)
    requires
        call_ensures(stash_verify_hidden_rows, (stash_null, rows, max_slots, h), r),
        call_ensures(stashed_row_offset, (stash_null, i, max_slots, h), at),
        max_slots * h * 2 <= usize::MAX,
        i < rows@.len() ==> rows@[i as int] * h * 2 <= usize::MAX,
        h * 2 <= usize::MAX,
    ensures
        r is Ok <==> !stash_null && rows@.len() <= max_slots,
        at is Ok <==> !stash_null && i < max_slots,
        at matches Ok(offset) ==> offset == i * (2 * h),
        r is Ok ==> r->Ok_0@.len() == rows@.len(),
        r is Ok && i < rows@.len() ==> {
            &&& r->Ok_0@[i as int].src_offset == rows@[i as int] * (2 * h)
            &&& at is Ok && r->Ok_0@[i as int].dst_offset == at->Ok_0
            &&& r->Ok_0@[i as int].bytes == 2 * h
        },
        r matches Err(e) ==> (e is NotAllocated <==> stash_null),
        at matches Err(e) ==> (e is NotAllocated <==> stash_null),
{
    if i < max_slots {
        assert(0 <= i * h * 2 <= max_slots * h * 2) by (nonlinear_arith)
            requires
                0 <= i <= max_slots,
                0 <= h,
        ;
    }
    assert(i * h * 2 == i * (2 * h)) by (nonlinear_arith);
    if i < rows@.len() {
        let row = rows@[i as int] as int;
        assert(row * h * 2 == row * (2 * h)) by (nonlinear_arith);
        assert(0 <= row * h) by (nonlinear_arith)
            requires
                0 <= row,
                0 <= h,
        ;
    }
}

/// The ring holds the latest run of consecutive positions, up to its size: a position right after
/// the run joins it, and pushes out the oldest when the ring is full; any other starts a new run.
/// A position's row is its remainder, so no two held positions share one.
pub proof fn rings_hold_the_latest_run(
    ring: &mut CatchupRing,
    pos: usize,
    ring_rows: usize,
    row: usize,
    p: int,
)
    requires
        call_ensures(CatchupRing::store, (ring, pos, ring_rows), row),
        ring_rows > 0,
        old(ring).count <= ring_rows,
        old(ring).start + old(ring).count <= usize::MAX,
        pos < usize::MAX,
        0 <= p,
    ensures
        row == pos as int % ring_rows as int,
        ({
            let was = *old(ring);
            let now = *final(ring);
            let held = was.start <= p < was.start + was.count;
            let joins = was.count > 0 && pos == was.start + was.count;
            let pushed_out = was.count == ring_rows && p == was.start;
            &&& now.start <= p < now.start + now.count <==> p == pos || (joins && held
                && !pushed_out)
            &&& now.count <= ring_rows
        }),
{
}

/// A copy has the same words in the same order.
pub proof fn copies_have_the_same_words(words: &Vec<u32>, r: Vec<u32>, i: int)
    requires
        call_ensures(copy_words, (words,), r),
    ensures
        r@.len() == words@.len(),
        0 <= i < words@.len() ==> r@[i] == words@[i],
{
}

} // verus!
