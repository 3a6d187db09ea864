//! Setup of a kernel-batched prefill: KV need, packed places of the streams, and the checks that
//! they can share one pass.
//!
//! Nothing of a sequence is changed before the batch is admitted.

use vstd::prelude::*;

use crate::align::{align_up, align_up_spec, lemma_align_up, lemma_align_up_mono};
use crate::batch_eligible::{eligible_spec, lemma_sum_bound, max_eff, sum_eff, StreamShape};
use crate::proc_range::ProcRange;
use crate::sequence_state::{DevicePtr, SequenceState};
use crate::stage_batched::staged_bytes_spec;

verus! {

/// Least metadata bytes of a stream.
pub const STREAM_META_MIN_BYTES: usize = 4096;

/// Bytes of one stream's metadata: sixteen per token of the longest chunk and sixty-four more.
pub open spec fn stream_meta_bytes(max_chunk: int) -> int {
    if max_chunk * 16 + 64 < STREAM_META_MIN_BYTES {
        STREAM_META_MIN_BYTES as int
    } else {
        max_chunk * 16 + 64
    }
}

/// Bytes of the expert-routing staging of `tokens` tokens.
pub open spec fn routing_bytes(tokens: int, top_k: int) -> int {
    align_up_spec(tokens * top_k * 8, 64)
}

/// Scratch bytes the setup of `n` streams uses: the routing staging of `routed` tokens, every
/// stream's metadata, the stacked arrays of `processed` tokens, and the state pointers.
pub open spec fn setup_bytes(
    n: int,
    routed: int,
    max_chunk: int,
    processed: int,
    top_k: int,
    use_mrope: bool,
) -> int {
    routing_bytes(routed, top_k) + n * stream_meta_bytes(max_chunk) + staged_bytes_spec(
        n,
        processed,
        use_mrope,
    ) + n * 8
}

/// What a stream needs of the KV cache.
#[derive(Clone, Copy, Debug)]
pub struct StreamNeed {
    pub chunk_start: usize,
    pub chunk_len: usize,
    /// Blocks the stream already has.
    pub blocks: usize,
    /// Prompt tokens its prefix match will bring.
    pub matched_tokens: usize,
}

/// Blocks a stream has to allocate: those through its chunk, without the ones it has and the ones
/// its match brings.
pub open spec fn stream_blocks(s: StreamNeed, bs: int) -> int {
    let through = (s.chunk_start + s.chunk_len + bs - 1) / bs;
    let have = s.blocks + s.matched_tokens as int / bs;
    if through > have {
        through - have
    } else {
        0
    }
}

/// Blocks the first `n` streams have to allocate.
pub open spec fn blocks_needed(s: Seq<StreamNeed>, bs: int, n: int) -> int
    decreases n,
{
    if n <= 0 {
        0
    } else {
        blocks_needed(s, bs, n - 1) + stream_blocks(s[n - 1], bs)
    }
}

proof fn lemma_blocks_mono(s: Seq<StreamNeed>, bs: int, a: int, b: int)
    requires
        0 <= a <= b <= s.len(),
    ensures
        0 <= blocks_needed(s, bs, a) <= blocks_needed(s, bs, b),
    decreases b,
{
    if b > 0 {
        if a == b {
            lemma_blocks_mono(s, bs, 0, b - 1);
        } else {
            lemma_blocks_mono(s, bs, a, b - 1);
        }
    }
}

/// Whether every stream's chunk ends within the address space.
pub open spec fn ends_fit(s: Seq<StreamNeed>) -> bool {
    forall|i: int|
        0 <= i < s.len() ==> (#[trigger] s[i]).chunk_start + s[i].chunk_len <= usize::MAX
}

/// Blocks a batch has to allocate, or `None` when that exceeds the address space.
pub fn batch_blocks_needed(s: &[StreamNeed], bs: usize) -> (r: Option<usize>)
    requires
        bs > 0,
    ensures
        r is Some == (ends_fit(s@) && blocks_needed(s@, bs as int, s@.len() as int)
            <= usize::MAX),
        r matches Some(n) ==> n == blocks_needed(s@, bs as int, s@.len() as int),
{
    let mut needed: usize = 0;
    let mut i: usize = 0;
    while i < s.len()
        invariant
            bs > 0,
            i <= s@.len(),
            forall|j: int|
                0 <= j < i ==> (#[trigger] s@[j]).chunk_start + s@[j].chunk_len <= usize::MAX,
            needed == blocks_needed(s@, bs as int, i as int),
        decreases s@.len() - i,
    {
        let x: StreamNeed = s[i];
        let mine: usize = match x.chunk_start.checked_add(x.chunk_len) {
            None => {
                assert(!(s@[i as int].chunk_start + s@[i as int].chunk_len <= usize::MAX));
                return None;
            },
            Some(end) => {
                proof {
                    lemma_through(end as int, bs as int);
                }
                let through: usize = if end % bs == 0 {
                    end / bs
                } else {
                    end / bs + 1
                };
                through.saturating_sub(x.matched_tokens / bs).saturating_sub(x.blocks)
            },
        };
        assert(mine == stream_blocks(s@[i as int], bs as int));
        proof {
            lemma_blocks_mono(s@, bs as int, i + 1, s@.len() as int);
        }
        match needed.checked_add(mine) {
            None => {
                return None;
            },
            Some(sum) => {
                needed = sum;
            },
        }
        i = i + 1;
    }
    Some(needed)
}

/// Rounding a quotient up, and its bound.
proof fn lemma_through(end: int, bs: int)
    requires
        0 <= end,
        0 < bs,
    ensures
        (end + bs - 1) / bs == if end % bs == 0 {
            end / bs
        } else {
            end / bs + 1
        },
        0 <= end / bs,
        end % bs != 0 ==> end / bs + 1 <= end,
{
    let q = end / bs;
    let r = end % bs;
    assert(end == q * bs + r && 0 <= r < bs && 0 <= q) by (nonlinear_arith)
        requires
            q == end / bs,
            r == end % bs,
            bs > 0,
            end >= 0,
    ;
    if r == 0 {
        vstd::arithmetic::div_mod::lemma_fundamental_div_mod_converse(end + bs - 1, bs, q, bs - 1);
    } else {
        assert(end + bs - 1 == (q + 1) * bs + (r - 1)) by (nonlinear_arith)
            requires
                end == q * bs + r,
        ;
        vstd::arithmetic::div_mod::lemma_fundamental_div_mod_converse(
            end + bs - 1,
            bs,
            q + 1,
            r - 1,
        );
        assert(q <= q * bs) by (nonlinear_arith)
            requires
                q >= 0,
                bs >= 1,
        ;
    }
}

/// The next step of the allocation check.
#[derive(Clone, Copy, Debug, PartialEq, Eq, Structural)]
pub enum Preflight {
    /// The need fits.
    Admit,
    /// Evict this many prefix-cache blocks and look again.
    Evict { short: usize },
    /// Nothing more can be evicted: the batch is not admitted.
    Decline,
}

/// The next step of the allocation check, with `free` blocks free. An eviction frees nothing for
/// a block a live sequence still holds, so it is repeated until it finds nothing to evict.
pub fn kv_preflight(free: usize, needed: usize, last_eviction_empty: bool) -> (r: Preflight)
    ensures
        r == if free >= needed {
            Preflight::Admit
        } else if last_eviction_empty {
            Preflight::Decline
        } else {
            (Preflight::Evict { short: (needed - free) as usize })
        },
{
    if free >= needed {
        Preflight::Admit
    } else if last_eviction_empty {
        Preflight::Decline
    } else {
        Preflight::Evict { short: needed - free }
    }
}

/// Which shared buffers a prefill zeroes first.
#[derive(Clone, Copy, Debug, PartialEq, Eq, Structural)]
pub enum ZeroRule {
    All,
    Essentials,
    Keep,
}

/// Which shared buffers a prefill zeroes first: all with a communicator, the essentials at chunk
/// 0, else none.
pub fn zero_rule(has_comm: bool, chunk_start: usize) -> (r: ZeroRule)
    ensures
        r == if has_comm {
            ZeroRule::All
        } else if chunk_start == 0 {
            ZeroRule::Essentials
        } else {
            ZeroRule::Keep
        },
{
    if has_comm {
        ZeroRule::All
    } else if chunk_start == 0 {
        ZeroRule::Essentials
    } else {
        ZeroRule::Keep
    }
}

/// One stream's setup result.
#[derive(Clone, Copy, Debug)]
pub struct PerStreamMeta {
    pub chunk_start: usize,
    pub proc_start: usize,
    pub proc_count: usize,
    pub effective_seq_len_start: usize,
    pub kv_write_start_eff: usize,
    pub block_table_dev: DevicePtr,
    pub seq_len_dev: DevicePtr,
    pub num_blocks: usize,
    /// The stream's place among the packed rows.
    pub proc_off: usize,
}

/// Why an admitted batch failed.
#[derive(Clone, Copy, Debug, PartialEq, Eq, Structural)]
pub enum SetupError {
    /// A stream has nothing to process.
    EarlyReturn { stream: usize },
    /// A stream processes another number of tokens than the first.
    ProcCount { stream: usize },
    /// A stream starts elsewhere than the first.
    SeqStart { stream: usize },
    /// A stream's position streams differ in kind from the first's.
    Mrope { stream: usize },
    /// A stream reads earlier KV and the first does not, or the other way round.
    Paged { stream: usize },
    /// The packed rows overrun the arena.
    Arena { stream: usize },
    /// The state pointers overrun the scratch buffer.
    Scratch { projected: usize },
}

/// Packed rows of the first `n` streams.
pub open spec fn packed_rows(s: Seq<PerStreamMeta>, n: int) -> int
    decreases n,
{
    if n <= 0 {
        0
    } else {
        packed_rows(s, n - 1) + s[n - 1].proc_count
    }
}

/// The setup of a batch, stream by stream.
pub struct BatchSetup {
    pub varlen: bool,
    pub arena_cap: usize,
    /// Scratch offset of the first stream's metadata.
    pub meta_start: usize,
    /// Scratch bytes per stream.
    pub meta_bytes: usize,
    /// Scratch offset of the next stream's metadata.
    pub cursor: usize,
    /// Packed rows so far.
    pub running_off: usize,
    pub use_mrope: Option<bool>,
    pub needs_paged: Option<bool>,
    pub streams: Vec<PerStreamMeta>,
}

/// What the metadata upload of a stream told.
#[derive(Clone, Copy, Debug)]
pub struct StreamUpload {
    pub chunk_start: usize,
    pub kv_write_start: usize,
    pub marconi_skip: bool,
    pub use_mrope: bool,
    pub needs_paged: bool,
    pub block_table_dev: DevicePtr,
    pub seq_len_dev: DevicePtr,
    pub num_blocks: usize,
}

/// The range of tokens a stream processes.
#[derive(Clone, Copy, Debug, PartialEq, Eq, Structural)]
pub struct StreamRange {
    pub proc_start: usize,
    pub proc_count: usize,
    pub effective_seq_len_start: usize,
}

/// The metadata cursor of a batch starts after the expert-routing staging: of all tokens when
/// lengths differ, of `n` times the longest chunk otherwise.
pub open spec fn routed_tokens(varlen: bool, total: int, n: int, max_chunk: int) -> int {
    if varlen {
        total
    } else {
        max_chunk * n
    }
}

impl BatchSetup {
    /// The streams are packed one after another within the arena, agree on their start, and unless
    /// lengths may differ on their length; the cursor has passed their metadata.
    pub open spec fn wf(&self) -> bool {
        let s = self.streams@;
        &&& self.running_off == packed_rows(s, s.len() as int)
        &&& self.running_off <= self.arena_cap
        &&& self.cursor == self.meta_start + s.len() * self.meta_bytes
        &&& forall|b: int| 0 <= b < s.len() ==> (#[trigger] s[b]).proc_off == packed_rows(s, b)
        &&& forall|b: int|
            0 <= b < s.len() ==> (#[trigger] s[b]).effective_seq_len_start
                == s[0].effective_seq_len_start
        &&& !self.varlen ==> forall|b: int|
            0 <= b < s.len() ==> (#[trigger] s[b]).proc_count == s[0].proc_count
        &&& (self.use_mrope is None) == (s.len() == 0)
        &&& (self.needs_paged is None) == (s.len() == 0)
    }

    /// Begin the setup of `n` streams with `total` tokens, the longest chunk of `max_chunk`.
    pub fn start(
        n: usize,
        total: usize,
        max_chunk: usize,
        varlen: bool,
        top_k: usize,
        arena_cap: usize,
    ) -> (r: BatchSetup)
        requires
            routed_tokens(varlen, total as int, n as int, max_chunk as int) * top_k * 8 + 63
                <= usize::MAX,
            routed_tokens(varlen, total as int, n as int, max_chunk as int) <= usize::MAX,
            max_chunk * 16 + 64 <= usize::MAX,
        ensures
            r.wf(),
            r.streams@.len() == 0,
            r.varlen == varlen,
            r.arena_cap == arena_cap,
            r.meta_start == routing_bytes(
                routed_tokens(varlen, total as int, n as int, max_chunk as int),
                top_k as int,
            ),
            r.meta_bytes == stream_meta_bytes(max_chunk as int),
    {
        let routed: usize = if varlen {
            total
        } else {
            max_chunk * n
        };
        proof {
            let x = routed as int;
            let y = top_k as int;
            assert(0 <= x * y) by (nonlinear_arith)
                requires
                    0 <= x,
                    0 <= y,
            ;
        }
        let meta_start: usize = align_up(routed * top_k * 4 * 2, 64);
        let raw: usize = max_chunk * 16 + 64;
        let meta_bytes: usize = if raw < STREAM_META_MIN_BYTES {
            STREAM_META_MIN_BYTES
        } else {
            raw
        };
        let r = BatchSetup {
            varlen,
            arena_cap,
            meta_start,
            meta_bytes,
            cursor: meta_start,
            running_off: 0,
            use_mrope: None,
            needs_paged: None,
            streams: Vec::new(),
        };
        assert(0 * meta_bytes == 0) by (nonlinear_arith);
        r
    }

    /// What makes the next stream unfit for this batch, by its processed range.
    pub open spec fn range_error(&self, range: ProcRange) -> Option<SetupError> {
        let b = self.streams@.len();
        match range {
            ProcRange::EarlyReturn => Some(SetupError::EarlyReturn { stream: b as usize }),
            ProcRange::Compute { proc_start, proc_count, effective_seq_len_start } => if b > 0
                && !self.varlen && self.streams@[0].proc_count != proc_count {
                Some(SetupError::ProcCount { stream: b as usize })
            } else if b > 0 && self.streams@[0].effective_seq_len_start != effective_seq_len_start {
                Some(SetupError::SeqStart { stream: b as usize })
            } else {
                None
            },
        }
    }

    /// Check the next stream's processed range; its metadata then goes to `cursor`.
    pub fn check_range(&self, range: &ProcRange) -> (r: Result<StreamRange, SetupError>)
        requires
            self.wf(),
        ensures
            r is Ok == self.range_error(*range) is None,
            r matches Err(e) ==> self.range_error(*range) == Some(e),
            r matches Ok(x) ==> *range == (ProcRange::Compute {
                proc_start: x.proc_start,
                proc_count: x.proc_count,
                effective_seq_len_start: x.effective_seq_len_start,
            }),
    {
        let b: usize = self.streams.len();
        match range {
            ProcRange::EarlyReturn => Err(SetupError::EarlyReturn { stream: b }),
            ProcRange::Compute { proc_start, proc_count, effective_seq_len_start } => {
                if b > 0 {
                    if !self.varlen && self.streams[0].proc_count != *proc_count {
                        return Err(SetupError::ProcCount { stream: b });
                    }
                    if self.streams[0].effective_seq_len_start != *effective_seq_len_start {
                        return Err(SetupError::SeqStart { stream: b });
                    }
                }
                Ok(
                    StreamRange {
                        proc_start: *proc_start,
                        proc_count: *proc_count,
                        effective_seq_len_start: *effective_seq_len_start,
                    },
                )
            },
        }
    }

    /// What makes an uploaded stream unfit for this batch.
    pub open spec fn upload_error(&self, range: StreamRange, up: StreamUpload) -> Option<SetupError> {
        let b = self.streams@.len();
        if self.use_mrope is Some && self.use_mrope->0 != up.use_mrope {
            Some(SetupError::Mrope { stream: b as usize })
        } else if self.needs_paged is Some && self.needs_paged->0 != up.needs_paged {
            Some(SetupError::Paged { stream: b as usize })
        } else if self.running_off + range.proc_count > self.arena_cap {
            Some(SetupError::Arena { stream: b as usize })
        } else {
            None
        }
    }

    /// The entry of an uploaded stream: packed after the rows so far. After a restore the layers'
    /// own write floor is 0.
    pub open spec fn entry(&self, range: StreamRange, up: StreamUpload) -> PerStreamMeta {
        PerStreamMeta {
            chunk_start: up.chunk_start,
            proc_start: range.proc_start,
            proc_count: range.proc_count,
            effective_seq_len_start: range.effective_seq_len_start,
            kv_write_start_eff: if up.marconi_skip {
                0
            } else {
                up.kv_write_start
            },
            block_table_dev: up.block_table_dev,
            seq_len_dev: up.seq_len_dev,
            num_blocks: up.num_blocks,
            proc_off: self.running_off,
        }
    }

    /// Take an uploaded stream into the batch.
    pub fn take_stream(&mut self, range: StreamRange, up: StreamUpload) -> (r: Result<(), SetupError>)
        requires
            old(self).wf(),
            old(self).range_error(
                ProcRange::Compute {
                    proc_start: range.proc_start,
                    proc_count: range.proc_count,
                    effective_seq_len_start: range.effective_seq_len_start,
                },
            ) is None,
            old(self).cursor + old(self).meta_bytes <= usize::MAX,
        ensures
            r is Ok == old(self).upload_error(range, up) is None,
            r matches Err(e) ==> old(self).upload_error(range, up) == Some(e) && *final(self)
                == *old(self),
            r is Ok ==> {
                &&& final(self).wf()
                &&& final(self).streams@ == old(self).streams@.push(old(self).entry(range, up))
                &&& final(self).running_off == old(self).running_off + range.proc_count
                &&& final(self).cursor == old(self).cursor + old(self).meta_bytes
                &&& final(self).use_mrope == Some(up.use_mrope)
                &&& final(self).needs_paged == Some(up.needs_paged)
                &&& final(self).varlen == old(self).varlen
                &&& final(self).arena_cap == old(self).arena_cap
                &&& final(self).meta_start == old(self).meta_start
                &&& final(self).meta_bytes == old(self).meta_bytes
            },
    {
        let b: usize = self.streams.len();
        if let Some(m) = self.use_mrope {
            if m != up.use_mrope {
                return Err(SetupError::Mrope { stream: b });
            }
        }
        if let Some(p) = self.needs_paged {
            if p != up.needs_paged {
                return Err(SetupError::Paged { stream: b });
            }
        }
        if range.proc_count > self.arena_cap - self.running_off {
            return Err(SetupError::Arena { stream: b });
        }
        let ghost before = self.streams@;
        let entry = PerStreamMeta {
            chunk_start: up.chunk_start,
            proc_start: range.proc_start,
            proc_count: range.proc_count,
            effective_seq_len_start: range.effective_seq_len_start,
            kv_write_start_eff: if up.marconi_skip {
                0
            } else {
                up.kv_write_start
            },
            block_table_dev: up.block_table_dev,
            seq_len_dev: up.seq_len_dev,
            num_blocks: up.num_blocks,
            proc_off: self.running_off,
        };
        self.streams.push(entry);
        self.cursor = self.cursor + self.meta_bytes;
        self.running_off = self.running_off + range.proc_count;
        self.use_mrope = Some(up.use_mrope);
        self.needs_paged = Some(up.needs_paged);
        proof {
            let s = self.streams@;
            let n = before.len() as int;
            assert forall|k: int| 0 <= k <= n implies packed_rows(s, k) == packed_rows(before, k) by {
                lemma_packed_prefix(before, s, k);
            }
            assert(packed_rows(s, n + 1) == packed_rows(s, n) + s[n].proc_count);
            assert forall|k: int| 0 <= k < s.len() implies (#[trigger] s[k]).proc_off
                == packed_rows(s, k) by {
                if k < n {
                    assert(s[k] == before[k]);
                }
            }
            assert forall|k: int| 0 <= k < s.len() implies (#[trigger] s[k]).effective_seq_len_start
                == s[0].effective_seq_len_start by {
                if k < n {
                    assert(s[k] == before[k]);
                }
            }
            if !self.varlen {
                assert forall|k: int| 0 <= k < s.len() implies (#[trigger] s[k]).proc_count
                    == s[0].proc_count by {
                    if k < n {
                        assert(s[k] == before[k]);
                    }
                }
            }
            assert((n + 1) * self.meta_bytes == n * self.meta_bytes + self.meta_bytes)
                by (nonlinear_arith);
        }
        Ok(())
    }

    /// The packed token count the recurrence buffers hold.
    pub fn total_len(&self) -> (r: usize)
        requires
            self.wf(),
            self.streams@.len() > 0,
        ensures
            r == packed_rows(self.streams@, self.streams@.len() as int),
            !self.varlen ==> r == self.streams@[0].proc_count * self.streams@.len(),
    {
        proof {
            if !self.varlen {
                lemma_uniform_rows(self.streams@, self.streams@.len() as int);
            }
        }
        self.running_off
    }

    /// Scratch offset of the state pointers, after `staged_bytes` of stacked arrays; they must end
    /// within the scratch buffer.
    pub fn pointer_offset(&self, staged_bytes: usize, scratch_bytes: usize) -> (r: Result<
        usize,
        SetupError,
    >)
        requires
            self.cursor + staged_bytes + self.streams@.len() * 8 <= usize::MAX,
        ensures
            ({
                let end = self.cursor + staged_bytes + self.streams@.len() * 8;
                &&& r is Ok == (end <= scratch_bytes)
                &&& r matches Ok(off) ==> off == self.cursor + staged_bytes
                &&& r matches Err(e) ==> e == (SetupError::Scratch { projected: end as usize })
            }),
    {
        let off: usize = self.cursor + staged_bytes;
        let projected: usize = off + self.streams.len() * 8;
        if projected > scratch_bytes {
            Err(SetupError::Scratch { projected })
        } else {
            Ok(off)
        }
    }
}

proof fn lemma_packed_prefix(a: Seq<PerStreamMeta>, b: Seq<PerStreamMeta>, k: int)
    requires
        0 <= k <= a.len() <= b.len(),
        forall|i: int| 0 <= i < a.len() ==> #[trigger] b[i] == a[i],
    ensures
        packed_rows(b, k) == packed_rows(a, k),
    decreases k,
{
    if k > 0 {
        lemma_packed_prefix(a, b, k - 1);
    }
}

proof fn lemma_uniform_rows(s: Seq<PerStreamMeta>, n: int)
    requires
        0 <= n <= s.len(),
        s.len() > 0,
        forall|b: int| 0 <= b < s.len() ==> (#[trigger] s[b]).proc_count == s[0].proc_count,
    ensures
        packed_rows(s, n) == s[0].proc_count * n,
    decreases n,
{
    if n > 0 {
        lemma_uniform_rows(s, n - 1);
        assert(s[n - 1].proc_count == s[0].proc_count);
        let p = s[0].proc_count as int;
        assert(p * n == p * (n - 1) + p) by (nonlinear_arith);
    } else {
        let p = s[0].proc_count as int;
        assert(p * 0 == 0) by (nonlinear_arith);
    }
}

/// Packed streams do not overlap and stay within the arena: a stream's rows end before the next
/// stream's begin, and the last stream's end within the arena.
pub proof fn packed_streams_are_disjoint(setup: BatchSetup, a: int, b: int)
    requires
        setup.wf(),
        0 <= a < b < setup.streams@.len(),
    ensures
        setup.streams@[a].proc_off + setup.streams@[a].proc_count <= setup.streams@[b].proc_off,
        setup.streams@[b].proc_off + setup.streams@[b].proc_count <= setup.arena_cap,
{
    let s = setup.streams@;
    lemma_packed_mono(s, a + 1, b);
    lemma_packed_mono(s, b + 1, s.len() as int);
    assert(packed_rows(s, a + 1) == packed_rows(s, a) + s[a].proc_count);
    assert(packed_rows(s, b + 1) == packed_rows(s, b) + s[b].proc_count);
}

proof fn lemma_packed_mono(s: Seq<PerStreamMeta>, a: int, b: int)
    requires
        0 <= a <= b <= s.len(),
    ensures
        packed_rows(s, a) <= packed_rows(s, b),
    decreases b - a,
{
    if a < b {
        lemma_packed_mono(s, a, b - 1);
    }
}

/// The setup of a batch uses exactly its setup bytes: after all streams were taken, the state
/// pointers that follow the stacked arrays end there.
pub proof fn setup_uses_its_bytes(
    setup: BatchSetup,
    routed: int,
    max_chunk: int,
    top_k: int,
    use_mrope: bool,
)
    requires
        setup.wf(),
        setup.meta_start == routing_bytes(routed, top_k),
        setup.meta_bytes == stream_meta_bytes(max_chunk),
    ensures
        ({
            let n = setup.streams@.len() as int;
            setup.cursor + staged_bytes_spec(n, setup.running_off as int, use_mrope) + n * 8
                == setup_bytes(
                n,
                routed,
                max_chunk,
                setup.running_off as int,
                top_k,
                use_mrope,
            )
        }),
{
}

/// An admitted batch fits the scratch buffer: where the bytes it was admitted with cover a setup
/// of its admitted tokens, the setup of at most those tokens ends within the buffer.
pub proof fn admitted_batch_fits_scratch(
    s: Seq<StreamShape>,
    arena_cap: int,
    is_mla: bool,
    head_dim: int,
    scratch_cap: int,
    scratch_needed: int,
    top_k: int,
    mrope: bool,
    allow_chunk_zero: bool,
    varlen: bool,
    processed: int,
)
    requires
        eligible_spec(
            s,
            s.len() as int,
            arena_cap,
            is_mla,
            head_dim,
            scratch_cap,
            scratch_needed,
            allow_chunk_zero,
            varlen,
        ),
        ({
            let n = s.len() as int;
            let total = routed_tokens(varlen, sum_eff(s, n), n, max_eff(s, n));
            scratch_needed >= setup_bytes(n, total, max_eff(s, n), total, top_k, mrope)
        }),
        0 <= processed <= sum_eff(s, s.len() as int),
    ensures
        ({
            let n = s.len() as int;
            let total = routed_tokens(varlen, sum_eff(s, n), n, max_eff(s, n));
            setup_bytes(n, total, max_eff(s, n), processed, top_k, mrope) <= scratch_cap
        }),
{
    let n = s.len() as int;
    let max_chunk = max_eff(s, n);
    let total = routed_tokens(varlen, sum_eff(s, n), n, max_chunk);
    lemma_sum_bound(s, n);
    assert(n * max_chunk == max_chunk * n) by (nonlinear_arith);
    assert(processed <= total);
    lemma_align_up_mono(processed * 4, total * 4, 8);
}

/// Whether the paged metadata of a stream is uploaded: when earlier KV is read through the block
/// table, and for a chunk 0 that the batched kernels run.
pub fn uploads_pages(needs_paged: bool, chunk_start: usize, first_chunk_batched: bool, varlen: bool) -> (r:
    bool)
    ensures
        r == (needs_paged || (chunk_start == 0 && (first_chunk_batched || varlen))),
{
    needs_paged || (chunk_start == 0 && (first_chunk_batched || varlen))
}

/// A block used by two streams, or twice by one.
#[derive(Clone, Copy, Debug, PartialEq, Eq, Structural)]
pub struct SharedUse {
    pub id: u64,
    /// The stream that used it first.
    pub first: usize,
    pub second: usize,
}

/// A use of a block or slot by a stream.
#[derive(Clone, Copy, Debug, PartialEq, Eq, Structural)]
pub struct Use {
    pub id: u64,
    pub stream: usize,
}

/// Whether use `j` is the first of its block.
pub open spec fn first_use(uses: Seq<Use>, n: int, id: u64, j: int) -> bool {
    &&& 0 <= j < n
    &&& uses[j].id == id
    &&& forall|k: int| 0 <= k < j ==> (#[trigger] uses[k]).id != id
}

/// The shared uses among the first `n`.
pub open spec fn shared_uses_spec(uses: Seq<Use>, n: int) -> Seq<SharedUse>
    decreases n,
{
    if n <= 0 {
        Seq::empty()
    } else {
        let rest = shared_uses_spec(uses, n - 1);
        let m = n - 1;
        let u = uses[m];
        if exists|j: int| first_use(uses, m, u.id, j) {
            let j = choose|j: int| first_use(uses, m, u.id, j);
            rest.push(SharedUse { id: u.id, first: uses[j].stream, second: u.stream })
        } else {
            rest
        }
    }
}

/// Report every use of something that was used before, with the stream that used it first.
pub fn shared_uses(uses: &Vec<Use>) -> (r: Vec<SharedUse>)
    ensures
        r@ == shared_uses_spec(uses@, uses@.len() as int),
{
    let mut out: Vec<SharedUse> = Vec::new();
    let mut n: usize = 0;
    while n < uses.len()
        invariant
            n <= uses@.len(),
            out@ == shared_uses_spec(uses@, n as int),
        decreases uses@.len() - n,
    {
        let u: Use = uses[n];
        let ghost out0 = out@;
        let mut j: usize = 0;
        while j < n && uses[j].id != u.id
            invariant
                n < uses@.len(),
                u == uses@[n as int],
                j <= n,
                forall|k: int| 0 <= k < j ==> (#[trigger] uses@[k]).id != u.id,
            decreases n - j,
        {
            j = j + 1;
        }
        if j < n {
            proof {
                assert(first_use(uses@, n as int, u.id, j as int));
                let c = choose|c: int| first_use(uses@, n as int, u.id, c);
                assert(first_use(uses@, n as int, u.id, c));
                if c < j {
                    assert(uses@[c].id != u.id);
                }
                if j < c {
                    assert(uses@[j as int].id != u.id);
                }
            }
            out.push(SharedUse { id: u.id, first: uses[j].stream, second: u.stream });
        } else {
            assert forall|k: int| !first_use(uses@, n as int, u.id, k) by {
                if 0 <= k < n {
                    assert(uses@[k].id != u.id);
                }
            }
        }
        n = n + 1;
        assert(out@ =~= shared_uses_spec(uses@, n as int));
    }
    out
}

/// Nothing is reported exactly when every use is of something different.
pub proof fn no_report_means_all_distinct(uses: Seq<Use>, n: int)
    requires
        0 <= n <= uses.len(),
    ensures
        shared_uses_spec(uses, n).len() == 0 <==> forall|i: int, j: int|
            0 <= i < j < n ==> (#[trigger] uses[i]).id != (#[trigger] uses[j]).id,
    decreases n,
{
    if n > 0 {
        no_report_means_all_distinct(uses, n - 1);
        let m = n - 1;
        let u = uses[m];
        if exists|j: int| first_use(uses, m, u.id, j) {
            let j = choose|j: int| first_use(uses, m, u.id, j);
            assert(uses[j].id == uses[n - 1].id);
        } else {
            assert forall|i: int| 0 <= i < n - 1 implies (#[trigger] uses[i]).id != u.id by {
                if uses[i].id == u.id {
                    lemma_least_use(uses, n - 1, u.id, i);
                }
            }
        }
    }
}

proof fn lemma_least_use(uses: Seq<Use>, n: int, id: u64, i: int)
    requires
        0 <= i < n <= uses.len(),
        uses[i].id == id,
    ensures
        exists|j: int| first_use(uses, n, id, j),
    decreases i,
{
    if exists|k: int| 0 <= k < i && (#[trigger] uses[k]).id == id {
        let k = choose|k: int| 0 <= k < i && (#[trigger] uses[k]).id == id;
        lemma_least_use(uses, n, id, k);
    } else {
        assert(first_use(uses, n, id, i));
    }
}

/// The block uses of a batch: every stream's block table in turn.
pub open spec fn block_uses_spec(seqs: Seq<&SequenceState>, n: int) -> Seq<Use>
    decreases n,
{
    if n <= 0 {
        Seq::empty()
    } else {
        block_uses_spec(seqs, n - 1) + Seq::new(
            seqs[n - 1].block_table@.len(),
            |j: int| Use { id: seqs[n - 1].block_table@[j] as u64, stream: (n - 1) as usize },
        )
    }
}

/// The block uses of a batch: every stream's block table in turn.
pub fn block_uses(seqs: &Vec<&SequenceState>) -> (r: Vec<Use>)
    ensures
        r@ == block_uses_spec(seqs@, seqs@.len() as int),
{
    let mut out: Vec<Use> = Vec::new();
    let mut i: usize = 0;
    while i < seqs.len()
        invariant
            i <= seqs@.len(),
            out@ == block_uses_spec(seqs@, i as int),
        decreases seqs@.len() - i,
    {
        let seq: &SequenceState = seqs[i];
        let ghost out0 = out@;
        let ghost mine = Seq::new(
            seq.block_table@.len(),
            |j: int| Use { id: seq.block_table@[j] as u64, stream: i },
        );
        let mut j: usize = 0;
        assert(out@ =~= out0 + mine.subrange(0, 0));
        while j < seq.block_table.len()
            invariant
                j <= seq.block_table@.len(),
                mine == Seq::new(
                    seq.block_table@.len(),
                    |j: int| Use { id: seq.block_table@[j] as u64, stream: i },
                ),
                out@ == out0 + mine.subrange(0, j as int),
            decreases seq.block_table@.len() - j,
        {
            out.push(Use { id: seq.block_table[j] as u64, stream: i });
            j = j + 1;
            assert(out@ =~= out0 + mine.subrange(0, j as int));
        }
        assert(mine.subrange(0, j as int) =~= mine);
        i = i + 1;
    }
    out
}

/// The slot uses of a batch: every stream's owned pool slot.
pub open spec fn slot_uses_spec(seqs: Seq<&SequenceState>, n: int) -> Seq<Use>
    decreases n,
{
    if n <= 0 {
        Seq::empty()
    } else {
        let rest = slot_uses_spec(seqs, n - 1);
        match seqs[n - 1].slot() {
            Some(slot) => rest.push(Use { id: slot as u64, stream: (n - 1) as usize }),
            None => rest,
        }
    }
}

/// The slot uses of a batch: every stream's owned pool slot.
pub fn slot_uses(seqs: &Vec<&SequenceState>) -> (r: Vec<Use>)
    ensures
        r@ == slot_uses_spec(seqs@, seqs@.len() as int),
{
    let mut out: Vec<Use> = Vec::new();
    let mut i: usize = 0;
    while i < seqs.len()
        invariant
            i <= seqs@.len(),
            out@ == slot_uses_spec(seqs@, i as int),
        decreases seqs@.len() - i,
    {
        let seq: &SequenceState = seqs[i];
        match seq.ssm_slot_idx() {
            Some(slot) => out.push(Use { id: slot as u64, stream: i }),
            None => {},
        }
        i = i + 1;
    }
    out
}

/// How a stream ends its chunk in a kernel batch.
#[derive(Clone, Copy, Debug, PartialEq, Eq, Structural)]
pub enum StreamEnd {
    /// Finalize: the logits of its last token go to `row`.
    Finalize { row: usize },
    /// Save the checkpoint; the stream has no logits, and its result is null.
    Checkpoint,
}

/// How stream `b` ends its chunk: the last chunk is finalized at the stream's row past
/// `row_base`, clear of the decode rows, and any other is checkpointed.
pub fn stream_end(is_last: bool, row_base: usize, b: usize) -> (r: StreamEnd)
    requires
        is_last ==> row_base + b <= usize::MAX,
    ensures
        r == if is_last {
            StreamEnd::Finalize { row: (row_base + b) as usize }
        } else {
            StreamEnd::Checkpoint
        },
{
    if is_last {
        StreamEnd::Finalize { row: row_base + b }
    } else {
        StreamEnd::Checkpoint
    }
}

/// One more stream adds what it lacks: the least number of blocks that, with those it has and
/// those its match brings, reach the end of its chunk.
pub proof fn each_stream_adds_the_blocks_it_lacks(
    s: &[StreamNeed],
    longer: &[StreamNeed],
    x: StreamNeed,
    bs: usize,
    r: Option<usize>,
    r2: Option<usize>,
)
    requires
        call_ensures(batch_blocks_needed, (s, bs), r),
        call_ensures(batch_blocks_needed, (longer, bs), r2),
        longer@ == s@.push(x),
        bs > 0,
        r2 is Some,
    ensures
        r is Some,
        ({
            let more = r2->0 - r->0;
            let have = x.blocks + x.matched_tokens as int / bs as int;
            let end = x.chunk_start + x.chunk_len;
            &&& more >= 0
            &&& (have + more) * bs >= end
            &&& more > 0 ==> (have + more - 1) * bs < end
        }),
{
    lemma_blocks_prefix(s@, longer@, bs as int, s@.len() as int);
    assert forall|i: int| 0 <= i < s@.len() implies (#[trigger] s@[i]).chunk_start
        + s@[i].chunk_len <= usize::MAX by {
        assert(longer@[i] == s@[i]);
    }
    lemma_blocks_mono(longer@, bs as int, s@.len() as int, longer@.len() as int);
    let b = bs as int;
    let end = x.chunk_start + x.chunk_len;
    let through = (end + b - 1) / b;
    assert(longer@[s@.len() as int] == x);
    assert(through * b >= end && (through - 1) * b < end) by (nonlinear_arith)
        requires
            through == (end + b - 1) / b,
            b > 0,
    ;
    let have = x.blocks + x.matched_tokens as int / b;
    if through <= have {
        assert(have * b >= through * b) by (nonlinear_arith)
            requires
                through <= have,
                b > 0,
        ;
    }
}

proof fn lemma_blocks_prefix(s: Seq<StreamNeed>, t: Seq<StreamNeed>, bs: int, n: int)
    requires
        0 <= n <= s.len() <= t.len(),
        forall|i: int| 0 <= i < n ==> #[trigger] t[i] == s[i],
    ensures
        blocks_needed(s, bs, n) == blocks_needed(t, bs, n),
    decreases n,
{
    if n > 0 {
        lemma_blocks_prefix(s, t, bs, n - 1);
        assert(t[n - 1] == s[n - 1]);
    }
}

/// No stream needs nothing.
pub proof fn an_empty_batch_needs_no_block(s: &[StreamNeed], bs: usize, r: Option<usize>)
    requires
        call_ensures(batch_blocks_needed, (s, bs), r),
        s@.len() == 0,
    ensures
        r == Some(0usize),
{
}

/// A batch is admitted exactly when its need is free; otherwise just what is missing is evicted,
/// until an eviction brings nothing.
pub proof fn batches_are_admitted_when_blocks_are_free(
    free: usize,
    needed: usize,
    last_eviction_empty: bool,
    r: Preflight,
)
    requires
        call_ensures(kv_preflight, (free, needed, last_eviction_empty), r),
    ensures
        r is Admit <==> needed <= free,
        r matches Preflight::Evict { short } ==> free + short == needed && short > 0
            && !last_eviction_empty,
        r is Decline ==> last_eviction_empty && free < needed,
{
}

/// All buffers are zeroed with a communicator, the essential ones for a first chunk, and none for
/// a later one.
pub proof fn buffers_are_zeroed_for_first_chunks(has_comm: bool, chunk_start: usize, r: ZeroRule)
    requires
        call_ensures(zero_rule, (has_comm, chunk_start), r),
    ensures
        r is All <==> has_comm,
        r is Keep <==> !has_comm && chunk_start > 0,
{
}

/// The metadata starts behind the routing staging of all routed tokens, at a multiple of 64, and
/// each stream gets at least 4096 bytes and sixteen per token of the longest chunk with 64 more.
pub proof fn setup_starts_behind_the_routing(
    n: usize,
    total: usize,
    max_chunk: usize,
    varlen: bool,
    top_k: usize,
    arena_cap: usize,
    r: BatchSetup,
)
    requires
        call_ensures(BatchSetup::start, (n, total, max_chunk, varlen, top_k, arena_cap), r),
    ensures
        ({
            let routed = if varlen {
                total as int
            } else {
                max_chunk * n
            };
            &&& routed * top_k * 8 <= r.meta_start < routed * top_k * 8 + 64
            &&& r.meta_start % 64 == 0
            &&& r.meta_bytes >= 4096
            &&& r.meta_bytes >= 16 * max_chunk + 64
            &&& r.meta_bytes == 4096 || r.meta_bytes == 16 * max_chunk + 64
            &&& r.cursor == r.meta_start
            &&& r.running_off == 0
            &&& r.streams@.len() == 0
            &&& r.use_mrope is None
            &&& r.needs_paged is None
            &&& r.varlen == varlen
            &&& r.arena_cap == arena_cap
        }),
{
    let routed = routed_tokens(varlen, total as int, n as int, max_chunk as int);
    assert(0 <= routed) by (nonlinear_arith)
        requires
            routed == total || routed == max_chunk * n,
            0 <= total,
            0 <= max_chunk,
            0 <= n,
    ;
    assert(0 <= routed * top_k) by (nonlinear_arith)
        requires
            0 <= routed,
            0 <= top_k,
    ;
    lemma_align_up(routed * top_k * 8, 64);
    assert(r.streams@.len() * r.meta_bytes == 0) by (nonlinear_arith)
        requires
            r.streams@.len() == 0,
    ;
}

/// A stream joins the batch exactly when it processes something, starts where the first one does,
/// and processes as much unless lengths may differ; its range is taken as it is.
pub proof fn streams_join_a_batch_they_match(
    setup: &BatchSetup,
    range: &ProcRange,
    r: Result<StreamRange, SetupError>,
)
    requires
        call_ensures(BatchSetup::check_range, (setup, range), r),
    ensures
        match *range {
            ProcRange::EarlyReturn => r matches Err(SetupError::EarlyReturn { stream }) && stream
                == setup.streams@.len() as usize,
            ProcRange::Compute { proc_start, proc_count, effective_seq_len_start } => {
                let same_count = setup.streams@.len() == 0 || setup.varlen
                    || setup.streams@[0].proc_count == proc_count;
                let same_start = setup.streams@.len() == 0
                    || setup.streams@[0].effective_seq_len_start == effective_seq_len_start;
                &&& r is Ok <==> same_count && same_start
                &&& r matches Ok(x) ==> x.proc_start == proc_start && x.proc_count == proc_count
                    && x.effective_seq_len_start == effective_seq_len_start
                &&& r matches Err(e) ==> e == if !same_count {
                    (SetupError::ProcCount { stream: setup.streams@.len() as usize })
                } else {
                    (SetupError::SeqStart { stream: setup.streams@.len() as usize })
                }
            },
        },
{
}

/// A stream that is taken gets the packed rows right behind the ones before it and its own
/// metadata bytes, and is recorded as it was uploaded; the rows never overrun the arena. One whose
/// position streams or paging differ from the first, or whose rows do not fit, changes nothing.
pub proof fn streams_are_packed_behind_each_other(
    setup: &mut BatchSetup,
    range: StreamRange,
    up: StreamUpload,
    r: Result<(), SetupError>,
    i: int,
)
    requires
        call_ensures(BatchSetup::take_stream, (setup, range, up), r),
    ensures
        ({
            let was = *old(setup);
            let now = *final(setup);
            let b = was.streams@.len();
            let mrope_ok = was.use_mrope is None || was.use_mrope == Some(up.use_mrope);
            let paged_ok = was.needs_paged is None || was.needs_paged == Some(up.needs_paged);
            let rows_ok = was.running_off + range.proc_count <= was.arena_cap;
            &&& r is Ok <==> mrope_ok && paged_ok && rows_ok
            &&& r matches Err(e) ==> {
                &&& now == was
                &&& e == if !mrope_ok {
                    (SetupError::Mrope { stream: b as usize })
                } else if !paged_ok {
                    (SetupError::Paged { stream: b as usize })
                } else {
                    (SetupError::Arena { stream: b as usize })
                }
            }
            &&& r is Ok ==> {
                let x = now.streams@[b as int];
                &&& now.streams@.len() == b + 1
                &&& 0 <= i < b ==> now.streams@[i] == was.streams@[i]
                &&& x.proc_off == was.running_off
                &&& now.running_off == x.proc_off + x.proc_count
                &&& now.running_off <= now.arena_cap
                &&& now.cursor == was.cursor + was.meta_bytes
                &&& x.chunk_start == up.chunk_start
                &&& x.proc_start == range.proc_start
                &&& x.proc_count == range.proc_count
                &&& x.effective_seq_len_start == range.effective_seq_len_start
                &&& up.marconi_skip ==> x.kv_write_start_eff == 0
                &&& !up.marconi_skip ==> x.kv_write_start_eff == up.kv_write_start
                &&& x.block_table_dev == up.block_table_dev
                &&& x.seq_len_dev == up.seq_len_dev
                &&& x.num_blocks == up.num_blocks
                &&& now.use_mrope == Some(up.use_mrope)
                &&& now.needs_paged == Some(up.needs_paged)
                &&& now.arena_cap == was.arena_cap
                &&& now.varlen == was.varlen
                &&& now.meta_start == was.meta_start
                &&& now.meta_bytes == was.meta_bytes
            }
        }),
{
}

/// The recurrence buffers hold all packed rows, and the state pointers lie behind the staged
/// arrays, inside the scratch buffer.
pub proof fn pointers_lie_behind_the_arrays(
    setup: &BatchSetup,
    total: usize,
    staged_bytes: usize,
    scratch_bytes: usize,
    r: Result<usize, SetupError>,
)
    requires
        call_ensures(BatchSetup::total_len, (setup,), total),
        call_ensures(BatchSetup::pointer_offset, (setup, staged_bytes, scratch_bytes), r),
        setup.wf(),
        setup.cursor + staged_bytes + setup.streams@.len() * 8 <= usize::MAX,
    ensures
        total == setup.running_off,
        r matches Ok(off) ==> off == setup.cursor + staged_bytes && off + 8 * setup.streams@.len()
            <= scratch_bytes,
        r matches Err(e) ==> e is Scratch && setup.cursor + staged_bytes + 8
            * setup.streams@.len() > scratch_bytes,
{
}

/// A stream's page tables are uploaded exactly when it reads earlier KV, or when a first chunk
/// runs with the batched first chunks or with varying lengths.
pub proof fn pages_are_uploaded_where_read(
    needs_paged: bool,
    chunk_start: usize,
    first_chunk_batched: bool,
    varlen: bool,
    r: bool,
)
    requires
        call_ensures(uploads_pages, (needs_paged, chunk_start, first_chunk_batched, varlen), r),
    ensures
        needs_paged ==> r,
        !needs_paged && chunk_start > 0 ==> !r,
        !needs_paged && chunk_start == 0 ==> (r <==> first_chunk_batched || varlen),
{
}

proof fn lemma_shared_prefix(a: Seq<Use>, b: Seq<Use>, n: int)
    requires
        0 <= n <= a.len() <= b.len(),
        forall|i: int| 0 <= i < a.len() ==> #[trigger] b[i] == a[i],
    ensures
        shared_uses_spec(a, n) == shared_uses_spec(b, n),
    decreases n,
{
    if n > 0 {
        let m = n - 1;
        lemma_shared_prefix(a, b, m);
        assert(b[m] == a[m]);
        let id = a[m].id;
        if exists|j: int| first_use(a, m, id, j) {
            let j = choose|j: int| first_use(a, m, id, j);
            assert(b[j] == a[j]);
            assert(first_use(b, m, id, j));
        }
        if exists|j: int| first_use(b, m, id, j) {
            let j = choose|j: int| first_use(b, m, id, j);
            assert(b[j] == a[j]);
            assert(first_use(a, m, id, j)) by {
                assert forall|k: int| 0 <= k < j implies (#[trigger] a[k]).id != id by {
                    assert(b[k] == a[k]);
                }
            }
            let i = choose|i: int| first_use(a, m, id, i);
            assert(b[i] == a[i]);
            assert(i == j);
        }
    }
}

/// One more use is reported exactly when the same thing was used before: once, with the stream of
/// the earliest such use, at place `j`, first and its own stream second.
pub proof fn every_second_use_is_reported(
    uses: &Vec<Use>,
    longer: &Vec<Use>,
    u: Use,
    r: Vec<SharedUse>,
    r2: Vec<SharedUse>,
    j: int,
)
    requires
        call_ensures(shared_uses, (uses,), r),
        call_ensures(shared_uses, (longer,), r2),
        longer@ == uses@.push(u),
    ensures
        (forall|i: int| 0 <= i < uses@.len() ==> (#[trigger] uses@[i]).id != u.id) ==> r2@ == r@,
        0 <= j < uses@.len() && uses@[j].id == u.id && (forall|i: int|
            0 <= i < j ==> (#[trigger] uses@[i]).id != u.id) ==> r2@ == r@.push(
            SharedUse { id: u.id, first: uses@[j].stream, second: u.stream },
        ),
{
    let m = uses@.len() as int;
    lemma_shared_prefix(uses@, longer@, m);
    assert(longer@[m] == u);
    if exists|i: int| first_use(longer@, m, u.id, i) {
        let i = choose|i: int| first_use(longer@, m, u.id, i);
        assert(longer@[i] == uses@[i]);
    }
    if 0 <= j < uses@.len() && uses@[j].id == u.id && (forall|i: int|
        0 <= i < j ==> (#[trigger] uses@[i]).id != u.id) {
        assert(longer@[j] == uses@[j]);
        assert(first_use(longer@, m, u.id, j)) by {
            assert forall|k: int| 0 <= k < j implies (#[trigger] longer@[k]).id != u.id by {
                assert(longer@[k] == uses@[k]);
            }
        }
        let i = choose|i: int| first_use(longer@, m, u.id, i);
        assert(longer@[i] == uses@[i]);
        assert(i == j);
    }
}

/// Nothing used is nothing shared.
pub proof fn no_use_is_not_shared(uses: &Vec<Use>, r: Vec<SharedUse>)
    requires
        call_ensures(shared_uses, (uses,), r),
        uses@.len() == 0,
    ensures
        r@.len() == 0,
{
}

/// One more stream adds the uses of its own blocks, in table order, and of its own slot if it has
/// one, under its own number.
pub proof fn each_stream_adds_its_own_uses(
    seqs: &Vec<&SequenceState>,
    longer: &Vec<&SequenceState>,
    seq: &SequenceState,
    blocks: Vec<Use>,
    blocks2: Vec<Use>,
    slots: Vec<Use>,
    slots2: Vec<Use>,
    j: int,
)
    requires
        call_ensures(block_uses, (seqs,), blocks),
        call_ensures(block_uses, (longer,), blocks2),
        call_ensures(slot_uses, (seqs,), slots),
        call_ensures(slot_uses, (longer,), slots2),
        longer@ == seqs@.push(seq),
    ensures
        blocks2@.len() == blocks@.len() + seq.block_table@.len(),
        0 <= j < blocks@.len() ==> blocks2@[j] == blocks@[j],
        0 <= j < seq.block_table@.len() ==> blocks2@[blocks@.len() + j].id == seq.block_table@[j]
            && blocks2@[blocks@.len() + j].stream == seqs@.len(),
        0 <= j < slots@.len() ==> slots2@[j] == slots@[j],
        seq.ssm_slot matches Some(g) && g.slot is Some ==> slots2@.len() == slots@.len() + 1
            && slots2@.last().id == seq.ssm_slot->0.slot->0 && slots2@.last().stream
            == seqs@.len(),
        !(seq.ssm_slot matches Some(g) && g.slot is Some) ==> slots2@.len() == slots@.len(),
{
    assert(longer.len() == longer@.len());
    lemma_uses_prefix(seqs@, longer@, seqs@.len() as int);
    assert(longer@[seqs@.len() as int] == seq);
}

proof fn lemma_uses_prefix(a: Seq<&SequenceState>, b: Seq<&SequenceState>, n: int)
    requires
        0 <= n <= a.len() <= b.len(),
        forall|i: int| 0 <= i < a.len() ==> #[trigger] b[i] == a[i],
    ensures
        block_uses_spec(a, n) == block_uses_spec(b, n),
        slot_uses_spec(a, n) == slot_uses_spec(b, n),
    decreases n,
{
    if n > 0 {
        lemma_uses_prefix(a, b, n - 1);
        assert(b[n - 1] == a[n - 1]);
        assert(block_uses_spec(a, n) =~= block_uses_spec(b, n));
    }
}

/// A last chunk's logits go to the stream's own row behind the base, and no two streams share
/// one; any other chunk is checkpointed.
pub proof fn finished_streams_have_their_own_row(
    is_last: bool,
    row_base: usize,
    a: usize,
    b: usize,
    x: StreamEnd,
    y: StreamEnd,
)
    requires
        call_ensures(stream_end, (is_last, row_base, a), x),
        call_ensures(stream_end, (is_last, row_base, b), y),
        row_base + a <= usize::MAX,
        row_base + b <= usize::MAX,
    ensures
        is_last <==> x is Finalize,
        x matches StreamEnd::Finalize { row } ==> row == row_base + a,
        is_last && a != b ==> x != y,
{
}

/// No stream uses nothing.
pub proof fn no_stream_uses_nothing(
    seqs: &Vec<&SequenceState>,
    blocks: Vec<Use>,
    slots: Vec<Use>,
)
    requires
        call_ensures(block_uses, (seqs,), blocks),
        call_ensures(slot_uses, (seqs,), slots),
        seqs@.len() == 0,
    ensures
        blocks@.len() == 0,
        slots@.len() == 0,
{
}

/// The need is reported whenever it can be: with one more stream, whose chunk ends in the address
/// space and for which some number of blocks is enough, as long as that number on top of the
/// others' need is in the address space too.
pub proof fn needs_are_reported_where_they_fit(
    s: &[StreamNeed],
    longer: &[StreamNeed],
    x: StreamNeed,
    bs: usize,
    r: Option<usize>,
    r2: Option<usize>,
    k: int,
)
    requires
        call_ensures(batch_blocks_needed, (s, bs), r),
        call_ensures(batch_blocks_needed, (longer, bs), r2),
        longer@ == s@.push(x),
        bs > 0,
        0 <= k,
    ensures
        x.chunk_start + x.chunk_len > usize::MAX ==> r2 is None,
        r is None ==> r2 is None,
        r is Some && x.chunk_start + x.chunk_len <= usize::MAX && (x.blocks
            + x.matched_tokens as int / bs as int + k) * bs >= x.chunk_start + x.chunk_len && r->0
            + k <= usize::MAX ==> r2 is Some,
{
    let b = bs as int;
    let n = s@.len() as int;
    lemma_blocks_prefix(s@, longer@, b, n);
    lemma_blocks_mono(longer@, b, n, n + 1);
    assert(longer@[n] == x);
    if r2 is Some {
        assert forall|i: int| 0 <= i < n implies (#[trigger] s@[i]).chunk_start + s@[i].chunk_len
            <= usize::MAX by {
            assert(longer@[i] == s@[i]);
        }
    }
    let end = x.chunk_start + x.chunk_len;
    let have = x.blocks + x.matched_tokens as int / b;
    let through = (end + b - 1) / b;
    if r is Some && end <= usize::MAX && (have + k) * b >= end {
        assert((through - 1) * b < end) by (nonlinear_arith)
            requires
                through == (end + b - 1) / b,
                b > 0,
        ;
        assert(through <= have + k) by (nonlinear_arith)
            requires
                (through - 1) * b < end,
                (have + k) * b >= end,
                b > 0,
        ;
        assert forall|i: int| 0 <= i < longer@.len() implies (#[trigger] longer@[i]).chunk_start
            + longer@[i].chunk_len <= usize::MAX by {
            if i < n {
                assert(longer@[i] == s@[i]);
            }
        }
    }
}

} // verus!
