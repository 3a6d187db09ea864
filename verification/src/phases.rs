//! The order of the steps of a prefill and of a verify. The caller performs the step it is at,
//! reports how it went, and goes on with the step it is given.
//!
//! A step that fails ends the run; the sequence's tokens are appended only after everything
//! before has succeeded.

use vstd::prelude::*;

verus! {

/// A step of the prefill of one chunk.
#[derive(Clone, Copy, Debug, PartialEq, Eq, Structural)]
pub enum ChunkPhase {
    Zero,
    Embed,
    Lookup,
    Blocks,
    Range,
    UploadMeta,
    UploadPages,
    Sync,
    Layers,
    /// Append the chunk's tokens.
    Append,
    /// Logits and the prompt's cache insert, for the last chunk.
    Finalize,
    /// The chunk-end checkpoint, for any other.
    Checkpoint,
    Done,
    Failed,
}

/// What the steps so far told about a chunk.
#[derive(Clone, Copy, Debug)]
pub struct ChunkFacts {
    /// The whole chunk is cached and it is not the last.
    pub early_return: bool,
    pub needs_paged: bool,
    pub is_last: bool,
}

/// The step after `phase`.
pub open spec fn chunk_next_spec(phase: ChunkPhase, ok: bool, f: ChunkFacts) -> ChunkPhase {
    if !ok && phase != ChunkPhase::Done {
        ChunkPhase::Failed
    } else {
        match phase {
            ChunkPhase::Zero => ChunkPhase::Embed,
            ChunkPhase::Embed => ChunkPhase::Lookup,
            ChunkPhase::Lookup => ChunkPhase::Blocks,
            ChunkPhase::Blocks => ChunkPhase::Range,
            ChunkPhase::Range => if f.early_return {
                ChunkPhase::Append
            } else {
                ChunkPhase::UploadMeta
            },
            ChunkPhase::UploadMeta => if f.needs_paged {
                ChunkPhase::UploadPages
            } else {
                ChunkPhase::Sync
            },
            ChunkPhase::UploadPages => ChunkPhase::Sync,
            ChunkPhase::Sync => ChunkPhase::Layers,
            ChunkPhase::Layers => ChunkPhase::Append,
            ChunkPhase::Append => if f.early_return {
                ChunkPhase::Done
            } else if f.is_last {
                ChunkPhase::Finalize
            } else {
                ChunkPhase::Checkpoint
            },
            ChunkPhase::Finalize => ChunkPhase::Done,
            ChunkPhase::Checkpoint => ChunkPhase::Done,
            ChunkPhase::Done => ChunkPhase::Done,
            ChunkPhase::Failed => ChunkPhase::Failed,
        }
    }
}

/// The step after `phase`, which went well or not.
pub fn chunk_next(phase: ChunkPhase, ok: bool, f: &ChunkFacts) -> (r: ChunkPhase)
    ensures
        r == chunk_next_spec(phase, ok, *f),
{
    if !ok && phase != ChunkPhase::Done {
        return ChunkPhase::Failed;
    }
    match phase {
        ChunkPhase::Zero => ChunkPhase::Embed,
        ChunkPhase::Embed => ChunkPhase::Lookup,
        ChunkPhase::Lookup => ChunkPhase::Blocks,
        ChunkPhase::Blocks => ChunkPhase::Range,
        ChunkPhase::Range => if f.early_return {
            ChunkPhase::Append
        } else {
            ChunkPhase::UploadMeta
        },
        ChunkPhase::UploadMeta => if f.needs_paged {
            ChunkPhase::UploadPages
        } else {
            ChunkPhase::Sync
        },
        ChunkPhase::UploadPages => ChunkPhase::Sync,
        ChunkPhase::Sync => ChunkPhase::Layers,
        ChunkPhase::Layers => ChunkPhase::Append,
        ChunkPhase::Append => if f.early_return {
            ChunkPhase::Done
        } else if f.is_last {
            ChunkPhase::Finalize
        } else {
            ChunkPhase::Checkpoint
        },
        ChunkPhase::Finalize => ChunkPhase::Done,
        ChunkPhase::Checkpoint => ChunkPhase::Done,
        ChunkPhase::Done => ChunkPhase::Done,
        ChunkPhase::Failed => ChunkPhase::Failed,
    }
}

/// A chunk's tokens are appended only after its layers ran, or when the whole chunk is cached; a
/// failed step never leads to it.
pub proof fn tokens_follow_the_layers(phase: ChunkPhase, ok: bool, f: ChunkFacts)
    requires
        chunk_next_spec(phase, ok, f) == ChunkPhase::Append,
    ensures
        ok,
        phase == ChunkPhase::Layers || (phase == ChunkPhase::Range && f.early_return),
{
}

/// A step of the two-phase prefill of a whole prompt.
#[derive(Clone, Copy, Debug, PartialEq, Eq, Structural)]
pub enum TwophasePhase {
    Zero,
    Embed,
    VisionRows,
    /// Look up the prefix and enter the match.
    Lookup,
    Restore,
    Blocks,
    /// Nothing is left to process: append, embed the last token, and insert.
    FullHit,
    /// Embed the uncached tokens again.
    Reembed,
    UploadMeta,
    UploadPages,
    Sync,
    Layers,
    Append,
    Head,
    /// Save a snapshot and insert the prompt.
    Insert,
    Done,
    Failed,
}

/// What the steps so far told about a prompt.
#[derive(Clone, Copy, Debug)]
pub struct TwophaseFacts {
    pub proc_start: usize,
    pub proc_count: usize,
}

/// The step after `phase`.
pub open spec fn twophase_next_spec(phase: TwophasePhase, ok: bool, f: TwophaseFacts) -> TwophasePhase {
    if !ok && phase != TwophasePhase::Done {
        TwophasePhase::Failed
    } else {
        match phase {
            TwophasePhase::Zero => TwophasePhase::Embed,
            TwophasePhase::Embed => TwophasePhase::VisionRows,
            TwophasePhase::VisionRows => TwophasePhase::Lookup,
            TwophasePhase::Lookup => TwophasePhase::Restore,
            TwophasePhase::Restore => TwophasePhase::Blocks,
            TwophasePhase::Blocks => if f.proc_count == 0 {
                TwophasePhase::FullHit
            } else if f.proc_start > 0 {
                TwophasePhase::Reembed
            } else {
                TwophasePhase::UploadMeta
            },
            TwophasePhase::FullHit => TwophasePhase::Done,
            TwophasePhase::Reembed => TwophasePhase::UploadMeta,
            TwophasePhase::UploadMeta => if f.proc_start > 0 {
                TwophasePhase::UploadPages
            } else {
                TwophasePhase::Sync
            },
            TwophasePhase::UploadPages => TwophasePhase::Sync,
            TwophasePhase::Sync => TwophasePhase::Layers,
            TwophasePhase::Layers => TwophasePhase::Append,
            TwophasePhase::Append => TwophasePhase::Head,
            TwophasePhase::Head => TwophasePhase::Insert,
            TwophasePhase::Insert => TwophasePhase::Done,
            TwophasePhase::Done => TwophasePhase::Done,
            TwophasePhase::Failed => TwophasePhase::Failed,
        }
    }
}

/// The step after `phase`, which went well or not.
pub fn twophase_next(phase: TwophasePhase, ok: bool, f: &TwophaseFacts) -> (r: TwophasePhase)
    ensures
        r == twophase_next_spec(phase, ok, *f),
{
    if !ok && phase != TwophasePhase::Done {
        return TwophasePhase::Failed;
    }
    match phase {
        TwophasePhase::Zero => TwophasePhase::Embed,
        TwophasePhase::Embed => TwophasePhase::VisionRows,
        TwophasePhase::VisionRows => TwophasePhase::Lookup,
        TwophasePhase::Lookup => TwophasePhase::Restore,
        TwophasePhase::Restore => TwophasePhase::Blocks,
        TwophasePhase::Blocks => if f.proc_count == 0 {
            TwophasePhase::FullHit
        } else if f.proc_start > 0 {
            TwophasePhase::Reembed
        } else {
            TwophasePhase::UploadMeta
        },
        TwophasePhase::FullHit => TwophasePhase::Done,
        TwophasePhase::Reembed => TwophasePhase::UploadMeta,
        TwophasePhase::UploadMeta => if f.proc_start > 0 {
            TwophasePhase::UploadPages
        } else {
            TwophasePhase::Sync
        },
        TwophasePhase::UploadPages => TwophasePhase::Sync,
        TwophasePhase::Sync => TwophasePhase::Layers,
        TwophasePhase::Layers => TwophasePhase::Append,
        TwophasePhase::Append => TwophasePhase::Head,
        TwophasePhase::Head => TwophasePhase::Insert,
        TwophasePhase::Insert => TwophasePhase::Done,
        TwophasePhase::Done => TwophasePhase::Done,
        TwophasePhase::Failed => TwophasePhase::Failed,
    }
}

/// The layers run only over a range that is not empty, and a prompt is inserted only after its
/// logits: a full hit runs no layer and saves no snapshot.
pub proof fn layers_need_something_to_process(phase: TwophasePhase, ok: bool, f: TwophaseFacts)
    ensures
        phase == TwophasePhase::Blocks && f.proc_count == 0 ==> twophase_next_spec(phase, ok, f)
            == TwophasePhase::FullHit || !ok,
        twophase_next_spec(phase, ok, f) == TwophasePhase::Append ==> ok && phase
            == TwophasePhase::Layers,
        twophase_next_spec(phase, ok, f) == TwophasePhase::Insert ==> ok && phase
            == TwophasePhase::Head,
{
}

/// A step of the verify of one sequence.
#[derive(Clone, Copy, Debug, PartialEq, Eq, Structural)]
pub enum VerifyPhase {
    Embed,
    Blocks,
    Upload,
    Forward,
    Readback,
    /// Append the rows' tokens.
    Commit,
    Done,
    Failed,
}

/// The step after `phase`.
pub open spec fn verify_next_spec(phase: VerifyPhase, ok: bool) -> VerifyPhase {
    if !ok && phase != VerifyPhase::Done {
        VerifyPhase::Failed
    } else {
        match phase {
            VerifyPhase::Embed => VerifyPhase::Blocks,
            VerifyPhase::Blocks => VerifyPhase::Upload,
            VerifyPhase::Upload => VerifyPhase::Forward,
            VerifyPhase::Forward => VerifyPhase::Readback,
            VerifyPhase::Readback => VerifyPhase::Commit,
            VerifyPhase::Commit => VerifyPhase::Done,
            VerifyPhase::Done => VerifyPhase::Done,
            VerifyPhase::Failed => VerifyPhase::Failed,
        }
    }
}

/// The step after `phase`, which went well or not.
pub fn verify_next(phase: VerifyPhase, ok: bool) -> (r: VerifyPhase)
    ensures
        r == verify_next_spec(phase, ok),
{
    if !ok && phase != VerifyPhase::Done {
        return VerifyPhase::Failed;
    }
    match phase {
        VerifyPhase::Embed => VerifyPhase::Blocks,
        VerifyPhase::Blocks => VerifyPhase::Upload,
        VerifyPhase::Upload => VerifyPhase::Forward,
        VerifyPhase::Forward => VerifyPhase::Readback,
        VerifyPhase::Readback => VerifyPhase::Commit,
        VerifyPhase::Commit => VerifyPhase::Done,
        VerifyPhase::Done => VerifyPhase::Done,
        VerifyPhase::Failed => VerifyPhase::Failed,
    }
}

/// A step of the verify of a batch.
#[derive(Clone, Copy, Debug, PartialEq, Eq, Structural)]
pub enum BatchVerifyPhase {
    /// Check the shape.
    Rows,
    Embed,
    Blocks,
    /// Stage the pointer tables and bind the fold's buffers.
    Tables,
    /// Decide between a replay, a borrow and a run.
    Pick,
    /// Embed the ghost rows of a borrowed graph.
    GhostEmbed,
    /// Stage the pointer tables with the ghost entries.
    Restage,
    Stage,
    Forward,
    Readback,
    /// Append every sequence's tokens.
    Commit,
    /// Open the fold if the verify ran for it.
    Permit,
    Done,
    Failed,
}

/// The step after `phase`.
pub open spec fn batch_verify_next_spec(
    phase: BatchVerifyPhase,
    ok: bool,
    has_ghosts: bool,
) -> BatchVerifyPhase {
    if !ok && phase != BatchVerifyPhase::Done {
        BatchVerifyPhase::Failed
    } else {
        match phase {
            BatchVerifyPhase::Rows => BatchVerifyPhase::Embed,
            BatchVerifyPhase::Embed => BatchVerifyPhase::Blocks,
            BatchVerifyPhase::Blocks => BatchVerifyPhase::Tables,
            BatchVerifyPhase::Tables => BatchVerifyPhase::Pick,
            BatchVerifyPhase::Pick => if has_ghosts {
                BatchVerifyPhase::GhostEmbed
            } else {
                BatchVerifyPhase::Stage
            },
            BatchVerifyPhase::GhostEmbed => BatchVerifyPhase::Restage,
            BatchVerifyPhase::Restage => BatchVerifyPhase::Stage,
            BatchVerifyPhase::Stage => BatchVerifyPhase::Forward,
            BatchVerifyPhase::Forward => BatchVerifyPhase::Readback,
            BatchVerifyPhase::Readback => BatchVerifyPhase::Commit,
            BatchVerifyPhase::Commit => BatchVerifyPhase::Permit,
            BatchVerifyPhase::Permit => BatchVerifyPhase::Done,
            BatchVerifyPhase::Done => BatchVerifyPhase::Done,
            BatchVerifyPhase::Failed => BatchVerifyPhase::Failed,
        }
    }
}

/// The step after `phase`, which went well or not.
pub fn batch_verify_next(phase: BatchVerifyPhase, ok: bool, has_ghosts: bool) -> (r: BatchVerifyPhase)
    ensures
        r == batch_verify_next_spec(phase, ok, has_ghosts),
{
    if !ok && phase != BatchVerifyPhase::Done {
        return BatchVerifyPhase::Failed;
    }
    match phase {
        BatchVerifyPhase::Rows => BatchVerifyPhase::Embed,
        BatchVerifyPhase::Embed => BatchVerifyPhase::Blocks,
        BatchVerifyPhase::Blocks => BatchVerifyPhase::Tables,
        BatchVerifyPhase::Tables => BatchVerifyPhase::Pick,
        BatchVerifyPhase::Pick => if has_ghosts {
            BatchVerifyPhase::GhostEmbed
        } else {
            BatchVerifyPhase::Stage
        },
        BatchVerifyPhase::GhostEmbed => BatchVerifyPhase::Restage,
        BatchVerifyPhase::Restage => BatchVerifyPhase::Stage,
        BatchVerifyPhase::Stage => BatchVerifyPhase::Forward,
        BatchVerifyPhase::Forward => BatchVerifyPhase::Readback,
        BatchVerifyPhase::Readback => BatchVerifyPhase::Commit,
        BatchVerifyPhase::Commit => BatchVerifyPhase::Permit,
        BatchVerifyPhase::Permit => BatchVerifyPhase::Done,
        BatchVerifyPhase::Done => BatchVerifyPhase::Done,
        BatchVerifyPhase::Failed => BatchVerifyPhase::Failed,
    }
}

/// A verify changes its sequences only when it succeeds: the commit follows only a readback that
/// went well, the fold opens only after the commit, and a failed run stays failed.
pub proof fn verify_commits_only_on_success(
    phase: VerifyPhase,
    batch: BatchVerifyPhase,
    ok: bool,
    has_ghosts: bool,
)
    ensures
        verify_next_spec(phase, ok) == VerifyPhase::Commit ==> ok && phase == VerifyPhase::Readback,
        batch_verify_next_spec(batch, ok, has_ghosts) == BatchVerifyPhase::Commit ==> ok && batch
            == BatchVerifyPhase::Readback,
        batch_verify_next_spec(batch, ok, has_ghosts) == BatchVerifyPhase::Permit ==> ok && batch
            == BatchVerifyPhase::Commit,
        verify_next_spec(VerifyPhase::Failed, ok) == VerifyPhase::Failed,
        batch_verify_next_spec(BatchVerifyPhase::Failed, ok, has_ghosts)
            == BatchVerifyPhase::Failed,
{
}

/// A step of the kernel-batched prefill.
#[derive(Clone, Copy, Debug, PartialEq, Eq, Structural)]
pub enum KernelPhase {
    /// Check the KV need, evicting from the prefix cache.
    Preflight,
    /// Reserve every stream's prefix.
    Reserve,
    Zero,
    /// Set the streams up one after another.
    Setup,
    Sync,
    /// Stage the stacked metadata.
    Stage,
    Layers,
    /// Append, finalize or checkpoint each stream.
    Finish,
    Done,
    /// The streams run one after another instead.
    NotAdmitted,
    Failed,
}

/// How a step of the kernel-batched prefill went.
#[derive(Clone, Copy, Debug, PartialEq, Eq, Structural)]
pub enum KernelStep {
    Went,
    /// The batch was declined; only the first two steps can do so.
    Declined,
    Failed,
}

/// The step after `phase`.
pub open spec fn kernel_next_spec(phase: KernelPhase, step: KernelStep) -> KernelPhase {
    match phase {
        KernelPhase::Done => KernelPhase::Done,
        KernelPhase::NotAdmitted => KernelPhase::NotAdmitted,
        KernelPhase::Failed => KernelPhase::Failed,
        _ => match step {
            KernelStep::Failed => KernelPhase::Failed,
            KernelStep::Declined => if phase == KernelPhase::Preflight || phase
                == KernelPhase::Reserve {
                KernelPhase::NotAdmitted
            } else {
                KernelPhase::Failed
            },
            KernelStep::Went => match phase {
                KernelPhase::Preflight => KernelPhase::Reserve,
                KernelPhase::Reserve => KernelPhase::Zero,
                KernelPhase::Zero => KernelPhase::Setup,
                KernelPhase::Setup => KernelPhase::Sync,
                KernelPhase::Sync => KernelPhase::Stage,
                KernelPhase::Stage => KernelPhase::Layers,
                KernelPhase::Layers => KernelPhase::Finish,
                _ => KernelPhase::Done,
            },
        },
    }
}

/// The step after `phase`, which went as `step` says.
pub fn kernel_next(phase: KernelPhase, step: KernelStep) -> (r: KernelPhase)
    ensures
        r == kernel_next_spec(phase, step),
{
    match phase {
        KernelPhase::Done => KernelPhase::Done,
        KernelPhase::NotAdmitted => KernelPhase::NotAdmitted,
        KernelPhase::Failed => KernelPhase::Failed,
        _ => match step {
            KernelStep::Failed => KernelPhase::Failed,
            KernelStep::Declined => if phase == KernelPhase::Preflight || phase
                == KernelPhase::Reserve {
                KernelPhase::NotAdmitted
            } else {
                KernelPhase::Failed
            },
            KernelStep::Went => match phase {
                KernelPhase::Preflight => KernelPhase::Reserve,
                KernelPhase::Reserve => KernelPhase::Zero,
                KernelPhase::Zero => KernelPhase::Setup,
                KernelPhase::Setup => KernelPhase::Sync,
                KernelPhase::Sync => KernelPhase::Stage,
                KernelPhase::Stage => KernelPhase::Layers,
                KernelPhase::Layers => KernelPhase::Finish,
                _ => KernelPhase::Done,
            },
        },
    }
}

/// A batch is declined only before anything is zeroed or changed: the first steps decline it, and
/// from the zeroing on a run ends done or failed.
pub proof fn declined_before_any_change(phase: KernelPhase, step: KernelStep)
    requires
        phase != KernelPhase::NotAdmitted,
    ensures
        kernel_next_spec(phase, step) == KernelPhase::NotAdmitted ==> phase
            == KernelPhase::Preflight || phase == KernelPhase::Reserve,
        kernel_next_spec(phase, step) == KernelPhase::Setup ==> phase == KernelPhase::Zero && step
            == KernelStep::Went,
{
}

/// No step of a chunk's prefill is skipped: each is reached only from the one before it, and only
/// when that went well. The pages are uploaded exactly when they are read, a cached chunk goes
/// straight to its tokens and ends there, the last chunk is finalized and any other checkpointed.
/// A failure ends the run, and nothing else does.
pub proof fn no_chunk_step_is_skipped(phase: ChunkPhase, ok: bool, f: &ChunkFacts, r: ChunkPhase)
    requires
        call_ensures(chunk_next, (phase, ok, f), r),
    ensures
        !ok && !(phase is Done) ==> r is Failed,
        match r {
            ChunkPhase::Zero => false,
            ChunkPhase::Embed => ok && phase is Zero,
            ChunkPhase::Lookup => ok && phase is Embed,
            ChunkPhase::Blocks => ok && phase is Lookup,
            ChunkPhase::Range => ok && phase is Blocks,
            ChunkPhase::UploadMeta => ok && phase is Range && !f.early_return,
            ChunkPhase::UploadPages => ok && phase is UploadMeta && f.needs_paged,
            ChunkPhase::Sync => ok && (phase is UploadPages || (phase is UploadMeta
                && !f.needs_paged)),
            ChunkPhase::Layers => ok && phase is Sync,
            ChunkPhase::Append => ok && (phase is Layers || (phase is Range && f.early_return)),
            ChunkPhase::Finalize => ok && phase is Append && !f.early_return && f.is_last,
            ChunkPhase::Checkpoint => ok && phase is Append && !f.early_return && !f.is_last,
            ChunkPhase::Done => phase is Done || (ok && (phase is Finalize || phase is Checkpoint || (
            phase is Append && f.early_return))),
            ChunkPhase::Failed => phase is Failed || !ok,
        },
{
}

/// No step of a two-phase prefill is skipped: each is reached only from the one before it, and only
/// when that went well. A prompt with nothing left to process runs no layer; the tokens are
/// embedded again and the pages uploaded exactly when part of the prompt is cached. A failure ends
/// the run, and nothing else does.
pub proof fn no_twophase_step_is_skipped(
    phase: TwophasePhase,
    ok: bool,
    f: &TwophaseFacts,
    r: TwophasePhase,
)
    requires
        call_ensures(twophase_next, (phase, ok, f), r),
    ensures
        !ok && !(phase is Done) ==> r is Failed,
        match r {
            TwophasePhase::Zero => false,
            TwophasePhase::Embed => ok && phase is Zero,
            TwophasePhase::VisionRows => ok && phase is Embed,
            TwophasePhase::Lookup => ok && phase is VisionRows,
            TwophasePhase::Restore => ok && phase is Lookup,
            TwophasePhase::Blocks => ok && phase is Restore,
            TwophasePhase::FullHit => ok && phase is Blocks && f.proc_count == 0,
            TwophasePhase::Reembed => ok && phase is Blocks && f.proc_count > 0 && f.proc_start > 0,
            TwophasePhase::UploadMeta => ok && (phase is Reembed || (phase is Blocks
                && f.proc_count > 0 && f.proc_start == 0)),
            TwophasePhase::UploadPages => ok && phase is UploadMeta && f.proc_start > 0,
            TwophasePhase::Sync => ok && (phase is UploadPages || (phase is UploadMeta
                && f.proc_start == 0)),
            TwophasePhase::Layers => ok && phase is Sync,
            TwophasePhase::Append => ok && phase is Layers,
            TwophasePhase::Head => ok && phase is Append,
            TwophasePhase::Insert => ok && phase is Head,
            TwophasePhase::Done => phase is Done || (ok && (phase is Insert || phase is FullHit)),
            TwophasePhase::Failed => phase is Failed || !ok,
        },
{
}

/// No step of a verify is skipped: each is reached only from the one before it, and only when that
/// went well; a failure ends the run, and nothing else does.
pub proof fn no_verify_step_is_skipped(phase: VerifyPhase, ok: bool, r: VerifyPhase)
    requires
        call_ensures(verify_next, (phase, ok), r),
    ensures
        !ok && !(phase is Done) ==> r is Failed,
        match r {
            VerifyPhase::Embed => false,
            VerifyPhase::Blocks => ok && phase is Embed,
            VerifyPhase::Upload => ok && phase is Blocks,
            VerifyPhase::Forward => ok && phase is Upload,
            VerifyPhase::Readback => ok && phase is Forward,
            VerifyPhase::Commit => ok && phase is Readback,
            VerifyPhase::Done => phase is Done || (ok && phase is Commit),
            VerifyPhase::Failed => phase is Failed || !ok,
        },
{
}

/// No step of a batched verify is skipped: each is reached only from the one before it, and only
/// when that went well. Ghost rows are embedded and the tables staged again exactly for a borrowed
/// graph. A failure ends the run, and nothing else does.
pub proof fn no_batch_verify_step_is_skipped(
    phase: BatchVerifyPhase,
    ok: bool,
    has_ghosts: bool,
    r: BatchVerifyPhase,
)
    requires
        call_ensures(batch_verify_next, (phase, ok, has_ghosts), r),
    ensures
        !ok && !(phase is Done) ==> r is Failed,
        match r {
            BatchVerifyPhase::Rows => false,
            BatchVerifyPhase::Embed => ok && phase is Rows,
            BatchVerifyPhase::Blocks => ok && phase is Embed,
            BatchVerifyPhase::Tables => ok && phase is Blocks,
            BatchVerifyPhase::Pick => ok && phase is Tables,
            BatchVerifyPhase::GhostEmbed => ok && phase is Pick && has_ghosts,
            BatchVerifyPhase::Restage => ok && phase is GhostEmbed,
            BatchVerifyPhase::Stage => ok && (phase is Restage || (phase is Pick && !has_ghosts)),
            BatchVerifyPhase::Forward => ok && phase is Stage,
            BatchVerifyPhase::Readback => ok && phase is Forward,
            BatchVerifyPhase::Commit => ok && phase is Readback,
            BatchVerifyPhase::Permit => ok && phase is Commit,
            BatchVerifyPhase::Done => phase is Done || (ok && phase is Permit),
            BatchVerifyPhase::Failed => phase is Failed || !ok,
        },
{
}

/// No step of a kernel-batched prefill is skipped: each is reached only from the one before it, and
/// only when that went. Only the first two steps can decline the batch, before anything is zeroed
/// or changed; a later one fails it.
pub proof fn no_kernel_step_is_skipped(phase: KernelPhase, step: KernelStep, r: KernelPhase)
    requires
        call_ensures(kernel_next, (phase, step), r),
    ensures
        ({
            let over = phase is Done || phase is NotAdmitted || phase is Failed;
            let went = step is Went && !over;
            &&& over ==> r == phase
            &&& step is Failed && !over ==> r is Failed
            &&& match r {
                KernelPhase::Preflight => false,
                KernelPhase::Reserve => went && phase is Preflight,
                KernelPhase::Zero => went && phase is Reserve,
                KernelPhase::Setup => went && phase is Zero,
                KernelPhase::Sync => went && phase is Setup,
                KernelPhase::Stage => went && phase is Sync,
                KernelPhase::Layers => went && phase is Stage,
                KernelPhase::Finish => went && phase is Layers,
                KernelPhase::Done => phase is Done || (went && phase is Finish),
                KernelPhase::NotAdmitted => phase is NotAdmitted || (step is Declined && (phase
                    is Preflight || phase is Reserve)),
                KernelPhase::Failed => phase is Failed || (!over && (step is Failed || (step
                    is Declined && !(phase is Preflight || phase is Reserve)))),
            }
        }),
{
}

} // verus!
