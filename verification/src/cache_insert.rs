//! The end of a prefill: saving a snapshot, with one retry after a reclaim, and inserting the
//! prompt into the prefix cache with it or without.

use vstd::prelude::*;

verus! {

/// What a snapshot save waits for.
#[derive(Clone, Copy, Debug, PartialEq, Eq, Structural)]
pub enum SavePhase {
    /// Save into a free slot.
    First,
    /// Reclaim a slot from the prefix cache.
    Reclaim,
    /// Save again into the reclaimed slot.
    Second,
    /// The save is over, with the snapshot if there is one.
    Done { snapshot: Option<usize> },
}

/// How the awaited step went.
#[derive(Clone, Copy, Debug, PartialEq, Eq, Structural)]
pub enum SaveEvent {
    Saved { snapshot: usize },
    /// No slot was free, or nothing could be reclaimed.
    Full,
    /// A slot was reclaimed.
    Reclaimed,
    Failed,
}

/// The phase after an event.
pub open spec fn save_step_spec(phase: SavePhase, event: SaveEvent) -> SavePhase {
    match phase {
        SavePhase::First => match event {
            SaveEvent::Saved { snapshot } => SavePhase::Done { snapshot: Some(snapshot) },
            SaveEvent::Full => SavePhase::Reclaim,
            _ => SavePhase::Done { snapshot: None },
        },
        SavePhase::Reclaim => match event {
            SaveEvent::Reclaimed => SavePhase::Second,
            _ => SavePhase::Done { snapshot: None },
        },
        SavePhase::Second => match event {
            SaveEvent::Saved { snapshot } => SavePhase::Done { snapshot: Some(snapshot) },
            _ => SavePhase::Done { snapshot: None },
        },
        SavePhase::Done { snapshot } => SavePhase::Done { snapshot },
    }
}

/// The phase after an event: a full pool is reclaimed from once and the save tried again; any
/// other failure ends without a snapshot.
pub fn save_step(phase: SavePhase, event: SaveEvent) -> (r: SavePhase)
    ensures
        r == save_step_spec(phase, event),
{
    match phase {
        SavePhase::First => match event {
            SaveEvent::Saved { snapshot } => SavePhase::Done { snapshot: Some(snapshot) },
            SaveEvent::Full => SavePhase::Reclaim,
            _ => SavePhase::Done { snapshot: None },
        },
        SavePhase::Reclaim => match event {
            SaveEvent::Reclaimed => SavePhase::Second,
            _ => SavePhase::Done { snapshot: None },
        },
        SavePhase::Second => match event {
            SaveEvent::Saved { snapshot } => SavePhase::Done { snapshot: Some(snapshot) },
            _ => SavePhase::Done { snapshot: None },
        },
        SavePhase::Done { snapshot } => SavePhase::Done { snapshot },
    }
}

/// A save is over after three events, whatever they are.
pub proof fn save_ends(a: SaveEvent, b: SaveEvent, c: SaveEvent)
    ensures
        save_step_spec(save_step_spec(save_step_spec(SavePhase::First, a), b), c) is Done,
{
}

/// A save ends with a snapshot only if the last save made it.
pub proof fn save_ends_with_what_was_saved(phase: SavePhase, event: SaveEvent, snapshot: usize)
    requires
        !(phase is Done),
        save_step_spec(phase, event) == (SavePhase::Done { snapshot: Some(snapshot) }),
    ensures
        event == (SaveEvent::Saved { snapshot }),
{
}

/// What happens to the prompt and its snapshot.
#[derive(Clone, Copy, Debug, PartialEq, Eq, Structural)]
pub enum InsertAction {
    Nothing,
    /// Free the snapshot: only the skipped insert would have referenced it.
    FreeSnapshot { snapshot: usize },
    InsertWithSnapshot { snapshot: usize },
    InsertPlain,
}

/// What happens to the prompt and its snapshot.
pub open spec fn insert_action_spec(snapshot: Option<usize>, vision: bool, slid: bool) -> InsertAction {
    match snapshot {
        Some(s) => if vision || slid {
            InsertAction::FreeSnapshot { snapshot: s }
        } else {
            InsertAction::InsertWithSnapshot { snapshot: s }
        },
        None => if vision || slid {
            InsertAction::Nothing
        } else {
            InsertAction::InsertPlain
        },
    }
}

/// What happens to the prompt and its snapshot. A vision prompt is not inserted, since the cache
/// sees token ids and not pixels, and neither is a sequence whose window slid, since its block
/// table no longer parallels the tokens.
pub fn insert_action(snapshot: Option<usize>, vision: bool, slid: bool) -> (r: InsertAction)
    ensures
        r == insert_action_spec(snapshot, vision, slid),
{
    match snapshot {
        Some(s) => if vision || slid {
            InsertAction::FreeSnapshot { snapshot: s }
        } else {
            InsertAction::InsertWithSnapshot { snapshot: s }
        },
        None => if vision || slid {
            InsertAction::Nothing
        } else {
            InsertAction::InsertPlain
        },
    }
}

/// A prompt with vision pads, or a sequence whose window has slid, is never inserted, and a
/// snapshot saved for it is freed; every other prompt is inserted, with its snapshot if it has
/// one.
pub proof fn only_clean_prompts_are_inserted(snapshot: Option<usize>, vision: bool, slid: bool)
    ensures
        (vision || slid) ==> !(insert_action_spec(snapshot, vision, slid) is InsertPlain) && !(
        insert_action_spec(snapshot, vision, slid) is InsertWithSnapshot),
        (vision || slid) && snapshot is Some ==> insert_action_spec(snapshot, vision, slid) == (
        InsertAction::FreeSnapshot { snapshot: snapshot->0 }),
        !vision && !slid ==> (insert_action_spec(snapshot, vision, slid) is InsertPlain
            <==> snapshot is None) && (insert_action_spec(snapshot, vision, slid) is InsertWithSnapshot
            <==> snapshot is Some),
{
}

/// A save ends after two tries at most. It ends with a snapshot exactly when a try saved one, and
/// with that one; a full pool is reclaimed once; and an ended save stays as it ended.
pub proof fn saves_try_twice_at_most(phase: SavePhase, event: SaveEvent, r: SavePhase)
    requires
        call_ensures(save_step, (phase, event), r),
    ensures
        phase is First && event is Full ==> r is Reclaim,
        r is Reclaim ==> phase is First && event is Full,
        phase is Reclaim && event is Reclaimed ==> r is Second,
        r is Second ==> phase is Reclaim && event is Reclaimed,
        !(r is First),
        phase is Done ==> r == phase,
        !(phase is Done) && (event matches SaveEvent::Saved { snapshot } && !(phase is Reclaim))
            ==> r == (SavePhase::Done { snapshot: Some(event->snapshot) }),
        !(phase is Done) && (r matches SavePhase::Done { snapshot } && snapshot is Some)
            ==> event is Saved,
{
}

/// A prompt is inserted exactly when it has no vision rows and its window has not slid, with its
/// snapshot if there is one; a snapshot that is not inserted is freed.
pub proof fn snapshots_are_inserted_or_freed(
    snapshot: Option<usize>,
    vision: bool,
    slid: bool,
    r: InsertAction,
)
    requires
        call_ensures(insert_action, (snapshot, vision, slid), r),
    ensures
        r is InsertPlain || r is InsertWithSnapshot <==> !vision && !slid,
        r matches InsertAction::InsertWithSnapshot { snapshot: s } ==> snapshot == Some(s),
        r matches InsertAction::FreeSnapshot { snapshot: s } ==> snapshot == Some(s),
        snapshot is Some <==> r is InsertWithSnapshot || r is FreeSnapshot,
{
}

} // verus!
