//! The rank-agreed decision whether a prefix-cache hit restores a recurrent-state snapshot, and
//! at which depth.
//!
//! Ranks that restore different depths process different token counts, and their collectives no
//! longer pair up. So each rank folds its local gates into one proposal, the depth it can restore
//! or `0`, the proposals are exchanged, and a snapshot is restored only when every rank proposed
//! the same nonzero depth. A minimum could pick a depth some rank does not hold.

use vstd::prelude::*;

verus! {

/// The rank-local inputs to the restore decision.
#[derive(Debug, Clone, Copy)]
pub struct LocalGates {
    /// Depth of this rank's candidate snapshot; `0` when it holds none for the matched prefix.
    pub snap_tok: usize,
    /// Matched prefix length (on a multi-rank world, the minimum over ranks).
    pub matched: usize,
    /// Prompt length.
    pub total: usize,
    /// A shallower snapshot is not restored.
    pub min_tokens: usize,
    /// The candidate carries a stashed last-token hidden.
    pub has_hidden: bool,
    /// The exact full-prompt restore is enabled.
    pub exact_enabled: bool,
    /// The candidate is a session tail snapshot.
    pub is_tail: bool,
    /// The candidate's session tag admits this sequence.
    pub session_ok: bool,
    /// Some layer carries per-sequence auxiliary state.
    pub needs_aux: bool,
    /// The candidate stored auxiliary state.
    pub has_aux: bool,
}

impl LocalGates {
    /// Whether the candidate covers the whole prompt.
    pub open spec fn exact(&self) -> bool {
        self.snap_tok == self.matched && self.matched == self.total
    }

    /// Whether this rank can restore its candidate.
    pub open spec fn admits(&self) -> bool {
        &&& self.snap_tok > 0
        &&& self.snap_tok >= self.min_tokens
        &&& self.matched <= self.total
        &&& self.exact() ==> self.has_hidden && self.exact_enabled
        &&& self.is_tail ==> self.session_ok
        &&& self.needs_aux ==> self.has_aux
    }

    /// The proposal of this rank.
    pub open spec fn proposal(&self) -> u32 {
        if self.admits() {
            self.snap_tok as u32
        } else {
            0
        }
    }
}

/// This rank's proposal: the snapshot depth it can restore, or `0`. All gates are evaluated here,
/// before the exchange, so no rank declines after the agreement.
pub fn local_proposal(g: &LocalGates) -> (r: u32)
    ensures
        r == g.proposal(),
{
    if g.snap_tok == 0 {
        return 0;
    }
    let exact: bool = g.snap_tok == g.matched && g.matched == g.total;
    let exact_without_hidden: bool = exact && !g.has_hidden;
    let bypass_exact: bool = exact && !g.exact_enabled;
    let ok: bool = g.snap_tok >= g.min_tokens && g.matched <= g.total && !exact_without_hidden
        && !bypass_exact && (!g.is_tail || g.session_ok) && (!g.needs_aux || g.has_aux);
    if ok {
        g.snap_tok as u32
    } else {
        0
    }
}

/// The agreement over every rank's proposal: the depth they all propose, if it is not zero.
pub open spec fn agree_spec(proposals: Seq<u32>) -> Option<u32> {
    if proposals.len() > 0 && proposals[0] != 0 && forall|i: int|
        0 <= i < proposals.len() ==> #[trigger] proposals[i] == proposals[0] {
        Some(proposals[0])
    } else {
        None
    }
}

/// All-or-nothing agreement over every rank's proposal, this rank's included: `Some(T)` if and
/// only if every rank proposed the same nonzero `T`.
pub fn agree(proposals: &[u32]) -> (r: Option<u32>)
    ensures
        r == agree_spec(proposals@),
{
    if proposals.len() == 0 {
        return None;
    }
    let first: u32 = proposals[0];
    if first == 0 {
        return None;
    }
    let mut i: usize = 0;
    while i < proposals.len()
        invariant
            proposals@.len() > 0,
            first == proposals@[0],
            i <= proposals@.len(),
            forall|j: int| 0 <= j < i ==> #[trigger] proposals@[j] == first,
        decreases proposals@.len() - i,
    {
        if proposals[i] != first {
            assert(proposals@[i as int] != proposals@[0]);
            return None;
        }
        i = i + 1;
    }
    Some(first)
}

/// A snapshot is restored only at a depth every rank holds and admits: when the proposals of all
/// ranks agree on `t`, every rank passed its own gates with a candidate of depth `t`.
pub proof fn agreed_depth_is_held_by_every_rank(gates: Seq<LocalGates>, votes: Seq<u32>, t: u32)
    requires
        votes.len() == gates.len(),
        forall|i: int| 0 <= i < gates.len() ==> #[trigger] votes[i] == gates[i].proposal(),
        agree_spec(votes) == Some(t),
    ensures
        t != 0,
        forall|i: int|
            0 <= i < gates.len() ==> (#[trigger] gates[i]).admits() && gates[i].snap_tok as u32 == t,
{
    assert forall|i: int| 0 <= i < gates.len() implies (#[trigger] gates[i]).admits()
        && gates[i].snap_tok as u32 == t by {
        assert(votes[i] == votes[0]);
    }
}

/// One rank that declines, or that proposes another depth, makes every rank recompute.
pub proof fn one_dissent_declines_everywhere(votes: Seq<u32>, i: int, j: int)
    requires
        0 <= i < votes.len(),
        0 <= j < votes.len(),
        votes[i] == 0 || votes[i] != votes[j],
    ensures
        agree_spec(votes) is None,
{
}

/// The agreement does not depend on the order of the ranks.
pub proof fn agreement_ignores_rank_order(a: Seq<u32>, b: Seq<u32>)
    requires
        a.len() == b.len(),
        forall|i: int| 0 <= i < a.len() ==> b.contains(#[trigger] a[i]),
        forall|i: int| 0 <= i < b.len() ==> a.contains(#[trigger] b[i]),
    ensures
        agree_spec(a) == agree_spec(b),
{
    if a.len() > 0 {
        assert(b.contains(a[0]));
        assert(a.contains(b[0]));
        if agree_spec(a) is Some {
            assert forall|i: int| 0 <= i < b.len() implies #[trigger] b[i] == b[0] by {
                assert(a.contains(b[i]));
                assert(a[a.index_of(b[i])] == a[0]);
                assert(a[a.index_of(b[0])] == a[0]);
            }
        }
        if agree_spec(b) is Some {
            assert forall|i: int| 0 <= i < a.len() implies #[trigger] a[i] == a[0] by {
                assert(b.contains(a[i]));
                assert(b[b.index_of(a[i])] == b[0]);
                assert(b[b.index_of(a[0])] == b[0]);
            }
        }
    }
}

/// The position the suffix prefill resumes from.
pub open spec fn skip_point_spec(
    skip: bool,
    snap_tok: usize,
    matched: usize,
    total: usize,
    has_ssm: bool,
) -> usize {
    if !skip {
        0
    } else if !has_ssm || (matched == total && snap_tok == matched) {
        matched
    } else {
        snap_tok
    }
}

/// The position the suffix prefill resumes from, given the agreed decision. A function of
/// rank-agreed inputs alone, so the replay length is the same on every rank.
pub fn skip_point(
    skip: bool,
    snap_tok: usize,
    matched: usize,
    total: usize,
    has_ssm: bool,
) -> (r: usize)
    ensures
        r == skip_point_spec(skip, snap_tok, matched, total, has_ssm),
{
    if skip && !has_ssm {
        matched
    } else if skip && matched == total && snap_tok == matched {
        matched
    } else if skip {
        snap_tok
    } else {
        0
    }
}

/// What a rank does next in a gather.
#[derive(Clone, Copy, Debug, PartialEq, Eq, Structural)]
pub enum GatherAction {
    /// Broadcast this word as the root.
    Send { root: usize, word: u32 },
    /// Take part in the broadcast of this root and hand in the word it brought.
    Receive { root: usize },
    /// Every root has broadcast.
    Done,
}

/// Collects one word from every rank with one rooted broadcast per rank: root `r` contributes
/// element `r`.
pub struct Gather {
    pub rank: usize,
    pub world: usize,
    pub val: u32,
    pub out: Vec<u32>,
}

impl Gather {
    /// The words collected so far come from the first roots, this rank's own among them.
    pub open spec fn wf(&self) -> bool {
        &&& self.out@.len() <= self.world
        &&& self.rank < self.out@.len() ==> self.out@[self.rank as int] == self.val
    }

    /// Begin a gather of `val` from rank `rank` of `world`.
    pub fn start(rank: usize, world: usize, val: u32) -> (r: Gather)
        ensures
            r.wf(),
            r.rank == rank,
            r.world == world,
            r.val == val,
            r.out@.len() == 0,
    {
        Gather { rank, world, val, out: Vec::new() }
    }

    /// What this rank does in the next broadcast.
    pub fn action(&self) -> (r: GatherAction)
        ensures
            r == if self.out@.len() >= self.world {
                GatherAction::Done
            } else if self.out@.len() == self.rank {
                (GatherAction::Send { root: self.rank, word: self.val })
            } else {
                (GatherAction::Receive { root: self.out@.len() as usize })
            },
    {
        let root: usize = self.out.len();
        if root >= self.world {
            GatherAction::Done
        } else if root == self.rank {
            GatherAction::Send { root, word: self.val }
        } else {
            GatherAction::Receive { root }
        }
    }

    /// Finish the current broadcast; `received` is the word it brought, which the root itself
    /// does not read.
    pub fn finish(&mut self, received: u32)
        requires
            old(self).wf(),
            old(self).out@.len() < old(self).world,
        ensures
            final(self).wf(),
            final(self).rank == old(self).rank,
            final(self).world == old(self).world,
            final(self).val == old(self).val,
            final(self).out@ == old(self).out@.push(
                if old(self).out@.len() == old(self).rank {
                    old(self).val
                } else {
                    received
                },
            ),
    {
        let word: u32 = if self.out.len() == self.rank {
            self.val
        } else {
            received
        };
        self.out.push(word);
    }
}

/// The words rank `rank` has collected when root `r`'s broadcast brings `vals[r]` to every other
/// rank, for the first `n` roots.
pub open spec fn collected(rank: int, own: u32, vals: Seq<u32>, n: int) -> Seq<u32>
    decreases n,
{
    if n <= 0 {
        Seq::empty()
    } else {
        collected(rank, own, vals, n - 1).push(
            if n - 1 == rank {
                own
            } else {
                vals[n - 1]
            },
        )
    }
}

/// Every rank collects the same words: rank `r`'s own value at place `r`, whichever rank looks.
/// So any function of them is a rank-agreed decision.
pub proof fn every_rank_collects_the_same(vals: Seq<u32>, a: int, n: int)
    requires
        0 <= a < vals.len(),
        0 <= n <= vals.len(),
    ensures
        collected(a, vals[a], vals, n) == vals.subrange(0, n),
    decreases n,
{
    if n > 0 {
        every_rank_collects_the_same(vals, a, n - 1);
        assert(vals.subrange(0, n) =~= vals.subrange(0, n - 1).push(vals[n - 1]));
    } else {
        assert(vals.subrange(0, 0) =~= Seq::empty());
    }
}

/// Ranks of the communicator a gather runs over. A tensor-parallel world has one expert rank but
/// a communicator as wide as its tensor ranks. Without a communicator there is one rank.
pub fn gather_world(has_comm: bool, ep_world_size: usize, tp_world_size: usize) -> (r: usize)
    ensures
        r == if !has_comm {
            1
        } else if ep_world_size >= tp_world_size {
            ep_world_size
        } else {
            tp_world_size
        },
{
    if !has_comm {
        1
    } else if ep_world_size >= tp_world_size {
        ep_world_size
    } else {
        tp_world_size
    }
}

/// A rank proposes the depth of the snapshot it holds, and only one it can restore: not deeper
/// than nothing, not too shallow, of a match inside the prompt, of its own session if it is a
/// session's tail, with auxiliary state where that is needed, and the whole prompt only with the
/// last token's hidden row and when that is enabled. Whatever passes is proposed.
pub proof fn ranks_propose_what_they_can_restore(g: &LocalGates, r: u32)
    requires
        call_ensures(local_proposal, (g,), r),
        g.snap_tok <= u32::MAX,
    ensures
        r == 0 || r == g.snap_tok,
        r > 0 ==> {
            &&& g.snap_tok >= g.min_tokens
            &&& g.matched <= g.total
            &&& g.is_tail ==> g.session_ok
            &&& g.needs_aux ==> g.has_aux
            &&& g.snap_tok == g.matched && g.matched == g.total ==> g.has_hidden && g.exact_enabled
        },
        r == 0 ==> g.snap_tok == 0 || g.snap_tok < g.min_tokens || g.matched > g.total || (
        g.is_tail && !g.session_ok) || (g.needs_aux && !g.has_aux) || (g.snap_tok == g.matched
            && g.matched == g.total && !(g.has_hidden && g.exact_enabled)),
{
}

/// The ranks agree exactly on a nonzero depth that all of them proposed.
pub proof fn agreement_is_unanimous(proposals: &[u32], r: Option<u32>, t: u32)
    requires
        call_ensures(agree, (proposals,), r),
    ensures
        r == Some(t) <==> t != 0 && proposals@.len() > 0 && forall|i: int|
            0 <= i < proposals@.len() ==> #[trigger] proposals@[i] == t,
{
    if t != 0 && proposals@.len() > 0 && forall|i: int|
        0 <= i < proposals@.len() ==> #[trigger] proposals@[i] == t {
        assert(proposals@[0] == t);
    }
}

/// The suffix resumes where all state is: at the restored depth with recurrent layers, past the
/// match without them, and at the start without a skip.
pub proof fn the_skip_point_is_where_state_is(
    skip: bool,
    snap_tok: usize,
    matched: usize,
    total: usize,
    has_ssm: bool,
    r: usize,
)
    requires
        call_ensures(skip_point, (skip, snap_tok, matched, total, has_ssm), r),
    ensures
        !skip ==> r == 0,
        skip && has_ssm ==> r == snap_tok,
        skip && !has_ssm ==> r == matched,
{
}

/// Every rank sends its own word as its own root, receives from every other root in turn, and
/// ends with one word per rank: its own at its own place, and the received one at each other.
pub proof fn gathers_place_each_word_at_its_root(
    g: &mut Gather,
    received: u32,
    action: GatherAction,
    i: int,
)
    requires
        call_ensures(Gather::finish, (g, received), ()),
        call_ensures(Gather::action, (old(g), ), action),
        old(g).out@.len() < old(g).world,
    ensures
        final(g).out@.len() == old(g).out@.len() + 1,
        0 <= i < old(g).out@.len() ==> final(g).out@[i] == old(g).out@[i],
        match action {
            GatherAction::Send { root, word } => {
                &&& root == old(g).rank
                &&& root == old(g).out@.len()
                &&& word == old(g).val
                &&& final(g).out@[root as int] == word
            },
            GatherAction::Receive { root } => {
                &&& root != old(g).rank
                &&& root == old(g).out@.len() as usize
                &&& final(g).out@.last() == received
            },
            GatherAction::Done => false,
        },
        final(g).rank == old(g).rank,
        final(g).val == old(g).val,
        final(g).world == old(g).world,
{
    let n = old(g).out.len();
    assert(n == old(g).out@.len());
}

/// A gather is done exactly when every rank of the world has sent.
pub proof fn gathers_end_after_every_root(g: &Gather, action: GatherAction)
    requires
        call_ensures(Gather::action, (g,), action),
    ensures
        action is Done <==> g.out@.len() >= g.world,
{
}

/// A gather spans the whole communicator: as many ranks as the wider of the two worlds, and one
/// rank without a communicator.
pub proof fn gathers_span_the_communicator(
    has_comm: bool,
    ep_world_size: usize,
    tp_world_size: usize,
    r: usize,
)
    requires
        call_ensures(gather_world, (has_comm, ep_world_size, tp_world_size), r),
    ensures
        !has_comm ==> r == 1,
        has_comm ==> r >= ep_world_size && r >= tp_world_size && (r == ep_world_size || r
            == tp_world_size),
{
}

} // verus!
