//! The batched verify's graph cache: which captured graph a step replays, when it may borrow a
//! wider one with ghost rows, and what a new capture evicts.

use vstd::prelude::*;

use crate::verify_switches::{VERIFY_BATCHED_GRAPH_CAP, VERIFY_ROW_CAP};

verus! {

/// What the batched verify did with its graph on one step.
#[derive(Clone, Copy, Debug, PartialEq, Eq, Structural)]
pub enum VerifyGraphOutcome {
    /// Exact key hit: the forward replayed.
    Replay,
    /// A wider captured key replayed with ghost rows.
    Borrow,
    /// Miss: the forward ran under capture and the new graph was inserted.
    Capture,
    /// No graph ran.
    Eager,
}

/// A graph captured for one batch, with the tick of its last use.
pub struct BatchGraph {
    pub key: Vec<u32>,
    pub graph: u64,
    pub tick: u64,
}

/// Graphs keyed by batch, with a use counter.
pub struct BatchGraphs {
    pub entries: Vec<BatchGraph>,
    pub tick: u64,
}

/// Key, graph and last-use tick of one entry.
pub type GraphRecord = (Seq<u32>, u64, u64);

/// Key, graph and last-use tick of every entry.
pub open spec fn records(s: Seq<BatchGraph>) -> Seq<GraphRecord> {
    Seq::new(s.len(), |i: int| (s[i].key@, s[i].graph, s[i].tick))
}

/// Whether record `i` is the one for `key`.
pub open spec fn record_at(m: Seq<GraphRecord>, key: Seq<u32>, i: int) -> bool {
    0 <= i < m.len() && m[i].0 == key
}

/// Index of the record for `key`, if there is one.
pub open spec fn record_of(m: Seq<GraphRecord>, key: Seq<u32>) -> Option<int> {
    if exists|i: int| record_at(m, key, i) {
        Some(choose|i: int| record_at(m, key, i))
    } else {
        None
    }
}

/// Keys and last-use ticks are unique, no tick lies ahead of the counter, and no graph is null.
pub open spec fn records_ok(m: Seq<GraphRecord>, tick: u64) -> bool {
    &&& forall|i: int, j: int|
        0 <= i < j < m.len() ==> (#[trigger] m[i]).0 != (#[trigger] m[j]).0
    &&& forall|i: int, j: int|
        0 <= i < j < m.len() ==> (#[trigger] m[i]).2 != (#[trigger] m[j]).2
    &&& forall|i: int| 0 <= i < m.len() ==> (#[trigger] m[i]).2 <= tick && m[i].1 != 0
}

/// Whether record `i` is the least recently used one.
pub open spec fn is_lru(m: Seq<GraphRecord>, i: int) -> bool {
    0 <= i < m.len() && forall|j: int| 0 <= j < m.len() ==> m[i].2 <= (#[trigger] m[j]).2
}

/// There is at most one least recently used record.
pub proof fn lru_is_unique(m: Seq<GraphRecord>, tick: u64, i: int, j: int)
    requires
        records_ok(m, tick),
        is_lru(m, i),
        is_lru(m, j),
    ensures
        i == j,
{
    assert(m[i].2 <= m[j].2 && m[j].2 <= m[i].2);
    if i < j {
        assert(m[i].2 != m[j].2);
    }
    if j < i {
        assert(m[j].2 != m[i].2);
    }
}

proof fn lemma_record_unique(m: Seq<GraphRecord>, tick: u64, key: Seq<u32>, i: int)
    requires
        records_ok(m, tick),
        record_at(m, key, i),
    ensures
        record_of(m, key) == Some(i),
{
    let j = choose|j: int| record_at(m, key, j);
    assert(record_at(m, key, j));
    if i < j {
        assert(m[i].0 != m[j].0);
    }
    if j < i {
        assert(m[j].0 != m[i].0);
    }
}

/// Whether two word lists are equal.
pub fn same_words(a: &Vec<u32>, b: &Vec<u32>) -> (r: bool)
    ensures
        r == (a@ == b@),
{
    if a.len() != b.len() {
        return false;
    }
    let mut i: usize = 0;
    while i < a.len()
        invariant
            a@.len() == b@.len(),
            i <= a@.len(),
            forall|j: int| 0 <= j < i ==> a@[j] == b@[j],
        decreases a@.len() - i,
    {
        if a[i] != b[i] {
            return false;
        }
        i = i + 1;
    }
    assert(a@ =~= b@);
    true
}

/// A wider captured key whose first pairs are the batch's, with its extra `(slot, rows)` pairs.
pub struct BorrowCandidate {
    pub key: Vec<u32>,
    pub ghosts: Vec<(u32, u32)>,
}

/// The graph to replay, the ghost pairs it needs, and what was decided.
pub struct GraphPick {
    pub replay: Option<u64>,
    pub ghosts: Vec<(u32, u32)>,
    pub outcome: VerifyGraphOutcome,
}

/// Rows of a list of `(slot, rows)` pairs.
pub open spec fn ghost_rows_spec(ghosts: Seq<(u32, u32)>) -> int
    decreases ghosts.len(),
{
    if ghosts.len() == 0 {
        0
    } else {
        ghost_rows_spec(ghosts.drop_last()) + ghosts.last().1
    }
}

/// Rows of a list of `(slot, rows)` pairs, or `None` when they are more than a batched verify
/// may add to `r_total`.
pub fn ghost_rows_within(r_total: usize, ghosts: &Vec<(u32, u32)>) -> (r: Option<usize>)
    ensures
        r matches Some(n) ==> n == ghost_rows_spec(ghosts@) && r_total + n <= VERIFY_ROW_CAP,
        r is None ==> r_total + ghost_rows_spec(ghosts@) > VERIFY_ROW_CAP,
{
    if r_total > VERIFY_ROW_CAP {
        proof {
            lemma_ghost_rows_nonneg(ghosts@);
        }
        return None;
    }
    let mut rows: usize = 0;
    let mut i: usize = 0;
    while i < ghosts.len()
        invariant
            r_total <= VERIFY_ROW_CAP,
            i <= ghosts@.len(),
            rows == ghost_rows_spec(ghosts@.subrange(0, i as int)),
            r_total + rows <= VERIFY_ROW_CAP,
        decreases ghosts@.len() - i,
    {
        let k: u32 = ghosts[i].1;
        assert(ghosts@.subrange(0, i + 1).drop_last() =~= ghosts@.subrange(0, i as int));
        if k as usize > VERIFY_ROW_CAP - r_total - rows {
            proof {
                lemma_ghost_rows_mono(ghosts@, i + 1);
            }
            return None;
        }
        rows = rows + k as usize;
        i = i + 1;
    }
    assert(ghosts@.subrange(0, i as int) =~= ghosts@);
    Some(rows)
}

proof fn lemma_ghost_rows_nonneg(g: Seq<(u32, u32)>)
    ensures
        ghost_rows_spec(g) >= 0,
    decreases g.len(),
{
    if g.len() > 0 {
        lemma_ghost_rows_nonneg(g.drop_last());
    }
}

proof fn lemma_ghost_rows_mono(g: Seq<(u32, u32)>, n: int)
    requires
        0 <= n <= g.len(),
    ensures
        ghost_rows_spec(g.subrange(0, n)) <= ghost_rows_spec(g),
    decreases g.len() - n,
{
    if n < g.len() {
        lemma_ghost_rows_mono(g, n + 1);
        assert(g.subrange(0, n + 1).drop_last() =~= g.subrange(0, n));
    } else {
        assert(g.subrange(0, n) =~= g);
    }
}

/// Whether a borrowed graph may use `(slot, k)` as a ghost: the slot is free and, with pointer
/// tables staged, its intermediate pool covers the ghost's depth.
pub fn ghost_slot_ok(slot_free: bool, wy_present: bool, h_inter_count: usize, k: u32) -> (r: bool)
    ensures
        r == (slot_free && (!wy_present || h_inter_count + 1 >= k)),
{
    slot_free && (!wy_present || k == 0 || h_inter_count >= (k as usize) - 1)
}

impl BatchGraphs {
    /// Key, graph and last-use tick of every entry.
    pub open spec fn view(&self) -> Seq<GraphRecord> {
        records(self.entries@)
    }

    /// The cache's invariant.
    pub open spec fn wf(&self) -> bool {
        records_ok(self@, self.tick)
    }

    /// An empty cache.
    pub fn new() -> (r: BatchGraphs)
        ensures
            r.wf(),
            r@.len() == 0,
            r.tick == 0,
    {
        BatchGraphs { entries: Vec::new(), tick: 0 }
    }

    /// Index of the entry for `key`.
    pub fn find(&self, key: &Vec<u32>) -> (r: Option<usize>)
        requires
            self.wf(),
        ensures
            r matches Some(i) ==> record_of(self@, key@) == Some(i as int) && i < self.entries@.len(),
            r is None ==> record_of(self@, key@) is None,
    {
        let mut i: usize = 0;
        while i < self.entries.len()
            invariant
                self.wf(),
                i <= self.entries@.len(),
                forall|j: int| 0 <= j < i ==> !record_at(self@, key@, j),
            decreases self.entries@.len() - i,
        {
            if same_words(&self.entries[i].key, key) {
                proof {
                    lemma_record_unique(self@, self.tick, key@, i as int);
                }
                return Some(i);
            }
            i = i + 1;
        }
        None
    }

    /// Advance the use counter.
    fn bump(&mut self)
        requires
            old(self).wf(),
            old(self).tick < u64::MAX,
        ensures
            final(self).wf(),
            final(self)@ == old(self)@,
            final(self).tick == old(self).tick + 1,
            forall|i: int| 0 <= i < final(self)@.len() ==> (#[trigger] final(self)@[i]).2 < final(self).tick,
    {
        self.tick = self.tick + 1;
        assert(self@ =~= old(self)@);
    }

    /// Mark entry `i` as used now and return its graph.
    fn use_entry(&mut self, i: usize) -> (graph: u64)
        requires
            old(self).wf(),
            i < old(self)@.len(),
            forall|j: int| 0 <= j < old(self)@.len() ==> (#[trigger] old(self)@[j]).2 < old(self).tick,
        ensures
            final(self).wf(),
            final(self).tick == old(self).tick,
            graph == old(self)@[i as int].1,
            graph != 0,
            final(self)@ == old(self)@.update(
                i as int,
                (old(self)@[i as int].0, old(self)@[i as int].1, old(self).tick),
            ),
    {
        let tick: u64 = self.tick;
        let ghost before = self@;
        self.entries[i].tick = tick;
        assert(self@ =~= before.update(i as int, (before[i as int].0, before[i as int].1, tick)));
        self.entries[i].graph
    }

    /// Index of the least recently used entry.
    fn lru(&self) -> (r: usize)
        requires
            self@.len() > 0,
        ensures
            is_lru(self@, r as int),
    {
        let mut best: usize = 0;
        let mut i: usize = 1;
        while i < self.entries.len()
            invariant
                1 <= i <= self.entries@.len(),
                best < i,
                forall|j: int| 0 <= j < i ==> self@[best as int].2 <= (#[trigger] self@[j]).2,
            decreases self.entries@.len() - i,
        {
            if self.entries[i].tick < self.entries[best].tick {
                best = i;
            }
            i = i + 1;
        }
        best
    }

    /// Remove entry `i` and return its graph.
    fn remove_at(&mut self, i: usize) -> (graph: u64)
        requires
            old(self).wf(),
            i < old(self)@.len(),
        ensures
            final(self).wf(),
            final(self).tick == old(self).tick,
            graph == old(self)@[i as int].1,
            final(self)@ == old(self)@.remove(i as int),
    {
        let ghost before = self@;
        let gone = self.entries.remove(i);
        assert(self@ =~= before.remove(i as int));
        proof {
            lemma_remove_ok(before, self.tick, i as int);
        }
        gone.graph
    }

    /// The replay decision of one batched verify.
    ///
    /// Without a key no graph is used. With one, the use counter advances; an exact hit replays
    /// and is marked as used. On a miss a borrowable wider key replays with its ghost rows, when
    /// borrowing is enabled, the rows fit and the streak limit allows it. `candidate` is what the
    /// search over the captured keys found.
    pub fn pick_verify_graph(
        &mut self,
        graph_key: &Option<Vec<u32>>,
        candidate: Option<BorrowCandidate>,
        borrow_enabled: bool,
        streak_allows: bool,
        r_total: usize,
    ) -> (r: GraphPick)
        requires
            old(self).wf(),
            graph_key is Some ==> old(self).tick < u64::MAX,
            candidate matches Some(b) ==> record_of(old(self)@, b.key@) is Some,
        ensures
            final(self).wf(),
            pick_spec(
                old(self)@,
                old(self).tick,
                *graph_key,
                candidate,
                borrow_enabled,
                streak_allows,
                r_total as int,
                final(self)@,
                final(self).tick,
                r,
            ),
    {
        match graph_key {
            None => GraphPick {
                replay: None,
                ghosts: Vec::new(),
                outcome: VerifyGraphOutcome::Eager,
            },
            Some(key) => {
                self.bump();
                if let Some(i) = self.find(key) {
                    let graph: u64 = self.use_entry(i);
                    return GraphPick {
                        replay: Some(graph),
                        ghosts: Vec::new(),
                        outcome: VerifyGraphOutcome::Replay,
                    };
                }
                if borrow_enabled && streak_allows {
                    if let Some(b) = candidate {
                        if ghost_rows_within(r_total, &b.ghosts).is_some() {
                            if let Some(i) = self.find(&b.key) {
                                let graph: u64 = self.use_entry(i);
                                return GraphPick {
                                    replay: Some(graph),
                                    ghosts: b.ghosts,
                                    outcome: VerifyGraphOutcome::Borrow,
                                };
                            }
                        }
                    }
                }
                GraphPick { replay: None, ghosts: Vec::new(), outcome: VerifyGraphOutcome::Eager }
            },
        }
    }

    /// Keep the graph of a finished capture.
    ///
    /// A null graph changes nothing. Otherwise the graph is to be launched and, with a key, it is
    /// inserted under it; at the cap the least recently used graph is dropped first and handed
    /// back to be destroyed.
    pub fn finish_verify_capture(
        &mut self,
        graph_key: Option<Vec<u32>>,
        graph: u64,
        outcome: VerifyGraphOutcome,
    ) -> (r: CaptureEnd)
        requires
            old(self).wf(),
            graph_key is Some ==> old(self).tick < u64::MAX,
        ensures
            final(self).wf(),
            old(self)@.len() <= VERIFY_BATCHED_GRAPH_CAP ==> final(self)@.len()
                <= VERIFY_BATCHED_GRAPH_CAP,
            r.launch == (graph != 0),
            (graph == 0 || graph_key is None) ==> r.evicted is None && r.outcome == outcome
                && final(self)@ == old(self)@ && final(self).tick == old(self).tick,
            (graph != 0 && graph_key is Some) ==> {
                &&& r.outcome == VerifyGraphOutcome::Capture
                &&& final(self).tick == old(self).tick + 1
                &&& old(self)@.len() < VERIFY_BATCHED_GRAPH_CAP ==> r.evicted is None
                    && final(self)@ == with_record(
                    old(self)@,
                    (graph_key->0@, graph, final(self).tick),
                )
                &&& old(self)@.len() >= VERIFY_BATCHED_GRAPH_CAP ==> exists|i: int|
                    {
                        &&& #[trigger] is_lru(old(self)@, i)
                        &&& r.evicted == Some(old(self)@[i].1)
                        &&& final(self)@ == with_record(
                            old(self)@.remove(i),
                            (graph_key->0@, graph, final(self).tick),
                        )
                    }
            },
    {
        if graph == 0 {
            return CaptureEnd { evicted: None, launch: false, outcome };
        }
        match graph_key {
            None => CaptureEnd { evicted: None, launch: true, outcome },
            Some(key) => {
                let mut evicted: Option<u64> = None;
                let ghost mut gone: int = 0;
                if self.entries.len() >= VERIFY_BATCHED_GRAPH_CAP {
                    let i: usize = self.lru();
                    proof {
                        gone = i as int;
                    }
                    let old_graph: u64 = self.remove_at(i);
                    evicted = Some(old_graph);
                }
                let ghost kept = self@;
                self.bump();
                let tick: u64 = self.tick;
                match self.find(&key) {
                    Some(i) => {
                        self.entries[i].graph = graph;
                        self.entries[i].tick = tick;
                        assert(self@ =~= kept.update(i as int, (key@, graph, tick)));
                    },
                    None => {
                        let ghost words = key@;
                        self.entries.push(BatchGraph { key, graph, tick });
                        assert(self@ =~= kept.push((words, graph, tick)));
                        proof {
                            lemma_push_ok(kept, tick, (words, graph, tick));
                        }
                    },
                }
                proof {
                    if old(self)@.len() >= VERIFY_BATCHED_GRAPH_CAP {
                        assert(is_lru(old(self)@, gone));
                    }
                }
                CaptureEnd { evicted, launch: true, outcome: VerifyGraphOutcome::Capture }
            },
        }
    }

    /// Drop every graph whose key names `slot` and return the dropped graphs.
    pub fn remove_slot(&mut self, slot: u32) -> (r: Vec<u64>)
        requires
            old(self).wf(),
        ensures
            final(self).wf(),
            final(self).tick == old(self).tick,
            r@ == graphs_naming(old(self)@, slot),
            final(self)@ == records_not_naming(old(self)@, slot),
    {
        let ghost before = self@;
        let ghost mut n: int = 0;
        let mut removed: Vec<u64> = Vec::new();
        let mut i: usize = 0;
        proof {
            lemma_naming_empty(slot);
            assert(before.subrange(0, 0) =~= Seq::empty());
            assert(self@ =~= records_not_naming(before.subrange(0, 0), slot) + before.subrange(
                0,
                before.len() as int,
            ));
        }
        while i < self.entries.len()
            invariant
                self.wf(),
                self.tick == old(self).tick,
                before == old(self)@,
                0 <= n <= before.len(),
                i == records_not_naming(before.subrange(0, n), slot).len(),
                self@ == records_not_naming(before.subrange(0, n), slot) + before.subrange(
                    n,
                    before.len() as int,
                ),
                removed@ == graphs_naming(before.subrange(0, n), slot),
            decreases before.len() - n,
        {
            let ghost head = records_not_naming(before.subrange(0, n), slot);
            let ghost tail = before.subrange(n + 1, before.len() as int);
            let ghost x = before[n];
            let ghost cur = self@;
            assert(cur.len() == self.entries@.len());
            assert(cur[i as int] == x);
            proof {
                lemma_naming_push(before.subrange(0, n), x, slot);
                assert(before.subrange(0, n + 1) =~= before.subrange(0, n).push(x));
            }
            if names_slot(&self.entries[i].key, slot) {
                let graph: u64 = self.remove_at(i);
                removed.push(graph);
                assert(self@ =~= head + tail);
            } else {
                i = i + 1;
                assert(self@ =~= head.push(x) + tail);
            }
            proof {
                n = n + 1;
            }
        }
        assert(before.subrange(0, n) =~= before);
        assert(self@ =~= records_not_naming(before, slot));
        removed
    }
}

/// Whether a key names a slot.
pub fn names_slot(key: &Vec<u32>, slot: u32) -> (r: bool)
    ensures
        r == key@.contains(slot),
{
    let mut i: usize = 0;
    while i < key.len()
        invariant
            i <= key@.len(),
            forall|j: int| 0 <= j < i ==> key@[j] != slot,
        decreases key@.len() - i,
    {
        if key[i] == slot {
            assert(key@[i as int] == slot);
            return true;
        }
        i = i + 1;
    }
    false
}

/// What finishing a capture asks for.
pub struct CaptureEnd {
    /// Graph to destroy.
    pub evicted: Option<u64>,
    /// Whether the captured graph is launched now.
    pub launch: bool,
    pub outcome: VerifyGraphOutcome,
}

/// `m` with the record `rec` in place of the one for its key, or at the end.
pub open spec fn with_record(m: Seq<GraphRecord>, rec: GraphRecord) -> Seq<GraphRecord> {
    match record_of(m, rec.0) {
        Some(i) => m.update(i, rec),
        None => m.push(rec),
    }
}

/// The graphs whose key names `slot`, in order.
pub open spec fn graphs_naming(m: Seq<GraphRecord>, slot: u32) -> Seq<u64> {
    m.filter(|r: GraphRecord| r.0.contains(slot)).map(
        |_i: int, r: GraphRecord| r.1,
    )
}

/// The records whose key does not name `slot`, in order.
pub open spec fn records_not_naming(m: Seq<GraphRecord>, slot: u32) -> Seq<GraphRecord> {
    m.filter(|r: GraphRecord| !r.0.contains(slot))
}

/// What one pick does to the records and what it returns.
pub open spec fn pick_spec(
    m: Seq<GraphRecord>,
    tick: u64,
    graph_key: Option<Vec<u32>>,
    candidate: Option<BorrowCandidate>,
    borrow_enabled: bool,
    streak_allows: bool,
    r_total: int,
    m2: Seq<GraphRecord>,
    tick2: u64,
    r: GraphPick,
) -> bool {
    match graph_key {
        None => {
            &&& m2 == m
            &&& tick2 == tick
            &&& r.replay is None
            &&& r.ghosts@.len() == 0
            &&& r.outcome == VerifyGraphOutcome::Eager
        },
        Some(key) => {
            &&& tick2 == tick + 1
            &&& match record_of(m, key@) {
                Some(i) => {
                    &&& m2 == m.update(i, (m[i].0, m[i].1, tick2))
                    &&& r.replay == Some(m[i].1)
                    &&& r.ghosts@.len() == 0
                    &&& r.outcome == VerifyGraphOutcome::Replay
                },
                None => if borrow_enabled && streak_allows && candidate is Some && r_total
                    + ghost_rows_spec(candidate->0.ghosts@) <= VERIFY_ROW_CAP {
                    let i = record_of(m, candidate->0.key@)->0;
                    &&& m2 == m.update(i, (m[i].0, m[i].1, tick2))
                    &&& r.replay == Some(m[i].1)
                    &&& r.ghosts@ == candidate->0.ghosts@
                    &&& r.outcome == VerifyGraphOutcome::Borrow
                } else {
                    &&& m2 == m
                    &&& r.replay is None
                    &&& r.ghosts@.len() == 0
                    &&& r.outcome == VerifyGraphOutcome::Eager
                },
            }
        },
    }
}

proof fn lemma_remove_ok(m: Seq<GraphRecord>, tick: u64, i: int)
    requires
        records_ok(m, tick),
        0 <= i < m.len(),
    ensures
        records_ok(m.remove(i), tick),
{
    let r = m.remove(i);
    assert forall|a: int| 0 <= a < r.len() implies r[a] == m[if a < i { a } else { a + 1 }] by {}
    assert forall|a: int, b: int| 0 <= a < b < r.len() implies (#[trigger] r[a]).0 != (
    #[trigger] r[b]).0 && r[a].2 != r[b].2 by {
        let x = if a < i { a } else { a + 1 };
        let y = if b < i { b } else { b + 1 };
        assert(m[x].0 != m[y].0 && m[x].2 != m[y].2);
    }
}

proof fn lemma_push_ok(m: Seq<GraphRecord>, tick: u64, rec: GraphRecord)
    requires
        records_ok(m, tick),
        forall|i: int| 0 <= i < m.len() ==> (#[trigger] m[i]).2 < rec.2,
        rec.2 == tick,
        rec.1 != 0,
        record_of(m, rec.0) is None,
    ensures
        records_ok(m.push(rec), tick),
{
    let r = m.push(rec);
    assert forall|a: int, b: int| 0 <= a < b < r.len() implies (#[trigger] r[a]).0 != (
    #[trigger] r[b]).0 && r[a].2 != r[b].2 by {
        assert(r[a] == m[a]);
        if b == m.len() {
            assert(!record_at(m, rec.0, a));
        } else {
            assert(m[a].0 != m[b].0 && m[a].2 != m[b].2);
        }
    }
}

proof fn lemma_naming_empty(slot: u32)
    ensures
        records_not_naming(Seq::empty(), slot) == Seq::<GraphRecord>::empty(),
        graphs_naming(Seq::empty(), slot) == Seq::<u64>::empty(),
{
    reveal(Seq::filter);
    assert(graphs_naming(Seq::empty(), slot) =~= Seq::<u64>::empty());
}

proof fn lemma_naming_push(s: Seq<GraphRecord>, x: GraphRecord, slot: u32)
    ensures
        records_not_naming(s.push(x), slot) == if x.0.contains(slot) {
            records_not_naming(s, slot)
        } else {
            records_not_naming(s, slot).push(x)
        },
        graphs_naming(s.push(x), slot) == if x.0.contains(slot) {
            graphs_naming(s, slot).push(x.1)
        } else {
            graphs_naming(s, slot)
        },
{
    reveal(Seq::filter);
    assert(s.push(x).drop_last() =~= s);
    assert(graphs_naming(s.push(x), slot) =~= if x.0.contains(slot) {
        graphs_naming(s, slot).push(x.1)
    } else {
        graphs_naming(s, slot)
    });
}

/// The rows a step prepares never exceed the buffers: a batch that fits still fits with the
/// ghost rows of whatever graph was picked.
pub proof fn picked_rows_fit(
    m: Seq<GraphRecord>,
    tick: u64,
    graph_key: Option<Vec<u32>>,
    candidate: Option<BorrowCandidate>,
    borrow_enabled: bool,
    streak_allows: bool,
    r_total: int,
    m2: Seq<GraphRecord>,
    tick2: u64,
    r: GraphPick,
)
    requires
        pick_spec(
            m,
            tick,
            graph_key,
            candidate,
            borrow_enabled,
            streak_allows,
            r_total,
            m2,
            tick2,
            r,
        ),
        r_total <= VERIFY_ROW_CAP,
    ensures
        r_total + ghost_rows_spec(r.ghosts@) <= VERIFY_ROW_CAP,
{
}

/// Steps between two summaries of the graph outcomes.
pub const OUTCOME_PERIOD: u64 = 200;

/// Counts of graph outcomes since the last summary.
#[derive(Clone, Copy, Debug, PartialEq, Eq, Structural)]
pub struct OutcomeCounts {
    pub steps: u64,
    pub replay: u64,
    pub borrow: u64,
    pub capture: u64,
    pub eager: u64,
}

/// No outcome counted.
pub open spec fn no_outcomes() -> OutcomeCounts {
    OutcomeCounts { steps: 0, replay: 0, borrow: 0, capture: 0, eager: 0 }
}

/// The counts after one more step.
pub open spec fn counted(c: OutcomeCounts, outcome: VerifyGraphOutcome) -> OutcomeCounts {
    let c = OutcomeCounts { steps: (c.steps + 1) as u64, ..c };
    match outcome {
        VerifyGraphOutcome::Replay => OutcomeCounts { replay: (c.replay + 1) as u64, ..c },
        VerifyGraphOutcome::Borrow => OutcomeCounts { borrow: (c.borrow + 1) as u64, ..c },
        VerifyGraphOutcome::Capture => OutcomeCounts { capture: (c.capture + 1) as u64, ..c },
        VerifyGraphOutcome::Eager => OutcomeCounts { eager: (c.eager + 1) as u64, ..c },
    }
}

impl OutcomeCounts {
    /// Every step had one outcome, and fewer steps than a period are counted.
    pub open spec fn wf(&self) -> bool {
        &&& self.replay + self.borrow + self.capture + self.eager == self.steps
        &&& self.steps < OUTCOME_PERIOD
    }

    /// No outcome counted.
    pub fn new() -> (r: OutcomeCounts)
        ensures
            r == no_outcomes(),
            r.wf(),
    {
        OutcomeCounts { steps: 0, replay: 0, borrow: 0, capture: 0, eager: 0 }
    }

    /// Count one step's outcome; at the end of a period the counts are returned and start anew.
    /// Nothing is counted while the report is off.
    pub fn record(&mut self, report_on: bool, outcome: VerifyGraphOutcome) -> (r: Option<
        OutcomeCounts,
    >)
        requires
            old(self).wf(),
        ensures
            final(self).wf(),
            !report_on ==> r is None && *final(self) == *old(self),
            report_on ==> {
                let c = counted(*old(self), outcome);
                if c.steps >= OUTCOME_PERIOD {
                    r == Some(c) && *final(self) == no_outcomes()
                } else {
                    r is None && *final(self) == c
                }
            },
    {
        if !report_on {
            return None;
        }
        self.steps = self.steps + 1;
        match outcome {
            VerifyGraphOutcome::Replay => {
                self.replay = self.replay + 1;
            },
            VerifyGraphOutcome::Borrow => {
                self.borrow = self.borrow + 1;
            },
            VerifyGraphOutcome::Capture => {
                self.capture = self.capture + 1;
            },
            VerifyGraphOutcome::Eager => {
                self.eager = self.eager + 1;
            },
        }
        if self.steps >= OUTCOME_PERIOD {
            let done: OutcomeCounts = *self;
            *self = OutcomeCounts::new();
            Some(done)
        } else {
            None
        }
    }
}

/// Rows of all pairs together.
pub open spec fn pair_rows(ghosts: Seq<(u32, u32)>) -> int {
    ghosts.fold_left(0int, |sum: int, pair: (u32, u32)| sum + pair.1)
}

proof fn lemma_pair_rows(ghosts: Seq<(u32, u32)>)
    ensures
        pair_rows(ghosts) == ghost_rows_spec(ghosts),
    decreases ghosts.len(),
{
    if ghosts.len() > 0 {
        lemma_pair_rows(ghosts.drop_last());
    }
}

/// The ghost rows are summed up exactly while the step keeps within 160 rows.
pub proof fn ghost_rows_are_summed_within_the_cap(
    r_total: usize,
    ghosts: &Vec<(u32, u32)>,
    r: Option<usize>,
)
    requires
        call_ensures(ghost_rows_within, (r_total, ghosts), r),
    ensures
        r is Some <==> r_total + pair_rows(ghosts@) <= 160,
        r matches Some(n) ==> n == pair_rows(ghosts@),
{
    lemma_pair_rows(ghosts@);
}

/// A graph captured for exactly this batch is the one that replays, without ghosts, and counts as
/// used last; nothing borrowed comes before it.
pub proof fn exact_graphs_replay(
    graphs: &mut BatchGraphs,
    graph_key: &Option<Vec<u32>>,
    candidate: Option<BorrowCandidate>,
    borrow_enabled: bool,
    streak_allows: bool,
    r_total: usize,
    r: GraphPick,
    i: int,
)
    requires
        call_ensures(
            BatchGraphs::pick_verify_graph,
            (graphs, graph_key, candidate, borrow_enabled, streak_allows, r_total),
            r,
        ),
        forall|a: int, b: int|
            0 <= a < b < old(graphs).entries@.len() ==> (#[trigger] old(graphs).entries@[a]).key@
                != (#[trigger] old(graphs).entries@[b]).key@,
        graph_key is Some,
        0 <= i < old(graphs).entries@.len(),
        old(graphs).entries@[i].key@ == graph_key->0@,
    ensures
        r.replay == Some(old(graphs).entries@[i].graph),
        r.ghosts@.len() == 0,
        r.outcome is Replay,
        final(graphs).entries@[i].tick == final(graphs).tick,
        final(graphs).tick == old(graphs).tick + 1,
{
    let m = old(graphs)@;
    assert(record_at(m, graph_key->0@, i));
    let j = choose|j: int| record_at(m, graph_key->0@, j);
    assert(record_at(m, graph_key->0@, j));
    if i < j {
        assert(old(graphs).entries@[i].key@ != old(graphs).entries@[j].key@);
    }
    if j < i {
        assert(old(graphs).entries@[j].key@ != old(graphs).entries@[i].key@);
    }
    assert(final(graphs)@[i].2 == final(graphs).tick);
    assert(final(graphs)@.len() == m.len());
    assert(final(graphs)@ == records(final(graphs).entries@));
}

/// A step whose batch has no graph of its own replays a wider one exactly when a candidate was
/// found, borrowing is on, the streak allows it and the rows with the ghosts keep within 160. It
/// is the candidate's own graph, with the candidate's ghosts.
pub proof fn borrowed_graphs_are_the_candidates(
    graphs: &mut BatchGraphs,
    graph_key: &Option<Vec<u32>>,
    candidate: Option<BorrowCandidate>,
    borrow_enabled: bool,
    streak_allows: bool,
    r_total: usize,
    r: GraphPick,
    i: int,
)
    requires
        call_ensures(
            BatchGraphs::pick_verify_graph,
            (graphs, graph_key, candidate, borrow_enabled, streak_allows, r_total),
            r,
        ),
        forall|a: int, b: int|
            0 <= a < b < old(graphs).entries@.len() ==> (#[trigger] old(graphs).entries@[a]).key@
                != (#[trigger] old(graphs).entries@[b]).key@,
        graph_key is Some,
        forall|a: int|
            0 <= a < old(graphs).entries@.len() ==> (#[trigger] old(graphs).entries@[a]).key@
                != graph_key->0@,
        candidate is Some ==> 0 <= i < old(graphs).entries@.len()
            && old(graphs).entries@[i].key@ == candidate->0.key@,
    ensures
        r.replay is Some <==> candidate is Some && borrow_enabled && streak_allows && r_total
            + pair_rows(candidate->0.ghosts@) <= 160,
        r.replay is Some ==> {
            &&& r.replay == Some(old(graphs).entries@[i].graph)
            &&& r.ghosts@ == candidate->0.ghosts@
            &&& r.outcome is Borrow
            &&& final(graphs).entries@[i].tick == final(graphs).tick
        },
        r.replay is None ==> r.ghosts@.len() == 0 && r.outcome is Eager,
        final(graphs).tick == old(graphs).tick + 1,
{
    let m = old(graphs)@;
    assert forall|a: int| !record_at(m, graph_key->0@, a) by {
        if 0 <= a < m.len() {
            assert(old(graphs).entries@[a].key@ != graph_key->0@);
        }
    }
    if candidate is Some {
        lemma_pair_rows(candidate->0.ghosts@);
        assert(record_at(m, candidate->0.key@, i));
        let j = choose|j: int| record_at(m, candidate->0.key@, j);
        assert(record_at(m, candidate->0.key@, j));
        if i < j {
            assert(old(graphs).entries@[i].key@ != old(graphs).entries@[j].key@);
        }
        if j < i {
            assert(old(graphs).entries@[j].key@ != old(graphs).entries@[i].key@);
        }
        if r.replay is Some {
            assert(final(graphs)@[i].2 == final(graphs).tick);
        }
    }
}

/// A pick drops no graph and changes no key or handle; without a key it uses none and leaves the
/// cache alone. An entry whose graph does not replay keeps its last use.
pub proof fn picks_keep_every_graph(
    graphs: &mut BatchGraphs,
    graph_key: &Option<Vec<u32>>,
    candidate: Option<BorrowCandidate>,
    borrow_enabled: bool,
    streak_allows: bool,
    r_total: usize,
    r: GraphPick,
    i: int,
)
    requires
        call_ensures(
            BatchGraphs::pick_verify_graph,
            (graphs, graph_key, candidate, borrow_enabled, streak_allows, r_total),
            r,
        ),
        forall|a: int, b: int|
            0 <= a < b < old(graphs).entries@.len() ==> (#[trigger] old(graphs).entries@[a]).key@
                != (#[trigger] old(graphs).entries@[b]).key@,
        0 <= i < old(graphs).entries@.len(),
        candidate matches Some(b) ==> exists|a: int|
            0 <= a < old(graphs).entries@.len() && (#[trigger] old(graphs).entries@[a]).key@
                == b.key@,
    ensures
        final(graphs).entries@.len() == old(graphs).entries@.len(),
        final(graphs).entries@[i].key@ == old(graphs).entries@[i].key@,
        final(graphs).entries@[i].graph == old(graphs).entries@[i].graph,
        final(graphs).entries@[i].tick != old(graphs).entries@[i].tick ==> r.replay == Some(
            old(graphs).entries@[i].graph,
        ),
        graph_key is None ==> r.replay is None && r.ghosts@.len() == 0 && r.outcome is Eager
            && final(graphs).tick == old(graphs).tick,
{
    let m = old(graphs)@;
    if candidate is Some {
        let a = choose|a: int|
            0 <= a < old(graphs).entries@.len() && (#[trigger] old(graphs).entries@[a]).key@
                == candidate->0.key@;
        assert(record_at(m, candidate->0.key@, a));
    }
    assert(final(graphs)@.len() == m.len());
    assert(final(graphs)@[i].0 == m[i].0 && final(graphs)@[i].1 == m[i].1);
    if final(graphs)@[i].2 != m[i].2 {
        assert(r.replay == Some(m[i].1));
    }
}

/// Whether `now` is `was` with `graph` at place `at` under `key`, as the one used last; at the cap
/// of 32 the graph at place `gone`, whose last use is not later than any other's, was dropped
/// first and is the one handed back. Every other graph keeps its key, handle and last use.
pub open spec fn kept_under_key(
    was: Seq<BatchGraph>,
    now: Seq<BatchGraph>,
    key: Seq<u32>,
    graph: u64,
    tick: u64,
    evicted: Option<u64>,
    at: int,
    gone: int,
) -> bool {
    let same = |a: BatchGraph, b: BatchGraph|
        a.key@ == b.key@ && a.graph == b.graph && a.tick == b.tick;
    &&& 0 <= at < now.len()
    &&& now[at].key@ == key
    &&& now[at].graph == graph
    &&& now[at].tick == tick
    &&& evicted is Some <==> was.len() >= 32
    &&& evicted is None ==> forall|i: int|
        0 <= i < was.len() && i != at ==> i < now.len() && same(#[trigger] was[i], now[i])
    &&& evicted is Some ==> {
        &&& 0 <= gone < was.len()
        &&& evicted == Some(was[gone].graph)
        &&& forall|i: int| 0 <= i < was.len() ==> was[gone].tick <= (#[trigger] was[i]).tick
        &&& forall|i: int| 0 <= i < gone && i != at ==> same(#[trigger] was[i], now[i])
        &&& forall|i: int|
            gone < i < was.len() && i - 1 != at ==> same(#[trigger] was[i], now[i - 1])
    }
}

/// A captured graph is launched exactly when there is one, and kept exactly when it has a key: it
/// is then found under that key as the one used last. Keeping it drops no other graph below the
/// cap, and at the cap only one that was not used later than any other.
pub proof fn captures_are_kept_under_their_key(
    graphs: &mut BatchGraphs,
    graph_key: Option<Vec<u32>>,
    graph: u64,
    outcome: VerifyGraphOutcome,
    r: CaptureEnd,
)
    requires
        call_ensures(BatchGraphs::finish_verify_capture, (graphs, graph_key, graph, outcome), r),
        old(graphs).tick < u64::MAX,
    ensures
        r.launch <==> graph != 0,
        !(graph != 0 && graph_key is Some) ==> {
            &&& r.evicted is None
            &&& r.outcome == outcome
            &&& final(graphs)@ == old(graphs)@
        },
        graph != 0 && graph_key is Some ==> {
            &&& r.outcome is Capture
            &&& final(graphs).tick == old(graphs).tick + 1
            &&& exists|at: int, gone: int|
                #[trigger] kept_under_key(
                    old(graphs).entries@,
                    final(graphs).entries@,
                    graph_key->0@,
                    graph,
                    final(graphs).tick,
                    r.evicted,
                    at,
                    gone,
                )
        },
{
    let m = old(graphs)@;
    let m2 = final(graphs)@;
    let was = old(graphs).entries@;
    let now = final(graphs).entries@;
    assert(m.len() == was.len() && m2.len() == now.len());
    if graph != 0 && graph_key is Some {
        let rec = (graph_key->0@, graph, final(graphs).tick);
        let gone = if was.len() >= 32 {
            choose|i: int|
                {
                    &&& #[trigger] is_lru(m, i)
                    &&& r.evicted == Some(m[i].1)
                    &&& m2 == with_record(m.remove(i), rec)
                }
        } else {
            0
        };
        let kept = if was.len() >= 32 {
            m.remove(gone)
        } else {
            m
        };
        let at = match record_of(kept, rec.0) {
            Some(i) => i,
            None => kept.len() as int,
        };
        if record_of(kept, rec.0) is Some {
            let w = choose|w: int| record_at(kept, rec.0, w);
            assert(record_at(kept, rec.0, w));
        }
        assert(m2[at] == rec);
        if was.len() >= 32 {
            assert(is_lru(m, gone));
            assert forall|i: int| 0 <= i < was.len() implies was[gone].tick <= (
            #[trigger] was[i]).tick by {
                assert(m[gone].2 <= m[i].2);
            }
            assert forall|i: int| 0 <= i < gone && i != at implies (#[trigger] was[i]).key@
                == now[i].key@ && was[i].graph == now[i].graph && was[i].tick == now[i].tick by {
                assert(m2[i] == m[i]);
            }
            assert forall|i: int| gone < i < was.len() && i - 1 != at implies (
            #[trigger] was[i]).key@ == now[i - 1].key@ && was[i].graph == now[i - 1].graph
                && was[i].tick == now[i - 1].tick by {
                assert(m2[i - 1] == m[i]);
            }
        } else {
            assert forall|i: int| 0 <= i < was.len() && i != at implies i < now.len() && (
            #[trigger] was[i]).key@ == now[i].key@ && was[i].graph == now[i].graph && was[i].tick
                == now[i].tick by {
                assert(m2[i] == m[i]);
            }
        }
        assert(kept_under_key(
            was,
            now,
            graph_key->0@,
            graph,
            final(graphs).tick,
            r.evicted,
            at,
            gone,
        ));
    }
}

/// Clearing a slot drops every graph whose key names it and hands it back, and keeps every other
/// graph with its key and last use.
pub proof fn cleared_slots_name_no_graph(
    graphs: &mut BatchGraphs,
    slot: u32,
    r: Vec<u64>,
    i: int,
    j: int,
)
    requires
        call_ensures(BatchGraphs::remove_slot, (graphs, slot), r),
    ensures
        0 <= j < final(graphs).entries@.len() ==> !final(graphs).entries@[j].key@.contains(slot),
        0 <= i < old(graphs).entries@.len() && old(graphs).entries@[i].key@.contains(slot)
            ==> r@.contains(old(graphs).entries@[i].graph),
        0 <= i < old(graphs).entries@.len() && !old(graphs).entries@[i].key@.contains(slot)
            ==> exists|x: int|
            0 <= x < final(graphs).entries@.len() && (#[trigger] final(graphs).entries@[x]).key@
                == old(graphs).entries@[i].key@ && final(graphs).entries@[x].graph == old(
                graphs,
            ).entries@[i].graph && final(graphs).entries@[x].tick == old(graphs).entries@[i].tick,
{
    let m = old(graphs)@;
    let out = |rec: GraphRecord| !rec.0.contains(slot);
    let inn = |rec: GraphRecord| rec.0.contains(slot);
    broadcast use vstd::seq_lib::group_filter_ensures;

    if 0 <= j < final(graphs).entries@.len() {
        assert(out(m.filter(out)[j]));
        assert(final(graphs)@[j] == m.filter(out)[j]);
    }
    if 0 <= i < old(graphs).entries@.len() {
        if m[i].0.contains(slot) {
            assert(inn(m[i]));
            assert(m.filter(inn).contains(m[i]));
            let x = choose|x: int| 0 <= x < m.filter(inn).len() && m.filter(inn)[x] == m[i];
            assert(r@[x] == m[i].1);
        } else {
            assert(out(m[i]));
            assert(m.filter(out).contains(m[i]));
            let x = choose|x: int| 0 <= x < m.filter(out).len() && m.filter(out)[x] == m[i];
            assert(final(graphs)@[x] == m[i]);
            assert(final(graphs).entries@[x].key@ == old(graphs).entries@[i].key@);
        }
    }
}

/// A key is found exactly where an entry has it.
pub proof fn keys_are_found_where_they_stand(
    graphs: &BatchGraphs,
    key: &Vec<u32>,
    r: Option<usize>,
    i: int,
)
    requires
        call_ensures(BatchGraphs::find, (graphs, key), r),
        0 <= i < graphs.entries@.len(),
    ensures
        graphs.entries@[i].key@ == key@ ==> r is Some,
        r matches Some(x) ==> x < graphs.entries@.len() && graphs.entries@[x as int].key@ == key@,
{
    let m = graphs@;
    if m[i].0 == key@ {
        assert(record_at(m, key@, i));
    }
    if let Some(x) = r {
        let w = choose|w: int| record_at(m, key@, w);
        assert(record_at(m, key@, w));
    }
}

/// A slot may carry a ghost only while it is free and, with tables staged, has an address for
/// each of the ghost's rows: its state and one intermediate for every further row.
pub proof fn ghosts_use_free_slots_with_room(
    slot_free: bool,
    wy_present: bool,
    h_inter_count: usize,
    k: u32,
    r: bool,
)
    requires
        call_ensures(ghost_slot_ok, (slot_free, wy_present, h_inter_count, k), r),
    ensures
        r ==> slot_free,
        r && wy_present ==> 1 + h_inter_count >= k,
        slot_free && !wy_present ==> r,
        slot_free && 1 + h_inter_count >= k ==> r,
{
}

/// A key names a slot exactly when one of its words is the slot.
pub proof fn named_slots_stand_in_the_key(key: &Vec<u32>, slot: u32, r: bool, i: int)
    requires
        call_ensures(names_slot, (key, slot), r),
        0 <= i < key@.len(),
    ensures
        key@[i] == slot ==> r,
        r ==> exists|x: int| 0 <= x < key@.len() && key@[x] == slot,
{
}

/// Every reported step is counted once, under its own outcome, and every 200 steps the counts are
/// handed out and start anew.
pub proof fn outcomes_are_counted_once(
    counts: &mut OutcomeCounts,
    report_on: bool,
    outcome: VerifyGraphOutcome,
    r: Option<OutcomeCounts>,
)
    requires
        call_ensures(OutcomeCounts::record, (counts, report_on, outcome), r),
        old(counts).wf(),
    ensures
        !report_on ==> r is None && *final(counts) == *old(counts),
        report_on ==> {
            let was = *old(counts);
            let now = match r {
                Some(c) => c,
                None => *final(counts),
            };
            &&& now.steps == was.steps + 1
            &&& now.replay - was.replay == if outcome is Replay {
                1int
            } else {
                0
            }
            &&& now.borrow - was.borrow == if outcome is Borrow {
                1int
            } else {
                0
            }
            &&& now.capture - was.capture == if outcome is Capture {
                1int
            } else {
                0
            }
            &&& now.eager - was.eager == if outcome is Eager {
                1int
            } else {
                0
            }
            &&& r is Some <==> was.steps == 199
            &&& r is Some ==> final(counts).steps == 0 && final(counts).replay == 0
                && final(counts).borrow == 0 && final(counts).capture == 0
                && final(counts).eager == 0
        },
{
}

/// A new cache holds no graph, and new counts have counted nothing.
pub proof fn new_caches_and_counts_are_empty(graphs: BatchGraphs, counts: OutcomeCounts)
    requires
        call_ensures(BatchGraphs::new, (), graphs),
        call_ensures(OutcomeCounts::new, (), counts),
    ensures
        graphs.entries@.len() == 0,
        counts.steps == 0,
        counts.replay == 0 && counts.borrow == 0 && counts.capture == 0 && counts.eager == 0,
{
    assert(graphs@.len() == graphs.entries@.len());
}

/// Two word lists are the same exactly when they are equally long and equal word by word.
pub proof fn same_lists_have_the_same_words(a: &Vec<u32>, b: &Vec<u32>, r: bool)
    requires
        call_ensures(same_words, (a, b), r),
    ensures
        r <==> a@.len() == b@.len() && forall|i: int| 0 <= i < a@.len() ==> a@[i] == b@[i],
{
    if a@.len() == b@.len() && forall|i: int| 0 <= i < a@.len() ==> a@[i] == b@[i] {
        assert(a@ =~= b@);
    }
}

} // verus!
