//! Captured device graphs kept for replay, by pool slot and row count.
//!
//! A graph handle of `0` means that a capture produced no graph; no cache ever holds one.

use std::collections::HashMap;

use vstd::prelude::*;

verus! {

broadcast use vstd::std_specs::hash::group_hash_axioms;

/// A graph captured for `k` rows of a sequence.
pub struct RowGraph {
    pub k: usize,
    pub graph: u64,
}

/// Graphs keyed by pool slot, and within a slot by row count.
pub struct SlotGraphs {
    pub slots: HashMap<usize, Vec<RowGraph>>,
}

/// Whether entry `i` is the one for `k` rows.
pub open spec fn row_graph_at(s: Seq<RowGraph>, k: usize, i: int) -> bool {
    0 <= i < s.len() && s[i].k == k
}

/// The graph for `k` rows.
pub open spec fn row_graph(s: Seq<RowGraph>, k: usize) -> Option<u64> {
    if exists|i: int| row_graph_at(s, k, i) {
        Some(s[choose|i: int| row_graph_at(s, k, i)].graph)
    } else {
        None
    }
}

/// At most one graph per row count, and no null graph.
pub open spec fn rows_ok(s: Seq<RowGraph>) -> bool {
    &&& forall|i: int, j: int|
        0 <= i < j < s.len() ==> (#[trigger] s[i]).k != (#[trigger] s[j]).k
    &&& forall|i: int| 0 <= i < s.len() ==> (#[trigger] s[i]).graph != 0
}

/// The graphs of a list, in order.
pub open spec fn graphs_in(s: Seq<RowGraph>) -> Seq<u64> {
    Seq::new(s.len(), |i: int| s[i].graph)
}

/// Index of the entry for `k` rows.
fn find_rows(rows: &Vec<RowGraph>, k: usize) -> (r: Option<usize>)
    requires
        rows_ok(rows@),
    ensures
        r matches Some(i) ==> row_graph_at(rows@, k, i as int) && row_graph(rows@, k) == Some(
            rows@[i as int].graph,
        ),
        r is None ==> forall|i: int| !row_graph_at(rows@, k, i),
{
    let mut i: usize = 0;
    while i < rows.len()
        invariant
            rows_ok(rows@),
            i <= rows@.len(),
            forall|j: int| 0 <= j < i ==> !row_graph_at(rows@, k, j),
        decreases rows@.len() - i,
    {
        if rows[i].k == k {
            proof {
                assert(row_graph_at(rows@, k, i as int));
                lemma_row_graph(rows@, k, i as int);
            }
            return Some(i);
        }
        i = i + 1;
    }
    None
}

proof fn lemma_row_graph(s: Seq<RowGraph>, k: usize, i: int)
    requires
        rows_ok(s),
        row_graph_at(s, k, i),
    ensures
        row_graph(s, k) == Some(s[i].graph),
{
    let j = choose|j: int| row_graph_at(s, k, j);
    assert(row_graph_at(s, k, j));
    if i < j {
        assert(s[i].k != s[j].k);
    }
    if j < i {
        assert(s[j].k != s[i].k);
    }
}

/// Lists that agree but for row count `k` agree on every other row count.
proof fn lemma_other_rows(a: Seq<RowGraph>, b: Seq<RowGraph>, k: usize)
    requires
        rows_ok(a),
        rows_ok(b),
        a.len() <= b.len(),
        forall|i: int| 0 <= i < a.len() && a[i].k != k ==> #[trigger] b[i] == a[i],
        forall|i: int|
            0 <= i < b.len() && (i >= a.len() || a[i].k == k) ==> (#[trigger] b[i]).k == k,
    ensures
        forall|n: usize| n != k ==> row_graph(b, n) == row_graph(a, n),
{
    assert forall|n: usize| n != k implies row_graph(b, n) == row_graph(a, n) by {
        if exists|i: int| row_graph_at(a, n, i) {
            let i = choose|i: int| row_graph_at(a, n, i);
            assert(b[i] == a[i]);
            lemma_row_graph(a, n, i);
            lemma_row_graph(b, n, i);
        } else if exists|i: int| row_graph_at(b, n, i) {
            let i = choose|i: int| row_graph_at(b, n, i);
            assert(b[i].k == n);
            assert(!row_graph_at(a, n, i));
        }
    }
}

impl SlotGraphs {
    /// The graphs of a slot.
    pub open spec fn rows(&self, slot: usize) -> Seq<RowGraph> {
        if self.slots@.contains_key(slot) {
            self.slots@[slot]@
        } else {
            Seq::empty()
        }
    }

    /// At most one graph per slot and row count, and no null graph.
    pub open spec fn wf(&self) -> bool {
        forall|slot: usize| rows_ok(#[trigger] self.rows(slot))
    }

    /// The graph cached under `(slot, k)`.
    pub open spec fn cached(&self, slot: usize, k: usize) -> Option<u64> {
        row_graph(self.rows(slot), k)
    }

    /// An empty cache.
    pub fn new() -> (r: SlotGraphs)
        ensures
            r.wf(),
            forall|slot: usize, k: usize| r.cached(slot, k) is None,
    {
        SlotGraphs { slots: HashMap::new() }
    }

    /// The graph cached under `(slot, k)`.
    pub fn get(&self, slot: usize, k: usize) -> (r: Option<u64>)
        requires
            self.wf(),
        ensures
            r == self.cached(slot, k),
            r matches Some(g) ==> g != 0,
    {
        assert(rows_ok(self.rows(slot)));
        match self.slots.get(&slot) {
            None => None,
            Some(rows) => match find_rows(rows, k) {
                None => None,
                Some(i) => Some(rows[i].graph),
            },
        }
    }

    /// Cache `graph` under `(slot, k)`, replacing what was there.
    pub fn insert(&mut self, slot: usize, k: usize, graph: u64)
        requires
            old(self).wf(),
            graph != 0,
        ensures
            final(self).wf(),
            final(self).cached(slot, k) == Some(graph),
            forall|s: usize, n: usize|
                (s != slot || n != k) ==> final(self).cached(s, n) == old(self).cached(s, n),
    {
        assert(rows_ok(self.rows(slot)));
        let ghost before = self.rows(slot);
        let mut rows: Vec<RowGraph> = match self.slots.remove(&slot) {
            None => Vec::new(),
            Some(rows) => rows,
        };
        assert(rows@ =~= before);
        match find_rows(&rows, k) {
            Some(i) => {
                rows.set(i, RowGraph { k, graph });
                proof {
                    assert(row_graph_at(rows@, k, i as int));
                    lemma_row_graph(rows@, k, i as int);
                }
            },
            None => {
                rows.push(RowGraph { k, graph });
                proof {
                    assert forall|i: int, j: int| 0 <= i < j < rows@.len() implies (
                    #[trigger] rows@[i]).k != (#[trigger] rows@[j]).k by {
                        assert(!row_graph_at(before, k, i));
                        if j < before.len() {
                            assert(before[i].k != before[j].k);
                        }
                    }
                    assert(row_graph_at(rows@, k, before.len() as int));
                    lemma_row_graph(rows@, k, before.len() as int);
                    assert forall|i: int|
                        0 <= i < rows@.len() && (i >= before.len() || before[i].k == k) implies (
                    #[trigger] rows@[i]).k == k by {
                        assert(!row_graph_at(before, k, i));
                    }
                }
            },
        }
        proof {
            lemma_other_rows(before, rows@, k);
        }
        let ghost now = rows@;
        self.slots.insert(slot, rows);
        proof {
            assert(self.rows(slot) == now);
            assert forall|s: usize| s != slot implies self.rows(s) == old(self).rows(s) by {}
            assert forall|s: usize| rows_ok(#[trigger] self.rows(s)) by {
                assert(rows_ok(old(self).rows(s)));
            }
        }
    }

    /// Drop every graph of `slot` and return the dropped graphs.
    pub fn remove_slot(&mut self, slot: usize) -> (r: Vec<u64>)
        requires
            old(self).wf(),
        ensures
            final(self).wf(),
            r@ == graphs_in(old(self).rows(slot)),
            forall|k: usize| final(self).cached(slot, k) is None,
            forall|s: usize, k: usize|
                s != slot ==> final(self).cached(s, k) == old(self).cached(s, k),
    {
        let mut removed: Vec<u64> = Vec::new();
        let taken: Option<Vec<RowGraph>> = self.slots.remove(&slot);
        proof {
            assert(self.rows(slot) =~= Seq::empty());
            assert forall|s: usize| s != slot implies self.rows(s) == old(self).rows(s) by {}
            assert forall|s: usize| rows_ok(#[trigger] self.rows(s)) by {
                assert(rows_ok(old(self).rows(s)));
            }
        }
        match taken {
            None => {},
            Some(rows) => {
                assert(rows@ == old(self).rows(slot));
                let mut i: usize = 0;
                while i < rows.len()
                    invariant
                        i <= rows@.len(),
                        removed@ == graphs_in(rows@).subrange(0, i as int),
                    decreases rows@.len() - i,
                {
                    removed.push(rows[i].graph);
                    i = i + 1;
                    assert(removed@ =~= graphs_in(rows@).subrange(0, i as int));
                }
                assert(graphs_in(rows@).subrange(0, i as int) =~= graphs_in(rows@));
            },
        }
        removed
    }
}

/// A cached graph is found under its own slot and row count until it is replaced or its slot is
/// cleared; caching one changes what no other slot or row count finds.
pub proof fn cached_graphs_are_found(
    cache: &mut SlotGraphs,
    slot: usize,
    k: usize,
    graph: u64,
    s: usize,
    n: usize,
    before: Option<u64>,
    after: Option<u64>,
)
    requires
        call_ensures(SlotGraphs::insert, (cache, slot, k, graph), ()),
        call_ensures(SlotGraphs::get, (old(cache), s, n), before),
        call_ensures(SlotGraphs::get, (final(cache), s, n), after),
    ensures
        after == if s == slot && n == k {
            Some(graph)
        } else {
            before
        },
{
}

/// Clearing a slot hands back every graph that was found under it, leaves none to find there, and
/// changes what no other slot finds.
pub proof fn cleared_slots_hand_back_their_graphs(
    cache: &mut SlotGraphs,
    slot: usize,
    r: Vec<u64>,
    s: usize,
    n: usize,
    before: Option<u64>,
    after: Option<u64>,
)
    requires
        call_ensures(SlotGraphs::remove_slot, (cache, slot), r),
        call_ensures(SlotGraphs::get, (old(cache), s, n), before),
        call_ensures(SlotGraphs::get, (final(cache), s, n), after),
    ensures
        s == slot ==> after is None,
        s != slot ==> after == before,
        s == slot && before is Some ==> r@.contains(before->0),
{
    let rows = old(cache).rows(slot);
    if s == slot && before is Some {
        let i = choose|i: int| row_graph_at(rows, n, i);
        assert(row_graph_at(rows, n, i));
        assert(r@[i] == rows[i].graph);
    }
}

/// A new cache finds nothing.
pub proof fn new_caches_find_nothing(cache: SlotGraphs, slot: usize, k: usize, r: Option<u64>)
    requires
        call_ensures(SlotGraphs::new, (), cache),
        call_ensures(SlotGraphs::get, (&cache, slot, k), r),
    ensures
        r is None,
{
}

} // verus!
