//! Staging of the per-layer pointer tables a batched verify's recurrent layers read, and the
//! cache that skips a staging whose tables are already on the device.
//!
//! Per recurrent layer there are `tables_per_layer` tables of `table_seqs` entries. Table 0 holds
//! each sequence's state address and table `t + 1` the address of its intermediate `t`.

use vstd::prelude::*;

use crate::layers::{indices_of, layer_indices, LayerType};
use crate::sequence_compact::LayerAddresses;
use crate::sequence_state::{LayerState, SequenceState};

verus! {

/// Shape of the pointer tables.
#[derive(Clone, Copy, Debug)]
pub struct WyShape {
    /// Entries per table: the most sequences a batch may have.
    pub table_seqs: usize,
    pub tables_per_layer: usize,
    /// Entries from one layer's tables to the next layer's.
    pub entries_per_layer: usize,
}

impl WyShape {
    /// The tables of a layer fit its entries.
    pub open spec fn wf(&self) -> bool {
        &&& 0 < self.table_seqs
        &&& 0 < self.tables_per_layer
        &&& self.table_seqs * self.tables_per_layer <= self.entries_per_layer
    }
}

/// The inputs of a staging that vary per step, as words: the row count, the sequence count, each
/// sequence's slot, then each ghost's slot and depth.
pub open spec fn wy_key_spec(slots: Seq<u32>, k: usize, ghosts: Seq<(u32, u32)>) -> Seq<u64> {
    Seq::new(
        2 + slots.len() + 2 * ghosts.len(),
        |i: int|
            if i == 0 {
                k as u64
            } else if i == 1 {
                slots.len() as u64
            } else if i < 2 + slots.len() {
                slots[i - 2] as u64
            } else if (i - 2 - slots.len()) % 2 == 0 {
                ghosts[(i - 2 - slots.len()) / 2].0 as u64
            } else {
                ghosts[(i - 2 - slots.len()) / 2].1 as u64
            },
    )
}

/// Encode every input the staged tables depend on, so equal keys mean identical tables.
pub fn verify_wy_cache_key(slots: &[u32], k: usize, ghosts: &[(u32, u32)]) -> (r: Vec<u64>)
    ensures
        r@ == wy_key_spec(slots@, k, ghosts@),
{
    let mut key: Vec<u64> = Vec::new();
    key.push(k as u64);
    key.push(slots.len() as u64);
    let mut i: usize = 0;
    while i < slots.len()
        invariant
            i <= slots@.len(),
            key@ == wy_key_spec(slots@, k, ghosts@).subrange(0, 2 + i),
        decreases slots@.len() - i,
    {
        key.push(slots[i] as u64);
        i = i + 1;
        assert(key@ =~= wy_key_spec(slots@, k, ghosts@).subrange(0, 2 + i));
    }
    let mut j: usize = 0;
    while j < ghosts.len()
        invariant
            j <= ghosts@.len(),
            key@ == wy_key_spec(slots@, k, ghosts@).subrange(0, 2 + slots@.len() + 2 * j),
        decreases ghosts@.len() - j,
    {
        let (slot, depth) = ghosts[j];
        key.push(slot as u64);
        key.push(depth as u64);
        j = j + 1;
        assert(key@ =~= wy_key_spec(slots@, k, ghosts@).subrange(0, 2 + slots@.len() + 2 * j));
    }
    assert(key@ =~= wy_key_spec(slots@, k, ghosts@));
    key
}

/// The key is injective: equal keys come from equal row counts, slots and ghosts.
pub proof fn wy_key_is_injective(
    slots1: Seq<u32>,
    k1: usize,
    ghosts1: Seq<(u32, u32)>,
    slots2: Seq<u32>,
    k2: usize,
    ghosts2: Seq<(u32, u32)>,
)
    requires
        slots1.len() <= usize::MAX,
        slots2.len() <= usize::MAX,
        wy_key_spec(slots1, k1, ghosts1) == wy_key_spec(slots2, k2, ghosts2),
    ensures
        k1 == k2,
        slots1 == slots2,
        ghosts1 == ghosts2,
{
    let a = wy_key_spec(slots1, k1, ghosts1);
    let b = wy_key_spec(slots2, k2, ghosts2);
    assert(a[0] == k1 as u64 && b[0] == k2 as u64);
    assert(a[1] == b[1]);
    assert(slots1.len() as u64 == slots1.len());
    assert(slots2.len() as u64 == slots2.len());
    assert(a[1] == slots1.len() as u64 && b[1] == slots2.len() as u64);
    assert(slots1.len() == slots2.len());
    assert(a.len() == 2 + slots1.len() + 2 * ghosts1.len());
    assert(b.len() == 2 + slots2.len() + 2 * ghosts2.len());
    assert(ghosts1.len() == ghosts2.len());
    let n = slots1.len() as int;
    assert forall|i: int| 0 <= i < n implies slots1[i] == slots2[i] by {
        assert(a[i + 2] == slots1[i] as u64);
        assert(b[i + 2] == slots2[i] as u64);
    }
    assert(slots1 =~= slots2);
    assert forall|i: int| 0 <= i < ghosts1.len() implies ghosts1[i] == ghosts2[i] by {
        let x = 2 + n + 2 * i;
        assert(a[x] == ghosts1[i].0 as u64);
        assert(b[x] == ghosts2[i].0 as u64);
        assert(a[x + 1] == ghosts1[i].1 as u64);
        assert(b[x + 1] == ghosts2[i].1 as u64);
    }
    assert(ghosts1 =~= ghosts2);
}

/// Address entry `t` of a layer state: its state, then its intermediates.
pub open spec fn state_column(state: LayerState, t: int) -> u64 {
    match state {
        LayerState::Ssm(ssm) => if t == 0 {
            ssm.h_state.0
        } else {
            ssm.h_state_intermediates@[t - 1].0
        },
        LayerState::Other => 0,
    }
}

/// Whether a layer state has an address for each of `k` tables.
pub open spec fn column_ready(state: LayerState, k: int) -> bool {
    match state {
        LayerState::Ssm(ssm) => ssm.h_state.0 != 0 && ssm.h_state_intermediates@.len() >= k - 1,
        LayerState::Other => false,
    }
}

/// Whether every sequence has a state for every recurrent layer.
pub open spec fn states_listed(seqs: Seq<&SequenceState>, ssm_layers: Seq<usize>) -> bool {
    forall|i: int, l: int|
        0 <= i < seqs.len() && 0 <= l < ssm_layers.len() ==> #[trigger] ssm_layers[l] < (
        #[trigger] seqs[i]).layer_states@.len()
}

/// Whether every sequence has `k` addresses in every recurrent layer.
pub open spec fn batch_ready(seqs: Seq<&SequenceState>, ssm_layers: Seq<usize>, k: int) -> bool {
    forall|l: int, i: int|
        0 <= l < ssm_layers.len() && 0 <= i < seqs.len() ==> column_ready(
            #[trigger] seqs[i].layer_states@[#[trigger] ssm_layers[l] as int],
            k,
        )
}

/// Tables a ghost of depth `gk` fills: at least its state.
pub open spec fn ghost_depth(gk: u32) -> int {
    if gk == 0 {
        1
    } else {
        gk as int
    }
}

/// Entry `i` of table `t` of recurrent layer `l`: sequences first, then ghosts, zero elsewhere.
pub open spec fn wy_entry(
    seqs: Seq<&SequenceState>,
    ssm_layers: Seq<usize>,
    k: int,
    ghosts: Seq<(u32, u32)>,
    ghost_columns: Seq<Vec<Vec<u64>>>,
    l: int,
    t: int,
    i: int,
) -> u64 {
    if i < seqs.len() {
        if t < k {
            state_column(seqs[i].layer_states@[ssm_layers[l] as int], t)
        } else {
            0
        }
    } else if i < seqs.len() + ghosts.len() {
        let g = i - seqs.len();
        if t < ghost_depth(ghosts[g].1) {
            ghost_columns[g]@[l]@[t]
        } else {
            0
        }
    } else {
        0
    }
}

/// All tables, layer by layer and table by table.
pub open spec fn wy_words(
    seqs: Seq<&SequenceState>,
    ssm_layers: Seq<usize>,
    k: int,
    ghosts: Seq<(u32, u32)>,
    ghost_columns: Seq<Vec<Vec<u64>>>,
    shape: WyShape,
) -> Seq<u64> {
    let e = shape.entries_per_layer as int;
    let s = shape.table_seqs as int;
    Seq::new(
        (ssm_layers.len() * e) as nat,
        |x: int|
            wy_entry(
                seqs,
                ssm_layers,
                k,
                ghosts,
                ghost_columns,
                x / e,
                (x % e) / s,
                (x % e) % s,
            ),
    )
}

/// The addresses of a ghost in one recurrent layer: its state, then `depth - 1` intermediates.
pub open spec fn ghost_column_spec(a: LayerAddresses, depth: u32) -> Seq<u64> {
    seq![a.h_state.0] + Seq::new(
        (ghost_depth(depth) - 1) as nat,
        |t: int| a.h_intermediates@[t].0,
    )
}

/// The addresses of a ghost in one recurrent layer: its state, then `depth - 1` intermediates.
pub fn ghost_column(a: &LayerAddresses, depth: u32) -> (r: Vec<u64>)
    requires
        ghost_depth(depth) - 1 <= a.h_intermediates@.len(),
    ensures
        r@ == ghost_column_spec(*a, depth),
        r@.len() == ghost_depth(depth),
{
    let more: usize = if depth == 0 {
        0
    } else {
        (depth - 1) as usize
    };
    let mut column: Vec<u64> = Vec::new();
    column.push(a.h_state.0);
    let mut t: usize = 0;
    assert(column@ =~= ghost_column_spec(*a, depth).subrange(0, 1));
    while t < more
        invariant
            t <= more,
            more == ghost_depth(depth) - 1,
            more <= a.h_intermediates@.len(),
            column@ == ghost_column_spec(*a, depth).subrange(0, t + 1),
        decreases more - t,
    {
        column.push(a.h_intermediates[t].0);
        t = t + 1;
        assert(column@ =~= ghost_column_spec(*a, depth).subrange(0, t + 1));
    }
    assert(column@ =~= ghost_column_spec(*a, depth));
    column
}

/// Whether no ghost is deeper than `rows`.
pub open spec fn depths_within(ghosts: Seq<(u32, u32)>, rows: int) -> bool {
    forall|g: int| 0 <= g < ghosts.len() ==> (#[trigger] ghosts[g]).1 <= rows
}

/// The row count at which the tables are staged again with ghosts: the largest of the batch's own
/// and the ghosts' depths.
pub fn restage_rows(k_max: usize, ghosts: &Vec<(u32, u32)>) -> (r: usize)
    ensures
        k_max <= r,
        depths_within(ghosts@, r as int),
        forall|g: int| 0 <= g < ghosts@.len() ==> (#[trigger] ghosts@[g]).1 <= r,
        r == k_max || exists|g: int| 0 <= g < ghosts@.len() && (#[trigger] ghosts@[g]).1 == r,
{
    let mut rows: usize = k_max;
    let mut i: usize = 0;
    while i < ghosts.len()
        invariant
            i <= ghosts@.len(),
            k_max <= rows,
            forall|g: int| 0 <= g < i ==> (#[trigger] ghosts@[g]).1 <= rows,
            rows == k_max || exists|g: int| 0 <= g < i && (#[trigger] ghosts@[g]).1 == rows,
        decreases ghosts@.len() - i,
    {
        let depth: usize = ghosts[i].1 as usize;
        if depth > rows {
            rows = depth;
            assert(ghosts@[i as int].1 == rows);
        }
        i = i + 1;
    }
    rows
}

/// Every ghost has an address column per recurrent layer, as deep as the ghost.
pub open spec fn ghost_columns_ok(
    ghosts: Seq<(u32, u32)>,
    ghost_columns: Seq<Vec<Vec<u64>>>,
    num_ssm: int,
) -> bool {
    &&& ghost_columns.len() == ghosts.len()
    &&& forall|g: int|
        0 <= g < ghosts.len() ==> (#[trigger] ghost_columns[g])@.len() == num_ssm
    &&& forall|g: int, l: int|
        0 <= g < ghosts.len() && 0 <= l < num_ssm ==> (#[trigger] ghost_columns[g]@[l])@.len()
            >= ghost_depth(ghosts[g].1)
}

/// What a staging step does.
pub enum WyStage {
    /// No tables: the layers get none.
    Null,
    /// The device already holds these tables.
    Cached,
    /// Upload `words`, and record `key` once the copy is enqueued.
    Upload { words: Vec<u64>, key: Option<Vec<u64>> },
}

/// Whether every sequence has `k` addresses in every recurrent layer.
fn batch_is_ready(seqs: &Vec<&SequenceState>, ssm_layers: &Vec<usize>, k: usize) -> (r: bool)
    requires
        k >= 1,
        states_listed(seqs@, ssm_layers@),
    ensures
        r == batch_ready(seqs@, ssm_layers@, k as int),
{
    let mut l: usize = 0;
    while l < ssm_layers.len()
        invariant
            k >= 1,
            states_listed(seqs@, ssm_layers@),
            l <= ssm_layers@.len(),
            forall|a: int, i: int|
                0 <= a < l && 0 <= i < seqs@.len() ==> column_ready(
                    #[trigger] seqs@[i].layer_states@[#[trigger] ssm_layers@[a] as int],
                    k as int,
                ),
        decreases ssm_layers@.len() - l,
    {
        let at: usize = ssm_layers[l];
        let mut i: usize = 0;
        while i < seqs.len()
            invariant
                k >= 1,
                states_listed(seqs@, ssm_layers@),
                l < ssm_layers@.len(),
                at == ssm_layers@[l as int],
                i <= seqs@.len(),
                forall|b: int|
                    0 <= b < i ==> column_ready(
                        #[trigger] seqs@[b].layer_states@[at as int],
                        k as int,
                    ),
            decreases seqs@.len() - i,
        {
            let seq: &SequenceState = seqs[i];
            assert(ssm_layers@[l as int] < seqs@[i as int].layer_states@.len());
            let ready: bool = match &seq.layer_states[at] {
                LayerState::Ssm(ssm) => !ssm.h_state.is_null() && ssm.h_state_intermediates.len() >= k
                    - 1,
                LayerState::Other => false,
            };
            if !ready {
                assert(!column_ready(
                    seqs@[i as int].layer_states@[ssm_layers@[l as int] as int],
                    k as int,
                ));
                return false;
            }
            i = i + 1;
        }
        l = l + 1;
    }
    true
}

/// Build the pointer tables of a batch whose addresses are all present.
fn build_words(
    seqs: &Vec<&SequenceState>,
    ssm_layers: &Vec<usize>,
    k: usize,
    ghosts: &Vec<(u32, u32)>,
    ghost_columns: &Vec<Vec<Vec<u64>>>,
    shape: WyShape,
) -> (r: Vec<u64>)
    requires
        shape.wf(),
        1 <= k <= shape.tables_per_layer,
        states_listed(seqs@, ssm_layers@),
        batch_ready(seqs@, ssm_layers@, k as int),
        ghost_columns_ok(ghosts@, ghost_columns@, ssm_layers@.len() as int),
        ssm_layers@.len() * shape.entries_per_layer <= usize::MAX,
    ensures
        r@ == wy_words(seqs@, ssm_layers@, k as int, ghosts@, ghost_columns@, shape),
{
    let e: usize = shape.entries_per_layer;
    let s: usize = shape.table_seqs;
    let ghost all = wy_words(seqs@, ssm_layers@, k as int, ghosts@, ghost_columns@, shape);
    proof {
        assert(e > 0) by (nonlinear_arith)
            requires
                shape.table_seqs > 0,
                shape.tables_per_layer > 0,
                shape.table_seqs * shape.tables_per_layer <= e,
        ;
    }
    let total: usize = ssm_layers.len() * e;
    let mut words: Vec<u64> = Vec::new();
    let mut x: usize = 0;
    while x < total
        invariant
            e == shape.entries_per_layer,
            s == shape.table_seqs,
            e > 0,
            s > 0,
            1 <= k,
            total == ssm_layers@.len() * e,
            x <= total,
            states_listed(seqs@, ssm_layers@),
            batch_ready(seqs@, ssm_layers@, k as int),
            ghost_columns_ok(ghosts@, ghost_columns@, ssm_layers@.len() as int),
            all == wy_words(seqs@, ssm_layers@, k as int, ghosts@, ghost_columns@, shape),
            words@ == all.subrange(0, x as int),
        decreases total - x,
    {
        let l: usize = x / e;
        let rem: usize = x % e;
        let t: usize = rem / s;
        let i: usize = rem % s;
        proof {
            assert(l < ssm_layers@.len()) by (nonlinear_arith)
                requires
                    l == x / e,
                    x < ssm_layers@.len() * e,
                    e > 0,
            ;
        }
        let n: usize = seqs.len();
        let word: u64 = if i < n {
            if t < k {
                let seq: &SequenceState = seqs[i];
                let at: usize = ssm_layers[l];
                assert(column_ready(seqs@[i as int].layer_states@[ssm_layers@[l as int] as int], k as int));
                match &seq.layer_states[at] {
                    LayerState::Ssm(ssm) => if t == 0 {
                        ssm.h_state.0
                    } else {
                        ssm.h_state_intermediates[t - 1].0
                    },
                    LayerState::Other => 0,
                }
            } else {
                0
            }
        } else if i - n < ghosts.len() {
            let g: usize = i - n;
            let gk: u32 = ghosts[g].1;
            if t == 0 || t < gk as usize {
                assert(ghost_columns@[g as int]@.len() == ssm_layers@.len());
                assert(ghost_columns@[g as int]@[l as int]@.len() >= ghost_depth(ghosts@[g as int].1));
                ghost_columns[g][l][t]
            } else {
                0
            }
        } else {
            0
        };
        assert(word == all[x as int]);
        words.push(word);
        x = x + 1;
        assert(words@ =~= all.subrange(0, x as int));
    }
    assert(words@ =~= all);
    words
}

/// Each sequence's pool slot as a word, in batch order.
pub open spec fn slot_words(seqs: Seq<&SequenceState>) -> Seq<u32> {
    Seq::new(seqs.len(), |i: int| seqs[i].slot()->0 as u32)
}

/// Whether every sequence holds a pool slot.
pub open spec fn all_slotted(seqs: Seq<&SequenceState>) -> bool {
    forall|i: int| 0 <= i < seqs.len() ==> (#[trigger] seqs[i]).slot() is Some
}

/// Each sequence's pool slot as a word, or `None` when one has no slot.
pub fn batch_slots(seqs: &Vec<&SequenceState>) -> (r: Option<Vec<u32>>)
    ensures
        r is Some == all_slotted(seqs@),
        r matches Some(v) ==> v@ == slot_words(seqs@),
{
    let mut out: Vec<u32> = Vec::new();
    let mut i: usize = 0;
    while i < seqs.len()
        invariant
            i <= seqs@.len(),
            forall|j: int| 0 <= j < i ==> (#[trigger] seqs@[j]).slot() is Some,
            out@ == slot_words(seqs@).subrange(0, i as int),
        decreases seqs@.len() - i,
    {
        let seq: &SequenceState = seqs[i];
        match seq.ssm_slot_idx() {
            Some(slot) => out.push(slot as u32),
            None => {
                assert(seqs@[i as int].slot() is None);
                return None;
            },
        }
        i = i + 1;
        assert(out@ =~= slot_words(seqs@).subrange(0, i as int));
    }
    assert(out@ =~= slot_words(seqs@));
    Some(out)
}

/// The cache key of a staging: `None` with the cache off or a sequence without a slot.
pub open spec fn stage_key(
    seqs: Seq<&SequenceState>,
    k: usize,
    ghosts: Seq<(u32, u32)>,
    cache_on: bool,
) -> Option<Seq<u64>> {
    if cache_on && all_slotted(seqs) {
        Some(wy_key_spec(slot_words(seqs), k, ghosts))
    } else {
        None
    }
}

/// Whether two word lists are equal.
fn same_key(a: &Vec<u64>, b: &Vec<u64>) -> (r: bool)
    ensures
        r == (a@ == b@),
{
    if a.len() != b.len() {
        return false;
    }
    let mut i: usize = 0;
    while i < a.len()
        invariant
            a@.len() == b@.len(),
            i <= a@.len(),
            forall|j: int| 0 <= j < i ==> a@[j] == b@[j],
        decreases a@.len() - i,
    {
        if a[i] != b[i] {
            return false;
        }
        i = i + 1;
    }
    assert(a@ =~= b@);
    true
}

/// Whether a batch of this shape has tables at all.
pub open spec fn wy_admitted(
    tables_null: bool,
    n: int,
    num_ghosts: int,
    k: int,
    num_ssm: int,
    shape: WyShape,
) -> bool {
    &&& !tables_null
    &&& n + num_ghosts <= shape.table_seqs
    &&& 2 <= k <= shape.tables_per_layer
    &&& num_ssm > 0
}

/// Whether the key on record is this batch's.
pub open spec fn wy_hit(
    seqs: Seq<&SequenceState>,
    k: usize,
    ghosts: Seq<(u32, u32)>,
    cache_on: bool,
    cache: Option<Vec<u64>>,
) -> bool {
    let key = stage_key(seqs, k, ghosts, cache_on);
    key is Some && cache is Some && cache->0@ == key->0
}

/// The recurrent layers.
pub open spec fn recurrent(types: Seq<LayerType>) -> Seq<usize> {
    indices_of(types, LayerType::LinearAttention, types.len() as int)
}

/// What a staging finds before it reads an address.
pub enum WyLookup {
    /// No tables: the layers get none.
    Null,
    /// The device already holds these tables.
    Cached,
    /// The tables are to be built and uploaded; `key` is recorded once the copy is enqueued.
    Build { key: Option<Vec<u64>> },
}

/// Whether a batch's pointer tables have to be built.
///
/// `Null` when the table buffer is null, the batch with its ghosts exceeds a table, `k` is
/// outside `2..=tables_per_layer`, the model has no recurrent layer, or a sequence lacks an
/// address and the tables are not cached. `Cached` when `cache` holds this batch's key. No ghost
/// address is needed for the answer.
pub fn wy_lookup(
    tables_null: bool,
    seqs: &Vec<&SequenceState>,
    types: &Vec<LayerType>,
    k: usize,
    ghosts: &Vec<(u32, u32)>,
    shape: WyShape,
    cache_on: bool,
    cache: &Option<Vec<u64>>,
) -> (r: WyLookup)
    requires
        wy_admitted(
            tables_null,
            seqs@.len() as int,
            ghosts@.len() as int,
            k as int,
            recurrent(types@).len() as int,
            shape,
        ) && !wy_hit(seqs@, k, ghosts@, cache_on, *cache) ==> states_listed(
            seqs@,
            recurrent(types@),
        ),
    ensures
        ({
            let admitted = wy_admitted(
                tables_null,
                seqs@.len() as int,
                ghosts@.len() as int,
                k as int,
                recurrent(types@).len() as int,
                shape,
            );
            let key = stage_key(seqs@, k, ghosts@, cache_on);
            let hit = wy_hit(seqs@, k, ghosts@, cache_on, *cache);
            let ready = batch_ready(seqs@, recurrent(types@), k as int);
            &&& (r is Null) == (!admitted || (!hit && !ready))
            &&& (r is Cached) == (admitted && hit)
            &&& r matches WyLookup::Build { key: stored } ==> {
                &&& stored is Some == key is Some
                &&& stored is Some ==> stored->0@ == key->0
            }
        }),
{
    let n: usize = seqs.len();
    let num_ghosts: usize = ghosts.len();
    if tables_null || num_ghosts > shape.table_seqs || n > shape.table_seqs - num_ghosts || k < 2
        || k > shape.tables_per_layer {
        return WyLookup::Null;
    }
    let ssm_layers: Vec<usize> = layer_indices(types, LayerType::LinearAttention);
    if ssm_layers.len() == 0 {
        return WyLookup::Null;
    }
    let key: Option<Vec<u64>> = if cache_on {
        match batch_slots(seqs) {
            Some(slots) => Some(verify_wy_cache_key(slots.as_slice(), k, ghosts.as_slice())),
            None => None,
        }
    } else {
        None
    };
    match (&key, cache) {
        (Some(mine), Some(staged)) => {
            if same_key(staged, mine) {
                return WyLookup::Cached;
            }
        },
        _ => {},
    }
    if !batch_is_ready(seqs, &ssm_layers, k) {
        return WyLookup::Null;
    }
    WyLookup::Build { key }
}

/// Whether a batch's pointer tables are built and uploaded.
pub open spec fn wy_builds(
    tables_null: bool,
    seqs: Seq<&SequenceState>,
    types: Seq<LayerType>,
    k: usize,
    ghosts: Seq<(u32, u32)>,
    shape: WyShape,
    cache_on: bool,
    cache: Option<Vec<u64>>,
) -> bool {
    &&& wy_admitted(
        tables_null,
        seqs.len() as int,
        ghosts.len() as int,
        k as int,
        recurrent(types).len() as int,
        shape,
    )
    &&& !wy_hit(seqs, k, ghosts, cache_on, cache)
    &&& batch_ready(seqs, recurrent(types), k as int)
}

/// Stage the pointer tables of a batch.
///
/// `Null` and `Cached` as [`wy_lookup`] says; nothing is read of the ghosts' addresses then.
/// Otherwise the tables to upload, with the key to record once the copy is enqueued.
/// `ghost_columns[g][l]` lists the state address and intermediates of ghost `g` in recurrent
/// layer `l`.
pub fn upload_verify_wy_tables(
    tables_null: bool,
    seqs: &Vec<&SequenceState>,
    types: &Vec<LayerType>,
    k: usize,
    ghosts: &Vec<(u32, u32)>,
    ghost_columns: &Vec<Vec<Vec<u64>>>,
    shape: WyShape,
    cache_on: bool,
    cache: &Option<Vec<u64>>,
) -> (r: WyStage)
    requires
        wy_admitted(
            tables_null,
            seqs@.len() as int,
            ghosts@.len() as int,
            k as int,
            recurrent(types@).len() as int,
            shape,
        ) && !wy_hit(seqs@, k, ghosts@, cache_on, *cache) ==> states_listed(
            seqs@,
            recurrent(types@),
        ),
        wy_builds(tables_null, seqs@, types@, k, ghosts@, shape, cache_on, *cache) ==> {
            &&& shape.wf()
            &&& recurrent(types@).len() * shape.entries_per_layer <= usize::MAX
            &&& ghost_columns_ok(ghosts@, ghost_columns@, recurrent(types@).len() as int)
            &&& forall|g: int|
                0 <= g < ghosts@.len() ==> (#[trigger] ghosts@[g]).1 <= shape.tables_per_layer
        },
    ensures
        ({
            let admitted = wy_admitted(
                tables_null,
                seqs@.len() as int,
                ghosts@.len() as int,
                k as int,
                recurrent(types@).len() as int,
                shape,
            );
            let key = stage_key(seqs@, k, ghosts@, cache_on);
            let hit = wy_hit(seqs@, k, ghosts@, cache_on, *cache);
            let ready = batch_ready(seqs@, recurrent(types@), k as int);
            &&& (r is Null) == (!admitted || (!hit && !ready))
            &&& (r is Cached) == (admitted && hit)
            &&& r matches WyStage::Upload { words, key: stored } ==> {
                &&& words@ == wy_words(
                    seqs@,
                    recurrent(types@),
                    k as int,
                    ghosts@,
                    ghost_columns@,
                    shape,
                )
                &&& stored is Some == key is Some
                &&& stored is Some ==> stored->0@ == key->0
            }
        }),
{
    match wy_lookup(tables_null, seqs, types, k, ghosts, shape, cache_on, cache) {
        WyLookup::Null => WyStage::Null,
        WyLookup::Cached => WyStage::Cached,
        WyLookup::Build { key } => {
            let ssm_layers: Vec<usize> = layer_indices(types, LayerType::LinearAttention);
            let words: Vec<u64> = build_words(seqs, &ssm_layers, k, ghosts, ghost_columns, shape);
            WyStage::Upload { words, key }
        },
    }
}

/// Record an enqueued upload: the device now holds its tables and no others, so a keyed upload
/// replaces the recorded key and an unkeyed one forgets it.
pub fn record_staged_key(cache: &mut Option<Vec<u64>>, key: Option<Vec<u64>>)
    ensures
        *final(cache) == key,
{
    *cache = key;
}

/// Whether a batch's addresses are those a pool gives for its slots: recurrent layer `l`, slot
/// word and table `t` determine the address.
pub open spec fn pool_backed(
    pool: spec_fn(int, u32, int) -> u64,
    seqs: Seq<&SequenceState>,
    ssm_layers: Seq<usize>,
    k: int,
    ghosts: Seq<(u32, u32)>,
    ghost_columns: Seq<Vec<Vec<u64>>>,
) -> bool {
    &&& forall|i: int, l: int, t: int|
        0 <= i < seqs.len() && 0 <= l < ssm_layers.len() && 0 <= t < k
            ==> #[trigger] state_column(seqs[i].layer_states@[ssm_layers[l] as int], t)
            == #[trigger] pool(l, slot_words(seqs)[i], t)
    &&& forall|g: int, l: int, t: int|
        0 <= g < ghosts.len() && 0 <= l < ssm_layers.len() && 0 <= t < ghost_depth(ghosts[g].1)
            ==> #[trigger] ghost_columns[g]@[l]@[t] == #[trigger] pool(l, ghosts[g].0, t)
}

/// Equal cache keys mean identical tables: two batches whose addresses come from the same pool
/// and whose keys are equal stage the same words, so a cached staging may be reused.
pub proof fn equal_keys_stage_equal_tables(
    pool: spec_fn(int, u32, int) -> u64,
    seqs1: Seq<&SequenceState>,
    columns1: Seq<Vec<Vec<u64>>>,
    k1: usize,
    ghosts1: Seq<(u32, u32)>,
    seqs2: Seq<&SequenceState>,
    columns2: Seq<Vec<Vec<u64>>>,
    k2: usize,
    ghosts2: Seq<(u32, u32)>,
    ssm_layers: Seq<usize>,
    shape: WyShape,
)
    requires
        shape.wf(),
        seqs1.len() <= usize::MAX,
        seqs2.len() <= usize::MAX,
        pool_backed(pool, seqs1, ssm_layers, k1 as int, ghosts1, columns1),
        pool_backed(pool, seqs2, ssm_layers, k2 as int, ghosts2, columns2),
        wy_key_spec(slot_words(seqs1), k1, ghosts1) == wy_key_spec(slot_words(seqs2), k2, ghosts2),
    ensures
        wy_words(seqs1, ssm_layers, k1 as int, ghosts1, columns1, shape) == wy_words(
            seqs2,
            ssm_layers,
            k2 as int,
            ghosts2,
            columns2,
            shape,
        ),
{
    wy_key_is_injective(slot_words(seqs1), k1, ghosts1, slot_words(seqs2), k2, ghosts2);
    let a = wy_words(seqs1, ssm_layers, k1 as int, ghosts1, columns1, shape);
    let b = wy_words(seqs2, ssm_layers, k2 as int, ghosts2, columns2, shape);
    let e = shape.entries_per_layer as int;
    let s = shape.table_seqs as int;
    assert(slot_words(seqs1).len() == seqs1.len());
    assert(slot_words(seqs2).len() == seqs2.len());
    assert(e > 0) by (nonlinear_arith)
        requires
            shape.table_seqs > 0,
            shape.tables_per_layer > 0,
            shape.table_seqs * shape.tables_per_layer <= e,
    ;
    assert forall|x: int| 0 <= x < a.len() implies a[x] == b[x] by {
        let l = x / e;
        let t = (x % e) / s;
        let i = (x % e) % s;
        assert(0 <= l < ssm_layers.len()) by (nonlinear_arith)
            requires
                l == x / e,
                0 <= x < ssm_layers.len() * e,
                e > 0,
        ;
        assert(0 <= x % e);
        assert(t >= 0) by (nonlinear_arith)
            requires
                t == (x % e) / s,
                0 <= x % e,
                s > 0,
        ;
        if i < seqs1.len() {
            if t < k1 {
                assert(state_column(seqs1[i].layer_states@[ssm_layers[l] as int], t) == pool(
                    l,
                    slot_words(seqs1)[i],
                    t,
                ));
                assert(state_column(seqs2[i].layer_states@[ssm_layers[l] as int], t) == pool(
                    l,
                    slot_words(seqs2)[i],
                    t,
                ));
            }
        } else if i < seqs1.len() + ghosts1.len() {
            let g = i - seqs1.len();
            if t < ghost_depth(ghosts1[g].1) {
                assert(columns1[g]@[l]@[t] == pool(l, ghosts1[g].0, t));
                assert(columns2[g]@[l]@[t] == pool(l, ghosts2[g].0, t));
            }
        }
    }
    assert(a =~= b);
}

/// One step of a run of stagings.
pub struct Staging<'a> {
    pub seqs: Seq<&'a SequenceState>,
    pub k: usize,
    pub ghosts: Seq<(u32, u32)>,
    pub ghost_columns: Seq<Vec<Vec<u64>>>,
    pub cache_on: bool,
    /// Whether the step ended without tables.
    pub null: bool,
}

/// The key on record and the words the device holds.
pub struct StagedTables {
    pub recorded: Option<Seq<u64>>,
    pub held: Seq<u64>,
}

impl<'a> Staging<'a> {
    /// The key of this step.
    pub open spec fn key(&self) -> Option<Seq<u64>> {
        stage_key(self.seqs, self.k, self.ghosts, self.cache_on)
    }

    /// The tables of this step.
    pub open spec fn words(&self, ssm_layers: Seq<usize>, shape: WyShape) -> Seq<u64> {
        wy_words(
            self.seqs,
            ssm_layers,
            self.k as int,
            self.ghosts,
            self.ghost_columns,
            shape,
        )
    }

    /// Whether this step's addresses are the pool's.
    pub open spec fn backed(
        &self,
        pool: spec_fn(int, u32, int) -> u64,
        ssm_layers: Seq<usize>,
    ) -> bool {
        &&& self.seqs.len() <= usize::MAX
        &&& pool_backed(
            pool,
            self.seqs,
            ssm_layers,
            self.k as int,
            self.ghosts,
            self.ghost_columns,
        )
    }

    /// Whether this step finds its key on record.
    pub open spec fn hits(&self, t: StagedTables) -> bool {
        self.key() is Some && t.recorded == self.key()
    }

    /// The tables after this step: unchanged without tables or on a hit, else uploaded and
    /// recorded.
    pub open spec fn after(
        &self,
        t: StagedTables,
        ssm_layers: Seq<usize>,
        shape: WyShape,
    ) -> StagedTables {
        if self.null || self.hits(t) {
            t
        } else {
            StagedTables { recorded: self.key(), held: self.words(ssm_layers, shape) }
        }
    }
}

/// The tables after the first `n` steps of a run that begins with nothing on record.
pub open spec fn run_tables(
    run: Seq<Staging<'_>>,
    n: int,
    initial: Seq<u64>,
    ssm_layers: Seq<usize>,
    shape: WyShape,
) -> StagedTables
    decreases n,
{
    if n <= 0 {
        StagedTables { recorded: None, held: initial }
    } else {
        run[n - 1].after(run_tables(run, n - 1, initial, ssm_layers, shape), ssm_layers, shape)
    }
}

/// A hit means that the device holds this batch's tables: over any run of stagings, keyed and
/// unkeyed, whose keyed steps have their addresses from one pool, a step that finds its key on
/// record finds its own words on the device.
pub proof fn cached_tables_are_the_batchs(
    pool: spec_fn(int, u32, int) -> u64,
    run: Seq<Staging<'_>>,
    n: int,
    initial: Seq<u64>,
    ssm_layers: Seq<usize>,
    shape: WyShape,
    present: Staging<'_>,
)
    requires
        shape.wf(),
        0 <= n <= run.len(),
        forall|i: int|
            0 <= i < run.len() && (#[trigger] run[i]).key() is Some ==> run[i].backed(
                pool,
                ssm_layers,
            ),
        present.backed(pool, ssm_layers),
        present.hits(run_tables(run, n, initial, ssm_layers, shape)),
    ensures
        run_tables(run, n, initial, ssm_layers, shape).held == present.words(ssm_layers, shape),
    decreases n,
{
    if n > 0 {
        let before = run_tables(run, n - 1, initial, ssm_layers, shape);
        let step = run[n - 1];
        if step.null || step.hits(before) {
            cached_tables_are_the_batchs(pool, run, n - 1, initial, ssm_layers, shape, present);
        } else {
            equal_keys_stage_equal_tables(
                pool,
                step.seqs,
                step.ghost_columns,
                step.k,
                step.ghosts,
                present.seqs,
                present.ghost_columns,
                present.k,
                present.ghosts,
                ssm_layers,
                shape,
            );
        }
    }
}

proof fn lemma_table_place(l: int, t: int, i: int, e: int, s: int, tables: int)
    requires
        0 <= l,
        0 <= t < tables,
        0 <= i < s,
        s * tables <= e,
    ensures
        (l * e + t * s + i) / e == l,
        ((l * e + t * s + i) % e) / s == t,
        ((l * e + t * s + i) % e) % s == i,
        0 <= l * e,
        0 <= t * s + i < e,
{
    assert(0 <= t * s && t * s + i < e && 0 <= l * e) by (nonlinear_arith)
        requires
            0 <= l,
            0 <= t < tables,
            0 <= i < s,
            s * tables <= e,
    ;
    let x = l * e + t * s + i;
    vstd::arithmetic::div_mod::lemma_fundamental_div_mod_converse(x, e, l, t * s + i);
    vstd::arithmetic::div_mod::lemma_fundamental_div_mod_converse(t * s + i, s, t, i);
}

proof fn lemma_layer_end(l: int, n: int, e: int)
    requires
        0 <= l < n,
        0 <= e,
    ensures
        l * e + e <= n * e,
{
    assert(l * e + e <= n * e) by (nonlinear_arith)
        requires
            0 <= l < n,
            0 <= e,
    ;
}

/// Every table entry is the address of its own layer and sequence: for recurrent layer `l`, the
/// model's layer `layers[l]`, table `t` holds at place `i` sequence `i`'s own address in that
/// layer, its state for table 0 and its intermediate `t - 1` otherwise.
pub proof fn tables_hold_each_layers_own_states(
    tables_null: bool,
    seqs: &Vec<&SequenceState>,
    types: &Vec<LayerType>,
    k: usize,
    ghosts: &Vec<(u32, u32)>,
    ghost_columns: &Vec<Vec<Vec<u64>>>,
    shape: WyShape,
    cache_on: bool,
    cache: &Option<Vec<u64>>,
    r: WyStage,
    layers: Vec<usize>,
    l: int,
    t: int,
    i: int,
)
    requires
        call_ensures(
            upload_verify_wy_tables,
            (tables_null, seqs, types, k, ghosts, ghost_columns, shape, cache_on, cache),
            r,
        ),
        call_ensures(layer_indices, (types, LayerType::LinearAttention), layers),
        r is Upload,
        0 < shape.table_seqs,
        shape.table_seqs * shape.tables_per_layer <= shape.entries_per_layer,
        0 <= l < layers@.len(),
        0 <= t < k,
        0 <= i < seqs@.len(),
    ensures
        ({
            let words = r->Upload_words@;
            let place = l * shape.entries_per_layer + t * shape.table_seqs + i;
            &&& 0 <= place < words.len()
            &&& seqs@[i].layer_states@[layers@[l] as int] matches LayerState::Ssm(ssm)
            &&& t == 0 ==> words[place] == ssm.h_state.0
            &&& t > 0 ==> words[place] == ssm.h_state_intermediates@[t - 1].0
        }),
{
    let e = shape.entries_per_layer as int;
    let s = shape.table_seqs as int;
    lemma_table_place(l, t, i, e, s, shape.tables_per_layer as int);
    lemma_layer_end(l, layers@.len() as int, e);
    assert(column_ready(seqs@[i].layer_states@[layers@[l] as int], k as int));
}

/// A ghost's entries follow the batch's own: in every recurrent layer, table `t` holds at the
/// ghost's place its own column's address for that layer, as deep as the ghost.
pub proof fn tables_hold_each_ghosts_own_column(
    tables_null: bool,
    seqs: &Vec<&SequenceState>,
    types: &Vec<LayerType>,
    k: usize,
    ghosts: &Vec<(u32, u32)>,
    ghost_columns: &Vec<Vec<Vec<u64>>>,
    shape: WyShape,
    cache_on: bool,
    cache: &Option<Vec<u64>>,
    r: WyStage,
    layers: Vec<usize>,
    l: int,
    t: int,
    g: int,
)
    requires
        call_ensures(
            upload_verify_wy_tables,
            (tables_null, seqs, types, k, ghosts, ghost_columns, shape, cache_on, cache),
            r,
        ),
        call_ensures(layer_indices, (types, LayerType::LinearAttention), layers),
        r is Upload,
        0 < shape.table_seqs,
        shape.table_seqs * shape.tables_per_layer <= shape.entries_per_layer,
        0 <= l < layers@.len(),
        0 <= g < ghosts@.len(),
        0 <= t < shape.tables_per_layer,
        t == 0 || t < ghosts@[g].1,
    ensures
        ({
            let words = r->Upload_words@;
            let place = l * shape.entries_per_layer + t * shape.table_seqs + seqs@.len() + g;
            &&& 0 <= place < words.len()
            &&& words[place] == ghost_columns@[g]@[l]@[t]
        }),
{
    let e = shape.entries_per_layer as int;
    let s = shape.table_seqs as int;
    lemma_table_place(l, t, seqs@.len() + g, e, s, shape.tables_per_layer as int);
    lemma_layer_end(l, layers@.len() as int, e);
}

/// Every entry that belongs to no sequence and no ghost is zero: tables past the row count at a
/// sequence's place, tables past a ghost's depth at its place, and all places behind them. The
/// tables of all recurrent layers are uploaded, and nothing else.
pub proof fn other_table_entries_are_zero(
    tables_null: bool,
    seqs: &Vec<&SequenceState>,
    types: &Vec<LayerType>,
    k: usize,
    ghosts: &Vec<(u32, u32)>,
    ghost_columns: &Vec<Vec<Vec<u64>>>,
    shape: WyShape,
    cache_on: bool,
    cache: &Option<Vec<u64>>,
    r: WyStage,
    layers: Vec<usize>,
    l: int,
    t: int,
    i: int,
)
    requires
        call_ensures(
            upload_verify_wy_tables,
            (tables_null, seqs, types, k, ghosts, ghost_columns, shape, cache_on, cache),
            r,
        ),
        call_ensures(layer_indices, (types, LayerType::LinearAttention), layers),
        r is Upload,
        0 < shape.table_seqs,
        shape.table_seqs * shape.tables_per_layer <= shape.entries_per_layer,
        0 <= l < layers@.len(),
        0 <= t < shape.tables_per_layer,
        0 <= i < shape.table_seqs,
        i < seqs@.len() ==> t >= k,
        seqs@.len() <= i < seqs@.len() + ghosts@.len() ==> t > 0 && t >= ghosts@[i
            - seqs@.len()].1,
    ensures
        r->Upload_words@.len() == layers@.len() * shape.entries_per_layer,
        r->Upload_words@[l * shape.entries_per_layer + t * shape.table_seqs + i] == 0,
{
    let e = shape.entries_per_layer as int;
    let s = shape.table_seqs as int;
    lemma_table_place(l, t, i, e, s, shape.tables_per_layer as int);
    lemma_layer_end(l, layers@.len() as int, e);
}

/// The key spells out what the tables depend on: the row count, the number of sequences, each
/// sequence's slot, and each ghost's slot and depth, in this order.
pub proof fn key_spells_out_the_batch(
    slots: &[u32],
    k: usize,
    ghosts: &[(u32, u32)],
    r: Vec<u64>,
)
    requires
        call_ensures(verify_wy_cache_key, (slots, k, ghosts), r),
    ensures
        r@.len() == 2 + slots@.len() + 2 * ghosts@.len(),
        r@[0] == k,
        r@[1] == slots@.len() as u64,
        forall|i: int| 0 <= i < slots@.len() ==> r@[2 + i] == #[trigger] slots@[i],
        forall|g: int|
            0 <= g < ghosts@.len() ==> r@[2 + slots@.len() + 2 * g] == (#[trigger] ghosts@[g]).0
                && r@[2 + slots@.len() + 2 * g + 1] == ghosts@[g].1,
{
    assert forall|g: int| 0 <= g < ghosts@.len() implies r@[2 + slots@.len() + 2 * g] == (
    #[trigger] ghosts@[g]).0 && r@[2 + slots@.len() + 2 * g + 1] == ghosts@[g].1 by {
        assert((2 * g) % 2 == 0 && (2 * g) / 2 == g);
        assert((2 * g + 1) % 2 == 1 && (2 * g + 1) / 2 == g);
    }
}

/// A cached answer means the recorded key is the one of exactly this batch; tables are built only
/// for a batch within the tables' limits whose sequences all have an address for every row; and
/// without a buffer, a recurrent layer, or room there are none.
pub proof fn lookup_answers_for_this_batch(
    tables_null: bool,
    seqs: &Vec<&SequenceState>,
    types: &Vec<LayerType>,
    k: usize,
    ghosts: &Vec<(u32, u32)>,
    shape: WyShape,
    cache_on: bool,
    cache: &Option<Vec<u64>>,
    r: WyLookup,
    layers: Vec<usize>,
    slots: Option<Vec<u32>>,
    key: Vec<u64>,
)
    requires
        call_ensures(
            wy_lookup,
            (tables_null, seqs, types, k, ghosts, shape, cache_on, cache),
            r,
        ),
        call_ensures(layer_indices, (types, LayerType::LinearAttention), layers),
        call_ensures(batch_slots, (seqs,), slots),
        slots matches Some(s) ==> {
            &&& key@.len() == 2 + s@.len() + 2 * ghosts@.len()
            &&& key@[0] == k
            &&& key@[1] == s@.len() as u64
            &&& forall|i: int| 0 <= i < s@.len() ==> key@[2 + i] == #[trigger] s@[i]
            &&& forall|g: int|
                0 <= g < ghosts@.len() ==> key@[2 + s@.len() + 2 * g] == (#[trigger] ghosts@[g]).0
                    && key@[2 + s@.len() + 2 * g + 1] == ghosts@[g].1
        },
    ensures
        ({
            let room = !tables_null && seqs@.len() + ghosts@.len() <= shape.table_seqs && 2 <= k
                <= shape.tables_per_layer && layers@.len() > 0;
            let on_record = cache_on && slots is Some && (cache matches Some(c) && c@ == key@);
            let addressed = forall|l: int, i: int|
                0 <= l < layers@.len() && 0 <= i < seqs@.len() ==> (
                #[trigger] seqs@[i].layer_states@[#[trigger] layers@[l] as int] matches LayerState::Ssm(
                    ssm,
                ) && ssm.h_state.0 != 0 && ssm.h_state_intermediates@.len() + 1 >= k);
            &&& r is Cached <==> room && on_record
            &&& r is Build <==> room && !on_record && addressed
            &&& r matches WyLookup::Build { key: stored } ==> (match stored {
                Some(words) => cache_on && slots is Some && words@ == key@,
                None => !(cache_on && slots is Some),
            })
        }),
{
    if let Some(s) = slots {
        assert(slot_words(seqs@) == s@);
        let spelled = wy_key_spec(s@, k, ghosts@);
        assert forall|x: int| 0 <= x < spelled.len() implies spelled[x] == key@[x] by {
            if 2 <= x < 2 + s@.len() {
                assert(s@[x - 2] == key@[2 + (x - 2)]);
            } else if x >= 2 + s@.len() {
                let g = (x - 2 - s@.len()) / 2;
                assert(ghosts@[g].0 == key@[2 + s@.len() + 2 * g]);
            }
        }
        assert(spelled =~= key@);
    }
    assert(batch_ready(seqs@, layers@, k as int) <==> forall|l: int, i: int|
        0 <= l < layers@.len() && 0 <= i < seqs@.len() ==> (
        #[trigger] seqs@[i].layer_states@[#[trigger] layers@[l] as int] matches LayerState::Ssm(ssm)
            && ssm.h_state.0 != 0 && ssm.h_state_intermediates@.len() + 1 >= k)) by {
        if batch_ready(seqs@, layers@, k as int) {
            assert forall|l: int, i: int|
                0 <= l < layers@.len() && 0 <= i < seqs@.len() implies (
            #[trigger] seqs@[i].layer_states@[#[trigger] layers@[l] as int] matches LayerState::Ssm(
                ssm,
            ) && ssm.h_state.0 != 0 && ssm.h_state_intermediates@.len() + 1 >= k) by {
                assert(column_ready(seqs@[i].layer_states@[layers@[l] as int], k as int));
            }
        }
    }
}

/// The slots of a batch are its sequences' own pool slots, in batch order, and there are none
/// when a sequence has no slot.
pub proof fn batch_slots_are_the_sequences_own(seqs: &Vec<&SequenceState>, r: Option<Vec<u32>>)
    requires
        call_ensures(batch_slots, (seqs,), r),
    ensures
        r is Some <==> forall|i: int|
            0 <= i < seqs@.len() ==> ((#[trigger] seqs@[i]).ssm_slot matches Some(g) && g.slot
                is Some),
        r matches Some(v) ==> v@.len() == seqs@.len() && forall|i: int|
            0 <= i < v@.len() ==> #[trigger] v@[i] == seqs@[i].ssm_slot->0.slot->0 as u32,
{
    assert(all_slotted(seqs@) <==> forall|i: int|
        0 <= i < seqs@.len() ==> ((#[trigger] seqs@[i]).ssm_slot matches Some(g) && g.slot
            is Some)) by {
        if all_slotted(seqs@) {
            assert forall|i: int| 0 <= i < seqs@.len() implies ((
            #[trigger] seqs@[i]).ssm_slot matches Some(g) && g.slot is Some) by {
                assert(seqs@[i].slot() is Some);
            }
        }
    }
    if let Some(v) = r {
        assert forall|i: int| 0 <= i < v@.len() implies #[trigger] v@[i]
            == seqs@[i].ssm_slot->0.slot->0 as u32 by {
            assert(seqs@[i].slot() is Some);
        }
    }
}

/// A ghost's column starts with its layer's state and goes on with the layer's intermediates, one
/// per further row.
pub proof fn ghost_columns_are_the_slots_addresses(a: &LayerAddresses, depth: u32, r: Vec<u64>)
    requires
        call_ensures(ghost_column, (a, depth), r),
    ensures
        r@.len() == if depth > 1 {
            depth as int
        } else {
            1
        },
        r@[0] == a.h_state.0,
        forall|t: int| 1 <= t < r@.len() ==> #[trigger] r@[t] == a.h_intermediates@[t - 1].0,
{
}

/// Restaging reaches every ghost's last row and is no wider than the batch or its deepest ghost
/// needs.
pub proof fn restaging_is_as_wide_as_needed(
    k_max: usize,
    ghosts: &Vec<(u32, u32)>,
    r: usize,
    w: int,
    g: int,
)
    requires
        call_ensures(restage_rows, (k_max, ghosts), r),
        k_max <= w,
        forall|x: int| 0 <= x < ghosts@.len() ==> (#[trigger] ghosts@[x]).1 <= w,
    ensures
        k_max <= r <= w,
        0 <= g < ghosts@.len() ==> ghosts@[g].1 <= r,
{
}

/// After an upload the recorded key is the uploaded tables' own, so a lookup answers from the
/// device exactly for a batch with that key, and an upload without a key is never answered for.
pub proof fn only_the_last_upload_is_answered_for(
    cache: &mut Option<Vec<u64>>,
    key: Option<Vec<u64>>,
    tables_null: bool,
    seqs: &Vec<&SequenceState>,
    types: &Vec<LayerType>,
    k: usize,
    ghosts: &Vec<(u32, u32)>,
    shape: WyShape,
    cache_on: bool,
    r: WyLookup,
)
    requires
        call_ensures(record_staged_key, (cache, key), ()),
        call_ensures(
            wy_lookup,
            (tables_null, seqs, types, k, ghosts, shape, cache_on, final(cache)),
            r,
        ),
    ensures
        *final(cache) == key,
        key is None ==> !(r is Cached),
        r is Cached ==> key is Some && key->0@[0] == k && key->0@[1] == seqs@.len() as u64,
{
    if r is Cached {
        assert(wy_key_spec(slot_words(seqs@), k, ghosts@)[0] == k as u64);
        assert(wy_key_spec(slot_words(seqs@), k, ghosts@)[1] == slot_words(seqs@).len() as u64);
    }
}

/// The uploaded tables are those of all recurrent layers and nothing else.
pub proof fn uploads_hold_every_layers_tables(
    tables_null: bool,
    seqs: &Vec<&SequenceState>,
    types: &Vec<LayerType>,
    k: usize,
    ghosts: &Vec<(u32, u32)>,
    ghost_columns: &Vec<Vec<Vec<u64>>>,
    shape: WyShape,
    cache_on: bool,
    cache: &Option<Vec<u64>>,
    r: WyStage,
    layers: Vec<usize>,
    found: WyLookup,
)
    requires
        call_ensures(
            upload_verify_wy_tables,
            (tables_null, seqs, types, k, ghosts, ghost_columns, shape, cache_on, cache),
            r,
        ),
        call_ensures(
            wy_lookup,
            (tables_null, seqs, types, k, ghosts, shape, cache_on, cache),
            found,
        ),
        call_ensures(layer_indices, (types, LayerType::LinearAttention), layers),
    ensures
        r matches WyStage::Upload { words, key } ==> words@.len() == layers@.len()
            * shape.entries_per_layer,
        r is Null <==> found is Null,
        r is Cached <==> found is Cached,
        r matches WyStage::Upload { words, key } ==> (found matches WyLookup::Build { key: other }
            && (key is Some <==> other is Some) && (key is Some ==> key->0@ == other->0@)),
{
    let n = layers@.len() as int;
    let e = shape.entries_per_layer as int;
    assert(0 <= n * e) by (nonlinear_arith)
        requires
            0 <= n,
            0 <= e,
    ;
}

} // verus!
