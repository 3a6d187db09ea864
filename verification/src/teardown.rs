//! Releasing a model's device resources: every release is tried even after an earlier one failed,
//! and the first failure is what is reported.

use vstd::prelude::*;

verus! {

/// A group of resources.
#[derive(Clone, Copy, Debug, PartialEq, Eq, Structural)]
pub enum Resource {
    DerivedWeights,
    SsmSnapshots,
    SsmStatePool,
    KvCache,
    BufferArena,
    WeightStore,
}

/// The releases of a model in order. The weight store comes after every owner, because the
/// layers hold pointers into it.
pub open spec fn release_order(has_weight_store: bool) -> Seq<Resource> {
    let owners = seq![
        Resource::DerivedWeights,
        Resource::SsmSnapshots,
        Resource::SsmStatePool,
        Resource::KvCache,
        Resource::BufferArena,
    ];
    if has_weight_store {
        owners.push(Resource::WeightStore)
    } else {
        owners
    }
}

/// The releases of a model in order.
pub fn release_pools(has_weight_store: bool) -> (r: Vec<Resource>)
    ensures
        r@ == release_order(has_weight_store),
{
    let mut out: Vec<Resource> = Vec::new();
    out.push(Resource::DerivedWeights);
    out.push(Resource::SsmSnapshots);
    out.push(Resource::SsmStatePool);
    out.push(Resource::KvCache);
    out.push(Resource::BufferArena);
    if has_weight_store {
        out.push(Resource::WeightStore);
    }
    assert(out@ =~= release_order(has_weight_store));
    out
}

/// Handles of the state pool that keep it from being released: a sequence still holds a slot.
pub fn pool_still_held(strong_count: usize) -> (r: Option<usize>)
    requires
        strong_count >= 1,
    ensures
        r == if strong_count > 1 {
            Some((strong_count - 1) as usize)
        } else {
            None
        },
{
    if strong_count > 1 {
        Some(strong_count - 1)
    } else {
        None
    }
}

/// The outcome of one release.
#[derive(Clone, Copy, Debug, PartialEq, Eq, Structural)]
pub struct Released {
    pub resource: Resource,
    pub failed: bool,
}

/// Whether release `i` is the first that failed.
pub open spec fn first_failed(done: Seq<Released>, i: int) -> bool {
    &&& 0 <= i < done.len()
    &&& done[i].failed
    &&& forall|j: int| 0 <= j < i ==> !(#[trigger] done[j]).failed
}

/// Whether every release succeeded.
pub open spec fn none_failed(done: Seq<Released>) -> bool {
    forall|j: int| 0 <= j < done.len() ==> !(#[trigger] done[j]).failed
}

/// The first failed release, whose error is the one returned; `None` when all went well.
pub fn first_failure(done: &Vec<Released>) -> (r: Option<usize>)
    ensures
        r matches Some(i) ==> first_failed(done@, i as int),
        r is None ==> none_failed(done@),
        r is None ==> forall|j: int| 0 <= j < done@.len() ==> !(#[trigger] done@[j]).failed,
{
    let mut i: usize = 0;
    while i < done.len()
        invariant
            i <= done@.len(),
            forall|j: int| 0 <= j < i ==> !(#[trigger] done@[j]).failed,
        decreases done@.len() - i,
    {
        if done[i].failed {
            return Some(i);
        }
        i = i + 1;
    }
    None
}

/// Everything is released once and an owner before what it borrows from: the derived weights
/// first, then the snapshots before the pool their slots lie in, the cache and the arena, and the
/// weights last, exactly when the model owns them.
pub proof fn owners_are_released_first(has_weight_store: bool, r: Vec<Resource>)
    requires
        call_ensures(release_pools, (has_weight_store,), r),
    ensures
        r@.len() == if has_weight_store {
            6int
        } else {
            5
        },
        r@[0] is DerivedWeights,
        r@[1] is SsmSnapshots,
        r@[2] is SsmStatePool,
        r@[3] is KvCache,
        r@[4] is BufferArena,
        has_weight_store ==> r@[5] is WeightStore,
{
}

/// The reported failure is the earliest one, and none is reported only when nothing failed; a
/// pool is still held by as many owners as there are beside this one.
pub proof fn the_first_failure_is_reported(
    done: &Vec<Released>,
    r: Option<usize>,
    i: int,
    strong_count: usize,
    held: Option<usize>,
)
    requires
        call_ensures(first_failure, (done,), r),
        call_ensures(pool_still_held, (strong_count,), held),
        strong_count >= 1,
        0 <= i < done@.len(),
    ensures
        done@[i].failed ==> r is Some && r->0 <= i,
        r matches Some(x) ==> x < done@.len() && done@[x as int].failed,
        held is Some <==> strong_count > 1,
        held matches Some(n) ==> n + 1 == strong_count,
{
    if done@[i].failed {
        if r is Some && r->0 > i {
            assert(!done@[i].failed);
        }
    }
}

} // verus!
