//! Kinds of layers and how they are counted.

use vstd::prelude::*;

verus! {

/// Kind of a transformer layer.
#[derive(Clone, Copy, Debug, PartialEq, Eq, Structural)]
pub enum LayerType {
    FullAttention,
    SlidingAttention,
    /// A recurrent (state-space) mixer.
    LinearAttention,
    /// Any other layer.
    Other,
}

/// How many of the first `n` layers are of kind `ty`.
pub open spec fn count_before(types: Seq<LayerType>, ty: LayerType, n: int) -> nat
    decreases n,
{
    if n <= 0 {
        0
    } else {
        count_before(types, ty, n - 1) + if n <= types.len() && types[n - 1] == ty {
            1nat
        } else {
            0
        }
    }
}

/// The first `n` layers hold at most `n` of any kind.
pub proof fn lemma_count_before_bound(types: Seq<LayerType>, ty: LayerType, n: int)
    requires
        0 <= n,
    ensures
        count_before(types, ty, n) <= n,
    decreases n,
{
    if n > 0 {
        lemma_count_before_bound(types, ty, n - 1);
    }
}

/// Whether some layer is of kind `ty`.
pub fn any_layer(types: &Vec<LayerType>, ty: LayerType) -> (r: bool)
    ensures
        r == exists|i: int| 0 <= i < types@.len() && types@[i] == ty,
{
    let mut i: usize = 0;
    while i < types.len()
        invariant
            i <= types@.len(),
            forall|j: int| 0 <= j < i ==> types@[j] != ty,
        decreases types@.len() - i,
    {
        if types[i] == ty {
            return true;
        }
        i = i + 1;
    }
    false
}

/// Indices of the layers of kind `ty` among the first `n`, in order.
pub open spec fn indices_of(types: Seq<LayerType>, ty: LayerType, n: int) -> Seq<usize>
    decreases n,
{
    if n <= 0 {
        Seq::empty()
    } else {
        let rest = indices_of(types, ty, n - 1);
        if n <= types.len() && types[n - 1] == ty {
            rest.push((n - 1) as usize)
        } else {
            rest
        }
    }
}

/// Every listed index is that of a layer of the kind, and there are as many as are counted.
pub proof fn lemma_indices_of(types: Seq<LayerType>, ty: LayerType, n: int)
    requires
        0 <= n <= types.len() <= usize::MAX,
    ensures
        indices_of(types, ty, n).len() == count_before(types, ty, n),
        forall|i: int|
            0 <= i < indices_of(types, ty, n).len() ==> (#[trigger] indices_of(types, ty, n)[i]) < n
                && types[indices_of(types, ty, n)[i] as int] == ty,
    decreases n,
{
    if n > 0 {
        lemma_indices_of(types, ty, n - 1);
    }
}

/// Indices of the layers of kind `ty`, in order.
pub fn layer_indices(types: &Vec<LayerType>, ty: LayerType) -> (r: Vec<usize>)
    ensures
        r@ == indices_of(types@, ty, types@.len() as int),
        r@.len() == count_before(types@, ty, types@.len() as int),
        forall|i: int|
            0 <= i < r@.len() ==> (#[trigger] r@[i]) < types@.len() && types@[r@[i] as int] == ty,
{
    let mut out: Vec<usize> = Vec::new();
    let mut i: usize = 0;
    while i < types.len()
        invariant
            i <= types@.len(),
            out@ == indices_of(types@, ty, i as int),
        decreases types@.len() - i,
    {
        if types[i] == ty {
            out.push(i);
        }
        i = i + 1;
    }
    proof {
        lemma_indices_of(types@, ty, types@.len() as int);
    }
    out
}

/// The listed layers are all layers of the kind and no others, each once and in model order.
pub proof fn listed_layers_are_exactly_the_kind(
    types: &Vec<LayerType>,
    ty: LayerType,
    r: Vec<usize>,
)
    requires
        call_ensures(layer_indices, (types, ty), r),
    ensures
        forall|a: int, b: int| 0 <= a < b < r@.len() ==> (#[trigger] r@[a]) < (#[trigger] r@[b]),
        forall|a: int|
            0 <= a < r@.len() ==> (#[trigger] r@[a]) < types@.len() && types@[r@[a] as int] == ty,
        forall|j: int|
            0 <= j < types@.len() && types@[j] == ty ==> #[trigger] r@.contains(j as usize),
{
    assert(types.len() == types@.len());
    lemma_indices_exact(types@, ty, types@.len() as int);
}

proof fn lemma_indices_exact(types: Seq<LayerType>, ty: LayerType, n: int)
    requires
        0 <= n <= types.len() <= usize::MAX,
    ensures
        ({
            let r = indices_of(types, ty, n);
            &&& forall|a: int| 0 <= a < r.len() ==> (#[trigger] r[a]) < n
            &&& forall|a: int, b: int|
                0 <= a < b < r.len() ==> (#[trigger] r[a]) < (#[trigger] r[b])
            &&& forall|j: int| 0 <= j < n && types[j] == ty ==> #[trigger] r.contains(j as usize)
        }),
    decreases n,
{
    if n > 0 {
        lemma_indices_exact(types, ty, n - 1);
        let rest = indices_of(types, ty, n - 1);
        let r = indices_of(types, ty, n);
        assert forall|j: int| 0 <= j < n && types[j] == ty implies #[trigger] r.contains(
            j as usize,
        ) by {
            if j < n - 1 {
                assert(rest.contains(j as usize));
                let a = choose|a: int| 0 <= a < rest.len() && rest[a] == j as usize;
                assert(r[a] == j as usize);
            } else {
                assert(r[r.len() - 1] == j as usize);
            }
        }
    }
}

/// The place of a layer in the list of its kind is the number of such layers before it.
pub proof fn lemma_rank_in_list(types: Seq<LayerType>, ty: LayerType, n: int, x: int)
    requires
        0 <= n <= types.len() <= usize::MAX,
        0 <= x < indices_of(types, ty, n).len(),
    ensures
        count_before(types, ty, indices_of(types, ty, n)[x] as int) == x,
    decreases n,
{
    if n > 0 {
        lemma_indices_of(types, ty, n - 1);
        if x < indices_of(types, ty, n - 1).len() {
            lemma_rank_in_list(types, ty, n - 1, x);
        }
    }
}

/// Some layer is reported exactly when one of the model's layers is of the kind.
pub proof fn a_kind_is_found_where_it_occurs(types: &Vec<LayerType>, ty: LayerType, r: bool, i: int)
    requires
        call_ensures(any_layer, (types, ty), r),
        0 <= i < types@.len(),
    ensures
        types@[i] == ty ==> r,
        r ==> exists|j: int| 0 <= j < types@.len() && types@[j] == ty,
{
}

} // verus!
