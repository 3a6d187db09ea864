//! The swap record of a sequence: for each block in order and each KV layer, the key bytes then
//! the value bytes; then, for each linear-attention layer, the state and the convolution state.
//!
//! Both directions go through lists of byte pairs in record order.

use vstd::prelude::*;

verus! {

/// Two byte strings that stand next to each other in a record.
pub struct BytePair {
    pub first: Vec<u8>,
    pub second: Vec<u8>,
}

/// The bytes of a pair.
pub open spec fn pair_bytes(p: BytePair) -> Seq<u8> {
    p.first@ + p.second@
}

/// The bytes of the first `n` pairs.
pub open spec fn pairs_bytes(pairs: Seq<BytePair>, n: int) -> Seq<u8>
    decreases n,
{
    if n <= 0 {
        Seq::empty()
    } else {
        pairs_bytes(pairs, n - 1) + pair_bytes(pairs[n - 1])
    }
}

/// Append the pairs to a record, in order.
pub fn write_pairs(out: &mut Vec<u8>, pairs: &Vec<BytePair>)
    ensures
        final(out)@ == old(out)@ + pairs_bytes(pairs@, pairs@.len() as int),
{
    let mut i: usize = 0;
    assert(out@ =~= old(out)@ + pairs_bytes(pairs@, 0));
    while i < pairs.len()
        invariant
            i <= pairs@.len(),
            out@ == old(out)@ + pairs_bytes(pairs@, i as int),
        decreases pairs@.len() - i,
    {
        push_bytes(out, &pairs[i].first);
        push_bytes(out, &pairs[i].second);
        i = i + 1;
        assert(out@ =~= old(out)@ + pairs_bytes(pairs@, i as int));
    }
}

/// Append `bytes` to `out`.
fn push_bytes(out: &mut Vec<u8>, bytes: &Vec<u8>)
    ensures
        final(out)@ == old(out)@ + bytes@,
{
    let mut i: usize = 0;
    while i < bytes.len()
        invariant
            i <= bytes@.len(),
            out@ == old(out)@ + bytes@.subrange(0, i as int),
        decreases bytes@.len() - i,
    {
        out.push(bytes[i]);
        i = i + 1;
        assert(out@ =~= old(out)@ + bytes@.subrange(0, i as int));
    }
    assert(bytes@.subrange(0, i as int) =~= bytes@);
}

/// Bytes of the first `n` pairs of the given sizes.
pub open spec fn sizes_sum(sizes: Seq<(usize, usize)>, n: int) -> int
    decreases n,
{
    if n <= 0 {
        0
    } else {
        sizes_sum(sizes, n - 1) + sizes[n - 1].0 + sizes[n - 1].1
    }
}

proof fn lemma_sizes_mono(sizes: Seq<(usize, usize)>, a: int, b: int)
    requires
        0 <= a <= b <= sizes.len(),
    ensures
        0 <= sizes_sum(sizes, a) <= sizes_sum(sizes, b),
    decreases b,
{
    if b > 0 {
        if a == b {
            lemma_sizes_mono(sizes, 0, b - 1);
        } else {
            lemma_sizes_mono(sizes, a, b - 1);
        }
    }
}

/// Whether `pairs` are the pairs of the given sizes that stand in `buf` from byte `at` on.
pub open spec fn pairs_at(
    buf: Seq<u8>,
    at: int,
    sizes: Seq<(usize, usize)>,
    pairs: Seq<BytePair>,
) -> bool {
    &&& pairs.len() == sizes.len()
    &&& forall|i: int|
        0 <= i < sizes.len() ==> {
            let start = at + sizes_sum(sizes, i);
            &&& (#[trigger] pairs[i]).first@ == buf.subrange(start, start + sizes[i].0)
            &&& pairs[i].second@ == buf.subrange(
                start + sizes[i].0,
                start + sizes[i].0 + sizes[i].1,
            )
        }
}

/// Copy of the bytes `start..end`.
fn copy_range(buf: &[u8], start: usize, end: usize) -> (r: Vec<u8>)
    requires
        start <= end <= buf@.len(),
    ensures
        r@ == buf@.subrange(start as int, end as int),
{
    let mut out: Vec<u8> = Vec::new();
    let mut i: usize = start;
    while i < end
        invariant
            start <= i <= end <= buf@.len(),
            out@ == buf@.subrange(start as int, i as int),
        decreases end - i,
    {
        out.push(buf[i]);
        i = i + 1;
        assert(out@ =~= buf@.subrange(start as int, i as int));
    }
    out
}

/// Read pairs of the given sizes from byte `at` on, with the byte after them; `None` when the
/// record ends before the last of them.
pub fn read_pairs(buf: &[u8], at: usize, sizes: &Vec<(usize, usize)>) -> (r: Option<
    (Vec<BytePair>, usize),
>)
    requires
        at <= buf@.len(),
    ensures
        r is Some == (at + sizes_sum(sizes@, sizes@.len() as int) <= buf@.len()),
        r matches Some((pairs, end)) ==> pairs_at(buf@, at as int, sizes@, pairs@) && end == at
            + sizes_sum(sizes@, sizes@.len() as int),
{
    let total: usize = buf.len();
    let mut pairs: Vec<BytePair> = Vec::new();
    let mut cur: usize = at;
    let mut i: usize = 0;
    while i < sizes.len()
        invariant
            total == buf@.len(),
            i <= sizes@.len(),
            cur == at + sizes_sum(sizes@, i as int),
            cur <= total,
            pairs@.len() == i,
            forall|j: int|
                0 <= j < i ==> {
                    let start = at + sizes_sum(sizes@, j);
                    &&& (#[trigger] pairs@[j]).first@ == buf@.subrange(start, start + sizes@[j].0)
                    &&& pairs@[j].second@ == buf@.subrange(
                        start + sizes@[j].0,
                        start + sizes@[j].0 + sizes@[j].1,
                    )
                },
        decreases sizes@.len() - i,
    {
        let (a, b) = sizes[i];
        proof {
            lemma_sizes_mono(sizes@, i + 1, sizes@.len() as int);
        }
        if a > total - cur {
            return None;
        }
        let mid: usize = cur + a;
        if b > total - mid {
            return None;
        }
        let end: usize = mid + b;
        pairs.push(
            BytePair { first: copy_range(buf, cur, mid), second: copy_range(buf, mid, end) },
        );
        cur = end;
        i = i + 1;
    }
    Some((pairs, cur))
}

/// Sizes of the KV pairs of a record: every layer's stride, for each block in turn.
pub open spec fn kv_sizes_spec(strides: Seq<usize>, num_blocks: nat) -> Seq<(usize, usize)> {
    Seq::new(
        num_blocks * strides.len(),
        |i: int| (strides[i % strides.len() as int], strides[i % strides.len() as int]),
    )
}

/// Sizes of the KV pairs of a record: every layer's stride, for each block in turn.
pub fn kv_sizes(strides: &Vec<usize>, num_blocks: usize) -> (r: Vec<(usize, usize)>)
    ensures
        r@ == kv_sizes_spec(strides@, num_blocks as nat),
{
    let layers: usize = strides.len();
    let ghost all = kv_sizes_spec(strides@, num_blocks as nat);
    let mut out: Vec<(usize, usize)> = Vec::new();
    let mut b: usize = 0;
    proof {
        assert(0 * layers == 0) by (nonlinear_arith);
    }
    while b < num_blocks
        invariant
            layers == strides@.len(),
            b <= num_blocks,
            out@.len() == b * layers,
            forall|i: int|
                0 <= i < out@.len() ==> #[trigger] out@[i] == (
                    strides@[i % layers as int],
                    strides@[i % layers as int],
                ),
        decreases num_blocks - b,
    {
        let mut l: usize = 0;
        while l < layers
            invariant
                layers == strides@.len(),
                l <= layers,
                out@.len() == b * layers + l,
                forall|i: int|
                    0 <= i < out@.len() ==> #[trigger] out@[i] == (
                        strides@[i % layers as int],
                        strides@[i % layers as int],
                    ),
            decreases layers - l,
        {
            proof {
                let n = layers as int;
                assert((b * n + l) % n == l) by (nonlinear_arith)
                    requires
                        0 <= l < n,
                        0 <= b,
                ;
            }
            out.push((strides[l], strides[l]));
            l = l + 1;
        }
        proof {
            assert((b + 1) * layers == b * layers + layers) by (nonlinear_arith);
        }
        b = b + 1;
    }
    assert(out@ =~= all);
    out
}

/// Sizes of the recurrent pairs of a record: the state and the convolution state of each
/// linear-attention layer.
pub fn ssm_sizes(num_layers: usize, h_bytes: usize, conv_bytes: usize) -> (r: Vec<(usize, usize)>)
    ensures
        r@ == Seq::new(num_layers as nat, |i: int| (h_bytes, conv_bytes)),
{
    let mut out: Vec<(usize, usize)> = Vec::new();
    let mut i: usize = 0;
    while i < num_layers
        invariant
            i <= num_layers,
            out@ == Seq::new(i as nat, |i: int| (h_bytes, conv_bytes)),
        decreases num_layers - i,
    {
        out.push((h_bytes, conv_bytes));
        i = i + 1;
    }
    out
}

/// The sizes of a list of pairs.
pub open spec fn sizes_of(pairs: Seq<BytePair>) -> Seq<(usize, usize)> {
    Seq::new(
        pairs.len(),
        |i: int| (pairs[i].first@.len() as usize, pairs[i].second@.len() as usize),
    )
}

/// Reading gives back what writing wrote: whatever stands before and after, the pairs read at
/// the place where `pairs` were written, with their sizes, are `pairs`.
pub proof fn read_gives_back_write(
    before: Seq<u8>,
    pairs: Seq<BytePair>,
    after: Seq<u8>,
    read: Seq<BytePair>,
)
    requires
        forall|i: int|
            0 <= i < pairs.len() ==> (#[trigger] pairs[i]).first@.len() <= usize::MAX
                && pairs[i].second@.len() <= usize::MAX,
        pairs_at(
            before + pairs_bytes(pairs, pairs.len() as int) + after,
            before.len() as int,
            sizes_of(pairs),
            read,
        ),
    ensures
        read.len() == pairs.len(),
        forall|i: int|
            0 <= i < pairs.len() ==> (#[trigger] read[i]).first@ == pairs[i].first@
                && read[i].second@ == pairs[i].second@,
{
    let buf = before + pairs_bytes(pairs, pairs.len() as int) + after;
    let sizes = sizes_of(pairs);
    assert forall|i: int| 0 <= i < pairs.len() implies (#[trigger] read[i]).first@
        == pairs[i].first@ && read[i].second@ == pairs[i].second@ by {
        lemma_pair_in_record(pairs, pairs.len() as int, i);
        let start = before.len() + sizes_sum(sizes, i);
        let n1 = pairs[i].first@.len() as int;
        let n2 = pairs[i].second@.len() as int;
        assert(sizes[i].0 == n1 && sizes[i].1 == n2);
        let all = pairs_bytes(pairs, pairs.len() as int);
        let off = sizes_sum(sizes, i);
        assert(read[i].first@ =~= all.subrange(off, off + n1));
        assert(read[i].second@ =~= all.subrange(off + n1, off + n1 + n2));
    }
}

proof fn lemma_pair_in_record(pairs: Seq<BytePair>, n: int, i: int)
    requires
        0 <= i < n <= pairs.len(),
        forall|i: int|
            0 <= i < pairs.len() ==> (#[trigger] pairs[i]).first@.len() <= usize::MAX
                && pairs[i].second@.len() <= usize::MAX,
    ensures
        ({
            let off = sizes_sum(sizes_of(pairs), i);
            let n1 = pairs[i].first@.len() as int;
            let n2 = pairs[i].second@.len() as int;
            let all = pairs_bytes(pairs, n);
            &&& 0 <= off
            &&& off + n1 + n2 <= all.len()
            &&& all.subrange(off, off + n1) == pairs[i].first@
            &&& all.subrange(off + n1, off + n1 + n2) == pairs[i].second@
        }),
    decreases n,
{
    lemma_record_len(pairs, n - 1);
    lemma_record_len(pairs, i);
    lemma_record_len(pairs, n);
    let off = sizes_sum(sizes_of(pairs), i);
    let n1 = pairs[i].first@.len() as int;
    let n2 = pairs[i].second@.len() as int;
    let all = pairs_bytes(pairs, n);
    if i == n - 1 {
        assert(all.subrange(off, off + n1) =~= pairs[i].first@);
        assert(all.subrange(off + n1, off + n1 + n2) =~= pairs[i].second@);
    } else {
        lemma_pair_in_record(pairs, n - 1, i);
        let head = pairs_bytes(pairs, n - 1);
        assert(all.subrange(off, off + n1) =~= head.subrange(off, off + n1));
        assert(all.subrange(off + n1, off + n1 + n2) =~= head.subrange(off + n1, off + n1 + n2));
    }
}

proof fn lemma_record_len(pairs: Seq<BytePair>, n: int)
    requires
        0 <= n <= pairs.len(),
        forall|i: int|
            0 <= i < pairs.len() ==> (#[trigger] pairs[i]).first@.len() <= usize::MAX
                && pairs[i].second@.len() <= usize::MAX,
    ensures
        pairs_bytes(pairs, n).len() == sizes_sum(sizes_of(pairs), n),
    decreases n,
{
    if n > 0 {
        lemma_record_len(pairs, n - 1);
        assert(pairs[n - 1].first@.len() <= usize::MAX);
    }
}

/// One more pair is written behind the others, its first part and then its second.
pub proof fn each_pair_is_written_behind(
    out: &mut Vec<u8>,
    out2: &mut Vec<u8>,
    pairs: &Vec<BytePair>,
    longer: &Vec<BytePair>,
    p: BytePair,
)
    requires
        call_ensures(write_pairs, (out, pairs), ()),
        call_ensures(write_pairs, (out2, longer), ()),
        old(out2)@ == old(out)@,
        longer@ == pairs@.push(p),
    ensures
        final(out2)@ == final(out)@ + p.first@ + p.second@,
        pairs@.len() == 0 ==> final(out)@ == old(out)@,
{
    lemma_pairs_prefix(pairs@, longer@, pairs@.len() as int);
    assert(longer@[pairs@.len() as int] == p);
    assert(final(out2)@ =~= final(out)@ + p.first@ + p.second@);
    assert(pairs@.len() == 0 ==> final(out)@ =~= old(out)@);
}

proof fn lemma_pairs_prefix(a: Seq<BytePair>, b: Seq<BytePair>, n: int)
    requires
        0 <= n <= a.len() <= b.len(),
        forall|i: int| 0 <= i < a.len() ==> #[trigger] b[i] == a[i],
    ensures
        pairs_bytes(a, n) == pairs_bytes(b, n),
    decreases n,
{
    if n > 0 {
        lemma_pairs_prefix(a, b, n - 1);
        assert(b[n - 1] == a[n - 1]);
    }
}

/// One more pair is read right behind the others: its first part of the first size, its second
/// part of the second size behind it, and the read ends there. It is read exactly when all its
/// bytes are there, and the pairs before it are read as without it.
pub proof fn each_pair_is_read_behind(
    buf: &[u8],
    at: usize,
    sizes: &Vec<(usize, usize)>,
    longer: &Vec<(usize, usize)>,
    size: (usize, usize),
    r: Option<(Vec<BytePair>, usize)>,
    r2: Option<(Vec<BytePair>, usize)>,
    i: int,
)
    requires
        call_ensures(read_pairs, (buf, at, sizes), r),
        call_ensures(read_pairs, (buf, at, longer), r2),
        longer@ == sizes@.push(size),
        r is Some,
        at <= buf@.len(),
    ensures
        ({
            let end = (r->0).1;
            &&& r2 is Some <==> end + size.0 + size.1 <= buf@.len()
            &&& r2 is Some ==> {
                let last = (r2->0).0@[sizes@.len() as int];
                &&& (r2->0).0@.len() == sizes@.len() + 1
                &&& last.first@ == buf@.subrange(end as int, end + size.0)
                &&& last.second@ == buf@.subrange(end + size.0, end + size.0 + size.1)
                &&& (r2->0).1 == end + size.0 + size.1
                &&& 0 <= i < sizes@.len() ==> (r2->0).0@[i].first@ == (r->0).0@[i].first@
                    && (r2->0).0@[i].second@ == (r->0).0@[i].second@
            }
        }),
        sizes@.len() == 0 ==> (r->0).1 == at && (r->0).0@.len() == 0,
{
    lemma_sums_prefix(sizes@, longer@, sizes@.len() as int);
    assert(longer@[sizes@.len() as int] == size);
    if 0 <= i < sizes@.len() {
        lemma_sums_prefix(sizes@, longer@, i);
        assert(longer@[i] == sizes@[i]);
        if r2 is Some {
            assert((r2->0).0@[i].first@.len() >= 0 && (r->0).0@[i].first@.len() >= 0);
        }
    }
    if r2 is Some {
        let last = (r2->0).0@[sizes@.len() as int];
        assert(last.first@.len() >= 0);
    }
}

proof fn lemma_sums_prefix(a: Seq<(usize, usize)>, b: Seq<(usize, usize)>, n: int)
    requires
        0 <= n <= a.len() <= b.len(),
        forall|i: int| 0 <= i < a.len() ==> #[trigger] b[i] == a[i],
    ensures
        sizes_sum(a, n) == sizes_sum(b, n),
    decreases n,
{
    if n > 0 {
        lemma_sums_prefix(a, b, n - 1);
        assert(b[n - 1] == a[n - 1]);
    }
}

/// A record holds, block by block and within a block layer by layer, the key and the value of that
/// layer, each of the layer's stride; and a recurrent record one state pair per layer.
pub proof fn records_go_block_by_block(
    strides: &Vec<usize>,
    num_blocks: usize,
    r: Vec<(usize, usize)>,
    block: int,
    layer: int,
    num_layers: usize,
    h_bytes: usize,
    conv_bytes: usize,
    r2: Vec<(usize, usize)>,
)
    requires
        call_ensures(kv_sizes, (strides, num_blocks), r),
        call_ensures(ssm_sizes, (num_layers, h_bytes, conv_bytes), r2),
        0 <= block < num_blocks,
        0 <= layer < strides@.len(),
    ensures
        r@.len() == num_blocks * strides@.len(),
        0 <= block * strides@.len() + layer < r@.len(),
        r@[block * strides@.len() + layer] == (strides@[layer], strides@[layer]),
        r2@.len() == num_layers,
        forall|i: int| 0 <= i < num_layers ==> #[trigger] r2@[i] == (h_bytes, conv_bytes),
{
    let n = strides@.len() as int;
    vstd::arithmetic::div_mod::lemma_fundamental_div_mod_converse(block * n + layer, n, block, layer);
    assert(0 <= block * n && block * n + layer < num_blocks * n) by (nonlinear_arith)
        requires
            0 <= block < num_blocks,
            0 <= layer < n,
    ;
}

/// Reading no pair always succeeds, and reads nothing; where some pairs do not stand in the
/// record, neither do these and one more.
pub proof fn records_are_read_from_the_start(
    buf: &[u8],
    at: usize,
    sizes: &Vec<(usize, usize)>,
    longer: &Vec<(usize, usize)>,
    size: (usize, usize),
    r: Option<(Vec<BytePair>, usize)>,
    r2: Option<(Vec<BytePair>, usize)>,
)
    requires
        call_ensures(read_pairs, (buf, at, sizes), r),
        call_ensures(read_pairs, (buf, at, longer), r2),
        longer@ == sizes@.push(size),
        at <= buf@.len(),
    ensures
        sizes@.len() == 0 ==> r is Some,
        r is None ==> r2 is None,
{
    lemma_sums_prefix(sizes@, longer@, sizes@.len() as int);
    assert(longer@[sizes@.len() as int] == size);
}

} // verus!
