//! One recurrent layer over the packed tokens of several streams: the projections once over all
//! tokens, the convolution per stream, the recurrence in one call or per stream, and the
//! post-processing once.

use vstd::prelude::*;

use crate::verify_ssm::SsmDims;

verus! {

/// Prefix sums of the streams' token counts: from zero on, never falling.
pub open spec fn is_prefix_sums(cu: Seq<i32>) -> bool {
    &&& cu.len() >= 1
    &&& cu[0] == 0
    &&& forall|i: int, j: int| 0 <= i <= j < cu.len() ==> #[trigger] cu[i] <= #[trigger] cu[j]
}

/// Tokens of stream `b`.
pub open spec fn segment_len(cu: Seq<i32>, b: int) -> int {
    cu[b + 1] - cu[b]
}

/// A stream's place among the packed tokens.
#[derive(Clone, Copy, Debug, PartialEq, Eq, Structural)]
pub struct Segment {
    pub off: usize,
    pub len: usize,
}

/// Stream `b`'s place among the packed tokens.
pub open spec fn segment_of(cu: Seq<i32>, b: int) -> Segment {
    Segment { off: cu[b] as usize, len: segment_len(cu, b) as usize }
}

/// Each stream's place among the packed tokens.
pub fn segments(cu: &Vec<i32>) -> (r: Vec<Segment>)
    requires
        is_prefix_sums(cu@),
    ensures
        r@ == Seq::new(
            (cu@.len() - 1) as nat,
            |b: int| segment_of(cu@, b),
        ),
{
    let mut out: Vec<Segment> = Vec::new();
    let streams: usize = cu.len() - 1;
    let mut b: usize = 0;
    while b < streams
        invariant
            streams == cu@.len() - 1,
            is_prefix_sums(cu@),
            b <= streams,
            out@ == Seq::new(
                b as nat,
                |b: int| segment_of(cu@, b),
            ),
        decreases streams - b,
    {
        assert(0 <= cu@[0] <= cu@[b as int] <= cu@[b + 1]);
        out.push(Segment { off: cu[b] as usize, len: (cu[b + 1] - cu[b]) as usize });
        b = b + 1;
    }
    out
}

/// Whether all streams have the same number of tokens.
pub open spec fn is_uniform(cu: Seq<i32>) -> bool {
    forall|b: int| 0 <= b < cu.len() - 1 ==> #[trigger] segment_len(cu, b) == segment_len(cu, 0)
}

/// Whether all streams have the same number of tokens; the recurrence is then one batched call.
pub fn uniform_lengths(cu: &Vec<i32>) -> (r: bool)
    requires
        is_prefix_sums(cu@),
        cu@.len() >= 2,
    ensures
        r == is_uniform(cu@),
{
    assert(cu@[0] <= cu@[1]);
    let first: i32 = cu[1] - cu[0];
    let streams: usize = cu.len() - 1;
    let mut b: usize = 0;
    while b < streams
        invariant
            streams == cu@.len() - 1,
            is_prefix_sums(cu@),
            cu@.len() >= 2,
            first == segment_len(cu@, 0),
            b <= streams,
            forall|j: int| 0 <= j < b ==> #[trigger] segment_len(cu@, j) == segment_len(cu@, 0),
        decreases streams - b,
    {
        assert(0 <= cu@[0] <= cu@[b as int] <= cu@[b + 1]);
        if cu[b + 1] - cu[b] != first {
            assert(segment_len(cu@, b as int) != segment_len(cu@, 0));
            return false;
        }
        b = b + 1;
    }
    true
}

/// Tokens of one recurrence tile.
pub const TILE: u32 = 64;

/// Tiles of a stream of `len` tokens.
pub open spec fn tiles(len: int) -> int {
    (len + 63) / 64
}

/// Tiles of the first `n` streams.
pub open spec fn sum_tiles(cu: Seq<i32>, n: int) -> int
    decreases n,
{
    if n <= 0 {
        0
    } else {
        sum_tiles(cu, n - 1) + tiles(segment_len(cu, n - 1))
    }
}

/// The longest of the first `n` streams.
pub open spec fn max_segment(cu: Seq<i32>, n: int) -> int
    decreases n,
{
    if n <= 0 {
        0
    } else {
        let rest = max_segment(cu, n - 1);
        if rest < segment_len(cu, n - 1) {
            segment_len(cu, n - 1)
        } else {
            rest
        }
    }
}

/// What a recurrence over streams of differing lengths is launched with.
#[derive(Clone, Copy, Debug, PartialEq, Eq, Structural)]
pub struct VarlenExtents {
    /// Tiles of all streams.
    pub total_tiles: usize,
    /// Tiles of the longest stream.
    pub max_tiles: u32,
    /// Tokens of the longest stream.
    pub max_len: u32,
}

proof fn lemma_tiles_bound(cu: Seq<i32>, n: int)
    requires
        is_prefix_sums(cu),
        0 <= n < cu.len(),
    ensures
        0 <= sum_tiles(cu, n) <= cu[n] + n,
        0 <= max_segment(cu, n) <= cu[n],
    decreases n,
{
    if n > 0 {
        lemma_tiles_bound(cu, n - 1);
        assert(cu[n - 1] <= cu[n]);
        assert(0 <= cu[0] <= cu[n - 1]);
    }
}

/// What a recurrence over streams of differing lengths is launched with.
pub fn varlen_extents(cu: &Vec<i32>) -> (r: VarlenExtents)
    requires
        is_prefix_sums(cu@),
        cu@.len() + i32::MAX <= usize::MAX,
    ensures
        r.total_tiles == sum_tiles(cu@, cu@.len() - 1),
        r.max_len == max_segment(cu@, cu@.len() - 1),
        r.max_tiles == tiles(max_segment(cu@, cu@.len() - 1)),
{
    let mut total: usize = 0;
    let mut max_tiles: u32 = 0;
    let mut max_len: u32 = 0;
    let streams: usize = cu.len() - 1;
    let mut b: usize = 0;
    while b < streams
        invariant
            streams == cu@.len() - 1,
            is_prefix_sums(cu@),
            cu@.len() + i32::MAX <= usize::MAX,
            b <= streams,
            total == sum_tiles(cu@, b as int),
            max_len == max_segment(cu@, b as int),
            max_tiles == tiles(max_segment(cu@, b as int)),
        decreases streams - b,
    {
        proof {
            lemma_tiles_bound(cu@, b as int);
            lemma_tiles_bound(cu@, b + 1);
        }
        assert(0 <= cu@[0] <= cu@[b as int] <= cu@[b + 1]);
        let len: u32 = (cu[b + 1] - cu[b]) as u32;
        let n: u32 = len / TILE + if len % TILE != 0 {
            1
        } else {
            0
        };
        assert(n == tiles(len as int));
        total = total + n as usize;
        if n > max_tiles {
            max_tiles = n;
        }
        if len > max_len {
            max_len = len;
        }
        b = b + 1;
    }
    VarlenExtents { total_tiles: total, max_tiles, max_len }
}

/// A stream's slices of the recurrence buffers, as byte offsets.
#[derive(Clone, Copy, Debug, PartialEq, Eq, Structural)]
pub struct GdnSlice {
    pub qkv: usize,
    pub gate_beta: usize,
    pub output: usize,
    pub z: usize,
    pub total_len: usize,
}

/// Values of all heads.
pub open spec fn value_dim(d: SsmDims) -> int {
    d.value_heads * d.value_dim
}

/// The buffers of `total` tokens fit the address space.
pub open spec fn gdn_fits(d: SsmDims, total: int) -> bool {
    &&& d.key_heads * d.key_dim * 2 + d.value_heads * d.value_dim <= usize::MAX
    &&& total * d.conv_dim() * 2 <= usize::MAX
    &&& total * (d.value_heads * 2) * 4 <= usize::MAX
    &&& total * value_dim(d) * 2 <= usize::MAX
    &&& d.value_heads * 2 <= usize::MAX
}

/// The slices of the stream at token `off`: 16-bit queries, keys, values and outputs, and 32-bit
/// gates.
pub open spec fn gdn_slice_spec(d: SsmDims, seg: Segment) -> GdnSlice {
    GdnSlice {
        qkv: (seg.off * d.conv_dim() * 2) as usize,
        gate_beta: (seg.off * (d.value_heads * 2) * 4) as usize,
        output: (seg.off * value_dim(d) * 2) as usize,
        z: (seg.off * value_dim(d) * 2) as usize,
        total_len: seg.len,
    }
}

/// A stream's slices of the recurrence buffers.
pub fn gdn_slice(d: &SsmDims, seg: &Segment, total: usize) -> (r: GdnSlice)
    requires
        seg.off <= total,
        gdn_fits(*d, total as int),
    ensures
        r == gdn_slice_spec(*d, *seg),
{
    proof {
        let a = d.key_heads as int;
        let b = d.key_dim as int;
        let c = d.value_heads as int;
        let e = d.value_dim as int;
        assert(0 <= a * b && 0 <= c * e) by (nonlinear_arith)
            requires
                0 <= a,
                0 <= b,
                0 <= c,
                0 <= e,
        ;
        lemma_scale(seg.off as int, total as int, d.conv_dim());
        lemma_scale(seg.off as int, total as int, c * 2);
        lemma_scale(seg.off as int, total as int, c * e);
    }
    let key_dim: usize = d.key_heads * d.key_dim;
    let values: usize = d.value_heads * d.value_dim;
    let conv_dim: usize = key_dim * 2 + values;
    GdnSlice {
        qkv: seg.off * conv_dim * 2,
        gate_beta: seg.off * (d.value_heads * 2) * 4,
        output: seg.off * values * 2,
        z: seg.off * values * 2,
        total_len: seg.len,
    }
}

proof fn lemma_scale(x: int, y: int, k: int)
    requires
        0 <= x <= y,
        0 <= k,
    ensures
        0 <= x * k <= y * k,
{
    assert(0 <= x * k <= y * k) by (nonlinear_arith)
        requires
            0 <= x <= y,
            0 <= k,
    ;
}

/// How the recurrence of a layer runs.
#[derive(Clone, Copy, Debug, PartialEq, Eq, Structural)]
pub enum GdnRoute {
    /// One batched call over `streams` streams of `len` tokens each, then the states are narrowed
    /// back.
    Batched { streams: usize, len: usize },
    /// One call over `streams` streams of differing lengths; if the layer declines it, one call
    /// per stream.
    Varlen { streams: usize, extents: VarlenExtents },
}

/// How the recurrence of a layer runs.
pub fn gdn_route(cu: &Vec<i32>) -> (r: GdnRoute)
    requires
        is_prefix_sums(cu@),
        cu@.len() >= 2,
        cu@.len() + i32::MAX <= usize::MAX,
    ensures
        (r is Batched) == is_uniform(cu@),
        r matches GdnRoute::Batched { streams, len } ==> streams == cu@.len() - 1 && len
            == segment_len(cu@, 0),
        r matches GdnRoute::Varlen { streams, extents } ==> {
            &&& streams == cu@.len() - 1
            &&& extents.total_tiles == sum_tiles(cu@, cu@.len() - 1)
            &&& extents.max_len == max_segment(cu@, cu@.len() - 1)
            &&& extents.max_tiles == tiles(max_segment(cu@, cu@.len() - 1))
        },
{
    let streams: usize = cu.len() - 1;
    if uniform_lengths(cu) {
        assert(cu@[0] <= cu@[1]);
        GdnRoute::Batched { streams, len: (cu[1] - cu[0]) as usize }
    } else {
        GdnRoute::Varlen { streams, extents: varlen_extents(cu) }
    }
}

/// One device step of the layers over the packed tokens of all streams.
#[derive(Clone, Copy, Debug, PartialEq, Eq, Structural)]
pub enum KernelLayerStep {
    /// Attention over all `rows` packed tokens; every stream starts at `start`.
    Attention { layer: usize, rows: usize, start: usize },
    /// Projections of all `rows` packed tokens.
    Project { layer: usize, rows: usize },
    /// The convolution of one stream, which advances that stream's state.
    Conv { layer: usize, stream: usize, off: usize, len: usize },
    /// The normalization of all `rows` packed tokens.
    Normalize { layer: usize, rows: usize },
    /// The recurrence, as [`gdn_route`] says.
    Recur { layer: usize },
    /// The post-processing of all `rows` packed tokens.
    Post { layer: usize, rows: usize },
}

/// The convolutions of the first `n` streams.
pub open spec fn conv_steps(layer: int, cu: Seq<i32>, n: nat) -> Seq<KernelLayerStep> {
    Seq::new(
        n,
        |b: int|
            KernelLayerStep::Conv {
                layer: layer as usize,
                stream: b as usize,
                off: segment_of(cu, b).off,
                len: segment_of(cu, b).len,
            },
    )
}

/// The steps of one layer.
pub open spec fn kernel_layer(ssm: bool, layer: int, cu: Seq<i32>, start: usize) -> Seq<
    KernelLayerStep,
> {
    let rows = cu.last() as usize;
    let at = layer as usize;
    if ssm {
        seq![KernelLayerStep::Project { layer: at, rows }] + conv_steps(
            layer,
            cu,
            (cu.len() - 1) as nat,
        ) + seq![
            KernelLayerStep::Normalize { layer: at, rows },
            KernelLayerStep::Recur { layer: at },
            KernelLayerStep::Post { layer: at, rows },
        ]
    } else {
        seq![KernelLayerStep::Attention { layer: at, rows, start }]
    }
}

/// The steps of the first `n` layers.
pub open spec fn kernel_layers(is_ssm: Seq<bool>, n: int, cu: Seq<i32>, start: usize) -> Seq<
    KernelLayerStep,
>
    decreases n,
{
    if n <= 0 {
        Seq::empty()
    } else {
        kernel_layers(is_ssm, n - 1, cu, start) + kernel_layer(is_ssm[n - 1], n - 1, cu, start)
    }
}

/// The device steps of all layers over the packed tokens of all streams, which start at `start`.
pub fn kernel_layer_steps(is_ssm: &Vec<bool>, cu: &Vec<i32>, start: usize) -> (r: Vec<
    KernelLayerStep,
>)
    requires
        is_prefix_sums(cu@),
    ensures
        r@ == kernel_layers(is_ssm@, is_ssm@.len() as int, cu@, start),
{
    let parts: Vec<Segment> = segments(cu);
    let rows: usize = cu[cu.len() - 1] as usize;
    let mut steps: Vec<KernelLayerStep> = Vec::new();
    let mut layer: usize = 0;
    while layer < is_ssm.len()
        invariant
            is_prefix_sums(cu@),
            rows == cu@.last() as usize,
            parts@ == Seq::new((cu@.len() - 1) as nat, |b: int| segment_of(cu@, b)),
            layer <= is_ssm@.len(),
            steps@ == kernel_layers(is_ssm@, layer as int, cu@, start),
        decreases is_ssm@.len() - layer,
    {
        let ghost steps0 = steps@;
        if is_ssm[layer] {
            steps.push(KernelLayerStep::Project { layer, rows });
            let ghost steps1 = steps@;
            let mut b: usize = 0;
            assert(steps@ =~= steps1 + conv_steps(layer as int, cu@, 0));
            while b < parts.len()
                invariant
                    parts@ == Seq::new((cu@.len() - 1) as nat, |b: int| segment_of(cu@, b)),
                    b <= parts@.len(),
                    steps@ == steps1 + conv_steps(layer as int, cu@, b as nat),
                decreases parts@.len() - b,
            {
                let part: Segment = parts[b];
                steps.push(
                    KernelLayerStep::Conv { layer, stream: b, off: part.off, len: part.len },
                );
                b = b + 1;
                assert(steps@ =~= steps1 + conv_steps(layer as int, cu@, b as nat));
            }
            steps.push(KernelLayerStep::Normalize { layer, rows });
            steps.push(KernelLayerStep::Recur { layer });
            steps.push(KernelLayerStep::Post { layer, rows });
            assert(steps@ =~= steps0 + kernel_layer(true, layer as int, cu@, start));
        } else {
            steps.push(KernelLayerStep::Attention { layer, rows, start });
            assert(steps@ =~= steps0 + kernel_layer(false, layer as int, cu@, start));
        }
        layer = layer + 1;
    }
    steps
}

/// The slices of different streams do not overlap in any recurrence buffer, and none runs past
/// the end: a later stream's queries, gates, outputs and `z` start at or after the end of an
/// earlier stream's, and a stream's end lies within the bytes of all `total` tokens.
pub proof fn stream_slices_are_disjoint(d: SsmDims, cu: Seq<i32>, a: int, b: int)
    requires
        is_prefix_sums(cu),
        0 <= a < b < cu.len() - 1,
        gdn_fits(d, cu.last() as int),
    ensures
        ({
            let total = cu.last() as int;
            let x = gdn_slice_spec(d, segment_of(cu, a));
            let y = gdn_slice_spec(d, segment_of(cu, b));
            let (m, n) = (segment_len(cu, a), segment_len(cu, b));
            &&& x.qkv + m * d.conv_dim() * 2 <= y.qkv
            &&& x.gate_beta + m * (d.value_heads * 2) * 4 <= y.gate_beta
            &&& x.output + m * value_dim(d) * 2 <= y.output
            &&& x.z + m * value_dim(d) * 2 <= y.z
            &&& y.qkv + n * d.conv_dim() * 2 <= total * d.conv_dim() * 2
            &&& y.gate_beta + n * (d.value_heads * 2) * 4 <= total * (d.value_heads * 2) * 4
            &&& y.output + n * value_dim(d) * 2 <= total * value_dim(d) * 2
            &&& y.z + n * value_dim(d) * 2 <= total * value_dim(d) * 2
        }),
{
    let total = cu.last() as int;
    assert(0 <= cu[0] <= cu[a] <= cu[a + 1] <= cu[b] <= cu[b + 1]);
    assert(cu[b + 1] <= cu[cu.len() - 1]);
    let (x, y) = (cu[a] as int, cu[b] as int);
    assert(d.key_heads * d.key_dim >= 0 && d.value_heads * d.value_dim >= 0) by (nonlinear_arith)
        requires
            d.key_heads >= 0,
            d.key_dim >= 0,
            d.value_heads >= 0,
            d.value_dim >= 0,
    ;
    lemma_packed(x, segment_len(cu, a), y, segment_len(cu, b), total, d.conv_dim());
    lemma_packed(x, segment_len(cu, a), y, segment_len(cu, b), total, d.value_heads * 2);
    lemma_packed(x, segment_len(cu, a), y, segment_len(cu, b), total, value_dim(d));
}

proof fn lemma_packed(x: int, m: int, y: int, n: int, total: int, width: int)
    requires
        0 <= x,
        0 <= m,
        0 <= n,
        x + m <= y,
        y + n <= total,
        0 <= width,
    ensures
        0 <= x * width,
        x * width + m * width <= y * width,
        y * width + n * width <= total * width,
{
    assert(0 <= x * width && x * width + m * width <= y * width && y * width + n * width <= total
        * width) by (nonlinear_arith)
        requires
            0 <= x,
            0 <= m,
            0 <= n,
            x + m <= y,
            y + n <= total,
            0 <= width,
    ;
}

/// The streams' places follow the prefix sums: each starts where the one before ended, and its
/// length is the difference.
pub proof fn segments_follow_each_other(cu: &Vec<i32>, r: Vec<Segment>, b: int)
    requires
        call_ensures(segments, (cu,), r),
        is_prefix_sums(cu@),
        0 <= b < cu@.len() - 1,
    ensures
        r@.len() == cu@.len() - 1,
        r@[b].off == cu@[b],
        r@[b].off + r@[b].len == cu@[b + 1],
        b > 0 ==> r@[b].off == r@[b - 1].off + r@[b - 1].len,
        b == 0 ==> r@[b].off == 0,
{
    assert(0 <= cu@[0] <= cu@[b] <= cu@[b + 1]);
    if b > 0 {
        assert(cu@[0] <= cu@[b - 1] <= cu@[b]);
    }
}

/// The recurrence is one batched call exactly when all streams have the same length, which it is
/// given with their number.
pub proof fn equal_lengths_run_batched(cu: &Vec<i32>, r: GdnRoute, uniform: bool, a: int, b: int)
    requires
        call_ensures(gdn_route, (cu,), r),
        call_ensures(uniform_lengths, (cu,), uniform),
        is_prefix_sums(cu@),
        0 <= a < cu@.len() - 1,
        0 <= b < cu@.len() - 1,
    ensures
        uniform <==> r is Batched,
        r matches GdnRoute::Batched { streams, len } ==> {
            &&& streams == cu@.len() - 1
            &&& len == cu@[a + 1] - cu@[a]
        },
        r matches GdnRoute::Varlen { streams, extents } ==> {
            &&& streams == cu@.len() - 1
            &&& cu@[a + 1] - cu@[a] <= extents.max_len
        },
        cu@[a + 1] - cu@[a] != cu@[b + 1] - cu@[b] ==> r is Varlen,
{
    assert(cu@[a] <= cu@[a + 1]);
    assert(cu@[0] <= cu@[1]);
    if r is Batched {
        assert(segment_len(cu@, a) == segment_len(cu@, 0));
        assert(segment_len(cu@, b) == segment_len(cu@, 0));
    }
    lemma_longest_segment(cu@, cu@.len() - 1, a);
}

proof fn lemma_longest_segment(cu: Seq<i32>, n: int, b: int)
    requires
        0 <= b < n < cu.len(),
    ensures
        segment_len(cu, b) <= max_segment(cu, n),
    decreases n,
{
    if b < n - 1 {
        lemma_longest_segment(cu, n - 1, b);
    }
}

/// One more stream adds its own tiles of 64 tokens, the last one perhaps partly filled, and raises
/// the longest length exactly when it is longer; the most tiles are the longest stream's.
pub proof fn each_stream_adds_its_tiles(
    cu: &Vec<i32>,
    longer: &Vec<i32>,
    end: i32,
    r: VarlenExtents,
    r2: VarlenExtents,
)
    requires
        call_ensures(varlen_extents, (cu,), r),
        call_ensures(varlen_extents, (longer,), r2),
        longer@ == cu@.push(end),
        is_prefix_sums(longer@),
        cu@.len() >= 1,
    ensures
        ({
            let len = end - cu@.last();
            let added = r2.total_tiles - r.total_tiles;
            &&& added * 64 >= len
            &&& (added - 1) * 64 < len
            &&& r2.max_len == if len > r.max_len {
                len
            } else {
                r.max_len as int
            }
            &&& r2.max_tiles * 64 >= r2.max_len
            &&& (r2.max_tiles - 1) * 64 < r2.max_len
        }),
{
    let n = cu@.len() - 1;
    assert(longer@[n] == cu@.last() && longer@[n + 1] == end);
    assert(longer@[n] <= longer@[n + 1]);
    lemma_extents_prefix(cu@, longer@, n);
}

proof fn lemma_extents_prefix(a: Seq<i32>, b: Seq<i32>, n: int)
    requires
        0 <= n < a.len() <= b.len(),
        forall|i: int| 0 <= i < a.len() ==> #[trigger] b[i] == a[i],
    ensures
        sum_tiles(a, n) == sum_tiles(b, n),
        max_segment(a, n) == max_segment(b, n),
    decreases n,
{
    if n > 0 {
        lemma_extents_prefix(a, b, n - 1);
        assert(b[n - 1] == a[n - 1] && b[n] == a[n]);
    }
}

/// No stream has no tiles.
pub proof fn no_stream_has_no_tiles(cu: &Vec<i32>, r: VarlenExtents)
    requires
        call_ensures(varlen_extents, (cu,), r),
        cu@.len() == 1,
    ensures
        r.total_tiles == 0,
        r.max_len == 0,
        r.max_tiles == 0,
{
}

/// A stream's slices start behind the bytes of all tokens before it: two bytes per channel of the
/// queries, keys and values, four per gate and two gates per value head, two per value; and cover
/// its own tokens.
pub proof fn slices_start_behind_earlier_tokens(
    d: &SsmDims,
    seg: &Segment,
    total: usize,
    r: GdnSlice,
)
    requires
        call_ensures(gdn_slice, (d, seg, total), r),
        seg.off <= total,
        gdn_fits(*d, total as int),
    ensures
        r.qkv == seg.off * (2 * (d.key_heads * d.key_dim) + d.value_heads * d.value_dim) * 2,
        r.gate_beta == seg.off * d.value_heads * 8,
        r.output == seg.off * (d.value_heads * d.value_dim) * 2,
        r.z == r.output,
        r.total_len == seg.len,
{
    let off = seg.off as int;
    let a = d.key_heads as int;
    let b = d.key_dim as int;
    let c = d.value_heads as int;
    let e = d.value_dim as int;
    assert(0 <= a * b && 0 <= c * e) by (nonlinear_arith)
        requires
            0 <= a,
            0 <= b,
            0 <= c,
            0 <= e,
    ;
    lemma_scale(off, total as int, d.conv_dim());
    lemma_scale(off, total as int, c * 2);
    lemma_scale(off, total as int, c * e);
    assert(off * (c * 2) * 4 == off * c * 8) by (nonlinear_arith);
}

/// One more layer runs after all before it: attention once over all rows; a recurrent layer with
/// its projections over all rows, each stream's own convolution in turn, the normalization over
/// all rows, the recurrence and the post-processing over all rows.
pub proof fn each_layer_adds_its_steps(
    is_ssm: &Vec<bool>,
    longer: &Vec<bool>,
    ssm: bool,
    cu: &Vec<i32>,
    start: usize,
    r: Vec<KernelLayerStep>,
    r2: Vec<KernelLayerStep>,
    b: int,
)
    requires
        call_ensures(kernel_layer_steps, (is_ssm, cu, start), r),
        call_ensures(kernel_layer_steps, (longer, cu, start), r2),
        longer@ == is_ssm@.push(ssm),
        is_prefix_sums(cu@),
    ensures
        ({
            let at = r@.len() as int;
            let n = cu@.len() - 1;
            let rows = cu@.last() as int;
            &&& 0 <= b < at ==> r2@[b] == r@[b]
            &&& !ssm ==> {
                &&& r2@.len() == at + 1
                &&& r2@[at] matches KernelLayerStep::Attention { layer, rows: count, start: from }
                &&& layer == is_ssm@.len() && count == rows && from == start
            }
            &&& ssm ==> {
                &&& r2@.len() == at + n + 4
                &&& r2@[at] matches KernelLayerStep::Project { layer: l0, rows: c0 }
                &&& l0 == is_ssm@.len() && c0 == rows
                &&& 0 <= b < n ==> (r2@[at + 1 + b] matches KernelLayerStep::Conv {
                    layer: l1,
                    stream,
                    off,
                    len,
                } && l1 == is_ssm@.len() && stream == b && off == cu@[b] && off + len == cu@[b + 1])
                &&& r2@[at + 1 + n] matches KernelLayerStep::Normalize { layer: l2, rows: c2 }
                &&& l2 == is_ssm@.len() && c2 == rows
                &&& r2@[at + 2 + n] matches KernelLayerStep::Recur { layer: l3 }
                &&& l3 == is_ssm@.len()
                &&& r2@[at + 3 + n] matches KernelLayerStep::Post { layer: l4, rows: c4 }
                &&& l4 == is_ssm@.len() && c4 == rows
            }
        }),
{
    assert(longer.len() == longer@.len());
    assert(cu.len() == cu@.len());
    let m = is_ssm@.len() as int;
    let n = cu@.len() - 1;
    lemma_layers_prefix(is_ssm@, longer@, m, cu@, start);
    assert(longer@[m] == ssm);
    assert(cu@[0] <= cu@[n]);
    let part = kernel_layer(ssm, m, cu@, start);
    assert(r2@ == r@ + part);
    if ssm {
        assert(part.len() == n + 4);
        if 0 <= b < n {
            assert(cu@[0] <= cu@[b] <= cu@[b + 1]);
            assert(part[1 + b] == conv_steps(m, cu@, n as nat)[b]);
        }
    }
}

proof fn lemma_layers_prefix(a: Seq<bool>, b: Seq<bool>, n: int, cu: Seq<i32>, start: usize)
    requires
        0 <= n <= a.len() <= b.len(),
        forall|i: int| 0 <= i < a.len() ==> #[trigger] b[i] == a[i],
    ensures
        kernel_layers(a, n, cu, start) == kernel_layers(b, n, cu, start),
    decreases n,
{
    if n > 0 {
        lemma_layers_prefix(a, b, n - 1, cu, start);
        assert(b[n - 1] == a[n - 1]);
    }
}

/// No layer has no step.
pub proof fn no_layer_has_no_step(
    is_ssm: &Vec<bool>,
    cu: &Vec<i32>,
    start: usize,
    r: Vec<KernelLayerStep>,
)
    requires
        call_ensures(kernel_layer_steps, (is_ssm, cu, start), r),
        is_ssm@.len() == 0,
    ensures
        r@.len() == 0,
{
}

} // verus!
