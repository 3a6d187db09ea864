//! Embedding a chunk: the vision rows that replace its pad positions.

use vstd::prelude::*;

use crate::verify_single::{lemma_row_fits, ROW_ELEM_BYTES};

verus! {

/// Whether a token stands for a row of the vision encoder.
pub open spec fn is_pad(token: u32, image_pad: u32, video_pad: u32) -> bool {
    token == image_pad || token == video_pad
}

/// Pads among the first `n` tokens.
pub open spec fn pads_before(tokens: Seq<u32>, image_pad: u32, video_pad: u32, n: int) -> nat
    decreases n,
{
    if n <= 0 {
        0
    } else {
        pads_before(tokens, image_pad, video_pad, n - 1) + if is_pad(
            tokens[n - 1],
            image_pad,
            video_pad,
        ) {
            1nat
        } else {
            0
        }
    }
}

/// A copy of encoder row `src_row` over the hidden row at byte `dst_offset`.
#[derive(Clone, Copy, Debug, PartialEq, Eq, Structural)]
pub struct VisionRow {
    pub src_row: usize,
    pub dst_offset: usize,
}

/// The vision rows of the first `n` tokens: each pad takes the next encoder row.
pub open spec fn vision_rows_spec(
    tokens: Seq<u32>,
    image_pad: u32,
    video_pad: u32,
    row_base: int,
    h: int,
    n: int,
) -> Seq<VisionRow>
    decreases n,
{
    if n <= 0 {
        Seq::empty()
    } else {
        let rest = vision_rows_spec(tokens, image_pad, video_pad, row_base, h, n - 1);
        if is_pad(tokens[n - 1], image_pad, video_pad) {
            rest.push(
                VisionRow {
                    src_row: (row_base + pads_before(tokens, image_pad, video_pad, n - 1)) as usize,
                    dst_offset: ((n - 1) * h * 2) as usize,
                },
            )
        } else {
            rest
        }
    }
}

/// The copies that put the encoder's rows, from `row_base` on and in order, over the pad
/// positions of a chunk; none when no vision patch is pending.
pub fn vision_rows(
    pending: bool,
    tokens: &[u32],
    image_pad: u32,
    video_pad: u32,
    row_base: usize,
    h: usize,
) -> (r: Vec<VisionRow>)
    requires
        row_base + tokens@.len() <= usize::MAX,
        tokens@.len() * h * 2 <= usize::MAX,
    ensures
        !pending ==> r@.len() == 0,
        pending ==> r@ == vision_rows_spec(
            tokens@,
            image_pad,
            video_pad,
            row_base as int,
            h as int,
            tokens@.len() as int,
        ),
{
    let mut out: Vec<VisionRow> = Vec::new();
    if !pending {
        return out;
    }
    let mut img_idx: usize = 0;
    let mut i: usize = 0;
    while i < tokens.len()
        invariant
            row_base + tokens@.len() <= usize::MAX,
            tokens@.len() * h * 2 <= usize::MAX,
            i <= tokens@.len(),
            img_idx == pads_before(tokens@, image_pad, video_pad, i as int),
            img_idx <= i,
            out@ == vision_rows_spec(
                tokens@,
                image_pad,
                video_pad,
                row_base as int,
                h as int,
                i as int,
            ),
        decreases tokens@.len() - i,
    {
        let tok: u32 = tokens[i];
        if tok == image_pad || tok == video_pad {
            proof {
                lemma_row_fits(i as int, tokens@.len() as int, h as int);
            }
            out.push(
                VisionRow { src_row: row_base + img_idx, dst_offset: i * h * ROW_ELEM_BYTES },
            );
            img_idx = img_idx + 1;
        }
        i = i + 1;
    }
    out
}

/// Whether some token is a pad of either kind.
pub open spec fn some_pad(tokens: Seq<u32>, image_pad: u32, video_pad: u32) -> bool {
    exists|i: int| 0 <= i < tokens.len() && is_pad(#[trigger] tokens[i], image_pad, video_pad)
}

/// Whether some token is a pad.
pub fn tokens_have_vision_pad(tokens: &[u32], image_pad: u32, video_pad: u32) -> (r: bool)
    ensures
        r == exists|i: int|
            0 <= i < tokens@.len() && is_pad(#[trigger] tokens@[i], image_pad, video_pad),
        r == some_pad(tokens@, image_pad, video_pad),
{
    let mut i: usize = 0;
    while i < tokens.len()
        invariant
            i <= tokens@.len(),
            forall|j: int| 0 <= j < i ==> !is_pad(#[trigger] tokens@[j], image_pad, video_pad),
        decreases tokens@.len() - i,
    {
        let tok: u32 = tokens[i];
        if tok == image_pad || tok == video_pad {
            assert(is_pad(tokens@[i as int], image_pad, video_pad));
            return true;
        }
        i = i + 1;
    }
    false
}

/// Every pad gets its own encoder row, in token order: the pad at position `i` is copied from
/// the row after those of the pads before it, and as many rows are copied as there are pads.
pub proof fn each_pad_gets_the_next_row(
    tokens: Seq<u32>,
    image_pad: u32,
    video_pad: u32,
    row_base: int,
    h: int,
    n: int,
    i: int,
)
    requires
        0 <= i < n <= tokens.len(),
        is_pad(tokens[i], image_pad, video_pad),
    ensures
        vision_rows_spec(tokens, image_pad, video_pad, row_base, h, n).len() == pads_before(
            tokens,
            image_pad,
            video_pad,
            n,
        ),
        pads_before(tokens, image_pad, video_pad, i) < pads_before(tokens, image_pad, video_pad, n),
        vision_rows_spec(tokens, image_pad, video_pad, row_base, h, n)[pads_before(
            tokens,
            image_pad,
            video_pad,
            i,
        ) as int] == (VisionRow {
            src_row: (row_base + pads_before(tokens, image_pad, video_pad, i)) as usize,
            dst_offset: (i * h * 2) as usize,
        }),
    decreases n,
{
    lemma_vision_len(tokens, image_pad, video_pad, row_base, h, n);
    lemma_vision_len(tokens, image_pad, video_pad, row_base, h, n - 1);
    if i < n - 1 {
        each_pad_gets_the_next_row(tokens, image_pad, video_pad, row_base, h, n - 1, i);
    }
}

proof fn lemma_vision_len(
    tokens: Seq<u32>,
    image_pad: u32,
    video_pad: u32,
    row_base: int,
    h: int,
    n: int,
)
    requires
        0 <= n <= tokens.len(),
    ensures
        vision_rows_spec(tokens, image_pad, video_pad, row_base, h, n).len() == pads_before(
            tokens,
            image_pad,
            video_pad,
            n,
        ),
    decreases n,
{
    if n > 0 {
        lemma_vision_len(tokens, image_pad, video_pad, row_base, h, n - 1);
    }
}

/// One more token adds a vision row exactly if it is a pad: the row after those of all pads before
/// it, put over the token's own hidden row.
pub proof fn each_pad_takes_the_next_row(
    pending: bool,
    tokens: &[u32],
    longer: &[u32],
    token: u32,
    image_pad: u32,
    video_pad: u32,
    row_base: usize,
    h: usize,
    r: Vec<VisionRow>,
    r2: Vec<VisionRow>,
)
    requires
        call_ensures(vision_rows, (pending, tokens, image_pad, video_pad, row_base, h), r),
        call_ensures(vision_rows, (pending, longer, image_pad, video_pad, row_base, h), r2),
        longer@ == tokens@.push(token),
        row_base + longer@.len() <= usize::MAX,
        longer@.len() * h * 2 <= usize::MAX,
    ensures
        !pending ==> r2@.len() == 0,
        pending && token != image_pad && token != video_pad ==> r2@ == r@,
        pending && (token == image_pad || token == video_pad) ==> {
            &&& r2@.len() == r@.len() + 1
            &&& r2@.subrange(0, r@.len() as int) == r@
            &&& r2@.last().src_row == row_base + r@.len()
            &&& r2@.last().dst_offset == tokens@.len() * (2 * h)
        },
        tokens@.len() == 0 ==> r@.len() == 0,
{
    let n = tokens@.len() as int;
    lemma_vision_prefix(tokens@, longer@, image_pad, video_pad, row_base as int, h as int, n);
    assert(longer@[n] == token);
    lemma_row_count(longer@, image_pad, video_pad, row_base as int, h as int, n);
    assert(n * h * 2 == n * (2 * h)) by (nonlinear_arith);
    assert(0 <= n * h * 2 <= longer@.len() * h * 2) by (nonlinear_arith)
        requires
            0 <= n <= longer@.len(),
            0 <= h,
    ;
    if pending && (token == image_pad || token == video_pad) {
        assert(r2@.subrange(0, r@.len() as int) =~= r@);
    }
}

proof fn lemma_row_count(
    tokens: Seq<u32>,
    image_pad: u32,
    video_pad: u32,
    row_base: int,
    h: int,
    n: int,
)
    requires
        0 <= n <= tokens.len(),
    ensures
        vision_rows_spec(tokens, image_pad, video_pad, row_base, h, n).len() == pads_before(
            tokens,
            image_pad,
            video_pad,
            n,
        ),
        pads_before(tokens, image_pad, video_pad, n) <= n,
    decreases n,
{
    if n > 0 {
        lemma_row_count(tokens, image_pad, video_pad, row_base, h, n - 1);
    }
}

proof fn lemma_vision_prefix(
    a: Seq<u32>,
    b: Seq<u32>,
    image_pad: u32,
    video_pad: u32,
    row_base: int,
    h: int,
    n: int,
)
    requires
        0 <= n <= a.len() <= b.len(),
        forall|i: int| 0 <= i < a.len() ==> #[trigger] b[i] == a[i],
    ensures
        vision_rows_spec(a, image_pad, video_pad, row_base, h, n) == vision_rows_spec(
            b,
            image_pad,
            video_pad,
            row_base,
            h,
            n,
        ),
        pads_before(a, image_pad, video_pad, n) == pads_before(b, image_pad, video_pad, n),
    decreases n,
{
    if n > 0 {
        lemma_vision_prefix(a, b, image_pad, video_pad, row_base, h, n - 1);
        assert(b[n - 1] == a[n - 1]);
    }
}

/// A prompt has vision rows exactly when one of its tokens is a pad of either kind.
pub proof fn a_pad_makes_a_vision_prompt(
    tokens: &[u32],
    image_pad: u32,
    video_pad: u32,
    r: bool,
    i: int,
)
    requires
        call_ensures(tokens_have_vision_pad, (tokens, image_pad, video_pad), r),
        0 <= i < tokens@.len(),
    ensures
        tokens@[i] == image_pad || tokens@[i] == video_pad ==> r,
        r ==> exists|x: int|
            0 <= x < tokens@.len() && (#[trigger] tokens@[x] == image_pad || tokens@[x]
                == video_pad),
{
    if tokens@[i] == image_pad || tokens@[i] == video_pad {
        assert(is_pad(tokens@[i], image_pad, video_pad));
    }
    if r {
        let x = choose|x: int|
            0 <= x < tokens@.len() && is_pad(#[trigger] tokens@[x], image_pad, video_pad);
        assert(tokens@[x] == image_pad || tokens@[x] == video_pad);
    }
}

} // verus!
