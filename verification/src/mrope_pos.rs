//! Three-axis rotary positions of a prefill chunk: where every text and vision token sits in the
//! temporal, row and column streams.

use vstd::prelude::*;

use crate::embed_chunk::is_pad;

verus! {

/// Temporal groups of an item; none counts as one.
pub open spec fn groups(g: (usize, usize, usize)) -> int {
    if g.0 == 0 {
        1
    } else {
        g.0 as int
    }
}

/// Positions per temporal group; an empty grid counts as one.
pub open spec fn plane(g: (usize, usize, usize)) -> int {
    if g.1 * g.2 == 0 {
        1
    } else {
        g.1 * g.2
    }
}

/// Width of a grid row, at least one.
pub open spec fn row_width(g: (usize, usize, usize)) -> int {
    if g.2 == 0 {
        1
    } else {
        g.2 as int
    }
}

/// Positions of an item.
pub open spec fn run_len(g: (usize, usize, usize)) -> int {
    groups(g) * plane(g)
}

/// Extent of an item on its longest axis.
pub open spec fn extent(g: (usize, usize, usize)) -> int {
    let a = if groups(g) < g.1 {
        g.1 as int
    } else {
        groups(g)
    };
    if a < g.2 {
        g.2 as int
    } else {
        a
    }
}

/// Entry `k` of an item based at `base`: its group, row and column, in that order.
pub open spec fn item_entry(g: (usize, usize, usize), base: int, k: int) -> (int, int, int) {
    let within = k % plane(g);
    (base + k / plane(g), base + within / row_width(g), base + within % row_width(g))
}

/// The entries of an item based at `base`.
pub open spec fn item_entries(g: (usize, usize, usize), base: int) -> Seq<(int, int, int)> {
    Seq::new(run_len(g) as nat, |k: int| item_entry(g, base, k))
}

/// Tokens from `i` on.
pub open spec fn tokens_left(len: int, i: int) -> int {
    if i < len {
        len - i
    } else {
        0
    }
}

/// What a scan of the tokens reads: the owned items end at `grid_hi`.
pub struct Scan {
    pub tokens: Seq<u32>,
    pub grids: Seq<(usize, usize, usize)>,
    pub grid_hi: int,
    pub image_pad: u32,
    pub video_pad: u32,
}

impl Scan {
    /// Whether the token at `i` starts item `item`.
    pub open spec fn starts_item(&self, i: int, item: int) -> bool {
        is_pad(self.tokens[i], self.image_pad, self.video_pad) && item < self.grid_hi
    }

    /// The entries from token `i` on, with `item` the next owned item and `pos` the running
    /// position. A text token, and a pad with no owned item left, takes the running position on
    /// all three axes.
    pub open spec fn entries(&self, i: int, item: int, pos: int) -> Seq<(int, int, int)>
        decreases tokens_left(self.tokens.len() as int, i),
    {
        if i >= self.tokens.len() || i < 0 {
            Seq::empty()
        } else if self.starts_item(i, item) && run_len(self.grids[item]) > 0 {
            item_entries(self.grids[item], pos) + self.entries(
                i + run_len(self.grids[item]),
                item + 1,
                pos + extent(self.grids[item]),
            )
        } else {
            seq![(pos, pos, pos)] + self.entries(i + 1, item, pos + 1)
        }
    }

    /// The running position after the scan from token `i` on.
    pub open spec fn end_pos(&self, i: int, item: int, pos: int) -> int
        decreases tokens_left(self.tokens.len() as int, i),
    {
        if i >= self.tokens.len() || i < 0 {
            pos
        } else if self.starts_item(i, item) && run_len(self.grids[item]) > 0 {
            self.end_pos(
                i + run_len(self.grids[item]),
                item + 1,
                pos + extent(self.grids[item]),
            )
        } else {
            self.end_pos(i + 1, item, pos + 1)
        }
    }

    /// The next owned item after the scan from token `i` on.
    pub open spec fn end_item(&self, i: int, item: int) -> int
        decreases tokens_left(self.tokens.len() as int, i),
    {
        if i >= self.tokens.len() || i < 0 {
            item
        } else if self.starts_item(i, item) && run_len(self.grids[item]) > 0 {
            self.end_item(i + run_len(self.grids[item]), item + 1)
        } else {
            self.end_item(i + 1, item)
        }
    }

    /// Whether every item that is started is in the list.
    pub open spec fn items_listed(&self, i: int, item: int) -> bool
        decreases tokens_left(self.tokens.len() as int, i),
    {
        if i >= self.tokens.len() || i < 0 {
            true
        } else if self.starts_item(i, item) && run_len(self.grids[item]) > 0 {
            item < self.grids.len() && self.items_listed(
                i + run_len(self.grids[item]),
                item + 1,
            )
        } else {
            self.items_listed(i + 1, item)
        }
    }

    /// Whether no item outside the list is read: the owned window ends within the list, or owns
    /// nothing, or the chunk has no pad, or at any rate starts only listed items.
    pub open spec fn window_readable(&self, item: int) -> bool {
        ||| self.grid_hi <= self.grids.len()
        ||| self.grid_hi <= item
        ||| forall|j: int|
            0 <= j < self.tokens.len() ==> !is_pad(
                #[trigger] self.tokens[j],
                self.image_pad,
                self.video_pad,
            )
        ||| self.items_listed(0, item)
    }

    /// Whether every started item has all its pads in the chunk.
    pub open spec fn runs_complete(&self, i: int, item: int) -> bool
        decreases tokens_left(self.tokens.len() as int, i),
    {
        if i >= self.tokens.len() || i < 0 {
            true
        } else if self.starts_item(i, item) && run_len(self.grids[item]) > 0 {
            &&& i + run_len(self.grids[item]) <= self.tokens.len()
            &&& self.runs_complete(i + run_len(self.grids[item]), item + 1)
        } else {
            self.runs_complete(i + 1, item)
        }
    }
}

/// The temporal stream of a list of entries.
pub open spec fn t_stream(e: Seq<(int, int, int)>) -> Seq<u32> {
    Seq::new(e.len(), |k: int| e[k].0 as u32)
}

/// The row stream of a list of entries.
pub open spec fn h_stream(e: Seq<(int, int, int)>) -> Seq<u32> {
    Seq::new(e.len(), |k: int| e[k].1 as u32)
}

/// The column stream of a list of entries.
pub open spec fn w_stream(e: Seq<(int, int, int)>) -> Seq<u32> {
    Seq::new(e.len(), |k: int| e[k].2 as u32)
}

/// An item has at least one position, and its extent is at least one.
pub proof fn lemma_item_sizes(g: (usize, usize, usize))
    ensures
        groups(g) >= 1,
        plane(g) >= 1,
        row_width(g) >= 1,
        run_len(g) >= groups(g),
        run_len(g) >= plane(g),
        extent(g) >= 1,
        extent(g) >= groups(g),
{
    assert(g.1 * g.2 >= 0) by (nonlinear_arith)
        requires
            0 <= g.1,
            0 <= g.2,
    ;
    assert(run_len(g) >= groups(g) && run_len(g) >= plane(g)) by (nonlinear_arith)
        requires
            groups(g) >= 1,
            plane(g) >= 1,
            run_len(g) == groups(g) * plane(g),
    ;
}

/// The token after an item starts clear of it on all three axes: every entry of the item lies
/// below the running position the item leaves.
pub proof fn item_stays_below_its_end(g: (usize, usize, usize), base: int, k: int)
    requires
        0 <= k < run_len(g),
    ensures
        base <= item_entry(g, base, k).0 < base + extent(g),
        base <= item_entry(g, base, k).1 < base + extent(g),
        base <= item_entry(g, base, k).2 < base + extent(g),
{
    lemma_item_sizes(g);
    let p = plane(g);
    let w = row_width(g);
    let within = k % p;
    assert(0 <= k / p < groups(g)) by (nonlinear_arith)
        requires
            0 <= k < groups(g) * p,
            p >= 1,
    ;
    assert(0 <= within < p);
    assert(0 <= within % w < w);
    if g.1 * g.2 == 0 {
        assert(within == 0);
        assert(0int / w == 0) by (nonlinear_arith)
            requires
                w >= 1,
        ;
        assert(0int % w == 0) by (nonlinear_arith)
            requires
                w >= 1,
        ;
    } else {
        assert(g.2 > 0 && g.1 > 0) by (nonlinear_arith)
            requires
                g.1 * g.2 != 0,
                0 <= g.1,
                0 <= g.2,
        ;
        assert(0 <= within / w < g.1) by (nonlinear_arith)
            requires
                0 <= within < g.1 * w,
                w >= 1,
        ;
    }
}

/// An image, or a clip of one group, holds the temporal axis at its base.
pub proof fn one_group_holds_t_constant(g: (usize, usize, usize), base: int, k: int)
    requires
        g.0 <= 1,
        0 <= k < run_len(g),
    ensures
        item_entry(g, base, k).0 == base,
{
    lemma_item_sizes(g);
    let p = plane(g);
    assert(k < p) by (nonlinear_arith)
        requires
            k < groups(g) * p,
            groups(g) == 1,
    ;
    assert(k / p == 0) by (nonlinear_arith)
        requires
            0 <= k < p,
    ;
}

/// Image and video pads are consumed alike: two chunks with their pads at the same places have
/// the same positions.
pub proof fn pad_kind_does_not_matter(a: Scan, b: Scan, i: int, item: int, pos: int)
    requires
        a.tokens.len() == b.tokens.len(),
        a.grids == b.grids,
        a.grid_hi == b.grid_hi,
        forall|j: int|
            0 <= j < a.tokens.len() ==> is_pad(#[trigger] a.tokens[j], a.image_pad, a.video_pad)
                == is_pad(b.tokens[j], b.image_pad, b.video_pad),
        i >= 0,
    ensures
        a.entries(i, item, pos) == b.entries(i, item, pos),
    decreases tokens_left(a.tokens.len() as int, i),
{
    if i < a.tokens.len() {
        assert(is_pad(a.tokens[i], a.image_pad, a.video_pad) == is_pad(
            b.tokens[i],
            b.image_pad,
            b.video_pad,
        ));
        if a.starts_item(i, item) && run_len(a.grids[item]) > 0 {
            pad_kind_does_not_matter(
                a,
                b,
                i + run_len(a.grids[item]),
                item + 1,
                pos + extent(a.grids[item]),
            );
        } else {
            pad_kind_does_not_matter(a, b, i + 1, item, pos + 1);
        }
    }
}

/// With complete pad runs there is one position per token.
pub proof fn complete_runs_match_token_count(s: Scan, i: int, item: int, pos: int)
    requires
        0 <= i <= s.tokens.len(),
        s.runs_complete(i, item),
    ensures
        s.entries(i, item, pos).len() == s.tokens.len() - i,
    decreases tokens_left(s.tokens.len() as int, i),
{
    if i < s.tokens.len() {
        if s.starts_item(i, item) && run_len(s.grids[item]) > 0 {
            complete_runs_match_token_count(
                s,
                i + run_len(s.grids[item]),
                item + 1,
                pos + extent(s.grids[item]),
            );
        } else {
            complete_runs_match_token_count(s, i + 1, item, pos + 1);
        }
    }
}

/// There is never less than one position per token.
pub proof fn every_token_has_a_position(s: Scan, i: int, item: int, pos: int)
    requires
        0 <= i <= s.tokens.len(),
    ensures
        s.entries(i, item, pos).len() >= s.tokens.len() - i,
    decreases tokens_left(s.tokens.len() as int, i),
{
    if i < s.tokens.len() {
        if s.starts_item(i, item) && run_len(s.grids[item]) > 0 {
            let run = run_len(s.grids[item]);
            if i + run <= s.tokens.len() {
                every_token_has_a_position(s, i + run, item + 1, pos + extent(s.grids[item]));
            }
        } else {
            every_token_has_a_position(s, i + 1, item, pos + 1);
        }
    }
}

/// A chunk of text, or one that owns no item, counts up from the start on all three axes.
pub proof fn text_is_the_identity_ramp(s: Scan, i: int, item: int, pos: int)
    requires
        0 <= i <= s.tokens.len(),
        item >= s.grid_hi || forall|j: int|
            0 <= j < s.tokens.len() ==> !is_pad(#[trigger] s.tokens[j], s.image_pad, s.video_pad),
    ensures
        s.entries(i, item, pos) == Seq::new(
            (s.tokens.len() - i) as nat,
            |k: int| (pos + k, pos + k, pos + k),
        ),
    decreases tokens_left(s.tokens.len() as int, i),
{
    if i < s.tokens.len() {
        assert(!s.starts_item(i, item));
        text_is_the_identity_ramp(s, i + 1, item, pos + 1);
    }
    assert(s.entries(i, item, pos) =~= Seq::new(
        (s.tokens.len() - i) as nat,
        |k: int| (pos + k, pos + k, pos + k),
    ));
}

proof fn lemma_end_pos_grows(s: Scan, i: int, item: int, pos: int)
    requires
        i >= 0,
    ensures
        s.end_pos(i, item, pos) >= pos,
    decreases tokens_left(s.tokens.len() as int, i),
{
    if i < s.tokens.len() {
        if s.starts_item(i, item) && run_len(s.grids[item]) > 0 {
            lemma_item_sizes(s.grids[item]);
            lemma_end_pos_grows(
                s,
                i + run_len(s.grids[item]),
                item + 1,
                pos + extent(s.grids[item]),
            );
        } else {
            lemma_end_pos_grows(s, i + 1, item, pos + 1);
        }
    }
}

/// A readable window reads only listed items.
proof fn lemma_window_readable(s: Scan, i: int, item: int)
    requires
        0 <= i,
        0 <= item,
        s.grid_hi <= s.grids.len() || s.grid_hi <= item || forall|j: int|
            0 <= j < s.tokens.len() ==> !is_pad(#[trigger] s.tokens[j], s.image_pad, s.video_pad),
    ensures
        s.items_listed(i, item),
    decreases tokens_left(s.tokens.len() as int, i),
{
    if i < s.tokens.len() {
        if s.starts_item(i, item) && run_len(s.grids[item]) > 0 {
            assert(is_pad(s.tokens[i], s.image_pad, s.video_pad));
            lemma_window_readable(s, i + run_len(s.grids[item]), item + 1);
        } else {
            lemma_window_readable(s, i + 1, item);
        }
    }
}

/// Every entry lies between the running position it started from and the one the scan ends at, on
/// all three axes.
pub proof fn entries_lie_in_range(s: Scan, i: int, item: int, pos: int, k: int)
    requires
        0 <= i,
        0 <= k < s.entries(i, item, pos).len(),
    ensures
        ({
            let e = s.entries(i, item, pos)[k];
            let end = s.end_pos(i, item, pos);
            &&& pos <= e.0 < end
            &&& pos <= e.1 < end
            &&& pos <= e.2 < end
        }),
    decreases tokens_left(s.tokens.len() as int, i),
{
    if i < s.tokens.len() {
        if s.starts_item(i, item) && run_len(s.grids[item]) > 0 {
            let g = s.grids[item];
            lemma_item_sizes(g);
            lemma_end_pos_grows(s, i + run_len(g), item + 1, pos + extent(g));
            if k < run_len(g) {
                item_stays_below_its_end(g, pos, k);
            } else {
                entries_lie_in_range(
                    s,
                    i + run_len(g),
                    item + 1,
                    pos + extent(g),
                    k - run_len(g),
                );
            }
        } else {
            lemma_end_pos_grows(s, i + 1, item, pos + 1);
            if k > 0 {
                entries_lie_in_range(s, i + 1, item, pos + 1, k - 1);
            }
        }
    }
}

/// The temporal axis never falls.
pub proof fn t_never_falls(s: Scan, i: int, item: int, pos: int, a: int, b: int)
    requires
        0 <= i,
        0 <= a <= b < s.entries(i, item, pos).len(),
    ensures
        s.entries(i, item, pos)[a].0 <= s.entries(i, item, pos)[b].0,
    decreases tokens_left(s.tokens.len() as int, i),
{
    if i < s.tokens.len() {
        if s.starts_item(i, item) && run_len(s.grids[item]) > 0 {
            let g = s.grids[item];
            let run = run_len(g);
            let p = plane(g);
            lemma_item_sizes(g);
            if b < run {
                assert(a / p <= b / p) by (nonlinear_arith)
                    requires
                        a <= b,
                        p >= 1,
                ;
            } else if a < run {
                item_stays_below_its_end(g, pos, a);
                entries_lie_in_range(s, i + run, item + 1, pos + extent(g), b - run);
            } else {
                t_never_falls(s, i + run, item + 1, pos + extent(g), a - run, b - run);
            }
        } else if a > 0 {
            t_never_falls(s, i + 1, item, pos + 1, a - 1, b - 1);
        } else if b > 0 {
            entries_lie_in_range(s, i + 1, item, pos + 1, b - 1);
        }
    }
}

/// What follows an item starts clear of it: with item `item` started at token `i`, every later
/// entry exceeds every entry of the item on all three axes.
pub proof fn later_entries_clear_the_item(
    s: Scan,
    i: int,
    item: int,
    pos: int,
    k: int,
    later: int,
)
    requires
        0 <= i < s.tokens.len(),
        s.starts_item(i, item),
        0 <= k < run_len(s.grids[item]) <= later < s.entries(i, item, pos).len(),
    ensures
        ({
            let a = s.entries(i, item, pos)[k];
            let b = s.entries(i, item, pos)[later];
            &&& b.0 > a.0 && b.0 > a.1 && b.0 > a.2
            &&& b.1 > a.0 && b.1 > a.1 && b.1 > a.2
            &&& b.2 > a.0 && b.2 > a.1 && b.2 > a.2
        }),
{
    let g = s.grids[item];
    item_stays_below_its_end(g, pos, k);
    entries_lie_in_range(s, i + run_len(g), item + 1, pos + extent(g), later - run_len(g));
}

proof fn lemma_shift(s: Scan, i: int, item: int, pos: int, d: int)
    requires
        0 <= i,
    ensures
        s.end_pos(i, item, pos + d) == s.end_pos(i, item, pos) + d,
        s.entries(i, item, pos + d).len() == s.entries(i, item, pos).len(),
        forall|k: int|
            0 <= k < s.entries(i, item, pos).len() ==> (#[trigger] s.entries(i, item, pos + d)[k])
                == (
                s.entries(i, item, pos)[k].0 + d,
                s.entries(i, item, pos)[k].1 + d,
                s.entries(i, item, pos)[k].2 + d,
            ),
    decreases tokens_left(s.tokens.len() as int, i),
{
    if i < s.tokens.len() {
        let moved = s.entries(i, item, pos + d);
        let base = s.entries(i, item, pos);
        if s.starts_item(i, item) && run_len(s.grids[item]) > 0 {
            let g = s.grids[item];
            let run = run_len(g);
            lemma_shift(s, i + run, item + 1, pos + extent(g), d);
            assert(pos + extent(g) + d == pos + d + extent(g));
            let rest = s.entries(i + run, item + 1, pos + extent(g));
            let moved_rest = s.entries(i + run, item + 1, pos + extent(g) + d);
            assert forall|k: int| 0 <= k < base.len() implies (#[trigger] moved[k]) == (
                base[k].0 + d,
                base[k].1 + d,
                base[k].2 + d,
            ) by {
                if k >= run {
                    assert(moved[k] == moved_rest[k - run]);
                    assert(base[k] == rest[k - run]);
                }
            }
        } else {
            lemma_shift(s, i + 1, item, pos + 1, d);
            assert(pos + 1 + d == pos + d + 1);
            let rest = s.entries(i + 1, item, pos + 1);
            let moved_rest = s.entries(i + 1, item, pos + 1 + d);
            assert forall|k: int| 0 <= k < base.len() implies (#[trigger] moved[k]) == (
                base[k].0 + d,
                base[k].1 + d,
                base[k].2 + d,
            ) by {
                if k > 0 {
                    assert(moved[k] == moved_rest[k - 1]);
                    assert(base[k] == rest[k - 1]);
                }
            }
        }
    }
}

/// Moving the start moves every position alike: starting `d` later gives streams of the same
/// length with `d` added to each entry of all three.
pub proof fn start_shifts_every_position(s: Scan, item: int, pos: int, d: int)
    requires
        0 <= pos,
        0 <= pos + d,
        s.end_pos(0, item, pos) <= u32::MAX,
        s.end_pos(0, item, pos + d) <= u32::MAX,
    ensures
        ({
            let a = s.entries(0, item, pos);
            let b = s.entries(0, item, pos + d);
            &&& b.len() == a.len()
            &&& forall|k: int|
                0 <= k < a.len() ==> (#[trigger] b[k]) == (a[k].0 + d, a[k].1 + d, a[k].2 + d)
            &&& t_stream(b).len() == t_stream(a).len()
            &&& h_stream(b).len() == h_stream(a).len()
            &&& w_stream(b).len() == w_stream(a).len()
            &&& forall|k: int|
                0 <= k < a.len() ==> #[trigger] t_stream(b)[k] == t_stream(a)[k] + d
            &&& forall|k: int|
                0 <= k < a.len() ==> #[trigger] h_stream(b)[k] == h_stream(a)[k] + d
            &&& forall|k: int|
                0 <= k < a.len() ==> #[trigger] w_stream(b)[k] == w_stream(a)[k] + d
        }),
{
    lemma_shift(s, 0, item, pos, d);
    let a = s.entries(0, item, pos);
    let b = s.entries(0, item, pos + d);
    assert forall|k: int| 0 <= k < a.len() implies #[trigger] t_stream(b)[k] == t_stream(a)[k] + d
        && h_stream(b)[k] == h_stream(a)[k] + d && w_stream(b)[k] == w_stream(a)[k] + d by {
        entries_lie_in_range(s, 0, item, pos, k);
        entries_lie_in_range(s, 0, item, pos + d, k);
        assert(b[k] == (a[k].0 + d, a[k].1 + d, a[k].2 + d));
    }
    assert forall|k: int| 0 <= k < a.len() implies #[trigger] h_stream(b)[k] == h_stream(a)[k]
        + d by {
        assert(t_stream(b)[k] == t_stream(a)[k] + d);
    }
    assert forall|k: int| 0 <= k < a.len() implies #[trigger] w_stream(b)[k] == w_stream(a)[k]
        + d by {
        assert(t_stream(b)[k] == t_stream(a)[k] + d);
    }
}

/// The scan of the second of two parts is the scan of the whole from where that part begins.
proof fn lemma_second_part(whole: Scan, b: Scan, at: int, i: int, item: int, pos: int)
    requires
        0 <= at,
        0 <= i,
        whole.tokens.len() == at + b.tokens.len(),
        forall|j: int| 0 <= j < b.tokens.len() ==> #[trigger] b.tokens[j] == whole.tokens[at + j],
        whole.grids == b.grids,
        whole.grid_hi == b.grid_hi,
        whole.image_pad == b.image_pad,
        whole.video_pad == b.video_pad,
    ensures
        whole.entries(at + i, item, pos) == b.entries(i, item, pos),
        whole.end_pos(at + i, item, pos) == b.end_pos(i, item, pos),
    decreases tokens_left(b.tokens.len() as int, i),
{
    if i < b.tokens.len() {
        assert(b.tokens[i] == whole.tokens[at + i]);
        if b.starts_item(i, item) && run_len(b.grids[item]) > 0 {
            let g = b.grids[item];
            lemma_second_part(whole, b, at, i + run_len(g), item + 1, pos + extent(g));
            assert(at + i + run_len(g) == at + (i + run_len(g)));
        } else {
            lemma_second_part(whole, b, at, i + 1, item, pos + 1);
            assert(at + i + 1 == at + (i + 1));
        }
    }
}

/// The scan of the whole begins with the scan of the first part, up to an item boundary.
proof fn lemma_first_part(whole: Scan, a: Scan, i: int, item: int, pos: int)
    requires
        0 <= i <= a.tokens.len(),
        a.tokens.len() <= whole.tokens.len(),
        forall|j: int| 0 <= j < a.tokens.len() ==> #[trigger] a.tokens[j] == whole.tokens[j],
        whole.grids == a.grids,
        whole.grid_hi == a.grid_hi,
        whole.image_pad == a.image_pad,
        whole.video_pad == a.video_pad,
        a.runs_complete(i, item),
    ensures
        ({
            let n = a.tokens.len() as int;
            let next = a.end_item(i, item);
            let end = a.end_pos(i, item, pos);
            &&& whole.entries(i, item, pos) == a.entries(i, item, pos) + whole.entries(
                n,
                next,
                end,
            )
            &&& whole.end_pos(i, item, pos) == whole.end_pos(n, next, end)
        }),
    decreases tokens_left(a.tokens.len() as int, i),
{
    let n = a.tokens.len() as int;
    if i < n {
        assert(a.tokens[i] == whole.tokens[i]);
        let next = a.end_item(i, item);
        let end = a.end_pos(i, item, pos);
        let tail = whole.entries(n, next, end);
        if a.starts_item(i, item) && run_len(a.grids[item]) > 0 {
            let g = a.grids[item];
            let run = run_len(g);
            lemma_first_part(whole, a, i + run, item + 1, pos + extent(g));
            let rest = a.entries(i + run, item + 1, pos + extent(g));
            assert(item_entries(g, pos) + (rest + tail) =~= (item_entries(g, pos) + rest) + tail);
        } else {
            lemma_first_part(whole, a, i + 1, item, pos + 1);
            let rest = a.entries(i + 1, item, pos + 1);
            assert(seq![(pos, pos, pos)] + (rest + tail) =~= (seq![(pos, pos, pos)] + rest)
                + tail);
        }
    } else {
        assert(a.entries(i, item, pos) + whole.entries(n, item, pos) =~= whole.entries(
            n,
            item,
            pos,
        ));
    }
}

/// A chunk may be built in parts: with the first part ending on an item boundary, its streams
/// followed by those of the second part, which goes on from the first one's position and next
/// item, are those of the whole.
pub proof fn parts_build_the_whole(whole: Scan, a: Scan, b: Scan, item: int, pos: int)
    requires
        whole.tokens == a.tokens + b.tokens,
        whole.grids == a.grids,
        whole.grids == b.grids,
        whole.grid_hi == a.grid_hi,
        whole.grid_hi == b.grid_hi,
        whole.image_pad == a.image_pad,
        whole.image_pad == b.image_pad,
        whole.video_pad == a.video_pad,
        whole.video_pad == b.video_pad,
        a.runs_complete(0, item),
    ensures
        ({
            let first = a.entries(0, item, pos);
            let second = b.entries(0, a.end_item(0, item), a.end_pos(0, item, pos));
            let all = whole.entries(0, item, pos);
            &&& all == first + second
            &&& whole.end_pos(0, item, pos) == b.end_pos(
                0,
                a.end_item(0, item),
                a.end_pos(0, item, pos),
            )
            &&& t_stream(all) == t_stream(first) + t_stream(second)
            &&& h_stream(all) == h_stream(first) + h_stream(second)
            &&& w_stream(all) == w_stream(first) + w_stream(second)
        }),
{
    let n = a.tokens.len() as int;
    let next = a.end_item(0, item);
    let end = a.end_pos(0, item, pos);
    lemma_first_part(whole, a, 0, item, pos);
    lemma_second_part(whole, b, n, 0, next, end);
    let first = a.entries(0, item, pos);
    let second = b.entries(0, next, end);
    let all = whole.entries(0, item, pos);
    assert(t_stream(all) =~= t_stream(first) + t_stream(second));
    assert(h_stream(all) =~= h_stream(first) + h_stream(second));
    assert(w_stream(all) =~= w_stream(first) + w_stream(second));
}

/// Rows of a group; an empty grid counts as one row.
pub open spec fn rows_of(g: (usize, usize, usize)) -> int {
    if g.1 * g.2 == 0 {
        1
    } else {
        g.1 as int
    }
}

/// Columns of a row; an empty grid counts as one column.
pub open spec fn cols_of(g: (usize, usize, usize)) -> int {
    if g.1 * g.2 == 0 {
        1
    } else {
        g.2 as int
    }
}

/// Entries of an item before group `grp`, row `row`, column `col`.
pub open spec fn entry_index(g: (usize, usize, usize), grp: int, row: int, col: int) -> int {
    grp * plane(g) + row * cols_of(g) + col
}

/// The rows and columns of a group are its plane.
proof fn lemma_plane(g: (usize, usize, usize))
    ensures
        plane(g) == rows_of(g) * cols_of(g),
        rows_of(g) >= 1,
        cols_of(g) >= 1,
{
    let a = g.1 as int;
    let b = g.2 as int;
    if a * b != 0 {
        assert(a >= 1 && b >= 1) by (nonlinear_arith)
            requires
                a * b != 0,
                a >= 0,
                b >= 0,
        ;
    }
    assert(a * b >= 0) by (nonlinear_arith)
        requires
            a >= 0,
            b >= 0,
    ;
}

/// The entry of group `grp`, row `row`, column `col` of an item.
proof fn lemma_entry_at(g: (usize, usize, usize), base: int, grp: int, row: int, col: int)
    requires
        0 <= grp < groups(g),
        0 <= row < rows_of(g),
        0 <= col < cols_of(g),
    ensures
        0 <= entry_index(g, grp, row, col) < run_len(g),
        item_entry(g, base, entry_index(g, grp, row, col)) == (base + grp, base + row, base + col),
{
    lemma_plane(g);
    let c = cols_of(g);
    let p = plane(g);
    let within = row * c + col;
    assert(0 <= within < p) by (nonlinear_arith)
        requires
            0 <= row < rows_of(g),
            0 <= col < c,
            p == rows_of(g) * c,
            within == row * c + col,
    ;
    assert(0 <= grp * p + within < groups(g) * p) by (nonlinear_arith)
        requires
            0 <= grp < groups(g),
            0 <= within < p,
    ;
    let k = entry_index(g, grp, row, col);
    assert(k == grp * p + within);
    vstd::arithmetic::div_mod::lemma_fundamental_div_mod_converse(k, p, grp, within);
    if g.1 * g.2 == 0 {
        assert(row == 0 && col == 0);
        assert(within == 0) by (nonlinear_arith)
            requires
                row == 0,
                col == 0,
                within == row * c + col,
        ;
        let w = row_width(g);
        assert(w >= 1);
        assert(0int / w == 0 && 0int % w == 0) by (nonlinear_arith)
            requires
                w >= 1,
        ;
    } else {
        assert(c == row_width(g));
        vstd::arithmetic::div_mod::lemma_fundamental_div_mod_converse(within, c, row, col);
    }
}

/// The larger of two numbers.
fn larger(a: usize, b: usize) -> (r: usize)
    ensures
        r == if a < b {
            b
        } else {
            a
        },
{
    if a < b {
        b
    } else {
        a
    }
}

/// The token after an item's run of `t` groups of `rows` by `cols`, started at token `i` of
/// `len`; a run that reaches the end of the chunk ends there.
fn run_end(g: (usize, usize, usize), i: usize, len: usize) -> (r: usize)
    requires
        i < len,
    ensures
        r == if i + run_len(g) < len {
            i + run_len(g)
        } else {
            len as int
        },
{
    let (t_raw, gh, gw) = g;
    let t_len: usize = larger(t_raw, 1);
    proof {
        lemma_item_sizes(g);
    }
    match gh.checked_mul(gw) {
        None => len,
        Some(cells) => {
            let plane_len: usize = larger(cells, 1);
            assert(plane_len == plane(g));
            match t_len.checked_mul(plane_len) {
                None => len,
                Some(run) => if run < len - i {
                    i + run
                } else {
                    len
                },
            }
        },
    }
}

/// The running position after the streams of `chunk_tokens`, or `None` when it does not fit a
/// position word.
pub fn end_position(
    chunk_tokens: &[u32],
    grids: &[(usize, usize, usize)],
    grid_base: usize,
    grid_hi: usize,
    start_pos: u32,
    image_pad: u32,
    video_pad: u32,
) -> (r: Option<u32>)
    requires
        (Scan {
            tokens: chunk_tokens@,
            grids: grids@,
            grid_hi: grid_hi as int,
            image_pad,
            video_pad,
        }).window_readable(grid_base as int),
    ensures
        ({
            let end = (Scan {
                tokens: chunk_tokens@,
                grids: grids@,
                grid_hi: grid_hi as int,
                image_pad,
                video_pad,
            }).end_pos(0, grid_base as int, start_pos as int);
            &&& r is Some == (end <= u32::MAX)
            &&& r matches Some(p) ==> p == end
        }),
{
    let ghost s = Scan {
        tokens: chunk_tokens@,
        grids: grids@,
        grid_hi: grid_hi as int,
        image_pad,
        video_pad,
    };
    proof {
        if !s.items_listed(0, grid_base as int) {
            lemma_window_readable(s, 0, grid_base as int);
        }
    }
    let len: usize = chunk_tokens.len();
    let mut pos: u32 = start_pos;
    let mut item: usize = grid_base;
    let mut i: usize = 0;
    while i < len
        invariant
            s == (Scan {
                tokens: chunk_tokens@,
                grids: grids@,
                grid_hi: grid_hi as int,
                image_pad,
                video_pad,
            }),
            len == chunk_tokens@.len(),
            i <= len,
            s.items_listed(i as int, item as int),
            s.end_pos(i as int, item as int, pos as int) == s.end_pos(
                0,
                grid_base as int,
                start_pos as int,
            ),
        decreases len - i,
    {
        let tok: u32 = chunk_tokens[i];
        if (tok == image_pad || tok == video_pad) && item < grid_hi {
            let ghost g = grids@[item as int];
            proof {
                lemma_item_sizes(g);
                lemma_end_pos_grows(s, i + run_len(g), item + 1, pos + extent(g));
            }
            let (t_raw, gh, gw) = grids[item];
            let ext: usize = larger(larger(larger(t_raw, 1), gh), gw);
            if ext > (u32::MAX - pos) as usize {
                return None;
            }
            pos = pos + ext as u32;
            i = run_end((t_raw, gh, gw), i, len);
            item = item + 1;
        } else {
            proof {
                lemma_end_pos_grows(s, i + 1, item as int, pos + 1);
            }
            if pos == u32::MAX {
                return None;
            }
            pos = pos + 1;
            i = i + 1;
        }
    }
    Some(pos)
}

/// Append the three position streams of `chunk_tokens` to the outputs, starting at `start_pos`.
///
/// A text token takes the running position on all three axes and advances it by one. A pad token,
/// while an owned item `grids[grid_base..grid_hi]` remains, starts that item: `t` groups over a
/// `gh` by `gw` grid, numbered from the running position, which then advances by the longest of
/// the three. A pad token with no owned item left is treated as text.
pub fn build(
    chunk_tokens: &[u32],
    grids: &[(usize, usize, usize)],
    grid_base: usize,
    grid_hi: usize,
    start_pos: u32,
    image_pad: u32,
    video_pad: u32,
    t_out: &mut Vec<u32>,
    h_out: &mut Vec<u32>,
    w_out: &mut Vec<u32>,
)
    requires
        (Scan {
            tokens: chunk_tokens@,
            grids: grids@,
            grid_hi: grid_hi as int,
            image_pad,
            video_pad,
        }).window_readable(grid_base as int),
        (Scan {
            tokens: chunk_tokens@,
            grids: grids@,
            grid_hi: grid_hi as int,
            image_pad,
            video_pad,
        }).end_pos(0, grid_base as int, start_pos as int) <= u32::MAX,
    ensures
        ({
            let s = Scan {
                tokens: chunk_tokens@,
                grids: grids@,
                grid_hi: grid_hi as int,
                image_pad,
                video_pad,
            };
            let e = s.entries(0, grid_base as int, start_pos as int);
            &&& final(t_out)@ == old(t_out)@ + t_stream(e)
            &&& final(h_out)@ == old(h_out)@ + h_stream(e)
            &&& final(w_out)@ == old(w_out)@ + w_stream(e)
        }),
{
    let ghost s = Scan {
        tokens: chunk_tokens@,
        grids: grids@,
        grid_hi: grid_hi as int,
        image_pad,
        video_pad,
    };
    proof {
        if !s.items_listed(0, grid_base as int) {
            lemma_window_readable(s, 0, grid_base as int);
        }
    }
    let ghost all = s.entries(0, grid_base as int, start_pos as int);
    let ghost mut done: Seq<(int, int, int)> = Seq::empty();
    let len: usize = chunk_tokens.len();
    let mut pos: u32 = start_pos;
    let mut item: usize = grid_base;
    let mut i: usize = 0;
    assert(done + s.entries(0, grid_base as int, start_pos as int) =~= all);
    assert(t_out@ =~= old(t_out)@ + t_stream(done));
    assert(h_out@ =~= old(h_out)@ + h_stream(done));
    assert(w_out@ =~= old(w_out)@ + w_stream(done));
    while i < len
        invariant
            s == (Scan {
                tokens: chunk_tokens@,
                grids: grids@,
                grid_hi: grid_hi as int,
                image_pad,
                video_pad,
            }),
            len == chunk_tokens@.len(),
            i <= len,
            s.items_listed(i as int, item as int),
            all == s.entries(0, grid_base as int, start_pos as int),
            done + s.entries(i as int, item as int, pos as int) == all,
            s.end_pos(i as int, item as int, pos as int) <= u32::MAX,
            t_out@ == old(t_out)@ + t_stream(done),
            h_out@ == old(h_out)@ + h_stream(done),
            w_out@ == old(w_out)@ + w_stream(done),
        decreases len - i,
    {
        let tok: u32 = chunk_tokens[i];
        if (tok == image_pad || tok == video_pad) && item < grid_hi {
            let ghost g = grids@[item as int];
            proof {
                lemma_item_sizes(g);
                lemma_end_pos_grows(s, i + run_len(g), item + 1, pos + extent(g));
            }
            let (t_raw, gh, gw) = grids[item];
            let ghost start = done;
            push_item((t_raw, gh, gw), pos, t_out, h_out, w_out);
            proof {
                done = start + item_entries(g, pos as int);
                assert(t_out@ =~= old(t_out)@ + t_stream(done));
                assert(h_out@ =~= old(h_out)@ + h_stream(done));
                assert(w_out@ =~= old(w_out)@ + w_stream(done));
                assert(start + s.entries(i as int, item as int, pos as int) =~= done + s.entries(
                    i + run_len(g),
                    item + 1,
                    pos + extent(g),
                ));
            }
            let ext: usize = larger(larger(larger(t_raw, 1), gh), gw);
            pos = pos + ext as u32;
            i = run_end((t_raw, gh, gw), i, len);
            item = item + 1;
        } else {
            proof {
                lemma_end_pos_grows(s, i + 1, item as int, pos + 1);
            }
            t_out.push(pos);
            h_out.push(pos);
            w_out.push(pos);
            proof {
                let before = done;
                let p = pos as int;
                done = before.push((p, p, p));
                assert(t_out@ =~= old(t_out)@ + t_stream(done));
                assert(h_out@ =~= old(h_out)@ + h_stream(done));
                assert(w_out@ =~= old(w_out)@ + w_stream(done));
                assert(before + s.entries(i as int, item as int, p) =~= done + s.entries(
                    i + 1,
                    item as int,
                    p + 1,
                ));
            }
            pos = pos + 1;
            i = i + 1;
        }
    }
    assert(done =~= all);
}

/// Append the entries of one item based at `base`, group by group, row by row.
fn push_item(
    g: (usize, usize, usize),
    base: u32,
    t_out: &mut Vec<u32>,
    h_out: &mut Vec<u32>,
    w_out: &mut Vec<u32>,
)
    requires
        base + extent(g) <= u32::MAX,
    ensures
        final(t_out)@ == old(t_out)@ + t_stream(item_entries(g, base as int)),
        final(h_out)@ == old(h_out)@ + h_stream(item_entries(g, base as int)),
        final(w_out)@ == old(w_out)@ + w_stream(item_entries(g, base as int)),
{
    let (t_raw, gh, gw) = g;
    let t_len: usize = larger(t_raw, 1);
    let empty: bool = gh == 0 || gw == 0;
    let rows: usize = if empty {
        1
    } else {
        gh
    };
    let cols: usize = if empty {
        1
    } else {
        gw
    };
    let ghost all = item_entries(g, base as int);
    proof {
        lemma_item_sizes(g);
        lemma_plane(g);
        assert(empty == (gh * gw == 0)) by (nonlinear_arith)
            requires
                empty == (gh == 0 || gw == 0),
                gh >= 0,
                gw >= 0,
        ;
        assert(0 * plane(g) == 0) by (nonlinear_arith);
        assert(entry_index(g, 0, 0, 0) == 0) by {
            assert(0 * cols_of(g) == 0) by (nonlinear_arith);
        }
    }
    let ghost t0 = t_out@;
    let ghost h0 = h_out@;
    let ghost w0 = w_out@;
    assert(t_out@ =~= t0 + t_stream(all.subrange(0, 0)));
    assert(h_out@ =~= h0 + h_stream(all.subrange(0, 0)));
    assert(w_out@ =~= w0 + w_stream(all.subrange(0, 0)));
    let mut grp: usize = 0;
    while grp < t_len
        invariant
            base + extent(g) <= u32::MAX,
            all == item_entries(g, base as int),
            t_len == groups(g),
            rows == rows_of(g),
            cols == cols_of(g),
            plane(g) == rows_of(g) * cols_of(g),
            rows >= 1,
            cols >= 1,
            grp <= t_len,
            0 <= entry_index(g, grp as int, 0, 0) <= all.len(),
            t_out@ == t0 + t_stream(all.subrange(0, entry_index(g, grp as int, 0, 0))),
            h_out@ == h0 + h_stream(all.subrange(0, entry_index(g, grp as int, 0, 0))),
            w_out@ == w0 + w_stream(all.subrange(0, entry_index(g, grp as int, 0, 0))),
        decreases t_len - grp,
    {
        let mut row: usize = 0;
        while row < rows
            invariant
                base + extent(g) <= u32::MAX,
                all == item_entries(g, base as int),
                t_len == groups(g),
                rows == rows_of(g),
                cols == cols_of(g),
                cols >= 1,
                grp < t_len,
                row <= rows,
                0 <= entry_index(g, grp as int, row as int, 0) <= all.len(),
                t_out@ == t0 + t_stream(all.subrange(0, entry_index(g, grp as int, row as int, 0))),
                h_out@ == h0 + h_stream(all.subrange(0, entry_index(g, grp as int, row as int, 0))),
                w_out@ == w0 + w_stream(all.subrange(0, entry_index(g, grp as int, row as int, 0))),
            decreases rows - row,
        {
            let mut col: usize = 0;
            while col < cols
                invariant
                    base + extent(g) <= u32::MAX,
                    all == item_entries(g, base as int),
                    t_len == groups(g),
                    rows == rows_of(g),
                    cols == cols_of(g),
                    grp < t_len,
                    row < rows,
                    col <= cols,
                    0 <= entry_index(g, grp as int, row as int, col as int) <= all.len(),
                    t_out@ == t0 + t_stream(
                        all.subrange(0, entry_index(g, grp as int, row as int, col as int)),
                    ),
                    h_out@ == h0 + h_stream(
                        all.subrange(0, entry_index(g, grp as int, row as int, col as int)),
                    ),
                    w_out@ == w0 + w_stream(
                        all.subrange(0, entry_index(g, grp as int, row as int, col as int)),
                    ),
                decreases cols - col,
            {
                let ghost k = entry_index(g, grp as int, row as int, col as int);
                proof {
                    lemma_entry_at(g, base as int, grp as int, row as int, col as int);
                    item_stays_below_its_end(g, base as int, k);
                }
                t_out.push(base + grp as u32);
                h_out.push(base + row as u32);
                w_out.push(base + col as u32);
                col = col + 1;
                proof {
                    assert(entry_index(g, grp as int, row as int, col as int) == k + 1);
                    assert(all.subrange(0, k + 1) =~= all.subrange(0, k).push(all[k]));
                    assert(t_out@ =~= t0 + t_stream(all.subrange(0, k + 1)));
                    assert(h_out@ =~= h0 + h_stream(all.subrange(0, k + 1)));
                    assert(w_out@ =~= w0 + w_stream(all.subrange(0, k + 1)));
                }
            }
            proof {
                let c = cols_of(g);
                let r = row as int;
                assert((r + 1) * c == r * c + c) by (nonlinear_arith);
            }
            row = row + 1;
        }
        proof {
            let p = plane(g);
            let x = grp as int;
            assert((x + 1) * p == x * p + p) by (nonlinear_arith);
            assert(0 * cols_of(g) == 0) by (nonlinear_arith);
        }
        grp = grp + 1;
    }
    proof {
        assert(0 * cols_of(g) == 0) by (nonlinear_arith);
        assert(entry_index(g, grp as int, 0, 0) == all.len());
        assert(all.subrange(0, all.len() as int) =~= all);
    }
}

/// A text token, and a pad with no owned item left, takes the running position on all three axes,
/// and the rest of the chunk goes on from the next position.
pub proof fn text_takes_the_running_position(
    tokens: &[u32],
    rest: &[u32],
    grids: &[(usize, usize, usize)],
    grid_base: usize,
    grid_hi: usize,
    start: u32,
    next: u32,
    image_pad: u32,
    video_pad: u32,
    t: &mut Vec<u32>,
    h: &mut Vec<u32>,
    w: &mut Vec<u32>,
    t2: &mut Vec<u32>,
    h2: &mut Vec<u32>,
    w2: &mut Vec<u32>,
)
    requires
        call_ensures(
            build,
            (tokens, grids, grid_base, grid_hi, start, image_pad, video_pad, t, h, w),
            (),
        ),
        call_ensures(
            build,
            (rest, grids, grid_base, grid_hi, next, image_pad, video_pad, t2, h2, w2),
            (),
        ),
        old(t)@.len() == 0,
        old(h)@.len() == 0,
        old(w)@.len() == 0,
        old(t2)@.len() == 0,
        old(h2)@.len() == 0,
        old(w2)@.len() == 0,
        tokens@.len() > 0,
        rest@ == tokens@.subrange(1, tokens@.len() as int),
        next == start + 1,
        !(tokens@[0] == image_pad || tokens@[0] == video_pad) || grid_base >= grid_hi,
    ensures
        final(t)@ == seq![start] + final(t2)@,
        final(h)@ == seq![start] + final(h2)@,
        final(w)@ == seq![start] + final(w2)@,
{
    let s = Scan { tokens: tokens@, grids: grids@, grid_hi: grid_hi as int, image_pad, video_pad };
    let b = Scan { tokens: rest@, grids: grids@, grid_hi: grid_hi as int, image_pad, video_pad };
    lemma_second_part(s, b, 1, 0, grid_base as int, next as int);
    let e = s.entries(0, grid_base as int, start as int);
    let p = start as int;
    assert(e =~= seq![(p, p, p)] + b.entries(0, grid_base as int, next as int));
    assert(final(t)@ =~= seq![start] + final(t2)@);
    assert(final(h)@ =~= seq![start] + final(h2)@);
    assert(final(w)@ =~= seq![start] + final(w2)@);
}

/// A pad with an owned item left gives the item its whole grid: group by group, row by row and
/// column by column, the temporal position counts the groups, the row position the rows and the
/// column position the columns, all from the running position. The chunk goes on behind the
/// item's tokens, with the next item, past the longest of the three.
pub proof fn an_item_fills_its_grid(
    tokens: &[u32],
    rest: &[u32],
    grids: &[(usize, usize, usize)],
    grid_base: usize,
    next_base: usize,
    grid_hi: usize,
    start: u32,
    next: u32,
    image_pad: u32,
    video_pad: u32,
    t: &mut Vec<u32>,
    h: &mut Vec<u32>,
    w: &mut Vec<u32>,
    t2: &mut Vec<u32>,
    h2: &mut Vec<u32>,
    w2: &mut Vec<u32>,
    groups_of: int,
    grp: int,
    row: int,
    col: int,
)
    requires
        call_ensures(
            build,
            (tokens, grids, grid_base, grid_hi, start, image_pad, video_pad, t, h, w),
            (),
        ),
        call_ensures(
            build,
            (rest, grids, next_base, grid_hi, next, image_pad, video_pad, t2, h2, w2),
            (),
        ),
        old(t)@.len() == 0,
        old(h)@.len() == 0,
        old(w)@.len() == 0,
        old(t2)@.len() == 0,
        old(h2)@.len() == 0,
        old(w2)@.len() == 0,
        tokens@.len() > 0,
        tokens@[0] == image_pad || tokens@[0] == video_pad,
        grid_base < grid_hi <= grids@.len(),
        next_base == grid_base + 1,
        ({
            let (n, gh, gw) = grids@[grid_base as int];
            let run = groups_of * (gh * gw);
            &&& gh > 0 && gw > 0
            &&& groups_of == if n > 0 {
                n as int
            } else {
                1
            }
            &&& run <= tokens@.len() ==> rest@ == tokens@.subrange(run, tokens@.len() as int)
            &&& run > tokens@.len() ==> rest@.len() == 0
            &&& next >= start + groups_of && next >= start + gh && next >= start + gw
            &&& next == start + groups_of || next == start + gh || next == start + gw
            &&& 0 <= grp < groups_of
            &&& 0 <= row < gh
            &&& 0 <= col < gw
        }),
    ensures
        ({
            let (n, gh, gw) = grids@[grid_base as int];
            let run = groups_of * (gh * gw);
            let k = grp * (gh * gw) + row * gw + col;
            &&& 0 <= k < run
            &&& final(t)@.len() == run + final(t2)@.len()
            &&& final(t)@.subrange(run, final(t)@.len() as int) == final(t2)@
            &&& final(h)@.subrange(run, final(h)@.len() as int) == final(h2)@
            &&& final(w)@.subrange(run, final(w)@.len() as int) == final(w2)@
            &&& final(t)@[k] == start + grp
            &&& final(h)@[k] == start + row
            &&& final(w)@[k] == start + col
        }),
{
    let s = Scan { tokens: tokens@, grids: grids@, grid_hi: grid_hi as int, image_pad, video_pad };
    let b = Scan { tokens: rest@, grids: grids@, grid_hi: grid_hi as int, image_pad, video_pad };
    let g = grids@[grid_base as int];
    let (n, gh, gw) = g;
    let run = groups_of * (gh * gw);
    lemma_item_sizes(g);
    assert(gh * gw > 0) by (nonlinear_arith)
        requires
            gh > 0,
            gw > 0,
    ;
    assert(run == run_len(g));
    assert(next == start + extent(g));
    let e = s.entries(0, grid_base as int, start as int);
    let tail = b.entries(0, next_base as int, next as int);
    if run <= tokens@.len() {
        lemma_second_part(s, b, run, 0, next_base as int, next as int);
    }
    assert(s.entries(run, next_base as int, next as int) == tail);
    assert(e == item_entries(g, start as int) + tail);
    lemma_entry_at(g, start as int, grp, row, col);
    let k = grp * (gh * gw) + row * gw + col;
    assert(k == entry_index(g, grp, row, col));
    assert(final(t)@.subrange(run, final(t)@.len() as int) =~= final(t2)@);
    assert(final(h)@.subrange(run, final(h)@.len() as int) =~= final(h2)@);
    assert(final(w)@.subrange(run, final(w)@.len() as int) =~= final(w2)@);
}

/// Building appends: what the streams held stays, what is added does not depend on it, and the
/// three streams grow alike; no token adds nothing.
pub proof fn building_appends_to_the_streams(
    tokens: &[u32],
    grids: &[(usize, usize, usize)],
    grid_base: usize,
    grid_hi: usize,
    start: u32,
    image_pad: u32,
    video_pad: u32,
    t: &mut Vec<u32>,
    h: &mut Vec<u32>,
    w: &mut Vec<u32>,
    t2: &mut Vec<u32>,
    h2: &mut Vec<u32>,
    w2: &mut Vec<u32>,
)
    requires
        call_ensures(
            build,
            (tokens, grids, grid_base, grid_hi, start, image_pad, video_pad, t, h, w),
            (),
        ),
        call_ensures(
            build,
            (tokens, grids, grid_base, grid_hi, start, image_pad, video_pad, t2, h2, w2),
            (),
        ),
        old(t2)@.len() == 0,
        old(h2)@.len() == 0,
        old(w2)@.len() == 0,
    ensures
        final(t)@ == old(t)@ + final(t2)@,
        final(h)@ == old(h)@ + final(h2)@,
        final(w)@ == old(w)@ + final(w2)@,
        final(t2)@.len() == final(h2)@.len(),
        final(t2)@.len() == final(w2)@.len(),
        tokens@.len() == 0 ==> final(t2)@.len() == 0,
{
    assert(final(t)@ =~= old(t)@ + final(t2)@);
    assert(final(h)@ =~= old(h)@ + final(h2)@);
    assert(final(w)@ =~= old(w)@ + final(w2)@);
}

/// The end of a chunk is the end of its rest: behind a text token one position further, behind an
/// item past its longest axis; no token leaves the position where it is, and a position past the
/// word range is none.
pub proof fn the_end_is_past_every_token(
    tokens: &[u32],
    rest: &[u32],
    grids: &[(usize, usize, usize)],
    grid_base: usize,
    grid_hi: usize,
    start: u32,
    next: u32,
    image_pad: u32,
    video_pad: u32,
    r: Option<u32>,
    r2: Option<u32>,
)
    requires
        call_ensures(
            end_position,
            (tokens, grids, grid_base, grid_hi, start, image_pad, video_pad),
            r,
        ),
        call_ensures(
            end_position,
            (rest, grids, grid_base, grid_hi, next, image_pad, video_pad),
            r2,
        ),
    ensures
        tokens@.len() == 0 ==> r == Some(start),
        r matches Some(p) ==> p >= start,
        tokens@.len() > 0 && rest@ == tokens@.subrange(1, tokens@.len() as int) && next == start + 1
            && (!(tokens@[0] == image_pad || tokens@[0] == video_pad) || grid_base >= grid_hi)
            ==> r == r2,
{
    let s = Scan { tokens: tokens@, grids: grids@, grid_hi: grid_hi as int, image_pad, video_pad };
    let b = Scan { tokens: rest@, grids: grids@, grid_hi: grid_hi as int, image_pad, video_pad };
    lemma_end_pos_grows(s, 0, grid_base as int, start as int);
    if tokens@.len() > 0 && rest@ == tokens@.subrange(1, tokens@.len() as int) && next == start
        + 1 {
        lemma_second_part(s, b, 1, 0, grid_base as int, next as int);
    }
}

/// Behind an item the end is that of the rest, from past the item's longest axis on.
pub proof fn the_end_is_past_every_item(
    tokens: &[u32],
    rest: &[u32],
    grids: &[(usize, usize, usize)],
    grid_base: usize,
    next_base: usize,
    grid_hi: usize,
    start: u32,
    next: u32,
    image_pad: u32,
    video_pad: u32,
    r: Option<u32>,
    r2: Option<u32>,
    groups_of: int,
)
    requires
        call_ensures(
            end_position,
            (tokens, grids, grid_base, grid_hi, start, image_pad, video_pad),
            r,
        ),
        call_ensures(
            end_position,
            (rest, grids, next_base, grid_hi, next, image_pad, video_pad),
            r2,
        ),
        tokens@.len() > 0,
        tokens@[0] == image_pad || tokens@[0] == video_pad,
        grid_base < grid_hi <= grids@.len(),
        next_base == grid_base + 1,
        ({
            let (n, gh, gw) = grids@[grid_base as int];
            let run = groups_of * (gh * gw);
            &&& gh > 0 && gw > 0
            &&& groups_of == if n > 0 {
                n as int
            } else {
                1
            }
            &&& run <= tokens@.len() ==> rest@ == tokens@.subrange(run, tokens@.len() as int)
            &&& run > tokens@.len() ==> rest@.len() == 0
            &&& next >= start + groups_of && next >= start + gh && next >= start + gw
            &&& next == start + groups_of || next == start + gh || next == start + gw
        }),
    ensures
        r == r2,
{
    let s = Scan { tokens: tokens@, grids: grids@, grid_hi: grid_hi as int, image_pad, video_pad };
    let b = Scan { tokens: rest@, grids: grids@, grid_hi: grid_hi as int, image_pad, video_pad };
    let g = grids@[grid_base as int];
    let (n, gh, gw) = g;
    let run = groups_of * (gh * gw);
    lemma_item_sizes(g);
    assert(gh * gw > 0) by (nonlinear_arith)
        requires
            gh > 0,
            gw > 0,
    ;
    assert(run == run_len(g));
    assert(next == start + extent(g));
    if run <= tokens@.len() {
        lemma_second_part(s, b, run, 0, next_base as int, next as int);
    }
    assert(s.end_pos(run, next_base as int, next as int) == b.end_pos(
        0,
        next_base as int,
        next as int,
    ));
}

/// An item with an empty grid still takes one place per group: the temporal position counts the
/// groups, and the row and column stay at the running position.
pub proof fn an_empty_grid_takes_one_place_per_group(
    tokens: &[u32],
    grids: &[(usize, usize, usize)],
    grid_base: usize,
    grid_hi: usize,
    start: u32,
    image_pad: u32,
    video_pad: u32,
    t: &mut Vec<u32>,
    h: &mut Vec<u32>,
    w: &mut Vec<u32>,
    k: int,
)
    requires
        call_ensures(
            build,
            (tokens, grids, grid_base, grid_hi, start, image_pad, video_pad, t, h, w),
            (),
        ),
        old(t)@.len() == 0,
        old(h)@.len() == 0,
        old(w)@.len() == 0,
        tokens@.len() > 0,
        tokens@[0] == image_pad || tokens@[0] == video_pad,
        grid_base < grid_hi <= grids@.len(),
        grids@[grid_base as int].1 == 0 || grids@[grid_base as int].2 == 0,
        0 <= k,
        k == 0 || k < grids@[grid_base as int].0,
        start + k <= u32::MAX,
    ensures
        k < final(t)@.len(),
        final(t)@[k] == start + k,
        final(h)@[k] == start,
        final(w)@[k] == start,
{
    let s = Scan { tokens: tokens@, grids: grids@, grid_hi: grid_hi as int, image_pad, video_pad };
    let g = grids@[grid_base as int];
    assert(g.1 * g.2 == 0) by (nonlinear_arith)
        requires
            g.1 == 0 || g.2 == 0,
    ;
    lemma_item_sizes(g);
    assert(plane(g) == 1);
    assert(run_len(g) == groups(g));
    let e = s.entries(0, grid_base as int, start as int);
    assert(e[k] == item_entry(g, start as int, k));
    let v = row_width(g);
    assert(k / 1 == k && k % 1 == 0);
    assert(0int / v == 0 && 0int % v == 0) by (nonlinear_arith)
        requires
            v >= 1,
    ;
}

} // verus!
