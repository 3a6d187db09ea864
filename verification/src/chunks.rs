//! Cutting a range of tokens into chunks.

use vstd::prelude::*;

verus! {

/// A piece of a range.
#[derive(Clone, Copy, Debug, PartialEq, Eq, Structural)]
pub struct Chunk {
    pub offset: usize,
    pub len: usize,
    /// Whether this is the piece the range ends with.
    pub is_last: bool,
}

/// Length of the chunk at `offset`.
pub open spec fn chunk_len(offset: int, total: int, size: int) -> int {
    if total - offset < size {
        total - offset
    } else {
        size
    }
}

/// The chunks of `offset..total`, of `size` tokens each but for the last.
pub open spec fn chunks_from(offset: int, total: int, size: int) -> Seq<Chunk>
    decreases total - offset,
{
    if offset >= total || size <= 0 {
        Seq::empty()
    } else {
        let len = chunk_len(offset, total, size);
        seq![
            Chunk { offset: offset as usize, len: len as usize, is_last: offset + len >= total },
        ] + chunks_from(offset + len, total, size)
    }
}

/// Cut `0..total` into chunks of `size`, the last one possibly shorter.
pub fn chunks(total: usize, size: usize) -> (r: Vec<Chunk>)
    requires
        size > 0,
    ensures
        r@ == chunks_from(0, total as int, size as int),
{
    let mut out: Vec<Chunk> = Vec::new();
    let mut offset: usize = 0;
    assert(out@ + chunks_from(0, total as int, size as int) =~= chunks_from(
        0,
        total as int,
        size as int,
    ));
    while offset < total
        invariant
            size > 0,
            offset <= total,
            out@ + chunks_from(offset as int, total as int, size as int) == chunks_from(
                0,
                total as int,
                size as int,
            ),
        decreases total - offset,
    {
        let remaining: usize = total - offset;
        let len: usize = if remaining < size {
            remaining
        } else {
            size
        };
        let ghost before = out@;
        let c = Chunk { offset, len, is_last: offset + len >= total };
        out.push(c);
        assert(before + chunks_from(offset as int, total as int, size as int) =~= out@
            + chunks_from(offset + len, total as int, size as int));
        offset = offset + len;
    }
    assert(out@ =~= chunks_from(0, total as int, size as int));
    out
}

/// The chunks cover the range without gap or overlap: the first starts at `offset`, each starts
/// where the one before ends, the last ends at `total`, none is empty or longer than `size`, and
/// only the last is marked as such.
pub proof fn chunks_partition(offset: int, total: int, size: int)
    requires
        0 <= offset < total <= usize::MAX,
        0 < size,
    ensures
        ({
            let c = chunks_from(offset, total, size);
            &&& c.len() > 0
            &&& c[0].offset == offset
            &&& c.last().offset + c.last().len == total
            &&& forall|i: int|
                0 <= i < c.len() ==> 0 < (#[trigger] c[i]).len <= size && (c[i].is_last <==> i
                    == c.len() - 1)
            &&& forall|i: int|
                0 < i < c.len() ==> (#[trigger] c[i]).offset == c[i - 1].offset + c[i - 1].len
        }),
    decreases total - offset,
{
    let len = chunk_len(offset, total, size);
    let c = chunks_from(offset, total, size);
    let rest = chunks_from(offset + len, total, size);
    if offset + len < total {
        chunks_partition(offset + len, total, size);
        assert(c.last() == rest.last());
        assert forall|i: int| 0 <= i < c.len() implies 0 < (#[trigger] c[i]).len <= size && (
        c[i].is_last <==> i == c.len() - 1) by {
            if i > 0 {
                assert(c[i] == rest[i - 1]);
            }
        }
        assert forall|i: int| 0 < i < c.len() implies (#[trigger] c[i]).offset == c[i - 1].offset
            + c[i - 1].len by {
            assert(c[i] == rest[i - 1]);
            if i > 1 {
                assert(c[i - 1] == rest[i - 2]);
            }
        }
    }
}

proof fn lemma_cut(offset: int, total: int, size: int)
    requires
        0 <= offset <= total <= usize::MAX,
        0 < size,
    ensures
        ({
            let c = chunks_from(offset, total, size);
            &&& c.len() == 0 <==> offset == total
            &&& c.len() > 0 ==> c[0].offset == offset
            &&& c.len() > 0 ==> c.last().offset + c.last().len == total
            &&& forall|i: int|
                0 <= i < c.len() ==> {
                    &&& 0 < (#[trigger] c[i]).len <= size
                    &&& c[i].is_last <==> i == c.len() - 1
                    &&& i < c.len() - 1 ==> c[i].len == size && c[i + 1].offset == c[i].offset + size
                }
        }),
    decreases total - offset,
{
    if offset < total {
        let len = chunk_len(offset, total, size);
        lemma_cut(offset + len, total, size);
        let c = chunks_from(offset, total, size);
        let rest = chunks_from(offset + len, total, size);
        assert forall|i: int| 0 <= i < c.len() implies ({
            &&& 0 < (#[trigger] c[i]).len <= size
            &&& c[i].is_last <==> i == c.len() - 1
            &&& i < c.len() - 1 ==> c[i].len == size && c[i + 1].offset == c[i].offset + size
        }) by {
            if i > 0 {
                assert(c[i] == rest[i - 1]);
            }
            if i < c.len() - 1 {
                assert(c[i + 1] == rest[i]);
            }
        }
        if rest.len() > 0 {
            assert(c.last() == rest.last());
        }
    }
}

/// A range is cut without gap or overlap: the pieces start at zero, each begins where the one
/// before ends, all but the last are of the full size, the last one alone is marked, and it ends
/// at the range's end.
pub proof fn pieces_cover_the_range(total: usize, size: usize, r: Vec<Chunk>, i: int)
    requires
        call_ensures(chunks, (total, size), r),
        size > 0,
        0 <= i < r@.len(),
    ensures
        total > 0,
        r@[0].offset == 0,
        0 < r@[i].len <= size,
        r@[i].is_last <==> i == r@.len() - 1,
        i < r@.len() - 1 ==> r@[i].len == size && r@[i + 1].offset == r@[i].offset + r@[i].len,
        i == r@.len() - 1 ==> r@[i].offset + r@[i].len == total,
{
    lemma_cut(0, total as int, size as int);
}

/// An empty range has no piece, and any other has one.
pub proof fn only_an_empty_range_has_no_piece(total: usize, size: usize, r: Vec<Chunk>)
    requires
        call_ensures(chunks, (total, size), r),
        size > 0,
    ensures
        r@.len() == 0 <==> total == 0,
{
    lemma_cut(0, total as int, size as int);
}

} // verus!
