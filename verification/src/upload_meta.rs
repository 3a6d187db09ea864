//! Attention metadata of a prefill chunk: position streams and cache slots, their placement in
//! the scratch buffer, and the incremental upload of the block table.

use vstd::prelude::*;

use crate::align::{align_up, align_up_spec, lemma_align_up};
use crate::embed_chunk::{is_pad, some_pad, tokens_have_vision_pad};
use crate::kv_rows::{positions, positions_spec, seq_slot_spec, seq_slots, MAX_BLOCK_SIZE};
use crate::mrope_pos::{build, end_position, h_stream, t_stream, w_stream, Scan};
use crate::sequence_state::{window_start, SequenceState};

verus! {

/// Placement of a chunk's metadata.
#[derive(Clone, Copy, Debug, PartialEq, Eq, Structural)]
pub struct MetaLayout {
    /// Offset of the slots from the metadata.
    pub slot_offset: usize,
    /// Bytes of one position stream.
    pub pos_stream_bytes: usize,
    pub use_mrope: bool,
    /// Whether earlier KV is read through the block table.
    pub needs_paged: bool,
}

/// Offset of the metadata in the scratch buffer: after the expert-routing staging, aligned to
/// eight bytes.
pub fn meta_offset(proc_count: usize, experts_per_tok: usize) -> (r: usize)
    requires
        proc_count * experts_per_tok * 8 + 7 <= usize::MAX,
    ensures
        r == align_up_spec(proc_count * experts_per_tok * 8, 8),
        r >= proc_count * experts_per_tok * 8,
        r % 8 == 0,
{
    proof {
        let a = proc_count as int;
        let b = experts_per_tok as int;
        assert(0 <= a * b) by (nonlinear_arith)
            requires
                0 <= a,
                0 <= b,
        ;
        lemma_align_up(a * b * 8, 8);
    }
    align_up(proc_count * experts_per_tok * 4 * 2, 8)
}

/// Placement of the metadata of `proc_count` tokens.
pub open spec fn meta_layout_spec(
    proc_count: int,
    use_mrope: bool,
    effective_seq_len_start: int,
) -> MetaLayout {
    MetaLayout {
        slot_offset: (if use_mrope {
            align_up_spec(proc_count * 4 * 3, 8)
        } else {
            align_up_spec(proc_count * 4, 8)
        }) as usize,
        pos_stream_bytes: (proc_count * 4) as usize,
        use_mrope,
        needs_paged: effective_seq_len_start > 0,
    }
}

/// Placement of the metadata of `proc_count` tokens: one position stream, or three, then the
/// slots at the next multiple of eight bytes.
pub fn meta_layout(proc_count: usize, use_mrope: bool, effective_seq_len_start: usize) -> (r: MetaLayout)
    requires
        proc_count * 12 + 7 <= usize::MAX,
    ensures
        r == meta_layout_spec(proc_count as int, use_mrope, effective_seq_len_start as int),
        r.slot_offset % 8 == 0,
        r.slot_offset >= r.pos_stream_bytes * (if use_mrope {
            3int
        } else {
            1
        }),
{
    let pos_stream_bytes: usize = proc_count * 4;
    let slot_offset: usize = if use_mrope {
        align_up(pos_stream_bytes * 3, 8)
    } else {
        align_up(pos_stream_bytes, 8)
    };
    MetaLayout {
        slot_offset,
        pos_stream_bytes,
        use_mrope,
        needs_paged: effective_seq_len_start > 0,
    }
}

/// The items of a shared list that a request owns.
#[derive(Clone, Copy, Debug)]
pub struct GridWindow {
    pub base: usize,
    /// Items owned from `base` on; `0` means all of them.
    pub owned: usize,
}

/// End of the owned items in a list of `len`.
pub open spec fn grid_hi_spec(w: GridWindow, len: int) -> int {
    if w.owned > 0 && w.base + w.owned < len {
        w.base + w.owned
    } else {
        len
    }
}

/// End of the owned items in a list of `len`.
pub fn grid_hi(w: GridWindow, len: usize) -> (r: usize)
    ensures
        r == grid_hi_spec(w, len as int),
{
    if w.owned > 0 && w.base < len && w.owned < len - w.base {
        w.base + w.owned
    } else {
        len
    }
}

/// The position streams of a chunk.
pub struct PositionStreams {
    pub t: Vec<u32>,
    pub h: Vec<u32>,
    pub w: Vec<u32>,
}

/// Whether a chunk has vision positions.
pub open spec fn chunk_has_vision(
    chunk: Seq<u32>,
    grids: Seq<(usize, usize, usize)>,
    image_pad: u32,
    video_pad: u32,
) -> bool {
    grids.len() > 0 && exists|i: int|
        0 <= i < chunk.len() && is_pad(#[trigger] chunk[i], image_pad, video_pad)
}

/// The scan of a chunk for vision positions.
pub open spec fn chunk_scan(
    chunk: Seq<u32>,
    grids: Seq<(usize, usize, usize)>,
    window: GridWindow,
    image_pad: u32,
    video_pad: u32,
) -> Scan {
    Scan {
        tokens: chunk,
        grids,
        grid_hi: grid_hi_spec(window, grids.len() as int),
        image_pad,
        video_pad,
    }
}

/// Whether the positions of a chunk fit a position word, so that its streams can be built.
pub fn positions_fit(
    chunk: &[u32],
    proc_start: usize,
    use_mrope: bool,
    grids: &[(usize, usize, usize)],
    window: GridWindow,
    image_pad: u32,
    video_pad: u32,
) -> (r: bool)
    ensures
        r == (use_mrope && chunk_has_vision(chunk@, grids@, image_pad, video_pad) ==> chunk_scan(
            chunk@,
            grids@,
            window,
            image_pad,
            video_pad,
        ).end_pos(0, window.base as int, (proc_start as u32) as int) <= u32::MAX),
{
    if !use_mrope || grids.len() == 0 || !tokens_have_vision_pad(chunk, image_pad, video_pad) {
        return true;
    }
    let hi: usize = grid_hi(window, grids.len());
    end_position(
        chunk,
        grids,
        window.base,
        hi,
        proc_start as u32,
        image_pad,
        video_pad,
    ).is_some()
}

/// The position streams of a chunk.
///
/// Without three-axis positions, and for a chunk of text, every stream counts up from
/// `proc_start`. A chunk with vision pads gets all three streams from its tokens, so their length
/// depends on the items and need not be `proc_count`.
pub fn position_streams(
    chunk: &[u32],
    proc_start: usize,
    proc_count: usize,
    use_mrope: bool,
    grids: &[(usize, usize, usize)],
    window: GridWindow,
    image_pad: u32,
    video_pad: u32,
) -> (r: PositionStreams)
    requires
        proc_start + proc_count <= usize::MAX,
        use_mrope && chunk_has_vision(chunk@, grids@, image_pad, video_pad) ==> chunk_scan(
            chunk@,
            grids@,
            window,
            image_pad,
            video_pad,
        ).end_pos(0, window.base as int, (proc_start as u32) as int) <= u32::MAX,
    ensures
        ({
            let linear = positions_spec(proc_start as int, proc_count as nat);
            let e = chunk_scan(chunk@, grids@, window, image_pad, video_pad).entries(
                0,
                window.base as int,
                (proc_start as u32) as int,
            );
            if !use_mrope {
                r.t@ == linear && r.h@.len() == 0 && r.w@.len() == 0
            } else if chunk_has_vision(chunk@, grids@, image_pad, video_pad) {
                r.t@ == t_stream(e) && r.h@ == h_stream(e) && r.w@ == w_stream(e)
            } else {
                r.t@ == linear && r.h@ == linear && r.w@ == linear
            }
        }),
{
    if !use_mrope {
        return PositionStreams {
            t: positions(proc_start, proc_count),
            h: Vec::new(),
            w: Vec::new(),
        };
    }
    if grids.len() > 0 && tokens_have_vision_pad(chunk, image_pad, video_pad) {
        let mut t: Vec<u32> = Vec::new();
        let mut h: Vec<u32> = Vec::new();
        let mut w: Vec<u32> = Vec::new();
        let hi: usize = grid_hi(window, grids.len());
        build(
            chunk,
            grids,
            window.base,
            hi,
            proc_start as u32,
            image_pad,
            video_pad,
            &mut t,
            &mut h,
            &mut w,
        );
        proof {
            let e = chunk_scan(chunk@, grids@, window, image_pad, video_pad).entries(
                0,
                window.base as int,
                (proc_start as u32) as int,
            );
            assert(t@ =~= t_stream(e));
            assert(h@ =~= h_stream(e));
            assert(w@ =~= w_stream(e));
        }
        PositionStreams { t, h, w }
    } else {
        PositionStreams {
            t: positions(proc_start, proc_count),
            h: positions(proc_start, proc_count),
            w: positions(proc_start, proc_count),
        }
    }
}

/// A field of the packed metadata.
#[derive(Clone, Copy, Debug, PartialEq, Eq, Structural)]
pub enum MetaField {
    Positions,
    PositionsH,
    PositionsW,
    Slots,
}

/// Why metadata was not packed.
#[derive(Clone, Copy, Debug, PartialEq, Eq, Structural)]
pub enum PackError {
    /// The source holds fewer elements than the field.
    Short { field: MetaField },
    /// The field does not fit the destination.
    NoRoom { field: MetaField },
}

/// What packing a field of `count` elements of `elem` bytes at `at` fails with.
pub open spec fn field_error(
    field: MetaField,
    have: int,
    count: int,
    elem: int,
    at: int,
    capacity: int,
) -> Option<PackError> {
    if have < count {
        Some(PackError::Short { field })
    } else if at + count * elem > capacity {
        Some(PackError::NoRoom { field })
    } else {
        None
    }
}

/// Check one field.
pub fn check_field(
    field: MetaField,
    have: usize,
    count: usize,
    elem: usize,
    at: usize,
    capacity: usize,
) -> (r: Option<PackError>)
    requires
        count * elem <= usize::MAX,
    ensures
        r == field_error(
            field,
            have as int,
            count as int,
            elem as int,
            at as int,
            capacity as int,
        ),
{
    if have < count {
        Some(PackError::Short { field })
    } else {
        let bytes: usize = count * elem;
        if at > capacity || bytes > capacity - at {
            Some(PackError::NoRoom { field })
        } else {
            None
        }
    }
}

/// The first field that cannot be packed.
pub open spec fn pack_error(
    streams: PositionStreams,
    slots: Option<Vec<i64>>,
    proc_count: int,
    layout: MetaLayout,
    capacity: int,
) -> Option<PackError> {
    let p = layout.pos_stream_bytes as int;
    let t = field_error(
        MetaField::Positions,
        streams.t@.len() as int,
        proc_count,
        4,
        0,
        capacity,
    );
    let h = field_error(
        MetaField::PositionsH,
        streams.h@.len() as int,
        proc_count,
        4,
        p,
        capacity,
    );
    let w = field_error(
        MetaField::PositionsW,
        streams.w@.len() as int,
        proc_count,
        4,
        p + p,
        capacity,
    );
    if t is Some {
        t
    } else if layout.use_mrope && h is Some {
        h
    } else if layout.use_mrope && w is Some {
        w
    } else if slots is Some {
        field_error(
            MetaField::Slots,
            slots->0@.len() as int,
            proc_count,
            8,
            layout.slot_offset as int,
            capacity,
        )
    } else {
        None
    }
}

/// Whether the metadata can be packed at the layout's offsets into `capacity` bytes: every field
/// needs `proc_count` elements, of which the first `proc_count` are taken, and room for them.
pub fn check_pack(
    streams: &PositionStreams,
    slots: &Option<Vec<i64>>,
    proc_count: usize,
    layout: &MetaLayout,
    capacity: usize,
) -> (r: Result<(), PackError>)
    requires
        proc_count * 8 <= usize::MAX,
        layout.pos_stream_bytes * 2 <= usize::MAX,
    ensures
        r is Ok == pack_error(*streams, *slots, proc_count as int, *layout, capacity as int) is None,
        r matches Err(e) ==> pack_error(
            *streams,
            *slots,
            proc_count as int,
            *layout,
            capacity as int,
        ) == Some(e),
{
    if let Some(e) = check_field(
        MetaField::Positions,
        streams.t.len(),
        proc_count,
        4,
        0,
        capacity,
    ) {
        return Err(e);
    }
    if layout.use_mrope {
        let h_at: usize = layout.pos_stream_bytes;
        let w_at: usize = h_at + layout.pos_stream_bytes;
        if let Some(e) = check_field(
            MetaField::PositionsH,
            streams.h.len(),
            proc_count,
            4,
            h_at,
            capacity,
        ) {
            return Err(e);
        }
        if let Some(e) = check_field(
            MetaField::PositionsW,
            streams.w.len(),
            proc_count,
            4,
            w_at,
            capacity,
        ) {
            return Err(e);
        }
    }
    match slots {
        Some(s) => {
            if let Some(e) = check_field(
                MetaField::Slots,
                s.len(),
                proc_count,
                8,
                layout.slot_offset,
                capacity,
            ) {
                return Err(e);
            }
        },
        None => {},
    }
    Ok(())
}

/// The bytes a packer may write: both the host staging and the destination bound it.
pub fn packer_capacity(staging_bytes: usize, dest_bytes: usize) -> (r: usize)
    ensures
        r == if staging_bytes < dest_bytes {
            staging_bytes
        } else {
            dest_bytes
        },
        r <= staging_bytes,
{
    if staging_bytes < dest_bytes {
        staging_bytes
    } else {
        dest_bytes
    }
}

/// The slots of a chunk, or `None` when they are filled from the block table on the device.
pub fn chunk_slots(
    seq: &SequenceState,
    proc_start: usize,
    proc_count: usize,
    needs_paged: bool,
    bs: usize,
    dummy_block: u32,
) -> (r: Option<Vec<i64>>)
    requires
        0 < bs <= MAX_BLOCK_SIZE,
        proc_start + proc_count <= usize::MAX,
    ensures
        r is Some == !needs_paged,
        r matches Some(s) ==> s@ == Seq::new(
            proc_count as nat,
            |i: int| seq_slot_spec(*seq, proc_start + i, bs as int, dummy_block) as i64,
        ),
{
    if needs_paged {
        None
    } else {
        Some(seq_slots(seq, proc_start, proc_count, bs, dummy_block))
    }
}

/// Where the upload of new block-table entries starts, if there are any to upload.
pub open spec fn page_upload_spec(table_len: nat, disk_len: nat, uploaded: nat) -> Option<nat> {
    if uploaded < table_len && window_start(table_len, disk_len) == 0 {
        Some(uploaded)
    } else {
        None
    }
}

/// The first block-table entry to upload. Once the window has slid, the table's entries no longer
/// stand at their absolute places, and none is uploaded.
pub fn page_upload(seq: &SequenceState, uploaded_blocks: usize) -> (r: Option<usize>)
    ensures
        r is Some == page_upload_spec(
            seq.block_table@.len(),
            seq.disk_block_ids@.len(),
            uploaded_blocks as nat,
        ) is Some,
        r matches Some(at) ==> at == uploaded_blocks,
{
    if uploaded_blocks < seq.block_table.len() && seq.hss_window_start() == 0 {
        Some(uploaded_blocks)
    } else {
        None
    }
}

/// Record that every block-table entry has been uploaded.
pub fn mark_uploaded(seq: &mut SequenceState)
    ensures
        *final(seq) == (SequenceState {
            chunked_prefill_meta: final(seq).chunked_prefill_meta,
            ..*old(seq)
        }),
        old(seq).chunked_prefill_meta is None ==> final(seq).chunked_prefill_meta is None,
        old(seq).chunked_prefill_meta matches Some(m) ==> final(seq).chunked_prefill_meta == Some(
            (crate::sequence_state::ChunkedPrefillPageMetadata {
                uploaded_blocks: old(seq).block_table@.len() as usize,
                ..m
            }),
        ),
{
    let blocks: usize = seq.block_table.len();
    match &mut seq.chunked_prefill_meta {
        Some(m) => {
            m.uploaded_blocks = blocks;
        },
        None => {},
    }
}

/// An incremental upload completes the device's table: if its first `uploaded` entries are the
/// sequence's, writing the remaining entries after them makes it the sequence's table.
pub proof fn delta_upload_completes_table(device: Seq<u32>, table: Seq<u32>, uploaded: int)
    requires
        0 <= uploaded <= table.len(),
        uploaded <= device.len(),
        device.subrange(0, uploaded) == table.subrange(0, uploaded),
    ensures
        device.subrange(0, uploaded) + table.subrange(uploaded, table.len() as int) == table,
{
    assert(table.subrange(0, uploaded) + table.subrange(uploaded, table.len() as int) =~= table);
}

/// After an upload nothing is left to upload until the table grows.
pub proof fn nothing_left_after_upload(table_len: nat, disk_len: nat)
    ensures
        page_upload_spec(table_len, disk_len, table_len) is None,
{
}

/// The metadata lies behind the routing staging, rounded up to eight bytes and no further.
pub proof fn metadata_lies_behind_the_routing(proc_count: usize, experts_per_tok: usize, r: usize)
    requires
        call_ensures(meta_offset, (proc_count, experts_per_tok), r),
    ensures
        proc_count * experts_per_tok * 8 <= r < proc_count * experts_per_tok * 8 + 8,
        r % 8 == 0,
{
    assert(0 <= proc_count * experts_per_tok) by (nonlinear_arith)
        requires
            0 <= proc_count,
            0 <= experts_per_tok,
    ;
    lemma_align_up(proc_count * experts_per_tok * 8, 8);
}

/// The slots lie behind all position streams, of which there are three exactly with three axes,
/// rounded up to eight bytes and no further; earlier KV is read exactly when there is some.
pub proof fn slots_lie_behind_the_positions(
    proc_count: usize,
    use_mrope: bool,
    effective_seq_len_start: usize,
    r: MetaLayout,
)
    requires
        call_ensures(meta_layout, (proc_count, use_mrope, effective_seq_len_start), r),
        proc_count * 12 + 7 <= usize::MAX,
    ensures
        r.pos_stream_bytes == 4 * proc_count,
        use_mrope ==> 3 * r.pos_stream_bytes <= r.slot_offset < 3 * r.pos_stream_bytes + 8,
        !use_mrope ==> r.pos_stream_bytes <= r.slot_offset < r.pos_stream_bytes + 8,
        r.slot_offset % 8 == 0,
        r.use_mrope == use_mrope,
        r.needs_paged <==> effective_seq_len_start > 0,
{
    lemma_align_up(proc_count * 4 * 3, 8);
    lemma_align_up(proc_count * 4, 8);
}

/// A request's items end where its window does, or with the list: all items from the base on when
/// it owns no number.
pub proof fn windows_end_inside_the_list(w: GridWindow, len: usize, r: usize)
    requires
        call_ensures(grid_hi, (w, len), r),
    ensures
        r <= len,
        w.owned == 0 ==> r == len,
        w.owned > 0 ==> r == len || r == w.base + w.owned,
        w.owned > 0 && w.base + w.owned <= len ==> r == w.base + w.owned,
{
}

/// Without three axes there is one stream, counting up from the start; with them a chunk of text
/// has the same count on all three, and a chunk with vision rows what a build of its own tokens
/// from the start gives.
pub proof fn streams_follow_the_chunk(
    chunk: &[u32],
    proc_start: usize,
    proc_count: usize,
    use_mrope: bool,
    grids: &[(usize, usize, usize)],
    window: GridWindow,
    image_pad: u32,
    video_pad: u32,
    r: PositionStreams,
    vision: bool,
    hi: usize,
    start: u32,
    t: &mut Vec<u32>,
    h: &mut Vec<u32>,
    w: &mut Vec<u32>,
    i: int,
)
    requires
        call_ensures(
            position_streams,
            (chunk, proc_start, proc_count, use_mrope, grids, window, image_pad, video_pad),
            r,
        ),
        call_ensures(tokens_have_vision_pad, (chunk, image_pad, video_pad), vision),
        call_ensures(grid_hi, (window, grids.len()), hi),
        call_ensures(
            build,
            (chunk, grids, window.base, hi, start, image_pad, video_pad, t, h, w),
            (),
        ),
        start == proc_start as u32,
        old(t)@.len() == 0,
        old(h)@.len() == 0,
        old(w)@.len() == 0,
    ensures
        ({
            let built = use_mrope && vision && grids@.len() > 0;
            &&& built ==> r.t@ == final(t)@ && r.h@ == final(h)@ && r.w@ == final(w)@
            &&& !built ==> r.t@.len() == proc_count && (0 <= i < proc_count ==> r.t@[i] == (
            proc_start + i) as u32)
            &&& !built && use_mrope ==> r.h@ == r.t@ && r.w@ == r.t@
            &&& !use_mrope ==> r.h@.len() == 0 && r.w@.len() == 0
        }),
{
    assert(grids.len() == grids@.len());
    assert(vision == some_pad(chunk@, image_pad, video_pad));
    if use_mrope && vision && grids@.len() > 0 {
        assert(final(t)@ =~= r.t@);
        assert(final(h)@ =~= r.h@);
        assert(final(w)@ =~= r.w@);
    }
}

/// The positions of a chunk with vision rows fit exactly when its end position does; any other
/// chunk's always do.
pub proof fn positions_fit_when_their_end_does(
    chunk: &[u32],
    proc_start: usize,
    use_mrope: bool,
    grids: &[(usize, usize, usize)],
    window: GridWindow,
    image_pad: u32,
    video_pad: u32,
    r: bool,
    vision: bool,
    hi: usize,
    start: u32,
    end: Option<u32>,
)
    requires
        call_ensures(
            positions_fit,
            (chunk, proc_start, use_mrope, grids, window, image_pad, video_pad),
            r,
        ),
        call_ensures(tokens_have_vision_pad, (chunk, image_pad, video_pad), vision),
        call_ensures(grid_hi, (window, grids.len()), hi),
        call_ensures(
            end_position,
            (chunk, grids, window.base, hi, start, image_pad, video_pad),
            end,
        ),
        start == proc_start as u32,
    ensures
        r <==> !(use_mrope && vision && grids@.len() > 0) || end is Some,
{
    assert(grids.len() == grids@.len());
    assert(vision == some_pad(chunk@, image_pad, video_pad));
}

/// A field is packed exactly when its source has all its elements and it ends inside the staging;
/// a short source is reported first.
pub proof fn fields_are_packed_whole(
    field: MetaField,
    have: usize,
    count: usize,
    elem: usize,
    at: usize,
    capacity: usize,
    r: Option<PackError>,
)
    requires
        call_ensures(check_field, (field, have, count, elem, at, capacity), r),
    ensures
        r is None <==> have >= count && at + elem * count <= capacity,
        r matches Some(PackError::Short { field: f }) ==> f == field && have < count,
        r matches Some(PackError::NoRoom { field: f }) ==> f == field && have >= count && at + elem
            * count > capacity,
{
    assert(elem * count == count * elem) by (nonlinear_arith);
}

/// Metadata is packed exactly when every field of its layout is: the positions, with three axes
/// the other two streams behind them, and the slots where they are given.
pub proof fn metadata_is_packed_whole(
    streams: &PositionStreams,
    slots: &Option<Vec<i64>>,
    proc_count: usize,
    layout: &MetaLayout,
    capacity: usize,
    r: Result<(), PackError>,
)
    requires
        call_ensures(check_pack, (streams, slots, proc_count, layout, capacity), r),
    ensures
        r is Ok <==> {
            &&& streams.t@.len() >= proc_count
            &&& 4 * proc_count <= capacity
            &&& layout.use_mrope ==> {
                &&& streams.h@.len() >= proc_count
                &&& streams.w@.len() >= proc_count
                &&& layout.pos_stream_bytes + 4 * proc_count <= capacity
                &&& 2 * layout.pos_stream_bytes + 4 * proc_count <= capacity
            }
            &&& slots matches Some(s) ==> s@.len() >= proc_count && layout.slot_offset + 8
                * proc_count <= capacity
        },
{
}

/// The staging never packs more than it holds, nor more than the destination takes.
pub proof fn packing_stays_in_both_buffers(staging_bytes: usize, dest_bytes: usize, r: usize)
    requires
        call_ensures(packer_capacity, (staging_bytes, dest_bytes), r),
    ensures
        r <= staging_bytes,
        r <= dest_bytes,
        r == staging_bytes || r == dest_bytes,
{
}

/// Slots are given from the host exactly when none are filled from the pages, and each is the slot
/// of the token's own position in the sequence's own block, or in the dummy block where it has
/// none.
pub proof fn chunk_tokens_have_their_own_slot(
    seq: &SequenceState,
    proc_start: usize,
    proc_count: usize,
    needs_paged: bool,
    bs: usize,
    dummy_block: u32,
    r: Option<Vec<i64>>,
    i: int,
)
    requires
        call_ensures(
            chunk_slots,
            (seq, proc_start, proc_count, needs_paged, bs, dummy_block),
            r,
        ),
        0 < bs <= MAX_BLOCK_SIZE,
        0 <= i < proc_count,
    ensures
        r is Some <==> !needs_paged,
        r matches Some(s) ==> {
            let pos = proc_start + i;
            let table = seq.block_table@;
            let seen = seq.disk_block_ids@.len() as int;
            let first = if seen > table.len() {
                seen - table.len()
            } else {
                0
            };
            let at = pos / bs as int - first;
            let block = if 0 <= at < table.len() {
                table[at]
            } else {
                dummy_block
            };
            &&& s@.len() == proc_count
            &&& s@[i] == block as int * bs as int + pos % bs as int
        },
{
    crate::kv_rows::lemma_slot_fits(*seq, proc_start + i, bs as int, dummy_block);
}

/// The pages are uploaded from the first entry that is not on the device, exactly when there is
/// one and the window has not slid; afterwards all are there, and nothing else has changed.
pub proof fn pages_are_uploaded_from_the_first_new(
    seq: &SequenceState,
    uploaded_blocks: usize,
    r: Option<usize>,
    seq2: &mut SequenceState,
)
    requires
        call_ensures(page_upload, (seq, uploaded_blocks), r),
        call_ensures(mark_uploaded, (seq2,), ()),
    ensures
        r is Some <==> uploaded_blocks < seq.block_table@.len() && seq.disk_block_ids@.len()
            <= seq.block_table@.len(),
        r matches Some(at) ==> at == uploaded_blocks,
        old(seq2).chunked_prefill_meta matches Some(m) ==> (
        final(seq2).chunked_prefill_meta matches Some(n) && n.uploaded_blocks
            == old(seq2).block_table@.len() as usize && n.block_table == m.block_table && n.seq_len
            == m.seq_len && n.block_capacity == m.block_capacity),
        old(seq2).chunked_prefill_meta is None ==> final(seq2).chunked_prefill_meta is None,
        *final(seq2) == (SequenceState {
            chunked_prefill_meta: final(seq2).chunked_prefill_meta,
            ..*old(seq2)
        }),
{
}

} // verus!
