//! Startup check that every rank holds the same values for the settings that shape the
//! collective schedule: rank 0 broadcasts its values, and every rank compares them with its own.

use vstd::prelude::*;
use vstd::string::*;

use crate::decimal::{decimal, push_decimal};

verus! {

/// Whether the ranks have anything to compare: a single rank or an empty list does not
/// communicate.
pub fn agreement_needed(world_size: usize, num_items: usize) -> (r: bool)
    ensures
        r == (world_size >= 2 && num_items > 0),
{
    world_size >= 2 && num_items > 0
}

/// Byte `k` of a value, the lowest first.
pub open spec fn le_byte(v: u64, k: int) -> u8 {
    if k == 0 {
        (v % 0x100) as u8
    } else if k == 1 {
        (v / 0x100 % 0x100) as u8
    } else if k == 2 {
        (v / 0x1_0000 % 0x100) as u8
    } else if k == 3 {
        (v / 0x100_0000 % 0x100) as u8
    } else if k == 4 {
        (v / 0x1_0000_0000 % 0x100) as u8
    } else if k == 5 {
        (v / 0x100_0000_0000 % 0x100) as u8
    } else if k == 6 {
        (v / 0x1_0000_0000_0000 % 0x100) as u8
    } else {
        (v / 0x100_0000_0000_0000 % 0x100) as u8
    }
}

/// The bytes of the values, eight each, the lowest first.
pub open spec fn value_bytes(vals: Seq<u64>) -> Seq<u8> {
    Seq::new(vals.len() * 8, |i: int| le_byte(vals[i / 8], i % 8))
}

/// The values of the items.
pub open spec fn item_values(items: Seq<(&str, u64)>) -> Seq<u64> {
    Seq::new(items.len(), |i: int| items[i].1)
}

/// The bytes rank 0 broadcasts: the items' values, eight bytes each, the lowest first.
pub fn encode_items(items: &[(&str, u64)]) -> (r: Vec<u8>)
    ensures
        r@ == value_bytes(item_values(items@)),
{
    let ghost vals = item_values(items@);
    let mut out: Vec<u8> = Vec::new();
    let mut i: usize = 0;
    while i < items.len()
        invariant
            i <= items@.len(),
            vals == item_values(items@),
            out@ == value_bytes(vals).subrange(0, i * 8),
        decreases items@.len() - i,
    {
        let v: u64 = items[i].1;
        out.push((v % 0x100) as u8);
        out.push((v / 0x100 % 0x100) as u8);
        out.push((v / 0x1_0000 % 0x100) as u8);
        out.push((v / 0x100_0000 % 0x100) as u8);
        out.push((v / 0x1_0000_0000 % 0x100) as u8);
        out.push((v / 0x100_0000_0000 % 0x100) as u8);
        out.push((v / 0x1_0000_0000_0000 % 0x100) as u8);
        out.push((v / 0x100_0000_0000_0000 % 0x100) as u8);
        i = i + 1;
        assert(out@ =~= value_bytes(vals).subrange(0, i * 8));
    }
    assert(out@ =~= value_bytes(vals));
    out
}

/// The value whose bytes start at `at`.
pub open spec fn value_at(b: Seq<u8>, at: int) -> int {
    b[at] + b[at + 1] * 0x100 + b[at + 2] * 0x1_0000 + b[at + 3] * 0x100_0000 + b[at + 4]
        * 0x1_0000_0000 + b[at + 5] * 0x100_0000_0000 + b[at + 6] * 0x1_0000_0000_0000 + b[at + 7]
        * 0x100_0000_0000_0000
}

/// The values of a broadcast: each complete group of eight bytes.
pub fn decode_values(bytes: &[u8]) -> (r: Vec<u64>)
    ensures
        r@ == Seq::new(bytes@.len() / 8, |i: int| value_at(bytes@, i * 8) as u64),
{
    let len: usize = bytes.len();
    let n: usize = len / 8;
    let mut out: Vec<u64> = Vec::new();
    let mut i: usize = 0;
    while i < n
        invariant
            len == bytes@.len(),
            n == len / 8,
            i <= n,
            out@ == Seq::new(i as nat, |i: int| value_at(bytes@, i * 8) as u64),
        decreases n - i,
    {
        let at: usize = i * 8;
        let v: u64 = (bytes[at] as u64) + (bytes[at + 1] as u64) * 0x100 + (bytes[at + 2] as u64)
            * 0x1_0000 + (bytes[at + 3] as u64) * 0x100_0000 + (bytes[at + 4] as u64)
            * 0x1_0000_0000 + (bytes[at + 5] as u64) * 0x100_0000_0000 + (bytes[at + 6] as u64)
            * 0x1_0000_0000_0000 + (bytes[at + 7] as u64) * 0x100_0000_0000_0000;
        out.push(v);
        i = i + 1;
    }
    out
}

/// Every rank reads the values rank 0 sent: decoding the encoded values gives them back.
pub proof fn values_survive_the_broadcast(vals: Seq<u64>, i: int)
    requires
        0 <= i < vals.len(),
    ensures
        value_bytes(vals).len() / 8 == vals.len(),
        value_at(value_bytes(vals), i * 8) == vals[i],
{
    let b = value_bytes(vals);
    let v = vals[i];
    let at = i * 8;
    assert(b[at] == le_byte(v, 0));
    assert(b[at + 1] == le_byte(v, 1));
    assert(b[at + 2] == le_byte(v, 2));
    assert(b[at + 3] == le_byte(v, 3));
    assert(b[at + 4] == le_byte(v, 4));
    assert(b[at + 5] == le_byte(v, 5));
    assert(b[at + 6] == le_byte(v, 6));
    assert(b[at + 7] == le_byte(v, 7));
    lemma_bytes_sum(v);
}

proof fn lemma_bytes_sum(v: u64)
    ensures
        v == v % 0x100 + (v / 0x100 % 0x100) * 0x100 + (v / 0x1_0000 % 0x100) * 0x1_0000 + (v
            / 0x100_0000 % 0x100) * 0x100_0000 + (v / 0x1_0000_0000 % 0x100) * 0x1_0000_0000 + (v
            / 0x100_0000_0000 % 0x100) * 0x100_0000_0000 + (v / 0x1_0000_0000_0000 % 0x100)
            * 0x1_0000_0000_0000 + (v / 0x100_0000_0000_0000 % 0x100) * 0x100_0000_0000_0000,
{
    let v1 = v / 0x100;
    let v2 = v1 / 0x100;
    let v3 = v2 / 0x100;
    let v4 = v3 / 0x100;
    let v5 = v4 / 0x100;
    let v6 = v5 / 0x100;
    let v7 = v6 / 0x100;
    assert(v2 == v / 0x1_0000);
    assert(v3 == v / 0x100_0000);
    assert(v4 == v / 0x1_0000_0000);
    assert(v5 == v / 0x100_0000_0000);
    assert(v6 == v / 0x1_0000_0000_0000);
    assert(v7 == v / 0x100_0000_0000_0000);
    assert(v == v1 * 0x100 + v % 0x100);
    assert(v1 == v2 * 0x100 + v1 % 0x100);
    assert(v2 == v3 * 0x100 + v2 % 0x100);
    assert(v3 == v4 * 0x100 + v3 % 0x100);
    assert(v4 == v5 * 0x100 + v4 % 0x100);
    assert(v5 == v6 * 0x100 + v5 % 0x100);
    assert(v6 == v7 * 0x100 + v6 % 0x100);
    assert(v7 < 0x100);
}

/// The report of one disagreement: the setting's name and both ranks' values.
pub open spec fn mismatch_line(name: Seq<char>, rank: nat, mine: nat, theirs: nat) -> Seq<char> {
    name + ": rank "@ + decimal(rank) + " has "@ + decimal(mine) + ", rank 0 has "@ + decimal(
        theirs,
    )
}

/// The report of one disagreement.
fn format_mismatch(name: &str, rank: usize, mine: u64, theirs: u64) -> (r: String)
    ensures
        r@ == mismatch_line(name@, rank as nat, mine as nat, theirs as nat),
{
    let mut out: String = String::from_str(name);
    out.append(": rank ");
    push_decimal(&mut out, rank as u64);
    out.append(" has ");
    push_decimal(&mut out, mine);
    out.append(", rank 0 has ");
    push_decimal(&mut out, theirs);
    assert(out@ =~= mismatch_line(name@, rank as nat, mine as nat, theirs as nat));
    out
}

/// The reports of the first `n` items, in order: one for each that differs.
pub open spec fn mismatch_lines(
    items: Seq<(&str, u64)>,
    root: Seq<u64>,
    rank: nat,
    n: int,
) -> Seq<Seq<char>>
    decreases n,
{
    if n <= 0 {
        Seq::empty()
    } else {
        let rest = mismatch_lines(items, root, rank, n - 1);
        if items[n - 1].1 != root[n - 1] {
            rest.push(
                mismatch_line(
                    items[n - 1].0@,
                    rank,
                    items[n - 1].1 as nat,
                    root[n - 1] as nat,
                ),
            )
        } else {
            rest
        }
    }
}

/// The texts of a list of strings.
pub open spec fn texts(s: Seq<String>) -> Seq<Seq<char>> {
    Seq::new(s.len(), |i: int| s[i]@)
}

/// How many items have a counterpart.
pub open spec fn compared(items: Seq<(&str, u64)>, root: Seq<u64>) -> int {
    if items.len() < root.len() {
        items.len() as int
    } else {
        root.len() as int
    }
}

/// The disagreements of this rank's items with rank 0's values, each naming the setting and both
/// values.
pub fn mismatches(items: &[(&str, u64)], root: &[u64], rank: usize) -> (r: Vec<String>)
    ensures
        texts(r@) == mismatch_lines(items@, root@, rank as nat, compared(items@, root@)),
{
    let n: usize = if items.len() < root.len() {
        items.len()
    } else {
        root.len()
    };
    let mut out: Vec<String> = Vec::new();
    let mut i: usize = 0;
    assert(texts(out@) =~= mismatch_lines(items@, root@, rank as nat, 0));
    while i < n
        invariant
            n == compared(items@, root@),
            i <= n,
            texts(out@) == mismatch_lines(items@, root@, rank as nat, i as int),
        decreases n - i,
    {
        let (name, mine) = items[i];
        let theirs: u64 = root[i];
        if mine != theirs {
            let ghost before = out@;
            let line: String = format_mismatch(name, rank, mine, theirs);
            out.push(line);
            assert(texts(out@) =~= texts(before).push(line@));
        }
        i = i + 1;
    }
    out
}

/// Agreement is silent, and silence is agreement: there is no report exactly when every compared
/// value is rank 0's.
pub proof fn silent_exactly_on_agreement(
    items: Seq<(&str, u64)>,
    root: Seq<u64>,
    rank: nat,
    n: int,
)
    requires
        0 <= n <= items.len(),
        n <= root.len(),
    ensures
        mismatch_lines(items, root, rank, n).len() == 0 <==> forall|i: int|
            0 <= i < n ==> (#[trigger] items[i]).1 == root[i],
    decreases n,
{
    if n > 0 {
        silent_exactly_on_agreement(items, root, rank, n - 1);
        if mismatch_lines(items, root, rank, n).len() == 0 {
            assert(items[n - 1].1 == root[n - 1]);
        }
    }
}

/// Text between two reports.
pub open spec fn join(lines: Seq<Seq<char>>) -> Seq<char>
    decreases lines.len(),
{
    if lines.len() == 0 {
        Seq::empty()
    } else if lines.len() == 1 {
        lines[0]
    } else {
        join(lines.drop_last()) + "; "@ + lines.last()
    }
}

/// The error a disagreeing rank fails with.
pub fn disagreement(lines: &Vec<String>) -> (r: String)
    ensures
        r@
            == "ranks disagree on collective-shaping config — this is a hang or a wrong-extent reduce, not a perf skew. Set the same value on EVERY rank: "@
            + join(texts(lines@)),
{
    let mut out: String = String::from_str(
        "ranks disagree on collective-shaping config — this is a hang or a wrong-extent reduce, not a perf skew. Set the same value on EVERY rank: ",
    );
    let ghost head = out@;
    let mut i: usize = 0;
    assert(texts(lines@).subrange(0, 0) =~= Seq::empty());
    assert(out@ =~= head + join(texts(lines@).subrange(0, 0)));
    while i < lines.len()
        invariant
            i <= lines@.len(),
            out@ == head + join(texts(lines@).subrange(0, i as int)),
        decreases lines@.len() - i,
    {
        let ghost all = texts(lines@);
        let ghost longer = all.subrange(0, i + 1);
        assert(longer.drop_last() =~= all.subrange(0, i as int));
        if i > 0 {
            out.append("; ");
        }
        out.append(lines[i].as_str());
        i = i + 1;
        assert(out@ =~= head + join(longer));
    }
    assert(texts(lines@).subrange(0, i as int) =~= texts(lines@));
    out
}

/// Compare this rank's items with rank 0's values: an error names every setting that differs.
pub fn check_ranks_agree(items: &[(&str, u64)], root: &[u64], rank: usize) -> (r: Result<(), String>)
    ensures
        ({
            let lines = mismatch_lines(items@, root@, rank as nat, compared(items@, root@));
            &&& r is Ok == (lines.len() == 0)
            &&& r matches Err(e) ==> e@
                == "ranks disagree on collective-shaping config — this is a hang or a wrong-extent reduce, not a perf skew. Set the same value on EVERY rank: "@
                + join(lines)
        }),
{
    let bad: Vec<String> = mismatches(items, root, rank);
    assert(texts(bad@).len() == bad@.len());
    if bad.len() == 0 {
        Ok(())
    } else {
        Err(disagreement(&bad))
    }
}

/// The ranks compare their values exactly when there are several and there is something to compare.
pub proof fn single_ranks_compare_nothing(world_size: usize, num_items: usize, r: bool)
    requires
        call_ensures(agreement_needed, (world_size, num_items), r),
    ensures
        r <==> world_size > 1 && num_items != 0,
{
}

/// Every rank reads exactly the values rank 0 sent, in order, and eight bytes carry each, the
/// lowest first.
pub proof fn ranks_read_what_was_sent(
    items: &[(&str, u64)],
    bytes: Vec<u8>,
    buf: &[u8],
    r: Vec<u64>,
    i: int,
)
    requires
        call_ensures(encode_items, (items,), bytes),
        call_ensures(decode_values, (buf,), r),
        buf@ == bytes@,
        0 <= i < items@.len(),
    ensures
        bytes@.len() == 8 * items@.len(),
        r@.len() == items@.len(),
        r@[i] == items@[i].1,
        bytes@[8 * i] == items@[i].1 % 256,
        bytes@[8 * i + 7] == items@[i].1 / 0x100_0000_0000_0000,
{
    let vals = item_values(items@);
    values_survive_the_broadcast(vals, i);
    assert(bytes@[8 * i] == le_byte(vals[(8 * i) / 8], (8 * i) % 8));
    assert(bytes@[8 * i + 7] == le_byte(vals[(8 * i + 7) / 8], (8 * i + 7) % 8));
}

/// The check fails exactly when some compared value is not rank 0's.
pub proof fn ranks_agree_when_all_values_do(
    items: &[(&str, u64)],
    root: &[u64],
    rank: usize,
    r: Result<(), String>,
    lines: Vec<String>,
)
    requires
        call_ensures(check_ranks_agree, (items, root, rank), r),
        call_ensures(mismatches, (items, root, rank), lines),
    ensures
        r is Ok <==> forall|i: int|
            0 <= i < items@.len() && i < root@.len() ==> (#[trigger] items@[i]).1 == root@[i],
        r is Ok <==> lines@.len() == 0,
{
    let n = compared(items@, root@);
    silent_exactly_on_agreement(items@, root@, rank as nat, n);
    assert(texts(lines@).len() == lines@.len());
    if forall|i: int| 0 <= i < n ==> (#[trigger] items@[i]).1 == root@[i] {
        assert forall|i: int| 0 <= i < items@.len() && i < root@.len() implies (
        #[trigger] items@[i]).1 == root@[i] by {}
    }
}

/// One more setting is reported exactly when it differs, with its name, this rank and both values
/// in decimal, behind the other reports.
pub proof fn each_difference_is_reported(
    items: &[(&str, u64)],
    longer: &[(&str, u64)],
    name: &str,
    mine: u64,
    root: &[u64],
    rank: usize,
    r: Vec<String>,
    r2: Vec<String>,
    rank_text: &mut String,
    mine_text: &mut String,
    root_text: &mut String,
    i: int,
)
    requires
        call_ensures(mismatches, (items, root, rank), r),
        call_ensures(mismatches, (longer, root, rank), r2),
        longer@ == items@.push((name, mine)),
        items@.len() < root@.len(),
        rank <= u64::MAX,
        call_ensures(push_decimal, (rank_text, rank as u64), ()),
        call_ensures(push_decimal, (mine_text, mine), ()),
        call_ensures(push_decimal, (root_text, root@[items@.len() as int]), ()),
        old(rank_text)@.len() == 0,
        old(mine_text)@.len() == 0,
        old(root_text)@.len() == 0,
    ensures
        0 <= i < r@.len() ==> r2@.len() > i && r2@[i]@ == r@[i]@,
        mine == root@[items@.len() as int] ==> r2@.len() == r@.len(),
        mine != root@[items@.len() as int] ==> r2@.len() == r@.len() + 1
            && r2@[r@.len() as int]@ == name@ + ": rank "@ + final(rank_text)@ + " has "@ + final(mine_text)@ + ", rank 0 has "@ + final(root_text)@,
{
    let n = items@.len() as int;
    lemma_lines_prefix(items@, longer@, root@, rank as nat, n);
    assert(longer@[n] == (name, mine));
    assert(final(rank_text)@ =~= decimal(rank as nat));
    assert(final(mine_text)@ =~= decimal(mine as nat));
    assert(final(root_text)@ =~= decimal(root@[n] as nat));
    assert(texts(r@).len() == r@.len() && texts(r2@).len() == r2@.len());
    if 0 <= i < r@.len() {
        assert(texts(r2@)[i] == texts(r@)[i]);
    }
    if mine != root@[n] {
        assert(texts(r2@)[r@.len() as int] == r2@[r@.len() as int]@);
    }
}

proof fn lemma_lines_prefix(
    a: Seq<(&str, u64)>,
    b: Seq<(&str, u64)>,
    root: Seq<u64>,
    rank: nat,
    n: int,
)
    requires
        0 <= n <= a.len() <= b.len(),
        forall|i: int| 0 <= i < a.len() ==> #[trigger] b[i] == a[i],
    ensures
        mismatch_lines(a, root, rank, n) == mismatch_lines(b, root, rank, n),
    decreases n,
{
    if n > 0 {
        lemma_lines_prefix(a, b, root, rank, n - 1);
        assert(b[n - 1] == a[n - 1]);
    }
}

/// The error joins the reports in order, one more behind a semicolon.
pub proof fn reports_are_joined_in_order(
    lines: &Vec<String>,
    longer: &Vec<String>,
    line: String,
    r: String,
    r2: String,
)
    requires
        call_ensures(disagreement, (lines,), r),
        call_ensures(disagreement, (longer,), r2),
        longer@ == lines@.push(line),
    ensures
        lines@.len() > 0 ==> r2@ == r@ + "; "@ + line@,
        lines@.len() == 0 ==> r2@ == r@ + line@,
{
    let a = texts(lines@);
    let b = texts(longer@);
    assert(b =~= a.push(line@));
    assert(b.drop_last() =~= a);
    if lines@.len() > 0 {
        assert(r2@ =~= r@ + "; "@ + line@);
    } else {
        assert(join(b) == line@);
        assert(r2@ =~= r@ + line@);
    }
}

/// A rank that disagrees fails with the error of its own reports, which says first that the ranks
/// disagree and what to do.
pub proof fn disagreeing_ranks_say_what_differs(
    items: &[(&str, u64)],
    root: &[u64],
    rank: usize,
    r: Result<(), String>,
    lines: Vec<String>,
    text: String,
    none: &Vec<String>,
    head: String,
)
    requires
        call_ensures(check_ranks_agree, (items, root, rank), r),
        call_ensures(mismatches, (items, root, rank), lines),
        call_ensures(disagreement, (&lines,), text),
        call_ensures(disagreement, (none,), head),
        none@.len() == 0,
    ensures
        r matches Err(e) ==> e@ == text@,
        head@
            == "ranks disagree on collective-shaping config — this is a hang or a wrong-extent reduce, not a perf skew. Set the same value on EVERY rank: "@,
{
    assert(texts(none@).len() == 0);
    assert(head@ =~= head@ + join(texts(none@)));
}

} // verus!
