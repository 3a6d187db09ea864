//! Reading a spilled recurrent-state snapshot back in for a prefix match: when it is worth it,
//! and which snapshot and depth a restore then uses.

use vstd::prelude::*;
use vstd::string::*;

use crate::prefix_match::PrefixMatch;

verus! {

/// Depth in tokens below which a spilled snapshot is not read back, because the read costs a
/// fixed amount while the saved recompute grows with depth.
pub const DEFAULT_FAULT_MIN_TOKENS: usize = 256;

/// Whether a character is a decimal digit.
pub open spec fn is_digit(c: char) -> bool {
    '0' <= c && c <= '9'
}

/// The number a digit stands for.
pub open spec fn digit_value(c: char) -> int {
    c as int - '0' as int
}

/// The number a string of digits stands for.
pub open spec fn digits_value(s: Seq<char>) -> int
    decreases s.len(),
{
    if s.len() == 0 {
        0
    } else {
        digits_value(s.drop_last()) * 10 + digit_value(s.last())
    }
}

/// The digits of a number: what follows an optional plus sign.
pub open spec fn digits_of(s: Seq<char>) -> Seq<char> {
    if s.len() > 0 && s[0] == '+' {
        s.subrange(1, s.len() as int)
    } else {
        s
    }
}

/// The number written in `s`: an optional plus sign and at least one digit, within range.
pub open spec fn parsed(s: Seq<char>) -> Option<int> {
    let d = digits_of(s);
    if d.len() > 0 && (forall|i: int| 0 <= i < d.len() ==> is_digit(#[trigger] d[i]))
        && digits_value(d) <= usize::MAX {
        Some(digits_value(d))
    } else {
        None
    }
}

proof fn lemma_digits_mono(d: Seq<char>, n: int)
    requires
        0 <= n <= d.len(),
        forall|i: int| 0 <= i < d.len() ==> is_digit(#[trigger] d[i]),
    ensures
        0 <= digits_value(d.subrange(0, n)) <= digits_value(d),
    decreases d.len() - n,
{
    if n < d.len() {
        lemma_digits_mono(d, n + 1);
        assert(d.subrange(0, n + 1).drop_last() =~= d.subrange(0, n));
        assert(is_digit(d[n]));
        lemma_digits_nonneg(d.subrange(0, n));
    } else {
        assert(d.subrange(0, n) =~= d);
        lemma_digits_nonneg(d);
    }
}

proof fn lemma_digits_nonneg(d: Seq<char>)
    requires
        forall|i: int| 0 <= i < d.len() ==> is_digit(#[trigger] d[i]),
    ensures
        digits_value(d) >= 0,
    decreases d.len(),
{
    if d.len() > 0 {
        assert forall|i: int| 0 <= i < d.drop_last().len() implies is_digit(
            #[trigger] d.drop_last()[i],
        ) by {
            assert(is_digit(d[i]));
        }
        lemma_digits_nonneg(d.drop_last());
        assert(is_digit(d[d.len() - 1]));
    }
}

/// The number written in `s`, if it is one.
pub fn parse_usize(s: &str) -> (r: Option<usize>)
    ensures
        r is Some == parsed(s@) is Some,
        r matches Some(n) ==> parsed(s@) == Some(n as int),
{
    let len: usize = s.unicode_len();
    let start: usize = if len > 0 && s.get_char(0) == '+' {
        1
    } else {
        0
    };
    let ghost d = digits_of(s@);
    assert(d.len() == len - start);
    assert(forall|i: int| 0 <= i < d.len() ==> #[trigger] d[i] == s@[start + i]);
    if start == len {
        return None;
    }
    let mut acc: usize = 0;
    let mut i: usize = start;
    assert(d.subrange(0, 0) =~= Seq::empty());
    while i < len
        invariant
            len == s@.len(),
            d == digits_of(s@),
            start <= 1,
            start <= i <= len,
            d.len() == len - start,
            forall|j: int| 0 <= j < d.len() ==> #[trigger] d[j] == s@[start + j],
            forall|j: int| 0 <= j < i - start ==> is_digit(#[trigger] d[j]),
            acc == digits_value(d.subrange(0, i - start)),
        decreases len - i,
    {
        let c: char = s.get_char(i);
        assert(c == d[i - start]);
        if c < '0' || c > '9' {
            assert(!is_digit(d[i - start]));
            return None;
        }
        let v: usize = (c as u32 - '0' as u32) as usize;
        let ghost longer = d.subrange(0, i - start + 1);
        assert(longer.drop_last() =~= d.subrange(0, i - start));
        assert(longer.last() == c);
        if acc > (usize::MAX - v) / 10 {
            proof {
                if forall|j: int| 0 <= j < d.len() ==> is_digit(#[trigger] d[j]) {
                    lemma_digits_mono(d, i - start + 1);
                    assert(digits_value(longer) > usize::MAX);
                }
            }
            return None;
        }
        acc = acc * 10 + v;
        i = i + 1;
    }
    assert(d.subrange(0, d.len() as int) =~= d);
    Some(acc)
}

/// The least depth from the raw value of its variable: an unset or unparseable value gives
/// [`DEFAULT_FAULT_MIN_TOKENS`].
pub fn parse_fault_min_tokens(raw: Option<String>) -> (r: usize)
    ensures
        r as int == match raw {
            Some(s) => match parsed(s@) {
                Some(n) => n,
                None => DEFAULT_FAULT_MIN_TOKENS as int,
            },
            None => DEFAULT_FAULT_MIN_TOKENS as int,
        },
{
    match raw {
        Some(s) => match parse_usize(s.as_str()) {
            Some(n) => n,
            None => DEFAULT_FAULT_MIN_TOKENS,
        },
        None => DEFAULT_FAULT_MIN_TOKENS,
    }
}

/// Whether a spilled snapshot of `depth` tokens is too shallow to read back. A minimum of 0 never skips.
pub fn should_skip_fault_for_depth(depth: usize, min_depth: usize) -> (r: bool)
    ensures
        r == (depth < min_depth),
{
    depth < min_depth
}

/// What to read back for a match: the spilled snapshot's key and depth.
pub open spec fn fault_in_spec(m: PrefixMatch, has_store: bool, min_depth: usize) -> Option<
    (u64, usize),
> {
    if m.ssm_snapshot is None && has_store && m.ssm_snapshot_tier_key is Some
        && m.ssm_snapshot_tier_tokens >= min_depth {
        Some((m.ssm_snapshot_tier_key->0, m.ssm_snapshot_tier_tokens))
    } else {
        None
    }
}

/// The spilled snapshot to read back for a match, as its key and depth; `None` when a resident
/// snapshot is present, there is no store or no key, or it is too shallow.
pub fn try_fault_in(m: &PrefixMatch, has_store: bool, min_depth: usize) -> (r: Option<(u64, usize)>)
    ensures
        r == fault_in_spec(*m, has_store, min_depth),
{
    if m.ssm_snapshot.is_some() || !has_store {
        return None;
    }
    match m.ssm_snapshot_tier_key {
        None => None,
        Some(key) => if should_skip_fault_for_depth(m.ssm_snapshot_tier_tokens, min_depth) {
            None
        } else {
            Some((key, m.ssm_snapshot_tier_tokens))
        },
    }
}

/// The snapshot a restore uses and its depth.
pub open spec fn eff_snapshot_spec(m: PrefixMatch, faulted: Option<usize>) -> (Option<usize>, usize) {
    (
        if m.ssm_snapshot is Some {
            m.ssm_snapshot
        } else {
            faulted
        },
        if faulted is Some {
            m.ssm_snapshot_tier_tokens
        } else {
            m.ssm_snapshot_tokens
        },
    )
}

/// The snapshot a restore uses and its depth: the resident one, else the one read back, whose
/// depth is the spilled snapshot's.
pub fn eff_ssm_snapshot(m: &PrefixMatch, faulted: Option<usize>) -> (r: (Option<usize>, usize))
    ensures
        r == eff_snapshot_spec(*m, faulted),
{
    let slot: Option<usize> = if m.ssm_snapshot.is_some() {
        m.ssm_snapshot
    } else {
        faulted
    };
    let depth: usize = if faulted.is_some() {
        m.ssm_snapshot_tier_tokens
    } else {
        m.ssm_snapshot_tokens
    };
    (slot, depth)
}

/// A resident snapshot is never replaced: with one, nothing is read back, and the restore uses it
/// at its own depth.
pub proof fn resident_snapshot_is_kept(m: PrefixMatch, has_store: bool, min_depth: usize)
    requires
        m.ssm_snapshot is Some,
    ensures
        fault_in_spec(m, has_store, min_depth) is None,
        eff_snapshot_spec(m, None) == (m.ssm_snapshot, m.ssm_snapshot_tokens),
{
}

/// A spilled snapshot is read back exactly when no resident one is there, a store and its key
/// are, and it is deep enough; what is read is the match's own key and depth.
pub proof fn spilled_snapshots_are_read_when_worth_it(
    m: &PrefixMatch,
    has_store: bool,
    min_depth: usize,
    r: Option<(u64, usize)>,
)
    requires
        call_ensures(try_fault_in, (m, has_store, min_depth), r),
    ensures
        r is Some <==> has_store && m.ssm_snapshot is None && m.ssm_snapshot_tier_key is Some
            && !(m.ssm_snapshot_tier_tokens < min_depth),
        r matches Some((key, depth)) ==> m.ssm_snapshot_tier_key == Some(key) && depth
            == m.ssm_snapshot_tier_tokens,
{
}

/// A restore uses the resident snapshot at its depth, or else the one read back at the spilled
/// depth, or none.
pub proof fn restores_use_the_snapshot_at_hand(
    m: &PrefixMatch,
    faulted: Option<usize>,
    r: (Option<usize>, usize),
)
    requires
        call_ensures(eff_ssm_snapshot, (m, faulted), r),
        m.ssm_snapshot is Some ==> faulted is None,
    ensures
        m.ssm_snapshot is Some ==> r.0 == m.ssm_snapshot && r.1 == m.ssm_snapshot_tokens,
        m.ssm_snapshot is None && faulted is Some ==> r.0 == faulted && r.1
            == m.ssm_snapshot_tier_tokens,
        m.ssm_snapshot is None && faulted is None ==> r.0 is None,
{
}

/// A value is read as a decimal number: one more digit behind a number that still fits multiplies
/// it by ten and adds the digit, a leading plus sign changes nothing, and no other character is
/// read.
pub proof fn numbers_are_read_digit_by_digit(
    s: &str,
    longer: &str,
    c: char,
    r: Option<usize>,
    r2: Option<usize>,
)
    requires
        call_ensures(parse_usize, (s,), r),
        call_ensures(parse_usize, (longer,), r2),
        longer@ == s@.push(c),
        r is Some,
    ensures
        !('0' <= c <= '9') ==> r2 is None,
        '0' <= c <= '9' && r->0 * 10 + (c as int - '0' as int) <= usize::MAX ==> r2 == Some(
            (r->0 * 10 + (c as int - '0' as int)) as usize,
        ),
        '0' <= c <= '9' && r->0 * 10 + (c as int - '0' as int) > usize::MAX ==> r2 is None,
{
    let d = digits_of(s@);
    let d2 = digits_of(longer@);
    assert(s@.len() > 0);
    assert(longer@[0] == s@[0]);
    assert(d2 =~= d.push(c));
    assert(d2.drop_last() =~= d);
    if '0' <= c && c <= '9' {
        assert forall|i: int| 0 <= i < d2.len() implies is_digit(#[trigger] d2[i]) by {
            if i < d.len() {
                assert(is_digit(d[i]));
            }
        }
    } else {
        assert(!is_digit(d2[d.len() as int]));
    }
}

/// An unset value, an empty one and one that is no number give the default depth of 256; a depth
/// below the least is skipped, and a least depth of zero skips none.
pub proof fn unreadable_depths_give_the_default(
    raw: Option<String>,
    r: usize,
    depth: usize,
    skipped: bool,
)
    requires
        call_ensures(parse_fault_min_tokens, (raw,), r),
        call_ensures(should_skip_fault_for_depth, (depth, r), skipped),
    ensures
        raw is None ==> r == 256,
        raw matches Some(s) && s@.len() == 0 ==> r == 256,
        raw is Some && raw->0@.len() == 1 && '0' <= raw->0@[0] <= '9' ==> r == raw->0@[0] as int
            - '0' as int,
        raw matches Some(s) && s@.len() >= 1 && !('0' <= s@[s@.len() - 1] <= '9') ==> r == 256,
        skipped <==> depth < r,
{
    if let Some(s) = raw {
        let d = digits_of(s@);
        if s@.len() == 1 && '0' <= s@[0] && s@[0] <= '9' {
            assert(d =~= s@);
            assert(d.drop_last() =~= Seq::empty());
            assert(digits_value(d) == digits_value(d.drop_last()) * 10 + digit_value(d.last()));
            assert(digits_value(Seq::<char>::empty()) == 0);
            assert forall|i: int| 0 <= i < d.len() implies is_digit(#[trigger] d[i]) by {}
        }
        if s@.len() >= 1 && !('0' <= s@[s@.len() - 1] && s@[s@.len() - 1] <= '9') {
            if d.len() > 0 {
                assert(d[d.len() - 1] == s@[s@.len() - 1]);
                assert(!is_digit(d[d.len() - 1]));
            }
        }
    }
}

/// A number starts with a digit, or with a plus sign and a digit; nothing, and a sign alone, are
/// no numbers. What is no number does not become one by a further character.
pub proof fn numbers_start_with_a_digit(
    s: &str,
    longer: &str,
    c: char,
    r: Option<usize>,
    r2: Option<usize>,
)
    requires
        call_ensures(parse_usize, (s,), r),
        call_ensures(parse_usize, (longer,), r2),
        longer@ == s@.push(c),
    ensures
        s@.len() == 0 ==> r is None,
        s@.len() == 0 || (s@.len() == 1 && s@[0] == '+') ==> {
            &&& r is None
            &&& '0' <= c <= '9' ==> r2 == Some((c as int - '0' as int) as usize)
            &&& !('0' <= c <= '9') ==> r2 is None
        },
        r is None && s@.len() > 0 && !(s@.len() == 1 && s@[0] == '+') ==> r2 is None,
{
    let d = digits_of(s@);
    let d2 = digits_of(longer@);
    if s@.len() == 0 && c == '+' {
        assert(longer@[0] == '+');
    } else {
        if s@.len() > 0 {
            assert(longer@[0] == s@[0]);
        }
        assert(d2 =~= d.push(c));
        assert(d2.drop_last() =~= d);
        assert(d2.last() == c);
        if d.len() == 0 {
            assert(digits_value(d) == 0);
            if '0' <= c && c <= '9' {
                assert forall|i: int| 0 <= i < d2.len() implies is_digit(#[trigger] d2[i]) by {}
                assert(digits_value(d2) == digits_value(d) * 10 + digit_value(c));
            } else {
                assert(!is_digit(d2[0]));
            }
        } else if r is None && r2 is Some {
            assert forall|i: int| 0 <= i < d.len() implies is_digit(#[trigger] d[i]) by {
                assert(is_digit(d2[i]));
            }
            assert(is_digit(d2[d.len() as int]));
            lemma_digits_mono(d2, d.len() as int);
            assert(d2.subrange(0, d.len() as int) =~= d);
        }
    }
}

} // verus!
