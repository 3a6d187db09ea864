//! Limits and switches of the batched verify.

use vstd::prelude::*;
use vstd::string::*;

verus! {

/// Most batched-verify graphs kept at once.
pub const VERIFY_BATCHED_GRAPH_CAP: usize = 32;

/// Most rows one batched verify may run.
pub const VERIFY_ROW_CAP: usize = 160;

/// Whether the raw value of a value switch arms it: it is the one character `1`.
pub open spec fn switch_armed(raw: Option<&str>) -> bool {
    raw matches Some(s) && s@ == seq!['1']
}

/// A value switch is armed by the exact value `1` and nothing else; `0`, `true`, an empty value
/// and absence leave it off.
pub fn value_switch_armed(raw: Option<&str>) -> (r: bool)
    ensures
        r == switch_armed(raw),
{
    match raw {
        Some(s) => {
            if s.unicode_len() == 1 && s.get_char(0) == '1' {
                assert(s@ =~= seq!['1']);
                true
            } else {
                false
            }
        },
        None => false,
    }
}

/// Whether the raw value of a switch turns its feature off: it is the one character `0`.
pub open spec fn switched_off(raw: Option<&str>) -> bool {
    raw matches Some(s) && s@ == seq!['0']
}

/// A feature that is on unless its switch has the exact value `0`; `1`, `false`, an empty value
/// and absence leave it on.
pub fn on_unless_zero(raw: Option<&str>) -> (r: bool)
    ensures
        r == !switched_off(raw),
{
    match raw {
        Some(s) => {
            if s.unicode_len() == 1 && s.get_char(0) == '0' {
                assert(s@ =~= seq!['0']);
                false
            } else {
                true
            }
        },
        None => true,
    }
}

/// Whether the three-row verify is captured with a communicator, from the raw value of the
/// switch.
pub fn ep_verify_graphs_on(raw: Option<&str>) -> (r: bool)
    ensures
        r == !switched_off(raw),
{
    on_unless_zero(raw)
}

/// Whether every verify row's hidden state is captured, from the raw values of its two switches;
/// either one turns it off, and only the last row is captured then.
pub fn capture_all_on(eagle_fix: Option<&str>, unified_ctx: Option<&str>) -> (r: bool)
    ensures
        r == (!switched_off(eagle_fix) && !switched_off(unified_ctx)),
{
    on_unless_zero(eagle_fix) && on_unless_zero(unified_ctx)
}

/// Whether every layer of the batched verify is followed by a wait, from the raw value of the
/// diagnostic switch.
pub fn k4_diag_enabled(raw: Option<&str>) -> (r: bool)
    ensures
        r == switch_armed(raw),
{
    value_switch_armed(raw)
}

/// Whether the argmax is read back on the default stream, from the raw value of the switch.
pub fn verify_d2h_default_stream(raw: Option<&str>) -> (r: bool)
    ensures
        r == switch_armed(raw),
{
    value_switch_armed(raw)
}

/// Whether the argmax is read back into ordinary memory, from the raw value of the switch.
pub fn verify_d2h_no_pinned(raw: Option<&str>) -> (r: bool)
    ensures
        r == switch_armed(raw),
{
    value_switch_armed(raw)
}

/// Whether the batched verify uses graphs: its off switch is absent, whatever its value would
/// be, and the diagnostic waits are off, since a wait cannot be captured.
pub fn verify_graphs_on(off_switch_present: bool, k4_diag: bool) -> (r: bool)
    ensures
        r == (!off_switch_present && !k4_diag),
{
    !off_switch_present && !k4_diag
}

/// A value switch is armed by the one character `1`, and a feature that is on by default is turned
/// off by the one character `0`; no other value, and no absence, does either.
pub proof fn switches_go_by_one_character(raw: Option<&str>, armed: bool, on: bool)
    requires
        call_ensures(value_switch_armed, (raw,), armed),
        call_ensures(on_unless_zero, (raw,), on),
    ensures
        armed <==> (raw matches Some(s) && s@.len() == 1 && s@[0] == '1'),
        !on <==> (raw matches Some(s) && s@.len() == 1 && s@[0] == '0'),
        armed ==> on,
{
    if let Some(s) = raw {
        if s@.len() == 1 && s@[0] == '1' {
            assert(s@ =~= seq!['1']);
        }
        if s@.len() == 1 && s@[0] == '0' {
            assert(s@ =~= seq!['0']);
        }
        assert(seq!['1'][0] == '1' && seq!['0'][0] == '0');
        assert(seq!['1'].len() == 1 && seq!['0'].len() == 1);
    }
}

/// Every switch of the verify goes by its own value: the diagnostic waits, the two readback
/// switches and the capture with a communicator alike; all rows are captured unless one of two
/// switches is off; and the batched verify uses graphs exactly without its off switch and without
/// the waits.
pub proof fn verify_switches_go_by_their_values(
    a: Option<&str>,
    b: Option<&str>,
    diag: bool,
    default_stream: bool,
    no_pinned: bool,
    ep: bool,
    all: bool,
    armed: bool,
    on_a: bool,
    on_b: bool,
    off_present: bool,
    graphs: bool,
)
    requires
        call_ensures(value_switch_armed, (a,), armed),
        call_ensures(on_unless_zero, (a,), on_a),
        call_ensures(on_unless_zero, (b,), on_b),
        call_ensures(k4_diag_enabled, (a,), diag),
        call_ensures(verify_d2h_default_stream, (a,), default_stream),
        call_ensures(verify_d2h_no_pinned, (a,), no_pinned),
        call_ensures(ep_verify_graphs_on, (a,), ep),
        call_ensures(capture_all_on, (a, b), all),
        call_ensures(verify_graphs_on, (off_present, diag), graphs),
    ensures
        diag == armed,
        default_stream == armed,
        no_pinned == armed,
        ep == on_a,
        all <==> on_a && on_b,
        graphs <==> !off_present && !diag,
{
}

} // verus!
