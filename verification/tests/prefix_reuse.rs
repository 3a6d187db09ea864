//! Prompt tokens reported as served from the prefix cache.

use metrale_model_engine::prefix_reuse::reused_prefix_tokens;

/// A match the SSM arm discards (`kv_write_start = 0`) reports 0.
#[test]
fn a_discarded_match_reports_zero_not_the_lookup_length() {
    assert_eq!(reused_prefix_tokens(48, 0, false), 0);
}

/// The exact-leaf bypass matches the whole prompt and recomputes it all.
#[test]
fn the_exact_leaf_bypass_reports_zero() {
    assert_eq!(reused_prefix_tokens(4593, 0, false), 0);
}

#[test]
fn a_real_skip_reports_the_reused_prefix() {
    assert_eq!(reused_prefix_tokens(48, 48, true), 48);
}

#[test]
fn an_intermediate_snapshot_reports_only_what_it_skipped() {
    assert_eq!(reused_prefix_tokens(512, 256, true), 256);
}

#[test]
fn the_report_never_exceeds_the_matched_prefix() {
    assert_eq!(reused_prefix_tokens(256, 512, true), 256);
}

#[test]
fn no_match_reports_zero() {
    assert_eq!(reused_prefix_tokens(0, 0, false), 0);
}
