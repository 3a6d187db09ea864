//! Reading a spilled snapshot back in.

use metrale_model_engine::ssm_fault_in::{
    parse_fault_min_tokens, should_skip_fault_for_depth, DEFAULT_FAULT_MIN_TOKENS,
};

#[test]
fn min_tokens_defaults_when_unset_or_garbage() {
    assert_eq!(parse_fault_min_tokens(None), DEFAULT_FAULT_MIN_TOKENS);
    assert_eq!(
        parse_fault_min_tokens(Some("not-a-number".into())),
        DEFAULT_FAULT_MIN_TOKENS
    );
    assert_eq!(
        parse_fault_min_tokens(Some("".into())),
        DEFAULT_FAULT_MIN_TOKENS
    );
}

#[test]
fn min_tokens_parses_explicit_values() {
    assert_eq!(parse_fault_min_tokens(Some("0".into())), 0);
    assert_eq!(parse_fault_min_tokens(Some("1024".into())), 1024);
}

#[test]
fn gate_skips_shallow_faults_only() {
    let min = DEFAULT_FAULT_MIN_TOKENS;
    assert!(should_skip_fault_for_depth(0, min));
    assert!(should_skip_fault_for_depth(min - 1, min));
    assert!(!should_skip_fault_for_depth(min, min));
    assert!(!should_skip_fault_for_depth(min + 1, min));
    assert!(!should_skip_fault_for_depth(15_000, min));
}

#[test]
fn gate_disabled_never_skips() {
    assert!(!should_skip_fault_for_depth(0, 0));
    assert!(!should_skip_fault_for_depth(1, 0));
}
