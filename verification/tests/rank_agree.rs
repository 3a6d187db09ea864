//! The startup comparison of settings across ranks.

use metrale_model_engine::rank_agree::mismatches;

#[test]
fn agreement_is_silent() {
    let items = [("METRALE_GLM_PREFILL_ROWS", 8u64), ("ep_protocol_v2", 0)];
    assert!(mismatches(&items, &[8, 0], 1).is_empty());
}

#[test]
fn a_single_disagreement_names_the_lever_and_both_values() {
    let items = [("METRALE_GLM_PREFILL_ROWS", 4u64), ("ep_protocol_v2", 0)];
    let bad = mismatches(&items, &[8, 0], 1);
    assert_eq!(
        bad,
        vec!["METRALE_GLM_PREFILL_ROWS: rank 1 has 4, rank 0 has 8"]
    );
}

#[test]
fn every_disagreement_is_reported_not_just_the_first() {
    let items = [("METRALE_GLM_PREFILL_ROWS", 4u64), ("ep_protocol_v2", 1)];
    assert_eq!(mismatches(&items, &[8, 0], 1).len(), 2);
}
