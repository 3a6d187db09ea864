//! Whether the prompt-end snapshot gets a slot.

use metrale_model_engine::exact_leaf::{exact_leaf, ExactLeaf};

#[test]
fn the_leaf_is_redundant_exactly_when_the_tail_split_fired_for_this_prompt() {
    // 657 tokens, bs 16: tail cut at 640, replay 17.
    assert_eq!(
        exact_leaf(Some(640), 657, 16, false),
        ExactLeaf::Redundant {
            tail: 640,
            replay: 17
        }
    );
    // Block-aligned prompt: cut at total - 2bs, replay 32, still inside.
    assert_eq!(
        exact_leaf(Some(608), 640, 16, false),
        ExactLeaf::Redundant {
            tail: 608,
            replay: 32
        }
    );
    // Negative controls: no checkpoint; one far below the prompt end;
    // one at the end.
    assert_eq!(exact_leaf(None, 657, 16, false), ExactLeaf::Save);
    assert_eq!(exact_leaf(Some(256), 657, 16, false), ExactLeaf::Save);
    assert_eq!(exact_leaf(Some(657), 657, 16, false), ExactLeaf::Save);
    // With the shortcut enabled the leaf is always saved.
    assert_eq!(
        exact_leaf(Some(640), 657, 16, true),
        ExactLeaf::SaveForShortcut
    );
}
