use wat::display_scopes::{is_balanced, ScopeEffect};

#[test]
fn unbalanced_lists_are_detected() {
    let list = vec![ScopeEffect::PushClip];
    assert!(!is_balanced(&list));

    let list = vec![ScopeEffect::PopClip];
    assert!(!is_balanced(&list));
}

#[test]
fn nested_scopes_balance() {
    assert!(is_balanced(&vec![]));
    assert!(is_balanced(&vec![
        ScopeEffect::PushClip,
        ScopeEffect::PushOpacity,
        ScopeEffect::Draw,
        ScopeEffect::PopOpacity,
        ScopeEffect::Draw,
        ScopeEffect::PopClip,
    ]));
    // Interleaving is allowed: clip and opacity scopes are counted apart.
    assert!(is_balanced(&vec![
        ScopeEffect::PushClip,
        ScopeEffect::PushOpacity,
        ScopeEffect::PopClip,
        ScopeEffect::PopOpacity,
    ]));
}

#[test]
fn closing_before_opening_is_unbalanced_even_if_counts_match() {
    assert!(!is_balanced(&vec![ScopeEffect::PopOpacity, ScopeEffect::PushOpacity]));
    assert!(!is_balanced(&vec![ScopeEffect::PushOpacity, ScopeEffect::PopOpacity, ScopeEffect::PopOpacity]));
}

#[test]
fn clip_scopes_balance() {
    let list = vec![ScopeEffect::PushClip, ScopeEffect::Draw, ScopeEffect::PopClip];
    assert_eq!(list.len(), 3);
    assert!(is_balanced(&list));
}
