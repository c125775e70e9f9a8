use collector::keys::{dialog_key, detail_key, word_binding, EditorBinding, EditorKey, WordMotion};

#[test]
fn word_keys_need_the_word_modifier() {
    assert_eq!(word_binding(EditorKey::Backspace, false, false), None);
    assert_eq!(word_binding(EditorKey::Backspace, true, false), Some(EditorBinding::DeleteWordLeft));
    assert_eq!(word_binding(EditorKey::Delete, true, true), Some(EditorBinding::DeleteWordRight));
    assert_eq!(
        word_binding(EditorKey::ArrowLeft, true, false),
        Some(EditorBinding::Move(WordMotion::WordLeft))
    );
    assert_eq!(
        word_binding(EditorKey::ArrowLeft, true, true),
        Some(EditorBinding::Select(WordMotion::WordLeft))
    );
    assert_eq!(
        word_binding(EditorKey::ArrowRight, true, true),
        Some(EditorBinding::Select(WordMotion::WordRight))
    );
    assert_eq!(word_binding(EditorKey::Tab, true, false), None);
    assert_eq!(word_binding(EditorKey::Other, true, false), None);
}

#[test]
fn tab_steps_between_detail_editors_only() {
    assert_eq!(detail_key(4, EditorKey::Tab, false, false), EditorBinding::FocusField { from: 4, forward: true });
    assert_eq!(detail_key(4, EditorKey::Tab, false, true), EditorBinding::FocusField { from: 4, forward: false });
    assert_eq!(detail_key(4, EditorKey::Other, false, false), EditorBinding::Standard);
    assert_eq!(detail_key(2, EditorKey::ArrowRight, true, false), EditorBinding::Move(WordMotion::WordRight));
    assert_eq!(dialog_key(EditorKey::Tab, false, false), EditorBinding::Standard);
    assert_eq!(dialog_key(EditorKey::Backspace, true, false), EditorBinding::DeleteWordLeft);
}
