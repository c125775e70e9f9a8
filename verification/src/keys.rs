//! Keyboard handling of the text editors: word-wise moves and deletes, and
//! Tab stepping between the detail editors.
use vstd::prelude::*;

verus! {

/// The keys the editors treat specially; every other key is `Other`.
#[derive(Debug, Clone, Copy, PartialEq, Eq, Structural)]
pub enum EditorKey {
    Backspace,
    Delete,
    ArrowLeft,
    ArrowRight,
    Tab,
    Other,
}

/// A cursor motion by one word.
#[derive(Debug, Clone, Copy, PartialEq, Eq, Structural)]
pub enum WordMotion {
    WordLeft,
    WordRight,
}

/// What an editor does with a key press.
#[derive(Debug, Clone, Copy, PartialEq, Eq, Structural)]
pub enum EditorBinding {
    /// Select the word to the left, then delete the selection.
    DeleteWordLeft,
    /// Select the word to the right, then delete the selection.
    DeleteWordRight,
    /// Move the cursor by a word.
    Move(WordMotion),
    /// Extend the selection by a word.
    Select(WordMotion),
    /// Focus the detail editor after (or before) the one at position `from`.
    FocusField { from: usize, forward: bool },
    /// The editor's own handling of the key.
    Standard,
}

/// The word-wise binding of a key pressed with the word modifier (`jump`:
/// Ctrl, or Option on macOS) and possibly Shift; none without the modifier
/// or for a key without a word-wise meaning.
pub open spec fn word_binding_of(key: EditorKey, jump: bool, shift: bool) -> Option<EditorBinding> {
    if !jump {
        None
    } else {
        match key {
            EditorKey::Backspace => Some(EditorBinding::DeleteWordLeft),
            EditorKey::Delete => Some(EditorBinding::DeleteWordRight),
            EditorKey::ArrowLeft => Some(
                if shift {
                    EditorBinding::Select(WordMotion::WordLeft)
                } else {
                    EditorBinding::Move(WordMotion::WordLeft)
                },
            ),
            EditorKey::ArrowRight => Some(
                if shift {
                    EditorBinding::Select(WordMotion::WordRight)
                } else {
                    EditorBinding::Move(WordMotion::WordRight)
                },
            ),
            _ => None,
        }
    }
}

/// The word-wise binding shared by all editors (see `word_binding_of`).
pub fn word_binding(key: EditorKey, jump: bool, shift: bool) -> (r: Option<EditorBinding>)
    ensures
        r == word_binding_of(key, jump, shift),
{
    if !jump {
        return None;
    }
    match key {
        EditorKey::Backspace => Some(EditorBinding::DeleteWordLeft),
        EditorKey::Delete => Some(EditorBinding::DeleteWordRight),
        EditorKey::ArrowLeft => Some(
            if shift {
                EditorBinding::Select(WordMotion::WordLeft)
            } else {
                EditorBinding::Move(WordMotion::WordLeft)
            },
        ),
        EditorKey::ArrowRight => Some(
            if shift {
                EditorBinding::Select(WordMotion::WordRight)
            } else {
                EditorBinding::Move(WordMotion::WordRight)
            },
        ),
        _ => None,
    }
}

/// The binding of a key in the detail editor at tab position `idx`: the
/// word-wise binding first; else Tab moves to the next editor and Shift+Tab
/// to the previous one; else the editor's own handling.
pub fn detail_key(idx: usize, key: EditorKey, jump: bool, shift: bool) -> (r: EditorBinding)
    ensures
        r == match word_binding_of(key, jump, shift) {
            Some(b) => b,
            None => if key == EditorKey::Tab {
                EditorBinding::FocusField { from: idx, forward: !shift }
            } else {
                EditorBinding::Standard
            },
        },
{
    match word_binding(key, jump, shift) {
        Some(b) => b,
        None => match key {
            EditorKey::Tab => EditorBinding::FocusField { from: idx, forward: !shift },
            _ => EditorBinding::Standard,
        },
    }
}

/// The binding of a key in a dialog's editor: the word-wise binding, else
/// the editor's own handling (Tab included, so focus stays in the dialog).
pub fn dialog_key(key: EditorKey, jump: bool, shift: bool) -> (r: EditorBinding)
    ensures
        r == match word_binding_of(key, jump, shift) {
            Some(b) => b,
            None => EditorBinding::Standard,
        },
{
    match word_binding(key, jump, shift) {
        Some(b) => b,
        None => EditorBinding::Standard,
    }
}

} // verus!
