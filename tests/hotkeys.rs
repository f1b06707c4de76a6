use sonicdeck::hotkeys::{normalize_hotkey_string, stored_key_name};

#[test]
fn modifiers_get_their_names() {
    assert_eq!(normalize_hotkey_string("control+shift+a"), "Ctrl+Shift+A");
    assert_eq!(normalize_hotkey_string("Alt+Meta+x"), "Alt+Super+X");
}

#[test]
fn pieces_are_trimmed() {
    assert_eq!(normalize_hotkey_string(" alt + numpad5 "), "Alt+NumPad5");
}

#[test]
fn numpad_keys_get_their_names() {
    assert_eq!(normalize_hotkey_string("NUMPADENTER"), "NumPadEnter");
    assert_eq!(normalize_hotkey_string("ctrl+numpaddivide"), "Ctrl+NumPadDivide");
}

#[test]
fn other_keys_are_capitalized_lowercase() {
    assert_eq!(normalize_hotkey_string("CONTROL+F12"), "Ctrl+F12");
    assert_eq!(normalize_hotkey_string("shift+SPACE"), "Shift+Space");
    assert_eq!(normalize_hotkey_string("\u{df}x"), "SSx");
}

#[test]
fn empty_pieces_are_kept() {
    assert_eq!(normalize_hotkey_string(""), "");
    assert_eq!(normalize_hotkey_string("a++b"), "A++B");
    assert_eq!(normalize_hotkey_string("+"), "+");
}

#[test]
fn all_unicode_white_space_is_trimmed() {
    assert_eq!(normalize_hotkey_string("\tctrl\n+\u{3000}shift "), "Ctrl+Shift");
    assert_eq!(normalize_hotkey_string("   "), "");
    assert_eq!(normalize_hotkey_string("page up"), "Page up");
}

#[test]
fn key_names_of_lowercase_keys() {
    assert_eq!(stored_key_name("control"), "Ctrl");
    assert_eq!(stored_key_name("numpadmultiply"), "NumPadMultiply");
    assert_eq!(stored_key_name("f5"), "F5");
    assert_eq!(stored_key_name(""), "");
}

#[test]
fn white_space_is_what_std_calls_white_space() {
    for c in ['\u{85}', '\u{a0}', '\u{1680}', '\u{2007}', '\u{2028}', '\u{202f}', '\u{205f}', '\u{3000}'] {
        assert!(c.is_whitespace());
        assert_eq!(normalize_hotkey_string(&format!("{}alt{}", c, c)), "Alt");
    }
    assert!(!'\u{200b}'.is_whitespace());
    assert_eq!(normalize_hotkey_string("\u{200b}a"), "\u{200b}a");
}
