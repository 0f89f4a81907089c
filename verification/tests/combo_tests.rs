use windows_shortcuts::combo::{parse_combo, Combo, Key};

fn combo(s: &str) -> Option<Combo> {
    parse_combo(s.as_bytes())
}

#[test]
fn plain_letter_key() {
    let c = combo("A").unwrap();
    assert_eq!(c.key, Key::Letter(b'A'));
    assert!(!c.ctrl && !c.shift && !c.alt && !c.meta);
}

#[test]
fn ctrl_shift_letter() {
    let c = combo("Ctrl+Shift+A").unwrap();
    assert!(c.ctrl);
    assert!(c.shift);
    assert!(!c.alt);
    assert!(!c.meta);
    assert_eq!(c.key, Key::Letter(b'A'));
}

#[test]
fn all_modifier_spellings() {
    let c = combo("Ctrl+Shift+Alt+Win+Z").unwrap();
    assert!(c.ctrl && c.shift && c.alt && c.meta);
    assert_eq!(c.key, Key::Letter(b'Z'));
    let d = combo("Super+5").unwrap();
    assert!(d.meta && !d.ctrl && !d.shift && !d.alt);
    assert_eq!(d.key, Key::Digit(b'5'));
}

#[test]
fn repeated_modifier_is_allowed() {
    let c = combo("Ctrl+Ctrl+B").unwrap();
    assert!(c.ctrl);
    assert_eq!(c.key, Key::Letter(b'B'));
}

#[test]
fn digit_and_function_keys() {
    assert_eq!(combo("0").unwrap().key, Key::Digit(b'0'));
    assert_eq!(combo("9").unwrap().key, Key::Digit(b'9'));
    assert_eq!(combo("F1").unwrap().key, Key::Function(1));
    assert_eq!(combo("F9").unwrap().key, Key::Function(9));
    assert_eq!(combo("F10").unwrap().key, Key::Function(10));
    assert_eq!(combo("F12").unwrap().key, Key::Function(12));
}

#[test]
fn strings_outside_the_grammar() {
    assert_eq!(combo("NotAKey"), None);
    assert_eq!(combo(""), None);
    assert_eq!(combo("Ctrl+"), None);
    assert_eq!(combo("+A"), None);
    assert_eq!(combo("ctrl+A"), None); // modifiers are spelled capitalized
    assert_eq!(combo("Ctrl+a"), None); // keys are the capital letters
    assert_eq!(combo("F0"), None);
    assert_eq!(combo("F13"), None);
    assert_eq!(combo("A+Ctrl"), None); // the key ends the combination
    assert_eq!(combo("Ctrl Shift A"), None);
    assert_eq!(combo("AB"), None);
}

#[test]
fn key_alone_after_many_modifiers() {
    let c = combo("Win+Alt+F11").unwrap();
    assert!(c.meta && c.alt && !c.ctrl && !c.shift);
    assert_eq!(c.key, Key::Function(11));
}
