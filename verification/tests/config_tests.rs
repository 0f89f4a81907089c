use windows_shortcuts::config::{
    config_path_for, default_config_text, parse_config, seed_document, ConfigError, Configuration,
};

fn parse(doc: &str) -> Result<Configuration, ConfigError> {
    parse_config(doc.as_bytes())
}

fn entries(c: &Configuration) -> Vec<(Vec<u8>, Vec<u8>)> {
    c.hotkeys.iter().map(|h| (h.combo.clone(), h.target.clone())).collect()
}

#[test]
fn default_document_round_trips_to_two_entries() {
    // The default-seeded file, immediately re-loaded, parses into exactly
    // the two documented example shortcuts and targets.
    let doc = default_config_text();
    let cfg = parse_config(&doc).unwrap();
    let es = entries(&cfg);
    assert_eq!(es.len(), 2);
    assert_eq!(es[0].0, b"Ctrl+Shift+A".to_vec());
    assert_eq!(es[0].1, b"C:/Windows/System32/notepad.exe".to_vec());
    assert_eq!(es[1].0, b"Ctrl+Shift+B".to_vec());
    assert_eq!(es[1].1, b"https://www.google.com".to_vec());
}

#[test]
fn seeding_happens_once_and_reloads_identically() {
    // First load on a missing file: the default document is written.
    let seeded = seed_document(false).unwrap();
    let first = parse_config(&seeded).unwrap();
    // Second load: the file exists now, nothing is written over it, and
    // parsing the same content yields identical configuration content.
    assert!(seed_document(true).is_none());
    let second = parse_config(&seeded).unwrap();
    assert_eq!(entries(&first), entries(&second));
    assert_eq!(entries(&first).len(), 2);
}

#[test]
fn single_entry_document() {
    let cfg = parse("[[hotkeys]]\nshortcut = \"Ctrl+A\"\npath = \"x.exe\"\n").unwrap();
    let es = entries(&cfg);
    assert_eq!(es, vec![(b"Ctrl+A".to_vec(), b"x.exe".to_vec())]);
}

#[test]
fn fields_in_either_order_and_unknown_keys_ignored() {
    let cfg = parse(
        "[[hotkeys]]\npath = \"x\"\nshortcut = \"A\"\ncomment_field = \"ignored\"\n",
    )
    .unwrap();
    assert_eq!(entries(&cfg), vec![(b"A".to_vec(), b"x".to_vec())]);
}

#[test]
fn comments_blank_lines_and_crlf_are_tolerated() {
    let doc = "# leading comment\r\n\r\n[[hotkeys]]\r\nshortcut = \"B\"\r\npath = \"y\"\r\n";
    let cfg = parse(doc).unwrap();
    assert_eq!(entries(&cfg), vec![(b"B".to_vec(), b"y".to_vec())]);
}

#[test]
fn escaped_backslashes_and_quotes_in_values() {
    let cfg = parse(
        "[[hotkeys]]\nshortcut = \"A\"\npath = \"C:\\\\Users\\\\me \\\"home\\\"\"\n",
    )
    .unwrap();
    assert_eq!(cfg.hotkeys[0].target, b"C:\\Users\\me \"home\"".to_vec());
}

#[test]
fn empty_document_is_an_error() {
    // The required top-level array field is missing.
    assert_eq!(parse("").unwrap_err(), ConfigError::ParseError);
    assert_eq!(parse("# only a comment\n").unwrap_err(), ConfigError::ParseError);
}

#[test]
fn missing_required_field_is_an_error() {
    assert_eq!(parse("[[hotkeys]]\nshortcut = \"A\"\n").unwrap_err(), ConfigError::ParseError);
    assert_eq!(parse("[[hotkeys]]\npath = \"x\"\n").unwrap_err(), ConfigError::ParseError);
    assert_eq!(parse("[[hotkeys]]\n").unwrap_err(), ConfigError::ParseError);
}

#[test]
fn repeated_field_is_an_error() {
    let doc = "[[hotkeys]]\nshortcut = \"A\"\nshortcut = \"B\"\npath = \"x\"\n";
    assert_eq!(parse(doc).unwrap_err(), ConfigError::ParseError);
}

#[test]
fn key_before_any_header_is_an_error() {
    assert_eq!(parse("shortcut = \"A\"\n").unwrap_err(), ConfigError::ParseError);
}

#[test]
fn malformed_lines_are_an_error() {
    assert_eq!(parse("[[hotkeys]]\nshortcut = unquoted\n").unwrap_err(), ConfigError::ParseError);
    assert_eq!(
        parse("[[hotkeys]]\nshortcut = \"unterminated\n").unwrap_err(),
        ConfigError::ParseError
    );
    assert_eq!(parse("[[wrong_table]]\n").unwrap_err(), ConfigError::ParseError);
    assert_eq!(
        parse("[[hotkeys]]\nshortcut = \"bad \\escape\"\npath = \"x\"\n").unwrap_err(),
        ConfigError::ParseError
    );
    assert_eq!(
        parse("[[hotkeys]]\nshortcut = \"A\" trailing\npath = \"x\"\n").unwrap_err(),
        ConfigError::ParseError
    );
}

#[test]
fn an_unparseable_combo_is_not_a_load_failure() {
    // The combination grammar is the registry's business: the load keeps
    // the entry, and registration skips it later.
    let cfg = parse("[[hotkeys]]\nshortcut = \"NotAKey\"\npath = \"x\"\n").unwrap();
    assert_eq!(entries(&cfg), vec![(b"NotAKey".to_vec(), b"x".to_vec())]);
}

#[test]
fn two_entries_keep_their_order() {
    let doc = "[[hotkeys]]\nshortcut = \"A\"\npath = \"first\"\n\n[[hotkeys]]\nshortcut = \"B\"\npath = \"second\"\n";
    let cfg = parse(doc).unwrap();
    let es = entries(&cfg);
    assert_eq!(es[0].1, b"first".to_vec());
    assert_eq!(es[1].1, b"second".to_vec());
}

#[test]
fn config_path_is_below_the_given_base() {
    let p = config_path_for(b"/home/me/.config");
    assert_eq!(p, b"/home/me/.config/WindowsShortcuts/config.toml".to_vec());
}
