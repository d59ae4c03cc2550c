use keygrab::keyseq::{keysym_names, KeySequence, KeysymTable, ParseError};
use keygrab::modmask::{MASK_CONTROL, MASK_MOD4, MASK_SHIFT};

// Keysym values as the X protocol defines them: keysyms of printable
// Latin-1 characters equal their code points.
const KEY_D: u32 = 0x64;
const KEY_S: u32 = 0x73;
const KEY_X: u32 = 0x78;
const KEY_Z: u32 = 0x7a;
const KEY_RETURN: u32 = 0xff0d;

/// A table holding what the XKB keysym-name lookup answers for the names
/// these tests use: letters resolve to their keysym, "?" is not a keysym
/// name and resolves to nothing.
fn table() -> KeysymTable {
    let mut t = KeysymTable::new();
    t.add("d".to_string(), KEY_D);
    t.add("s".to_string(), KEY_S);
    t.add("x".to_string(), KEY_X);
    t.add("z".to_string(), KEY_Z);
    t.add("Return".to_string(), KEY_RETURN);
    t.add("?".to_string(), 0);
    t
}

#[test]
fn try_from_key_sequence() {
    let t = table();

    assert_eq!(
        KeySequence::try_from("C-x", &t).unwrap(),
        KeySequence {
            keysym: KEY_X,
            modifiers: MASK_CONTROL,
        }
    );

    assert_eq!(
        KeySequence::try_from("C-S-s", &t).unwrap(),
        KeySequence {
            keysym: KEY_S,
            modifiers: MASK_SHIFT | MASK_CONTROL,
        }
    );

    // Invalid modifier
    assert!(KeySequence::try_from("X-z", &t).is_err());

    // Unknown keysym
    assert!(KeySequence::try_from("C-?", &t).is_err());
}

#[test]
fn keysym_names_lists_the_non_modifier_tokens() {
    assert_eq!(keysym_names("C-x"), vec!["x".to_string()]);
    assert_eq!(keysym_names("M-C-S-d"), vec!["d".to_string()]);
    assert_eq!(keysym_names("x-s"), vec!["x".to_string(), "s".to_string()]);
    assert_eq!(keysym_names("C-S"), Vec::<String>::new());
    assert_eq!(keysym_names(""), vec!["".to_string()]);
}

#[test]
fn modifier_token_order_is_irrelevant() {
    let t = table();
    assert_eq!(
        KeySequence::try_from("S-C-x", &t).unwrap(),
        KeySequence::try_from("C-S-x", &t).unwrap()
    );
    assert_eq!(
        KeySequence::try_from("M-C-S-d", &t).unwrap(),
        KeySequence::try_from("S-M-C-d", &t).unwrap()
    );
}

#[test]
fn duplicate_modifiers_accumulate_harmlessly() {
    let t = table();
    assert_eq!(
        KeySequence::try_from("C-C-x", &t).unwrap(),
        KeySequence::try_from("C-x", &t).unwrap()
    );
}

#[test]
fn super_binding_parses_to_mod4() {
    let t = table();
    let ks = KeySequence::try_from("M-d", &t).unwrap();
    assert_eq!(ks.keysym(), KEY_D);
    assert_eq!(ks.modifiers(), MASK_MOD4);
}

#[test]
fn plain_keysym_has_no_modifiers() {
    let t = table();
    let ks = KeySequence::try_from("Return", &t).unwrap();
    assert_eq!(ks.keysym(), KEY_RETURN);
    assert_eq!(ks.modifiers(), 0);
}

#[test]
fn unknown_modifier_letter_is_reported() {
    let t = table();
    let err = KeySequence::try_from("X-z", &t).unwrap_err();
    assert!(matches!(err, ParseError::UnknownModifier('X')));
}

#[test]
fn unresolved_keysym_names_the_token() {
    let t = table();
    let err = KeySequence::try_from("C-?", &t).unwrap_err();
    match err {
        ParseError::UnresolvedKeysym(tok) => assert_eq!(tok, "?"),
        other => panic!("expected an unresolved keysym error, got {:?}", other),
    }
}

#[test]
fn name_absent_from_the_table_is_unresolved() {
    let t = table();
    let err = KeySequence::try_from("C-slash", &t).unwrap_err();
    match err {
        ParseError::UnresolvedKeysym(tok) => assert_eq!(tok, "slash"),
        other => panic!("expected an unresolved keysym error, got {:?}", other),
    }
}

#[test]
fn missing_keysym_is_an_error() {
    let t = table();
    let err = KeySequence::try_from("C-S", &t).unwrap_err();
    assert!(matches!(err, ParseError::MissingKeysym));
}

#[test]
fn empty_description_is_unresolved() {
    let t = table();
    assert!(KeySequence::try_from("", &t).is_err());
}

#[test]
fn later_keysym_token_wins() {
    let t = table();
    let ks = KeySequence::try_from("x-s", &t).unwrap();
    assert_eq!(ks.keysym(), KEY_S);
}

#[test]
fn first_table_entry_wins_on_duplicate_names() {
    let mut t = KeysymTable::new();
    t.add("x".to_string(), KEY_X);
    t.add("x".to_string(), KEY_Z);
    let ks = KeySequence::try_from("x", &t).unwrap();
    assert_eq!(ks.keysym(), KEY_X);
}
