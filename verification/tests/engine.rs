use keygrab::config::Config;
use keygrab::events::{route_xkb_event, XkbAction, XkbEvent};
use keygrab::grab::{grab_all, ungrab_all, GrabRequest, ANY_KEY};
use keygrab::keybind::{Command, Keybind};
use keygrab::keyboard::{Keyboard, KeyboardMapping, StateDelta};
use keygrab::keyseq::KeySequence;
use keygrab::modmask::{
    modifier_bit, normalize_mask, MASK_ANY, MASK_CONTROL, MASK_LOCK, MASK_MOD2, MASK_MOD4,
    MASK_SHIFT,
};

struct NoopCommand;

impl Command for NoopCommand {
    fn execute(&self) -> Result<(), String> {
        Ok(())
    }
}

fn bind(keysym: u32, modifiers: u32, keycodes: Vec<u8>) -> Keybind {
    let mut b = Keybind::new(KeySequence::new(keysym, modifiers), Box::new(NoopCommand));
    b.update_keycodes(keycodes);
    b
}

const KEY_A: u32 = 0x61;
const KEY_B: u32 = 0x62;
const KEY_C: u32 = 0x63;

/// keycodes 8..=10, two columns each: 8 -> (a, -), 9 -> (b, a), 10 -> (-, -).
fn small_mapping() -> KeyboardMapping {
    KeyboardMapping {
        min_keycode: 8,
        max_keycode: 10,
        keysyms_per_keycode: 2,
        keysyms: vec![KEY_A, 0, KEY_B, KEY_A, 0, 0],
    }
}

#[test]
fn normalize_clears_lock_and_numlock_only() {
    let numlock = MASK_MOD2;
    assert_eq!(
        normalize_mask(MASK_CONTROL | MASK_LOCK | MASK_MOD2, numlock),
        MASK_CONTROL
    );
    assert_eq!(normalize_mask(MASK_CONTROL, numlock), MASK_CONTROL);
    assert_eq!(
        normalize_mask(MASK_SHIFT | MASK_MOD4, numlock),
        MASK_SHIFT | MASK_MOD4
    );
    assert_eq!(normalize_mask(MASK_LOCK | MASK_MOD2, numlock), 0);
}

#[test]
fn modifier_bit_covers_the_eight_positions() {
    assert_eq!(modifier_bit(0), Some(MASK_SHIFT));
    assert_eq!(modifier_bit(1), Some(MASK_LOCK));
    assert_eq!(modifier_bit(4), Some(MASK_MOD2));
    assert_eq!(modifier_bit(7), Some(0x80));
    assert_eq!(modifier_bit(8), None);
    assert_eq!(modifier_bit(31), None);
}

#[test]
fn matches_demands_exact_mask_equality() {
    let b = bind(KEY_A, MASK_CONTROL, vec![10, 12]);
    assert!(b.matches(10, MASK_CONTROL));
    assert!(b.matches(12, MASK_CONTROL));
    assert!(!b.matches(10, MASK_CONTROL | MASK_SHIFT));
    assert!(!b.matches(10, 0));
    assert!(!b.matches(11, MASK_CONTROL));
}

#[test]
fn match_is_lock_key_indifferent() {
    let numlock = MASK_MOD2;
    let mut config = Config::default();
    config.add_keybind(bind(KEY_A, MASK_MOD4, vec![10]));
    let base = MASK_MOD4;
    for extra in [0, MASK_LOCK, MASK_MOD2, MASK_LOCK | MASK_MOD2] {
        assert_eq!(config.match_keybind(10, base | extra, numlock), Some(0));
    }
}

#[test]
fn match_is_exact_after_normalization() {
    let numlock = MASK_MOD2;
    let mut config = Config::default();
    config.add_keybind(bind(KEY_A, MASK_CONTROL, vec![10]));
    assert_eq!(config.match_keybind(10, MASK_CONTROL, numlock), Some(0));
    assert_eq!(
        config.match_keybind(10, MASK_CONTROL | MASK_SHIFT, numlock),
        None
    );
    assert_eq!(config.match_keybind(10, 0, numlock), None);
}

#[test]
fn first_match_wins_among_identical_bindings() {
    let numlock = MASK_MOD2;
    let mut config = Config::default();
    config.add_keybind(bind(KEY_A, MASK_CONTROL, vec![10]));
    config.add_keybind(bind(KEY_A, MASK_CONTROL, vec![10]));
    assert_eq!(config.match_keybind(10, MASK_CONTROL, numlock), Some(0));
}

#[test]
fn scan_passes_over_non_matching_bindings() {
    let numlock = MASK_MOD2;
    let mut config = Config::default();
    config.add_keybind(bind(KEY_A, MASK_CONTROL, vec![10]));
    config.add_keybind(bind(KEY_B, MASK_MOD4, vec![11]));
    assert_eq!(config.match_keybind(11, MASK_MOD4, numlock), Some(1));
    assert_eq!(config.match_keybind(11, MASK_CONTROL, numlock), None);
}

#[test]
fn keycodes_resolve_over_all_columns_ascending_deduplicated() {
    let m = small_mapping();
    assert_eq!(m.keycodes_for_keysym(KEY_A), vec![8, 9]);
    assert_eq!(m.keycodes_for_keysym(KEY_B), vec![9]);
    assert_eq!(m.keycodes_for_keysym(KEY_C), Vec::<u8>::new());
}

#[test]
fn keycode_mapped_in_both_columns_appears_once() {
    let m = KeyboardMapping {
        min_keycode: 8,
        max_keycode: 8,
        keysyms_per_keycode: 2,
        keysyms: vec![KEY_A, KEY_A],
    };
    assert_eq!(m.keycodes_for_keysym(KEY_A), vec![8]);
}

#[test]
fn short_keysym_table_is_tolerated() {
    let m = KeyboardMapping {
        min_keycode: 8,
        max_keycode: 10,
        keysyms_per_keycode: 2,
        keysyms: vec![KEY_A],
    };
    assert_eq!(m.keycodes_for_keysym(KEY_A), vec![8]);
    assert_eq!(m.keycodes_for_keysym(KEY_B), Vec::<u8>::new());
}

#[test]
fn resolution_reaches_the_top_of_the_keycode_range() {
    let m = KeyboardMapping {
        min_keycode: 254,
        max_keycode: 255,
        keysyms_per_keycode: 1,
        keysyms: vec![KEY_A, KEY_A],
    };
    assert_eq!(m.keycodes_for_keysym(KEY_A), vec![254, 255]);
}

#[test]
fn keyboard_resolves_over_its_held_mapping() {
    let mut kb = Keyboard::new(3, small_mapping());
    assert_eq!(kb.device_id, 3);
    assert_eq!(kb.keysym_to_keycodes(KEY_A), vec![8, 9]);

    // A remap swaps the mapping in; resolution follows the new table.
    kb.update_keymaps(KeyboardMapping {
        min_keycode: 8,
        max_keycode: 8,
        keysyms_per_keycode: 1,
        keysyms: vec![KEY_B],
    });
    assert_eq!(kb.device_id, 3);
    assert_eq!(kb.keysym_to_keycodes(KEY_A), Vec::<u8>::new());
    assert_eq!(kb.keysym_to_keycodes(KEY_B), vec![8]);
}

#[test]
fn grab_pass_issues_four_variants_per_keycode_per_binding() {
    let numlock = MASK_MOD2;
    let m = small_mapping();
    let mut config = Config::default();
    config.add_keybind(bind(KEY_A, MASK_MOD4, Vec::new()));
    config.add_keybind(bind(KEY_B, MASK_CONTROL | MASK_SHIFT, Vec::new()));
    let grabs = grab_all(&mut config, &m, numlock);

    // KEY_A resolves to keycodes 8 and 9; KEY_B to keycode 9: (2 + 1) * 4.
    assert_eq!(grabs.len(), 12);
    let expected: Vec<GrabRequest> = [
        (8, MASK_MOD4),
        (8, MASK_MOD4 | MASK_MOD2),
        (8, MASK_MOD4 | MASK_LOCK),
        (8, MASK_MOD4 | MASK_LOCK | MASK_MOD2),
        (9, MASK_MOD4),
        (9, MASK_MOD4 | MASK_MOD2),
        (9, MASK_MOD4 | MASK_LOCK),
        (9, MASK_MOD4 | MASK_LOCK | MASK_MOD2),
        (9, MASK_CONTROL | MASK_SHIFT),
        (9, MASK_CONTROL | MASK_SHIFT | MASK_MOD2),
        (9, MASK_CONTROL | MASK_SHIFT | MASK_LOCK),
        (9, MASK_CONTROL | MASK_SHIFT | MASK_LOCK | MASK_MOD2),
    ]
    .iter()
    .map(|&(keycode, modifiers)| GrabRequest { keycode, modifiers })
    .collect();
    assert_eq!(grabs, expected);

    // The keycode caches were replaced by the pass.
    assert_eq!(config.keybinds[0].keycodes, vec![8, 9]);
    assert_eq!(config.keybinds[1].keycodes, vec![9]);
}

#[test]
fn grab_count_is_bindings_times_keycodes_times_four() {
    let numlock = MASK_MOD2;
    let m = small_mapping();
    let mut config = Config::default();
    // Both bindings resolve to exactly one keycode (KEY_B -> 9).
    config.add_keybind(bind(KEY_B, MASK_CONTROL, Vec::new()));
    config.add_keybind(bind(KEY_B, MASK_MOD4, Vec::new()));
    let grabs = grab_all(&mut config, &m, numlock);
    assert_eq!(grabs.len(), 2 * 1 * 4);
}

#[test]
fn regrab_is_idempotent_without_a_keymap_change() {
    let numlock = MASK_MOD2;
    let m = small_mapping();
    let mut config = Config::default();
    config.add_keybind(bind(KEY_A, MASK_MOD4, Vec::new()));
    config.add_keybind(bind(KEY_B, MASK_CONTROL, Vec::new()));
    let _ = ungrab_all();
    let first = grab_all(&mut config, &m, numlock);
    let _ = ungrab_all();
    let second = grab_all(&mut config, &m, numlock);
    assert_eq!(first, second);
}

#[test]
fn ungrab_is_one_wildcard_request() {
    let r = ungrab_all();
    assert_eq!(r.key, ANY_KEY);
    assert_eq!(r.modifiers, MASK_ANY);
}

#[test]
fn xkb_events_route_to_the_right_action() {
    assert_eq!(
        route_xkb_event(&XkbEvent::NewKeyboard { keycodes_changed: true }),
        XkbAction::Remap
    );
    assert_eq!(
        route_xkb_event(&XkbEvent::NewKeyboard { keycodes_changed: false }),
        XkbAction::Ignore
    );
    assert_eq!(route_xkb_event(&XkbEvent::MapNotify), XkbAction::Remap);
    let delta = StateDelta {
        base_mods: MASK_SHIFT,
        latched_mods: 0,
        locked_mods: MASK_LOCK,
        base_group: 0,
        latched_group: 0,
        locked_group: 1,
    };
    assert_eq!(
        route_xkb_event(&XkbEvent::StateNotify(delta)),
        XkbAction::ApplyState(delta)
    );
    assert_eq!(route_xkb_event(&XkbEvent::Other), XkbAction::Ignore);
}
