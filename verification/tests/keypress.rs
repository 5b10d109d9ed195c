//! How key presses are matched.

use lapce_agent::keypress::{
    Key, KeyInput, KeyLocation, KeyMapKey, KeyPress, Modifiers, NamedKey, PhysicalKey,
    PointerButton,
};

const EMPTY: Modifiers = Modifiers {
    shift: false,
    control: false,
    alt: false,
    meta: false,
    altgr: false,
};

const SHIFT: Modifiers = Modifiers {
    shift: true,
    ..EMPTY
};

const CONTROL: Modifiers = Modifiers {
    control: true,
    ..EMPTY
};

fn physical(code: &str) -> PhysicalKey {
    PhysicalKey {
        code: code.to_string(),
    }
}

fn character(text: &str) -> Key {
    Key::Character(text.to_string())
}

fn char_key(key_without_modifiers: &str, logical: &str, mods: Modifiers) -> KeyPress {
    KeyPress {
        key: KeyInput::Keyboard {
            physical: physical("Digit7"),
            logical: character(logical),
            location: KeyLocation::Standard,
            key_without_modifiers: character(key_without_modifiers),
            repeat: false,
        },
        mods,
    }
}

#[test]
fn slash_matches_via_actual_character_on_shifted_layout() {
    // Italian layout: "/" is produced by Shift+7.
    let press = char_key("7", "/", SHIFT);

    let matched = press.keymap_press().unwrap();
    assert_eq!(matched.key, KeyMapKey::Logical(character("/")));
    assert_eq!(matched.mods, EMPTY);
}

#[test]
fn slash_matches_directly_on_unshifted_layout() {
    // US layout: "/" is its own unshifted key.
    let press = char_key("/", "/", EMPTY);

    let matched = press.keymap_press().unwrap();
    assert_eq!(matched.key, KeyMapKey::Logical(character("/")));
    assert_eq!(matched.mods, EMPTY);
}

#[test]
fn legacy_representation_is_preserved_for_backward_compatibility() {
    // US layout event for Shift+4 ("$"), shaped like what an old "shift+4" custom binding
    // expects.
    let press = char_key("4", "$", SHIFT);

    let legacy = press.legacy_keymap_press().unwrap();
    assert_eq!(legacy.key, KeyMapKey::Logical(character("4")));
    assert_eq!(legacy.mods, SHIFT);

    // The primary representation is the layout-correct one.
    let primary = press.keymap_press().unwrap();
    assert_eq!(primary.key, KeyMapKey::Logical(character("$")));
    assert_eq!(primary.mods, EMPTY);
}

#[test]
fn ctrl_modifier_is_preserved_for_symbol_keys() {
    // ctrl+/ on a US layout: Ctrl is a real modifier, not absorbed.
    let press = char_key("/", "/", CONTROL);

    let matched = press.keymap_press().unwrap();
    assert_eq!(matched.key, KeyMapKey::Logical(character("/")));
    assert_eq!(matched.mods, CONTROL);
}

#[test]
fn dead_key_composed_symbol_matches_via_actual_character() {
    // Italian layout: "^" is a dead key. Pressing it then Space produces the standalone "^"
    // character; the event for that second keypress is one of the space bar, which is unrelated
    // to the composed output - only `logical` carries the real character.
    let press = KeyPress {
        key: KeyInput::Keyboard {
            physical: physical("Space"),
            logical: character("^"),
            location: KeyLocation::Standard,
            key_without_modifiers: Key::Named(NamedKey::Space),
            repeat: false,
        },
        mods: EMPTY,
    };

    let matched = press.keymap_press().unwrap();
    assert_eq!(matched.key, KeyMapKey::Logical(character("^")));
    assert_eq!(matched.mods, EMPTY);
}

#[test]
fn unshifted_digit_is_unaffected() {
    // Plain "4" (e.g. a count prefix): no Shift/AltGr involved, the two representations
    // coincide.
    let press = char_key("4", "4", EMPTY);

    assert_eq!(press.keymap_press(), press.legacy_keymap_press());
}

#[test]
fn alphabetic_keys_use_legacy_representation() {
    // Shift+A: letters keep their case in the Shift modifier.
    let press = char_key("a", "A", SHIFT);

    let matched = press.keymap_press().unwrap();
    assert_eq!(matched.key, KeyMapKey::Logical(character("a")));
    assert_eq!(matched.mods, SHIFT);
}

fn named(name: NamedKey, logical: Key, location: KeyLocation, repeat: bool) -> KeyPress {
    KeyPress {
        key: KeyInput::Keyboard {
            physical: physical("Code"),
            logical,
            location,
            key_without_modifiers: Key::Named(name),
            repeat,
        },
        mods: EMPTY,
    }
}

#[test]
fn a_plain_space_is_the_space_key() {
    let press = named(
        NamedKey::Space,
        Key::Named(NamedKey::Space),
        KeyLocation::Standard,
        false,
    );
    assert_eq!(
        press.keymap_press().unwrap().key,
        KeyMapKey::Logical(Key::Named(NamedKey::Space))
    );
    let press = named(
        NamedKey::Space,
        character(" "),
        KeyLocation::Standard,
        false,
    );
    assert_eq!(
        press.keymap_press().unwrap().key,
        KeyMapKey::Logical(Key::Named(NamedKey::Space))
    );
    assert_eq!(
        char_key(" ", "x", EMPTY).legacy_keymap_press().unwrap().key,
        KeyMapKey::Logical(Key::Named(NamedKey::Space))
    );
}

#[test]
fn a_modifier_that_is_held_down_is_no_press() {
    for name in [
        NamedKey::Meta,
        NamedKey::Shift,
        NamedKey::Alt,
        NamedKey::Control,
    ] {
        let held = named(
            name.clone(),
            Key::Named(name.clone()),
            KeyLocation::Left,
            true,
        );
        assert_eq!(held.keymap_press(), None);
        let first = named(
            name.clone(),
            Key::Named(name.clone()),
            KeyLocation::Left,
            false,
        );
        assert_eq!(
            first.keymap_press().unwrap().key,
            KeyMapKey::Logical(Key::Named(name))
        );
    }
    let repeated = named(
        NamedKey::Other("Enter".to_string()),
        Key::Named(NamedKey::Other("Enter".to_string())),
        KeyLocation::Standard,
        true,
    );
    assert!(repeated.keymap_press().is_some());
}

#[test]
fn number_pad_keys_are_what_they_produce() {
    let press = KeyPress {
        key: KeyInput::Keyboard {
            physical: physical("Numpad7"),
            logical: Key::Named(NamedKey::Other("Home".to_string())),
            location: KeyLocation::Numpad,
            key_without_modifiers: character("7"),
            repeat: false,
        },
        mods: SHIFT,
    };
    let matched = press.keymap_press().unwrap();
    assert_eq!(
        matched.key,
        KeyMapKey::Logical(Key::Named(NamedKey::Other("Home".to_string())))
    );
    assert_eq!(matched.mods, SHIFT);
}

#[test]
fn other_keys_go_by_their_place() {
    assert_eq!(
        char_key("\u{e8}", "\u{e9}", SHIFT).keymap_press().unwrap().key,
        KeyMapKey::Physical(physical("Digit7"))
    );
    assert_eq!(
        char_key("ab", "ab", EMPTY).keymap_press().unwrap().key,
        KeyMapKey::Physical(physical("Digit7"))
    );
    for key in [
        Key::Dead(Some('^')),
        Key::Dead(None),
        Key::Unidentified("0x21".to_string()),
    ] {
        let press = KeyPress {
            key: KeyInput::Keyboard {
                physical: physical("BracketLeft"),
                logical: key.clone(),
                location: KeyLocation::Standard,
                key_without_modifiers: key,
                repeat: false,
            },
            mods: EMPTY,
        };
        assert_eq!(
            press.keymap_press().unwrap().key,
            KeyMapKey::Physical(physical("BracketLeft"))
        );
    }
}

#[test]
fn a_symbol_key_that_produces_no_ascii_character_falls_back() {
    // AltGr+5 on a layout that puts the euro sign there.
    let press = char_key("5", "\u{20ac}", SHIFT);
    let matched = press.keymap_press().unwrap();
    assert_eq!(matched.key, KeyMapKey::Logical(character("5")));
    assert_eq!(matched.mods, SHIFT);
}

#[test]
fn letters_are_matched_in_lower_case() {
    assert_eq!(
        char_key("Z", "Z", EMPTY).keymap_press().unwrap().key,
        KeyMapKey::Logical(character("z"))
    );
    assert_eq!(
        char_key("[", "A", EMPTY).keymap_press().unwrap().key,
        KeyMapKey::Logical(character("a"))
    );
}

#[test]
fn pointer_buttons_are_themselves() {
    let press = KeyPress {
        key: KeyInput::Pointer(PointerButton { number: 2 }),
        mods: CONTROL,
    };
    let matched = press.keymap_press().unwrap();
    assert_eq!(matched.key, KeyMapKey::Pointer(PointerButton { number: 2 }));
    assert_eq!(matched.mods, CONTROL);
    assert_eq!(press.keymap_press(), press.legacy_keymap_press());
}

#[test]
fn the_preferred_press_is_looked_up_first() {
    let shifted = char_key("7", "/", SHIFT);
    assert_eq!(
        shifted.candidates(),
        vec![
            shifted.keymap_press().unwrap(),
            shifted.legacy_keymap_press().unwrap(),
        ]
    );
    assert_eq!(shifted.candidates()[0].mods, EMPTY);
    assert_eq!(shifted.candidates()[1].mods, SHIFT);
    // The same character with the modifiers it takes: only the modifiers differ.
    assert_eq!(char_key("4", "4", SHIFT).candidates().len(), 2);
}

#[test]
fn a_press_is_looked_up_once_where_both_forms_agree() {
    for press in [
        char_key("4", "4", EMPTY),
        char_key("a", "A", SHIFT),
        char_key("/", "/", CONTROL),
        char_key("\u{e8}", "\u{e9}", SHIFT),
    ] {
        assert_eq!(press.candidates(), vec![press.keymap_press().unwrap()]);
    }
    let button = KeyPress {
        key: KeyInput::Pointer(PointerButton { number: 3 }),
        mods: EMPTY,
    };
    assert_eq!(button.candidates().len(), 1);
    let held = KeyPress {
        key: KeyInput::Keyboard {
            physical: physical("ShiftLeft"),
            logical: Key::Named(NamedKey::Shift),
            location: KeyLocation::Left,
            key_without_modifiers: Key::Named(NamedKey::Shift),
            repeat: true,
        },
        mods: SHIFT,
    };
    assert!(held.candidates().is_empty());
}
