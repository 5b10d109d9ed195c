//! How a key press is represented for matching against keymaps.

use vstd::prelude::*;

use crate::text::{chars_of, same_text};

verus! {

/// A key with a name. The names that matching depends on have variants of their own.
#[derive(Debug, PartialEq, Eq)]
pub enum NamedKey {
    Meta,
    Shift,
    Alt,
    Control,
    Space,
    Other(String),
}

/// A key, as the keyboard layout sees it.
#[derive(Debug, PartialEq, Eq)]
pub enum Key {
    Named(NamedKey),
    /// A key that produces text.
    Character(String),
    /// A key that the windowing system knows only by a code of its own.
    Unidentified(String),
    /// A key that changes what the next one produces.
    Dead(Option<char>),
}

/// A key, as the place it has on the keyboard.
#[derive(Debug, PartialEq, Eq)]
pub struct PhysicalKey {
    pub code: String,
}

/// The part of the keyboard that a key belongs to.
#[derive(Debug, Clone, Copy, PartialEq, Eq, Structural)]
pub enum KeyLocation {
    Standard,
    Left,
    Right,
    Numpad,
}

/// A button of a pointer, by its number.
#[derive(Debug, Clone, Copy, PartialEq, Eq, Structural)]
pub struct PointerButton {
    pub number: u8,
}

/// The modifiers that are held while a key is pressed.
#[derive(Debug, Clone, Copy, PartialEq, Eq, Structural)]
pub struct Modifiers {
    pub shift: bool,
    pub control: bool,
    pub alt: bool,
    pub meta: bool,
    pub altgr: bool,
}

/// What was pressed.
#[derive(Debug)]
pub enum KeyInput {
    Keyboard {
        physical: PhysicalKey,
        /// The key with the modifiers taken into account: what it produces.
        logical: Key,
        location: KeyLocation,
        /// The key as it would be without modifiers.
        key_without_modifiers: Key,
        /// Whether the key is held down.
        repeat: bool,
    },
    Pointer(PointerButton),
}

/// A key in a keymap.
#[derive(Debug, PartialEq, Eq)]
pub enum KeyMapKey {
    Pointer(PointerButton),
    Logical(Key),
    Physical(PhysicalKey),
}

/// A key in a keymap with the modifiers it takes.
#[derive(Debug, PartialEq, Eq)]
pub struct KeyMapPress {
    pub key: KeyMapKey,
    pub mods: Modifiers,
}

/// A key press.
#[derive(Debug)]
pub struct KeyPress {
    pub key: KeyInput,
    pub mods: Modifiers,
}

/// What a [`NamedKey`] stands for.
#[verifier::ext_equal]
pub enum NamedView {
    Meta,
    Shift,
    Alt,
    Control,
    Space,
    Other(Seq<char>),
}

/// What a [`Key`] stands for.
#[verifier::ext_equal]
pub enum KeyView {
    Named(NamedView),
    Character(Seq<char>),
    Unidentified(Seq<char>),
    Dead(Option<char>),
}

/// What a [`KeyInput`] stands for.
#[verifier::ext_equal]
pub enum KeyInputView {
    Keyboard {
        physical: Seq<char>,
        logical: KeyView,
        location: KeyLocation,
        key_without_modifiers: KeyView,
        repeat: bool,
    },
    Pointer(PointerButton),
}

/// What a [`KeyMapKey`] stands for.
#[verifier::ext_equal]
pub enum KeyMapKeyView {
    Pointer(PointerButton),
    Logical(KeyView),
    Physical(Seq<char>),
}

/// What a [`KeyMapPress`] stands for.
#[verifier::ext_equal]
pub struct KeyMapPressView {
    pub key: KeyMapKeyView,
    pub mods: Modifiers,
}

/// What a [`KeyPress`] stands for.
#[verifier::ext_equal]
pub struct KeyPressView {
    pub key: KeyInputView,
    pub mods: Modifiers,
}

impl View for NamedKey {
    type V = NamedView;

    open spec fn view(&self) -> NamedView {
        match self {
            NamedKey::Meta => NamedView::Meta,
            NamedKey::Shift => NamedView::Shift,
            NamedKey::Alt => NamedView::Alt,
            NamedKey::Control => NamedView::Control,
            NamedKey::Space => NamedView::Space,
            NamedKey::Other(name) => NamedView::Other(name@),
        }
    }
}

impl View for Key {
    type V = KeyView;

    open spec fn view(&self) -> KeyView {
        match self {
            Key::Named(name) => KeyView::Named(name@),
            Key::Character(text) => KeyView::Character(text@),
            Key::Unidentified(code) => KeyView::Unidentified(code@),
            Key::Dead(c) => KeyView::Dead(*c),
        }
    }
}

impl View for KeyInput {
    type V = KeyInputView;

    open spec fn view(&self) -> KeyInputView {
        match self {
            KeyInput::Keyboard { physical, logical, location, key_without_modifiers, repeat } => {
                KeyInputView::Keyboard {
                    physical: physical.code@,
                    logical: logical@,
                    location: *location,
                    key_without_modifiers: key_without_modifiers@,
                    repeat: *repeat,
                }
            },
            KeyInput::Pointer(button) => KeyInputView::Pointer(*button),
        }
    }
}

impl View for KeyMapKey {
    type V = KeyMapKeyView;

    open spec fn view(&self) -> KeyMapKeyView {
        match self {
            KeyMapKey::Pointer(button) => KeyMapKeyView::Pointer(*button),
            KeyMapKey::Logical(key) => KeyMapKeyView::Logical(key@),
            KeyMapKey::Physical(key) => KeyMapKeyView::Physical(key.code@),
        }
    }
}

impl View for KeyMapPress {
    type V = KeyMapPressView;

    open spec fn view(&self) -> KeyMapPressView {
        KeyMapPressView { key: self.key@, mods: self.mods }
    }
}

impl View for KeyPress {
    type V = KeyPressView;

    open spec fn view(&self) -> KeyPressView {
        KeyPressView { key: self.key@, mods: self.mods }
    }
}

impl Clone for NamedKey {
    fn clone(&self) -> (r: Self)
        ensures
            r@ == self@,
    {
        match self {
            NamedKey::Meta => NamedKey::Meta,
            NamedKey::Shift => NamedKey::Shift,
            NamedKey::Alt => NamedKey::Alt,
            NamedKey::Control => NamedKey::Control,
            NamedKey::Space => NamedKey::Space,
            NamedKey::Other(name) => NamedKey::Other(name.clone()),
        }
    }
}

impl Clone for Key {
    fn clone(&self) -> (r: Self)
        ensures
            r@ == self@,
    {
        match self {
            Key::Named(name) => Key::Named(name.clone()),
            Key::Character(text) => Key::Character(text.clone()),
            Key::Unidentified(code) => Key::Unidentified(code.clone()),
            Key::Dead(c) => Key::Dead(*c),
        }
    }
}

/// The lower case of an ASCII letter; any other character stays.
pub open spec fn ascii_lower(c: char) -> char {
    if 'A' <= c <= 'Z' {
        ((c as u8) + 32) as char
    } else {
        c
    }
}

/// Whether `text` is one ASCII character.
pub open spec fn single_ascii(text: Seq<char>) -> bool {
    text.len() == 1 && text[0] <= '\u{7f}'
}

/// Whether `c` is an ASCII letter.
pub open spec fn ascii_letter(c: char) -> bool {
    ('a' <= c <= 'z') || ('A' <= c <= 'Z')
}

/// Whether `key` is a modifier.
pub open spec fn is_modifier(key: KeyView) -> bool {
    match key {
        KeyView::Named(NamedView::Meta) => true,
        KeyView::Named(NamedView::Shift) => true,
        KeyView::Named(NamedView::Alt) => true,
        KeyView::Named(NamedView::Control) => true,
        _ => false,
    }
}

/// The key of a keymap for a key that has nothing to do with the number pad: a named key as it
/// is, a single ASCII character in lower case, and any other key by its place.
pub open spec fn base_key(base: KeyView, physical: Seq<char>) -> KeyMapKeyView {
    match base {
        KeyView::Named(_) => KeyMapKeyView::Logical(base),
        KeyView::Character(text) => if text == seq![' '] {
            KeyMapKeyView::Logical(KeyView::Named(NamedView::Space))
        } else if single_ascii(text) {
            KeyMapKeyView::Logical(KeyView::Character(seq![ascii_lower(text[0])]))
        } else {
            KeyMapKeyView::Physical(physical)
        },
        KeyView::Unidentified(_) => KeyMapKeyView::Physical(physical),
        KeyView::Dead(_) => KeyMapKeyView::Physical(physical),
    }
}

/// The key of a keymap for what was pressed, by the unshifted key. `None` for a modifier that is
/// held down.
pub open spec fn legacy_key(input: KeyInputView) -> Option<KeyMapKeyView> {
    match input {
        KeyInputView::Pointer(button) => Some(KeyMapKeyView::Pointer(button)),
        KeyInputView::Keyboard { physical, logical, location, key_without_modifiers, repeat } => {
            if repeat && is_modifier(logical) {
                None
            } else if location is Numpad {
                Some(KeyMapKeyView::Logical(logical))
            } else {
                Some(base_key(key_without_modifiers, physical))
            }
        },
    }
}

/// Whether a key whose unshifted form is `base` is represented by `produced`, the character it
/// produces: a digit or punctuation key always is, and the space bar when it completes a dead key
/// to a symbol.
pub open spec fn produces_symbol(base: KeyView, produced: Seq<char>) -> bool {
    &&& single_ascii(produced)
    &&& match base {
        KeyView::Character(text) => single_ascii(text) && !ascii_letter(text[0]),
        KeyView::Named(NamedView::Space) => '!' <= produced[0] <= '~' && !ascii_letter(produced[0]),
        _ => false,
    }
}

/// The key of a keymap for a symbol that was produced. `None` where this does not apply.
pub open spec fn symbol_key(input: KeyInputView) -> Option<KeyMapKeyView> {
    match input {
        KeyInputView::Keyboard {
            logical: KeyView::Character(produced),
            location,
            key_without_modifiers,
            ..
        } => if !(location is Numpad) && produces_symbol(key_without_modifiers, produced) {
            Some(KeyMapKeyView::Logical(KeyView::Character(seq![ascii_lower(produced[0])])))
        } else {
            None
        },
        _ => None,
    }
}

/// The modifiers without those that go into the character that a key produces.
pub open spec fn absorbed(mods: Modifiers) -> Modifiers {
    Modifiers { shift: false, altgr: false, ..mods }
}

/// The press of a keymap by the unshifted key.
pub open spec fn legacy_press(press: KeyPressView) -> Option<KeyMapPressView> {
    match legacy_key(press.key) {
        Some(key) => Some(KeyMapPressView { key, mods: press.mods }),
        None => None,
    }
}

/// The press of a keymap that is matched first.
pub open spec fn preferred_press(press: KeyPressView) -> Option<KeyMapPressView> {
    match symbol_key(press.key) {
        Some(key) => Some(KeyMapPressView { key, mods: absorbed(press.mods) }),
        None => legacy_press(press),
    }
}

/// The presses to look up in the keymaps, in order: the preferred one, and then the one by the
/// unshifted key where it is another.
pub open spec fn candidate_presses(press: KeyPressView) -> Seq<KeyMapPressView> {
    match (preferred_press(press), legacy_press(press)) {
        (Some(preferred), Some(legacy)) => if preferred == legacy {
            seq![preferred]
        } else {
            seq![preferred, legacy]
        },
        (Some(preferred), None) => seq![preferred],
        (None, Some(legacy)) => seq![legacy],
        (None, None) => Seq::empty(),
    }
}

/// What the presses stand for, one by one.
pub open spec fn presses_view(presses: Seq<KeyMapPress>) -> Seq<KeyMapPressView> {
    presses.map_values(|press: KeyMapPress| press@)
}

/// What an optional key stands for.
pub open spec fn opt_key(key: Option<KeyMapKey>) -> Option<KeyMapKeyView> {
    match key {
        Some(key) => Some(key@),
        None => None,
    }
}

/// What an optional press stands for.
pub open spec fn opt_press(press: Option<KeyMapPress>) -> Option<KeyMapPressView> {
    match press {
        Some(press) => Some(press@),
        None => None,
    }
}

/// The only character of `text`, where it is one ASCII character.
fn only_ascii(text: &str) -> (r: Option<char>)
    ensures
        match r {
            Some(c) => single_ascii(text@) && c == text@[0],
            None => !single_ascii(text@),
        },
{
    let chars = chars_of(text);
    if chars.len() == 1 && chars[0] <= '\u{7f}' {
        Some(chars[0])
    } else {
        None
    }
}

/// The text of one character in lower case.
fn lower_text(c: char) -> (r: String)
    ensures
        r@ == seq![ascii_lower(c)],
{
    let lower = if 'A' <= c && c <= 'Z' {
        (c as u8 + 32) as char
    } else {
        c
    };
    let mut r = String::new();
    r.push(lower);
    assert(r@ =~= seq![ascii_lower(c)]);
    r
}

/// Whether `c` is an ASCII letter.
fn is_ascii_letter(c: char) -> (r: bool)
    ensures
        r == ascii_letter(c),
{
    ('a' <= c && c <= 'z') || ('A' <= c && c <= 'Z')
}

impl PhysicalKey {
    /// Copies the key.
    fn copied(&self) -> (r: PhysicalKey)
        ensures
            r.code@ == self.code@,
    {
        PhysicalKey { code: self.code.clone() }
    }
}

impl Key {
    /// Whether the two keys are the same.
    fn same(&self, other: &Key) -> (r: bool)
        ensures
            r == (self@ == other@),
    {
        match (self, other) {
            (Key::Named(a), Key::Named(b)) => a.same(b),
            (Key::Character(a), Key::Character(b)) => same_text(a.as_str(), b.as_str()),
            (Key::Unidentified(a), Key::Unidentified(b)) => same_text(a.as_str(), b.as_str()),
            (Key::Dead(Some(a)), Key::Dead(Some(b))) => *a == *b,
            (Key::Dead(None), Key::Dead(None)) => true,
            _ => false,
        }
    }
}

impl NamedKey {
    /// Whether the two names are the same.
    fn same(&self, other: &NamedKey) -> (r: bool)
        ensures
            r == (self@ == other@),
    {
        match (self, other) {
            (NamedKey::Meta, NamedKey::Meta) => true,
            (NamedKey::Shift, NamedKey::Shift) => true,
            (NamedKey::Alt, NamedKey::Alt) => true,
            (NamedKey::Control, NamedKey::Control) => true,
            (NamedKey::Space, NamedKey::Space) => true,
            (NamedKey::Other(a), NamedKey::Other(b)) => same_text(a.as_str(), b.as_str()),
            _ => false,
        }
    }
}

impl KeyMapPress {
    /// Whether the two presses are the same.
    fn same(&self, other: &KeyMapPress) -> (r: bool)
        ensures
            r == (self@ == other@),
    {
        let same_key = match (&self.key, &other.key) {
            (KeyMapKey::Pointer(a), KeyMapKey::Pointer(b)) => *a == *b,
            (KeyMapKey::Logical(a), KeyMapKey::Logical(b)) => a.same(b),
            (KeyMapKey::Physical(a), KeyMapKey::Physical(b)) => same_text(
                a.code.as_str(),
                b.code.as_str(),
            ),
            _ => false,
        };
        same_key && self.mods == other.mods
    }
}

impl KeyInput {
    /// The key of a keymap for what was pressed: a key with a name as it is, a letter in lower
    /// case, any other single ASCII character as it is without modifiers, and otherwise the
    /// place of the key. `None` for a modifier that is held down.
    pub fn keymap_key(&self) -> (r: Option<KeyMapKey>)
        ensures
            opt_key(r) == legacy_key(self@),
    {
        match self {
            KeyInput::Pointer(button) => Some(KeyMapKey::Pointer(*button)),
            KeyInput::Keyboard { physical, logical, location, key_without_modifiers, repeat } => {
                let modifier = match logical {
                    Key::Named(NamedKey::Meta) => true,
                    Key::Named(NamedKey::Shift) => true,
                    Key::Named(NamedKey::Alt) => true,
                    Key::Named(NamedKey::Control) => true,
                    _ => false,
                };
                if *repeat && modifier {
                    return None;
                }
                if let KeyLocation::Numpad = location {
                    return Some(KeyMapKey::Logical(logical.clone()));
                }
                let key = match key_without_modifiers {
                    Key::Named(_) => KeyMapKey::Logical(key_without_modifiers.clone()),
                    Key::Character(text) => match only_ascii(text.as_str()) {
                        Some(c) => {
                            if c == ' ' {
                                assert(text@ =~= seq![' ']);
                                KeyMapKey::Logical(Key::Named(NamedKey::Space))
                            } else {
                                KeyMapKey::Logical(Key::Character(lower_text(c)))
                            }
                        },
                        None => {
                            assert(single_ascii(seq![' ']));
                            KeyMapKey::Physical(physical.copied())
                        },
                    },
                    Key::Unidentified(_) => KeyMapKey::Physical(physical.copied()),
                    Key::Dead(_) => KeyMapKey::Physical(physical.copied()),
                };
                Some(key)
            },
        }
    }

    /// For a non-alphabetic character key (a digit or punctuation symbol), returns a key built
    /// from the character actually produced by the user's keyboard layout (`logical`), rather
    /// than the unshifted base character that [`KeyInput::keymap_key`] uses.
    ///
    /// This makes bindings like `/` or `^` match on any layout: on a layout where producing that
    /// character requires Shift (e.g. `/` via Shift+7), `logical` already reflects the real
    /// character while the unshifted key would not. Where `^` is a dead key that the space bar
    /// completes, only `logical` carries the symbol.
    ///
    /// Returns `None` for anything this doesn't apply to (other named keys, alphabetic keys,
    /// number pad keys, or a `logical` value that isn't a single ASCII character) - callers
    /// should fall back to [`KeyInput::keymap_key`] in that case.
    pub fn logical_symbol_key(&self) -> (r: Option<KeyMapKey>)
        ensures
            opt_key(r) == symbol_key(self@),
    {
        let (logical, location, base) = match self {
            KeyInput::Keyboard { logical, location, key_without_modifiers, .. } => (
                logical,
                location,
                key_without_modifiers,
            ),
            KeyInput::Pointer(_) => {
                return None;
            },
        };
        if let KeyLocation::Numpad = location {
            return None;
        }
        let produced = match logical {
            Key::Character(text) => match only_ascii(text.as_str()) {
                Some(c) => c,
                None => {
                    return None;
                },
            },
            _ => {
                return None;
            },
        };
        let symbol = match base {
            Key::Character(text) => match only_ascii(text.as_str()) {
                Some(c) => !is_ascii_letter(c),
                None => false,
            },
            Key::Named(NamedKey::Space) => '!' <= produced && produced <= '~' && !is_ascii_letter(
                produced,
            ),
            _ => false,
        };
        if symbol {
            Some(KeyMapKey::Logical(Key::Character(lower_text(produced))))
        } else {
            None
        }
    }
}

impl KeyPress {
    /// The preferred key representation for matching against keymaps.
    ///
    /// For non-alphabetic character keys (digits, punctuation) this is built from the character
    /// actually produced by the user's keyboard layout, with Shift/AltGr absorbed into the
    /// character rather than tracked as modifiers - so e.g. `/` matches on any layout, not just
    /// ones where `/` happens to be unshifted. Everything else (letters, named keys) is unchanged
    /// from [`KeyPress::legacy_keymap_press`].
    pub fn keymap_press(&self) -> (r: Option<KeyMapPress>)
        ensures
            opt_press(r) == preferred_press(self@),
    {
        if let Some(key) = self.key.logical_symbol_key() {
            let mut mods = self.mods;
            mods.shift = false;
            mods.altgr = false;
            return Some(KeyMapPress { key, mods });
        }
        self.legacy_keymap_press()
    }

    /// The key's unshifted base character (or named key) plus the full modifier set. Kept as a
    /// fallback so custom keymaps written with the `shift+<digit>` convention for symbols keep
    /// matching.
    pub fn legacy_keymap_press(&self) -> (r: Option<KeyMapPress>)
        ensures
            opt_press(r) == legacy_press(self@),
    {
        match self.key.keymap_key() {
            Some(key) => Some(KeyMapPress { key, mods: self.mods }),
            None => None,
        }
    }

    /// The presses to look up in the keymaps, in order: a binding of the preferred press wins, and
    /// one of the fallback is found where the preferred press has none.
    pub fn candidates(&self) -> (r: Vec<KeyMapPress>)
        ensures
            presses_view(r@) == candidate_presses(self@),
    {
        let preferred = self.keymap_press();
        let legacy = self.legacy_keymap_press();
        let repeated = match (&preferred, &legacy) {
            (Some(preferred), Some(legacy)) => preferred.same(legacy),
            _ => false,
        };
        let mut r: Vec<KeyMapPress> = Vec::new();
        if let Some(press) = preferred {
            r.push(press);
        }
        if !repeated {
            if let Some(press) = legacy {
                r.push(press);
            }
        }
        assert(presses_view(r@) =~= candidate_presses(self@));
        r
    }
}

/// A symbol is matched by the character that the layout produces: the place of the key, the key's
/// unshifted character, Shift and AltGr make no difference.
pub proof fn symbols_match_on_any_layout(a: KeyPressView, b: KeyPressView)
    requires
        symbol_key(a.key) is Some,
        symbol_key(b.key) is Some,
        a.key->logical == b.key->logical,
        absorbed(a.mods) == absorbed(b.mods),
    ensures
        preferred_press(a) == preferred_press(b),
{
}

/// For a key that is pressed without Shift and AltGr, and produces its own unshifted character,
/// the two representations are the same. The space bar is no such key.
pub proof fn unshifted_keys_are_unaffected(press: KeyPressView)
    requires
        press.key is Keyboard,
        press.key->logical == press.key->key_without_modifiers,
        press.key->logical != KeyView::Character(seq![' ']),
        !press.mods.shift,
        !press.mods.altgr,
    ensures
        preferred_press(press) == legacy_press(press),
        candidate_presses(press).len() <= 1,
{
}

/// Letters keep their representation, with Shift as a modifier.
pub proof fn letters_keep_their_representation(press: KeyPressView)
    requires
        press.key is Keyboard,
        press.key->key_without_modifiers matches KeyView::Character(text) && text.len() == 1
            && ascii_letter(text[0]),
    ensures
        preferred_press(press) == legacy_press(press),
        candidate_presses(press).len() <= 1,
{
}

/// Control, Alt and Meta are never absorbed: a binding that takes them does not match without.
pub proof fn real_modifiers_are_kept(press: KeyPressView)
    ensures
        preferred_press(press) matches Some(matched) ==> matched.mods.control == press.mods.control
            && matched.mods.alt == press.mods.alt && matched.mods.meta == press.mods.meta,
{
}

/// The fallback carries the modifiers as they are.
pub proof fn the_fallback_keeps_all_modifiers(press: KeyPressView)
    ensures
        legacy_press(press) matches Some(matched) ==> matched.mods == press.mods,
{
}

/// The press with Shift and AltGr as they are given, and all else as it is.
pub open spec fn with_shift_and_altgr(press: KeyPressView, shift: bool, altgr: bool) -> KeyPressView {
    KeyPressView {
        key: press.key,
        mods: Modifiers {
            shift,
            control: press.mods.control,
            alt: press.mods.alt,
            meta: press.mods.meta,
            altgr,
        },
    }
}

/// A key that is no letter and produces a single ASCII character is represented by that character,
/// in lower case and without Shift and AltGr, with Control, Alt and Meta as they are: which
/// modifiers it takes to produce the character on a layout makes no difference.
pub proof fn a_symbol_has_neither_shift_nor_altgr(
    press: KeyPressView,
    base: char,
    produced: char,
)
    requires
        press.key is Keyboard,
        !(press.key->location is Numpad),
        press.key->key_without_modifiers == KeyView::Character(seq![base]),
        press.key->logical == KeyView::Character(seq![produced]),
        base <= '\u{7f}',
        produced <= '\u{7f}',
        !('a' <= base <= 'z' || 'A' <= base <= 'Z'),
        !('A' <= produced <= 'Z'),
    ensures
        preferred_press(press) is Some,
        preferred_press(press)->0.key == KeyMapKeyView::Logical(KeyView::Character(seq![produced])),
        !preferred_press(press)->0.mods.shift,
        !preferred_press(press)->0.mods.altgr,
        preferred_press(press)->0.mods.control == press.mods.control,
        preferred_press(press)->0.mods.alt == press.mods.alt,
        preferred_press(press)->0.mods.meta == press.mods.meta,
{
    assert(seq![base][0] == base);
    assert(seq![produced][0] == produced);
}

/// Wherever a press is represented otherwise than by the unshifted key, neither Shift nor AltGr is
/// among its modifiers.
pub proof fn only_absorbed_modifiers_are_dropped(press: KeyPressView)
    ensures
        preferred_press(press) == legacy_press(press) || {
            &&& preferred_press(press) is Some
            &&& !preferred_press(press)->0.mods.shift
            &&& !preferred_press(press)->0.mods.altgr
            &&& preferred_press(press)->0.mods.control == press.mods.control
            &&& preferred_press(press)->0.mods.alt == press.mods.alt
            &&& preferred_press(press)->0.mods.meta == press.mods.meta
            &&& preferred_press(press)->0.key matches KeyMapKeyView::Logical(
                KeyView::Character(text),
            ) && text.len() == 1
        },
{
}

/// Two presses of keys that are no letters, which produce the same ASCII character and agree in
/// Control, Alt and Meta, are represented alike: whatever the keys, and whatever Shift and AltGr.
pub proof fn the_produced_symbol_decides(
    a: KeyPressView,
    b: KeyPressView,
    base_a: char,
    base_b: char,
    produced: char,
)
    requires
        a.key is Keyboard,
        b.key is Keyboard,
        !(a.key->location is Numpad),
        !(b.key->location is Numpad),
        a.key->key_without_modifiers == KeyView::Character(seq![base_a]),
        b.key->key_without_modifiers == KeyView::Character(seq![base_b]),
        base_a <= '\u{7f}',
        base_b <= '\u{7f}',
        !('a' <= base_a <= 'z' || 'A' <= base_a <= 'Z'),
        !('a' <= base_b <= 'z' || 'A' <= base_b <= 'Z'),
        produced <= '\u{7f}',
        a.key->logical == KeyView::Character(seq![produced]),
        b.key->logical == KeyView::Character(seq![produced]),
        a.mods.control == b.mods.control,
        a.mods.alt == b.mods.alt,
        a.mods.meta == b.mods.meta,
    ensures
        preferred_press(a) is Some,
        preferred_press(a) == preferred_press(b),
{
    assert(seq![base_a][0] == base_a);
    assert(seq![base_b][0] == base_b);
    assert(seq![produced][0] == produced);
}

/// Shift and AltGr of a press that is represented by the symbol it produces do not show.
pub proof fn shift_and_altgr_do_not_show_in_a_symbol(press: KeyPressView, shift: bool, altgr: bool)
    requires
        preferred_press(press) != legacy_press(press),
    ensures
        preferred_press(with_shift_and_altgr(press, shift, altgr)) == preferred_press(press),
{
}

/// The space bar that completes a dead key is represented by the symbol that comes out, and
/// otherwise by its own name.
pub proof fn the_space_bar_shows_what_it_completes(press: KeyPressView, produced: char)
    requires
        press.key is Keyboard,
        !(press.key->location is Numpad),
        press.key->key_without_modifiers == KeyView::Named(NamedView::Space),
        press.key->logical == KeyView::Character(seq![produced]),
    ensures
        preferred_press(press) is Some,
        '!' <= produced <= '~' && !('a' <= produced <= 'z' || 'A' <= produced <= 'Z')
            ==> preferred_press(press)->0.key == KeyMapKeyView::Logical(
            KeyView::Character(seq![produced]),
        ),
        !('!' <= produced <= '~') || ('a' <= produced <= 'z' || 'A' <= produced <= 'Z')
            ==> preferred_press(press)->0.key == KeyMapKeyView::Logical(
            KeyView::Named(NamedView::Space),
        ) && preferred_press(press)->0.mods == press.mods,
{
    assert(seq![produced][0] == produced);
}

/// Keys that are not characters, keys of the number pad, and keys that produce something else than
/// one ASCII character are represented as they always were.
pub proof fn other_keys_are_represented_by_the_unshifted_key(press: KeyPressView)
    requires
        press.key is Keyboard ==> {
            ||| press.key->location is Numpad
            ||| !(press.key->logical is Character)
            ||| press.key->logical->Character_0.len() != 1
            ||| press.key->logical->Character_0[0] > '\u{7f}'
            ||| press.key->key_without_modifiers is Unidentified
            ||| press.key->key_without_modifiers is Dead
            ||| (press.key->key_without_modifiers is Named && press.key->key_without_modifiers
                != KeyView::Named(NamedView::Space))
            ||| (press.key->key_without_modifiers matches KeyView::Character(text) && (text.len()
                != 1 || text[0] > '\u{7f}'))
        },
    ensures
        preferred_press(press) == legacy_press(press),
{
}

/// A key with a name is represented by its name, a single ASCII character by itself in lower case,
/// the space bar by its name whichever way it is reported, and any other key by its place.
pub proof fn keys_are_represented_by_what_they_are(input: KeyInputView, c: char)
    requires
        input is Keyboard,
        !(input->location is Numpad),
        !(input->repeat),
    ensures
        input->key_without_modifiers is Named ==> legacy_key(input) == Some(
            KeyMapKeyView::Logical(input->key_without_modifiers),
        ),
        input->key_without_modifiers == KeyView::Character(seq![' ']) ==> legacy_key(input) == Some(
            KeyMapKeyView::Logical(KeyView::Named(NamedView::Space)),
        ),
        input->key_without_modifiers == KeyView::Character(seq![c]) && c <= '\u{7f}' && c != ' '
            && !('A' <= c <= 'Z') ==> legacy_key(input) == Some(
            KeyMapKeyView::Logical(KeyView::Character(seq![c])),
        ),
        input->key_without_modifiers == KeyView::Character(seq![c]) && c > '\u{7f}' ==> legacy_key(
            input,
        ) == Some(KeyMapKeyView::Physical(input->physical)),
        input->key_without_modifiers is Character
            && input->key_without_modifiers->Character_0.len() != 1 ==> legacy_key(input) == Some(
            KeyMapKeyView::Physical(input->physical),
        ),
        input->key_without_modifiers is Unidentified || input->key_without_modifiers is Dead
            ==> legacy_key(input) == Some(KeyMapKeyView::Physical(input->physical)),
{
    assert(seq![c][0] == c);
    assert(seq![' '][0] == ' ');
}

/// The case of a letter makes no difference: a letter is represented by its small form.
pub proof fn letters_are_represented_by_their_small_form(
    physical: Seq<char>,
    logical: KeyView,
    location: KeyLocation,
    repeat: bool,
    i: u8,
)
    requires
        i < 26,
        !(location is Numpad),
        logical is Character,
    ensures
        ({
            let large = ('A' as u8 + i) as char;
            let small = ('a' as u8 + i) as char;
            let input = |c: char|
                KeyInputView::Keyboard {
                    physical,
                    logical,
                    location,
                    key_without_modifiers: KeyView::Character(seq![c]),
                    repeat,
                };
            &&& legacy_key(input(large)) == Some(
                KeyMapKeyView::Logical(KeyView::Character(seq![small])),
            )
            &&& legacy_key(input(small)) == Some(
                KeyMapKeyView::Logical(KeyView::Character(seq![small])),
            )
        }),
{
    let large = ('A' as u8 + i) as char;
    let small = ('a' as u8 + i) as char;
    assert(seq![large][0] == large);
    assert(seq![small][0] == small);
    assert(seq![' '][0] == ' ');
    assert(ascii_lower(large) == small);
}

/// A key of the number pad is represented by what it produces.
pub proof fn the_number_pad_is_represented_by_what_it_produces(press: KeyPressView)
    requires
        press.key is Keyboard,
        press.key->location is Numpad,
        !(press.key->repeat),
    ensures
        preferred_press(press) is Some,
        preferred_press(press)->0.key == KeyMapKeyView::Logical(press.key->logical),
        preferred_press(press)->0.mods == press.mods,
{
}

/// Nothing is represented for a modifier that is held down, and something for every other press.
pub proof fn only_held_modifiers_are_left_out(press: KeyPressView)
    ensures
        legacy_press(press) is None <==> {
            &&& press.key is Keyboard
            &&& press.key->repeat
            &&& press.key->logical == KeyView::Named(NamedView::Meta) || press.key->logical
                == KeyView::Named(NamedView::Shift) || press.key->logical == KeyView::Named(
                NamedView::Alt,
            ) || press.key->logical == KeyView::Named(NamedView::Control)
        },
        preferred_press(press) is None <==> legacy_press(press) is None,
{
}

/// A button of a pointer is represented by itself, with the modifiers that are held.
pub proof fn a_pointer_button_is_represented_by_itself(press: KeyPressView)
    requires
        press.key is Pointer,
    ensures
        preferred_press(press) is Some,
        preferred_press(press)->0.key == KeyMapKeyView::Pointer(press.key->Pointer_0),
        preferred_press(press)->0.mods == press.mods,
{
}

/// The preferred press is looked up first, the one by the unshifted key next where it is another,
/// and nothing else is.
pub proof fn the_preferred_press_is_looked_up_first(press: &KeyPress, r: Vec<KeyMapPress>)
    requires
        call_ensures(KeyPress::candidates, (press,), r),
    ensures
        preferred_press(press@) is None ==> r@.len() == 0,
        preferred_press(press@) is Some ==> r@.len() >= 1 && r@[0]@ == preferred_press(press@)->0,
        legacy_press(press@) is Some && legacy_press(press@) != preferred_press(press@) ==> r@.len()
            == 2 && r@[1]@ == legacy_press(press@)->0,
        legacy_press(press@) == preferred_press(press@) ==> r@.len() <= 1,
{
    only_held_modifiers_are_left_out(press@);
    assert(presses_view(r@).len() == r@.len());
    if r@.len() > 0 {
        assert(presses_view(r@)[0] == r@[0]@);
    }
    if r@.len() > 1 {
        assert(presses_view(r@)[1] == r@[1]@);
    }
}

/// Two presses, of any keys that are no letters, that produce the same ASCII character under the same
/// Control, Alt and Meta match the same binding.
pub proof fn the_same_symbol_matches_the_same_binding(
    a: &KeyPress,
    b: &KeyPress,
    base_a: char,
    base_b: char,
    produced: char,
    r: Option<KeyMapPress>,
    s: Option<KeyMapPress>,
)
    requires
        call_ensures(KeyPress::keymap_press, (a,), r),
        call_ensures(KeyPress::keymap_press, (b,), s),
        a@.key is Keyboard,
        b@.key is Keyboard,
        !(a@.key->location is Numpad),
        !(b@.key->location is Numpad),
        a@.key->key_without_modifiers == KeyView::Character(seq![base_a]),
        b@.key->key_without_modifiers == KeyView::Character(seq![base_b]),
        base_a <= '\u{7f}',
        base_b <= '\u{7f}',
        !('a' <= base_a <= 'z' || 'A' <= base_a <= 'Z'),
        !('a' <= base_b <= 'z' || 'A' <= base_b <= 'Z'),
        '!' <= produced <= '~',
        !('A' <= produced <= 'Z'),
        a@.key->logical == KeyView::Character(seq![produced]),
        b@.key->logical == KeyView::Character(seq![produced]),
        a.mods.control == b.mods.control,
        a.mods.alt == b.mods.alt,
        a.mods.meta == b.mods.meta,
    ensures
        r is Some && s is Some,
        r->0@ == s->0@,
        r->0@.key == KeyMapKeyView::Logical(KeyView::Character(seq![produced])),
        !r->0.mods.shift && !r->0.mods.altgr,
        r->0.mods.control == a.mods.control && r->0.mods.alt == a.mods.alt && r->0.mods.meta
            == a.mods.meta,
{
    a_symbol_has_neither_shift_nor_altgr(a@, base_a, produced);
    a_symbol_has_neither_shift_nor_altgr(b@, base_b, produced);
    the_produced_symbol_decides(a@, b@, base_a, base_b, produced);
}

/// The fallback is the unshifted key with all modifiers as they are held.
pub proof fn the_fallback_is_the_unshifted_key(press: &KeyPress, r: Option<KeyMapPress>)
    requires
        call_ensures(KeyPress::legacy_keymap_press, (press,), r),
    ensures
        r matches Some(matched) ==> matched.mods == press.mods && legacy_key(press.key@) == Some(
            matched.key@,
        ),
        r is None <==> legacy_key(press.key@) is None,
{
}

/// A key stands for its kind and for exactly the text that it holds.
pub proof fn a_key_is_told_by_its_view(key: Key)
    ensures
        key matches Key::Character(text) ==> key@ == KeyView::Character(text@),
        key matches Key::Unidentified(code) ==> key@ == KeyView::Unidentified(code@),
        key matches Key::Dead(c) ==> key@ == KeyView::Dead(c),
        key matches Key::Named(NamedKey::Other(name)) ==> key@ == KeyView::Named(
            NamedView::Other(name@),
        ),
        key matches Key::Named(name) ==> (name is Space <==> key@ == KeyView::Named(
            NamedView::Space,
        )) && (name is Shift <==> key@ == KeyView::Named(NamedView::Shift)) && (name is Control
            <==> key@ == KeyView::Named(NamedView::Control)) && (name is Alt <==> key@
            == KeyView::Named(NamedView::Alt)) && (name is Meta <==> key@ == KeyView::Named(
            NamedView::Meta,
        )),
{
}

/// A press stands for the key that was pressed, in all that is known of it, and the modifiers.
pub proof fn a_press_is_told_by_its_view(press: KeyPress)
    ensures
        press@.mods == press.mods,
        press.key matches KeyInput::Keyboard {
            physical,
            logical,
            location,
            key_without_modifiers,
            repeat,
        } ==> press@.key is Keyboard && press@.key->physical == physical.code@
            && press@.key->logical == logical@ && press@.key->location == location
            && press@.key->key_without_modifiers == key_without_modifiers@ && press@.key->repeat
            == repeat,
        press.key matches KeyInput::Pointer(button) ==> press@.key == KeyInputView::Pointer(button),
{
}

/// A key of a keymap stands for its kind and what it holds.
pub proof fn a_keymap_key_is_told_by_its_view(key: KeyMapKey)
    ensures
        key matches KeyMapKey::Logical(logical) ==> key@ == KeyMapKeyView::Logical(logical@),
        key matches KeyMapKey::Physical(physical) ==> key@ == KeyMapKeyView::Physical(
            physical.code@,
        ),
        key matches KeyMapKey::Pointer(button) ==> key@ == KeyMapKeyView::Pointer(button),
{
}

/// A capital letter that a key other than a letter produces is represented by its small form.
pub proof fn a_produced_capital_is_represented_by_its_small_form(
    press: KeyPressView,
    base: char,
    i: u8,
)
    requires
        i < 26,
        press.key is Keyboard,
        !(press.key->location is Numpad),
        press.key->key_without_modifiers == KeyView::Character(seq![base]),
        base <= '\u{7f}',
        !('a' <= base <= 'z' || 'A' <= base <= 'Z'),
        press.key->logical == KeyView::Character(seq![('A' as u8 + i) as char]),
    ensures
        preferred_press(press) is Some,
        preferred_press(press)->0.key == KeyMapKeyView::Logical(
            KeyView::Character(seq![('a' as u8 + i) as char]),
        ),
{
    let large = ('A' as u8 + i) as char;
    let small = ('a' as u8 + i) as char;
    assert(seq![base][0] == base);
    assert(seq![large][0] == large);
    assert(ascii_lower(large) == small);
}

} // verus!
