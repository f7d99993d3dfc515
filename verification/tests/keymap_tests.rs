//! Keymap construction and lookup.

use analog_midi::keymap::{
    make_keymap, Key, KeyMap, Note, A4, B4, C4, C5, D4, E4, F4, G4, KEY_E, KEY_I, KEY_Q, KEY_R,
    KEY_T, KEY_U, KEY_W, KEY_Y,
};

#[test]
fn default_map_is_home_row_on_c_major() {
    let m = make_keymap();
    let expected = [
        (KEY_Q, C4),
        (KEY_W, D4),
        (KEY_E, E4),
        (KEY_R, F4),
        (KEY_T, G4),
        (KEY_Y, A4),
        (KEY_U, B4),
        (KEY_I, C5),
    ];
    assert_eq!(m.entries.len(), expected.len());
    for (key, note) in expected {
        assert_eq!(m.resolve(Key(key)), Some(Note(note)));
    }
}

#[test]
fn unmapped_key_resolves_to_none() {
    let m = make_keymap();
    assert_eq!(m.resolve(Key(0x04)), None);
    assert_eq!(m.resolve(Key(0xFFFF)), None);
}

#[test]
fn from_entries_keeps_unique_entries() {
    let (m, dups) = KeyMap::from_entries(vec![(Key(1), Note(10)), (Key(2), Note(20))]);
    assert_eq!(dups, 0);
    assert_eq!(m.resolve(Key(1)), Some(Note(10)));
    assert_eq!(m.resolve(Key(2)), Some(Note(20)));
    assert_eq!(m.resolve(Key(3)), None);
}

#[test]
fn duplicate_key_is_last_write_wins() {
    let (m, dups) = KeyMap::from_entries(vec![
        (Key(1), Note(10)),
        (Key(2), Note(20)),
        (Key(1), Note(30)),
    ]);
    assert_eq!(dups, 1);
    assert_eq!(m.resolve(Key(1)), Some(Note(30)));
    assert_eq!(m.resolve(Key(2)), Some(Note(20)));
    assert_eq!(m.entries.len(), 2);
}

#[test]
fn every_duplicate_is_counted() {
    let (m, dups) = KeyMap::from_entries(vec![
        (Key(7), Note(1)),
        (Key(7), Note(2)),
        (Key(7), Note(3)),
        (Key(8), Note(4)),
        (Key(8), Note(5)),
    ]);
    assert_eq!(dups, 3);
    assert_eq!(m.resolve(Key(7)), Some(Note(3)));
    assert_eq!(m.resolve(Key(8)), Some(Note(5)));
    assert_eq!(m.entries.len(), 2);
}

#[test]
fn empty_map_resolves_nothing() {
    let (m, dups) = KeyMap::from_entries(Vec::new());
    assert_eq!(dups, 0);
    assert_eq!(m.resolve(Key(0)), None);
    assert!(m.entries.is_empty());
}
