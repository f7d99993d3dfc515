//! Key-to-note mapping: physical key identifiers, MIDI pitches, and the
//! immutable keymap that decides which keys the engine tracks.

use vstd::prelude::*;

verus! {

/// Physical key identifier: the HID scancode reported by the keyboard.
#[derive(Clone, Copy, Debug, PartialEq, Eq, Hash, Structural)]
pub struct Key(pub u16);

/// Musical pitch: a MIDI note number, 0 to 127.
#[derive(Clone, Copy, Debug, PartialEq, Eq, Hash, Structural)]
pub struct Note(pub u8);

// HID scancodes of the home keyboard row used by the default map.
pub const KEY_Q: u16 = 0x14;
pub const KEY_W: u16 = 0x1A;
pub const KEY_E: u16 = 0x08;
pub const KEY_R: u16 = 0x15;
pub const KEY_T: u16 = 0x17;
pub const KEY_Y: u16 = 0x1C;
pub const KEY_U: u16 = 0x18;
pub const KEY_I: u16 = 0x0C;

// MIDI note numbers of the C major scale from middle C.
pub const C4: u8 = 60;
pub const D4: u8 = 62;
pub const E4: u8 = 64;
pub const F4: u8 = 65;
pub const G4: u8 = 67;
pub const A4: u8 = 69;
pub const B4: u8 = 71;
pub const C5: u8 = 72;

/// Immutable mapping from `Key` to `Note`, unique key per entry. Built
/// once at session start; the engine tracks exactly the keys listed here.
#[derive(Clone, Debug, PartialEq)]
pub struct KeyMap {
    pub entries: Vec<(Key, Note)>,
}

/// The note of the first entry of `s` carrying key `k`, if any. Under the
/// keymap's uniqueness invariant this is the note of the one entry for `k`.
pub open spec fn spec_first_note(s: Seq<(Key, Note)>, k: Key) -> Option<Note>
    decreases s.len(),
{
    if s.len() == 0 {
        None
    } else if s[0].0 == k {
        Some(s[0].1)
    } else {
        spec_first_note(s.drop_first(), k)
    }
}

/// The note of the last entry of `s` carrying key `k`, if any: the
/// last-write-wins reading of a raw entry list.
pub open spec fn spec_last_note(s: Seq<(Key, Note)>, k: Key) -> Option<Note>
    decreases s.len(),
{
    if s.len() == 0 {
        None
    } else if s.last().0 == k {
        Some(s.last().1)
    } else {
        spec_last_note(s.drop_last(), k)
    }
}

/// How many entries of `s` repeat a key already seen earlier in `s`; each
/// such entry overwrites its predecessor and is reported as a diagnostic.
pub open spec fn spec_dup_count(s: Seq<(Key, Note)>) -> nat
    decreases s.len(),
{
    if s.len() == 0 {
        0
    } else {
        spec_dup_count(s.drop_last()) + if spec_last_note(s.drop_last(), s.last().0) is Some {
            1nat
        } else {
            0nat
        }
    }
}

impl KeyMap {
    /// Keys are unique and every note is a valid MIDI pitch.
    pub open spec fn wf(self) -> bool {
        &&& forall|i: int, j: int|
            0 <= i < j < self.entries@.len() ==> (#[trigger] self.entries@[i]).0 != (
            #[trigger] self.entries@[j]).0
        &&& forall|i: int| 0 <= i < self.entries@.len() ==> (#[trigger] self.entries@[i]).1.0 <= 127
    }

    /// The mapping this keymap denotes.
    pub open spec fn spec_resolve(self, k: Key) -> Option<Note> {
        spec_first_note(self.entries@, k)
    }

    /// Looks a key up; `None` for keys the map does not list.
    pub fn resolve(&self, k: Key) -> (r: Option<Note>)
        ensures
            r == self.spec_resolve(k),
    {
        proof {
            assert(self.entries@.skip(0) =~= self.entries@);
        }
        let mut i: usize = 0;
        while i < self.entries.len()
            invariant
                i <= self.entries@.len(),
                spec_first_note(self.entries@, k) == spec_first_note(
                    self.entries@.skip(i as int),
                    k,
                ),
            decreases self.entries@.len() - i,
        {
            proof {
                assert(self.entries@.skip(i as int).drop_first() =~= self.entries@.skip(
                    i as int + 1,
                ));
            }
            if self.entries[i].0 == k {
                return Some(self.entries[i].1);
            }
            i += 1;
        }
        None
    }

    /// Builds a keymap from a raw entry list. A key listed twice is
    /// resolved last-write-wins; the number of overwritten entries comes
    /// back as a diagnostic alongside the map.
    pub fn from_entries(pairs: Vec<(Key, Note)>) -> (r: (KeyMap, usize))
        requires
            forall|i: int| 0 <= i < pairs@.len() ==> (#[trigger] pairs@[i]).1.0 <= 127,
        ensures
            r.0.wf(),
            forall|k: Key| r.0.spec_resolve(k) == spec_last_note(pairs@, k),
            r.1 == spec_dup_count(pairs@),
    {
        let mut m = KeyMap { entries: Vec::new() };
        let mut dups: usize = 0;
        let mut i: usize = 0;
        while i < pairs.len()
            invariant
                i <= pairs@.len(),
                m.wf(),
                forall|i2: int| 0 <= i2 < pairs@.len() ==> (#[trigger] pairs@[i2]).1.0 <= 127,
                forall|k: Key| #[trigger] spec_first_note(m.entries@, k) == spec_last_note(
                    pairs@.take(i as int),
                    k,
                ),
                dups == spec_dup_count(pairs@.take(i as int)),
                dups <= i,
            decreases pairs@.len() - i,
        {
            let (key, note) = pairs[i];
            proof {
                assert(pairs@.take(i as int + 1).drop_last() =~= pairs@.take(i as int));
                assert(pairs@.take(i as int + 1).last() == pairs@[i as int]);
            }
            let ghost prefix = pairs@.take(i as int);
            match find_key(&m.entries, key) {
                Some(idx) => {
                    proof {
                        lemma_first_note_present(m.entries@, idx as int, key);
                        assert(spec_first_note(m.entries@, key) is Some);
                        assert(spec_last_note(prefix, key) is Some);
                        lemma_first_note_update(m.entries@, idx as int, (key, note));
                    }
                    let ghost old_entries = m.entries@;
                    m.entries[idx] = (key, note);
                    dups += 1;
                    proof {
                        assert(m.entries@ == old_entries.update(idx as int, (key, note)));
                        assert forall|k: Key|
                            #[trigger] spec_first_note(m.entries@, k) == spec_last_note(
                                pairs@.take(i as int + 1),
                                k,
                            ) by {
                            assert(spec_first_note(old_entries, k) == spec_last_note(prefix, k));
                            assert(spec_first_note(old_entries.update(idx as int, (key, note)), k)
                                == if k == key {
                                Some(note)
                            } else {
                                spec_first_note(old_entries, k)
                            });
                            assert(spec_last_note(pairs@.take(i as int + 1), k) == if k == key {
                                Some(note)
                            } else {
                                spec_last_note(prefix, k)
                            });
                        }
                    }
                },
                None => {
                    proof {
                        lemma_first_note_absent(m.entries@, key);
                        assert(spec_first_note(m.entries@, key) is None);
                        assert(spec_last_note(prefix, key) is None);
                        lemma_first_note_push(m.entries@, (key, note));
                    }
                    let ghost old_entries = m.entries@;
                    m.entries.push((key, note));
                    proof {
                        assert(m.entries@ == old_entries.push((key, note)));
                        assert forall|k: Key|
                            #[trigger] spec_first_note(m.entries@, k) == spec_last_note(
                                pairs@.take(i as int + 1),
                                k,
                            ) by {
                            assert(spec_first_note(old_entries, k) == spec_last_note(prefix, k));
                            assert(spec_first_note(old_entries.push((key, note)), k) == if k == key {
                                Some(note)
                            } else {
                                spec_first_note(old_entries, k)
                            });
                            assert(spec_last_note(pairs@.take(i as int + 1), k) == if k == key {
                                Some(note)
                            } else {
                                spec_last_note(prefix, k)
                            });
                        }
                    }
                },
            }
            i += 1;
        }
        proof {
            assert(pairs@.take(pairs@.len() as int) =~= pairs@);
            assert forall|k: Key| m.spec_resolve(k) == spec_last_note(pairs@, k) by {
                assert(spec_first_note(m.entries@, k) == spec_last_note(
                    pairs@.take(pairs@.len() as int),
                    k,
                ));
            }
        }
        (m, dups)
    }
}

/// Index of the entry carrying key `k`, if one exists.
fn find_key(entries: &Vec<(Key, Note)>, k: Key) -> (r: Option<usize>)
    ensures
        match r {
            Some(idx) => idx < entries@.len() && entries@[idx as int].0 == k,
            None => forall|j: int| 0 <= j < entries@.len() ==> (#[trigger] entries@[j]).0 != k,
        },
{
    let mut i: usize = 0;
    while i < entries.len()
        invariant
            i <= entries@.len(),
            forall|j: int| 0 <= j < i ==> (#[trigger] entries@[j]).0 != k,
        decreases entries@.len() - i,
    {
        if entries[i].0 == k {
            return Some(i);
        }
        i += 1;
    }
    None
}

/// When an entry list has no entry for `k`, `spec_first_note` reads `None`.
proof fn lemma_first_note_absent(s: Seq<(Key, Note)>, k: Key)
    requires
        forall|j: int| 0 <= j < s.len() ==> (#[trigger] s[j]).0 != k,
    ensures
        spec_first_note(s, k) is None,
    decreases s.len(),
{
    if s.len() > 0 {
        lemma_first_note_absent(s.drop_first(), k);
    }
}

/// An entry list with an entry for `k` never reads `None` at `k`.
proof fn lemma_first_note_present(s: Seq<(Key, Note)>, idx: int, k: Key)
    requires
        0 <= idx < s.len(),
        s[idx].0 == k,
    ensures
        spec_first_note(s, k) is Some,
    decreases s.len(),
{
    if s[0].0 != k {
        assert(s.drop_first()[idx - 1] == s[idx]);
        lemma_first_note_present(s.drop_first(), idx - 1, k);
    }
}

/// Overwriting the unique entry for a key changes only that key's reading.
proof fn lemma_first_note_update(s: Seq<(Key, Note)>, idx: int, p: (Key, Note))
    requires
        0 <= idx < s.len(),
        s[idx].0 == p.0,
        forall|i: int, j: int| 0 <= i < j < s.len() ==> (#[trigger] s[i]).0 != (#[trigger] s[j]).0,
    ensures
        forall|k: Key|
            #[trigger] spec_first_note(s.update(idx, p), k) == if k == p.0 {
                Some(p.1)
            } else {
                spec_first_note(s, k)
            },
    decreases s.len(),
{
    let s2 = s.update(idx, p);
    if idx == 0 {
        assert(s2[0] == p);
        assert(s2.drop_first() =~= s.drop_first());
        assert forall|k: Key| #[trigger] spec_first_note(s2, k) == if k == p.0 {
            Some(p.1)
        } else {
            spec_first_note(s, k)
        } by {
            if k != p.0 {
                assert(s[0].0 == p.0);
                assert(spec_first_note(s2, k) == spec_first_note(s2.drop_first(), k));
                assert(spec_first_note(s, k) == spec_first_note(s.drop_first(), k));
            }
        }
    } else {
        assert(s2.drop_first() =~= s.drop_first().update(idx - 1, p));
        assert(s.drop_first()[idx - 1] == s[idx]);
        assert forall|i: int, j: int| 0 <= i < j < s.drop_first().len() implies (
        #[trigger] s.drop_first()[i]).0 != (#[trigger] s.drop_first()[j]).0 by {
            assert(s.drop_first()[i] == s[i + 1]);
            assert(s.drop_first()[j] == s[j + 1]);
        }
        lemma_first_note_update(s.drop_first(), idx - 1, p);
        assert(s2[0] == s[0]);
        assert(s[0].0 != p.0) by {
            assert(s[0].0 != s[idx].0);
        }
        assert forall|k: Key| #[trigger] spec_first_note(s2, k) == if k == p.0 {
            Some(p.1)
        } else {
            spec_first_note(s, k)
        } by {
            if s2[0].0 == k {
            } else {
                assert(spec_first_note(s2, k) == spec_first_note(s2.drop_first(), k));
                assert(spec_first_note(s2.drop_first(), k) == spec_first_note(
                    s.drop_first().update(idx - 1, p),
                    k,
                ));
            }
        }
    }
}

/// Appending an entry for a fresh key changes only that key's reading.
proof fn lemma_first_note_push(s: Seq<(Key, Note)>, p: (Key, Note))
    requires
        forall|j: int| 0 <= j < s.len() ==> (#[trigger] s[j]).0 != p.0,
    ensures
        forall|k: Key|
            #[trigger] spec_first_note(s.push(p), k) == if k == p.0 {
                Some(p.1)
            } else {
                spec_first_note(s, k)
            },
    decreases s.len(),
{
    let s2 = s.push(p);
    if s.len() == 0 {
        assert(s2[0] == p);
        assert(s2.drop_first() =~= Seq::<(Key, Note)>::empty());
        assert forall|k: Key| #[trigger] spec_first_note(s2, k) == if k == p.0 {
            Some(p.1)
        } else {
            spec_first_note(s, k)
        } by {
            if k != p.0 {
                assert(spec_first_note(s2, k) == spec_first_note(s2.drop_first(), k));
            }
        }
    } else {
        assert(s2.drop_first() =~= s.drop_first().push(p));
        assert forall|j: int| 0 <= j < s.drop_first().len() implies (
        #[trigger] s.drop_first()[j]).0 != p.0 by {
            assert(s.drop_first()[j] == s[j + 1]);
        }
        lemma_first_note_push(s.drop_first(), p);
        assert(s2[0] == s[0]);
        assert(s[0].0 != p.0);
        assert forall|k: Key| #[trigger] spec_first_note(s2, k) == if k == p.0 {
            Some(p.1)
        } else {
            spec_first_note(s, k)
        } by {
            if s[0].0 == k {
            } else {
                assert(spec_first_note(s2, k) == spec_first_note(s2.drop_first(), k));
                assert(spec_first_note(s2.drop_first(), k) == spec_first_note(
                    s.drop_first().push(p),
                    k,
                ));
            }
        }
    }
}

/// The default session map: the QWERTY home row onto the C major scale
/// from middle C.
pub fn make_keymap() -> (m: KeyMap)
    ensures
        m.wf(),
        m.entries@ == seq![
            (Key(KEY_Q), Note(C4)),
            (Key(KEY_W), Note(D4)),
            (Key(KEY_E), Note(E4)),
            (Key(KEY_R), Note(F4)),
            (Key(KEY_T), Note(G4)),
            (Key(KEY_Y), Note(A4)),
            (Key(KEY_U), Note(B4)),
            (Key(KEY_I), Note(C5)),
        ],
{
    let mut entries: Vec<(Key, Note)> = Vec::new();
    entries.push((Key(KEY_Q), Note(C4)));
    entries.push((Key(KEY_W), Note(D4)));
    entries.push((Key(KEY_E), Note(E4)));
    entries.push((Key(KEY_R), Note(F4)));
    entries.push((Key(KEY_T), Note(G4)));
    entries.push((Key(KEY_Y), Note(A4)));
    entries.push((Key(KEY_U), Note(B4)));
    entries.push((Key(KEY_I), Note(C5)));
    let m = KeyMap { entries };
    proof {
        assert(m.entries@ =~= seq![
            (Key(KEY_Q), Note(C4)),
            (Key(KEY_W), Note(D4)),
            (Key(KEY_E), Note(E4)),
            (Key(KEY_R), Note(F4)),
            (Key(KEY_T), Note(G4)),
            (Key(KEY_Y), Note(A4)),
            (Key(KEY_U), Note(B4)),
            (Key(KEY_I), Note(C5)),
        ]);
    }
    m
}

} // verus!
