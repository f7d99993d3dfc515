//! Note events and their MIDI wire encoding.

use vstd::prelude::*;
use crate::keymap::Note;

verus! {

/// A discrete note event produced by the engine. Velocity is the MIDI
/// Note-On intensity in [1, 127]; timestamps are engine tick times in
/// milliseconds.
#[derive(Clone, Copy, Debug, PartialEq, Eq, Structural)]
pub enum NoteEvent {
    NoteOn { note: Note, velocity: u8, time: u64 },
    NoteOff { note: Note, time: u64 },
}

impl NoteEvent {
    /// The note the event is about.
    pub open spec fn spec_note(self) -> Note {
        match self {
            NoteEvent::NoteOn { note, .. } => note,
            NoteEvent::NoteOff { note, .. } => note,
        }
    }

    /// Whether the event starts a note.
    pub open spec fn is_on(self) -> bool {
        self is NoteOn
    }
}

/// `evs` is a legal event stream for one key whose note is active
/// (sounding) at the start exactly when `active0` holds: Note-On and
/// Note-Off strictly alternate, a Note-On comes only while the note is
/// silent and a Note-Off only while it sounds.
pub open spec fn alternates(evs: Seq<NoteEvent>, active0: bool) -> bool
    decreases evs.len(),
{
    if evs.len() == 0 {
        true
    } else if evs[0].is_on() {
        !active0 && alternates(evs.drop_first(), true)
    } else {
        active0 && alternates(evs.drop_first(), false)
    }
}

/// Whether the key's note sounds after `evs`, starting from `active0`:
/// the last event decides, or nothing changes.
pub open spec fn active_after(evs: Seq<NoteEvent>, active0: bool) -> bool {
    if evs.len() == 0 {
        active0
    } else {
        evs.last().is_on()
    }
}

/// A legal event stream followed by a legal continuation is legal, and
/// the activity it leaves behind is the continuation's.
pub proof fn lemma_alternates_concat(a: Seq<NoteEvent>, b: Seq<NoteEvent>, active0: bool)
    requires
        alternates(a, active0),
        alternates(b, active_after(a, active0)),
    ensures
        alternates(a + b, active0),
        active_after(a + b, active0) == active_after(b, active_after(a, active0)),
    decreases a.len(),
{
    if a.len() == 0 {
        assert(a + b =~= b);
    } else {
        assert((a + b).drop_first() =~= a.drop_first() + b);
        assert(active_after(a.drop_first(), a[0].is_on()) == active_after(a, active0));
        lemma_alternates_concat(a.drop_first(), b, a[0].is_on());
        if (a + b).len() > 0 {
            assert((a + b)[0] == a[0]);
        }
        if b.len() == 0 {
            assert(a + b =~= a);
        } else {
            assert((a + b).last() == b.last());
        }
    }
}

/// MIDI status byte of a Note-On for channel `channel`.
pub const NOTE_ON_STATUS: u8 = 0x90;

/// MIDI status byte of a Note-Off for channel `channel`.
pub const NOTE_OFF_STATUS: u8 = 0x80;

/// Encodes an event as the three MIDI bytes written to the sink:
/// Note-On is `0x9n, note, velocity`, Note-Off is `0x8n, note, 0`,
/// with `n` the session's channel.
pub fn encode_event(ev: &NoteEvent, channel: u8) -> (b: Vec<u8>)
    requires
        channel < 16,
        ev.spec_note().0 < 128,
        ev matches NoteEvent::NoteOn { velocity, .. } ==> velocity < 128,
    ensures
        b@.len() == 3,
        b@[1] == ev.spec_note().0,
        ev matches NoteEvent::NoteOn { velocity, .. } ==> b@[0] == NOTE_ON_STATUS + channel
            && b@[2] == velocity,
        ev matches NoteEvent::NoteOff { .. } ==> b@[0] == NOTE_OFF_STATUS + channel && b@[2] == 0,
{
    let mut b: Vec<u8> = Vec::new();
    match ev {
        NoteEvent::NoteOn { note, velocity, .. } => {
            b.push(NOTE_ON_STATUS + channel);
            b.push(note.0);
            b.push(*velocity);
        },
        NoteEvent::NoteOff { note, .. } => {
            b.push(NOTE_OFF_STATUS + channel);
            b.push(note.0);
            b.push(0);
        },
    }
    b
}

} // verus!
