//! The per-key state machine end to end: onset, sustain, early release,
//! debounce, shutdown flush, and the engine-wide guarantees on concrete
//! streams.

use analog_midi::{make_keymap, EngineConfig, Key, KeyMap, Note, NoteEvent, Tracker};

fn config() -> EngineConfig {
    EngineConfig::default()
}

fn q() -> Key {
    Key(0x14)
}

fn c4() -> Note {
    Note(60)
}

#[test]
fn scenario_onset_then_sustain() {
    // Samples (0.0, t=0), (0.15, t=2), (0.55, t=6): onset crossed at t=2,
    // sustain crossed at t=6; one NoteOn at t=6 with velocity from the
    // slope (0.55 - 0.0) / (6 - 0) scaled by k.
    let mut tr = Tracker::new(&make_keymap(), config());
    assert_eq!(tr.advance(&vec![(q(), 0)], 0), vec![]);
    assert_eq!(tr.advance(&vec![(q(), 150)], 2), vec![]);
    assert_eq!(
        tr.advance(&vec![(q(), 550)], 6),
        vec![NoteEvent::NoteOn { note: c4(), velocity: 116, time: 6 }]
    );
}

#[test]
fn scenario_release_after_sustain() {
    // After the press above, (0.40, t=10) keeps the note sounding and
    // (0.02, t=14) falls below the release threshold: one NoteOff at t=14.
    let mut tr = Tracker::new(&make_keymap(), config());
    tr.advance(&vec![(q(), 0)], 0);
    tr.advance(&vec![(q(), 150)], 2);
    tr.advance(&vec![(q(), 550)], 6);
    assert_eq!(tr.advance(&vec![(q(), 400)], 10), vec![]);
    assert_eq!(
        tr.advance(&vec![(q(), 20)], 14),
        vec![NoteEvent::NoteOff { note: c4(), time: 14 }]
    );
}

#[test]
fn scenario_early_release_still_fires() {
    // Pressed to 0.30 then released before ever reaching the sustain
    // threshold: the reversal at t=5 fires the NoteOn over the partial
    // window [0.0, 0.30] stamped with the peak time t=3, and the drop
    // below the release threshold emits the NoteOff at t=5.
    let mut tr = Tracker::new(&make_keymap(), config());
    assert_eq!(tr.advance(&vec![(q(), 0)], 0), vec![]);
    assert_eq!(tr.advance(&vec![(q(), 300)], 3), vec![]);
    assert_eq!(
        tr.advance(&vec![(q(), 40)], 5),
        vec![
            NoteEvent::NoteOn { note: c4(), velocity: 127, time: 3 },
            NoteEvent::NoteOff { note: c4(), time: 5 },
        ]
    );
}

#[test]
fn debounce_suppresses_fast_retrigger() {
    // A NoteOff at t=100 followed by a full crossing at t=102 (dwell
    // 2 ms < 5 ms) is discarded; the same crossing at t=106 retriggers.
    let mut tr = Tracker::new(&make_keymap(), config());
    tr.advance(&vec![(q(), 0)], 0);
    assert_eq!(
        tr.advance(&vec![(q(), 600)], 1),
        vec![NoteEvent::NoteOn { note: c4(), velocity: 127, time: 1 }]
    );
    assert_eq!(
        tr.advance(&vec![(q(), 0)], 100),
        vec![NoteEvent::NoteOff { note: c4(), time: 100 }]
    );
    assert_eq!(tr.advance(&vec![(q(), 600)], 102), vec![]);
    let retrig = tr.advance(&vec![(q(), 600)], 106);
    assert_eq!(retrig.len(), 1);
    match retrig[0] {
        NoteEvent::NoteOn { note, velocity, time } => {
            assert_eq!(note, c4());
            assert_eq!(time, 106);
            assert!((1..=127).contains(&velocity));
        }
        _ => panic!("expected a NoteOn after the dwell elapsed"),
    }
}

#[test]
fn direct_jump_uses_two_point_window() {
    // A value that jumps from below onset straight past sustain between
    // two ticks fires within that one call, over the degenerate
    // two-sample window.
    let mut tr = Tracker::new(&make_keymap(), config());
    tr.advance(&vec![(q(), 0)], 0);
    assert_eq!(
        tr.advance(&vec![(q(), 1000)], 1),
        vec![NoteEvent::NoteOn { note: c4(), velocity: 127, time: 1 }]
    );
}

#[test]
fn unmapped_key_never_produces_events() {
    // 0x04 (the A key) is not in the default map: whatever it reports,
    // nothing is emitted and mapped keys behave as if it were absent.
    let mut tr1 = Tracker::new(&make_keymap(), config());
    let mut tr2 = Tracker::new(&make_keymap(), config());
    let stray = Key(0x04);
    for (t, v) in [(0u64, 0u32), (2, 700), (4, 0), (6, 1200), (8, 30)] {
        let with_stray = tr1.advance(&vec![(stray, v), (q(), v / 2)], t);
        let without = tr2.advance(&vec![(q(), v / 2)], t);
        assert_eq!(with_stray, without);
        for ev in &with_stray {
            let note = match ev {
                NoteEvent::NoteOn { note, .. } => note,
                NoteEvent::NoteOff { note, .. } => note,
            };
            assert_eq!(*note, c4());
        }
    }
}

#[test]
fn replay_identical_stream_is_identical() {
    // The engine is deterministic: the same recorded stream through two
    // freshly initialized engines gives the same event sequence.
    let stream: Vec<(u64, u32)> = (0..120u64)
        .map(|t| (t, (((t * 97) % 1250) as u32).saturating_sub(3)))
        .collect();
    let mut tr1 = Tracker::new(&make_keymap(), config());
    let mut tr2 = Tracker::new(&make_keymap(), config());
    let mut out1 = Vec::new();
    let mut out2 = Vec::new();
    for &(t, v) in &stream {
        out1.extend(tr1.advance(&vec![(q(), v)], t));
    }
    for &(t, v) in &stream {
        out2.extend(tr2.advance(&vec![(q(), v)], t));
    }
    assert_eq!(out1, out2);
    assert!(!out1.is_empty());
}

#[test]
fn noisy_streams_never_double_off() {
    // Arbitrary noisy streams over two keys: per note, NoteOn and
    // NoteOff must strictly alternate, and every velocity is in [1, 127].
    let (map, _) = KeyMap::from_entries(vec![(Key(1), Note(60)), (Key(2), Note(61))]);
    let mut tr = Tracker::new(&map, config());
    let mut state = 0x2545F491u64;
    let mut events = Vec::new();
    for t in 0..400u64 {
        // Small linear congruential generator for reproducible noise.
        state = state.wrapping_mul(6364136223846793005).wrapping_add(1442695040888963407);
        let v1 = ((state >> 33) % 1400) as u32;
        let v2 = ((state >> 17) % 1400) as u32;
        events.extend(tr.advance(&vec![(Key(1), v1), (Key(2), v2)], t * 3));
    }
    let mut active = [false, false];
    for ev in &events {
        match ev {
            NoteEvent::NoteOn { note, velocity, .. } => {
                let lane = (note.0 - 60) as usize;
                assert!(!active[lane], "re-entrant NoteOn");
                assert!((1..=127).contains(velocity));
                active[lane] = true;
            }
            NoteEvent::NoteOff { note, .. } => {
                let lane = (note.0 - 60) as usize;
                assert!(active[lane], "NoteOff without a sounding note");
                active[lane] = false;
            }
        }
    }
    assert!(!events.is_empty());
}

#[test]
fn flush_silences_sounding_notes() {
    let (map, _) = KeyMap::from_entries(vec![(Key(1), Note(60)), (Key(2), Note(61))]);
    let mut tr = Tracker::new(&map, config());
    tr.advance(&vec![(Key(1), 0), (Key(2), 0)], 0);
    tr.advance(&vec![(Key(1), 800), (Key(2), 30)], 1);
    assert_eq!(
        tr.flush(50),
        vec![NoteEvent::NoteOff { note: Note(60), time: 50 }]
    );
    // Nothing sounds any more: a second flush owes nothing.
    assert_eq!(tr.flush(60), vec![]);
}

#[test]
fn oversized_values_are_clamped() {
    // A malformed sampler value far out of range is clamped before use
    // and still fires a legal velocity.
    let mut tr = Tracker::new(&make_keymap(), config());
    tr.advance(&vec![(q(), 0)], 0);
    let events = tr.advance(&vec![(q(), u32::MAX)], 1);
    assert_eq!(
        events,
        vec![NoteEvent::NoteOn { note: c4(), velocity: 127, time: 1 }]
    );
}

#[test]
fn long_attack_ring_buffer_stays_bounded() {
    // More rising samples than the window bound, then the sustain
    // crossing: the engine still fires exactly one legal NoteOn.
    let mut tr = Tracker::new(&make_keymap(), config());
    let mut events = Vec::new();
    events.extend(tr.advance(&vec![(q(), 0)], 0));
    for t in 0..100u64 {
        events.extend(tr.advance(&vec![(q(), 110 + (t as u32) * 2)], t + 1));
    }
    events.extend(tr.advance(&vec![(q(), 900)], 101));
    assert_eq!(events.len(), 1);
    match events[0] {
        NoteEvent::NoteOn { note, velocity, time } => {
            assert_eq!(note, c4());
            assert_eq!(time, 101);
            assert!((1..=127).contains(&velocity));
        }
        _ => panic!("expected exactly one NoteOn"),
    }
}

#[test]
fn empty_snapshot_releases_held_note() {
    // A key absent from the snapshot reads as zero pressure, so a held
    // note is released.
    let mut tr = Tracker::new(&make_keymap(), config());
    tr.advance(&vec![(q(), 0)], 0);
    tr.advance(&vec![(q(), 900)], 1);
    assert_eq!(
        tr.advance(&vec![], 10),
        vec![NoteEvent::NoteOff { note: c4(), time: 10 }]
    );
}
