//! MIDI byte encoding, the sink staging queue, and device-name
//! truncation.

use analog_midi::{encode_event, truncate_at_nul, Note, NoteEvent, SinkQueue, VirtualMidiError};

#[test]
fn note_on_encodes_as_9n() {
    let ev = NoteEvent::NoteOn { note: Note(60), velocity: 100, time: 5 };
    assert_eq!(encode_event(&ev, 0), vec![0x90, 60, 100]);
    assert_eq!(encode_event(&ev, 3), vec![0x93, 60, 100]);
}

#[test]
fn note_off_encodes_as_8n_with_zero_velocity() {
    let ev = NoteEvent::NoteOff { note: Note(72), time: 9 };
    assert_eq!(encode_event(&ev, 0), vec![0x80, 72, 0]);
    assert_eq!(encode_event(&ev, 15), vec![0x8F, 72, 0]);
}

#[test]
fn queue_preserves_order() {
    let mut q = SinkQueue::new(4);
    let on = NoteEvent::NoteOn { note: Note(60), velocity: 10, time: 1 };
    let off = NoteEvent::NoteOff { note: Note(60), time: 2 };
    q.push(on);
    q.push(off);
    assert_eq!(q.pop(), Some(on));
    assert_eq!(q.pop(), Some(off));
    assert_eq!(q.pop(), None);
    assert_eq!(q.dropped, 0);
}

#[test]
fn queue_overflow_drops_oldest() {
    let mut q = SinkQueue::new(2);
    let e1 = NoteEvent::NoteOn { note: Note(60), velocity: 1, time: 1 };
    let e2 = NoteEvent::NoteOn { note: Note(61), velocity: 2, time: 2 };
    let e3 = NoteEvent::NoteOn { note: Note(62), velocity: 3, time: 3 };
    q.push(e1);
    q.push(e2);
    q.push(e3);
    assert_eq!(q.dropped, 1);
    assert_eq!(q.pop(), Some(e2));
    assert_eq!(q.pop(), Some(e3));
    assert_eq!(q.pop(), None);
}

#[test]
fn failed_send_is_counted_not_fatal() {
    let mut q = SinkQueue::new(4);
    q.record_send_result(&Ok(()));
    assert_eq!(q.dropped, 0);
    q.record_send_result(&Err(VirtualMidiError(5)));
    assert_eq!(q.dropped, 1);
    q.record_send_result(&Err(VirtualMidiError(87)));
    assert_eq!(q.dropped, 2);
    q.record_send_result(&Ok(()));
    assert_eq!(q.dropped, 2);
}

#[test]
fn device_name_stops_at_first_nul() {
    let buf: Vec<u16> = vec![0x48, 0x69, 0, 0x58, 0];
    assert_eq!(truncate_at_nul(&buf), vec![0x48, 0x69]);
    assert_eq!(String::from_utf16_lossy(&truncate_at_nul(&buf)), "Hi");
}

#[test]
fn device_name_without_nul_is_whole_buffer() {
    let buf: Vec<u16> = vec![0x41, 0x42, 0x43];
    assert_eq!(truncate_at_nul(&buf), vec![0x41, 0x42, 0x43]);
}

#[test]
fn device_name_with_leading_nul_is_empty() {
    let buf: Vec<u16> = vec![0, 0x41];
    assert_eq!(truncate_at_nul(&buf), Vec::<u16>::new());
    assert_eq!(truncate_at_nul(&Vec::new()), Vec::<u16>::new());
}
