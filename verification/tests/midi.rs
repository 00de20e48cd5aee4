use crystallized_time::config::MidiConfig;
use crystallized_time::midi::{
    control_change_bytes, note_off_bytes, note_on_bytes, DelayedNoteOff, MidiOutputState,
};
use crystallized_time::scheduler::NoteOffQueue;

fn output() -> MidiOutputState {
    MidiOutputState::new(MidiConfig {
        voice_channels: vec![0, 0, 3, 20],
        voice_pitches: vec![48, 52, 55, 59],
        gate_length_ms: 50,
    })
}

#[test]
fn channel_message_bytes() {
    assert_eq!(note_on_bytes(0, 60, 100), Some([0x90, 60, 100]));
    assert_eq!(note_on_bytes(15, 200, 255), Some([0x9F, 72, 127]));
    assert_eq!(note_off_bytes(4, 36), Some([0x84, 36, 0]));
    assert_eq!(control_change_bytes(9, 1, 64), Some([0xB9, 1, 64]));
    assert_eq!(note_on_bytes(16, 60, 100), None);
    assert_eq!(note_off_bytes(16, 60), None);
    assert_eq!(control_change_bytes(200, 1, 1), None);
}

#[test]
fn gate_sends_note_on_then_schedules_note_off() {
    let mut out = output();
    let g = out.gate(2, 90).unwrap();
    assert_eq!(g.now, vec![[0x93, 55, 90]]);
    assert_eq!(g.later, DelayedNoteOff::Gate { channel: 3, pitch: 55 });
    assert_eq!(out.expire(g.later), Some([0x83, 55, 0]));
    assert_eq!(g.delay_ms, 50);
}

#[test]
fn voices_sharing_a_channel_are_mono() {
    let mut out = output();
    let first = out.gate(0, 100).unwrap();
    assert_eq!(first.now, vec![[0x90, 48, 100]]);
    // voice 1 shares channel 0: the sounding pitch is retired first.
    let second = out.gate(1, 100).unwrap();
    assert_eq!(second.now, vec![[0x80, 48, 0], [0x90, 52, 100]]);
    // A voice on another channel does not interact.
    let third = out.gate(2, 100).unwrap();
    assert_eq!(third.now, vec![[0x93, 55, 100]]);
}

#[test]
fn undefined_or_invalid_voices_send_nothing() {
    let mut out = output();
    assert!(out.gate(3, 100).is_none()); // channel 20
    assert!(out.gate(4, 100).is_none()); // no such voice
    assert!(out.shutdown_messages().is_empty());
}

#[test]
fn shutdown_silences_used_channels_in_order() {
    let mut out = output();
    out.gate(2, 100).unwrap();
    out.control_change(9, 1, 10).unwrap();
    let _ = out.note_off(5, 60); // a note-off does not mark the channel
    out.clock_pulse(0, 48, 25).unwrap();
    assert_eq!(
        out.shutdown_messages(),
        vec![
            [0xB0, 123, 0],
            [0xB0, 120, 0],
            [0xB3, 123, 0],
            [0xB3, 120, 0],
            [0xB9, 123, 0],
            [0xB9, 120, 0],
        ]
    );
}

#[test]
fn clock_pulse_masks_pitch_and_uses_velocity_100() {
    let mut out = output();
    let p = out.clock_pulse(15, 0xC8, 25).unwrap();
    assert_eq!(p.now, vec![[0x9F, 0x48, 100]]);
    assert_eq!(p.later, DelayedNoteOff::Clock { channel: 15, pitch: 0xC8 });
    assert_eq!(out.expire(p.later), Some([0x8F, 0x48, 0]));
    // A clock pulse's note-off is sent however often it is settled.
    assert_eq!(out.expire(p.later), Some([0x8F, 0x48, 0]));
    assert_eq!(p.delay_ms, 25);
    assert!(out.clock_pulse(16, 48, 25).is_none());
}

#[test]
fn direct_note_messages() {
    let mut out = output();
    assert_eq!(out.note_on(7, 60, 96), Some([0x97, 60, 96]));
    assert_eq!(out.note_on(17, 60, 96), None);
    assert_eq!(out.note_off(7, 60), Some([0x87, 60, 0]));
    assert_eq!(out.control_change(7, 123, 0), Some([0xB7, 123, 0]));
    assert_eq!(out.shutdown_messages().len(), 2);
}

#[test]
fn retired_gate_ends_without_a_second_note_off() {
    // Voices 0 and 1 on channel 0, pitches 48 and 52, 50 ms gates; voice 1
    // starts 10 ms after voice 0.
    let mut out = MidiOutputState::new(MidiConfig {
        voice_channels: vec![0, 0],
        voice_pitches: vec![48, 52],
        gate_length_ms: 50,
    });
    let mut queue = NoteOffQueue::new();
    let mut sent: Vec<(u64, [u8; 3])> = Vec::new();

    let a = out.gate(0, 127).unwrap();
    for b in &a.now {
        sent.push((0, *b));
    }
    queue.schedule(a.delay_ms, a.later);
    let b = out.gate(1, 127).unwrap();
    for m in &b.now {
        sent.push((10, *m));
    }
    queue.schedule(10 + b.delay_ms, b.later);

    for t in [50u64, 60] {
        for off in queue.pop_due(t) {
            if let Some(m) = out.expire(off) {
                sent.push((t, m));
            }
        }
    }
    assert_eq!(
        sent,
        vec![(0, [0x90, 48, 127]), (10, [0x80, 48, 0]), (10, [0x90, 52, 127]), (60, [0x80, 52, 0])]
    );
}

#[test]
fn gate_expiry_checks_what_the_channel_sounds() {
    let mut out = output();
    assert_eq!(out.gate_expired(0, 48), None); // nothing sounding yet
    out.gate(0, 100).unwrap();
    assert_eq!(out.gate_expired(0, 52), None); // another pitch
    assert_eq!(out.gate_expired(16, 48), None); // no such channel
    assert_eq!(out.gate_expired(0, 48), Some([0x80, 48, 0]));
    assert_eq!(out.gate_expired(0, 48), None); // already silent
    // After the channel fell silent, a new gate retires nothing.
    assert_eq!(out.gate(1, 100).unwrap().now, vec![[0x90, 52, 100]]);
}
