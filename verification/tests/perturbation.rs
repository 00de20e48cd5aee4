use crystallized_time::perturbation::{note_on_site, RawMidiMessage};

fn raw(status: u8, data1: u8, data2: u8) -> RawMidiMessage {
    RawMidiMessage { status, data1, data2 }
}

const BASE: u8 = 60;

#[test]
fn note_on_at_base_note_targets_site_zero() {
    let site = note_on_site(raw(0x90, 60, 100), BASE, 8).unwrap();
    assert_eq!(site, 0);
}

#[test]
fn higher_notes_walk_up_the_chain() {
    assert_eq!(note_on_site(raw(0x90, 61, 100), BASE, 8).unwrap(), 1);
    assert_eq!(note_on_site(raw(0x90, 67, 100), BASE, 8).unwrap(), 7);
}

#[test]
fn note_above_chain_wraps() {
    // 68 - 60 = 8, mod 8 = 0
    assert_eq!(note_on_site(raw(0x90, 68, 100), BASE, 8).unwrap(), 0);
}

#[test]
fn note_below_base_wraps_with_rem_euclid() {
    // 58 - 60 = -2, rem_euclid 8 = 6
    assert_eq!(note_on_site(raw(0x90, 58, 100), BASE, 8).unwrap(), 6);
}

#[test]
fn note_off_is_dropped() {
    assert!(note_on_site(raw(0x80, 60, 100), BASE, 8).is_none());
}

#[test]
fn velocity_zero_note_on_is_dropped() {
    assert!(note_on_site(raw(0x90, 60, 0), BASE, 8).is_none());
}

#[test]
fn control_change_is_dropped() {
    assert!(note_on_site(raw(0xB0, 1, 64), BASE, 8).is_none());
}

// --- Further cases ---------------------------------------------------------

#[test]
fn any_channel_note_on_counts() {
    assert_eq!(note_on_site(raw(0x9F, 62, 1), BASE, 8), Some(2));
    assert_eq!(note_on_site(raw(0x93, 0, 1), BASE, 8), Some(4)); // -60 mod 8 = 4
    assert_eq!(note_on_site(raw(0x90, 0, 1), 0, 1), Some(0));
    assert_eq!(note_on_site(raw(0x90, 52, 1), BASE, 8), Some(0)); // -8 mod 8 = 0
}

#[test]
fn empty_chain_takes_no_perturbation() {
    assert_eq!(note_on_site(raw(0x90, 60, 100), BASE, 0), None);
}

#[test]
fn short_messages_are_dropped() {
    assert_eq!(RawMidiMessage::from_bytes(&[0x90, 60]), None);
    assert_eq!(
        RawMidiMessage::from_bytes(&[0x90, 60, 100, 7]),
        Some(raw(0x90, 60, 100))
    );
}
