use crystallized_time::config::WallMidiConfig;
use crystallized_time::midi::MidiCommand;
use crystallized_time::wall_midi::WallVoiceAllocator;

fn pool(channels: Vec<u8>, motion_cc: Option<u8>, repitch: bool) -> WallVoiceAllocator {
    WallVoiceAllocator::new(
        WallMidiConfig {
            channels,
            pitch_low: 36,
            pitch_high: 84,
            motion_cc,
            repitch_on_move: repitch,
        },
        8,
    )
}

fn on(channel: u8, pitch: u8) -> MidiCommand {
    MidiCommand::NoteOn { channel, pitch, velocity: 96 }
}

fn off(channel: u8, pitch: u8) -> MidiCommand {
    MidiCommand::NoteOff { channel, pitch }
}

#[test]
fn walls_take_channels_round_robin() {
    let mut a = pool(vec![4, 5, 6], None, false);
    assert_eq!(a.handle_created(1, 40, 0, 10), (vec![on(4, 40)], Some(4)));
    assert_eq!(a.handle_created(2, 41, 0, 11), (vec![on(5, 41)], Some(5)));
    // Wall 1 dies; the cursor keeps walking, so channel 6 comes next.
    assert_eq!(a.handle_destroyed(1), vec![off(4, 40)]);
    assert_eq!(a.handle_created(3, 42, 0, 12), (vec![on(6, 42)], Some(6)));
    // Then the walk wraps to the freed channel 4.
    assert_eq!(a.handle_created(4, 43, 0, 13), (vec![on(4, 43)], Some(4)));
}

#[test]
fn full_pool_steals_the_oldest_wall() {
    let mut a = pool(vec![4, 5], None, false);
    a.handle_created(1, 40, 0, 10);
    a.handle_created(2, 41, 0, 5);
    // Wall 2 is older (born at tick 5): it yields channel 5.
    assert_eq!(
        a.handle_created(3, 42, 0, 20),
        (vec![off(5, 41), on(5, 42)], Some(5))
    );
    assert!(a.voice(2).is_none());
    assert_eq!(a.voice(3).unwrap().channel, 5);
    assert_eq!(a.voice(1).unwrap().channel, 4);
}

#[test]
fn empty_pool_disables_walls() {
    let mut a = pool(vec![], Some(1), false);
    assert_eq!(a.handle_created(1, 40, 64, 0), (vec![], None));
    assert!(a.handle_destroyed(1).is_empty());
}

#[test]
fn motion_cc_tracks_position() {
    let mut a = pool(vec![7], Some(1), false);
    assert_eq!(
        a.handle_created(9, 50, 64, 0),
        (
            vec![
                MidiCommand::ControlChange { channel: 7, cc_number: 1, value: 64 },
                on(7, 50)
            ],
            Some(7)
        )
    );
    assert_eq!(
        a.handle_moved(9, 55, 80),
        vec![MidiCommand::ControlChange { channel: 7, cc_number: 1, value: 80 }]
    );
    // Unknown walls are ignored.
    assert!(a.handle_moved(10, 55, 80).is_empty());
}

#[test]
fn repitch_on_move_replaces_the_note() {
    let mut a = pool(vec![7], Some(1), true);
    // With repitching the creation sends no CC.
    assert_eq!(a.handle_created(9, 50, 64, 0), (vec![on(7, 50)], Some(7)));
    assert_eq!(a.handle_moved(9, 52, 0), vec![off(7, 50), on(7, 52)]);
    // Same pitch: nothing to do.
    assert!(a.handle_moved(9, 52, 0).is_empty());
    // The destroyed wall is switched off at its current pitch.
    assert_eq!(a.handle_destroyed(9), vec![off(7, 52)]);
}

#[test]
fn rebirth_of_an_active_id_replaces_its_voice() {
    let mut a = pool(vec![1, 2], None, false);
    a.handle_created(5, 40, 0, 0);
    assert_eq!(a.handle_created(5, 41, 0, 1), (vec![on(2, 41)], Some(2)));
    assert_eq!(a.voice(5).unwrap().channel, 2);
    assert_eq!(a.handle_destroyed(5), vec![off(2, 41)]);
    assert!(a.handle_destroyed(5).is_empty());
}

#[test]
fn accessors() {
    let a = pool(vec![3, 4], Some(2), false);
    assert_eq!(a.n_sites(), 8);
    assert_eq!(a.config().channels, vec![3, 4]);
    assert_eq!(a.config().motion_cc, Some(2));
}
