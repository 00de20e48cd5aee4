use crystallized_time::config_file::{
    build_chain_routing, build_clock, build_midi, build_output_sites, build_walls,
    parse_voice_indices, validate_channel_1based, validate_no_duplicates, ChainRouting,
    ChannelClaim, ChannelOwner, ClockSection, GateVoiceEntry, GatesSection, Section,
    ValidationError, WallVoiceEntry, WallsSection,
};

fn gates(voices: &[(&str, GateVoiceEntry)]) -> GatesSection {
    GatesSection {
        gate_length_ms: None,
        voices: voices.iter().map(|(k, v)| (k.to_string(), *v)).collect(),
    }
}

fn walls(voices: &[(&str, u8)]) -> WallsSection {
    WallsSection {
        pitch_low: None,
        pitch_high: None,
        motion_cc: None,
        repitch_on_move: None,
        voices: voices
            .iter()
            .map(|(k, c)| (k.to_string(), WallVoiceEntry::Channel(*c)))
            .collect(),
    }
}

fn clock(channel: u8) -> ClockSection {
    ClockSection {
        channel,
        enabled: None,
        pitch: None,
        gate_length_ms: None,
    }
}

fn load(
    g: &GatesSection,
    w: Option<&WallsSection>,
    c: &ClockSection,
    n_sites: usize,
    seed: Option<u64>,
) -> Result<ChainRouting, ValidationError> {
    build_chain_routing(g, w, c, n_sites, seed)
}

use GateVoiceEntry::{ChannelOnly, Full};

#[test]
fn minimal_config_loads() {
    let g = gates(&[
        ("voice_0", ChannelOnly(1)),
        ("voice_2", ChannelOnly(2)),
        ("voice_4", ChannelOnly(3)),
        ("voice_6", ChannelOnly(4)),
    ]);
    let config = load(&g, None, &clock(16), 8, Some(7)).expect("should parse");
    assert_eq!(config.seed, 7);
    assert_eq!(config.midi.voice_channels, vec![0, 1, 2, 3]);
    assert_eq!(config.output_sites, vec![0, 2, 4, 6]);
    // Clock channel was 16 (1-based) -> 15 (0-based)
    assert_eq!(config.clock.channel, 15);
    // No walls section -> walls disabled, empty channel list
    assert!(!config.walls_enabled);
    assert!(config.wall_midi.channels.is_empty());
}

#[test]
fn gate_voice_full_form_carries_pitch() {
    let g = gates(&[
        ("voice_0", Full { channel: 1, pitch: Some(60) }),
        ("voice_1", ChannelOnly(2)),
    ]);
    let config = load(&g, None, &clock(16), 8, None).expect("should parse");
    assert_eq!(config.midi.voice_pitches[0], 60);
    // voice_1 fell back to the default-pitch table at index 1 (E3, MIDI 52)
    assert_eq!(config.midi.voice_pitches[1], 52);
}

#[test]
fn wall_voices_become_channel_list() {
    let g = gates(&[("voice_0", ChannelOnly(1))]);
    let w = walls(&[("voice_0", 5), ("voice_1", 6), ("voice_2", 7), ("voice_3", 8)]);
    let config = load(&g, Some(&w), &clock(16), 8, None).expect("should parse");
    assert!(config.walls_enabled);
    assert_eq!(config.wall_midi.channels, vec![4, 5, 6, 7]);
}

#[test]
fn duplicate_channel_is_rejected_naming_both() {
    let g = gates(&[("voice_0", ChannelOnly(1))]);
    let w = walls(&[("voice_0", 1)]);
    let err = load(&g, Some(&w), &clock(16), 8, None)
        .err()
        .expect("duplicate channel must fail");
    let msg = err.message();
    assert!(msg.contains("channel 1"));
    assert!(msg.contains("chain_a.gates.voice_0"));
    assert!(msg.contains("chain_a.walls.voice_0"));
}

#[test]
fn out_of_range_channel_is_rejected() {
    let g = gates(&[("voice_0", ChannelOnly(17))]);
    let err = load(&g, None, &clock(16), 8, None)
        .err()
        .expect("channel 17 must fail");
    let msg = err.message();
    assert!(msg.contains("1..=16"));
    assert!(msg.contains("17"));
}

#[test]
fn unknown_voice_key_is_rejected() {
    let g = gates(&[("voixe_0", ChannelOnly(1))]);
    let err = load(&g, None, &clock(16), 8, None).err().expect("typo must fail");
    let msg = err.message();
    assert!(msg.contains("voixe_0"));
}

#[test]
fn no_gate_voices_is_rejected() {
    let g = gates(&[]);
    let err = load(&g, None, &clock(16), 8, None)
        .err()
        .expect("empty gates must fail");
    assert!(err.message().contains("at least one"));
}

#[test]
fn motion_cc_zero_disables() {
    let g = gates(&[("voice_0", ChannelOnly(1))]);
    let mut w = walls(&[("voice_0", 5)]);
    w.motion_cc = Some(0);
    let config = load(&g, Some(&w), &clock(16), 8, None).expect("should parse");
    assert!(config.wall_midi.motion_cc.is_none());
}

#[test]
fn site_index_must_exist() {
    // n_sites = 4 but voice_6 references site 6
    let g = gates(&[("voice_0", ChannelOnly(1)), ("voice_6", ChannelOnly(2))]);
    let err = load(&g, None, &clock(16), 4, None)
        .err()
        .expect("nonexistent site must fail");
    assert!(err.message().contains("doesn't exist"));
}

// --- Further cases ---------------------------------------------------------

#[test]
fn messages_render_exactly() {
    let g = gates(&[("voice_0", ChannelOnly(16))]);
    let err = load(&g, None, &clock(16), 8, None).err().unwrap();
    assert_eq!(
        err.message(),
        "channel 16 is assigned to both chain_a.gates.voice_0 and chain_a.clock"
    );

    let err = load(&gates(&[("voice_0", ChannelOnly(0))]), None, &clock(16), 8, None)
        .err()
        .unwrap();
    assert_eq!(
        err.message(),
        "chain_a.gates.voice_0: channel must be in 1..=16 (got 0)"
    );

    let err = load(&gates(&[("voice_0", ChannelOnly(1))]), None, &clock(0), 8, None)
        .err()
        .unwrap();
    assert_eq!(
        err.message(),
        "chain_a.clock.channel: channel must be in 1..=16 (got 0)"
    );

    let err = load(&gates(&[("voice_x", ChannelOnly(1))]), None, &clock(16), 8, None)
        .err()
        .unwrap();
    assert_eq!(
        err.message(),
        "chain_a.gates: voice key 'voice_x' has non-numeric suffix"
    );

    let err = load(&gates(&[("tone_0", ChannelOnly(1))]), None, &clock(16), 8, None)
        .err()
        .unwrap();
    assert_eq!(
        err.message(),
        "chain_a.gates: unrecognized key 'tone_0' (expected 'voice_N')"
    );

    let err = load(&gates(&[("voice_9", ChannelOnly(1))]), None, &clock(16), 8, None)
        .err()
        .unwrap();
    assert_eq!(
        err.message(),
        "gate voice_9 refers to a site index that doesn't exist (n_sites = 8)"
    );
    assert_eq!(
        ValidationError::NoGateVoices.message(),
        "chain_a.gates must define at least one voice_N"
    );
}

#[test]
fn wall_table_errors() {
    let g = gates(&[("voice_0", ChannelOnly(1))]);
    let mut w = walls(&[("voice_0", 5)]);
    w.motion_cc = Some(128);
    let err = load(&g, Some(&w), &clock(16), 8, None).err().unwrap();
    assert_eq!(
        err.message(),
        "chain_a.walls.motion_cc must be in 0..=127 (got 128)"
    );

    let mut w = walls(&[("voice_0", 5)]);
    w.pitch_high = Some(200);
    let err = load(&g, Some(&w), &clock(16), 8, None).err().unwrap();
    assert_eq!(
        err.message(),
        "chain_a.walls pitch range must be in 0..=127 (got 36..200)"
    );

    let mut w = walls(&[("voice_0", 5)]);
    w.pitch_low = Some(70);
    let err = load(&g, Some(&w), &clock(16), 8, None).err().unwrap();
    assert_eq!(
        err.message(),
        "chain_a.walls pitch_low must be <= pitch_high (got 70 > 60)"
    );

    let w = walls(&[("voice_0", 0)]);
    let err = load(&g, Some(&w), &clock(16), 8, None).err().unwrap();
    assert_eq!(
        err.message(),
        "chain_a.walls.voice_0: channel must be in 1..=16 (got 0)"
    );

    let w = walls(&[("voce_0", 3)]);
    let err = load(&g, Some(&w), &clock(16), 8, None).err().unwrap();
    assert_eq!(
        err.message(),
        "chain_a.walls: unrecognized key 'voce_0' (expected 'voice_N')"
    );
}

#[test]
fn walls_table_without_voices_is_disabled() {
    let g = gates(&[("voice_0", ChannelOnly(1))]);
    let w = walls(&[]);
    let config = load(&g, Some(&w), &clock(16), 8, None).unwrap();
    assert!(!config.walls_enabled);
    assert_eq!(config.wall_midi.motion_cc, Some(1));
    assert_eq!(config.wall_midi.pitch_low, 36);
    assert_eq!(config.wall_midi.pitch_high, 60);
}

#[test]
fn voices_are_ordered_by_index_not_by_key_text() {
    // Key order "voice_10" < "voice_2" as text; voices follow the index.
    let g = gates(&[("voice_10", ChannelOnly(3)), ("voice_2", ChannelOnly(2))]);
    let config = load(&g, None, &clock(16), 16, None).unwrap();
    assert_eq!(config.output_sites, vec![2, 10]);
    assert_eq!(config.midi.voice_channels, vec![1, 2]);
    // voice_2 uses the default pitch of index 2, voice_10 falls back to C3.
    assert_eq!(config.midi.voice_pitches, vec![55, 48]);
}

#[test]
fn voice_index_accepts_leading_plus_and_zeros() {
    let v = vec![
        ("voice_+3".to_string(), 0u8),
        ("voice_007".to_string(), 0u8),
        ("voice_1".to_string(), 0u8),
    ];
    let order = parse_voice_indices(&v, Section::Gates).unwrap();
    assert_eq!(order, vec![(1, 2), (3, 0), (7, 1)]);
    let bad = vec![("voice_".to_string(), 0u8)];
    assert!(matches!(
        parse_voice_indices(&bad, Section::Walls),
        Err(ValidationError::NonNumericSuffix { section: Section::Walls, .. })
    ));
    let minus = vec![("voice_-1".to_string(), 0u8)];
    assert!(parse_voice_indices(&minus, Section::Gates).is_err());
}

#[test]
fn equal_indices_keep_table_order() {
    let v = vec![
        ("voice_01".to_string(), 0u8),
        ("voice_0".to_string(), 0u8),
        ("voice_1".to_string(), 0u8),
    ];
    let order = parse_voice_indices(&v, Section::Gates).unwrap();
    assert_eq!(order, vec![(0, 1), (1, 0), (1, 2)]);
}

#[test]
fn clock_defaults_and_overrides() {
    let c = build_clock(&clock(10)).unwrap();
    assert!(c.enabled);
    assert_eq!(c.channel, 9);
    assert_eq!(c.pitch, 48);
    assert_eq!(c.gate_length_ms, 25);
    let c = build_clock(&ClockSection {
        channel: 1,
        enabled: Some(false),
        pitch: Some(36),
        gate_length_ms: Some(10),
    })
    .unwrap();
    assert!(!c.enabled);
    assert_eq!(c.channel, 0);
    assert_eq!(c.pitch, 36);
    assert_eq!(c.gate_length_ms, 10);
}

#[test]
fn build_midi_and_walls_report_claims() {
    let mut g = gates(&[("voice_3", ChannelOnly(4)), ("voice_0", Full { channel: 9, pitch: None })]);
    g.gate_length_ms = Some(80);
    let (midi, claims) = build_midi(&g).unwrap();
    assert_eq!(midi.voice_channels, vec![8, 3]);
    assert_eq!(midi.voice_pitches, vec![48, 59]);
    assert_eq!(midi.gate_length_ms, 80);
    assert_eq!(claims.len(), 2);
    assert_eq!(claims[0].channel, 8);
    assert!(matches!(&claims[0].owner, ChannelOwner::GateVoice(k) if k == "voice_0"));

    let (enabled, wm, wclaims) = build_walls(Some(&walls(&[("voice_1", 12), ("voice_0", 11)]))).unwrap();
    assert!(enabled);
    assert_eq!(wm.channels, vec![10, 11]);
    assert_eq!(wclaims.len(), 2);
    assert_eq!(build_output_sites(&g).unwrap(), vec![0, 3]);
}

#[test]
fn duplicate_validator_reports_first_owner() {
    let gates = vec![
        ChannelClaim { channel: 2, owner: ChannelOwner::GateVoice("voice_0".to_string()) },
        ChannelClaim { channel: 5, owner: ChannelOwner::GateVoice("voice_1".to_string()) },
    ];
    let walls = vec![
        ChannelClaim { channel: 2, owner: ChannelOwner::WallVoice("voice_0".to_string()) },
        ChannelClaim { channel: 5, owner: ChannelOwner::WallVoice("voice_1".to_string()) },
    ];
    let err = validate_no_duplicates(&gates, &walls, 9).unwrap_err();
    assert_eq!(
        err.message(),
        "channel 3 is assigned to both chain_a.gates.voice_0 and chain_a.walls.voice_0"
    );
    assert!(validate_no_duplicates(&gates, &vec![], 9).is_ok());
    assert!(validate_no_duplicates(&vec![], &vec![], 0).is_ok());
    let err = validate_no_duplicates(&gates, &vec![], 5).unwrap_err();
    assert_eq!(
        err.message(),
        "channel 6 is assigned to both chain_a.gates.voice_1 and chain_a.clock"
    );
}

#[test]
fn channel_translation() {
    assert_eq!(validate_channel_1based(1, ChannelOwner::Clock).unwrap(), 0);
    assert_eq!(validate_channel_1based(16, ChannelOwner::Clock).unwrap(), 15);
    assert!(validate_channel_1based(17, ChannelOwner::Clock).is_err());
    assert!(validate_channel_1based(0, ChannelOwner::Clock).is_err());
}

#[test]
fn clock_channel_collision_names_the_gate_voice() {
    let g = gates(&[
        ("voice_0", Full { channel: 1, pitch: Some(48) }),
        ("voice_1", Full { channel: 2, pitch: Some(52) }),
        ("voice_2", Full { channel: 3, pitch: Some(55) }),
        ("voice_3", Full { channel: 16, pitch: Some(59) }),
    ]);
    let err = load(&g, None, &clock(16), 8, None).err().unwrap();
    assert_eq!(
        format!("config error: {}", err.message()),
        "config error: channel 16 is assigned to both chain_a.gates.voice_3 and chain_a.clock"
    );
}

#[test]
fn gated_voices_may_share_a_channel() {
    let mut g = gates(&[
        ("voice_0", Full { channel: 1, pitch: Some(48) }),
        ("voice_2", Full { channel: 1, pitch: Some(52) }),
        ("voice_4", Full { channel: 1, pitch: Some(55) }),
        ("voice_6", Full { channel: 1, pitch: Some(59) }),
    ]);
    g.gate_length_ms = Some(50);
    let config = load(&g, None, &clock(16), 8, Some(47)).expect("should parse");
    assert_eq!(config.midi.voice_channels, vec![0, 0, 0, 0]);
    assert_eq!(config.midi.voice_pitches, vec![48, 52, 55, 59]);
    assert_eq!(config.output_sites, vec![0, 2, 4, 6]);
    assert_eq!(config.midi.gate_length_ms, 50);
    assert_eq!(config.seed, 47);
}

#[test]
fn shared_gate_channel_still_clashes_with_walls_and_clock() {
    let g = gates(&[("voice_0", ChannelOnly(1)), ("voice_1", ChannelOnly(1))]);
    let err = load(&g, Some(&walls(&[("voice_0", 1)])), &clock(16), 8, None).err().unwrap();
    assert_eq!(
        err.message(),
        "channel 1 is assigned to both chain_a.gates.voice_0 and chain_a.walls.voice_0"
    );
    let g = gates(&[("voice_0", ChannelOnly(2)), ("voice_1", ChannelOnly(16))]);
    let err = load(&g, None, &clock(16), 8, None).err().unwrap();
    assert_eq!(
        err.message(),
        "channel 16 is assigned to both chain_a.gates.voice_1 and chain_a.clock"
    );
}

#[test]
fn wall_voices_may_not_share_a_channel() {
    let g = gates(&[("voice_0", ChannelOnly(1))]);
    let err = load(&g, Some(&walls(&[("voice_0", 5), ("voice_1", 5)])), &clock(16), 8, None)
        .err()
        .unwrap();
    assert_eq!(
        err.message(),
        "channel 5 is assigned to both chain_a.walls.voice_0 and chain_a.walls.voice_1"
    );
    let err = load(&g, Some(&walls(&[("voice_0", 16)])), &clock(16), 8, None).err().unwrap();
    assert_eq!(
        err.message(),
        "channel 16 is assigned to both chain_a.walls.voice_0 and chain_a.clock"
    );
}

#[test]
fn duplicate_validator_lets_gate_claims_share() {
    let gates = vec![
        ChannelClaim { channel: 0, owner: ChannelOwner::GateVoice("voice_0".to_string()) },
        ChannelClaim { channel: 0, owner: ChannelOwner::GateVoice("voice_2".to_string()) },
    ];
    assert!(validate_no_duplicates(&gates, &vec![], 15).is_ok());
    let walls = vec![ChannelClaim { channel: 0, owner: ChannelOwner::WallVoice("voice_0".to_string()) }];
    let err = validate_no_duplicates(&gates, &walls, 15).unwrap_err();
    assert_eq!(
        err.message(),
        "channel 1 is assigned to both chain_a.gates.voice_0 and chain_a.walls.voice_0"
    );
}
