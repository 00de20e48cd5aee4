use crystallized_time::chain_id::ChainId;
use crystallized_time::config::{MidiConfig, OutputMode, QuantizeConfig, WallMidiConfig};
use crystallized_time::quantizer::Scale;
use crystallized_time::ranges::{
    build_wall_midi, clock_channel_0based, parse_channel_range, parse_pitch_range, parse_u8_pair,
};
use crystallized_time::sweep::csv_header;
use crystallized_time::text::{parse_unsigned_str, push_decimal, str_eq, strip_prefix, trim};
use crystallized_time::tui::{EventLog, LogSource, LOG_CAPACITY};

#[test]
fn chain_ids() {
    assert_eq!(ChainId::A.osc_prefix(), "/a");
    assert_eq!(ChainId::B.osc_prefix(), "/b");
    assert_eq!(ChainId::A.label(), "chain_a");
    assert_eq!(ChainId::B.label(), "chain_b");
}

#[test]
fn defaults() {
    let m = MidiConfig::default();
    assert_eq!(m.voice_channels, vec![0, 0, 0, 0]);
    assert_eq!(m.voice_pitches, vec![48, 52, 55, 59]);
    assert_eq!(m.gate_length_ms, 50);
    let w = WallMidiConfig::default();
    assert_eq!(w.channels, vec![4, 5, 6, 7]);
    assert_eq!((w.pitch_low, w.pitch_high), (36, 60));
    assert_eq!(w.motion_cc, Some(1));
    assert!(!w.repitch_on_move);
    let q = QuantizeConfig::default();
    assert_eq!(q.scale, Scale::Unquantized);
    assert_eq!(q.root_note, 60);
    assert_eq!(OutputMode::default(), OutputMode::OneChannelPerChain);
}

#[test]
fn u8_pairs() {
    assert_eq!(parse_u8_pair("5:8"), Ok((5, 8)));
    assert_eq!(parse_u8_pair(" 36 : 84 "), Ok((36, 84)));
    assert_eq!(parse_u8_pair("+1:2"), Ok((1, 2)));
    assert_eq!(
        parse_u8_pair("5-8"),
        Err("expected 'low:high', got '5-8'".to_string())
    );
    assert_eq!(
        parse_u8_pair("1:2:3"),
        Err("expected 'low:high', got '1:2:3'".to_string())
    );
    assert_eq!(parse_u8_pair("x:8"), Err("invalid number: 'x'".to_string()));
    assert_eq!(parse_u8_pair("1: 256"), Err("invalid number: ' 256'".to_string()));
    assert_eq!(parse_u8_pair(":"), Err("invalid number: ''".to_string()));
}

#[test]
fn channel_and_pitch_ranges() {
    assert_eq!(parse_channel_range("5:8"), Ok((5, 8)));
    assert_eq!(
        parse_channel_range("0:8"),
        Err("channels must be in 1..=16 (got 0:8)".to_string())
    );
    assert_eq!(
        parse_channel_range("9:17"),
        Err("channels must be in 1..=16 (got 9:17)".to_string())
    );
    assert_eq!(
        parse_channel_range("8:5"),
        Err("low channel must be <= high channel (got 8:5)".to_string())
    );
    assert_eq!(parse_pitch_range("36:84"), Ok((36, 84)));
    assert_eq!(
        parse_pitch_range("36:128"),
        Err("pitches must be in 0..=127 (got 36:128)".to_string())
    );
    assert_eq!(
        parse_pitch_range("84:36"),
        Err("low pitch must be <= high pitch (got 84:36)".to_string())
    );
}

#[test]
fn wall_overrides() {
    let w = build_wall_midi(Some((5, 8)), Some((24, 96)), Some(0), true);
    assert_eq!(w.channels, vec![4, 5, 6, 7]);
    assert_eq!((w.pitch_low, w.pitch_high), (24, 96));
    assert_eq!(w.motion_cc, None);
    assert!(w.repitch_on_move);
    let d = build_wall_midi(None, None, Some(74), false);
    assert_eq!(d.channels, vec![4, 5, 6, 7]);
    assert_eq!(d.motion_cc, Some(74));
    assert_eq!(build_wall_midi(Some((16, 16)), None, None, false).channels, vec![15]);
    assert_eq!(clock_channel_0based(16), 15);
    assert_eq!(clock_channel_0based(1), 0);
    assert_eq!(clock_channel_0based(0), 0);
    assert_eq!(clock_channel_0based(40), 15);
}

#[test]
fn text_primitives() {
    assert!(str_eq("abc", "abc"));
    assert!(!str_eq("abc", "abd"));
    assert!(!str_eq("abc", "ab"));
    assert_eq!(strip_prefix("voice_12", "voice_"), Some("12"));
    assert_eq!(strip_prefix("voic", "voice_"), None);
    assert_eq!(trim("\t 42 \n"), "42");
    assert_eq!(trim("   "), "");
    assert_eq!(trim("\u{3000}x\u{A0}"), "x");
    assert_eq!(parse_unsigned_str("255", 255), Some(255));
    assert_eq!(parse_unsigned_str("256", 255), None);
    assert_eq!(parse_unsigned_str("0000255", 255), Some(255));
    assert_eq!(parse_unsigned_str("+7", 255), Some(7));
    assert_eq!(parse_unsigned_str("+", 255), None);
    assert_eq!(parse_unsigned_str("", 255), None);
    assert_eq!(parse_unsigned_str("-1", 255), None);
    assert_eq!(parse_unsigned_str("1 2", 255), None);
    assert_eq!(
        parse_unsigned_str("18446744073709551615", u64::MAX),
        Some(u64::MAX)
    );
    assert_eq!(parse_unsigned_str("18446744073709551616", u64::MAX), None);
    let mut s = String::from("n=");
    push_decimal(&mut s, 0);
    push_decimal(&mut s, 1209);
    assert_eq!(s, "n=01209");
}

#[test]
fn sweep_header() {
    assert_eq!(
        csv_header(0),
        "eps,j,w,kt,seed,classification,dominant_period,best_corr\n"
    );
    assert_eq!(
        csv_header(3),
        "eps,j,w,kt,seed,classification,dominant_period,best_corr,c1,c2,c3\n"
    );
    assert!(csv_header(10).ends_with(",c9,c10\n"));
}

#[test]
fn event_log_keeps_the_latest_entries() {
    let mut log = EventLog::new();
    for i in 0..(LOG_CAPACITY + 20) {
        log.push(LogSource::Osc, format!("entry {}", i));
    }
    assert_eq!(log.len(), LOG_CAPACITY);
    assert_eq!(log.entries()[0].content, "entry 20");
    assert_eq!(log.entries()[LOG_CAPACITY - 1].content, format!("entry {}", LOG_CAPACITY + 19));
    log.push(LogSource::Midi, "last".to_string());
    assert_eq!(log.len(), LOG_CAPACITY);
    assert_eq!(log.entries()[LOG_CAPACITY - 1].source, LogSource::Midi);
}
