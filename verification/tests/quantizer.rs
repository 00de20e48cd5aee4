use crystallized_time::config::QuantizeConfig;
use crystallized_time::quantizer::{Scale, ScaleQuantizer};

#[test]
fn unquantized_is_passthrough() {
    let q = ScaleQuantizer {
        scale: Scale::Unquantized,
        root_note: 60,
    };
    assert_eq!(q.quantize(61), 61);
    assert_eq!(q.quantize(0), 0);
    assert_eq!(q.quantize(127), 127);
}

#[test]
fn major_snaps_to_scale() {
    let q = ScaleQuantizer {
        scale: Scale::Major,
        root_note: 60, // C4
    };
    assert_eq!(q.quantize(60), 60); // C
    assert_eq!(q.quantize(61), 60); // C# -> C
    assert_eq!(q.quantize(62), 62); // D
    assert_eq!(q.quantize(63), 62); // D# -> D
    assert_eq!(q.quantize(64), 64); // E
    assert_eq!(q.quantize(65), 65); // F
    assert_eq!(q.quantize(66), 65); // F# -> F
    assert_eq!(q.quantize(67), 67); // G
    assert_eq!(q.quantize(68), 67); // G# -> G (closer than A)
    assert_eq!(q.quantize(69), 69); // A
    assert_eq!(q.quantize(70), 69); // A# -> A (tie at 1 semitone, lower wins)
    assert_eq!(q.quantize(71), 71); // B
}

#[test]
fn pentatonic_snaps() {
    let q = ScaleQuantizer {
        scale: Scale::Pentatonic,
        root_note: 60,
    };
    assert_eq!(q.quantize(60), 60); // C
    assert_eq!(q.quantize(62), 62); // D
    assert_eq!(q.quantize(64), 64); // E
    assert_eq!(q.quantize(67), 67); // G
    assert_eq!(q.quantize(69), 69); // A
    assert_eq!(q.quantize(61), 60); // C# -> C (tie: 1 semitone from both C and D, lower wins)
    assert_eq!(q.quantize(63), 62); // D# -> D
    assert_eq!(q.quantize(65), 64); // F -> E
    assert_eq!(q.quantize(68), 67); // G# -> G
}

#[test]
fn hirajoshi_snaps() {
    let q = ScaleQuantizer {
        scale: Scale::Hirajoshi,
        root_note: 60,
    };
    assert_eq!(q.quantize(60), 60); // C
    assert_eq!(q.quantize(62), 62); // D
    assert_eq!(q.quantize(63), 63); // Eb
    assert_eq!(q.quantize(67), 67); // G
    assert_eq!(q.quantize(68), 68); // Ab
    assert_eq!(q.quantize(61), 60); // C# -> C
    assert_eq!(q.quantize(64), 63); // E -> Eb
    assert_eq!(q.quantize(65), 63); // F -> Eb (tie: 2 away from both Eb and G, goes to lower)
}

#[test]
fn iwato_snaps() {
    let q = ScaleQuantizer {
        scale: Scale::Iwato,
        root_note: 60,
    };
    assert_eq!(q.quantize(60), 60); // C
    assert_eq!(q.quantize(61), 61); // Db
    assert_eq!(q.quantize(65), 65); // F
    assert_eq!(q.quantize(66), 66); // Gb
    assert_eq!(q.quantize(70), 70); // Bb
    assert_eq!(q.quantize(62), 61); // D -> Db
    assert_eq!(q.quantize(63), 61); // Eb -> Db (4 away from both Db and F)
}

#[test]
fn different_root() {
    let q = ScaleQuantizer {
        scale: Scale::Major,
        root_note: 62, // D4 -> D major
    };
    assert_eq!(q.quantize(60), 59); // C -> B3 (1 semitone down in D major)
    assert_eq!(q.quantize(62), 62); // D
    assert_eq!(q.quantize(64), 64); // E
    assert_eq!(q.quantize(66), 66); // F#
}

#[test]
fn clamps_to_range() {
    let q = ScaleQuantizer {
        scale: Scale::Major,
        root_note: 60,
    };
    assert!(q.quantize(0) <= 127);
    assert!(q.quantize(127) <= 127);
}

#[test]
fn scale_names_roundtrip() {
    for &scale in Scale::all() {
        let name = scale.name();
        let parsed = Scale::from_name(name);
        assert_eq!(parsed, Some(scale));
    }
}

// --- Further cases ---------------------------------------------------------

#[test]
fn from_name_ignores_case_and_accepts_none_alias() {
    assert_eq!(Scale::from_name("MAJOR"), Some(Scale::Major));
    assert_eq!(Scale::from_name("HiRaJoShi"), Some(Scale::Hirajoshi));
    assert_eq!(Scale::from_name("none"), Some(Scale::Unquantized));
    assert_eq!(Scale::from_name("None"), Some(Scale::Unquantized));
    assert_eq!(Scale::from_name("dorian"), None);
    assert_eq!(Scale::from_name(""), None);
    assert_eq!(Scale::from_name(" major"), None);
}

#[test]
fn from_lowercase_name_is_exact() {
    assert_eq!(Scale::from_lowercase_name("minor"), Some(Scale::Minor));
    assert_eq!(Scale::from_lowercase_name("Minor"), None);
}

#[test]
fn intervals_of_each_scale() {
    assert_eq!(Scale::Unquantized.intervals(), &[] as &[i16]);
    assert_eq!(Scale::Major.intervals(), &[0, 2, 4, 5, 7, 9, 11]);
    assert_eq!(Scale::Minor.intervals(), &[0, 2, 3, 5, 7, 8, 10]);
    assert_eq!(Scale::Pentatonic.intervals(), &[0, 2, 4, 7, 9]);
    assert_eq!(Scale::Hirajoshi.intervals(), &[0, 2, 3, 7, 8]);
    assert_eq!(Scale::Iwato.intervals(), &[0, 1, 5, 6, 10]);
    assert_eq!(Scale::all().len(), 6);
}

#[test]
fn from_config_skips_unquantized() {
    assert!(ScaleQuantizer::from_config(&QuantizeConfig::default()).is_none());
    let q = ScaleQuantizer::from_config(&QuantizeConfig {
        scale: Scale::Minor,
        root_note: 57,
    })
    .unwrap();
    assert_eq!(q.scale, Scale::Minor);
    assert_eq!(q.root_note, 57);
}

#[test]
fn quantizing_twice_changes_nothing() {
    for scale in [Scale::Major, Scale::Minor, Scale::Pentatonic, Scale::Hirajoshi, Scale::Iwato] {
        for root in [0u8, 5, 60, 62, 127] {
            let q = ScaleQuantizer { scale, root_note: root };
            for p in 0u8..=127 {
                let once = q.quantize(p);
                assert!(once <= 127);
                assert_eq!(q.quantize(once), once);
            }
        }
    }
}

#[test]
fn pitch_above_midi_range_has_no_candidate() {
    let q = ScaleQuantizer {
        scale: Scale::Major,
        root_note: 60,
    };
    // No tone of the three octaves around 250 is a MIDI pitch.
    assert_eq!(q.quantize(250), 250);
    // Near the top the search falls back to the octave below.
    assert_eq!(q.quantize(127), 127);
    assert_eq!(q.quantize(126), 125);
}

#[test]
fn root_is_taken_modulo_twelve() {
    let a = ScaleQuantizer { scale: Scale::Major, root_note: 2 };
    let b = ScaleQuantizer { scale: Scale::Major, root_note: 62 };
    for p in 0u8..=127 {
        assert_eq!(a.quantize(p), b.quantize(p));
    }
}
