use crystallized_time::config::ModulationConfig;
use crystallized_time::midi::MidiCommand;
use crystallized_time::modulation::ModulationEmitter;

fn enabled() -> ModulationConfig {
    ModulationConfig { enabled: true, channel: 2, cc_number: 74 }
}

#[test]
fn sends_only_changes() {
    let mut m = ModulationEmitter::new(enabled(), vec![0, 2, 4, 6]);
    let cc = |v| Some(MidiCommand::ControlChange { channel: 2, cc_number: 74, value: v });
    assert_eq!(m.tick(64), cc(64));
    assert_eq!(m.tick(64), None);
    assert_eq!(m.tick(65), cc(65));
    assert_eq!(m.tick(64), cc(64));
    assert_eq!(m.output_sites(), &vec![0, 2, 4, 6]);
}

#[test]
fn disabled_or_siteless_emitter_is_silent() {
    let mut off = ModulationEmitter::new(ModulationConfig::default(), vec![0]);
    assert_eq!(off.tick(10), None);
    let mut empty = ModulationEmitter::new(enabled(), vec![]);
    assert_eq!(empty.tick(10), None);
}
