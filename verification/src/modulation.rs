//! Per-tick modulation CC emitter: the summed sigma_z over a chain's
//! output sites, already mapped to a 7-bit CC value, is sent when it
//! differs from the last value sent.

use vstd::prelude::*;
use crate::config::ModulationConfig;
use crate::midi::MidiCommand;

verus! {

pub struct ModulationEmitter {
    config: ModulationConfig,
    output_sites: Vec<usize>,
    last_value: Option<u8>,
}

/// The mathematical value of a `ModulationEmitter`.
pub struct ModulationView {
    pub enabled: bool,
    pub channel: u8,
    pub cc_number: u8,
    pub output_sites: Seq<usize>,
    pub last_value: Option<u8>,
}

impl View for ModulationEmitter {
    type V = ModulationView;

    closed spec fn view(&self) -> ModulationView {
        ModulationView {
            enabled: self.config.enabled,
            channel: self.config.channel,
            cc_number: self.config.cc_number,
            output_sites: self.output_sites@,
            last_value: self.last_value,
        }
    }
}

/// One tick of the emitter with CC value `v`: disabled (or with no output
/// site) it does nothing; otherwise it sends `v` when it differs from the
/// last value sent, and remembers it.
pub open spec fn modulation_step(s: ModulationView, v: u8) -> (ModulationView, Option<MidiCommand>) {
    if !s.enabled || s.output_sites.len() == 0 {
        (s, None)
    } else if s.last_value != Some(v) {
        (
            ModulationView { last_value: Some(v), ..s },
            Some(MidiCommand::ControlChange { channel: s.channel, cc_number: s.cc_number, value: v }),
        )
    } else {
        (s, None)
    }
}

impl ModulationEmitter {
    pub fn new(config: ModulationConfig, output_sites: Vec<usize>) -> (r: Self)
        ensures
            r@ == (ModulationView {
                enabled: config.enabled,
                channel: config.channel,
                cc_number: config.cc_number,
                output_sites: output_sites@,
                last_value: None,
            }),
    {
        ModulationEmitter { config, output_sites, last_value: None }
    }

    /// The chain sites whose sigma_z is summed.
    pub fn output_sites(&self) -> (r: &Vec<usize>)
        ensures
            r@ == self@.output_sites,
    {
        &self.output_sites
    }

    /// Emit the CC value of this tick if it changed.
    pub fn tick(&mut self, cc_value: u8) -> (r: Option<MidiCommand>)
        ensures
            (final(self)@, r) == modulation_step(old(self)@, cc_value),
    {
        if !self.config.enabled || self.output_sites.len() == 0 {
            return None;
        }
        if self.last_value != Some(cc_value) {
            self.last_value = Some(cc_value);
            return Some(
                MidiCommand::ControlChange {
                    channel: self.config.channel,
                    cc_number: self.config.cc_number,
                    value: cc_value,
                },
            );
        }
        None
    }
}

/// A value is sent once: repeating the same CC value on the next tick
/// sends nothing.
pub proof fn lemma_repeat_value_is_silent(s: ModulationView, v: u8)
    ensures
        modulation_step(modulation_step(s, v).0, v).1 is None,
{
}

/// A change is always sent while the emitter is enabled and has sites.
pub proof fn lemma_change_is_sent(s: ModulationView, v: u8)
    requires
        s.enabled,
        s.output_sites.len() > 0,
        s.last_value != Some(v),
    ensures
        modulation_step(s, v).1 == Some(
            MidiCommand::ControlChange { channel: s.channel, cc_number: s.cc_number, value: v },
        ),
{
}

} // verus!
