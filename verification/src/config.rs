//! Routing-side configuration: MIDI voice assignments for gates and walls,
//! the modulation CC stream, quantization, and the enumerations the
//! configuration file selects from.

use vstd::prelude::*;
use crate::quantizer::Scale;

verus! {

/// Output topology — how site voices are routed to MIDI channels.
#[derive(Clone, Copy, Debug, PartialEq, Eq, Structural)]
pub enum OutputMode {
    OneChannelPerChain,
    ChannelPerSite,
}

impl Default for OutputMode {
    fn default() -> (r: Self)
        ensures
            r == OutputMode::OneChannelPerChain,
    {
        OutputMode::OneChannelPerChain
    }
}

/// MIDI output parameters for gated voices: per-voice channel (0-based)
/// and pitch, and the note length.
#[derive(Clone, Debug)]
pub struct MidiConfig {
    /// Per-voice MIDI channels (0-15).
    pub voice_channels: Vec<u8>,
    /// Per-voice MIDI pitches.
    pub voice_pitches: Vec<u8>,
    /// Gate length in milliseconds (note-on to note-off delay).
    pub gate_length_ms: u64,
}

/// The default voice pitches: a Cmaj7 voicing (C3, E3, G3, B3).
pub open spec fn default_voice_pitches() -> Seq<u8> {
    seq![48u8, 52u8, 55u8, 59u8]
}

impl Default for MidiConfig {
    /// All four voices on channel 1 (0-based 0), distinct pitches.
    fn default() -> (r: Self)
        ensures
            r.voice_channels@ == seq![0u8, 0u8, 0u8, 0u8],
            r.voice_pitches@ == default_voice_pitches(),
            r.gate_length_ms == 50,
    {
        MidiConfig {
            voice_channels: vec![0, 0, 0, 0],
            voice_pitches: vec![48, 52, 55, 59],
            gate_length_ms: 50,
        }
    }
}

/// Domain-wall MIDI output parameters.
#[derive(Clone, Debug)]
pub struct WallMidiConfig {
    /// The pool of 0-based channels wall voices are drawn from.
    pub channels: Vec<u8>,
    pub pitch_low: u8,
    pub pitch_high: u8,
    pub motion_cc: Option<u8>,
    /// When true, wall motion produces new note-on/note-off pairs as the
    /// pitch changes. When false, pitch is set at note-on and held; motion
    /// is sent via `motion_cc`.
    pub repitch_on_move: bool,
}

impl Default for WallMidiConfig {
    fn default() -> (r: Self)
        ensures
            r.channels@ == seq![4u8, 5u8, 6u8, 7u8],
            r.pitch_low == 36,
            r.pitch_high == 60,
            r.motion_cc == Some(1u8),
            !r.repitch_on_move,
    {
        WallMidiConfig {
            channels: vec![4, 5, 6, 7],
            pitch_low: 36,
            pitch_high: 60,
            motion_cc: Some(1),
            repitch_on_move: false,
        }
    }
}

/// Per-chain modulation CC stream: summed sigma_z over the output sites,
/// mapped to 0..=127 and sent when it changes.
#[derive(Clone, Debug)]
pub struct ModulationConfig {
    pub enabled: bool,
    /// MIDI channel (0-based).
    pub channel: u8,
    pub cc_number: u8,
}

impl Default for ModulationConfig {
    fn default() -> (r: Self)
        ensures
            !r.enabled,
            r.channel == 0,
            r.cc_number == 1,
    {
        ModulationConfig { enabled: false, channel: 0, cc_number: 1 }
    }
}

/// Scale quantization of gate pitches.
#[derive(Clone, Copy, Debug, PartialEq, Eq, Structural)]
pub struct QuantizeConfig {
    pub scale: Scale,
    pub root_note: u8,
}

impl Default for QuantizeConfig {
    fn default() -> (r: Self)
        ensures
            r.scale == Scale::Unquantized,
            r.root_note == 60,
    {
        QuantizeConfig { scale: Scale::Unquantized, root_note: 60 }
    }
}

/// How two chains are coupled.
#[derive(Clone, Copy, Debug, PartialEq, Eq, Structural)]
pub enum CouplingShape {
    /// Each chain feels the other's mean magnetization as a uniform
    /// z-field on every site.
    MeanFieldZ,
    /// Site i of chain A coupled to site i of chain B via a z-z term.
    SitePaired,
    /// Each chain's state modulates the other's drive epsilon.
    SharedDrive,
}

} // verus!
