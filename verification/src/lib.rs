//! Verified core of a time-crystal-driven MIDI gate generator: the
//! integer and text logic that sits between the spin-chain simulation and
//! the MIDI / OSC wire — scale quantization, channel routing and its
//! validation, voice allocation for domain walls, note-off scheduling and
//! the byte-level MIDI encoding.

pub mod chain_id;
pub mod text;
pub mod config;
pub mod quantizer;
pub mod config_file;
pub mod ranges;
pub mod midi;
pub mod scheduler;
pub mod wall_midi;
pub mod chain;
pub mod modulation;
pub mod perturbation;
pub mod osc;
pub mod tui;
pub mod sweep;
pub mod debounce;
pub mod walls;
