//! Trigger timing shared by the site-event detector, the substrate clock
//! and the state streams: a crossing fires only when enough ticks have
//! passed since the last firing, and a rate-limited stream sends only
//! when its minimum interval has passed since its last send.
//!
//! Whether a crossing happened is decided on the floating-point signal by
//! the caller; these functions take that decision as a `bool`.

use vstd::prelude::*;
use crate::config::MidiConfig;

verus! {

/// `a - b`, or 0 when `b > a`.
pub open spec fn saturating_diff(a: u64, b: u64) -> int {
    if a >= b {
        a - b
    } else {
        0
    }
}

/// Is `tick` outside the debounce window that follows a firing at `last`?
pub open spec fn debounced(tick: u64, last: u64, window: u64) -> bool {
    saturating_diff(tick, last) > window
}

/// Debounce state of one trigger: the window length and the tick of the
/// last firing (0 before the first one).
pub struct Debouncer {
    window: u64,
    last_fire_tick: u64,
}

/// The mathematical value of a `Debouncer`: `(window, last firing tick)`.
impl View for Debouncer {
    type V = (u64, u64);

    closed spec fn view(&self) -> (u64, u64) {
        (self.window, self.last_fire_tick)
    }
}

impl Debouncer {
    /// A trigger that has not fired yet, with a window of `window` ticks.
    pub fn new(window: u64) -> (r: Self)
        ensures
            r@ == (window, 0u64),
    {
        Debouncer { window, last_fire_tick: 0 }
    }

    /// The tick of the last firing.
    pub fn last_fire_tick(&self) -> (r: u64)
        ensures
            r == self@.1,
    {
        self.last_fire_tick
    }

    /// Observe tick `tick`, at which a crossing did (`crossed`) or did not
    /// happen: fire when it did and the tick lies past the window of the
    /// last firing, and then remember the tick.
    pub fn fire(&mut self, crossed: bool, tick: u64) -> (r: bool)
        ensures
            r == (crossed && debounced(tick, old(self)@.1, old(self)@.0)),
            final(self)@ == (if r { (old(self)@.0, tick) } else { old(self)@ }),
    {
        let since_last: u64 = tick.saturating_sub(self.last_fire_tick);
        let fires = crossed && since_last > self.window;
        if fires {
            self.last_fire_tick = tick;
        }
        fires
    }
}

/// Two firings of one trigger, the second at a tick not before the first,
/// are more than the window apart.
pub proof fn lemma_firings_are_spaced(window: u64, first: u64, second: u64)
    requires
        first <= second,
        debounced(second, first, window),
    ensures
        second - first > window,
{
}

/// Has a rate-limited stream's minimum interval passed? With no interval
/// the stream is always due; before its first send it is due too. Times
/// are in one clock's units; a clock that went backwards counts as no time
/// passed.
pub open spec fn rate_due(last_send: Option<u64>, interval: Option<u64>, now: u64) -> bool {
    match interval {
        None => true,
        Some(i) => match last_send {
            None => true,
            Some(l) => saturating_diff(now, l) >= i,
        },
    }
}

/// See `rate_due`.
pub fn rate_gate_open(last_send: Option<u64>, interval: Option<u64>, now: u64) -> (r: bool)
    ensures
        r == rate_due(last_send, interval, now),
{
    match interval {
        None => true,
        Some(i) => match last_send {
            None => true,
            Some(l) => now.saturating_sub(l) >= i,
        },
    }
}

/// The channel and pitch a gate event of voice `voice` reports: the
/// configured ones, or channel 0 and pitch 48 where the configuration has
/// no entry for the voice.
pub fn voice_route(config: &MidiConfig, voice: usize) -> (r: (u8, u8))
    ensures
        r.0 == (if voice < config.voice_channels@.len() { config.voice_channels@[voice as int] } else { 0u8 }),
        r.1 == (if voice < config.voice_pitches@.len() { config.voice_pitches@[voice as int] } else { 48u8 }),
{
    let channel: u8 = if voice < config.voice_channels.len() {
        config.voice_channels[voice]
    } else {
        0
    };
    let pitch: u8 = if voice < config.voice_pitches.len() {
        config.voice_pitches[voice]
    } else {
        48
    };
    (channel, pitch)
}

} // verus!
