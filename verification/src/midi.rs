//! MIDI output decisions: the bytes of each channel message, per-channel
//! mono priority for gate voices, and the record of channels used during a
//! run (for the All Notes Off / All Sound Off sent at shutdown).
//!
//! Sending the bytes, and timing the delayed note-offs, is left to the
//! caller; this module says what to send and when.

use vstd::prelude::*;
use crate::config::MidiConfig;

verus! {

/// A raw three-byte MIDI channel message (status, data1, data2).
pub type MidiBytes = [u8; 3];

/// Status nibble of a note-off.
pub const NOTE_OFF: u8 = 0x80;

/// Status nibble of a note-on.
pub const NOTE_ON: u8 = 0x90;

/// Status nibble of a control change.
pub const CONTROL_CHANGE: u8 = 0xB0;

/// The message `(kind | channel, data1, data2)` for a channel 0..=15.
pub open spec fn message(kind: u8, channel: u8, data1: u8, data2: u8) -> Seq<u8> {
    seq![(kind + channel) as u8, data1, data2]
}

fn status_byte(kind: u8, channel: u8) -> (r: u8)
    requires
        kind == NOTE_OFF || kind == NOTE_ON || kind == CONTROL_CHANGE,
        channel <= 15,
    ensures
        r == kind + channel,
{
    let r = kind | channel;
    assert(r == kind + channel) by (bit_vector)
        requires
            kind == 0x80u8 || kind == 0x90u8 || kind == 0xB0u8,
            channel <= 15u8,
            r == kind | channel,
    ;
    r
}

fn data_byte(v: u8) -> (r: u8)
    ensures
        r == v % 128,
{
    let r = v & 0x7F;
    assert(r == v % 128) by (bit_vector)
        requires
            r == v & 0x7Fu8,
    ;
    r
}

/// A note-on with pitch and velocity reduced to 7 bits; `None` for a
/// channel above 15.
pub fn note_on_bytes(channel: u8, pitch: u8, velocity: u8) -> (r: Option<MidiBytes>)
    ensures
        channel > 15 ==> r is None,
        channel <= 15 ==> (r matches Some(b) && b@ == message(
            NOTE_ON,
            channel,
            pitch % 128,
            velocity % 128,
        )),
{
    if channel > 15 {
        return None;
    }
    let b = [status_byte(NOTE_ON, channel), data_byte(pitch), data_byte(velocity)];
    assert(b@ =~= message(NOTE_ON, channel, pitch % 128, velocity % 128));
    Some(b)
}

/// A note-off (velocity 0) with the pitch reduced to 7 bits; `None` for a
/// channel above 15.
pub fn note_off_bytes(channel: u8, pitch: u8) -> (r: Option<MidiBytes>)
    ensures
        channel > 15 ==> r is None,
        channel <= 15 ==> (r matches Some(b) && b@ == message(NOTE_OFF, channel, pitch % 128, 0)),
{
    if channel > 15 {
        return None;
    }
    let b = [status_byte(NOTE_OFF, channel), data_byte(pitch), 0];
    assert(b@ =~= message(NOTE_OFF, channel, pitch % 128, 0));
    Some(b)
}

/// A control change with controller and value reduced to 7 bits; `None`
/// for a channel above 15.
pub fn control_change_bytes(channel: u8, cc_number: u8, value: u8) -> (r: Option<MidiBytes>)
    ensures
        channel > 15 ==> r is None,
        channel <= 15 ==> (r matches Some(b) && b@ == message(
            CONTROL_CHANGE,
            channel,
            cc_number % 128,
            value % 128,
        )),
{
    if channel > 15 {
        return None;
    }
    let b = [status_byte(CONTROL_CHANGE, channel), data_byte(cc_number), data_byte(value)];
    assert(b@ =~= message(CONTROL_CHANGE, channel, cc_number % 128, value % 128));
    Some(b)
}

/// A channel message for a MIDI output to send now; the output applies
/// its own channel check and byte encoding.
#[derive(Clone, Copy, Debug, PartialEq, Eq, Structural)]
pub enum MidiCommand {
    NoteOn { channel: u8, pitch: u8, velocity: u8 },
    NoteOff { channel: u8, pitch: u8 },
    ControlChange { channel: u8, cc_number: u8, value: u8 },
}

/// A note-off that waits for its time.
#[derive(Clone, Copy, Debug, PartialEq, Eq, Structural)]
pub enum DelayedNoteOff {
    /// The end of a gate: sent only if its pitch still sounds on its
    /// channel (a later gate on that channel has retired it otherwise).
    Gate { channel: u8, pitch: u8 },
    /// The end of a clock pulse: always sent.
    Clock { channel: u8, pitch: u8 },
}

/// Messages to send now, and a note-off to settle after a delay.
pub struct TimedMessages {
    pub now: Vec<MidiBytes>,
    pub later: DelayedNoteOff,
    pub delay_ms: u64,
}

/// What a MIDI output has done so far: which channels it has used, and
/// which pitch last started on each channel (for mono priority).
pub struct MidiOutputState {
    config: MidiConfig,
    used: [bool; 16],
    sounding: [Option<u8>; 16],
}

/// The mathematical value of a `MidiOutputState`.
pub struct MidiOutputView {
    pub voice_channels: Seq<u8>,
    pub voice_pitches: Seq<u8>,
    pub gate_length_ms: u64,
    /// `used[c]`: channel `c` has carried a message that marks it used.
    pub used: Seq<bool>,
    /// `sounding[c]`: the pitch of the last gate started on channel `c`.
    pub sounding: Seq<Option<u8>>,
}

impl View for MidiOutputState {
    type V = MidiOutputView;

    closed spec fn view(&self) -> MidiOutputView {
        MidiOutputView {
            voice_channels: self.config.voice_channels@,
            voice_pitches: self.config.voice_pitches@,
            gate_length_ms: self.config.gate_length_ms,
            used: self.used@,
            sounding: self.sounding@,
        }
    }
}

/// `used` with channel `c` marked.
pub open spec fn mark_used(used: Seq<bool>, c: u8) -> Seq<bool> {
    used.update(c as int, true)
}

/// The shutdown sequence for a set of used channels: for each used channel
/// in ascending order, All Notes Off (CC 123) then All Sound Off (CC 120).
pub open spec fn shutdown_sequence(used: Seq<bool>, n: int) -> Seq<Seq<u8>>
    decreases n,
{
    if n <= 0 {
        Seq::empty()
    } else if used[n - 1] {
        shutdown_sequence(used, n - 1).push(message(CONTROL_CHANGE, (n - 1) as u8, 123, 0)).push(
            message(CONTROL_CHANGE, (n - 1) as u8, 120, 0),
        )
    } else {
        shutdown_sequence(used, n - 1)
    }
}

/// `m` is one of the two shutdown messages of channel `c`: All Notes Off
/// (CC 123) or All Sound Off (CC 120).
pub open spec fn is_shutdown_message(m: Seq<u8>, c: u8) -> bool {
    m == message(CONTROL_CHANGE, c, 123, 0) || m == message(CONTROL_CHANGE, c, 120, 0)
}

/// The used-channel record of an output that has sent on the channels of
/// `sent`, in order, since it was opened: `new` starts with nothing used,
/// and every send on channel `c` (a gate, a clock pulse, a control change
/// or a note-on) marks `c`.
pub open spec fn used_after(sent: Seq<u8>) -> Seq<bool>
    decreases sent.len(),
{
    if sent.len() == 0 {
        Seq::new(16, |c: int| false)
    } else {
        mark_used(used_after(sent.drop_last()), sent.last())
    }
}

proof fn lemma_used_after(sent: Seq<u8>)
    requires
        forall|i: int| 0 <= i < sent.len() ==> sent[i] <= 15,
    ensures
        used_after(sent).len() == 16,
        forall|c: int| 0 <= c < 16 ==> #[trigger] used_after(sent)[c] == sent.contains(c as u8),
    decreases sent.len(),
{
    if sent.len() > 0 {
        let prev = sent.drop_last();
        lemma_used_after(prev);
        assert forall|c: int| 0 <= c < 16 implies #[trigger] used_after(sent)[c] == sent.contains(
            c as u8,
        ) by {
            if sent.contains(c as u8) {
                let i = choose|i: int| 0 <= i < sent.len() && sent[i] == c as u8;
                if i < sent.len() - 1 {
                    assert(prev[i] == sent[i]);
                }
            }
            if prev.contains(c as u8) {
                let i = choose|i: int| 0 <= i < prev.len() && prev[i] == c as u8;
                assert(sent[i] == prev[i]);
            }
        }
    }
}

proof fn lemma_shutdown_covers_used(used: Seq<bool>, n: int)
    requires
        0 <= n <= 16,
        used.len() == 16,
    ensures
        forall|c: int|
            0 <= c < n && #[trigger] used[c] ==> shutdown_sequence(used, n).contains(
                message(CONTROL_CHANGE, c as u8, 123, 0),
            ) && shutdown_sequence(used, n).contains(message(CONTROL_CHANGE, c as u8, 120, 0)),
    decreases n,
{
    if n > 0 {
        lemma_shutdown_covers_used(used, n - 1);
        let prev = shutdown_sequence(used, n - 1);
        if used[n - 1] {
            let a = message(CONTROL_CHANGE, (n - 1) as u8, 123, 0);
            let b = message(CONTROL_CHANGE, (n - 1) as u8, 120, 0);
            let cur = prev.push(a).push(b);
            assert(shutdown_sequence(used, n) == cur);
            assert(cur[prev.len() as int] == a);
            assert(cur[prev.len() + 1int] == b);
            assert forall|c: int| 0 <= c < n - 1 && #[trigger] used[c] implies cur.contains(
                message(CONTROL_CHANGE, c as u8, 123, 0),
            ) && cur.contains(message(CONTROL_CHANGE, c as u8, 120, 0)) by {
                let i = choose|i: int|
                    0 <= i < prev.len() && prev[i] == message(CONTROL_CHANGE, c as u8, 123, 0);
                assert(cur[i] == prev[i]);
                let j = choose|j: int|
                    0 <= j < prev.len() && prev[j] == message(CONTROL_CHANGE, c as u8, 120, 0);
                assert(cur[j] == prev[j]);
            }
        }
    }
}

/// `m` is a shutdown message of one of the channels of `sent`.
pub open spec fn shutdown_message_of_sent(sent: Seq<u8>, m: Seq<u8>) -> bool {
    exists|c: u8| sent.contains(c) && #[trigger] is_shutdown_message(m, c)
}

/// `m` is a shutdown message of some channel below `n` marked in `used`.
pub open spec fn shutdown_message_of(used: Seq<bool>, n: int, m: Seq<u8>) -> bool {
    exists|c: u8| c < n && used[c as int] && #[trigger] is_shutdown_message(m, c)
}

proof fn lemma_shutdown_only_used(used: Seq<bool>, n: int)
    requires
        0 <= n <= 16,
        used.len() == 16,
    ensures
        forall|k: int|
            0 <= k < shutdown_sequence(used, n).len() ==> shutdown_message_of(
                used,
                n,
                #[trigger] shutdown_sequence(used, n)[k],
            ),
    decreases n,
{
    if n > 0 {
        lemma_shutdown_only_used(used, n - 1);
        let prev = shutdown_sequence(used, n - 1);
        let cur = shutdown_sequence(used, n);
        let last = (n - 1) as u8;
        assert forall|k: int| 0 <= k < prev.len() implies shutdown_message_of(
            used,
            n,
            #[trigger] prev[k],
        ) by {
            assert(shutdown_message_of(used, n - 1, prev[k]));
            let c = choose|c: u8| c < n - 1 && used[c as int] && #[trigger] is_shutdown_message(prev[k], c);
            assert(is_shutdown_message(prev[k], c));
        }
        if used[n - 1] {
            let a = message(CONTROL_CHANGE, last, 123, 0);
            let b = message(CONTROL_CHANGE, last, 120, 0);
            assert(cur == prev.push(a).push(b));
            assert(is_shutdown_message(a, last));
            assert(is_shutdown_message(b, last));
            assert(shutdown_message_of(used, n, a));
            assert(shutdown_message_of(used, n, b));
            assert forall|k: int| 0 <= k < cur.len() implies shutdown_message_of(
                used,
                n,
                #[trigger] cur[k],
            ) by {
                if k < prev.len() {
                    assert(cur[k] == prev[k]);
                } else if k == prev.len() {
                    assert(cur[k] == a);
                } else {
                    assert(cur[k] == b);
                }
            }
        } else {
            assert(cur == prev);
        }
    }
}

/// The used-channel record follows the sends: an output that has sent
/// nothing (as `new` gives it) has `used_after` of no channels, and a send
/// on channel `c` (which marks `c`) extends the channels sent on by `c`.
pub proof fn lemma_used_after_follows_sends(sent: Seq<u8>, c: u8)
    ensures
        used_after(Seq::<u8>::empty()) == Seq::new(16, |i: int| false),
        used_after(sent.push(c)) == mark_used(used_after(sent), c),
{
    assert(sent.push(c).drop_last() =~= sent);
}

/// At shutdown, All Notes Off and All Sound Off go out on exactly the
/// channels sent on since the output was opened: for every channel of
/// `sent` both messages are in the shutdown sequence, and every message of
/// that sequence is one of the two for a channel of `sent`. (`new` gives
/// `used_after` of no sends; each send on channel `c` marks `c`, which is
/// `used_after` of the sends with `c` appended.)
pub proof fn lemma_shutdown_covers_exactly_sent_channels(sent: Seq<u8>)
    requires
        forall|i: int| 0 <= i < sent.len() ==> sent[i] <= 15,
    ensures
        forall|c: u8|
            #[trigger] sent.contains(c) ==> shutdown_sequence(used_after(sent), 16).contains(
                message(CONTROL_CHANGE, c, 123, 0),
            ) && shutdown_sequence(used_after(sent), 16).contains(
                message(CONTROL_CHANGE, c, 120, 0),
            ),
        forall|k: int|
            0 <= k < shutdown_sequence(used_after(sent), 16).len() ==> shutdown_message_of_sent(
                sent,
                #[trigger] shutdown_sequence(used_after(sent), 16)[k],
            ),
{
    let used = used_after(sent);
    let seq = shutdown_sequence(used, 16);
    lemma_used_after(sent);
    lemma_shutdown_covers_used(used, 16);
    lemma_shutdown_only_used(used, 16);
    assert forall|c: u8| #[trigger] sent.contains(c) implies seq.contains(
        message(CONTROL_CHANGE, c, 123, 0),
    ) && seq.contains(message(CONTROL_CHANGE, c, 120, 0)) by {
        let i = choose|i: int| 0 <= i < sent.len() && sent[i] == c;
        assert(c <= 15);
        assert(used[c as int]);
        assert((c as int) as u8 == c);
    }
    assert forall|k: int| 0 <= k < seq.len() implies shutdown_message_of_sent(
        sent,
        #[trigger] seq[k],
    ) by {
        assert(shutdown_message_of(used, 16, seq[k]));
        let c = choose|c: u8| c < 16 && used[c as int] && #[trigger] is_shutdown_message(seq[k], c);
        assert(used[c as int] == sent.contains(c));
        assert(sent.contains(c) && is_shutdown_message(seq[k], c));
    }
}

/// The byte views of a list of messages.
pub open spec fn messages_view(v: Seq<MidiBytes>) -> Seq<Seq<u8>> {
    v.map_values(|b: MidiBytes| b@)
}

/// Voice `v` can sound: it has a channel in 0..=15 and a pitch.
pub open spec fn voice_playable(o: MidiOutputView, v: int) -> bool {
    0 <= v < o.voice_channels.len() && o.voice_channels[v] <= 15 && v < o.voice_pitches.len()
}

/// What a gate of playable voice `v` sends at once: the note-off of the
/// pitch last started on its channel, if any (mono priority), then its
/// note-on.
pub open spec fn gate_now(o: MidiOutputView, v: int, velocity: u8) -> Seq<Seq<u8>> {
    let c = o.voice_channels[v];
    let on = message(NOTE_ON, c, o.voice_pitches[v], velocity);
    match o.sounding[c as int] {
        Some(prior) => seq![message(NOTE_OFF, c, prior, 0), on],
        None => seq![on],
    }
}

/// The end of a gate that `pitch` started on `channel`: when the channel
/// still sounds that pitch, its note-off, and the channel falls silent;
/// otherwise nothing is sent and nothing changes.
pub open spec fn gate_expiry(o: MidiOutputView, channel: u8, pitch: u8) -> (
    MidiOutputView,
    Option<Seq<u8>>,
) {
    if channel <= 15 && o.sounding[channel as int] == Some(pitch) {
        (
            MidiOutputView { sounding: o.sounding.update(channel as int, None), ..o },
            Some(message(NOTE_OFF, channel, pitch, 0)),
        )
    } else {
        (o, None)
    }
}

/// The byte view of an optional message.
pub open spec fn optional_view(r: Option<MidiBytes>) -> Option<Seq<u8>> {
    match r {
        Some(b) => Some(b@),
        None => None,
    }
}

/// The output after a gate of playable voice `v`: its channel is used,
/// and its pitch is the one sounding there.
pub open spec fn gate_after(o: MidiOutputView, v: int) -> MidiOutputView {
    let c = o.voice_channels[v];
    MidiOutputView {
        used: mark_used(o.used, c),
        sounding: o.sounding.update(c as int, Some(o.voice_pitches[v])),
        ..o
    }
}

/// Voices that share a channel are mono: after a gate of voice `a`, a gate
/// of voice `b` on the same channel first retires `a`'s pitch, then
/// starts its own.
pub proof fn lemma_shared_channel_is_mono(o: MidiOutputView, a: int, b: int, velocity: u8)
    requires
        voice_playable(o, a),
        voice_playable(o, b),
        o.voice_channels[a] == o.voice_channels[b],
        o.sounding.len() == 16,
    ensures
        gate_now(gate_after(o, a), b, velocity) == seq![
            message(NOTE_OFF, o.voice_channels[b], o.voice_pitches[a], 0),
            message(NOTE_ON, o.voice_channels[b], o.voice_pitches[b], velocity),
        ],
{
}

/// Voices on distinct channels do not interact: a gate of voice `a` does
/// not change what a later gate of voice `b` on another channel sends.
pub proof fn lemma_distinct_channels_are_independent(
    o: MidiOutputView,
    a: int,
    b: int,
    velocity: u8,
)
    requires
        voice_playable(o, a),
        voice_playable(o, b),
        o.voice_channels[a] != o.voice_channels[b],
        o.sounding.len() == 16,
    ensures
        gate_now(gate_after(o, a), b, velocity) == gate_now(o, b, velocity),
{
}

/// A retired gate ends silently: after a gate of voice `a` and then a
/// gate of voice `b` with another pitch on the same channel (which already
/// sent `a`'s note-off), the end of `a`'s gate sends nothing.
pub proof fn lemma_retired_gate_expires_silently(
    o: MidiOutputView,
    a: int,
    b: int,
    va: u8,
    vb: u8,
)
    requires
        voice_playable(o, a),
        voice_playable(o, b),
        o.voice_channels[a] == o.voice_channels[b],
        o.voice_pitches[a] != o.voice_pitches[b],
        o.sounding.len() == 16,
    ensures
        ({
            let s = gate_after(gate_after(o, a), b);
            gate_expiry(s, o.voice_channels[a], o.voice_pitches[a]) == (s, None::<Seq<u8>>)
        }),
{
}

/// The latest gate on a channel ends with its note-off, and the channel
/// falls silent.
pub proof fn lemma_latest_gate_expiry_sends_note_off(o: MidiOutputView, b: int)
    requires
        voice_playable(o, b),
        o.sounding.len() == 16,
    ensures
        ({
            let s = gate_after(o, b);
            let c = o.voice_channels[b];
            gate_expiry(s, c, o.voice_pitches[b]) == (
                MidiOutputView { sounding: s.sounding.update(c as int, None), ..s },
                Some(message(NOTE_OFF, c, o.voice_pitches[b], 0)),
            )
        }),
{
}

impl MidiOutputState {
    /// A fresh output: nothing used, nothing sounding.
    pub fn new(config: MidiConfig) -> (r: Self)
        ensures
            r@.voice_channels == config.voice_channels@,
            r@.voice_pitches == config.voice_pitches@,
            r@.gate_length_ms == config.gate_length_ms,
            r@.used == Seq::new(16, |c: int| false),
            r@.sounding == Seq::new(16, |c: int| None::<u8>),
    {
        let used = [false; 16];
        let sounding: [Option<u8>; 16] = [None; 16];
        assert(used@ =~= Seq::new(16, |c: int| false));
        assert(sounding@ =~= Seq::new(16, |c: int| None::<u8>));
        MidiOutputState { config, used, sounding }
    }

    fn mark(&mut self, channel: u8)
        requires
            channel <= 15,
        ensures
            final(self)@ == (MidiOutputView { used: mark_used(old(self)@.used, channel), ..old(self)@ }),
    {
        self.used[channel as usize] = true;
    }

    /// Open a note for voice `voice` with `velocity`: the voice's channel
    /// and pitch come from the configuration. If another pitch was started
    /// on that channel, its note-off goes first (mono priority per
    /// channel); then the note-on; the note-off follows once the note
    /// length has passed. `None`, with nothing changed, when the voice has no valid
    /// channel (0..=15) or no pitch.
    pub fn gate(&mut self, voice: u8, velocity: u8) -> (r: Option<TimedMessages>)
        ensures
            !voice_playable(old(self)@, voice as int) ==> r is None && final(self)@ == old(self)@,
            voice_playable(old(self)@, voice as int) ==> (r matches Some(t) && t.delay_ms == old(
                self,
            )@.gate_length_ms && t.later == DelayedNoteOff::Gate {
                channel: old(self)@.voice_channels[voice as int],
                pitch: old(self)@.voice_pitches[voice as int],
            } && messages_view(
                t.now@,
            ) == gate_now(old(self)@, voice as int, velocity) && final(self)@ == gate_after(
                old(self)@,
                voice as int,
            )),
    {
        let v = voice as usize;
        if v >= self.config.voice_channels.len() || self.config.voice_channels[v] > 15 {
            return None;
        }
        let channel = self.config.voice_channels[v];
        if v >= self.config.voice_pitches.len() {
            return None;
        }
        let pitch = self.config.voice_pitches[v];
        self.mark(channel);
        let mut now: Vec<MidiBytes> = Vec::new();
        let prior = self.sounding[channel as usize];
        if let Some(prior_pitch) = prior {
            now.push([status_byte(NOTE_OFF, channel), prior_pitch, 0]);
        }
        self.sounding[channel as usize] = Some(pitch);
        now.push([status_byte(NOTE_ON, channel), pitch, velocity]);
        let later = DelayedNoteOff::Gate { channel, pitch };
        proof {
            let on = seq![(NOTE_ON + channel) as u8, pitch, velocity];
            match prior {
                Some(pp) => {
                    assert(messages_view(now@) =~= seq![
                        seq![(NOTE_OFF + channel) as u8, pp, 0u8],
                        on,
                    ]);
                },
                None => {
                    assert(messages_view(now@) =~= seq![on]);
                },
            }
        }
        Some(TimedMessages { now, later, delay_ms: self.config.gate_length_ms })
    }

    /// A clock pulse on `channel`: a note-on (velocity 100) now, its
    /// note-off after `gate_length_ms`. Bypasses voice routing and mono
    /// priority. `None`, with nothing changed, for a channel above 15.
    pub fn clock_pulse(&mut self, channel: u8, pitch: u8, gate_length_ms: u64) -> (r: Option<
        TimedMessages,
    >)
        ensures
            channel > 15 ==> r is None && final(self)@ == old(self)@,
            channel <= 15 ==> (r matches Some(t) && messages_view(t.now@) == seq![
                message(NOTE_ON, channel, pitch % 128, 100),
            ] && t.later == DelayedNoteOff::Clock { channel, pitch } && t.delay_ms
                == gate_length_ms && final(self)@ == (MidiOutputView {
                used: mark_used(old(self)@.used, channel),
                ..old(self)@
            })),
    {
        if channel > 15 {
            return None;
        }
        self.mark(channel);
        let on = match note_on_bytes(channel, pitch, 100) {
            Some(b) => b,
            None => [0, 0, 0],
        };
        let mut now: Vec<MidiBytes> = Vec::new();
        now.push(on);
        assert(messages_view(now@) =~= seq![message(NOTE_ON, channel, pitch % 128, 100)]);
        Some(
            TimedMessages {
                now,
                later: DelayedNoteOff::Clock { channel, pitch },
                delay_ms: gate_length_ms,
            },
        )
    }

    /// The end of a gate that `pitch` started on `channel`: its note-off
    /// is sent only if the channel still sounds that pitch, and the channel
    /// then falls silent; otherwise nothing is sent and nothing changes.
    pub fn gate_expired(&mut self, channel: u8, pitch: u8) -> (r: Option<MidiBytes>)
        ensures
            (final(self)@, optional_view(r)) == gate_expiry(old(self)@, channel, pitch),
    {
        if channel > 15 {
            return None;
        }
        if self.sounding[channel as usize] != Some(pitch) {
            return None;
        }
        self.sounding[channel as usize] = None;
        let b = [status_byte(NOTE_OFF, channel), pitch, 0];
        assert(b@ =~= message(NOTE_OFF, channel, pitch, 0));
        Some(b)
    }

    /// Settle a delayed note-off whose time has come: a gate's goes through
    /// `gate_expired`; a clock pulse's is always sent (pitch reduced to 7
    /// bits; nothing for a channel above 15).
    pub fn expire(&mut self, off: DelayedNoteOff) -> (r: Option<MidiBytes>)
        ensures
            match off {
                DelayedNoteOff::Gate { channel, pitch } => (final(self)@, optional_view(r))
                    == gate_expiry(old(self)@, channel, pitch),
                DelayedNoteOff::Clock { channel, pitch } => final(self)@ == old(self)@
                    && optional_view(r) == (if channel <= 15 {
                    Some(message(NOTE_OFF, channel, pitch % 128, 0))
                } else {
                    None
                }),
            },
    {
        match off {
            DelayedNoteOff::Gate { channel, pitch } => self.gate_expired(channel, pitch),
            DelayedNoteOff::Clock { channel, pitch } => note_off_bytes(channel, pitch),
        }
    }

    /// A control change to send now; marks the channel used. `None`, with
    /// nothing changed, for a channel above 15.
    pub fn control_change(&mut self, channel: u8, cc_number: u8, value: u8) -> (r: Option<MidiBytes>)
        ensures
            channel > 15 ==> r is None && final(self)@ == old(self)@,
            channel <= 15 ==> (r matches Some(b) && b@ == message(
                CONTROL_CHANGE,
                channel,
                cc_number % 128,
                value % 128,
            ) && final(self)@ == (MidiOutputView {
                used: mark_used(old(self)@.used, channel),
                ..old(self)@
            })),
    {
        if channel > 15 {
            return None;
        }
        self.mark(channel);
        control_change_bytes(channel, cc_number, value)
    }

    /// A note-on to send now, whose note-off the caller sends later; marks
    /// the channel used. `None`, with nothing changed, for a channel above
    /// 15.
    pub fn note_on(&mut self, channel: u8, pitch: u8, velocity: u8) -> (r: Option<MidiBytes>)
        ensures
            channel > 15 ==> r is None && final(self)@ == old(self)@,
            channel <= 15 ==> (r matches Some(b) && b@ == message(
                NOTE_ON,
                channel,
                pitch % 128,
                velocity % 128,
            ) && final(self)@ == (MidiOutputView {
                used: mark_used(old(self)@.used, channel),
                ..old(self)@
            })),
    {
        if channel > 15 {
            return None;
        }
        self.mark(channel);
        note_on_bytes(channel, pitch, velocity)
    }

    /// A note-off to send now. `None` for a channel above 15.
    pub fn note_off(&self, channel: u8, pitch: u8) -> (r: Option<MidiBytes>)
        ensures
            channel > 15 ==> r is None,
            channel <= 15 ==> (r matches Some(b) && b@ == message(NOTE_OFF, channel, pitch % 128, 0)),
    {
        note_off_bytes(channel, pitch)
    }

    /// "All Notes Off" and "All Sound Off" on every channel used during
    /// the run, channel by channel in ascending order.
    pub fn shutdown_messages(&self) -> (r: Vec<MidiBytes>)
        ensures
            messages_view(r@) == shutdown_sequence(self@.used, 16),
    {
        let mut out: Vec<MidiBytes> = Vec::new();
        let mut c: usize = 0;
        while c < 16
            invariant
                self.used@.len() == 16,
                c <= 16,
                messages_view(out@) == shutdown_sequence(self.used@, c as int),
            decreases 16 - c,
        {
            if self.used[c] {
                let ch = c as u8;
                out.push([status_byte(CONTROL_CHANGE, ch), 123, 0]);
                out.push([status_byte(CONTROL_CHANGE, ch), 120, 0]);
            }
            c = c + 1;
            assert(messages_view(out@) =~= shutdown_sequence(self.used@, c as int));
        }
        out
    }
}

} // verus!
