//! The routing half of the configuration-file loader.
//!
//! The TOML text is deserialized elsewhere into the section values below
//! (`GatesSection`, `WallsSection`, `ClockSection`); this module validates
//! them and turns them into the runtime routing: gate voice channels and
//! pitches, the wall channel pool, the clock channel and the output sites.
//!
//! Channel numbers in the file are 1-based (1..=16); the routing holds
//! them 0-based. Voice keys are `voice_N`, where `N` is the chain site the
//! voice listens to.

use vstd::prelude::*;
use crate::config::{MidiConfig, WallMidiConfig, default_voice_pitches};
use crate::text::{parse_unsigned, parse_unsigned_str, strip_prefix, decimal, push_decimal};

verus! {

// --- Section values ----------------------------------------------------------

/// Which voice table of `[chain_a]` a key belongs to.
#[derive(Clone, Copy, Debug, PartialEq, Eq, Structural)]
pub enum Section {
    Gates,
    Walls,
}

/// A `voice_N` entry of `[chain_a.gates]`.
#[derive(Clone, Copy, Debug, PartialEq, Eq, Structural)]
pub enum GateVoiceEntry {
    /// Shorthand: just the channel number. Pitch falls back to default.
    ChannelOnly(u8),
    /// Full form: channel and pitch named.
    Full { channel: u8, pitch: Option<u8> },
}

/// A `voice_N` entry of `[chain_a.walls]`: always a bare channel number.
#[derive(Clone, Copy, Debug, PartialEq, Eq, Structural)]
pub enum WallVoiceEntry {
    Channel(u8),
}

/// `[chain_a.gates]`: the voice entries in key order, and the optional
/// gate length.
#[derive(Debug)]
pub struct GatesSection {
    pub gate_length_ms: Option<u64>,
    pub voices: Vec<(String, GateVoiceEntry)>,
}

/// `[chain_a.walls]`.
#[derive(Debug)]
pub struct WallsSection {
    pub pitch_low: Option<u8>,
    pub pitch_high: Option<u8>,
    /// 0 disables the motion CC. Any other value sets the CC number.
    pub motion_cc: Option<u8>,
    pub repitch_on_move: Option<bool>,
    pub voices: Vec<(String, WallVoiceEntry)>,
}

/// `[chain_a.clock]`.
#[derive(Clone, Copy, Debug)]
pub struct ClockSection {
    pub channel: u8,
    pub enabled: Option<bool>,
    pub pitch: Option<u8>,
    pub gate_length_ms: Option<u64>,
}

// --- Errors ------------------------------------------------------------------

/// The signal that claims a MIDI channel.
#[derive(Debug)]
pub enum ChannelOwner {
    /// A gate voice, by its key (`voice_N`).
    GateVoice(String),
    /// A wall voice, by its key (`voice_N`).
    WallVoice(String),
    Clock,
}

/// A configuration that is well-formed TOML but semantically invalid.
#[derive(Debug)]
pub enum ValidationError {
    /// A key of a voice table that is not `voice_<something>`.
    UnrecognizedKey { section: Section, key: String },
    /// A `voice_` key whose suffix is not an index.
    NonNumericSuffix { section: Section, key: String },
    /// `[chain_a.gates]` defines no voice.
    NoGateVoices,
    /// A 1-based channel number outside 1..=16.
    ChannelOutOfRange { owner: ChannelOwner, channel: u8 },
    /// `motion_cc` above 127.
    MotionCcOutOfRange { value: u8 },
    /// A wall pitch bound above 127.
    PitchOutOfRange { low: u8, high: u8 },
    /// `pitch_low` above `pitch_high`.
    PitchLowAboveHigh { low: u8, high: u8 },
    /// Two signals claim the same (0-based) channel (other than two gated
    /// voices, which may share one).
    DuplicateChannel { channel: u8, first: ChannelOwner, second: ChannelOwner },
    /// A gate voice listens to a site the chain does not have.
    MissingSite { site: usize, n_sites: usize },
}

/// The mathematical value of a `ChannelOwner`.
pub enum OwnerView {
    GateVoice(Seq<char>),
    WallVoice(Seq<char>),
    Clock,
}

/// The mathematical value of a `ValidationError`.
pub enum ValidationErrorView {
    UnrecognizedKey { section: Section, key: Seq<char> },
    NonNumericSuffix { section: Section, key: Seq<char> },
    NoGateVoices,
    ChannelOutOfRange { owner: OwnerView, channel: u8 },
    MotionCcOutOfRange { value: u8 },
    PitchOutOfRange { low: u8, high: u8 },
    PitchLowAboveHigh { low: u8, high: u8 },
    DuplicateChannel { channel: u8, first: OwnerView, second: OwnerView },
    MissingSite { site: usize, n_sites: usize },
}

impl View for ChannelOwner {
    type V = OwnerView;

    open spec fn view(&self) -> OwnerView {
        match self {
            ChannelOwner::GateVoice(k) => OwnerView::GateVoice(k@),
            ChannelOwner::WallVoice(k) => OwnerView::WallVoice(k@),
            ChannelOwner::Clock => OwnerView::Clock,
        }
    }
}

impl View for ValidationError {
    type V = ValidationErrorView;

    open spec fn view(&self) -> ValidationErrorView {
        match self {
            ValidationError::UnrecognizedKey { section, key } => {
                ValidationErrorView::UnrecognizedKey { section: *section, key: key@ }
            },
            ValidationError::NonNumericSuffix { section, key } => {
                ValidationErrorView::NonNumericSuffix { section: *section, key: key@ }
            },
            ValidationError::NoGateVoices => ValidationErrorView::NoGateVoices,
            ValidationError::ChannelOutOfRange { owner, channel } => {
                ValidationErrorView::ChannelOutOfRange { owner: owner@, channel: *channel }
            },
            ValidationError::MotionCcOutOfRange { value } => {
                ValidationErrorView::MotionCcOutOfRange { value: *value }
            },
            ValidationError::PitchOutOfRange { low, high } => {
                ValidationErrorView::PitchOutOfRange { low: *low, high: *high }
            },
            ValidationError::PitchLowAboveHigh { low, high } => {
                ValidationErrorView::PitchLowAboveHigh { low: *low, high: *high }
            },
            ValidationError::DuplicateChannel { channel, first, second } => {
                ValidationErrorView::DuplicateChannel {
                    channel: *channel,
                    first: first@,
                    second: second@,
                }
            },
            ValidationError::MissingSite { site, n_sites } => {
                ValidationErrorView::MissingSite { site: *site, n_sites: *n_sites }
            },
        }
    }
}

impl ChannelOwner {
    /// A copy of this owner.
    pub fn duplicate(&self) -> (r: ChannelOwner)
        ensures
            r@ == self@,
    {
        match self {
            ChannelOwner::GateVoice(k) => ChannelOwner::GateVoice(k.clone()),
            ChannelOwner::WallVoice(k) => ChannelOwner::WallVoice(k.clone()),
            ChannelOwner::Clock => ChannelOwner::Clock,
        }
    }
}

// --- Voice keys ----------------------------------------------------------------

/// The prefix every voice key starts with.
pub open spec fn voice_prefix() -> Seq<char> {
    seq!['v', 'o', 'i', 'c', 'e', '_']
}

/// The index `N` of a key `voice_N`: the suffix read as a `usize` by the
/// standard library's unsigned grammar. `None` for any other key.
pub open spec fn voice_index(key: Seq<char>) -> Option<nat> {
    if voice_prefix().is_prefix_of(key) {
        parse_unsigned(key.skip(6), usize::MAX as nat)
    } else {
        None
    }
}

/// The error a key that is not a valid voice key is reported with.
pub open spec fn key_error(section: Section, key: Seq<char>) -> ValidationErrorView {
    if voice_prefix().is_prefix_of(key) {
        ValidationErrorView::NonNumericSuffix { section, key }
    } else {
        ValidationErrorView::UnrecognizedKey { section, key }
    }
}

/// The keys of a voice table, in table order.
pub open spec fn keys_of<V>(entries: Seq<(String, V)>) -> Seq<Seq<char>> {
    entries.map_values(|e: (String, V)| e.0@)
}

/// `i` is the first key of `keys` that is not a valid voice key.
pub open spec fn first_bad_key(keys: Seq<Seq<char>>, i: int) -> bool {
    &&& 0 <= i < keys.len()
    &&& voice_index(keys[i]) is None
    &&& forall|j: int| 0 <= j < i ==> voice_index(#[trigger] keys[j]) is Some
}

/// Every key of `keys` is a valid voice key.
pub open spec fn all_keys_valid(keys: Seq<Seq<char>>) -> bool {
    forall|j: int| 0 <= j < keys.len() ==> voice_index(#[trigger] keys[j]) is Some
}

/// `(index, position)` pairs ordered by voice index, and by table position
/// between keys with the same index.
pub open spec fn pair_lt(a: (usize, usize), b: (usize, usize)) -> bool {
    a.0 < b.0 || (a.0 == b.0 && a.1 < b.1)
}

/// `order` lists every voice of the table once, as `(voice index, table
/// position)`, ordered by voice index and, between equal indices, by
/// position in the table (a stable sort by index).
pub open spec fn is_voice_order(keys: Seq<Seq<char>>, order: Seq<(usize, usize)>) -> bool {
    &&& order.len() == keys.len()
    &&& forall|k: int|
        0 <= k < order.len() ==> (#[trigger] order[k]).1 < keys.len() && voice_index(
            keys[order[k].1 as int],
        ) == Some(order[k].0 as nat)
    &&& forall|k: int, l: int| 0 <= k < l < order.len() ==> pair_lt(order[k], order[l])
    &&& forall|p: int| 0 <= p < keys.len() ==> #[trigger] position_listed(order, p)
}

/// Some pair of `order` is at table position `p`.
pub open spec fn position_listed(order: Seq<(usize, usize)>, p: int) -> bool {
    exists|k: int| 0 <= k < order.len() && (#[trigger] order[k]).1 == p
}

/// The result of parsing the keys of a voice table: the error of the first
/// invalid key, or the voice order.
pub open spec fn voice_parse_result(
    keys: Seq<Seq<char>>,
    section: Section,
    r: Result<Seq<(usize, usize)>, ValidationErrorView>,
) -> bool {
    match r {
        Ok(order) => all_keys_valid(keys) && is_voice_order(keys, order),
        Err(e) => exists|i: int| first_bad_key(keys, i) && e == key_error(section, keys[i]),
    }
}

/// The voice order of a table whose keys are all valid.
pub open spec fn voice_order(keys: Seq<Seq<char>>) -> Seq<(usize, usize)> {
    choose|o: Seq<(usize, usize)>| is_voice_order(keys, o)
}

/// The first invalid key of a table that has one.
pub open spec fn first_bad_key_index(keys: Seq<Seq<char>>) -> int {
    choose|i: int| first_bad_key(keys, i)
}

proof fn lemma_first_bad_key_unique(keys: Seq<Seq<char>>, i: int)
    requires
        first_bad_key(keys, i),
    ensures
        first_bad_key_index(keys) == i,
{
    let j = first_bad_key_index(keys);
    assert(first_bad_key(keys, j));
    if j < i {
        assert(voice_index(keys[j]) is Some);
    } else if j > i {
        assert(voice_index(keys[i]) is Some);
    }
}

proof fn lemma_voice_order_prefix(
    keys: Seq<Seq<char>>,
    a: Seq<(usize, usize)>,
    b: Seq<(usize, usize)>,
    n: int,
)
    requires
        is_voice_order(keys, a),
        is_voice_order(keys, b),
        0 <= n <= a.len(),
    ensures
        forall|j: int| 0 <= j < n ==> a[j] == b[j],
    decreases n,
{
    if n > 0 {
        lemma_voice_order_prefix(keys, a, b, n - 1);
        let k = n - 1;
        let p = a[k].1 as int;
        assert(position_listed(b, p));
        let m = choose|m: int| 0 <= m < b.len() && (#[trigger] b[m]).1 == p;
        assert(voice_index(keys[p]) == Some(a[k].0 as nat));
        assert(voice_index(keys[b[m].1 as int]) == Some(b[m].0 as nat));
        assert(b[m] == a[k]);
        let q = b[k].1 as int;
        assert(position_listed(a, q));
        let m2 = choose|m: int| 0 <= m < a.len() && (#[trigger] a[m]).1 == q;
        assert(voice_index(keys[a[m2].1 as int]) == Some(a[m2].0 as nat));
        assert(a[m2] == b[k]);
        if m < k {
            assert(a[m] == b[m]);
            assert(pair_lt(a[m], a[k]));
        } else if m > k {
            assert(pair_lt(b[k], b[m]));
            if m2 < k {
                assert(a[m2] == b[m2]);
                assert(pair_lt(b[m2], b[k]));
            } else if m2 > k {
                assert(pair_lt(a[k], a[m2]));
            }
        }
    }
}

/// The voice order of a table is unique: the order `parse_voice_indices`
/// returns is the only one that lists every voice once, by index, stably.
pub proof fn lemma_voice_order_unique(
    keys: Seq<Seq<char>>,
    a: Seq<(usize, usize)>,
    b: Seq<(usize, usize)>,
)
    requires
        is_voice_order(keys, a),
        is_voice_order(keys, b),
    ensures
        a == b,
{
    lemma_voice_order_prefix(keys, a, b, a.len() as int);
    assert(a =~= b);
}

/// The voice index of one key, with the error it is rejected with.
pub fn parse_voice_key(key: &String, section: Section) -> (r: Result<usize, ValidationError>)
    ensures
        r matches Ok(n) ==> voice_index(key@) == Some(n as nat),
        r matches Err(e) ==> voice_index(key@) is None && e@ == key_error(section, key@),
{
    proof {
        reveal_strlit("voice_");
        assert("voice_"@ =~= voice_prefix());
    }
    match strip_prefix(key.as_str(), "voice_") {
        None => Err(ValidationError::UnrecognizedKey { section, key: key.clone() }),
        Some(suffix) => {
            match parse_unsigned_str(suffix, usize::MAX as u64) {
                Some(n) => Ok(n as usize),
                None => Err(ValidationError::NonNumericSuffix { section, key: key.clone() }),
            }
        },
    }
}

/// Parse the `voice_N` keys of a voice table into `(N, position)` pairs
/// sorted by `N` (stable). Keys that don't match `voice_<digits>` are an
/// error naming the first such key: typos are not silently ignored.
pub fn parse_voice_indices<V>(entries: &Vec<(String, V)>, section: Section) -> (r: Result<
    Vec<(usize, usize)>,
    ValidationError,
>)
    ensures
        voice_parse_result(
            keys_of(entries@),
            section,
            match r {
                Ok(v) => Ok(v@),
                Err(e) => Err(e@),
            },
        ),
{
    let ghost keys = keys_of(entries@);
    let mut out: Vec<(usize, usize)> = Vec::new();
    let mut i: usize = 0;
    while i < entries.len()
        invariant
            keys == keys_of(entries@),
            keys.len() == entries@.len(),
            i <= entries@.len(),
            forall|j: int| 0 <= j < i ==> voice_index(#[trigger] keys[j]) is Some,
            out@.len() == i,
            forall|k: int|
                0 <= k < out@.len() ==> (#[trigger] out@[k]).1 < i && voice_index(
                    keys[out@[k].1 as int],
                ) == Some(out@[k].0 as nat),
            forall|k: int, l: int| 0 <= k < l < out@.len() ==> pair_lt(out@[k], out@[l]),
            forall|p: int| 0 <= p < i ==> #[trigger] position_listed(out@, p),
        decreases entries@.len() - i,
    {
        let idx = match parse_voice_key(&entries[i].0, section) {
            Ok(n) => n,
            Err(e) => {
                proof {
                    assert(keys[i as int] == entries@[i as int].0@);
                    assert(first_bad_key(keys, i as int));
                }
                return Err(e);
            },
        };
        assert(keys[i as int] == entries@[i as int].0@);
        // Insert after every pair whose index is not larger (stable).
        let mut j: usize = out.len();
        while j > 0 && out[j - 1].0 > idx
            invariant
                j <= out@.len(),
                forall|k: int| j <= k < out@.len() ==> (#[trigger] out@[k]).0 > idx,
            decreases j,
        {
            j = j - 1;
        }
        let ghost prev = out@;
        out.insert(j, (idx, i));
        proof {
            assert(out@ == prev.insert(j as int, (idx, i)));
            assert forall|k: int| 0 <= k < out@.len() implies (#[trigger] out@[k]).1 < i + 1
                && voice_index(keys[out@[k].1 as int]) == Some(out@[k].0 as nat) by {
                if k < j {
                    assert(out@[k] == prev[k]);
                } else if k > j {
                    assert(out@[k] == prev[k - 1]);
                }
            }
            assert forall|k: int, l: int| 0 <= k < l < out@.len() implies pair_lt(
                out@[k],
                out@[l],
            ) by {
                if l < j {
                    assert(out@[k] == prev[k] && out@[l] == prev[l]);
                } else if l == j {
                    assert(out@[k] == prev[k]);
                    if j > 0 {
                        assert(!(prev[j - 1].0 > idx));
                        if k < j - 1 {
                            assert(pair_lt(prev[k], prev[j - 1]));
                        }
                    }
                } else if k == j {
                    assert(out@[l] == prev[l - 1]);
                } else if k < j {
                    assert(out@[k] == prev[k] && out@[l] == prev[l - 1]);
                    if j > 0 {
                        assert(!(prev[j - 1].0 > idx));
                    }
                } else {
                    assert(out@[k] == prev[k - 1] && out@[l] == prev[l - 1]);
                }
            }
            assert forall|p: int| 0 <= p < i + 1 implies #[trigger] position_listed(out@, p) by {
                if p == i {
                    assert(out@[j as int].1 == p);
                } else {
                    assert(position_listed(prev, p));
                    let k0 = choose|k: int| 0 <= k < prev.len() && (#[trigger] prev[k]).1 == p;
                    if k0 < j {
                        assert(out@[k0].1 == p);
                    } else {
                        assert(out@[k0 + 1].1 == p);
                    }
                }
            }
        }
        i = i + 1;
    }
    Ok(out)
}


// --- Channel claims ------------------------------------------------------------

/// "This channel (0-based) is claimed by this signal."
#[derive(Debug)]
pub struct ChannelClaim {
    pub channel: u8,
    pub owner: ChannelOwner,
}

/// The mathematical value of a `ChannelClaim`.
pub struct ClaimView {
    pub channel: u8,
    pub owner: OwnerView,
}

impl View for ChannelClaim {
    type V = ClaimView;

    open spec fn view(&self) -> ClaimView {
        ClaimView { channel: self.channel, owner: self.owner@ }
    }
}

/// The views of a list of claims.
pub open spec fn claims_view(claims: Seq<ChannelClaim>) -> Seq<ClaimView> {
    claims.map_values(|c: ChannelClaim| c@)
}

/// A 1-based channel number that the file accepts.
pub open spec fn channel_ok(channel_1b: u8) -> bool {
    1 <= channel_1b <= 16
}

/// Translate a 1-based channel number from the file (1..=16) into a
/// 0-based channel. Out-of-range values are an error naming the owner.
pub fn validate_channel_1based(channel_1b: u8, owner: ChannelOwner) -> (r: Result<
    u8,
    ValidationError,
>)
    ensures
        channel_ok(channel_1b) ==> r == Ok::<u8, ValidationError>((channel_1b - 1) as u8),
        !channel_ok(channel_1b) ==> (r matches Err(e) && e@
            == (ValidationErrorView::ChannelOutOfRange { owner: owner@, channel: channel_1b })),
{
    if !(1 <= channel_1b && channel_1b <= 16) {
        return Err(ValidationError::ChannelOutOfRange { owner, channel: channel_1b });
    }
    Ok(channel_1b - 1)
}

// --- Gates -----------------------------------------------------------------------

/// The channel of a gate voice entry, 1-based.
pub open spec fn gate_channel(e: GateVoiceEntry) -> u8 {
    match e {
        GateVoiceEntry::ChannelOnly(c) => c,
        GateVoiceEntry::Full { channel, .. } => channel,
    }
}

/// The pitch a gate voice entry names, if any.
pub open spec fn gate_pitch(e: GateVoiceEntry) -> Option<u8> {
    match e {
        GateVoiceEntry::ChannelOnly(_) => None,
        GateVoiceEntry::Full { pitch, .. } => pitch,
    }
}

/// The pitch of voice `voice_N` when its entry names none: the Cmaj7
/// default voicing for N < 4, C3 (48) beyond.
pub open spec fn default_gate_pitch(index: nat) -> u8 {
    if index < default_voice_pitches().len() {
        default_voice_pitches()[index as int]
    } else {
        48
    }
}

/// The entry, key and index of the `k`-th gate voice in voice order.
pub open spec fn ordered_entry<V>(voices: Seq<(String, V)>, k: int) -> V {
    voices[voice_order(keys_of(voices))[k].1 as int].1
}

pub open spec fn ordered_key<V>(voices: Seq<(String, V)>, k: int) -> Seq<char> {
    voices[voice_order(keys_of(voices))[k].1 as int].0@
}

pub open spec fn ordered_index<V>(voices: Seq<(String, V)>, k: int) -> usize {
    voice_order(keys_of(voices))[k].0
}

/// `k` is the first gate voice (in voice order) with an invalid channel.
pub open spec fn first_bad_gate_channel(voices: Seq<(String, GateVoiceEntry)>, k: int) -> bool {
    &&& 0 <= k < voices.len()
    &&& !channel_ok(gate_channel(ordered_entry(voices, k)))
    &&& forall|j: int| 0 <= j < k ==> channel_ok(gate_channel(#[trigger] ordered_entry(voices, j)))
}

/// Gated-voice routing that a valid `[chain_a.gates]` produces.
pub struct GateRoutingView {
    pub voice_channels: Seq<u8>,
    pub voice_pitches: Seq<u8>,
    pub gate_length_ms: u64,
    pub claims: Seq<ClaimView>,
}

/// What `[chain_a.gates]` turns into: the routing, or the first error in
/// the order the loader checks (keys, at least one voice, channels in
/// voice order).
pub open spec fn gate_routing(voices: Seq<(String, GateVoiceEntry)>, gate_length_ms: Option<u64>) -> Result<
    GateRoutingView,
    ValidationErrorView,
> {
    let keys = keys_of(voices);
    if !all_keys_valid(keys) {
        Err(key_error(Section::Gates, keys[first_bad_key_index(keys)]))
    } else if voices.len() == 0 {
        Err(ValidationErrorView::NoGateVoices)
    } else if exists|k: int| first_bad_gate_channel(voices, k) {
        let k = choose|k: int| first_bad_gate_channel(voices, k);
        Err(
            ValidationErrorView::ChannelOutOfRange {
                owner: OwnerView::GateVoice(ordered_key(voices, k)),
                channel: gate_channel(ordered_entry(voices, k)),
            },
        )
    } else {
        let n = voices.len();
        Ok(
            GateRoutingView {
                voice_channels: Seq::new(
                    n,
                    |k: int| (gate_channel(ordered_entry(voices, k)) - 1) as u8,
                ),
                voice_pitches: Seq::new(
                    n,
                    |k: int|
                        match gate_pitch(ordered_entry(voices, k)) {
                            Some(p) => p,
                            None => default_gate_pitch(ordered_index(voices, k) as nat),
                        },
                ),
                gate_length_ms: match gate_length_ms {
                    Some(g) => g,
                    None => 50,
                },
                claims: Seq::new(
                    n,
                    |k: int|
                        ClaimView {
                            channel: (gate_channel(ordered_entry(voices, k)) - 1) as u8,
                            owner: OwnerView::GateVoice(ordered_key(voices, k)),
                        },
                ),
            },
        )
    }
}

/// The view of what `build_midi` returns.
pub open spec fn midi_result_view(r: Result<(MidiConfig, Vec<ChannelClaim>), ValidationError>) -> Result<
    GateRoutingView,
    ValidationErrorView,
> {
    match r {
        Ok((m, c)) => Ok(
            GateRoutingView {
                voice_channels: m.voice_channels@,
                voice_pitches: m.voice_pitches@,
                gate_length_ms: m.gate_length_ms,
                claims: claims_view(c@),
            },
        ),
        Err(e) => Err(e@),
    }
}

/// Build a gated-voice `MidiConfig` from `[chain_a.gates]`, with the list of
/// channels it claims (for the duplicate validator).
pub fn build_midi(section: &GatesSection) -> (r: Result<(MidiConfig, Vec<ChannelClaim>), ValidationError>)
    ensures
        midi_result_view(r) == gate_routing(section.voices@, section.gate_length_ms),
{
    let ghost voices = section.voices@;
    let ghost keys = keys_of(voices);
    let defaults = MidiConfig::default();
    let sorted = match parse_voice_indices(&section.voices, Section::Gates) {
        Ok(v) => v,
        Err(e) => {
            proof {
                let i = choose|i: int| first_bad_key(keys, i) && e@ == key_error(Section::Gates, keys[i]);
                lemma_first_bad_key_unique(keys, i);
            }
            return Err(e);
        },
    };
    proof {
        lemma_voice_order_unique(keys, sorted@, voice_order(keys));
    }
    if sorted.len() == 0 {
        return Err(ValidationError::NoGateVoices);
    }
    let mut voice_channels: Vec<u8> = Vec::new();
    let mut voice_pitches: Vec<u8> = Vec::new();
    let mut claims: Vec<ChannelClaim> = Vec::new();
    let mut k: usize = 0;
    while k < sorted.len()
        invariant
            voices == section.voices@,
            keys == keys_of(voices),
            all_keys_valid(keys),
            sorted@ == voice_order(keys),
            is_voice_order(keys, sorted@),
            sorted@.len() == voices.len(),
            defaults.voice_pitches@ == default_voice_pitches(),
            k <= sorted@.len(),
            voice_channels@.len() == k,
            voice_pitches@.len() == k,
            claims@.len() == k,
            forall|j: int| 0 <= j < k ==> channel_ok(gate_channel(#[trigger] ordered_entry(voices, j))),
            forall|j: int|
                0 <= j < k ==> #[trigger] voice_channels@[j] == (gate_channel(
                    ordered_entry(voices, j),
                ) - 1) as u8,
            forall|j: int|
                0 <= j < k ==> #[trigger] voice_pitches@[j] == match gate_pitch(
                    ordered_entry(voices, j),
                ) {
                    Some(p) => p,
                    None => default_gate_pitch(ordered_index(voices, j) as nat),
                },
            forall|j: int|
                0 <= j < k ==> #[trigger] claims@[j]@ == (ClaimView {
                    channel: (gate_channel(ordered_entry(voices, j)) - 1) as u8,
                    owner: OwnerView::GateVoice(ordered_key(voices, j)),
                }),
        decreases sorted@.len() - k,
    {
        let (idx, pos) = sorted[k];
        assert(pos < voices.len());
        let entry = &section.voices[pos];
        let (channel_1b, pitch) = match &entry.1 {
            GateVoiceEntry::ChannelOnly(c) => (*c, None),
            GateVoiceEntry::Full { channel, pitch } => (*channel, *pitch),
        };
        assert(channel_1b == gate_channel(ordered_entry(voices, k as int)));
        let channel_0b = match validate_channel_1based(
            channel_1b,
            ChannelOwner::GateVoice(entry.0.clone()),
        ) {
            Ok(c) => c,
            Err(e) => {
                proof {
                    assert(first_bad_gate_channel(voices, k as int));
                    let k2 = choose|k2: int| first_bad_gate_channel(voices, k2);
                    if k2 < k {
                        assert(channel_ok(gate_channel(ordered_entry(voices, k2))));
                    } else if k2 > k {
                        assert(channel_ok(gate_channel(ordered_entry(voices, k as int))));
                    }
                }
                return Err(e);
            },
        };
        let p = match pitch {
            Some(p) => p,
            None => {
                if idx < defaults.voice_pitches.len() {
                    defaults.voice_pitches[idx]
                } else {
                    48
                }
            },
        };
        voice_channels.push(channel_0b);
        voice_pitches.push(p);
        claims.push(ChannelClaim { channel: channel_0b, owner: ChannelOwner::GateVoice(entry.0.clone()) });
        k = k + 1;
    }
    proof {
        assert(!exists|j: int| first_bad_gate_channel(voices, j));
        let g = gate_routing(voices, section.gate_length_ms);
        assert(voice_channels@ =~= g->Ok_0.voice_channels);
        assert(voice_pitches@ =~= g->Ok_0.voice_pitches);
        assert(claims_view(claims@) =~= g->Ok_0.claims);
    }
    let midi = MidiConfig {
        voice_channels,
        voice_pitches,
        gate_length_ms: match section.gate_length_ms {
            Some(g) => g,
            None => defaults.gate_length_ms,
        },
    };
    Ok((midi, claims))
}


// --- Walls -----------------------------------------------------------------------

/// The 1-based channel of a wall voice entry.
pub open spec fn wall_channel(e: WallVoiceEntry) -> u8 {
    match e {
        WallVoiceEntry::Channel(c) => c,
    }
}

/// `k` is the first wall voice (in voice order) with an invalid channel.
pub open spec fn first_bad_wall_channel(voices: Seq<(String, WallVoiceEntry)>, k: int) -> bool {
    &&& 0 <= k < voices.len()
    &&& !channel_ok(wall_channel(ordered_entry(voices, k)))
    &&& forall|j: int| 0 <= j < k ==> channel_ok(wall_channel(#[trigger] ordered_entry(voices, j)))
}

/// The wall routing `[chain_a.walls]` produces.
pub struct WallRoutingView {
    pub enabled: bool,
    pub channels: Seq<u8>,
    pub pitch_low: u8,
    pub pitch_high: u8,
    pub motion_cc: Option<u8>,
    pub repitch_on_move: bool,
    pub claims: Seq<ClaimView>,
}

/// What `[chain_a.walls]` turns into. Without the table walls are
/// disabled and claim no channel; with it, the first error in the order
/// the loader checks (keys, channels in voice order, motion CC, pitch
/// range, pitch order), or the routing. A motion CC of 0 disables it.
pub open spec fn wall_routing(section: Option<&WallsSection>) -> Result<
    WallRoutingView,
    ValidationErrorView,
> {
    match section {
        None => Ok(
            WallRoutingView {
                enabled: false,
                channels: Seq::empty(),
                pitch_low: 36,
                pitch_high: 60,
                motion_cc: Some(1u8),
                repitch_on_move: false,
                claims: Seq::empty(),
            },
        ),
        Some(s) => {
            let voices = s.voices@;
            let keys = keys_of(voices);
            let low = match s.pitch_low {
                Some(p) => p,
                None => 36u8,
            };
            let high = match s.pitch_high {
                Some(p) => p,
                None => 60u8,
            };
            if !all_keys_valid(keys) {
                Err(key_error(Section::Walls, keys[first_bad_key_index(keys)]))
            } else if exists|k: int| first_bad_wall_channel(voices, k) {
                let k = choose|k: int| first_bad_wall_channel(voices, k);
                Err(
                    ValidationErrorView::ChannelOutOfRange {
                        owner: OwnerView::WallVoice(ordered_key(voices, k)),
                        channel: wall_channel(ordered_entry(voices, k)),
                    },
                )
            } else if s.motion_cc matches Some(n) && n > 127 {
                Err(ValidationErrorView::MotionCcOutOfRange { value: s.motion_cc->0 })
            } else if low > 127 || high > 127 {
                Err(ValidationErrorView::PitchOutOfRange { low, high })
            } else if low > high {
                Err(ValidationErrorView::PitchLowAboveHigh { low, high })
            } else {
                let n = voices.len();
                Ok(
                    WallRoutingView {
                        enabled: n > 0,
                        channels: Seq::new(
                            n,
                            |k: int| (wall_channel(ordered_entry(voices, k)) - 1) as u8,
                        ),
                        pitch_low: low,
                        pitch_high: high,
                        motion_cc: match s.motion_cc {
                            Some(c) => if c == 0 {
                                None
                            } else {
                                Some(c)
                            },
                            None => Some(1u8),
                        },
                        repitch_on_move: match s.repitch_on_move {
                            Some(b) => b,
                            None => false,
                        },
                        claims: Seq::new(
                            n,
                            |k: int|
                                ClaimView {
                                    channel: (wall_channel(ordered_entry(voices, k)) - 1) as u8,
                                    owner: OwnerView::WallVoice(ordered_key(voices, k)),
                                },
                        ),
                    },
                )
            }
        },
    }
}

/// The view of what `build_walls` returns.
pub open spec fn walls_result_view(r: Result<(bool, WallMidiConfig, Vec<ChannelClaim>), ValidationError>) -> Result<
    WallRoutingView,
    ValidationErrorView,
> {
    match r {
        Ok((enabled, m, c)) => Ok(
            WallRoutingView {
                enabled,
                channels: m.channels@,
                pitch_low: m.pitch_low,
                pitch_high: m.pitch_high,
                motion_cc: m.motion_cc,
                repitch_on_move: m.repitch_on_move,
                claims: claims_view(c@),
            },
        ),
        Err(e) => Err(e@),
    }
}

/// Build the wall routing from `[chain_a.walls]`: whether wall output is
/// enabled, the wall MIDI configuration, and the channels it claims.
pub fn build_walls(section: Option<&WallsSection>) -> (r: Result<
    (bool, WallMidiConfig, Vec<ChannelClaim>),
    ValidationError,
>)
    ensures
        walls_result_view(r) == wall_routing(section),
{
    let midi_defaults = WallMidiConfig::default();
    let s = match section {
        None => {
            let wall_midi = WallMidiConfig {
                channels: Vec::new(),
                pitch_low: midi_defaults.pitch_low,
                pitch_high: midi_defaults.pitch_high,
                motion_cc: midi_defaults.motion_cc,
                repitch_on_move: midi_defaults.repitch_on_move,
            };
            let r = Ok((false, wall_midi, Vec::new()));
            proof {
                assert(claims_view(Seq::<ChannelClaim>::empty()) =~= Seq::<ClaimView>::empty());
            }
            return r;
        },
        Some(s) => s,
    };
    let ghost voices = s.voices@;
    let ghost keys = keys_of(voices);
    let sorted = match parse_voice_indices(&s.voices, Section::Walls) {
        Ok(v) => v,
        Err(e) => {
            proof {
                let i = choose|i: int| first_bad_key(keys, i) && e@ == key_error(Section::Walls, keys[i]);
                lemma_first_bad_key_unique(keys, i);
            }
            return Err(e);
        },
    };
    proof {
        lemma_voice_order_unique(keys, sorted@, voice_order(keys));
    }
    let mut channels: Vec<u8> = Vec::new();
    let mut claims: Vec<ChannelClaim> = Vec::new();
    let mut k: usize = 0;
    while k < sorted.len()
        invariant
            voices == s.voices@,
            section == Some(s),
            keys == keys_of(voices),
            all_keys_valid(keys),
            sorted@ == voice_order(keys),
            is_voice_order(keys, sorted@),
            sorted@.len() == voices.len(),
            k <= sorted@.len(),
            channels@.len() == k,
            claims@.len() == k,
            forall|j: int| 0 <= j < k ==> channel_ok(wall_channel(#[trigger] ordered_entry(voices, j))),
            forall|j: int|
                0 <= j < k ==> #[trigger] channels@[j] == (wall_channel(
                    ordered_entry(voices, j),
                ) - 1) as u8,
            forall|j: int|
                0 <= j < k ==> #[trigger] claims@[j]@ == (ClaimView {
                    channel: (wall_channel(ordered_entry(voices, j)) - 1) as u8,
                    owner: OwnerView::WallVoice(ordered_key(voices, j)),
                }),
        decreases sorted@.len() - k,
    {
        let (_idx, pos) = sorted[k];
        assert(pos < voices.len());
        let entry = &s.voices[pos];
        let c = match &entry.1 {
            WallVoiceEntry::Channel(c) => *c,
        };
        assert(c == wall_channel(ordered_entry(voices, k as int)));
        let channel_0b = match validate_channel_1based(c, ChannelOwner::WallVoice(entry.0.clone())) {
            Ok(ch) => ch,
            Err(e) => {
                proof {
                    assert(first_bad_wall_channel(voices, k as int));
                    let k2 = choose|k2: int| first_bad_wall_channel(voices, k2);
                    if k2 < k {
                        assert(channel_ok(wall_channel(ordered_entry(voices, k2))));
                    } else if k2 > k {
                        assert(channel_ok(wall_channel(ordered_entry(voices, k as int))));
                    }
                }
                return Err(e);
            },
        };
        channels.push(channel_0b);
        claims.push(ChannelClaim { channel: channel_0b, owner: ChannelOwner::WallVoice(entry.0.clone()) });
        k = k + 1;
    }
    assert(!exists|j: int| first_bad_wall_channel(voices, j));
    let motion_cc = match s.motion_cc {
        Some(0) => None,
        Some(n) => {
            if n <= 127 {
                Some(n)
            } else {
                return Err(ValidationError::MotionCcOutOfRange { value: n });
            }
        },
        None => midi_defaults.motion_cc,
    };
    let pitch_low = match s.pitch_low {
        Some(p) => p,
        None => midi_defaults.pitch_low,
    };
    let pitch_high = match s.pitch_high {
        Some(p) => p,
        None => midi_defaults.pitch_high,
    };
    if pitch_low > 127 || pitch_high > 127 {
        return Err(ValidationError::PitchOutOfRange { low: pitch_low, high: pitch_high });
    }
    if pitch_low > pitch_high {
        return Err(ValidationError::PitchLowAboveHigh { low: pitch_low, high: pitch_high });
    }
    // No wall voices listed: equivalent to walls disabled.
    let enabled = channels.len() > 0;
    proof {
        let g = wall_routing(section);
        assert(channels@ =~= g->Ok_0.channels);
        assert(claims_view(claims@) =~= g->Ok_0.claims);
    }
    let wall_midi = WallMidiConfig {
        channels,
        pitch_low,
        pitch_high,
        motion_cc,
        repitch_on_move: match s.repitch_on_move {
            Some(b) => b,
            None => midi_defaults.repitch_on_move,
        },
    };
    Ok((enabled, wall_midi, claims))
}


// --- Clock and output sites ------------------------------------------------------

/// The clock routing: `[chain_a.clock]` with defaults applied.
#[derive(Clone, Copy, Debug, PartialEq, Eq, Structural)]
pub struct ClockRouting {
    pub enabled: bool,
    /// 0-based channel.
    pub channel: u8,
    pub pitch: u8,
    pub gate_length_ms: u64,
}

/// What `[chain_a.clock]` turns into: its channel must be in 1..=16;
/// the clock is enabled, on C3 (48), with a 25 ms gate unless the table
/// says otherwise.
pub open spec fn clock_routing(section: ClockSection) -> Result<ClockRouting, ValidationErrorView> {
    if !channel_ok(section.channel) {
        Err(ValidationErrorView::ChannelOutOfRange { owner: OwnerView::Clock, channel: section.channel })
    } else {
        Ok(
            ClockRouting {
                enabled: match section.enabled {
                    Some(b) => b,
                    None => true,
                },
                channel: (section.channel - 1) as u8,
                pitch: match section.pitch {
                    Some(p) => p,
                    None => 48u8,
                },
                gate_length_ms: match section.gate_length_ms {
                    Some(g) => g,
                    None => 25u64,
                },
            },
        )
    }
}

pub fn build_clock(section: &ClockSection) -> (r: Result<ClockRouting, ValidationError>)
    ensures
        match r {
            Ok(c) => Ok(c),
            Err(e) => Err(e@),
        } == clock_routing(*section),
{
    let channel_0b = validate_channel_1based(section.channel, ChannelOwner::Clock)?;
    Ok(
        ClockRouting {
            enabled: match section.enabled {
                Some(b) => b,
                None => true,
            },
            channel: channel_0b,
            pitch: match section.pitch {
                Some(p) => p,
                None => 48,
            },
            gate_length_ms: match section.gate_length_ms {
                Some(g) => g,
                None => 25,
            },
        },
    )
}

/// The chain sites that gated voices listen to: the index `N` of each
/// `voice_N` key, in voice order.
pub open spec fn output_sites_of(voices: Seq<(String, GateVoiceEntry)>) -> Seq<usize> {
    Seq::new(voices.len(), |k: int| ordered_index(voices, k))
}

/// Output sites of gated voices (`voice_N` listens to site `N`).
pub fn build_output_sites(section: &GatesSection) -> (r: Result<Vec<usize>, ValidationError>)
    ensures
        all_keys_valid(keys_of(section.voices@)) ==> (r matches Ok(v) && v@ == output_sites_of(
            section.voices@,
        )),
        !all_keys_valid(keys_of(section.voices@)) ==> (r matches Err(e) && e@ == key_error(
            Section::Gates,
            keys_of(section.voices@)[first_bad_key_index(keys_of(section.voices@))],
        )),
{
    let ghost voices = section.voices@;
    let ghost keys = keys_of(voices);
    let sorted = match parse_voice_indices(&section.voices, Section::Gates) {
        Ok(v) => v,
        Err(e) => {
            proof {
                let i = choose|i: int| first_bad_key(keys, i) && e@ == key_error(Section::Gates, keys[i]);
                lemma_first_bad_key_unique(keys, i);
            }
            return Err(e);
        },
    };
    proof {
        lemma_voice_order_unique(keys, sorted@, voice_order(keys));
    }
    let mut sites: Vec<usize> = Vec::new();
    let mut k: usize = 0;
    while k < sorted.len()
        invariant
            voices == section.voices@,
            keys == keys_of(voices),
            sorted@ == voice_order(keys),
            sorted@.len() == voices.len(),
            k <= sorted@.len(),
            sites@.len() == k,
            forall|j: int| 0 <= j < k ==> #[trigger] sites@[j] == ordered_index(voices, j),
        decreases sorted@.len() - k,
    {
        sites.push(sorted[k].0);
        k = k + 1;
    }
    assert(sites@ =~= output_sites_of(voices));
    Ok(sites)
}

// --- Duplicate channels ------------------------------------------------------------

/// Every claim, in the order the validator registers them: gate voices,
/// wall voices, then the clock.
pub open spec fn all_claims(gates: Seq<ClaimView>, walls: Seq<ClaimView>, clock_channel: u8) -> Seq<
    ClaimView,
> {
    gates + walls + seq![ClaimView { channel: clock_channel, owner: OwnerView::Clock }]
}

/// Two claims clash when they want the same channel, unless both are gate
/// voices: gate voices may share a channel (they are mono on it).
pub open spec fn clashes(a: ClaimView, b: ClaimView) -> bool {
    a.channel == b.channel && !(a.owner is GateVoice && b.owner is GateVoice)
}

/// Claim `j` clashes with an earlier claim.
pub open spec fn repeats_channel(all: Seq<ClaimView>, j: int) -> bool {
    exists|i: int| 0 <= i < j && clashes(#[trigger] all[i], all[j])
}

/// `j` is the first claim that clashes with an earlier claim.
pub open spec fn first_duplicate(all: Seq<ClaimView>, j: int) -> bool {
    &&& 0 <= j < all.len()
    &&& repeats_channel(all, j)
    &&& forall|k: int| 0 <= k < j ==> !#[trigger] repeats_channel(all, k)
}

/// `i` is the first claim before `j` on the channel of claim `j`.
pub open spec fn first_on_channel(all: Seq<ClaimView>, j: int, i: int) -> bool {
    &&& 0 <= i < j
    &&& all[i].channel == all[j].channel
    &&& forall|k: int| 0 <= k < i ==> (#[trigger] all[k]).channel != all[j].channel
}

/// The outcome of duplicate validation: the first claim that clashes with
/// an earlier one is reported with the claim that took the channel first.
pub open spec fn duplicate_check(all: Seq<ClaimView>) -> Result<(), ValidationErrorView> {
    if exists|j: int| first_duplicate(all, j) {
        let j = choose|j: int| first_duplicate(all, j);
        let i = choose|i: int| first_on_channel(all, j, i);
        Err(
            ValidationErrorView::DuplicateChannel {
                channel: all[j].channel,
                first: all[i].owner,
                second: all[j].owner,
            },
        )
    } else {
        Ok(())
    }
}

proof fn lemma_first_on_channel_unique(all: Seq<ClaimView>, j: int, i: int)
    requires
        first_on_channel(all, j, i),
    ensures
        (choose|i2: int| first_on_channel(all, j, i2)) == i,
{
    let i2 = choose|i2: int| first_on_channel(all, j, i2);
    assert(first_on_channel(all, j, i2));
    if i2 < i {
        assert(all[i2].channel != all[j].channel);
    } else if i2 > i {
        assert(all[i].channel != all[j].channel);
    }
}

fn claim_channel(gates: &Vec<ChannelClaim>, walls: &Vec<ChannelClaim>, clock_channel: u8, k: u128) -> (r: u8)
    requires
        k < gates@.len() + walls@.len() + 1,
    ensures
        r == all_claims(claims_view(gates@), claims_view(walls@), clock_channel)[k as int].channel,
{
    let g = gates.len() as u128;
    if k < g {
        gates[k as usize].channel
    } else if k - g < walls.len() as u128 {
        walls[(k - g) as usize].channel
    } else {
        clock_channel
    }
}

fn claim_owner(gates: &Vec<ChannelClaim>, walls: &Vec<ChannelClaim>, clock_channel: u8, k: u128) -> (r: ChannelOwner)
    requires
        k < gates@.len() + walls@.len() + 1,
    ensures
        r@ == all_claims(claims_view(gates@), claims_view(walls@), clock_channel)[k as int].owner,
{
    let g = gates.len() as u128;
    if k < g {
        gates[k as usize].owner.duplicate()
    } else if k - g < walls.len() as u128 {
        walls[(k - g) as usize].owner.duplicate()
    } else {
        ChannelOwner::Clock
    }
}

fn claim_is_gate(gates: &Vec<ChannelClaim>, walls: &Vec<ChannelClaim>, clock_channel: u8, k: u128) -> (r: bool)
    requires
        k < gates@.len() + walls@.len() + 1,
    ensures
        r == (all_claims(claims_view(gates@), claims_view(walls@), clock_channel)[k as int].owner is GateVoice),
{
    let g = gates.len() as u128;
    let owner = if k < g {
        &gates[k as usize].owner
    } else if k - g < walls.len() as u128 {
        &walls[(k - g) as usize].owner
    } else {
        return false;
    };
    match owner {
        ChannelOwner::GateVoice(_) => true,
        _ => false,
    }
}

/// Check that no two signals across gates, walls and clock claim the same
/// MIDI channel; gate voices may share one. The error names the signal
/// that took the channel first and the one that clashes with it.
pub fn validate_no_duplicates(
    gate_claims: &Vec<ChannelClaim>,
    wall_claims: &Vec<ChannelClaim>,
    clock_channel: u8,
) -> (r: Result<(), ValidationError>)
    ensures
        match r {
            Ok(()) => Ok(()),
            Err(e) => Err(e@),
        } == duplicate_check(
            all_claims(claims_view(gate_claims@), claims_view(wall_claims@), clock_channel),
        ),
{
    let ghost all = all_claims(claims_view(gate_claims@), claims_view(wall_claims@), clock_channel);
    let total: u128 = gate_claims.len() as u128 + wall_claims.len() as u128 + 1;
    assert(all.len() == total);
    let mut j: u128 = 0;
    while j < total
        invariant
            all == all_claims(claims_view(gate_claims@), claims_view(wall_claims@), clock_channel),
            all.len() == total,
            total == gate_claims@.len() + wall_claims@.len() + 1,
            j <= total,
            forall|k: int| 0 <= k < j ==> !#[trigger] repeats_channel(all, k),
        decreases total - j,
    {
        let cj = claim_channel(gate_claims, wall_claims, clock_channel, j);
        let gj = claim_is_gate(gate_claims, wall_claims, clock_channel, j);
        let mut first: Option<u128> = None;
        let mut clash = false;
        let mut i: u128 = 0;
        while i < j
            invariant
                all == all_claims(claims_view(gate_claims@), claims_view(wall_claims@), clock_channel),
                all.len() == total,
                total == gate_claims@.len() + wall_claims@.len() + 1,
                j < total,
                i <= j,
                cj == all[j as int].channel,
                gj == (all[j as int].owner is GateVoice),
                forall|k: int| 0 <= k < j ==> !#[trigger] repeats_channel(all, k),
                match first {
                    Some(f) => first_on_channel(all, j as int, f as int) && f < i,
                    None => forall|k: int| 0 <= k < i ==> (#[trigger] all[k]).channel != cj,
                },
                clash == exists|k: int| 0 <= k < i && clashes(#[trigger] all[k], all[j as int]),
            decreases j - i,
        {
            if claim_channel(gate_claims, wall_claims, clock_channel, i) == cj {
                if first.is_none() {
                    first = Some(i);
                }
                if !gj || !claim_is_gate(gate_claims, wall_claims, clock_channel, i) {
                    clash = true;
                    assert(clashes(all[i as int], all[j as int]));
                }
            }
            proof {
                if clash {
                    if !(exists|k: int| 0 <= k < i && clashes(#[trigger] all[k], all[j as int])) {
                        assert(clashes(all[i as int], all[j as int]));
                    }
                }
                assert forall|k: int| 0 <= k < i + 1 && clashes(#[trigger] all[k], all[j as int])
                    implies clash by {
                    if k == i {
                    }
                }
            }
            i = i + 1;
        }
        if clash {
            let f = match first {
                Some(f) => f,
                None => {
                    proof {
                        let k = choose|k: int| 0 <= k < i && clashes(#[trigger] all[k], all[j as int]);
                        assert(all[k].channel == cj);
                    }
                    j
                },
            };
            let first_owner = claim_owner(gate_claims, wall_claims, clock_channel, f);
            let second = claim_owner(gate_claims, wall_claims, clock_channel, j);
            proof {
                assert(repeats_channel(all, j as int));
                assert(first_duplicate(all, j as int));
                let j2 = choose|j2: int| first_duplicate(all, j2);
                if j2 < j {
                    assert(!repeats_channel(all, j2));
                } else if j2 > j {
                    assert(!repeats_channel(all, j as int));
                }
                lemma_first_on_channel_unique(all, j as int, f as int);
            }
            return Err(ValidationError::DuplicateChannel { channel: cj, first: first_owner, second });
        }
        assert(!repeats_channel(all, j as int));
        j = j + 1;
    }
    assert(!exists|j: int| first_duplicate(all, j));
    Ok(())
}


// --- The whole chain ---------------------------------------------------------------

/// The routing of one chain: what the rest of the program needs from
/// `[chain_a.gates]`, `[chain_a.walls]` and `[chain_a.clock]`.
#[derive(Clone, Debug)]
pub struct ChainRouting {
    pub midi: MidiConfig,
    pub walls_enabled: bool,
    pub wall_midi: WallMidiConfig,
    pub clock: ClockRouting,
    /// The chain site each gate voice listens to, in voice order.
    pub output_sites: Vec<usize>,
    /// The chain's RNG seed.
    pub seed: u64,
}

/// The mathematical value of a `ChainRouting`.
pub struct ChainRoutingView {
    pub voice_channels: Seq<u8>,
    pub voice_pitches: Seq<u8>,
    pub gate_length_ms: u64,
    pub walls_enabled: bool,
    pub wall_channels: Seq<u8>,
    pub wall_pitch_low: u8,
    pub wall_pitch_high: u8,
    pub wall_motion_cc: Option<u8>,
    pub wall_repitch_on_move: bool,
    pub clock: ClockRouting,
    pub output_sites: Seq<usize>,
    pub seed: u64,
}

impl View for ChainRouting {
    type V = ChainRoutingView;

    open spec fn view(&self) -> ChainRoutingView {
        ChainRoutingView {
            voice_channels: self.midi.voice_channels@,
            voice_pitches: self.midi.voice_pitches@,
            gate_length_ms: self.midi.gate_length_ms,
            walls_enabled: self.walls_enabled,
            wall_channels: self.wall_midi.channels@,
            wall_pitch_low: self.wall_midi.pitch_low,
            wall_pitch_high: self.wall_midi.pitch_high,
            wall_motion_cc: self.wall_midi.motion_cc,
            wall_repitch_on_move: self.wall_midi.repitch_on_move,
            clock: self.clock,
            output_sites: self.output_sites@,
            seed: self.seed,
        }
    }
}

/// `k` is the first output site the chain does not have.
pub open spec fn first_missing_site(sites: Seq<usize>, n_sites: usize, k: int) -> bool {
    &&& 0 <= k < sites.len()
    &&& sites[k] >= n_sites
    &&& forall|j: int| 0 <= j < k ==> #[trigger] sites[j] < n_sites
}

/// What the three routing tables of a chain with `n_sites` sites turn
/// into: the first error in the order the loader checks (gates, walls,
/// clock, duplicate channels, gate sites), or the routing. The seed
/// defaults to 47.
pub open spec fn chain_routing(
    gates: &GatesSection,
    walls: Option<&WallsSection>,
    clock: ClockSection,
    n_sites: usize,
    seed: Option<u64>,
) -> Result<ChainRoutingView, ValidationErrorView> {
    match gate_routing(gates.voices@, gates.gate_length_ms) {
        Err(e) => Err(e),
        Ok(g) => match wall_routing(walls) {
            Err(e) => Err(e),
            Ok(w) => match clock_routing(clock) {
                Err(e) => Err(e),
                Ok(c) => match duplicate_check(all_claims(g.claims, w.claims, c.channel)) {
                    Err(e) => Err(e),
                    Ok(_) => {
                        let sites = output_sites_of(gates.voices@);
                        if exists|k: int| first_missing_site(sites, n_sites, k) {
                            let k = choose|k: int| first_missing_site(sites, n_sites, k);
                            Err(ValidationErrorView::MissingSite { site: sites[k], n_sites })
                        } else {
                            Ok(
                                ChainRoutingView {
                                    voice_channels: g.voice_channels,
                                    voice_pitches: g.voice_pitches,
                                    gate_length_ms: g.gate_length_ms,
                                    walls_enabled: w.enabled,
                                    wall_channels: w.channels,
                                    wall_pitch_low: w.pitch_low,
                                    wall_pitch_high: w.pitch_high,
                                    wall_motion_cc: w.motion_cc,
                                    wall_repitch_on_move: w.repitch_on_move,
                                    clock: c,
                                    output_sites: sites,
                                    seed: match seed {
                                        Some(x) => x,
                                        None => 47,
                                    },
                                },
                            )
                        }
                    },
                },
            },
        },
    }
}

/// No two entries of `s` are equal.
pub open spec fn channels_distinct(s: Seq<u8>) -> bool {
    forall|i: int, j: int| 0 <= i < j < s.len() ==> s[i] != s[j]
}

/// A channel that repeats an earlier one implies a first such repeat.
proof fn lemma_repeat_has_first(all: Seq<ClaimView>, j: int)
    requires
        0 <= j < all.len(),
        repeats_channel(all, j),
    ensures
        exists|j0: int| first_duplicate(all, j0),
    decreases j,
{
    if exists|k: int| 0 <= k < j && #[trigger] repeats_channel(all, k) {
        let k = choose|k: int| 0 <= k < j && #[trigger] repeats_channel(all, k);
        lemma_repeat_has_first(all, k);
    } else {
        assert(first_duplicate(all, j));
    }
}

/// A routing the loader accepts gives no channel to two kinds of signal:
/// gated voices may share a channel, but no wall voice and not the clock
/// uses a gated voice's channel, and the wall channels and the clock
/// channel are pairwise distinct.
pub proof fn lemma_accepted_channels_distinct(
    gates: &GatesSection,
    walls: Option<&WallsSection>,
    clock: ClockSection,
    n_sites: usize,
    seed: Option<u64>,
)
    ensures
        chain_routing(gates, walls, clock, n_sites, seed) matches Ok(r) ==> {
            &&& channels_distinct(r.wall_channels + seq![r.clock.channel])
            &&& forall|i: int, j: int|
                0 <= i < r.voice_channels.len() && 0 <= j < r.wall_channels.len() + 1
                    ==> #[trigger] r.voice_channels[i] != #[trigger] (r.wall_channels + seq![
                    r.clock.channel,
                ])[j]
        },
{
    if let (Ok(g), Ok(w), Ok(c)) = (
        gate_routing(gates.voices@, gates.gate_length_ms),
        wall_routing(walls),
        clock_routing(clock),
    ) {
        let claims = all_claims(g.claims, w.claims, c.channel);
        if duplicate_check(claims) is Ok {
            if let Ok(r) = chain_routing(gates, walls, clock, n_sites, seed) {
                let rest = r.wall_channels + seq![r.clock.channel];
                let ng = g.claims.len();
                assert(!exists|j0: int| first_duplicate(claims, j0));
                assert(r.voice_channels.len() == ng);
                assert(rest.len() == w.claims.len() + 1);
                assert forall|k: int| 0 <= k < ng implies #[trigger] claims[k] == g.claims[k]
                    && claims[k].channel == r.voice_channels[k] && claims[k].owner is GateVoice by {
                }
                assert forall|k: int| 0 <= k < rest.len() implies #[trigger] claims[ng + k].channel
                    == rest[k] && !(claims[ng + k].owner is GateVoice) by {
                    if k < w.claims.len() {
                        assert(claims[ng + k] == w.claims[k]);
                        assert(rest[k] == r.wall_channels[k]);
                    } else {
                        assert(rest[k] == r.clock.channel);
                    }
                }
                assert forall|a: int, b: int| 0 <= a < b < rest.len() implies rest[a] != rest[b] by {
                    if rest[a] == rest[b] {
                        assert(clashes(claims[ng + a], claims[ng + b]));
                        assert(repeats_channel(claims, ng + b));
                        lemma_repeat_has_first(claims, ng + b);
                    }
                }
                assert forall|i: int, j: int|
                    0 <= i < r.voice_channels.len() && 0 <= j < r.wall_channels.len() + 1 implies #[trigger] r.voice_channels[i]
                    != #[trigger] rest[j] by {
                    if r.voice_channels[i] == rest[j] {
                        assert(claims[i].channel == r.voice_channels[i]);
                        assert(claims[ng + j].channel == rest[j]);
                        assert(clashes(claims[i], claims[ng + j]));
                        assert(repeats_channel(claims, ng + j));
                        lemma_repeat_has_first(claims, ng + j);
                    }
                }
            }
        }
    }
}

/// Validate the routing tables of a chain and build its routing. Every
/// gated voice must listen to a site below `n_sites`; gated voices may
/// share a channel, but no channel may otherwise be claimed twice across
/// gates, walls and clock.
#[verifier::loop_isolation(false)]
pub fn build_chain_routing(
    gates: &GatesSection,
    walls: Option<&WallsSection>,
    clock: &ClockSection,
    n_sites: usize,
    seed: Option<u64>,
) -> (r: Result<ChainRouting, ValidationError>)
    ensures
        match r {
            Ok(c) => Ok(c@),
            Err(e) => Err(e@),
        } == chain_routing(gates, walls, *clock, n_sites, seed),
{
    let (midi, gate_claims) = build_midi(gates)?;
    let (walls_enabled, wall_midi, wall_claims) = build_walls(walls)?;
    let clock_routing = build_clock(clock)?;
    let output_sites = match build_output_sites(gates) {
        Ok(v) => v,
        Err(e) => {
            return Err(e);
        },
    };
    validate_no_duplicates(&gate_claims, &wall_claims, clock_routing.channel)?;
    let ghost sites = output_sites@;
    let mut k: usize = 0;
    while k < output_sites.len()
        invariant
            sites == output_sites@,
            k <= sites.len(),
            forall|j: int| 0 <= j < k ==> #[trigger] sites[j] < n_sites,
        decreases sites.len() - k,
    {
        let site = output_sites[k];
        if site >= n_sites {
            proof {
                assert(first_missing_site(sites, n_sites, k as int));
                let k2 = choose|k2: int| first_missing_site(sites, n_sites, k2);
                if k2 < k {
                    assert(sites[k2] < n_sites);
                } else if k2 > k {
                    assert(sites[k as int] < n_sites);
                }
            }
            return Err(ValidationError::MissingSite { site, n_sites });
        }
        k = k + 1;
    }
    assert(!exists|j: int| first_missing_site(sites, n_sites, j));
    let seed = match seed {
        Some(x) => x,
        None => 47,
    };
    Ok(ChainRouting { midi, walls_enabled, wall_midi, clock: clock_routing, output_sites, seed })
}


// --- Messages ----------------------------------------------------------------------

/// The name of a voice table inside `[chain_a]`.
pub open spec fn section_chars(section: Section) -> Seq<char> {
    match section {
        Section::Gates => "gates"@,
        Section::Walls => "walls"@,
    }
}

/// How a channel owner is named where its channel number is rejected.
pub open spec fn owner_field_label(owner: OwnerView) -> Seq<char> {
    match owner {
        OwnerView::GateVoice(k) => "chain_a.gates."@ + k,
        OwnerView::WallVoice(k) => "chain_a.walls."@ + k,
        OwnerView::Clock => "chain_a.clock.channel"@,
    }
}

/// How a channel owner is named in a duplicate-channel report.
pub open spec fn owner_claim_label(owner: OwnerView) -> Seq<char> {
    match owner {
        OwnerView::GateVoice(k) => "chain_a.gates."@ + k,
        OwnerView::WallVoice(k) => "chain_a.walls."@ + k,
        OwnerView::Clock => "chain_a.clock"@,
    }
}

/// The text a validation error is reported with. Channels are shown
/// 1-based, as the file writes them.
pub open spec fn error_message(e: ValidationErrorView) -> Seq<char> {
    match e {
        ValidationErrorView::UnrecognizedKey { section, key } => "chain_a."@ + section_chars(section)
            + ": unrecognized key '"@ + key + "' (expected 'voice_N')"@,
        ValidationErrorView::NonNumericSuffix { section, key } => "chain_a."@ + section_chars(
            section,
        ) + ": voice key '"@ + key + "' has non-numeric suffix"@,
        ValidationErrorView::NoGateVoices => "chain_a.gates must define at least one voice_N"@,
        ValidationErrorView::ChannelOutOfRange { owner, channel } => owner_field_label(owner)
            + ": channel must be in 1..=16 (got "@ + decimal(channel as nat) + ")"@,
        ValidationErrorView::MotionCcOutOfRange { value } => "chain_a.walls.motion_cc must be in 0..=127 (got "@
            + decimal(value as nat) + ")"@,
        ValidationErrorView::PitchOutOfRange { low, high } => "chain_a.walls pitch range must be in 0..=127 (got "@
            + decimal(low as nat) + ".."@ + decimal(high as nat) + ")"@,
        ValidationErrorView::PitchLowAboveHigh { low, high } => "chain_a.walls pitch_low must be <= pitch_high (got "@
            + decimal(low as nat) + " > "@ + decimal(high as nat) + ")"@,
        ValidationErrorView::DuplicateChannel { channel, first, second } => "channel "@ + decimal(
            (channel + 1) as nat,
        ) + " is assigned to both "@ + owner_claim_label(first) + " and "@ + owner_claim_label(
            second,
        ),
        ValidationErrorView::MissingSite { site, n_sites } => "gate voice_"@ + decimal(site as nat)
            + " refers to a site index that doesn't exist (n_sites = "@ + decimal(n_sites as nat)
            + ")"@,
    }
}

fn push_section(out: &mut String, section: Section)
    ensures
        final(out)@ == old(out)@ + section_chars(section),
{
    match section {
        Section::Gates => out.append("gates"),
        Section::Walls => out.append("walls"),
    }
}

fn push_owner_field_label(out: &mut String, owner: &ChannelOwner)
    ensures
        final(out)@ == old(out)@ + owner_field_label(owner@),
{
    match owner {
        ChannelOwner::GateVoice(k) => {
            out.append("chain_a.gates.");
            out.append(k.as_str());
        },
        ChannelOwner::WallVoice(k) => {
            out.append("chain_a.walls.");
            out.append(k.as_str());
        },
        ChannelOwner::Clock => out.append("chain_a.clock.channel"),
    }
    assert(out@ =~= old(out)@ + owner_field_label(owner@));
}

fn push_owner_claim_label(out: &mut String, owner: &ChannelOwner)
    ensures
        final(out)@ == old(out)@ + owner_claim_label(owner@),
{
    match owner {
        ChannelOwner::GateVoice(k) => {
            out.append("chain_a.gates.");
            out.append(k.as_str());
        },
        ChannelOwner::WallVoice(k) => {
            out.append("chain_a.walls.");
            out.append(k.as_str());
        },
        ChannelOwner::Clock => out.append("chain_a.clock"),
    }
    assert(out@ =~= old(out)@ + owner_claim_label(owner@));
}

impl ValidationError {
    /// The text this error is reported with; it names the offending entry.
    pub fn message(&self) -> (r: String)
        ensures
            r@ == error_message(self@),
    {
        let mut out = String::new();
        match self {
            ValidationError::UnrecognizedKey { section, key } => {
                out.append("chain_a.");
                push_section(&mut out, *section);
                out.append(": unrecognized key '");
                out.append(key.as_str());
                out.append("' (expected 'voice_N')");
            },
            ValidationError::NonNumericSuffix { section, key } => {
                out.append("chain_a.");
                push_section(&mut out, *section);
                out.append(": voice key '");
                out.append(key.as_str());
                out.append("' has non-numeric suffix");
            },
            ValidationError::NoGateVoices => {
                out.append("chain_a.gates must define at least one voice_N");
            },
            ValidationError::ChannelOutOfRange { owner, channel } => {
                push_owner_field_label(&mut out, owner);
                out.append(": channel must be in 1..=16 (got ");
                push_decimal(&mut out, *channel as u64);
                out.append(")");
            },
            ValidationError::MotionCcOutOfRange { value } => {
                out.append("chain_a.walls.motion_cc must be in 0..=127 (got ");
                push_decimal(&mut out, *value as u64);
                out.append(")");
            },
            ValidationError::PitchOutOfRange { low, high } => {
                out.append("chain_a.walls pitch range must be in 0..=127 (got ");
                push_decimal(&mut out, *low as u64);
                out.append("..");
                push_decimal(&mut out, *high as u64);
                out.append(")");
            },
            ValidationError::PitchLowAboveHigh { low, high } => {
                out.append("chain_a.walls pitch_low must be <= pitch_high (got ");
                push_decimal(&mut out, *low as u64);
                out.append(" > ");
                push_decimal(&mut out, *high as u64);
                out.append(")");
            },
            ValidationError::DuplicateChannel { channel, first, second } => {
                out.append("channel ");
                push_decimal(&mut out, *channel as u64 + 1);
                out.append(" is assigned to both ");
                push_owner_claim_label(&mut out, first);
                out.append(" and ");
                push_owner_claim_label(&mut out, second);
            },
            ValidationError::MissingSite { site, n_sites } => {
                out.append("gate voice_");
                push_decimal(&mut out, *site as u64);
                out.append(" refers to a site index that doesn't exist (n_sites = ");
                push_decimal(&mut out, *n_sites as u64);
                out.append(")");
            },
        }
        assert(out@ =~= error_message(self@));
        out
    }
}

// --- Laws of the routing tables ----------------------------------------------------

proof fn lemma_bad_wall_has_first(voices: Seq<(String, WallVoiceEntry)>, k: int)
    requires
        0 <= k < voices.len(),
        !channel_ok(wall_channel(ordered_entry(voices, k))),
    ensures
        exists|k0: int| first_bad_wall_channel(voices, k0),
    decreases k,
{
    if exists|j: int| 0 <= j < k && !channel_ok(wall_channel(#[trigger] ordered_entry(voices, j))) {
        let j = choose|j: int| 0 <= j < k && !channel_ok(wall_channel(#[trigger] ordered_entry(voices, j)));
        lemma_bad_wall_has_first(voices, j);
    } else {
        assert(first_bad_wall_channel(voices, k));
    }
}

proof fn lemma_bad_gate_has_first(voices: Seq<(String, GateVoiceEntry)>, k: int)
    requires
        0 <= k < voices.len(),
        !channel_ok(gate_channel(ordered_entry(voices, k))),
    ensures
        exists|k0: int| first_bad_gate_channel(voices, k0),
    decreases k,
{
    if exists|j: int| 0 <= j < k && !channel_ok(gate_channel(#[trigger] ordered_entry(voices, j))) {
        let j = choose|j: int| 0 <= j < k && !channel_ok(gate_channel(#[trigger] ordered_entry(voices, j)));
        lemma_bad_gate_has_first(voices, j);
    } else {
        assert(first_bad_gate_channel(voices, k));
    }
}

/// An accepted `[chain_a.walls]` table is configured by what it says: a
/// key the table gives is taken as given (`repitch_on_move = b` gives `b`,
/// `motion_cc = 0` switches the CC stream off, `motion_cc = n` uses CC
/// `n`, a pitch bound is used as written), and a default applies only to
/// an absent key (no repitching, CC 1, pitches 36..60). Walls sound
/// exactly when the table lists a voice; the `k`-th voice in voice order
/// gets its 1-based channel as a channel in 0..=15.
pub proof fn lemma_walls_table_settings(s: &WallsSection)
    ensures
        wall_routing(Some(s)) matches Ok(w) ==> w.repitch_on_move == (s.repitch_on_move == Some(
            true,
        )),
        wall_routing(Some(s)) matches Ok(w) ==> (s.pitch_low matches Some(p) ==> w.pitch_low == p)
            && (s.pitch_low is None ==> w.pitch_low == 36) && (s.pitch_high matches Some(p)
            ==> w.pitch_high == p) && (s.pitch_high is None ==> w.pitch_high == 60)
            && w.pitch_low <= w.pitch_high <= 127,
        wall_routing(Some(s)) matches Ok(w) ==> (s.motion_cc == Some(0u8) ==> w.motion_cc is None)
            && (s.motion_cc matches Some(n) ==> (n != 0 ==> w.motion_cc == Some(n))) && (
        s.motion_cc is None ==> w.motion_cc == Some(1u8)),
        wall_routing(Some(s)) matches Ok(w) ==> w.enabled == (s.voices@.len() > 0)
            && w.channels.len() == s.voices@.len(),
        wall_routing(Some(s)) matches Ok(w) ==> forall|k: int|
            0 <= k < w.channels.len() ==> #[trigger] w.channels[k] <= 15 && w.channels[k] + 1
                == wall_channel(ordered_entry(s.voices@, k)),
{
    if let Ok(w) = wall_routing(Some(s)) {
        let voices = s.voices@;
        assert(!exists|k: int| first_bad_wall_channel(voices, k));
        assert forall|k: int| 0 <= k < w.channels.len() implies #[trigger] w.channels[k] <= 15
            && w.channels[k] + 1 == wall_channel(ordered_entry(voices, k)) by {
            if !channel_ok(wall_channel(ordered_entry(voices, k))) {
                lemma_bad_wall_has_first(voices, k);
            }
        }
    }
}

/// Without a `[chain_a.walls]` table walls are off: the routing is
/// accepted, with no wall channel.
pub proof fn lemma_no_walls_table()
    ensures
        wall_routing(None) matches Ok(w) && !w.enabled && w.channels.len() == 0,
{
}

/// An accepted `[chain_a.gates]` table lists at least one voice; the
/// `k`-th voice in voice order gets its 1-based channel as a channel in
/// 0..=15, and the pitch it gives, or (without one) the default pitch of
/// its index (48, 52, 55, 59 for `voice_0`..`voice_3`, 48 beyond); its note
/// length is the table's, 50 ms when absent.
pub proof fn lemma_gates_table_settings(
    voices: Seq<(String, GateVoiceEntry)>,
    gate_length_ms: Option<u64>,
)
    ensures
        gate_routing(voices, gate_length_ms) matches Ok(g) ==> voices.len() > 0
            && g.voice_channels.len() == voices.len() && g.voice_pitches.len() == voices.len()
            && g.gate_length_ms == (match gate_length_ms {
            Some(x) => x,
            None => 50,
        }),
        gate_routing(voices, gate_length_ms) matches Ok(g) ==> forall|k: int|
            0 <= k < voices.len() ==> #[trigger] g.voice_channels[k] <= 15 && g.voice_channels[k] + 1
                == gate_channel(ordered_entry(voices, k)),
        gate_routing(voices, gate_length_ms) matches Ok(g) ==> forall|k: int|
            0 <= k < voices.len() ==> (gate_pitch(ordered_entry(voices, k)) matches Some(p)
                ==> #[trigger] g.voice_pitches[k] == p),
        gate_routing(voices, gate_length_ms) matches Ok(g) ==> forall|k: int|
            0 <= k < voices.len() && gate_pitch(ordered_entry(voices, k)) is None ==> #[trigger] g.voice_pitches[k]
                == (if ordered_index(voices, k) < 4 {
                seq![48u8, 52u8, 55u8, 59u8][ordered_index(voices, k) as int]
            } else {
                48u8
            }),
{
    if let Ok(g) = gate_routing(voices, gate_length_ms) {
        assert(!exists|k: int| first_bad_gate_channel(voices, k));
        assert forall|k: int| 0 <= k < voices.len() implies #[trigger] g.voice_channels[k] <= 15
            && g.voice_channels[k] + 1 == gate_channel(ordered_entry(voices, k)) by {
            if !channel_ok(gate_channel(ordered_entry(voices, k))) {
                lemma_bad_gate_has_first(voices, k);
            }
        }
    }
}

/// `[chain_a.clock]` is accepted exactly when its channel is in 1..=16;
/// the clock then runs on that channel (0-based), is enabled unless the
/// table says `enabled = false`, and uses the table's pitch and gate
/// length, 48 and 25 ms when absent.
pub proof fn lemma_clock_table_settings(c: ClockSection)
    ensures
        clock_routing(c) is Ok <==> 1 <= c.channel <= 16,
        clock_routing(c) matches Ok(r) ==> r.channel + 1 == c.channel && r.enabled == (c.enabled
            != Some(false)) && r.pitch == (match c.pitch {
            Some(p) => p,
            None => 48,
        }) && r.gate_length_ms == (match c.gate_length_ms {
            Some(g) => g,
            None => 25,
        }),
{
}

/// An accepted chain keeps what its tables say: the note length, the wall
/// settings (`repitch_on_move` among them) and the clock as configured, the
/// seed as given (47 when absent), one output site per gated voice, every
/// one of them below `n_sites`; without a walls table walls are off.
pub proof fn lemma_chain_routing_keeps_settings(
    gates: &GatesSection,
    walls: Option<&WallsSection>,
    clock: ClockSection,
    n_sites: usize,
    seed: Option<u64>,
)
    ensures
        chain_routing(gates, walls, clock, n_sites, seed) matches Ok(r) ==> r.gate_length_ms == (
        match gates.gate_length_ms {
            Some(x) => x,
            None => 50,
        }) && r.seed == (match seed {
            Some(x) => x,
            None => 47,
        }) && r.clock.channel + 1 == clock.channel && r.voice_channels.len()
            == gates.voices@.len() && r.output_sites.len() == gates.voices@.len(),
        chain_routing(gates, walls, clock, n_sites, seed) matches Ok(r) ==> forall|k: int|
            0 <= k < r.output_sites.len() ==> #[trigger] r.output_sites[k] < n_sites,
        chain_routing(gates, walls, clock, n_sites, seed) matches Ok(r) ==> (walls matches Some(s)
            ==> r.wall_repitch_on_move == (s.repitch_on_move == Some(true)) && (s.motion_cc == Some(
            0u8,
        ) ==> r.wall_motion_cc is None) && (s.motion_cc matches Some(n)
            ==> (n != 0 ==> r.wall_motion_cc == Some(n))) && (s.pitch_low matches Some(p) ==> r.wall_pitch_low
            == p) && (s.pitch_high matches Some(p) ==> r.wall_pitch_high == p)),
        chain_routing(gates, walls, clock, n_sites, seed) matches Ok(r) ==> (walls is None
            ==> !r.walls_enabled && r.wall_channels.len() == 0),
{
    lemma_gates_table_settings(gates.voices@, gates.gate_length_ms);
    lemma_clock_table_settings(clock);
    match walls {
        Some(s) => lemma_walls_table_settings(s),
        None => lemma_no_walls_table(),
    }
    if let Ok(r) = chain_routing(gates, walls, clock, n_sites, seed) {
        let sites = output_sites_of(gates.voices@);
        assert(!exists|k: int| first_missing_site(sites, n_sites, k));
        assert forall|k: int| 0 <= k < r.output_sites.len() implies #[trigger] r.output_sites[k]
            < n_sites by {
            if r.output_sites[k] >= n_sites {
                lemma_missing_site_has_first(sites, n_sites, k);
            }
        }
    }
}

proof fn lemma_missing_site_has_first(sites: Seq<usize>, n_sites: usize, k: int)
    requires
        0 <= k < sites.len(),
        sites[k] >= n_sites,
    ensures
        exists|k0: int| first_missing_site(sites, n_sites, k0),
    decreases k,
{
    if exists|j: int| 0 <= j < k && #[trigger] sites[j] >= n_sites {
        let j = choose|j: int| 0 <= j < k && #[trigger] sites[j] >= n_sites;
        lemma_missing_site_has_first(sites, n_sites, j);
    } else {
        assert(first_missing_site(sites, n_sites, k));
    }
}

} // verus!
