//! MIDI voice allocation for domain walls.
//!
//! A wall is a voice with a physics-determined lifetime: born at a position
//! (becoming a held note), possibly moving, and ending only when the wall
//! annihilates. Each wall is monophonic on its own channel — at most one
//! wall at a time per channel. Channels are taken round-robin from the
//! configured pool; when every channel is busy, the oldest active wall
//! yields its channel.
//!
//! Positions are mapped to pitch and CC values by the caller; this module
//! decides which channel each wall sounds on and which messages to send.

use vstd::prelude::*;
use crate::config::WallMidiConfig;
use crate::midi::MidiCommand;

verus! {

/// Velocity of every wall note-on.
pub const WALL_VELOCITY: u8 = 96;

/// A wall that is currently sounding.
#[derive(Clone, Copy, Debug, PartialEq, Eq, Structural)]
pub struct ActiveVoice {
    pub id: u64,
    pub channel: u8,
    pub pitch: u8,
    pub born_at_tick: u64,
}

pub struct WallVoiceAllocator {
    config: WallMidiConfig,
    /// Number of sites in the chain — needed to map position to pitch.
    n_sites: usize,
    /// Active voices, oldest allocation first.
    active: Vec<ActiveVoice>,
    /// Round-robin index into the channel pool for the next channel to try.
    next_idx: usize,
}

/// The mathematical value of a `WallVoiceAllocator`.
pub struct AllocatorView {
    pub pool: Seq<u8>,
    pub pitch_low: u8,
    pub pitch_high: u8,
    pub motion_cc: Option<u8>,
    pub repitch_on_move: bool,
    pub n_sites: usize,
    pub active: Seq<ActiveVoice>,
    pub next_idx: usize,
}

impl View for WallVoiceAllocator {
    type V = AllocatorView;

    closed spec fn view(&self) -> AllocatorView {
        AllocatorView {
            pool: self.config.channels@,
            pitch_low: self.config.pitch_low,
            pitch_high: self.config.pitch_high,
            motion_cc: self.config.motion_cc,
            repitch_on_move: self.config.repitch_on_move,
            n_sites: self.n_sites,
            active: self.active@,
            next_idx: self.next_idx,
        }
    }
}

/// The allocator's invariant: every active wall has its own id and its
/// own channel, every channel in use comes from the pool, and the
/// round-robin cursor points into the pool.
pub open spec fn allocator_wf(v: AllocatorView) -> bool {
    &&& forall|i: int, j: int|
        0 <= i < j < v.active.len() ==> (#[trigger] v.active[i]).id != (#[trigger] v.active[j]).id
    &&& forall|i: int, j: int|
        0 <= i < j < v.active.len() ==> (#[trigger] v.active[i]).channel != (
        #[trigger] v.active[j]).channel
    &&& forall|i: int| 0 <= i < v.active.len() ==> v.pool.contains(#[trigger] v.active[i].channel)
    &&& v.pool.len() == 0 ==> v.next_idx == 0
    &&& v.pool.len() > 0 ==> v.next_idx < v.pool.len()
}

/// Some active wall sounds on channel `ch`.
pub open spec fn channel_in_use(active: Seq<ActiveVoice>, ch: u8) -> bool {
    exists|k: int| 0 <= k < active.len() && (#[trigger] active[k]).channel == ch
}

/// The pool slot tried at round-robin offset `off`.
pub open spec fn probe(v: AllocatorView, off: int) -> int {
    (v.next_idx + off) % (v.pool.len() as int)
}

/// `off` is the first round-robin offset whose channel is free.
pub open spec fn first_free(v: AllocatorView, off: int) -> bool {
    &&& 0 <= off < v.pool.len()
    &&& !channel_in_use(v.active, v.pool[probe(v, off)])
    &&& forall|o: int| 0 <= o < off ==> channel_in_use(v.active, v.pool[#[trigger] probe(v, o)])
}

/// `k` is the oldest active wall (earliest birth tick; the first such).
pub open spec fn oldest(active: Seq<ActiveVoice>, k: int) -> bool {
    &&& 0 <= k < active.len()
    &&& forall|j: int| 0 <= j < active.len() ==> active[k].born_at_tick <= (
    #[trigger] active[j]).born_at_tick
    &&& forall|j: int| 0 <= j < k ==> (#[trigger] active[j]).born_at_tick > active[k].born_at_tick
}

/// The position of the wall `id` among the active walls.
pub open spec fn id_position(active: Seq<ActiveVoice>, id: u64) -> Option<int> {
    if exists|k: int| 0 <= k < active.len() && (#[trigger] active[k]).id == id {
        Some(choose|k: int| 0 <= k < active.len() && (#[trigger] active[k]).id == id)
    } else {
        None
    }
}

/// The active walls without wall `id`.
pub open spec fn without_id(active: Seq<ActiveVoice>, id: u64) -> Seq<ActiveVoice> {
    match id_position(active, id) {
        Some(k) => active.remove(k),
        None => active,
    }
}

/// The motion CC a newly allocated voice starts with, if the walls report
/// motion by CC.
pub open spec fn initial_cc(v: AllocatorView, ch: u8, cc_value: u8) -> Seq<MidiCommand> {
    match v.motion_cc {
        Some(cc) => if !v.repitch_on_move {
            seq![MidiCommand::ControlChange { channel: ch, cc_number: cc, value: cc_value }]
        } else {
            Seq::empty()
        },
        None => Seq::empty(),
    }
}

/// A note-on of a new wall.
pub open spec fn wall_note_on(ch: u8, pitch: u8) -> MidiCommand {
    MidiCommand::NoteOn { channel: ch, pitch, velocity: WALL_VELOCITY }
}

proof fn lemma_id_position_exact(active: Seq<ActiveVoice>, id: u64, k: int)
    requires
        0 <= k < active.len(),
        active[k].id == id,
        forall|i: int, j: int|
            0 <= i < j < active.len() ==> (#[trigger] active[i]).id != (#[trigger] active[j]).id,
    ensures
        id_position(active, id) == Some(k),
{
    let k2 = choose|k2: int| 0 <= k2 < active.len() && (#[trigger] active[k2]).id == id;
    assert(0 <= k2 < active.len() && active[k2].id == id);
    if k2 < k {
        assert(active[k2].id != active[k].id);
    } else if k2 > k {
        assert(active[k].id != active[k2].id);
    }
}

/// Removing an entry keeps the invariant's per-voice facts.
proof fn lemma_remove_keeps_distinct(active: Seq<ActiveVoice>, pool: Seq<u8>, k: int)
    requires
        0 <= k < active.len(),
        forall|i: int, j: int|
            0 <= i < j < active.len() ==> (#[trigger] active[i]).id != (#[trigger] active[j]).id,
        forall|i: int, j: int|
            0 <= i < j < active.len() ==> (#[trigger] active[i]).channel != (
            #[trigger] active[j]).channel,
        forall|i: int| 0 <= i < active.len() ==> pool.contains(#[trigger] active[i].channel),
    ensures
        ({
            let r = active.remove(k);
            &&& forall|i: int, j: int|
                0 <= i < j < r.len() ==> (#[trigger] r[i]).id != (#[trigger] r[j]).id
            &&& forall|i: int, j: int|
                0 <= i < j < r.len() ==> (#[trigger] r[i]).channel != (#[trigger] r[j]).channel
            &&& forall|i: int| 0 <= i < r.len() ==> pool.contains(#[trigger] r[i].channel)
            &&& forall|i: int| 0 <= i < r.len() ==> (#[trigger] r[i]).channel != active[k].channel
        }),
{
    let r = active.remove(k);
    assert forall|i: int, j: int| 0 <= i < j < r.len() implies (#[trigger] r[i]).id != (
    #[trigger] r[j]).id && r[i].channel != r[j].channel by {
        let ii = if i < k {
            i
        } else {
            i + 1
        };
        let jj = if j < k {
            j
        } else {
            j + 1
        };
        assert(r[i] == active[ii] && r[j] == active[jj]);
    }
    assert forall|i: int| 0 <= i < r.len() implies pool.contains(#[trigger] r[i].channel) && r[i].channel
        != active[k].channel by {
        let ii = if i < k {
            i
        } else {
            i + 1
        };
        assert(r[i] == active[ii]);
        if ii < k {
            assert(active[ii].channel != active[k].channel);
        } else {
            assert(active[k].channel != active[ii].channel);
        }
    }
}

impl WallVoiceAllocator {
    /// The allocator's invariant holds.
    pub open spec fn wf(&self) -> bool {
        allocator_wf(self@)
    }

    pub fn new(config: WallMidiConfig, n_sites: usize) -> (r: Self)
        ensures
            r.wf(),
            r@.pool == config.channels@,
            r@.pitch_low == config.pitch_low,
            r@.pitch_high == config.pitch_high,
            r@.motion_cc == config.motion_cc,
            r@.repitch_on_move == config.repitch_on_move,
            r@.n_sites == n_sites,
            r@.active == Seq::<ActiveVoice>::empty(),
            r@.next_idx == 0,
    {
        WallVoiceAllocator { config, n_sites, active: Vec::new(), next_idx: 0 }
    }

    /// The wall MIDI configuration.
    pub fn config(&self) -> (r: &WallMidiConfig)
        ensures
            r.channels@ == self@.pool,
            r.pitch_low == self@.pitch_low,
            r.pitch_high == self@.pitch_high,
            r.motion_cc == self@.motion_cc,
            r.repitch_on_move == self@.repitch_on_move,
    {
        &self.config
    }

    /// Number of sites in the chain.
    pub fn n_sites(&self) -> (r: usize)
        ensures
            r == self@.n_sites,
    {
        self.n_sites
    }

    /// The voice of wall `id`, if it is sounding.
    pub fn voice(&self, id: u64) -> (r: Option<ActiveVoice>)
        requires
            self.wf(),
        ensures
            r == match id_position(self@.active, id) {
                Some(k) => Some(self@.active[k]),
                None => None::<ActiveVoice>,
            },
    {
        match self.position_of(id) {
            Some(k) => Some(self.active[k]),
            None => None,
        }
    }

    fn position_of(&self, id: u64) -> (r: Option<usize>)
        requires
            self.wf(),
        ensures
            r matches Some(k) ==> id_position(self@.active, id) == Some(k as int),
            r is None ==> id_position(self@.active, id) is None,
    {
        let mut k: usize = 0;
        while k < self.active.len()
            invariant
                self.wf(),
                k <= self.active@.len(),
                forall|j: int| 0 <= j < k ==> (#[trigger] self.active@[j]).id != id,
            decreases self.active@.len() - k,
        {
            if self.active[k].id == id {
                proof {
                    lemma_id_position_exact(self.active@, id, k as int);
                }
                return Some(k);
            }
            k = k + 1;
        }
        None
    }

    fn channel_used(&self, ch: u8) -> (r: bool)
        ensures
            r == channel_in_use(self@.active, ch),
    {
        let mut k: usize = 0;
        while k < self.active.len()
            invariant
                k <= self.active@.len(),
                forall|j: int| 0 <= j < k ==> (#[trigger] self.active@[j]).channel != ch,
            decreases self.active@.len() - k,
        {
            if self.active[k].channel == ch {
                return true;
            }
            k = k + 1;
        }
        false
    }

    /// Find a free channel in the pool. Round-robin: starts from the cursor
    /// and walks the pool; the cursor then moves to the slot after the one
    /// taken. `None`, with nothing changed, if every channel is occupied.
    fn allocate_channel(&mut self) -> (r: Option<u8>)
        requires
            old(self).wf(),
        ensures
            final(self).wf(),
            ({
                let o = old(self)@;
                if o.pool.len() > 0 && exists|off: int| first_free(o, off) {
                    let off = choose|off: int| first_free(o, off);
                    r == Some(o.pool[probe(o, off)]) && final(self)@ == (AllocatorView {
                        next_idx: ((probe(o, off) + 1) % (o.pool.len() as int)) as usize,
                        ..o
                    })
                } else {
                    r is None && final(self)@ == o
                }
            }),
    {
        let ghost o = self@;
        let len = self.config.channels.len();
        if len == 0 {
            return None;
        }
        let mut off: usize = 0;
        while off < len
            invariant
                self@ == o,
                o == old(self)@,
                allocator_wf(o),
                len == o.pool.len(),
                len > 0,
                off <= len,
                forall|j: int| 0 <= j < off ==> channel_in_use(o.active, o.pool[#[trigger] probe(o, j)]),
            decreases len - off,
        {
            let idx = ((self.next_idx as u128 + off as u128) % (len as u128)) as usize;
            assert(idx as int == probe(o, off as int));
            let ch = self.config.channels[idx];
            if !self.channel_used(ch) {
                let next = (idx + 1) % len;
                self.next_idx = next;
                proof {
                    let m = (probe(o, off as int) + 1) % (o.pool.len() as int);
                    assert(next as int == m);
                    assert(0 <= m < o.pool.len()) by (nonlinear_arith)
                        requires
                            m == (probe(o, off as int) + 1) % (o.pool.len() as int),
                            o.pool.len() > 0,
                    ;
                    assert(m as usize == next);
                    assert(first_free(o, off as int));
                    let off2 = choose|off2: int| first_free(o, off2);
                    if off2 < off {
                        assert(channel_in_use(o.active, o.pool[probe(o, off2)]));
                    } else if off2 > off {
                        assert(channel_in_use(o.active, o.pool[probe(o, off as int)]));
                    }
                    assert(off2 == off);
                    assert(self@ == (AllocatorView { next_idx: next, ..o }));
                    assert(self@ == (AllocatorView {
                        next_idx: ((probe(o, off2) + 1) % (o.pool.len() as int)) as usize,
                        ..o
                    }));
                    assert(ch == o.pool[probe(o, off2)]);
                    assert(o == old(self)@);
                }
                return Some(ch);
            }
            off = off + 1;
        }
        proof {
            assert forall|off2: int| !first_free(o, off2) by {
                if 0 <= off2 < len {
                    assert(channel_in_use(o.active, o.pool[probe(o, off2)]));
                }
            }
        }
        None
    }

    /// Take the channel of the oldest active wall: its note-off is returned
    /// with the channel, and the wall stops being active. `None`, with
    /// nothing changed, when no wall is active.
    fn steal_oldest(&mut self) -> (r: Option<(u8, MidiCommand)>)
        requires
            old(self).wf(),
        ensures
            final(self).wf(),
            ({
                let o = old(self)@;
                if o.active.len() == 0 {
                    r is None && final(self)@ == o
                } else {
                    let k = choose|k: int| oldest(o.active, k);
                    let v = o.active[k];
                    oldest(o.active, k) && r == Some((v.channel, MidiCommand::NoteOff { channel: v.channel, pitch: v.pitch }))
                        && final(self)@ == (AllocatorView { active: o.active.remove(k), ..o })
                        && forall|i: int|
                        0 <= i < o.active.remove(k).len() ==> (#[trigger] o.active.remove(k)[i]).channel
                            != v.channel
                }
            }),
    {
        let ghost o = self@;
        let n = self.active.len();
        if n == 0 {
            return None;
        }
        let mut best: usize = 0;
        let mut k: usize = 1;
        while k < n
            invariant
                self@ == o,
                n == o.active.len(),
                n > 0,
                best < k <= n,
                forall|j: int| 0 <= j < k ==> o.active[best as int].born_at_tick <= (
                #[trigger] o.active[j]).born_at_tick,
                forall|j: int| 0 <= j < best ==> (#[trigger] o.active[j]).born_at_tick
                    > o.active[best as int].born_at_tick,
            decreases n - k,
        {
            if self.active[k].born_at_tick < self.active[best].born_at_tick {
                best = k;
            }
            k = k + 1;
        }
        proof {
            assert(oldest(o.active, best as int));
            let k2 = choose|k2: int| oldest(o.active, k2);
            if k2 < best {
                assert(o.active[k2].born_at_tick > o.active[best as int].born_at_tick);
            } else if k2 > best {
                assert(o.active[best as int].born_at_tick > o.active[k2].born_at_tick);
            }
            lemma_remove_keeps_distinct(o.active, o.pool, best as int);
        }
        let victim = self.active.remove(best);
        Some((victim.channel, MidiCommand::NoteOff { channel: victim.channel, pitch: victim.pitch }))
    }

    /// Forget wall `id` if it is active.
    fn remove_id(&mut self, id: u64) -> (r: Option<ActiveVoice>)
        requires
            old(self).wf(),
        ensures
            final(self).wf(),
            final(self)@ == (AllocatorView { active: without_id(old(self)@.active, id), ..old(self)@ }),
            r == match id_position(old(self)@.active, id) {
                Some(k) => Some(old(self)@.active[k]),
                None => None::<ActiveVoice>,
            },
    {
        let ghost o = self@;
        match self.position_of(id) {
            Some(k) => {
                proof {
                    lemma_remove_keeps_distinct(o.active, o.pool, k as int);
                }
                let v = self.active.remove(k);
                Some(v)
            },
            None => None,
        }
    }

    /// A wall is born. It takes a free channel (round-robin), or the
    /// channel of the oldest active wall, whose note-off is sent first.
    /// Then the motion CC (when motion is reported by CC) and the note-on
    /// at `pitch`. Returns the messages and the channel, or nothing when
    /// the pool is empty (walls disabled).
    pub fn handle_created(&mut self, id: u64, pitch: u8, cc_value: u8, tick: u64) -> (r: (
        Vec<MidiCommand>,
        Option<u8>,
    ))
        requires
            old(self).wf(),
        ensures
            final(self).wf(),
            ({
                let o = old(self)@;
                if o.pool.len() == 0 {
                    r.0@ == Seq::<MidiCommand>::empty() && r.1 is None && final(self)@ == o
                } else if exists|off: int| first_free(o, off) {
                    let off = choose|off: int| first_free(o, off);
                    let ch = o.pool[probe(o, off)];
                    r.1 == Some(ch) && r.0@ == initial_cc(o, ch, cc_value).push(
                        wall_note_on(ch, pitch),
                    ) && final(self)@ == (AllocatorView {
                        active: without_id(o.active, id).push(
                            ActiveVoice { id, channel: ch, pitch, born_at_tick: tick },
                        ),
                        next_idx: ((probe(o, off) + 1) % (o.pool.len() as int)) as usize,
                        ..o
                    })
                } else {
                    let k = choose|k: int| oldest(o.active, k);
                    let v = o.active[k];
                    r.1 == Some(v.channel) && r.0@ == seq![
                        MidiCommand::NoteOff { channel: v.channel, pitch: v.pitch },
                    ] + initial_cc(o, v.channel, cc_value).push(wall_note_on(v.channel, pitch))
                        && final(self)@ == (AllocatorView {
                        active: without_id(o.active.remove(k), id).push(
                            ActiveVoice { id, channel: v.channel, pitch, born_at_tick: tick },
                        ),
                        ..o
                    })
                }
            }),
    {
        let ghost o = self@;
        let mut cmds: Vec<MidiCommand> = Vec::new();
        if self.config.channels.len() == 0 {
            return (cmds, None);
        }
        let channel = match self.allocate_channel() {
            Some(c) => c,
            None => {
                proof {
                    // Every pool channel is busy, so some wall is active.
                    assert(!first_free(o, 0));
                    assert(probe(o, 0) == o.next_idx as int) by (nonlinear_arith)
                        requires
                            probe(o, 0) == (o.next_idx + 0) % (o.pool.len() as int),
                            0 <= o.next_idx < o.pool.len(),
                    ;
                    assert(channel_in_use(o.active, o.pool[probe(o, 0)]));
                }
                match self.steal_oldest() {
                    Some((c, off)) => {
                        cmds.push(off);
                        c
                    },
                    None => {
                        return (cmds, None);
                    },
                }
            },
        };
        let ghost mid = self@;
        if let Some(cc) = self.config.motion_cc {
            if !self.config.repitch_on_move {
                cmds.push(MidiCommand::ControlChange { channel, cc_number: cc, value: cc_value });
            }
        }
        cmds.push(MidiCommand::NoteOn { channel, pitch, velocity: WALL_VELOCITY });
        let _ = self.remove_id(id);
        let ghost after = self@;
        proof {
            // The new voice's channel is not used by any remaining wall.
            assert forall|i: int| 0 <= i < after.active.len() implies (#[trigger] after.active[i]).channel
                != channel by {
                match id_position(mid.active, id) {
                    Some(kk) => {
                        let ii = if i < kk {
                            i
                        } else {
                            i + 1
                        };
                        assert(after.active[i] == mid.active[ii]);
                        if !(exists|off: int| first_free(o, off)) {
                        } else {
                            let off = choose|off: int| first_free(o, off);
                            assert(!channel_in_use(o.active, o.pool[probe(o, off)]));
                            assert(mid.active == o.active);
                        }
                    },
                    None => {
                        if exists|off: int| first_free(o, off) {
                            let off = choose|off: int| first_free(o, off);
                            assert(!channel_in_use(o.active, o.pool[probe(o, off)]));
                            assert(mid.active == o.active);
                        }
                    },
                }
            }
            if exists|off: int| first_free(o, off) {
                let off = choose|off: int| first_free(o, off);
                let pi = probe(o, off);
                assert(0 <= pi < o.pool.len()) by (nonlinear_arith)
                    requires
                        pi == (o.next_idx + off) % (o.pool.len() as int),
                        o.pool.len() > 0,
                ;
                assert(o.pool.contains(channel)) by {
                    assert(o.pool[pi] == channel);
                }
            } else {
                let k = choose|k: int| oldest(o.active, k);
                assert(oldest(o.active, k));
                assert(o.pool.contains(o.active[k].channel));
            }
        }
        self.active.push(ActiveVoice { id, channel, pitch, born_at_tick: tick });
        proof {
            let fin = self@;
            assert forall|i: int, j: int| 0 <= i < j < fin.active.len() implies (
            #[trigger] fin.active[i]).id != (#[trigger] fin.active[j]).id && fin.active[i].channel
                != fin.active[j].channel by {
                if j == fin.active.len() - 1 {
                    assert(fin.active[i] == after.active[i]);
                    assert(after.active[i].channel != channel);
                    // `id` was removed before the push.
                    assert(id_position(after.active, id) is None) by {
                        if exists|kk: int| 0 <= kk < after.active.len() && (
                        #[trigger] after.active[kk]).id == id {
                            let kk = choose|kk: int| 0 <= kk < after.active.len() && (
                            #[trigger] after.active[kk]).id == id;
                            match id_position(mid.active, id) {
                                Some(p) => {
                                    let q = if kk < p {
                                        kk
                                    } else {
                                        kk + 1
                                    };
                                    assert(after.active[kk] == mid.active[q]);
                                    assert(mid.active[p].id == id);
                                    if q < p {
                                        assert(mid.active[q].id != mid.active[p].id);
                                    } else {
                                        assert(mid.active[p].id != mid.active[q].id);
                                    }
                                },
                                None => {
                                    assert(after.active == mid.active);
                                    assert(mid.active[kk].id == id);
                                },
                            }
                        }
                    }
                    if fin.active[i].id == id {
                        assert(after.active[i].id == id);
                    }
                } else {
                    assert(fin.active[i] == after.active[i] && fin.active[j] == after.active[j]);
                }
            }
            assert(cmds@ =~= (if exists|off: int| first_free(o, off) {
                initial_cc(o, channel, cc_value).push(wall_note_on(channel, pitch))
            } else {
                let k = choose|k: int| oldest(o.active, k);
                let v = o.active[k];
                seq![MidiCommand::NoteOff { channel: v.channel, pitch: v.pitch }] + initial_cc(
                    o,
                    v.channel,
                    cc_value,
                ).push(wall_note_on(v.channel, pitch))
            }));
        }
        (cmds, Some(channel))
    }

    /// A wall annihilates: its note-off, if it was sounding.
    pub fn handle_destroyed(&mut self, id: u64) -> (r: Vec<MidiCommand>)
        requires
            old(self).wf(),
        ensures
            final(self).wf(),
            final(self)@ == (AllocatorView { active: without_id(old(self)@.active, id), ..old(self)@ }),
            r@ == match id_position(old(self)@.active, id) {
                Some(k) => seq![
                    MidiCommand::NoteOff {
                        channel: old(self)@.active[k].channel,
                        pitch: old(self)@.active[k].pitch,
                    },
                ],
                None => Seq::<MidiCommand>::empty(),
            },
    {
        let mut cmds: Vec<MidiCommand> = Vec::new();
        if let Some(voice) = self.remove_id(id) {
            cmds.push(MidiCommand::NoteOff { channel: voice.channel, pitch: voice.pitch });
        }
        assert(cmds@ =~= match id_position(old(self)@.active, id) {
            Some(k) => seq![
                MidiCommand::NoteOff {
                    channel: old(self)@.active[k].channel,
                    pitch: old(self)@.active[k].pitch,
                },
            ],
            None => Seq::<MidiCommand>::empty(),
        });
        cmds
    }

    /// A wall moves to a position whose pitch is `new_pitch` and whose CC
    /// value is `cc_value`. With repitching, a pitch change retires the old
    /// note and starts the new one on the wall's channel (0..=15 only);
    /// otherwise the motion CC, when configured, carries the position.
    /// Walls that are not sounding are ignored.
    pub fn handle_moved(&mut self, id: u64, new_pitch: u8, cc_value: u8) -> (r: Vec<MidiCommand>)
        requires
            old(self).wf(),
        ensures
            final(self).wf(),
            ({
                let o = old(self)@;
                match id_position(o.active, id) {
                    None => r@ == Seq::<MidiCommand>::empty() && final(self)@ == o,
                    Some(k) => {
                        let v = o.active[k];
                        if o.repitch_on_move {
                            if v.channel > 15 || new_pitch == v.pitch {
                                r@ == Seq::<MidiCommand>::empty() && final(self)@ == o
                            } else {
                                r@ == seq![
                                    MidiCommand::NoteOff { channel: v.channel, pitch: v.pitch },
                                    wall_note_on(v.channel, new_pitch),
                                ] && final(self)@ == (AllocatorView {
                                    active: o.active.update(k, ActiveVoice { pitch: new_pitch, ..v }),
                                    ..o
                                })
                            }
                        } else {
                            final(self)@ == o && r@ == match o.motion_cc {
                                Some(cc) => seq![
                                    MidiCommand::ControlChange {
                                        channel: v.channel,
                                        cc_number: cc,
                                        value: cc_value,
                                    },
                                ],
                                None => Seq::<MidiCommand>::empty(),
                            }
                        }
                    },
                }
            }),
    {
        let ghost o = self@;
        let mut cmds: Vec<MidiCommand> = Vec::new();
        let k = match self.position_of(id) {
            Some(k) => k,
            None => {
                return cmds;
            },
        };
        let voice = self.active[k];
        if self.config.repitch_on_move {
            if voice.channel > 15 || new_pitch == voice.pitch {
                return cmds;
            }
            cmds.push(MidiCommand::NoteOff { channel: voice.channel, pitch: voice.pitch });
            cmds.push(MidiCommand::NoteOn { channel: voice.channel, pitch: new_pitch, velocity: WALL_VELOCITY });
            self.active.set(k, ActiveVoice { pitch: new_pitch, ..voice });
            proof {
                let fin = self@;
                assert forall|i: int, j: int| 0 <= i < j < fin.active.len() implies (
                #[trigger] fin.active[i]).id != (#[trigger] fin.active[j]).id && fin.active[i].channel
                    != fin.active[j].channel by {
                    assert(o.active[i].id != o.active[j].id && o.active[i].channel != o.active[j].channel);
                }
                assert forall|i: int| 0 <= i < fin.active.len() implies fin.pool.contains(
                    #[trigger] fin.active[i].channel,
                ) by {
                    assert(o.pool.contains(o.active[i].channel));
                }
            }
        } else if let Some(cc) = self.config.motion_cc {
            cmds.push(MidiCommand::ControlChange { channel: voice.channel, cc_number: cc, value: cc_value });
        }
        proof {
            assert(cmds@ =~= (if o.repitch_on_move {
                seq![
                    MidiCommand::NoteOff { channel: voice.channel, pitch: voice.pitch },
                    wall_note_on(voice.channel, new_pitch),
                ]
            } else {
                match o.motion_cc {
                    Some(cc) => seq![
                        MidiCommand::ControlChange {
                            channel: voice.channel,
                            cc_number: cc,
                            value: cc_value,
                        },
                    ],
                    None => Seq::<MidiCommand>::empty(),
                }
            }));
        }
        cmds
    }
}

/// What a newly born wall sends besides stealing: when walls report
/// motion by CC (a CC number set, no repitching), exactly one control
/// change on the wall's channel with that CC number carrying the CC value
/// of the birth position, then the note-on at the given pitch with
/// velocity 96; otherwise only the note-on. Births that differ in CC value
/// send that value and nothing else differently.
pub proof fn lemma_birth_messages(v: AllocatorView, ch: u8, pitch: u8, cc_value: u8, other: u8)
    ensures
        v.motion_cc matches Some(cc) ==> (!v.repitch_on_move ==> initial_cc(v, ch, cc_value)
            == seq![MidiCommand::ControlChange { channel: ch, cc_number: cc, value: cc_value }]),
        v.motion_cc is None || v.repitch_on_move ==> initial_cc(v, ch, cc_value).len() == 0,
        wall_note_on(ch, pitch) == (MidiCommand::NoteOn { channel: ch, pitch, velocity: 96 }),
        initial_cc(v, ch, cc_value).len() == initial_cc(v, ch, other).len(),
        forall|i: int|
            0 <= i < initial_cc(v, ch, cc_value).len() ==> (#[trigger] initial_cc(
                v,
                ch,
                cc_value,
            )[i] matches MidiCommand::ControlChange { channel, value, .. } && channel == ch
                && value == cc_value),
{
}

/// A wall's note-off names the channel and pitch its own voice was given:
/// in a valid allocator whose newest voice belongs to wall `id` (as
/// `handle_created` leaves it), that newest voice is the one
/// `handle_destroyed(id)` releases, every other voice stays, and no voice
/// of `id` remains afterwards.
pub proof fn lemma_newest_voice_is_released(v: AllocatorView, id: u64)
    requires
        allocator_wf(v),
        v.active.len() > 0,
        v.active.last().id == id,
    ensures
        id_position(v.active, id) == Some(v.active.len() - 1),
        without_id(v.active, id) == v.active.drop_last(),
        id_position(without_id(v.active, id), id) is None,
{
    let n = v.active.len() - 1;
    lemma_id_position_exact(v.active, id, n);
    let rest = v.active.remove(n);
    assert(rest =~= v.active.drop_last());
    if exists|k: int| 0 <= k < rest.len() && (#[trigger] rest[k]).id == id {
        let k = choose|k: int| 0 <= k < rest.len() && (#[trigger] rest[k]).id == id;
        assert(rest[k] == v.active[k]);
        assert(v.active[k].id != v.active[n].id);
    }
}

} // verus!
