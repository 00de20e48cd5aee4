//! MIDI-to-perturbation routing: which chain site an incoming note-on
//! perturbs.

use vstd::prelude::*;
use vstd::arithmetic::div_mod::{
    lemma_fundamental_div_mod, lemma_fundamental_div_mod_converse, lemma_mod_multiples_basic,
    lemma_add_mod_noop,
};

verus! {

/// One raw incoming MIDI message (three bytes).
#[derive(Clone, Copy, Debug, PartialEq, Eq, Structural)]
pub struct RawMidiMessage {
    pub status: u8,
    pub data1: u8,
    pub data2: u8,
}

impl RawMidiMessage {
    /// The first three bytes of an incoming message; shorter messages are
    /// dropped (`None`).
    pub fn from_bytes(bytes: &[u8]) -> (r: Option<RawMidiMessage>)
        ensures
            bytes@.len() < 3 ==> r is None,
            bytes@.len() >= 3 ==> r == Some(
                RawMidiMessage { status: bytes@[0], data1: bytes@[1], data2: bytes@[2] },
            ),
    {
        if bytes.len() < 3 {
            return None;
        }
        Some(RawMidiMessage { status: bytes[0], data1: bytes[1], data2: bytes[2] })
    }
}

/// The site a message perturbs: a note-on (status `0x9n`, any channel)
/// with non-zero velocity maps its note, relative to `base_note`, onto
/// the chain modulo its length (notes below `base_note` wrap from the
/// end). Everything else — note-offs, velocity-0 note-ons (note-off by
/// MIDI convention), control changes, an empty chain — perturbs nothing.
pub open spec fn perturbed_site(msg: RawMidiMessage, base_note: u8, n_sites: usize) -> Option<usize> {
    if n_sites == 0 || msg.status / 16 != 9 || msg.data2 == 0 {
        None
    } else {
        Some(((msg.data1 as int - base_note as int) % (n_sites as int)) as usize)
    }
}

/// The site an incoming message perturbs, if any.
pub fn note_on_site(msg: RawMidiMessage, base_note: u8, n_sites: usize) -> (r: Option<usize>)
    requires
        n_sites <= i32::MAX,
    ensures
        r == perturbed_site(msg, base_note, n_sites),
{
    if n_sites == 0 {
        return None;
    }
    let status = msg.status;
    let high = status & 0xF0;
    assert(high == 0x90 <==> status / 16 == 9) by (bit_vector)
        requires
            high == status & 0xF0u8,
    ;
    // Note-on on any channel. Note-off (0x80) and CC (0xB0) are dropped.
    if high != 0x90 {
        return None;
    }
    // Velocity-0 note-on is "note-off" in MIDI convention.
    if msg.data2 == 0 {
        return None;
    }
    // Site: note relative to base_note, wrapped onto the chain (Euclidean
    // remainder, so notes below base_note count back from the end).
    let note = msg.data1 as usize;
    let base = base_note as usize;
    let site = if note >= base {
        (note - base) % n_sites
    } else {
        let back = (base - note) % n_sites;
        if back == 0 {
            0
        } else {
            n_sites - back
        }
    };
    proof {
        let off = msg.data1 as int - base_note as int;
        let n = n_sites as int;
        if note >= base {
            assert(site as int == off % n);
        } else {
            let b = (base - note) as int;
            let q = b / n;
            let back = b % n;
            assert(b == q * n + back && 0 <= back < n) by (nonlinear_arith)
                requires
                    n > 0,
                    q == b / n,
                    back == b % n,
            ;
            assert(off == -b);
            if back == 0 {
                assert(off == (-q) * n + 0) by (nonlinear_arith)
                    requires
                        off == -b,
                        b == q * n + back,
                        back == 0,
                ;
                lemma_fundamental_div_mod_converse(off, n, -q, 0);
            } else {
                assert(off == (-q - 1) * n + (n - back)) by (nonlinear_arith)
                    requires
                        off == -b,
                        b == q * n + back,
                ;
                lemma_fundamental_div_mod_converse(off, n, -q - 1, n - back);
            }
        }
    }
    Some(site)
}

/// A note-on with non-zero velocity on a non-empty chain reaches the site
/// that is congruent to `note - base_note` modulo the chain length: a site
/// of the chain, `base_note` itself reaching site 0 (whatever
/// `base_note` is). Note-offs, silent note-ons, other messages and an
/// empty chain reach no site.
pub proof fn lemma_note_on_site_law(msg: RawMidiMessage, base_note: u8, n_sites: usize)
    ensures
        n_sites > 0 && msg.status / 16 == 9 && msg.data2 != 0 ==> (perturbed_site(
            msg,
            base_note,
            n_sites,
        ) matches Some(site) && site < n_sites && (msg.data1 as int - base_note as int
            - site as int) % (n_sites as int) == 0),
        n_sites > 0 && msg.status / 16 == 9 && msg.data2 != 0 && msg.data1 == base_note
            ==> perturbed_site(msg, base_note, n_sites) == Some(0usize),
        n_sites == 0 || msg.status / 16 != 9 || msg.data2 == 0 ==> perturbed_site(
            msg,
            base_note,
            n_sites,
        ) is None,
{
    if n_sites > 0 && msg.status / 16 == 9 && msg.data2 != 0 {
        let off = msg.data1 as int - base_note as int;
        let n = n_sites as int;
        let q = off / n;
        lemma_fundamental_div_mod(off, n);
        lemma_mod_multiples_basic(q, n);
        assert(n * q == q * n) by (nonlinear_arith);
        assert(off - off % n == q * n);
        if msg.data1 == base_note {
            assert(0int % n == 0);
        }
    }
}

/// One semitone up reaches the next site, wrapping from the last site to
/// site 0: the sites of two note-ons a semitone apart are consecutive
/// modulo the chain length.
pub proof fn lemma_next_semitone_next_site(msg: RawMidiMessage, base_note: u8, n_sites: usize)
    requires
        n_sites > 0,
        msg.status / 16 == 9,
        msg.data2 != 0,
        msg.data1 < 255,
    ensures
        ({
            let up = RawMidiMessage { data1: (msg.data1 + 1) as u8, ..msg };
            perturbed_site(up, base_note, n_sites) matches Some(b) && perturbed_site(
                msg,
                base_note,
                n_sites,
            ) matches Some(a) && b as int == (a as int + 1) % (n_sites as int)
        }),
{
    let off = msg.data1 as int - base_note as int;
    let n = n_sites as int;
    lemma_add_mod_noop(off, 1, n);
    if n == 1 {
        assert(off % 1 == 0 && (off + 1) % 1 == 0 && (off % 1 + 1) % 1 == 0);
    } else {
        lemma_fundamental_div_mod_converse(1, n, 0, 1);
    }
}

} // verus!
