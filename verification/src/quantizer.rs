//! Pitch quantization: snapping a MIDI pitch to the nearest tone of a
//! musical scale rooted at a configurable note.

use vstd::prelude::*;
use crate::config::QuantizeConfig;
use crate::text::{str_eq, is_ascii_seq, ascii_lower};

verus! {

#[derive(Clone, Copy, Debug, PartialEq, Eq, Structural)]
pub enum Scale {
    Unquantized,
    Major,
    Minor,
    Pentatonic,
    Hirajoshi,
    Iwato,
}

/// Semitone offsets of the scale's tones above its root, ascending.
pub open spec fn scale_intervals(s: Scale) -> Seq<i16> {
    match s {
        Scale::Unquantized => seq![],
        Scale::Major => seq![0, 2, 4, 5, 7, 9, 11],
        Scale::Minor => seq![0, 2, 3, 5, 7, 8, 10],
        Scale::Pentatonic => seq![0, 2, 4, 7, 9],
        Scale::Hirajoshi => seq![0, 2, 3, 7, 8],
        Scale::Iwato => seq![0, 1, 5, 6, 10],
    }
}

/// The display name of a scale.
pub open spec fn scale_name_chars(s: Scale) -> Seq<char> {
    match s {
        Scale::Unquantized => seq!['U', 'n', 'q', 'u', 'a', 'n', 't', 'i', 'z', 'e', 'd'],
        Scale::Major => seq!['M', 'a', 'j', 'o', 'r'],
        Scale::Minor => seq!['M', 'i', 'n', 'o', 'r'],
        Scale::Pentatonic => seq!['P', 'e', 'n', 't', 'a', 't', 'o', 'n', 'i', 'c'],
        Scale::Hirajoshi => seq!['H', 'i', 'r', 'a', 'j', 'o', 's', 'h', 'i'],
        Scale::Iwato => seq!['I', 'w', 'a', 't', 'o'],
    }
}

/// The scale a lowercase name denotes; `none` is an alias of `unquantized`.
pub open spec fn scale_named(lower: Seq<char>) -> Option<Scale> {
    if lower == seq!['u', 'n', 'q', 'u', 'a', 'n', 't', 'i', 'z', 'e', 'd'] || lower == seq![
        'n',
        'o',
        'n',
        'e',
    ] {
        Some(Scale::Unquantized)
    } else if lower == seq!['m', 'a', 'j', 'o', 'r'] {
        Some(Scale::Major)
    } else if lower == seq!['m', 'i', 'n', 'o', 'r'] {
        Some(Scale::Minor)
    } else if lower == seq!['p', 'e', 'n', 't', 'a', 't', 'o', 'n', 'i', 'c'] {
        Some(Scale::Pentatonic)
    } else if lower == seq!['h', 'i', 'r', 'a', 'j', 'o', 's', 'h', 'i'] {
        Some(Scale::Hirajoshi)
    } else if lower == seq!['i', 'w', 'a', 't', 'o'] {
        Some(Scale::Iwato)
    } else {
        None
    }
}

/// Every scale, in declaration order.
pub open spec fn all_scales() -> Seq<Scale> {
    seq![
        Scale::Unquantized,
        Scale::Major,
        Scale::Minor,
        Scale::Pentatonic,
        Scale::Hirajoshi,
        Scale::Iwato,
    ]
}

/// The lowercase form that `str::to_lowercase` gives of a string.
pub uninterp spec fn lowercase(s: Seq<char>) -> Seq<char>;

/// Calls `str::to_lowercase`. Claimed: the result is a function of the
/// characters of `s` alone, and on an ASCII string it maps exactly the
/// letters `A`..=`Z` to `a`..=`z` and keeps every other character. What it
/// does to non-ASCII characters (Unicode case mapping) is left unsaid.
#[verifier::external_body]
fn to_lowercase(s: &str) -> (r: String)
    ensures
        r@ == lowercase(s@),
        is_ascii_seq(s@) ==> r@ == ascii_lower(s@),
{
    s.to_lowercase()
}

impl Scale {
    pub fn intervals(self) -> (r: &'static [i16])
        ensures
            r@ == scale_intervals(self),
    {
        match self {
            Scale::Unquantized => &[],
            Scale::Major => &[0, 2, 4, 5, 7, 9, 11],
            Scale::Minor => &[0, 2, 3, 5, 7, 8, 10],
            Scale::Pentatonic => &[0, 2, 4, 7, 9],
            Scale::Hirajoshi => &[0, 2, 3, 7, 8],
            Scale::Iwato => &[0, 1, 5, 6, 10],
        }
    }

    pub fn name(self) -> (r: &'static str)
        ensures
            r@ == scale_name_chars(self),
    {
        proof {
            reveal_strlit("Unquantized");
            reveal_strlit("Major");
            reveal_strlit("Minor");
            reveal_strlit("Pentatonic");
            reveal_strlit("Hirajoshi");
            reveal_strlit("Iwato");
        }
        match self {
            Scale::Unquantized => "Unquantized",
            Scale::Major => "Major",
            Scale::Minor => "Minor",
            Scale::Pentatonic => "Pentatonic",
            Scale::Hirajoshi => "Hirajoshi",
            Scale::Iwato => "Iwato",
        }
    }

    /// The scale a name denotes, compared case-insensitively (the name is
    /// lowercased with `str::to_lowercase`); `none` is an alias of
    /// `unquantized`.
    pub fn from_name(name: &str) -> (r: Option<Scale>)
        ensures
            r == scale_named(lowercase(name@)),
            is_ascii_seq(name@) ==> r == scale_named(ascii_lower(name@)),
            is_ascii_seq(name@) ==> lowercase(name@) == ascii_lower(name@),
    {
        let lower = to_lowercase(name);
        Self::from_lowercase_name(lower.as_str())
    }

    /// The scale an already-lowercased name denotes.
    pub fn from_lowercase_name(lower: &str) -> (r: Option<Scale>)
        ensures
            r == scale_named(lower@),
    {
        proof {
            reveal_strlit("unquantized");
            reveal_strlit("none");
            reveal_strlit("major");
            reveal_strlit("minor");
            reveal_strlit("pentatonic");
            reveal_strlit("hirajoshi");
            reveal_strlit("iwato");
            assert("unquantized"@ =~= seq!['u', 'n', 'q', 'u', 'a', 'n', 't', 'i', 'z', 'e', 'd']);
            assert("none"@ =~= seq!['n', 'o', 'n', 'e']);
            assert("major"@ =~= seq!['m', 'a', 'j', 'o', 'r']);
            assert("minor"@ =~= seq!['m', 'i', 'n', 'o', 'r']);
            assert("pentatonic"@ =~= seq!['p', 'e', 'n', 't', 'a', 't', 'o', 'n', 'i', 'c']);
            assert("hirajoshi"@ =~= seq!['h', 'i', 'r', 'a', 'j', 'o', 's', 'h', 'i']);
            assert("iwato"@ =~= seq!['i', 'w', 'a', 't', 'o']);
        }
        if str_eq(lower, "unquantized") || str_eq(lower, "none") {
            Some(Scale::Unquantized)
        } else if str_eq(lower, "major") {
            Some(Scale::Major)
        } else if str_eq(lower, "minor") {
            Some(Scale::Minor)
        } else if str_eq(lower, "pentatonic") {
            Some(Scale::Pentatonic)
        } else if str_eq(lower, "hirajoshi") {
            Some(Scale::Hirajoshi)
        } else if str_eq(lower, "iwato") {
            Some(Scale::Iwato)
        } else {
            None
        }
    }

    pub fn all() -> (r: &'static [Scale])
        ensures
            r@ == all_scales(),
    {
        &[
            Scale::Unquantized,
            Scale::Major,
            Scale::Minor,
            Scale::Pentatonic,
            Scale::Hirajoshi,
            Scale::Iwato,
        ]
    }
}

#[derive(Clone, Debug)]
pub struct ScaleQuantizer {
    pub scale: Scale,
    pub root_note: u8,
}

/// Distance between two pitches.
pub open spec fn dist(a: int, b: int) -> int {
    if a >= b {
        a - b
    } else {
        b - a
    }
}

/// The tone at index `k` of the scale in octave `octave` relative to the
/// octave of `pitch` (`pitch / 12`), with the root taken modulo 12.
pub open spec fn tone(scale: Scale, root_note: u8, pitch: int, octave: int, k: int) -> int {
    (pitch / 12 + octave) * 12 + (root_note % 12) as int + scale_intervals(scale)[k] as int
}

/// `(octave, k)` names a tone in the octave below, the octave of, or the
/// octave above `pitch` that is a valid MIDI pitch (0..=127).
pub open spec fn in_range_tone(scale: Scale, root_note: u8, pitch: int, octave: int, k: int) -> bool {
    &&& -1 <= octave <= 1
    &&& 0 <= k < scale_intervals(scale).len()
    &&& 0 <= tone(scale, root_note, pitch, octave, k) <= 127
}

/// `r` is the quantization of `pitch`: the nearest valid scale tone among
/// the three octaves around `pitch`, the lower one on a tie; `pitch`
/// itself when there is no such tone (an unquantized scale, or a pitch
/// far above the MIDI range).
pub open spec fn is_quantization(scale: Scale, root_note: u8, pitch: int, r: int) -> bool {
    &&& (forall|o: int, k: int| !in_range_tone(scale, root_note, pitch, o, k)) ==> r == pitch
    &&& (exists|o: int, k: int| in_range_tone(scale, root_note, pitch, o, k)) ==> (exists|
        o: int,
        k: int,
    | #[trigger] in_range_tone(scale, root_note, pitch, o, k) && r == tone(
        scale,
        root_note,
        pitch,
        o,
        k,
    ))
    &&& forall|o: int, k: int| #[trigger]
        in_range_tone(scale, root_note, pitch, o, k) ==> {
            let t = tone(scale, root_note, pitch, o, k);
            &&& dist(pitch, r) <= dist(pitch, t)
            &&& (dist(pitch, r) == dist(pitch, t) ==> r <= t)
        }
}

/// The intervals of every scale ascend strictly and stay within an octave.
pub proof fn lemma_intervals_shape(s: Scale)
    ensures
        forall|i: int, j: int|
            0 <= i < j < scale_intervals(s).len() ==> scale_intervals(s)[i]
                < scale_intervals(s)[j],
        forall|i: int| 0 <= i < scale_intervals(s).len() ==> 0 <= #[trigger] scale_intervals(s)[i] <= 11,
{
    let iv = scale_intervals(s);
    assert forall|i: int, j: int| 0 <= i < j < iv.len() implies iv[i] < iv[j] by {
        if i == 0 && j == 1 {} else if i == 0 && j == 2 {} else if i == 0 && j == 3 {}
        else if i == 0 && j == 4 {} else if i == 0 && j == 5 {} else if i == 0 && j == 6 {}
        else if i == 1 && j == 2 {} else if i == 1 && j == 3 {} else if i == 1 && j == 4 {}
        else if i == 1 && j == 5 {} else if i == 1 && j == 6 {} else if i == 2 && j == 3 {}
        else if i == 2 && j == 4 {} else if i == 2 && j == 5 {} else if i == 2 && j == 6 {}
        else if i == 3 && j == 4 {} else if i == 3 && j == 5 {} else if i == 3 && j == 6 {}
        else if i == 4 && j == 5 {} else if i == 4 && j == 6 {} else {}
    }
    assert forall|i: int| 0 <= i < iv.len() implies 0 <= #[trigger] iv[i] <= 11 by {
        if i == 0 {} else if i == 1 {} else if i == 2 {} else if i == 3 {} else if i == 4 {}
        else if i == 5 {} else {}
    }
}

/// Tones visited in (octave, index) order ascend strictly.
proof fn lemma_tone_order(
    scale: Scale,
    root_note: u8,
    pitch: int,
    o1: int,
    k1: int,
    o2: int,
    k2: int,
)
    requires
        0 <= k1 < scale_intervals(scale).len(),
        0 <= k2 < scale_intervals(scale).len(),
        o1 < o2 || (o1 == o2 && k1 < k2),
    ensures
        tone(scale, root_note, pitch, o1, k1) < tone(scale, root_note, pitch, o2, k2),
{
    lemma_intervals_shape(scale);
    let q = pitch / 12;
    let r = (root_note % 12) as int;
    let iv = scale_intervals(scale);
    assert((q + o1) * 12 == q * 12 + o1 * 12);
    assert((q + o2) * 12 == q * 12 + o2 * 12);
    if o1 < o2 {
        assert(iv[k1] <= 11);
        assert(iv[k2] >= 0);
    } else {
        assert(iv[k1] < iv[k2]);
    }
}

impl ScaleQuantizer {
    /// A quantizer for the configured scale, or `None` when the
    /// configuration leaves pitches unquantized.
    pub fn from_config(config: &QuantizeConfig) -> (r: Option<Self>)
        ensures
            config.scale == Scale::Unquantized ==> r is None,
            config.scale != Scale::Unquantized ==> (r matches Some(q) && q.scale == config.scale
                && q.root_note == config.root_note),
    {
        if config.scale == Scale::Unquantized {
            None
        } else {
            Some(ScaleQuantizer { scale: config.scale, root_note: config.root_note })
        }
    }

    /// Snap `pitch` to the nearest tone of the scale (ties to the lower
    /// tone), searching the octave of `pitch` and its two neighbours and
    /// keeping within 0..=127.
    pub fn quantize(&self, pitch: u8) -> (r: u8)
        ensures
            is_quantization(self.scale, self.root_note, pitch as int, r as int),
    {
        let intervals = self.scale.intervals();
        let ghost sc = self.scale;
        let ghost rn = self.root_note;
        let ghost pi = pitch as int;
        if intervals.len() == 0 {
            return pitch;
        }
        proof {
            lemma_intervals_shape(sc);
        }
        let root = (self.root_note % 12) as i16;
        let p = pitch as i16;
        let mut best_pitch: i16 = p;
        let mut best_dist: i16 = 256;
        let mut octave: i16 = -1;
        while octave <= 1
            invariant
                intervals@ == scale_intervals(sc),
                intervals@.len() > 0,
                forall|i: int| 0 <= i < intervals@.len() ==> 0 <= #[trigger] intervals@[i] <= 11,
                root as int == (rn % 12) as int,
                p as int == pi,
                0 <= pi <= 255,
                -1 <= octave <= 2,
                best_dist == 256 ==> best_pitch == p,
                best_dist == 256 ==> forall|o: int, k: int|
                    o < octave ==> !in_range_tone(sc, rn, pi, o, k),
                best_dist < 256 ==> exists|o: int, k: int|
                    o < octave && #[trigger] in_range_tone(sc, rn, pi, o, k) && best_pitch == tone(
                        sc,
                        rn,
                        pi,
                        o,
                        k,
                    ),
                best_dist < 256 ==> best_dist == dist(pi, best_pitch as int),
                0 <= best_dist <= 256,
                forall|o: int, k: int|
                    o < octave && #[trigger] in_range_tone(sc, rn, pi, o, k) ==> {
                        let t = tone(sc, rn, pi, o, k);
                        &&& best_dist <= dist(pi, t)
                        &&& (best_dist == dist(pi, t) ==> best_pitch <= t)
                    },
            decreases 2 - octave,
        {
            let base = (p / 12 + octave) * 12;
            let mut k: usize = 0;
            while k < intervals.len()
                invariant
                    intervals@ == scale_intervals(sc),
                    intervals@.len() > 0,
                    forall|i: int| 0 <= i < intervals@.len() ==> 0 <= #[trigger] intervals@[i] <= 11,
                    root as int == (rn % 12) as int,
                    p as int == pi,
                    0 <= pi <= 255,
                    -1 <= octave <= 1,
                    base as int == (pi / 12 + octave) * 12,
                    0 <= k <= intervals@.len(),
                    best_dist == 256 ==> best_pitch == p,
                    best_dist == 256 ==> forall|o: int, kk: int|
                        (o < octave || (o == octave && kk < k)) ==> !in_range_tone(sc, rn, pi, o, kk),
                    best_dist < 256 ==> exists|o: int, kk: int|
                        (o < octave || (o == octave && kk < k)) && #[trigger] in_range_tone(
                            sc,
                            rn,
                            pi,
                            o,
                            kk,
                        ) && best_pitch == tone(sc, rn, pi, o, kk),
                    best_dist < 256 ==> best_dist == dist(pi, best_pitch as int),
                    0 <= best_dist <= 256,
                    forall|o: int, kk: int|
                        (o < octave || (o == octave && kk < k)) && #[trigger] in_range_tone(
                            sc,
                            rn,
                            pi,
                            o,
                            kk,
                        ) ==> {
                            let t = tone(sc, rn, pi, o, kk);
                            &&& best_dist <= dist(pi, t)
                            &&& (best_dist == dist(pi, t) ==> best_pitch <= t)
                        },
                decreases intervals@.len() - k,
            {
                let interval = intervals[k];
                let candidate = base + root + interval;
                let ghost ki = k as int;
                let ghost oi = octave as int;
                assert(candidate as int == tone(sc, rn, pi, oi, ki));
                if !(candidate < 0 || candidate > 127) {
                    assert(in_range_tone(sc, rn, pi, oi, ki));
                    let d = if p >= candidate {
                        p - candidate
                    } else {
                        candidate - p
                    };
                    if d < best_dist {
                        best_dist = d;
                        best_pitch = candidate;
                    } else {
                        proof {
                            if best_dist == d {
                                let (o2, k2) = choose|o: int, kk: int|
                                    (o < octave || (o == octave && kk < k)) && #[trigger] in_range_tone(
                                        sc,
                                        rn,
                                        pi,
                                        o,
                                        kk,
                                    ) && best_pitch == tone(sc, rn, pi, o, kk);
                                lemma_tone_order(sc, rn, pi, o2, k2, oi, ki);
                            }
                        }
                    }
                }
                k = k + 1;
            }
            octave = octave + 1;
        }
        best_pitch as u8
    }
}

/// The quantization of a pitch is unique: `is_quantization` pins the
/// result of `ScaleQuantizer::quantize` down to one value.
pub proof fn lemma_quantization_unique(scale: Scale, root_note: u8, pitch: int, a: int, b: int)
    requires
        is_quantization(scale, root_note, pitch, a),
        is_quantization(scale, root_note, pitch, b),
    ensures
        a == b,
{
    if exists|o: int, k: int| in_range_tone(scale, root_note, pitch, o, k) {
        let (oa, ka) = choose|o: int, k: int|
            #[trigger] in_range_tone(scale, root_note, pitch, o, k) && a == tone(
                scale,
                root_note,
                pitch,
                o,
                k,
            );
        let (ob, kb) = choose|o: int, k: int|
            #[trigger] in_range_tone(scale, root_note, pitch, o, k) && b == tone(
                scale,
                root_note,
                pitch,
                o,
                k,
            );
        assert(in_range_tone(scale, root_note, pitch, oa, ka));
        assert(in_range_tone(scale, root_note, pitch, ob, kb));
    }
}

/// Quantizing a MIDI pitch (0..=127) always gives a MIDI pitch.
pub proof fn lemma_quantization_in_midi_range(scale: Scale, root_note: u8, pitch: int, r: int)
    requires
        0 <= pitch <= 127,
        is_quantization(scale, root_note, pitch, r),
    ensures
        0 <= r <= 127,
{
    if exists|o: int, k: int| in_range_tone(scale, root_note, pitch, o, k) {
        let (o, k) = choose|o: int, k: int|
            #[trigger] in_range_tone(scale, root_note, pitch, o, k) && r == tone(
                scale,
                root_note,
                pitch,
                o,
                k,
            );
        assert(in_range_tone(scale, root_note, pitch, o, k));
    }
}

/// Quantization is idempotent: a quantized pitch is already a scale tone,
/// so quantizing it again leaves it where it is.
pub proof fn lemma_quantization_idempotent(scale: Scale, root_note: u8, pitch: int, r: int)
    requires
        is_quantization(scale, root_note, pitch, r),
    ensures
        is_quantization(scale, root_note, r, r),
{
    if exists|o: int, k: int| in_range_tone(scale, root_note, pitch, o, k) {
        let (o, k) = choose|o: int, k: int|
            #[trigger] in_range_tone(scale, root_note, pitch, o, k) && r == tone(
                scale,
                root_note,
                pitch,
                o,
                k,
            );
        assert(in_range_tone(scale, root_note, pitch, o, k));
        lemma_intervals_shape(scale);
        let m = (root_note % 12) as int + scale_intervals(scale)[k] as int;
        let q = pitch / 12 + o;
        assert(0 <= m <= 22);
        assert(r == q * 12 + m);
        assert(r / 12 == q + m / 12) by (nonlinear_arith)
            requires
                r == q * 12 + m,
                0 <= m <= 22,
        ;
        let o2 = -(m / 12);
        assert(tone(scale, root_note, r, o2, k) == r) by (nonlinear_arith)
            requires
                r / 12 == q + m / 12,
                o2 == -(m / 12),
                r == q * 12 + m,
                tone(scale, root_note, r, o2, k) == (r / 12 + o2) * 12 + m,
        ;
        assert(in_range_tone(scale, root_note, r, o2, k));
        assert forall|o3: int, k3: int| #[trigger] in_range_tone(scale, root_note, r, o3, k3) implies {
            let t = tone(scale, root_note, r, o3, k3);
            &&& dist(r, r) <= dist(r, t)
            &&& (dist(r, r) == dist(r, t) ==> r <= t)
        } by {}
    } else {
        assert(r == pitch);
    }
}

/// Every scale's display name, lowercased, names that scale again: the
/// names `Scale::name` gives are ASCII, so `Scale::from_name` reads each
/// of them back as the scale it came from.
pub proof fn lemma_scale_name_roundtrip(s: Scale)
    ensures
        is_ascii_seq(scale_name_chars(s)),
        scale_named(ascii_lower(scale_name_chars(s))) == Some(s),
{
    let n = scale_name_chars(s);
    assert(ascii_lower(n) =~= match s {
        Scale::Unquantized => seq!['u', 'n', 'q', 'u', 'a', 'n', 't', 'i', 'z', 'e', 'd'],
        Scale::Major => seq!['m', 'a', 'j', 'o', 'r'],
        Scale::Minor => seq!['m', 'i', 'n', 'o', 'r'],
        Scale::Pentatonic => seq!['p', 'e', 'n', 't', 'a', 't', 'o', 'n', 'i', 'c'],
        Scale::Hirajoshi => seq!['h', 'i', 'r', 'a', 'j', 'o', 's', 'h', 'i'],
        Scale::Iwato => seq!['i', 'w', 'a', 't', 'o'],
    });
}

} // verus!
