//! Parsers for the `low:high` range arguments of the command line
//! (`--wall-channels 5:8`, `--wall-pitch-range 36:84`), and the wall
//! MIDI configuration the range arguments override.

use vstd::prelude::*;
use crate::config::WallMidiConfig;
use crate::text::{
    decimal, is_digit, lemma_decimal_digits, lemma_parse_decimal, parse_unsigned,
    parse_unsigned_str, push_decimal, trim, trim_seq,
};

verus! {

/// `c` is the position of the only `:` in `s`.
pub open spec fn sole_colon(s: Seq<char>, c: int) -> bool {
    &&& 0 <= c < s.len()
    &&& s[c] == ':'
    &&& forall|j: int| 0 <= j < s.len() && j != c ==> #[trigger] s[j] != ':'
}

/// What `parse_u8_pair` gives for `s`: the two numbers around the only
/// colon, each trimmed and read as a `u8`; otherwise the error text.
pub open spec fn u8_pair_result(s: Seq<char>) -> Result<(u8, u8), Seq<char>> {
    if !exists|c: int| sole_colon(s, c) {
        Err("expected 'low:high', got '"@ + s + "'"@)
    } else {
        let c = choose|c: int| sole_colon(s, c);
        let a = s.take(c);
        let b = s.skip(c + 1);
        match parse_unsigned(trim_seq(a), 255) {
            None => Err("invalid number: '"@ + a + "'"@),
            Some(lo) => match parse_unsigned(trim_seq(b), 255) {
                None => Err("invalid number: '"@ + b + "'"@),
                Some(hi) => Ok((lo as u8, hi as u8)),
            },
        }
    }
}

/// What `parse_channel_range` gives for `s`: a 1-based channel range
/// within 1..=16, low end first.
pub open spec fn channel_range_result(s: Seq<char>) -> Result<(u8, u8), Seq<char>> {
    match u8_pair_result(s) {
        Err(e) => Err(e),
        Ok((lo, hi)) => if lo < 1 || hi > 16 {
            Err(
                "channels must be in 1..=16 (got "@ + decimal(lo as nat) + ":"@ + decimal(hi as nat)
                    + ")"@,
            )
        } else if lo > hi {
            Err(
                "low channel must be <= high channel (got "@ + decimal(lo as nat) + ":"@ + decimal(
                    hi as nat,
                ) + ")"@,
            )
        } else {
            Ok((lo, hi))
        },
    }
}

/// What `parse_pitch_range` gives for `s`: a pitch range within 0..=127,
/// low end first.
pub open spec fn pitch_range_result(s: Seq<char>) -> Result<(u8, u8), Seq<char>> {
    match u8_pair_result(s) {
        Err(e) => Err(e),
        Ok((lo, hi)) => if lo > 127 || hi > 127 {
            Err(
                "pitches must be in 0..=127 (got "@ + decimal(lo as nat) + ":"@ + decimal(hi as nat)
                    + ")"@,
            )
        } else if lo > hi {
            Err(
                "low pitch must be <= high pitch (got "@ + decimal(lo as nat) + ":"@ + decimal(
                    hi as nat,
                ) + ")"@,
            )
        } else {
            Ok((lo, hi))
        },
    }
}

/// `lo:hi` written in decimal.
pub open spec fn range_text(lo: u8, hi: u8) -> Seq<char> {
    decimal(lo as nat) + ":"@ + decimal(hi as nat)
}

/// A pair written as `lo:hi` in decimal reads back as `(lo, hi)`.
pub proof fn lemma_pair_reads_back(lo: u8, hi: u8)
    ensures
        u8_pair_result(range_text(lo, hi)) == Ok::<(u8, u8), Seq<char>>((lo, hi)),
{
    reveal_strlit(":");
    lemma_decimal_digits(lo as nat);
    lemma_decimal_digits(hi as nat);
    lemma_parse_decimal(lo as nat, 255);
    lemma_parse_decimal(hi as nat, 255);
    let a = decimal(lo as nat);
    let b = decimal(hi as nat);
    let s = range_text(lo, hi);
    let c = a.len() as int;
    assert(s == a + seq![':'] + b);
    assert forall|j: int| 0 <= j < s.len() && j != c implies #[trigger] s[j] != ':' by {
        if j < c {
            assert(s[j] == a[j]);
            assert(is_digit(a[j]));
        } else {
            assert(s[j] == b[j - c - 1]);
            assert(is_digit(b[j - c - 1]));
        }
    }
    assert(sole_colon(s, c));
    let c2 = choose|c2: int| sole_colon(s, c2);
    if c2 != c {
        assert(s[c] != ':');
    }
    assert(s.take(c) =~= a);
    assert(s.skip(c + 1) =~= b);
}

/// A channel range is accepted exactly when it is a readable pair
/// `lo:hi` with 1 <= lo <= hi <= 16, and then it is that pair; so every
/// such range written in decimal is accepted as itself.
pub proof fn lemma_channel_range_law(s: Seq<char>, lo: u8, hi: u8)
    ensures
        (channel_range_result(s) == Ok::<(u8, u8), Seq<char>>((lo, hi))) <==> (u8_pair_result(s)
            == Ok::<(u8, u8), Seq<char>>((lo, hi)) && 1 <= lo <= hi <= 16),
        1 <= lo <= hi <= 16 ==> channel_range_result(range_text(lo, hi)) == Ok::<
            (u8, u8),
            Seq<char>,
        >((lo, hi)),
{
    lemma_pair_reads_back(lo, hi);
}

/// A pitch range is accepted exactly when it is a readable pair `lo:hi`
/// with lo <= hi <= 127, and then it is that pair; so every such range
/// written in decimal is accepted as itself.
pub proof fn lemma_pitch_range_law(s: Seq<char>, lo: u8, hi: u8)
    ensures
        (pitch_range_result(s) == Ok::<(u8, u8), Seq<char>>((lo, hi))) <==> (u8_pair_result(s)
            == Ok::<(u8, u8), Seq<char>>((lo, hi)) && lo <= hi <= 127),
        lo <= hi <= 127 ==> pitch_range_result(range_text(lo, hi)) == Ok::<(u8, u8), Seq<char>>(
            (lo, hi),
        ),
{
    lemma_pair_reads_back(lo, hi);
}

/// The view of a `Result` with a `String` error.
pub open spec fn result_view(r: Result<(u8, u8), String>) -> Result<(u8, u8), Seq<char>> {
    match r {
        Ok(p) => Ok(p),
        Err(e) => Err(e@),
    }
}

/// Split `lo:hi` at its only colon and read both numbers (whitespace
/// around each number is ignored).
pub fn parse_u8_pair(s: &str) -> (r: Result<(u8, u8), String>)
    ensures
        result_view(r) == u8_pair_result(s@),
{
    let len = s.unicode_len();
    let mut colons: usize = 0;
    let mut pos: usize = 0;
    let mut i: usize = 0;
    while i < len
        invariant
            len == s@.len(),
            i <= len,
            colons <= i,
            colons == 0 ==> forall|j: int| 0 <= j < i ==> #[trigger] s@[j] != ':',
            colons == 1 ==> pos < i && s@[pos as int] == ':' && forall|j: int|
                0 <= j < i && j != pos ==> #[trigger] s@[j] != ':',
            colons >= 2 ==> !exists|c: int| sole_colon(s@, c),
        decreases len - i,
    {
        if s.get_char(i) == ':' {
            if colons == 0 {
                pos = i;
                colons = 1;
            } else {
                proof {
                    if colons == 1 {
                        assert forall|c: int| !sole_colon(s@, c) by {
                            if sole_colon(s@, c) {
                                if c != pos {
                                    assert(s@[pos as int] != ':');
                                } else {
                                    assert(s@[i as int] != ':');
                                }
                            }
                        }
                    }
                }
                colons = 2;
            }
        }
        i = i + 1;
    }
    if colons != 1 {
        proof {
            if colons == 0 {
                assert forall|c: int| !sole_colon(s@, c) by {
                    if sole_colon(s@, c) {
                        assert(s@[c] != ':');
                    }
                }
            }
        }
        let mut e = String::new();
        e.append("expected 'low:high', got '");
        e.append(s);
        e.append("'");
        return Err(e);
    }
    proof {
        assert(sole_colon(s@, pos as int));
        let c = choose|c: int| sole_colon(s@, c);
        if c != pos {
            assert(s@[c] != ':');
        }
    }
    let a = s.substring_char(0, pos);
    let b = s.substring_char(pos + 1, len);
    assert(a@ =~= s@.take(pos as int));
    assert(b@ =~= s@.skip(pos + 1));
    let lo = match parse_unsigned_str(trim(a), 255) {
        Some(v) => v as u8,
        None => {
            let mut e = String::new();
            e.append("invalid number: '");
            e.append(a);
            e.append("'");
            return Err(e);
        },
    };
    let hi = match parse_unsigned_str(trim(b), 255) {
        Some(v) => v as u8,
        None => {
            let mut e = String::new();
            e.append("invalid number: '");
            e.append(b);
            e.append("'");
            return Err(e);
        },
    };
    Ok((lo, hi))
}

fn range_message(prefix: &str, lo: u8, hi: u8) -> (r: String)
    ensures
        r@ == prefix@ + decimal(lo as nat) + ":"@ + decimal(hi as nat) + ")"@,
{
    let mut e = String::new();
    e.append(prefix);
    push_decimal(&mut e, lo as u64);
    e.append(":");
    push_decimal(&mut e, hi as u64);
    e.append(")");
    assert(e@ =~= prefix@ + decimal(lo as nat) + ":"@ + decimal(hi as nat) + ")"@);
    e
}

/// A 1-based MIDI channel range `lo:hi` within 1..=16.
pub fn parse_channel_range(s: &str) -> (r: Result<(u8, u8), String>)
    ensures
        result_view(r) == channel_range_result(s@),
{
    let (lo, hi) = parse_u8_pair(s)?;
    if lo < 1 || hi > 16 {
        return Err(range_message("channels must be in 1..=16 (got ", lo, hi));
    }
    if lo > hi {
        return Err(range_message("low channel must be <= high channel (got ", lo, hi));
    }
    Ok((lo, hi))
}

/// A MIDI pitch range `lo:hi` within 0..=127.
pub fn parse_pitch_range(s: &str) -> (r: Result<(u8, u8), String>)
    ensures
        result_view(r) == pitch_range_result(s@),
{
    let (lo, hi) = parse_u8_pair(s)?;
    // u8 max is 255, so the upper bound is the only check needed.
    if lo > 127 || hi > 127 {
        return Err(range_message("pitches must be in 0..=127 (got ", lo, hi));
    }
    if lo > hi {
        return Err(range_message("low pitch must be <= high pitch (got ", lo, hi));
    }
    Ok((lo, hi))
}

/// The 0-based clock channel for a 1-based command-line channel: 0 maps
/// to the first channel and values above 16 to the last, rather than
/// failing.
pub fn clock_channel_0based(channel_1b: u8) -> (r: u8)
    ensures
        r == if channel_1b == 0 {
            0
        } else if channel_1b > 16 {
            15
        } else {
            channel_1b - 1
        },
{
    let c = if channel_1b == 0 {
        0
    } else {
        channel_1b - 1
    };
    if c > 15 {
        15
    } else {
        c
    }
}

/// The 0-based channels of the 1-based range `lo..=hi`, ascending.
pub open spec fn channel_span(lo: u8, hi: u8) -> Seq<u8> {
    if lo > hi {
        Seq::empty()
    } else {
        Seq::new((hi - lo + 1) as nat, |k: int| (lo - 1 + k) as u8)
    }
}

/// The wall MIDI configuration with the command-line overrides applied:
/// each field falls back to `WallMidiConfig::default()` when its argument
/// was not given. Channels are 1-based on the command line; a motion CC
/// of 0 disables the CC stream.
pub fn build_wall_midi(
    wall_channels: Option<(u8, u8)>,
    wall_pitch_range: Option<(u8, u8)>,
    wall_motion_cc: Option<u8>,
    wall_repitch_on_move: bool,
) -> (r: WallMidiConfig)
    requires
        wall_channels matches Some((lo, hi)) ==> 1 <= lo,
    ensures
        r.channels@ == match wall_channels {
            Some((lo, hi)) => channel_span(lo, hi),
            None => seq![4u8, 5u8, 6u8, 7u8],
        },
        (r.pitch_low, r.pitch_high) == match wall_pitch_range {
            Some(p) => p,
            None => (36u8, 60u8),
        },
        r.motion_cc == match wall_motion_cc {
            Some(cc) => if cc == 0 {
                None
            } else {
                Some(cc)
            },
            None => Some(1u8),
        },
        r.repitch_on_move == wall_repitch_on_move,
{
    let mut cfg = WallMidiConfig::default();
    if let Some((lo, hi)) = wall_channels {
        let mut channels: Vec<u8> = Vec::new();
        if lo <= hi {
            let count: u16 = hi as u16 - lo as u16 + 1;
            let mut k: u16 = 0;
            while k < count
                invariant
                    1 <= lo <= hi,
                    count == hi - lo + 1,
                    k <= count,
                    channels@.len() == k,
                    forall|j: int| 0 <= j < k ==> #[trigger] channels@[j] == (lo - 1 + j) as u8,
                decreases count - k,
            {
                channels.push((lo as u16 - 1 + k) as u8);
                k = k + 1;
            }
        }
        assert(channels@ =~= channel_span(lo, hi));
        cfg.channels = channels;
    }
    if let Some((lo, hi)) = wall_pitch_range {
        cfg.pitch_low = lo;
        cfg.pitch_high = hi;
    }
    if let Some(cc) = wall_motion_cc {
        cfg.motion_cc = if cc == 0 {
            None
        } else {
            Some(cc)
        };
    }
    cfg.repitch_on_move = wall_repitch_on_move;
    cfg
}

} // verus!
