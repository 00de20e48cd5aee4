//! Stable identifier for a chain in a multi-chain system.
//!
//! Used for OSC address prefixing, config section selection, and any
//! routing that needs to distinguish chains.

use vstd::prelude::*;

verus! {

#[derive(Clone, Copy, Debug, PartialEq, Eq, Hash, Structural)]
pub enum ChainId {
    A,
    B,
}

/// The characters of the OSC prefix of a chain.
pub open spec fn osc_prefix_chars(id: ChainId) -> Seq<char> {
    match id {
        ChainId::A => seq!['/', 'a'],
        ChainId::B => seq!['/', 'b'],
    }
}

/// The characters of the log label of a chain.
pub open spec fn label_chars(id: ChainId) -> Seq<char> {
    match id {
        ChainId::A => seq!['c', 'h', 'a', 'i', 'n', '_', 'a'],
        ChainId::B => seq!['c', 'h', 'a', 'i', 'n', '_', 'b'],
    }
}

impl ChainId {
    /// The OSC address prefix for this chain. Used to namespace
    /// per-chain events ('/a/site/event', '/b/clock/pulse', etc).
    pub fn osc_prefix(self) -> (r: &'static str)
        ensures
            r@ == osc_prefix_chars(self),
    {
        match self {
            ChainId::A => {
                proof {
                    reveal_strlit("/a");
                }
                "/a"
            },
            ChainId::B => {
                proof {
                    reveal_strlit("/b");
                }
                "/b"
            },
        }
    }

    /// Short human-readable label for logging.
    pub fn label(self) -> (r: &'static str)
        ensures
            r@ == label_chars(self),
    {
        match self {
            ChainId::A => {
                proof {
                    reveal_strlit("chain_a");
                }
                "chain_a"
            },
            ChainId::B => {
                proof {
                    reveal_strlit("chain_b");
                }
                "chain_b"
            },
        }
    }
}

} // verus!
