//! OSC address routing for the inbound control surface: which chain(s)
//! and which parameter an address writes. Decoding packets and reading
//! argument values is done by the receiver.
//!
//! Recognized addresses:
//!   /physics/<param>      -> both chains
//!   /a/physics/<param>    -> chain A
//!   /b/physics/<param>    -> chain B
//!   /coupling/strength_ab, /coupling/strength_ba, /coupling/strength

use vstd::prelude::*;
use crate::chain_id::{ChainId, osc_prefix_chars};
use crate::text::{str_eq, strip_prefix};

verus! {

/// Which chain(s) an inbound write targets. `Both` is what unprefixed
/// `/physics/...` writes produce.
#[derive(Debug, Clone, Copy, PartialEq, Eq, Structural)]
pub enum InboundTarget {
    Chain(ChainId),
    Both,
}

/// A live-tunable physics parameter.
#[derive(Debug, Clone, Copy, PartialEq, Eq, Structural)]
pub enum PhysicsParam {
    Kt,
    Eps,
    J,
    W,
}

/// A coupling strength: chain A's influence on B, or B's on A.
#[derive(Debug, Clone, Copy, PartialEq, Eq, Structural)]
pub enum CouplingField {
    AB,
    BA,
}

/// Where an inbound message goes.
#[derive(Debug, PartialEq, Eq)]
pub enum AddressRoute {
    /// A physics parameter of the targeted chain(s).
    Physics(InboundTarget, PhysicsParam),
    /// An address in the coupling namespace, with the strengths it sets
    /// (none for an unknown coupling parameter).
    Coupling(Vec<CouplingField>),
    /// Not an address of ours.
    Ignored,
}

/// The target and parameter suffix of a physics address.
pub open spec fn address_target(a: Seq<char>) -> Option<(InboundTarget, Seq<char>)> {
    if "/a/physics/"@.is_prefix_of(a) {
        Some((InboundTarget::Chain(ChainId::A), a.skip("/a/physics/"@.len() as int)))
    } else if "/b/physics/"@.is_prefix_of(a) {
        Some((InboundTarget::Chain(ChainId::B), a.skip("/b/physics/"@.len() as int)))
    } else if "/physics/"@.is_prefix_of(a) {
        Some((InboundTarget::Both, a.skip("/physics/"@.len() as int)))
    } else {
        None
    }
}

/// The parameter a physics suffix names.
pub open spec fn param_named(p: Seq<char>) -> Option<PhysicsParam> {
    if p == "kt"@ {
        Some(PhysicsParam::Kt)
    } else if p == "eps"@ {
        Some(PhysicsParam::Eps)
    } else if p == "j"@ {
        Some(PhysicsParam::J)
    } else if p == "w"@ {
        Some(PhysicsParam::W)
    } else {
        None
    }
}

/// The strengths a coupling suffix sets.
pub open spec fn fields_named(p: Seq<char>) -> Seq<CouplingField> {
    if p == "strength_ab"@ {
        seq![CouplingField::AB]
    } else if p == "strength_ba"@ {
        seq![CouplingField::BA]
    } else if p == "strength"@ {
        seq![CouplingField::AB, CouplingField::BA]
    } else {
        Seq::empty()
    }
}

/// Map an OSC address to `(target, parameter suffix)` if it has the
/// `[<prefix>]/physics/<param>` shape.
pub fn parse_address(addr: &str) -> (r: Option<(InboundTarget, &str)>)
    ensures
        match r {
            Some((t, p)) => Some((t, p@)),
            None => None,
        } == address_target(addr@),
{
    if let Some(rest) = strip_prefix(addr, "/a/physics/") {
        Some((InboundTarget::Chain(ChainId::A), rest))
    } else if let Some(rest) = strip_prefix(addr, "/b/physics/") {
        Some((InboundTarget::Chain(ChainId::B), rest))
    } else if let Some(rest) = strip_prefix(addr, "/physics/") {
        Some((InboundTarget::Both, rest))
    } else {
        None
    }
}

/// The physics parameter a suffix names (`kt`, `eps`, `j`, `w`).
pub fn physics_param(name: &str) -> (r: Option<PhysicsParam>)
    ensures
        r == param_named(name@),
{
    if str_eq(name, "kt") {
        Some(PhysicsParam::Kt)
    } else if str_eq(name, "eps") {
        Some(PhysicsParam::Eps)
    } else if str_eq(name, "j") {
        Some(PhysicsParam::J)
    } else if str_eq(name, "w") {
        Some(PhysicsParam::W)
    } else {
        None
    }
}

/// The strengths a coupling suffix sets: `strength` sets both.
pub fn coupling_fields(suffix: &str) -> (r: Vec<CouplingField>)
    ensures
        r@ == fields_named(suffix@),
{
    let mut out: Vec<CouplingField> = Vec::new();
    if str_eq(suffix, "strength_ab") {
        out.push(CouplingField::AB);
    } else if str_eq(suffix, "strength_ba") {
        out.push(CouplingField::BA);
    } else if str_eq(suffix, "strength") {
        out.push(CouplingField::AB);
        out.push(CouplingField::BA);
    }
    assert(out@ =~= fields_named(suffix@));
    out
}

/// Where a message to `addr` goes. The coupling namespace is checked
/// first; inside it, an unknown parameter sets nothing (and is not read as
/// a physics address).
pub fn route_address(addr: &str) -> (r: AddressRoute)
    ensures
        "/coupling/"@.is_prefix_of(addr@) ==> (r matches AddressRoute::Coupling(f) && f@
            == fields_named(addr@.skip("/coupling/"@.len() as int))),
        !"/coupling/"@.is_prefix_of(addr@) ==> match address_target(addr@) {
            Some((t, p)) => match param_named(p) {
                Some(k) => r == AddressRoute::Physics(t, k),
                None => r == AddressRoute::Ignored,
            },
            None => r == AddressRoute::Ignored,
        },
{
    if let Some(suffix) = strip_prefix(addr, "/coupling/") {
        return AddressRoute::Coupling(coupling_fields(suffix));
    }
    match parse_address(addr) {
        Some((target, param)) => match physics_param(param) {
            Some(k) => AddressRoute::Physics(target, k),
            None => AddressRoute::Ignored,
        },
        None => AddressRoute::Ignored,
    }
}

/// The chains a physics write reaches.
pub fn chains_for(target: InboundTarget) -> (r: Vec<ChainId>)
    ensures
        r@ == match target {
            InboundTarget::Chain(c) => seq![c],
            InboundTarget::Both => seq![ChainId::A, ChainId::B],
        },
{
    let mut out: Vec<ChainId> = Vec::new();
    match target {
        InboundTarget::Chain(c) => out.push(c),
        InboundTarget::Both => {
            out.push(ChainId::A);
            out.push(ChainId::B);
        },
    }
    assert(out@ =~= match target {
        InboundTarget::Chain(c) => seq![c],
        InboundTarget::Both => seq![ChainId::A, ChainId::B],
    });
    out
}

/// The kinds of outbound message, each with its own address under the
/// chain's prefix.
#[derive(Debug, Clone, Copy, PartialEq, Eq, Structural)]
pub enum OutboundKind {
    WallCreated,
    WallDestroyed,
    WallMoved,
    SiteEvent,
    ClockPulse,
    StateSpins,
    StateMagnetization,
    StateWallCount,
}

/// The address suffix of an outbound message kind.
pub open spec fn kind_suffix(kind: OutboundKind) -> Seq<char> {
    match kind {
        OutboundKind::WallCreated => "/wall/created"@,
        OutboundKind::WallDestroyed => "/wall/destroyed"@,
        OutboundKind::WallMoved => "/wall/moved"@,
        OutboundKind::SiteEvent => "/site/event"@,
        OutboundKind::ClockPulse => "/clock/pulse"@,
        OutboundKind::StateSpins => "/state/spins"@,
        OutboundKind::StateMagnetization => "/state/magnetization"@,
        OutboundKind::StateWallCount => "/state/wall_count"@,
    }
}

/// The address of an outbound message: the chain's prefix, then the
/// kind's path (`/a/wall/created`, `/b/clock/pulse`, ...).
pub fn outbound_address(chain: ChainId, kind: OutboundKind) -> (r: String)
    ensures
        r@ == osc_prefix_chars(chain) + kind_suffix(kind),
{
    let mut out = String::new();
    out.append(chain.osc_prefix());
    let suffix = match kind {
        OutboundKind::WallCreated => "/wall/created",
        OutboundKind::WallDestroyed => "/wall/destroyed",
        OutboundKind::WallMoved => "/wall/moved",
        OutboundKind::SiteEvent => "/site/event",
        OutboundKind::ClockPulse => "/clock/pulse",
        OutboundKind::StateSpins => "/state/spins",
        OutboundKind::StateMagnetization => "/state/magnetization",
        OutboundKind::StateWallCount => "/state/wall_count",
    };
    out.append(suffix);
    out
}

/// Inbound physics addresses route by their prefix: `/a/physics/<p>` to
/// chain A, `/b/physics/<p>` to chain B and `/physics/<p>` to both, with
/// the parameter suffix `<p>` kept whole; `kt`, `eps`, `j` and `w` name the
/// four parameters (and nothing else names one); `strength_ab`,
/// `strength_ba` and `strength` set A-to-B, B-to-A and both strengths.
pub proof fn lemma_inbound_routes(rest: Seq<char>)
    ensures
        address_target("/a/physics/"@ + rest) == Some((InboundTarget::Chain(ChainId::A), rest)),
        address_target("/b/physics/"@ + rest) == Some((InboundTarget::Chain(ChainId::B), rest)),
        !("/a/physics/"@.is_prefix_of("/physics/"@ + rest)) && !("/b/physics/"@.is_prefix_of(
            "/physics/"@ + rest,
        )) ==> address_target("/physics/"@ + rest) == Some((InboundTarget::Both, rest)),
        param_named("kt"@) == Some(PhysicsParam::Kt),
        param_named("eps"@) == Some(PhysicsParam::Eps),
        param_named("j"@) == Some(PhysicsParam::J),
        param_named("w"@) == Some(PhysicsParam::W),
        rest != "kt"@ && rest != "eps"@ && rest != "j"@ && rest != "w"@ ==> param_named(rest) is None,
        fields_named("strength_ab"@) == seq![CouplingField::AB],
        fields_named("strength_ba"@) == seq![CouplingField::BA],
        fields_named("strength"@) == seq![CouplingField::AB, CouplingField::BA],
{
    reveal_strlit("/a/physics/");
    reveal_strlit("/b/physics/");
    reveal_strlit("/physics/");
    reveal_strlit("kt");
    reveal_strlit("eps");
    reveal_strlit("j");
    reveal_strlit("w");
    reveal_strlit("strength_ab");
    reveal_strlit("strength_ba");
    reveal_strlit("strength");
    assert("eps"@ != "kt"@ && "j"@ != "kt"@ && "w"@ != "kt"@ && "j"@ != "eps"@ && "w"@
        != "eps"@) by {
        assert("kt"@.len() == 2 && "eps"@.len() == 3 && "j"@.len() == 1 && "w"@.len() == 1);
    }
    assert("j"@ != "w"@) by {
        assert("j"@[0] != "w"@[0]);
    }
    assert("strength_ba"@ != "strength_ab"@) by {
        assert("strength_ba"@[9] != "strength_ab"@[9]);
    }
    assert("strength"@ != "strength_ab"@ && "strength"@ != "strength_ba"@) by {
        assert("strength"@.len() == 8 && "strength_ab"@.len() == 11 && "strength_ba"@.len() == 11);
    }
    let a = "/a/physics/"@ + rest;
    assert("/a/physics/"@.is_prefix_of(a));
    assert(a.skip("/a/physics/"@.len() as int) =~= rest);
    let b = "/b/physics/"@ + rest;
    assert(!"/a/physics/"@.is_prefix_of(b)) by {
        if "/a/physics/"@.is_prefix_of(b) {
            assert(b.subrange(0, "/a/physics/"@.len() as int) == "/a/physics/"@);
            assert(b.subrange(0, "/a/physics/"@.len() as int)[1] == b[1]);
            assert(b[1] == 'b');
        }
    }
    assert("/b/physics/"@.is_prefix_of(b));
    assert(b.skip("/b/physics/"@.len() as int) =~= rest);
    let c = "/physics/"@ + rest;
    assert("/physics/"@.is_prefix_of(c));
    assert(c.skip("/physics/"@.len() as int) =~= rest);
}

/// The characters of an outbound address.
pub open spec fn outbound_chars(chain: ChainId, kind: OutboundKind) -> Seq<char> {
    osc_prefix_chars(chain) + kind_suffix(kind)
}

/// Every outbound message kind has its own address under each chain: the
/// chain's prefix, then the path that names the event (`/wall/created`,
/// `/wall/destroyed`, `/wall/moved`, `/site/event`, `/clock/pulse`,
/// `/state/spins`, `/state/magnetization`, `/state/wall_count`); and two
/// different (chain, kind) pairs never share an address.
pub proof fn lemma_outbound_addresses(
    chain: ChainId,
    kind: OutboundKind,
    other_chain: ChainId,
    other_kind: OutboundKind,
)
    ensures
        outbound_chars(chain, OutboundKind::WallCreated) == osc_prefix_chars(chain)
            + "/wall/created"@,
        outbound_chars(chain, OutboundKind::WallDestroyed) == osc_prefix_chars(chain)
            + "/wall/destroyed"@,
        outbound_chars(chain, OutboundKind::WallMoved) == osc_prefix_chars(chain) + "/wall/moved"@,
        outbound_chars(chain, OutboundKind::SiteEvent) == osc_prefix_chars(chain) + "/site/event"@,
        outbound_chars(chain, OutboundKind::ClockPulse) == osc_prefix_chars(chain)
            + "/clock/pulse"@,
        outbound_chars(chain, OutboundKind::StateSpins) == osc_prefix_chars(chain)
            + "/state/spins"@,
        outbound_chars(chain, OutboundKind::StateMagnetization) == osc_prefix_chars(chain)
            + "/state/magnetization"@,
        outbound_chars(chain, OutboundKind::StateWallCount) == osc_prefix_chars(chain)
            + "/state/wall_count"@,
        (chain != other_chain || kind != other_kind) ==> outbound_chars(chain, kind)
            != outbound_chars(other_chain, other_kind),
{
    reveal_strlit("/wall/created");
    reveal_strlit("/wall/destroyed");
    reveal_strlit("/wall/moved");
    reveal_strlit("/site/event");
    reveal_strlit("/clock/pulse");
    reveal_strlit("/state/spins");
    reveal_strlit("/state/magnetization");
    reveal_strlit("/state/wall_count");
    let a = outbound_chars(chain, kind);
    let b = outbound_chars(other_chain, other_kind);
    if (chain != other_chain || kind != other_kind) && a == b {
        assert(a.len() == b.len());
        assert(a[1] == b[1]);
        assert(a[3] == b[3]);
        assert(a[4] == b[4]);
        assert(false);
    }
}

/// Send-on-change gate for the per-chain wall count: the count is sent
/// the first time and whenever it differs from the last count sent.
pub struct WallCountGate {
    last: [Option<i32>; 2],
}

/// The slot of a chain in per-chain tables.
pub open spec fn chain_slot(chain: ChainId) -> int {
    match chain {
        ChainId::A => 0,
        ChainId::B => 1,
    }
}

/// A wall count as sent: clamped to `i32::MAX`.
pub open spec fn wire_count(count: usize) -> i32 {
    if count > i32::MAX {
        i32::MAX
    } else {
        count as i32
    }
}

impl View for WallCountGate {
    type V = Seq<Option<i32>>;

    closed spec fn view(&self) -> Seq<Option<i32>> {
        self.last@
    }
}

impl WallCountGate {
    pub fn new() -> (r: Self)
        ensures
            r@ == seq![None::<i32>, None::<i32>],
    {
        let r = WallCountGate { last: [None, None] };
        assert(r@ =~= seq![None::<i32>, None::<i32>]);
        r
    }

    /// The count to send for `chain` this tick, if it changed.
    pub fn observe(&mut self, chain: ChainId, count: usize) -> (r: Option<i32>)
        ensures
            final(self)@.len() == 2,
            ({
                let w = wire_count(count);
                let s = chain_slot(chain);
                if old(self)@[s] == Some(w) {
                    r is None && final(self)@ == old(self)@
                } else {
                    r == Some(w) && final(self)@ == old(self)@.update(s, Some(w))
                }
            }),
    {
        let w: i32 = if count > i32::MAX as usize {
            i32::MAX
        } else {
            count as i32
        };
        let s: usize = match chain {
            ChainId::A => 0,
            ChainId::B => 1,
        };
        if self.last[s] == Some(w) {
            return None;
        }
        self.last[s] = Some(w);
        Some(w)
    }
}

} // verus!
