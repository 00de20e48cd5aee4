use crystallized_time::chain_id::ChainId;
use crystallized_time::osc::{
    chains_for, coupling_fields, outbound_address, parse_address, physics_param, route_address,
    AddressRoute, CouplingField, InboundTarget, OutboundKind, PhysicsParam, WallCountGate,
};

#[test]
fn physics_addresses_name_their_target() {
    assert_eq!(
        parse_address("/physics/kt"),
        Some((InboundTarget::Both, "kt"))
    );
    assert_eq!(
        parse_address("/a/physics/eps"),
        Some((InboundTarget::Chain(ChainId::A), "eps"))
    );
    assert_eq!(
        parse_address("/b/physics/w"),
        Some((InboundTarget::Chain(ChainId::B), "w"))
    );
    assert_eq!(parse_address("/c/physics/w"), None);
    assert_eq!(parse_address("/physics"), None);
}

#[test]
fn routes() {
    assert_eq!(
        route_address("/a/physics/j"),
        AddressRoute::Physics(InboundTarget::Chain(ChainId::A), PhysicsParam::J)
    );
    assert_eq!(route_address("/physics/temperature"), AddressRoute::Ignored);
    assert_eq!(
        route_address("/coupling/strength"),
        AddressRoute::Coupling(vec![CouplingField::AB, CouplingField::BA])
    );
    assert_eq!(
        route_address("/coupling/strength_ba"),
        AddressRoute::Coupling(vec![CouplingField::BA])
    );
    assert_eq!(route_address("/coupling/wrong"), AddressRoute::Coupling(vec![]));
    assert_eq!(route_address("/other"), AddressRoute::Ignored);
}

#[test]
fn parameter_and_field_names() {
    assert_eq!(physics_param("kt"), Some(PhysicsParam::Kt));
    assert_eq!(physics_param("eps"), Some(PhysicsParam::Eps));
    assert_eq!(physics_param("w"), Some(PhysicsParam::W));
    assert_eq!(physics_param("KT"), None);
    assert_eq!(coupling_fields("strength_ab"), vec![CouplingField::AB]);
    assert!(coupling_fields("").is_empty());
}

#[test]
fn physics_writes_fan_out() {
    assert_eq!(chains_for(InboundTarget::Both), vec![ChainId::A, ChainId::B]);
    assert_eq!(chains_for(InboundTarget::Chain(ChainId::B)), vec![ChainId::B]);
}

#[test]
fn outbound_addresses() {
    assert_eq!(outbound_address(ChainId::A, OutboundKind::WallCreated), "/a/wall/created");
    assert_eq!(outbound_address(ChainId::B, OutboundKind::ClockPulse), "/b/clock/pulse");
    assert_eq!(
        outbound_address(ChainId::A, OutboundKind::StateWallCount),
        "/a/state/wall_count"
    );
    assert_eq!(outbound_address(ChainId::B, OutboundKind::SiteEvent), "/b/site/event");
}

#[test]
fn wall_count_is_sent_on_change_per_chain() {
    let mut g = WallCountGate::new();
    assert_eq!(g.observe(ChainId::A, 2), Some(2));
    assert_eq!(g.observe(ChainId::A, 2), None);
    assert_eq!(g.observe(ChainId::B, 2), Some(2));
    assert_eq!(g.observe(ChainId::A, 3), Some(3));
    assert_eq!(g.observe(ChainId::B, usize::MAX), Some(i32::MAX));
}
