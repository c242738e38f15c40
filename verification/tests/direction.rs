use std::str::FromStr;
use indradb::queries::EdgeDirection;
use indradb::codec::{from_edge_direction, to_edge_direction};

#[test]
fn should_convert_str_to_edge_direction() {
    assert_eq!(EdgeDirection::from_str("outbound").unwrap(), EdgeDirection::Outbound);
    assert_eq!(EdgeDirection::from_str("inbound").unwrap(), EdgeDirection::Inbound);
    assert!(EdgeDirection::from_str("foo").is_err());
}

#[test]
fn should_convert_edge_direction_to_string() {
    let s: String = EdgeDirection::Outbound.into();
    assert_eq!(s, "outbound".to_string());
    let s: String = EdgeDirection::Inbound.into();
    assert_eq!(s, "inbound".to_string());
}

#[test]
fn direction_round_trip_both_ways() {
    for d in [EdgeDirection::Outbound, EdgeDirection::Inbound] {
        assert_eq!(EdgeDirection::parse(d.as_str()).unwrap(), d);
    }
    assert!(EdgeDirection::parse("").is_err());
    assert!(EdgeDirection::parse("Outbound").is_err());
}

#[test]
fn direction_wire_tags() {
    assert_eq!(to_edge_direction(from_edge_direction(EdgeDirection::Outbound)).unwrap(),
        EdgeDirection::Outbound);
    assert_eq!(to_edge_direction(from_edge_direction(EdgeDirection::Inbound)).unwrap(),
        EdgeDirection::Inbound);
    assert!(to_edge_direction(9).is_err());
}
