use indradb::codec::{from_bulk_insert_items, from_edge, from_edge_key, from_edge_property,
    from_edge_query, from_vertex, from_vertex_property, from_vertex_query, to_bulk_insert_items,
    to_edge, to_edge_key, to_edge_property, to_edge_query, to_vertex, to_vertex_property,
    to_vertex_query, to_optional_datetime};
use indradb::errors::CodecError;
use indradb::ident::Identifier;
use indradb::models::{BulkInsertItem, Edge, EdgeKey, EdgeProperty, Vertex, VertexProperty};
use indradb::queries::{EdgeDirection, EdgeQuery, VertexQuery};
use indradb::types::Type;
use indradb::keys::{build_key, parse_uuid_key, parse_edge_range_key, max_uuid, KeyComponent};

fn typ(s: &str) -> Type {
    Type::new(s.to_string()).unwrap()
}

fn key(out: u128, t: &str, inb: u128) -> EdgeKey {
    EdgeKey::new(Identifier(out), typ(t), Identifier(inb))
}

#[test]
fn vertex_round_trip() {
    let v = Vertex::with_id(Identifier(7), typ("user"));
    let bytes = from_vertex(&v);
    assert_eq!(to_vertex(&bytes).unwrap(), v);
}

#[test]
fn edge_key_round_trip() {
    let k = key(1, "follows", 2);
    let bytes = from_edge_key(&k);
    assert_eq!(to_edge_key(&bytes).unwrap(), k);
}

#[test]
fn edge_round_trip_whole_seconds() {
    let e = Edge::new(key(1, "follows", 2), 1500000000 * 1000000000);
    let bytes = from_edge(&e);
    assert_eq!(to_edge(&bytes).unwrap(), e);
}

#[test]
fn edge_encoding_truncates_to_seconds() {
    let e = Edge::new(key(1, "follows", 2), 1500000000 * 1000000000 + 123456789);
    let bytes = from_edge(&e);
    let back = to_edge(&bytes).unwrap();
    assert_eq!(back.created_datetime, 1500000000 * 1000000000);
}

#[test]
fn vertex_property_round_trip() {
    let value: serde_json::Value =
        serde_json::from_str("{\"name\": \"ada\", \"tags\": [1, 2, null]}").unwrap();
    let p = VertexProperty::new(Identifier(9), value.clone());
    let bytes = from_vertex_property(&p);
    let back = to_vertex_property(&bytes).unwrap();
    assert_eq!(back.id, Identifier(9));
    assert_eq!(back.value, value);
}

#[test]
fn edge_property_round_trip() {
    let value: serde_json::Value = serde_json::from_str("[true, 2.5, \"x\"]").unwrap();
    let p = EdgeProperty::new(key(3, "likes", 4), value.clone());
    let bytes = from_edge_property(&p);
    let back = to_edge_property(&bytes).unwrap();
    assert_eq!(back.key, key(3, "likes", 4));
    assert_eq!(back.value, value);
}

#[test]
fn vertex_query_round_trip_all_variants() {
    let queries = vec![
        VertexQuery::All { start_id: None, limit: 10 },
        VertexQuery::All { start_id: Some(Identifier(3)), limit: u32::MAX },
        VertexQuery::Vertices { ids: vec![Identifier(1), Identifier(2)] },
        EdgeQuery::Edges { keys: vec![key(1, "a", 2)] }.outbound_vertices(7),
        EdgeQuery::Edges { keys: vec![] }.inbound_vertices(0),
    ];
    for q in queries {
        let bytes = from_vertex_query(&q);
        assert_eq!(to_vertex_query(&bytes).unwrap(), q);
    }
}

#[test]
fn edge_query_round_trip_all_variants() {
    let queries = vec![
        EdgeQuery::Edges { keys: vec![key(1, "a", 2), key(3, "b", 4)] },
        VertexQuery::All { start_id: None, limit: 2 }.outbound_edges(
            Some(typ("x")),
            Some(100),
            Some(5),
            9,
        ),
        VertexQuery::Vertices { ids: vec![Identifier(8)] }.inbound_edges(None, None, None, 1),
    ];
    for q in queries {
        let bytes = from_edge_query(&q);
        assert_eq!(to_edge_query(&bytes).unwrap(), q);
    }
}

#[test]
fn reencoding_a_decoded_query_gives_equal_bytes() {
    let q = EdgeQuery::Edges { keys: vec![key(1, "follows", 2)] }.outbound_vertices(5);
    let bytes = from_vertex_query(&q);
    let decoded = to_vertex_query(&bytes).unwrap();
    let bytes2 = from_vertex_query(&decoded);
    assert_eq!(bytes, bytes2);
}

#[test]
fn bulk_insert_items_round_trip() {
    let value: serde_json::Value = serde_json::from_str("{\"k\": [1, \"\\u00e9\"]}").unwrap();
    let items = vec![
        BulkInsertItem::Vertex(Vertex::with_id(Identifier(1), typ("user"))),
        BulkInsertItem::Edge(key(1, "follows", 2)),
        BulkInsertItem::VertexProperty(Identifier(1), "bio\u{00e9}".to_string(), value.clone()),
        BulkInsertItem::EdgeProperty(key(1, "follows", 2), "w".to_string(), value.clone()),
    ];
    let bytes = from_bulk_insert_items(&items);
    let back = to_bulk_insert_items(&bytes).unwrap();
    assert_eq!(back, items);
}

#[test]
fn optional_datetime_sentinel() {
    assert_eq!(to_optional_datetime(0), None);
    assert_eq!(to_optional_datetime(42), Some(42));
}

#[test]
fn decode_errors_reported() {
    // Truncated message.
    let bytes = vec![0u8, 1, 2];
    assert!(to_vertex(&bytes).is_err());
    // Unknown union tag.
    let bytes = vec![9u8];
    assert_eq!(to_vertex_query(&bytes).unwrap_err(), CodecError::UnknownTag);
    // Invalid type string inside an edge key.
    let bad = EdgeKey::new(Identifier(1), Type::default(), Identifier(2));
    let mut bytes = from_edge_key(&bad);
    // Corrupt the type-length prefix so the type holds an invalid byte.
    let v = Vertex::with_id(Identifier(1), typ("ok"));
    let enc = from_vertex(&v);
    let mut broken = enc.clone();
    let n = broken.len();
    broken[n - 1] = b'!';
    assert!(to_vertex(&broken).is_err());
    // Malformed JSON in a property value.
    let p = VertexProperty::new(Identifier(1), serde_json::from_str("3").unwrap());
    let mut pbytes = from_vertex_property(&p);
    let n = pbytes.len();
    pbytes[n - 1] = b'x';
    assert_eq!(to_vertex_property(&pbytes).unwrap_err(), CodecError::MalformedJson);
    // Trailing bytes are refused.
    bytes.push(0);
    let mut enc2 = from_edge_key(&bad);
    enc2.push(0);
    assert!(to_edge_key(&enc2).is_err());
}

#[test]
fn identifier_bytes_round_trip() {
    let id = Identifier(0x0102030405060708090a0b0c0d0e0f10);
    let bytes = id.as_bytes();
    assert_eq!(bytes.len(), 16);
    assert_eq!(bytes[0], 0x01);
    assert_eq!(bytes[15], 0x10);
    assert_eq!(Identifier::from_bytes(&bytes).unwrap(), id);
}

#[test]
fn physical_key_building_and_parsing() {
    let k = build_key(vec![KeyComponent::Uuid(Identifier(0xAB))]);
    assert_eq!(k.len(), 16);
    assert_eq!(parse_uuid_key(&k), Identifier(0xAB));
    assert_eq!(max_uuid(), Identifier(u128::MAX));

    let range_key = build_key(vec![
        KeyComponent::Uuid(Identifier(1)),
        KeyComponent::ShortSizedString("follows".to_string()),
        KeyComponent::NaiveDateTime(1500000000),
        KeyComponent::Uuid(Identifier(2)),
    ]);
    let (first, t, ts, second) = parse_edge_range_key(&range_key).unwrap();
    assert_eq!(first, Identifier(1));
    assert_eq!(t, Type::new("follows".to_string()).unwrap());
    assert_eq!(ts, 1500000000);
    assert_eq!(second, Identifier(2));

    let sized = build_key(vec![
        KeyComponent::UnsizedString("ab".to_string()),
        KeyComponent::ShortSizedString("cd".to_string()),
    ]);
    assert_eq!(sized, vec![b'a', b'b', 2, b'c', b'd']);
}

#[test]
fn float_property_values_round_trip_exactly() {
    for text in ["0.1", "2.2250738585072014e-308", "[1e-310, 6.02214076e23]", "-0.0"] {
        let value: serde_json::Value = serde_json::from_str(text).unwrap();
        let p = VertexProperty::new(Identifier(1), value.clone());
        let bytes = from_vertex_property(&p);
        assert_eq!(to_vertex_property(&bytes).unwrap().value, value);
    }
}

#[test]
fn deeply_nested_value_is_refused_on_decode() {
    // Rendering has no depth limit, but the parser refuses nesting beyond
    // its recursion limit, so such a value does not survive the wire.
    let mut value = serde_json::Value::Null;
    for _ in 0..200 {
        value = serde_json::Value::Array(vec![value]);
    }
    let p = VertexProperty::new(Identifier(1), value);
    let bytes = from_vertex_property(&p);
    assert_eq!(to_vertex_property(&bytes).unwrap_err(), CodecError::MalformedJson);
}
