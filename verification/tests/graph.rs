use indradb::datastore::MemoryDatastore;
use indradb::engine::InternalState;
use indradb::ident::Identifier;
use indradb::models::{EdgeKey, Vertex};
use indradb::queries::{EdgeDirection, EdgeQuery, VertexQuery};
use indradb::types::Type;
use indradb::errors::ValidationError;

fn typ(s: &str) -> Type {
    Type::new(s.to_string()).unwrap()
}

fn vertex(n: u128, t: &str) -> Vertex {
    Vertex::with_id(Identifier(n), typ(t))
}

fn key(out: u128, t: &str, inb: u128) -> EdgeKey {
    EdgeKey::new(Identifier(out), typ(t), Identifier(inb))
}

fn now_nanos() -> u64 {
    chrono::Utc::now().timestamp_nanos_opt().unwrap() as u64
}

#[test]
fn create_vertex_then_get_returns_it() {
    let store = MemoryDatastore::default();
    let txn = store.transaction();
    assert!(txn.create_vertex(&vertex(1, "user")));
    let got = txn.get_vertices(&VertexQuery::Vertices { ids: vec![Identifier(1)] });
    assert_eq!(got.len(), 1);
    assert_eq!(got[0].id, Identifier(1));
    assert_eq!(got[0].t, typ("user"));
}

#[test]
fn create_vertex_is_idempotent() {
    let store = MemoryDatastore::default();
    let txn = store.transaction();
    assert!(txn.create_vertex(&vertex(1, "user")));
    assert!(!txn.create_vertex(&vertex(1, "robot")));
    let got = txn.get_vertices(&VertexQuery::Vertices { ids: vec![Identifier(1)] });
    assert_eq!(got.len(), 1);
    assert_eq!(got[0].t, typ("user"));
}

#[test]
fn create_edge_fails_iff_endpoint_missing() {
    let store = MemoryDatastore::default();
    let txn = store.transaction();
    assert!(txn.create_vertex(&vertex(1, "user")));
    assert!(!txn.create_edge(&key(1, "follows", 2)));
    assert!(!txn.create_edge(&key(2, "follows", 1)));
    assert!(txn.create_vertex(&vertex(2, "user")));
    assert!(txn.create_edge(&key(1, "follows", 2)));
}

#[test]
fn edge_created_within_call_window() {
    let store = MemoryDatastore::default();
    let txn = store.transaction();
    assert!(txn.create_vertex(&vertex(1, "user")));
    assert!(txn.create_vertex(&vertex(2, "user")));
    let before = now_nanos();
    assert!(txn.create_edge(&key(1, "follows", 2)));
    let after = now_nanos();
    let got = txn.get_edges(&EdgeQuery::Edges { keys: vec![key(1, "follows", 2)] });
    assert_eq!(got.len(), 1);
    assert!(before <= got[0].created_datetime && got[0].created_datetime <= after);
}

#[test]
fn delete_vertex_cascades() {
    let store = MemoryDatastore::default();
    let txn = store.transaction();
    assert!(txn.create_vertex(&vertex(1, "user")));
    assert!(txn.create_vertex(&vertex(2, "user")));
    assert!(txn.create_edge(&key(1, "follows", 2)));
    txn.delete_vertices(&VertexQuery::Vertices { ids: vec![Identifier(1)] });
    let got = txn.get_edges(&EdgeQuery::Edges { keys: vec![key(1, "follows", 2)] });
    assert!(got.is_empty());
    assert_eq!(txn.get_vertex_count(), 1);
}

#[test]
fn all_query_returns_smallest_ids_in_order() {
    let store = MemoryDatastore::default();
    let txn = store.transaction();
    for n in 1..=1000u128 {
        assert!(txn.create_vertex(&vertex(n, "item")));
    }
    let got = txn.get_vertices(&VertexQuery::All {
        start_id: Some(Identifier(0)),
        limit: 10,
    });
    assert_eq!(got.len(), 10);
    for (i, v) in got.iter().enumerate() {
        assert_eq!(v.id, Identifier((i + 1) as u128));
    }
}

#[test]
fn all_query_enumerates_everything_in_order() {
    let store = MemoryDatastore::default();
    let txn = store.transaction();
    for n in [5u128, 3, 9, 1] {
        assert!(txn.create_vertex(&vertex(n, "item")));
    }
    let got = txn.get_vertices(&VertexQuery::All { start_id: None, limit: u32::MAX });
    let ids: Vec<u128> = got.iter().map(|v| v.id.0).collect();
    assert_eq!(ids, vec![1, 3, 5, 9]);
}

#[test]
fn outbound_pipe_honours_type_filter() {
    let store = MemoryDatastore::default();
    let txn = store.transaction();
    for n in 1..=6u128 {
        assert!(txn.create_vertex(&vertex(n, "node")));
    }
    for inb in [2u128, 3, 4] {
        assert!(txn.create_edge(&key(1, "x", inb)));
    }
    for inb in [5u128, 6] {
        assert!(txn.create_edge(&key(1, "y", inb)));
    }
    let q = VertexQuery::Vertices { ids: vec![Identifier(1)] }.outbound_edges(
        Some(typ("x")),
        None,
        None,
        10,
    );
    let got = txn.get_edges(&q);
    assert_eq!(got.len(), 3);
    for e in &got {
        assert_eq!(e.key.t, typ("x"));
    }
}

#[test]
fn pipe_limit_is_honoured_and_zero_returns_empty() {
    let store = MemoryDatastore::default();
    let txn = store.transaction();
    for n in 1..=4u128 {
        assert!(txn.create_vertex(&vertex(n, "node")));
    }
    for inb in [2u128, 3, 4] {
        assert!(txn.create_edge(&key(1, "x", inb)));
    }
    let base = VertexQuery::Vertices { ids: vec![Identifier(1)] };
    let got = txn.get_edges(&base.outbound_edges(None, None, None, 2));
    assert_eq!(got.len(), 2);
    let base = VertexQuery::Vertices { ids: vec![Identifier(1)] };
    let got = txn.get_edges(&base.outbound_edges(None, None, None, 0));
    assert!(got.is_empty());
    let zero_vertices = txn.get_vertices(
        &EdgeQuery::Edges { keys: vec![key(1, "x", 2)] }.outbound_vertices(0),
    );
    assert!(zero_vertices.is_empty());
}

#[test]
fn edge_count_matches_unlimited_pipe() {
    let store = MemoryDatastore::default();
    let txn = store.transaction();
    for n in 1..=4u128 {
        assert!(txn.create_vertex(&vertex(n, "node")));
    }
    for inb in [2u128, 3, 4] {
        assert!(txn.create_edge(&key(1, "x", inb)));
    }
    assert!(txn.create_edge(&key(1, "y", 2)));
    for dir in [EdgeDirection::Outbound, EdgeDirection::Inbound] {
        let tf = typ("x");
        let count = txn.get_edge_count(Identifier(1), Some(&tf), dir);
        let base = VertexQuery::Vertices { ids: vec![Identifier(1)] };
        let q = match dir {
            EdgeDirection::Outbound => base.outbound_edges(Some(typ("x")), None, None, u32::MAX),
            EdgeDirection::Inbound => base.inbound_edges(Some(typ("x")), None, None, u32::MAX),
        };
        assert_eq!(count as usize, txn.get_edges(&q).len());
    }
}

#[test]
fn time_filters_are_inclusive_bounds() {
    let mut state = InternalState::new();
    for n in 1..=4u128 {
        assert!(state.create_vertex(&vertex(n, "node")));
    }
    assert!(state.create_edge(&key(1, "x", 2), 100));
    assert!(state.create_edge(&key(1, "x", 3), 200));
    assert!(state.create_edge(&key(1, "x", 4), 300));
    let q = VertexQuery::Vertices { ids: vec![Identifier(1)] }.outbound_edges(
        None,
        Some(200),
        Some(100),
        10,
    );
    let got = state.get_edge_values_by_query(&q);
    let times: Vec<u64> = got.iter().map(|e| e.1).collect();
    assert_eq!(times, vec![100, 200]);
}

#[test]
fn inbound_pipe_selects_by_inbound_endpoint() {
    let mut state = InternalState::new();
    for n in 1..=3u128 {
        assert!(state.create_vertex(&vertex(n, "node")));
    }
    assert!(state.create_edge(&key(1, "x", 3), 10));
    assert!(state.create_edge(&key(2, "x", 3), 20));
    assert!(state.create_edge(&key(3, "x", 1), 30));
    let q = VertexQuery::Vertices { ids: vec![Identifier(3)] }.inbound_edges(
        None,
        None,
        None,
        10,
    );
    let got = state.get_edge_values_by_query(&q);
    assert_eq!(got.len(), 2);
    for e in &got {
        assert_eq!(e.0.inbound_id, Identifier(3));
    }
}

#[test]
fn duplicate_edge_refreshes_timestamp() {
    let mut state = InternalState::new();
    assert!(state.create_vertex(&vertex(1, "node")));
    assert!(state.create_vertex(&vertex(2, "node")));
    assert!(state.create_edge(&key(1, "x", 2), 100));
    assert!(state.create_edge(&key(1, "x", 2), 200));
    let got = state.get_edge_values_by_query(&EdgeQuery::Edges {
        keys: vec![key(1, "x", 2)],
    });
    assert_eq!(got.len(), 1);
    assert_eq!(got[0].1, 200);
}

#[test]
fn vertex_properties_set_get_and_cascade() {
    let store = MemoryDatastore::default();
    let txn = store.transaction();
    assert!(txn.create_vertex(&vertex(1, "user")));
    assert!(txn.create_vertex(&vertex(2, "user")));
    let value: serde_json::Value = serde_json::from_str("{\"age\": 30}").unwrap();
    let q = VertexQuery::Vertices { ids: vec![Identifier(1), Identifier(2)] };
    txn.set_vertex_properties(&q, "profile", &value);
    let q = VertexQuery::Vertices { ids: vec![Identifier(1), Identifier(2)] };
    let got = txn.get_vertex_properties(&q, "profile");
    assert_eq!(got.len(), 2);
    assert_eq!(got[0].value, value);
    txn.delete_vertices(&VertexQuery::Vertices { ids: vec![Identifier(1)] });
    let q = VertexQuery::Vertices { ids: vec![Identifier(1), Identifier(2)] };
    let got = txn.get_vertex_properties(&q, "profile");
    assert_eq!(got.len(), 1);
    assert_eq!(got[0].id, Identifier(2));
}

#[test]
fn edge_properties_set_get_delete() {
    let store = MemoryDatastore::default();
    let txn = store.transaction();
    assert!(txn.create_vertex(&vertex(1, "user")));
    assert!(txn.create_vertex(&vertex(2, "user")));
    assert!(txn.create_edge(&key(1, "follows", 2)));
    let value: serde_json::Value = serde_json::from_str("\"close\"").unwrap();
    let q = EdgeQuery::Edges { keys: vec![key(1, "follows", 2)] };
    txn.set_edge_properties(&q, "kind", &value);
    let q = EdgeQuery::Edges { keys: vec![key(1, "follows", 2)] };
    let got = txn.get_edge_properties(&q, "kind");
    assert_eq!(got.len(), 1);
    assert_eq!(got[0].value, value);
    let q = EdgeQuery::Edges { keys: vec![key(1, "follows", 2)] };
    txn.delete_edge_properties(&q, "kind");
    let q = EdgeQuery::Edges { keys: vec![key(1, "follows", 2)] };
    assert!(txn.get_edge_properties(&q, "kind").is_empty());
}

#[test]
fn missing_ids_are_silently_dropped() {
    let store = MemoryDatastore::default();
    let txn = store.transaction();
    assert!(txn.create_vertex(&vertex(5, "user")));
    let got = txn.get_vertices(&VertexQuery::Vertices {
        ids: vec![Identifier(4), Identifier(5), Identifier(6)],
    });
    assert_eq!(got.len(), 1);
    assert_eq!(got[0].id, Identifier(5));
}

#[test]
fn validation_errors_reported() {
    assert_eq!(Type::new("bad type!".to_string()).unwrap_err(), ValidationError::InvalidType);
    assert_eq!(Type::new(String::new()).unwrap_err(), ValidationError::InvalidType);
    let long: String = "a".repeat(256);
    assert_eq!(Type::new(long).unwrap_err(), ValidationError::InvalidType);
    let short = vec![1u8, 2, 3];
    assert_eq!(
        Identifier::from_bytes(&short).unwrap_err(),
        ValidationError::BadIdentifierLength
    );
}
