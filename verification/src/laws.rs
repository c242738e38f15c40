//! The engine's general laws, stated once over the mathematical state and
//! proved for every well-formed store.

use vstd::prelude::*;
use crate::engine::{StateV, eval_vq, eval_eq, has_vertex, find_vertex, find_edge,
    insert_vertex_sorted, insert_edge_sorted, vertex_lookups, take_limit, type_ok, time_ok,
    out_matches, in_matches, outbound_concat, incident, lemma_find_has_vertex,
    lemma_filter_equiv, find_vprop, find_eprop, get_vprops, get_eprops, upsert_vprop,
    upsert_eprop, upsert_vprops_all, upsert_eprops_all};
use crate::ident::Identifier;
use crate::models::EdgeKeyV;
use crate::queries::{VertexQueryV, EdgeQueryV, EdgeDirection};

verus! {

/// Inserting a fresh vertex makes it, and only it, newly visible: lookup
/// of its id answers with its type, and every other id answers as before.
pub proof fn lemma_insert_vertex_find(
    vs: Seq<(Identifier, Seq<char>)>,
    id: Identifier,
    t: Seq<char>,
)
    ensures
        find_vertex(insert_vertex_sorted(vs, id, t), id) == Some(t),
        forall|x: Identifier|
            x != id ==> find_vertex(insert_vertex_sorted(vs, id, t), x) == find_vertex(vs, x),
    decreases vs.len(),
{
    reveal_with_fuel(find_vertex, 3);
    if vs.len() == 0 {
    } else if vs[0].0.0 < id.0 {
        lemma_insert_vertex_find(vs.drop_first(), id, t);
        let ins = insert_vertex_sorted(vs, id, t);
        assert(ins == seq![vs[0]] + insert_vertex_sorted(vs.drop_first(), id, t));
        assert(ins[0] == vs[0]);
        assert(ins.drop_first() =~= insert_vertex_sorted(vs.drop_first(), id, t));
        assert(vs[0].0 != id);
        assert(find_vertex(ins, id) == Some(t));
        assert forall|x: Identifier| x != id implies find_vertex(ins, x) == find_vertex(
            vs,
            x,
        ) by {
            if vs[0].0 == x {
                assert(find_vertex(ins, x) == Some(vs[0].1));
            } else {
                assert(find_vertex(ins, x) == find_vertex(ins.drop_first(), x));
                assert(find_vertex(vs, x) == find_vertex(vs.drop_first(), x));
            }
        }
    } else {
        let ins = insert_vertex_sorted(vs, id, t);
        assert(ins == seq![(id, t)] + vs);
        assert(ins[0] == (id, t));
        assert(ins.drop_first() =~= vs);
        assert forall|x: Identifier| x != id implies find_vertex(ins, x) == find_vertex(
            vs,
            x,
        ) by {
            assert(find_vertex(ins, x) == find_vertex(ins.drop_first(), x));
        }
    }
}

/// Inserting or refreshing an edge makes its key answer with the new
/// creation time, and every other key answers as before.
pub proof fn lemma_insert_edge_find(es: Seq<(EdgeKeyV, u64)>, k: EdgeKeyV, ts: u64)
    ensures
        find_edge(insert_edge_sorted(es, k, ts), k) == Some(ts),
        forall|x: EdgeKeyV|
            x != k ==> find_edge(insert_edge_sorted(es, k, ts), x) == find_edge(es, x),
    decreases es.len(),
{
    reveal_with_fuel(find_edge, 3);
    if es.len() == 0 {
    } else if crate::models::key_lt(es[0].0, k) {
        crate::models::lemma_key_lt_irrefl(es[0].0);
        lemma_insert_edge_find(es.drop_first(), k, ts);
        let ins = insert_edge_sorted(es, k, ts);
        assert(ins == seq![es[0]] + insert_edge_sorted(es.drop_first(), k, ts));
        assert(ins[0] == es[0]);
        assert(ins.drop_first() =~= insert_edge_sorted(es.drop_first(), k, ts));
        assert(es[0].0 != k);
        assert(find_edge(ins, k) == Some(ts));
        assert forall|x: EdgeKeyV| x != k implies find_edge(ins, x) == find_edge(es, x) by {
            if es[0].0 == x {
                assert(find_edge(ins, x) == Some(es[0].1));
            } else {
                assert(find_edge(ins, x) == find_edge(ins.drop_first(), x));
                assert(find_edge(es, x) == find_edge(es.drop_first(), x));
            }
        }
    } else if es[0].0 == k {
        let ins = insert_edge_sorted(es, k, ts);
        assert(ins == seq![(k, ts)] + es.drop_first());
        assert(ins[0] == (k, ts));
        assert(ins.drop_first() =~= es.drop_first());
        assert forall|x: EdgeKeyV| x != k implies find_edge(ins, x) == find_edge(es, x) by {
            assert(find_edge(ins, x) == find_edge(ins.drop_first(), x));
            assert(find_edge(es, x) == find_edge(es.drop_first(), x));
        }
    } else {
        let ins = insert_edge_sorted(es, k, ts);
        assert(ins == seq![(k, ts)] + es);
        assert(ins[0] == (k, ts));
        assert(ins.drop_first() =~= es);
        assert forall|x: EdgeKeyV| x != k implies find_edge(ins, x) == find_edge(es, x) by {
            assert(find_edge(ins, x) == find_edge(ins.drop_first(), x));
        }
    }
}

/// After a vertex is created, the query that names exactly its id returns
/// exactly that vertex, with the type it was created with.
pub proof fn lemma_create_vertex_then_get(st: StateV, id: Identifier, t: Seq<char>)
    requires
        st.wf(),
        !has_vertex(st.vertices, id),
    ensures
        ({
            let st2 = StateV { vertices: insert_vertex_sorted(st.vertices, id, t), ..st };
            eval_vq(st2, VertexQueryV::Vertices { ids: seq![id] }) == seq![(id, t)]
        }),
{
    let st2 = StateV { vertices: insert_vertex_sorted(st.vertices, id, t), ..st };
    lemma_insert_vertex_find(st.vertices, id, t);
    reveal_with_fuel(vertex_lookups, 3);
    assert(seq![id].drop_first() =~= Seq::<Identifier>::empty());
    assert(eval_vq(st2, VertexQueryV::Vertices { ids: seq![id] }) =~= seq![(id, t)]);
}

/// Deletion leaves no orphans: after deleting a set of vertices, none of
/// them is stored, no surviving edge names one as either endpoint, and no
/// surviving property is owned by a deleted vertex or a removed edge.
pub proof fn lemma_delete_vertices_no_orphans(st: StateV, ids: Seq<Identifier>)
    requires
        st.wf(),
    ensures
        ({
            let st2 = StateV {
                vertices: st.vertices.filter(
                    |p: (Identifier, Seq<char>)| !ids.contains(p.0),
                ),
                vertex_properties: st.vertex_properties.filter(
                    |p: ((Identifier, Seq<char>), serde_json::Value)| !ids.contains(p.0.0),
                ),
                edges: st.edges.filter(|e: (EdgeKeyV, u64)| !incident(e.0, ids)),
                edge_properties: st.edge_properties.filter(
                    |p: ((EdgeKeyV, Seq<char>), serde_json::Value)| !incident(p.0.0, ids),
                ),
            };
            &&& forall|id: Identifier| ids.contains(id) ==> !has_vertex(st2.vertices, id)
            &&& forall|j: int|
                0 <= j < st2.edges.len() ==> !incident((#[trigger] st2.edges[j]).0, ids)
            &&& forall|j: int|
                0 <= j < st2.vertex_properties.len() ==> !ids.contains(
                    (#[trigger] st2.vertex_properties[j]).0.0,
                )
            &&& forall|j: int|
                0 <= j < st2.edge_properties.len() ==> !incident(
                    (#[trigger] st2.edge_properties[j]).0.0,
                    ids,
                )
        }),
{
    let pred_v = |p: (Identifier, Seq<char>)| !ids.contains(p.0);
    let pred_e = |e: (EdgeKeyV, u64)| !incident(e.0, ids);
    let pred_vp = |p: ((Identifier, Seq<char>), serde_json::Value)| !ids.contains(p.0.0);
    let pred_ep = |p: ((EdgeKeyV, Seq<char>), serde_json::Value)| !incident(p.0.0, ids);
    let newv = st.vertices.filter(pred_v);
    assert forall|id: Identifier| ids.contains(id) implies !has_vertex(newv, id) by {
        if has_vertex(newv, id) {
            let w = choose|w: int| 0 <= w < newv.len() && (#[trigger] newv[w]).0 == id;
            newv.lemma_filter_pred(pred_v, w);
        }
    }
    assert forall|j: int|
        0 <= j < st.edges.filter(pred_e).len() implies !incident(
        (#[trigger] st.edges.filter(pred_e)[j]).0,
        ids,
    ) by {
        st.edges.lemma_filter_pred(pred_e, j);
    }
    assert forall|j: int|
        0 <= j < st.vertex_properties.filter(pred_vp).len() implies !ids.contains(
        (#[trigger] st.vertex_properties.filter(pred_vp)[j]).0.0,
    ) by {
        st.vertex_properties.lemma_filter_pred(pred_vp, j);
    }
    assert forall|j: int|
        0 <= j < st.edge_properties.filter(pred_ep).len() implies !incident(
        (#[trigger] st.edge_properties.filter(pred_ep)[j]).0.0,
        ids,
    ) by {
        st.edge_properties.lemma_filter_pred(pred_ep, j);
    }
}

/// A lookup list is never longer than the list of ids it looks up.
pub proof fn lemma_vertex_lookups_len(vs: Seq<(Identifier, Seq<char>)>, ids: Seq<Identifier>)
    ensures
        vertex_lookups(vs, ids).len() <= ids.len(),
    decreases ids.len(),
{
    if ids.len() > 0 {
        lemma_vertex_lookups_len(vs, ids.drop_first());
    }
}

/// Limit honouring: a pipe query never returns more rows than its limit,
/// and a limit of zero returns nothing.
pub proof fn lemma_limit_honoured(st: StateV, q: VertexQueryV, r: EdgeQueryV)
    requires
        q is Pipe,
        r is Pipe,
    ensures
        eval_vq(st, q).len() <= q->Pipe_limit,
        eval_eq(st, r).len() <= r->Pipe_limit,
        q->Pipe_limit == 0 ==> eval_vq(st, q).len() == 0,
        r->Pipe_limit == 0 ==> eval_eq(st, r).len() == 0,
{
    match q {
        VertexQueryV::Pipe { edge_query, converter, limit } => {
            let evs = eval_eq(st, *edge_query);
            let ids = take_limit(
                evs.map_values(
                    |e: (EdgeKeyV, u64)|
                        match converter {
                            EdgeDirection::Outbound => e.0.outbound_id,
                            EdgeDirection::Inbound => e.0.inbound_id,
                        },
                ),
                limit as nat,
            );
            lemma_vertex_lookups_len(st.vertices, ids);
        },
        _ => {},
    }
}

/// With no start and the largest limit, the all-vertices query enumerates
/// the whole vertex table, in identifier order.
pub proof fn lemma_all_enumerates(st: StateV)
    requires
        st.vertices.len() <= u32::MAX,
    ensures
        eval_vq(st, VertexQueryV::All { start_id: None, limit: u32::MAX }) == st.vertices,
{
}

/// Filter honouring: every edge an edge pipe returns passes its type
/// filter and lies within its inclusive time bounds.
pub proof fn lemma_pipe_filters_honoured(st: StateV, r: EdgeQueryV, i: int)
    requires
        r is Pipe,
        0 <= i < eval_eq(st, r).len(),
    ensures
        type_ok(eval_eq(st, r)[i].0, r->Pipe_type_filter),
        time_ok(
            eval_eq(st, r)[i].1,
            r->Pipe_high_filter,
            r->Pipe_low_filter,
        ),
{
    match r {
        EdgeQueryV::Pipe { vertex_query, converter, type_filter, high_filter, low_filter, limit }
            => {
            let srcs = eval_vq(st, *vertex_query).map_values(|p: (Identifier, Seq<char>)| p.0);
            match converter {
                EdgeDirection::Outbound => {
                    let full = outbound_concat(
                        st.edges,
                        srcs,
                        type_filter,
                        high_filter,
                        low_filter,
                    );
                    assert(eval_eq(st, r)[i] == full[i]);
                    lemma_outbound_concat_matches(
                        st.edges,
                        srcs,
                        type_filter,
                        high_filter,
                        low_filter,
                        i,
                    );
                },
                EdgeDirection::Inbound => {
                    let pred = |e: (EdgeKeyV, u64)|
                        in_matches(e, srcs, type_filter, high_filter, low_filter);
                    assert(eval_eq(st, r)[i] == st.edges.filter(pred)[i]);
                    st.edges.lemma_filter_pred(pred, i);
                },
            }
        },
        _ => {},
    }
}

/// Every entry of the per-source concatenation passes the filters.
proof fn lemma_outbound_concat_matches(
    es: Seq<(EdgeKeyV, u64)>,
    srcs: Seq<Identifier>,
    tf: Option<Seq<char>>,
    hi: Option<u64>,
    lo: Option<u64>,
    i: int,
)
    requires
        0 <= i < outbound_concat(es, srcs, tf, hi, lo).len(),
    ensures
        type_ok(outbound_concat(es, srcs, tf, hi, lo)[i].0, tf),
        time_ok(outbound_concat(es, srcs, tf, hi, lo)[i].1, hi, lo),
    decreases srcs.len(),
{
    if srcs.len() > 0 {
        let cur = es.filter(|e: (EdgeKeyV, u64)| out_matches(e, srcs[0], tf, hi, lo));
        let rest = outbound_concat(es, srcs.drop_first(), tf, hi, lo);
        if i < cur.len() {
            es.lemma_filter_pred(|e: (EdgeKeyV, u64)| out_matches(e, srcs[0], tf, hi, lo), i);
            assert(outbound_concat(es, srcs, tf, hi, lo)[i] == cur[i]);
        } else {
            lemma_outbound_concat_matches(es, srcs.drop_first(), tf, hi, lo, i - cur.len());
            assert(outbound_concat(es, srcs, tf, hi, lo)[i] == rest[i - cur.len()]);
        }
    }
}

/// Counting agrees with collecting: for any vertex, type filter and
/// direction, the edge count equals the length of the unlimited edge pipe
/// over exactly that vertex with the same filters.
pub proof fn lemma_count_matches_get(
    st: StateV,
    v: Identifier,
    tf: Option<Seq<char>>,
    dir: EdgeDirection,
)
    requires
        st.wf(),
        st.edges.len() <= u32::MAX,
    ensures
        ({
            let q = EdgeQueryV::Pipe {
                vertex_query: Box::new(VertexQueryV::Vertices { ids: seq![v] }),
                converter: dir,
                type_filter: tf,
                high_filter: None,
                low_filter: None,
                limit: u32::MAX,
            };
            let count = match dir {
                EdgeDirection::Outbound => st.edges.filter(
                    |e: (EdgeKeyV, u64)| e.0.outbound_id == v && type_ok(e.0, tf),
                ).len(),
                EdgeDirection::Inbound => st.edges.filter(
                    |e: (EdgeKeyV, u64)| e.0.inbound_id == v && type_ok(e.0, tf),
                ).len(),
            };
            eval_eq(st, q).len() == count
        }),
{
    let q = EdgeQueryV::Pipe {
        vertex_query: Box::new(VertexQueryV::Vertices { ids: seq![v] }),
        converter: dir,
        type_filter: tf,
        high_filter: None,
        low_filter: None,
        limit: u32::MAX,
    };
    reveal_with_fuel(vertex_lookups, 3);
    assert(seq![v].drop_first() =~= Seq::<Identifier>::empty());
    let rows = eval_vq(st, VertexQueryV::Vertices { ids: seq![v] });
    let srcs = rows.map_values(|p: (Identifier, Seq<char>)| p.0);
    lemma_find_has_vertex(st.vertices, v);
    match find_vertex(st.vertices, v) {
        Some(t) => {
            assert(rows =~= seq![(v, t)]);
            assert(srcs =~= seq![v]);
            match dir {
                EdgeDirection::Outbound => {
                    reveal_with_fuel(outbound_concat, 3);
                    assert(seq![v].drop_first() =~= Seq::<Identifier>::empty());
                    let cur = st.edges.filter(
                        |e: (EdgeKeyV, u64)| out_matches(e, v, tf, None, None),
                    );
                    assert(outbound_concat(st.edges, srcs, tf, None, None) =~= cur);
                    lemma_filter_equiv(
                        st.edges,
                        |e: (EdgeKeyV, u64)| out_matches(e, v, tf, None, None),
                        |e: (EdgeKeyV, u64)| e.0.outbound_id == v && type_ok(e.0, tf),
                    );
                    st.edges.lemma_filter_len(
                        |e: (EdgeKeyV, u64)| e.0.outbound_id == v && type_ok(e.0, tf),
                    );
                },
                EdgeDirection::Inbound => {
                    assert forall|j: int|
                        0 <= j < st.edges.len() implies (in_matches(
                        #[trigger] st.edges[j],
                        srcs,
                        tf,
                        None,
                        None,
                    ) <==> (st.edges[j].0.inbound_id == v && type_ok(st.edges[j].0, tf))) by {
                        if st.edges[j].0.inbound_id == v {
                            assert(srcs[0] == v);
                            assert(srcs.contains(v));
                        }
                        if srcs.contains(st.edges[j].0.inbound_id) {
                            let w = choose|w: int|
                                0 <= w < srcs.len() && srcs[w] == st.edges[j].0.inbound_id;
                        }
                    }
                    lemma_filter_equiv(
                        st.edges,
                        |e: (EdgeKeyV, u64)| in_matches(e, srcs, tf, None, None),
                        |e: (EdgeKeyV, u64)| e.0.inbound_id == v && type_ok(e.0, tf),
                    );
                    st.edges.lemma_filter_len(
                        |e: (EdgeKeyV, u64)| e.0.inbound_id == v && type_ok(e.0, tf),
                    );
                },
            }
        },
        None => {
            assert(!has_vertex(st.vertices, v));
            assert(rows =~= Seq::<(Identifier, Seq<char>)>::empty());
            assert(srcs =~= Seq::<Identifier>::empty());
            match dir {
                EdgeDirection::Outbound => {
                    assert forall|j: int|
                        0 <= j < st.edges.len() implies !((#[trigger] st.edges[j]).0.outbound_id
                        == v && type_ok(st.edges[j].0, tf)) by {
                        assert(has_vertex(st.vertices, st.edges[j].0.outbound_id));
                    }
                    crate::engine::lemma_filter_none(
                        st.edges,
                        |e: (EdgeKeyV, u64)| e.0.outbound_id == v && type_ok(e.0, tf),
                    );
                    assert(outbound_concat(st.edges, srcs, tf, None, None) =~= Seq::<
                        (EdgeKeyV, u64),
                    >::empty());
                },
                EdgeDirection::Inbound => {
                    assert forall|j: int|
                        0 <= j < st.edges.len() implies !in_matches(
                        #[trigger] st.edges[j],
                        srcs,
                        tf,
                        None,
                        None,
                    ) && !(st.edges[j].0.inbound_id == v && type_ok(st.edges[j].0, tf)) by {
                        assert(has_vertex(st.vertices, st.edges[j].0.inbound_id));
                        if srcs.contains(st.edges[j].0.inbound_id) {
                            let w = choose|w: int|
                                0 <= w < srcs.len() && srcs[w] == st.edges[j].0.inbound_id;
                        }
                    }
                    crate::engine::lemma_filter_none(
                        st.edges,
                        |e: (EdgeKeyV, u64)| in_matches(e, srcs, tf, None, None),
                    );
                    crate::engine::lemma_filter_none(
                        st.edges,
                        |e: (EdgeKeyV, u64)| e.0.inbound_id == v && type_ok(e.0, tf),
                    );
                },
            }
        },
    }
}

} // verus!

verus! {

/// Upserting one property stores the new value under its key and leaves
/// every other key as it was.
proof fn lemma_upsert_vprop_find(
    props: Seq<((Identifier, Seq<char>), serde_json::Value)>,
    key: (Identifier, Seq<char>),
    val: serde_json::Value,
)
    ensures
        find_vprop(upsert_vprop(props, key, val), key) == Some(val),
        forall|k2: (Identifier, Seq<char>)|
            k2 != key ==> find_vprop(upsert_vprop(props, key, val), k2) == find_vprop(props, k2),
    decreases props.len(),
{
    reveal_with_fuel(find_vprop, 3);
    let ins = upsert_vprop(props, key, val);
    if props.len() == 0 {
        assert(ins == seq![(key, val)]);
        assert(ins.drop_first() =~= props);
    } else if props[0].0 == key {
        assert(ins == seq![(key, val)] + props.drop_first());
        assert(ins[0] == (key, val));
        assert(ins.drop_first() =~= props.drop_first());
        assert forall|k2: (Identifier, Seq<char>)| k2 != key implies find_vprop(ins, k2)
            == find_vprop(props, k2) by {
            assert(find_vprop(ins, k2) == find_vprop(ins.drop_first(), k2));
            assert(find_vprop(props, k2) == find_vprop(props.drop_first(), k2));
        }
    } else {
        lemma_upsert_vprop_find(props.drop_first(), key, val);
        assert(ins == seq![props[0]] + upsert_vprop(props.drop_first(), key, val));
        assert(ins[0] == props[0]);
        assert(ins.drop_first() =~= upsert_vprop(props.drop_first(), key, val));
        assert(find_vprop(ins, key) == Some(val));
        assert forall|k2: (Identifier, Seq<char>)| k2 != key implies find_vprop(ins, k2)
            == find_vprop(props, k2) by {
            if props[0].0 == k2 {
                assert(find_vprop(ins, k2) == Some(props[0].1));
            } else {
                assert(find_vprop(ins, k2) == find_vprop(ins.drop_first(), k2));
                assert(find_vprop(props, k2) == find_vprop(props.drop_first(), k2));
            }
        }
    }
}

/// Upserting one property stores the new value under its key and leaves
/// every other key as it was.
proof fn lemma_upsert_eprop_find(
    props: Seq<((EdgeKeyV, Seq<char>), serde_json::Value)>,
    key: (EdgeKeyV, Seq<char>),
    val: serde_json::Value,
)
    ensures
        find_eprop(upsert_eprop(props, key, val), key) == Some(val),
        forall|k2: (EdgeKeyV, Seq<char>)|
            k2 != key ==> find_eprop(upsert_eprop(props, key, val), k2) == find_eprop(props, k2),
    decreases props.len(),
{
    reveal_with_fuel(find_eprop, 3);
    let ins = upsert_eprop(props, key, val);
    if props.len() == 0 {
        assert(ins == seq![(key, val)]);
        assert(ins.drop_first() =~= props);
    } else if props[0].0 == key {
        assert(ins == seq![(key, val)] + props.drop_first());
        assert(ins[0] == (key, val));
        assert(ins.drop_first() =~= props.drop_first());
        assert forall|k2: (EdgeKeyV, Seq<char>)| k2 != key implies find_eprop(ins, k2)
            == find_eprop(props, k2) by {
            assert(find_eprop(ins, k2) == find_eprop(ins.drop_first(), k2));
            assert(find_eprop(props, k2) == find_eprop(props.drop_first(), k2));
        }
    } else {
        lemma_upsert_eprop_find(props.drop_first(), key, val);
        assert(ins == seq![props[0]] + upsert_eprop(props.drop_first(), key, val));
        assert(ins[0] == props[0]);
        assert(ins.drop_first() =~= upsert_eprop(props.drop_first(), key, val));
        assert(find_eprop(ins, key) == Some(val));
        assert forall|k2: (EdgeKeyV, Seq<char>)| k2 != key implies find_eprop(ins, k2)
            == find_eprop(props, k2) by {
            if props[0].0 == k2 {
                assert(find_eprop(ins, k2) == Some(props[0].1));
            } else {
                assert(find_eprop(ins, k2) == find_eprop(ins.drop_first(), k2));
                assert(find_eprop(props, k2) == find_eprop(props.drop_first(), k2));
            }
        }
    }
}

/// What the fold of upserts stores under each key: the new value at every
/// key it writes, the old entry everywhere else.
proof fn lemma_upsert_vprops_all_find(
    props: Seq<((Identifier, Seq<char>), serde_json::Value)>,
    rows: Seq<(Identifier, Seq<char>)>,
    name: Seq<char>,
    val: serde_json::Value,
    key: (Identifier, Seq<char>),
)
    ensures
        find_vprop(upsert_vprops_all(props, rows, name, val), key) == if exists|i: int|
            0 <= i < rows.len() && key == ((#[trigger] rows[i]).0, name) {
            Some(val)
        } else {
            find_vprop(props, key)
        },
    decreases rows.len(),
{
    if rows.len() > 0 {
        let mid = upsert_vprop(props, (rows[0].0, name), val);
        lemma_upsert_vprops_all_find(mid, rows.drop_first(), name, val, key);
        lemma_upsert_vprop_find(props, (rows[0].0, name), val);
        let rest = rows.drop_first();
        if exists|i: int| 0 <= i < rest.len() && key == ((#[trigger] rest[i]).0, name) {
            let i = choose|i: int| 0 <= i < rest.len() && key == ((#[trigger] rest[i]).0, name);
            assert(rows[i + 1] == rest[i]);
        } else if key == (rows[0].0, name) {
            assert(key == ((rows[0]).0, name));
        } else {
            assert forall|i: int| 0 <= i < rows.len() implies key != ((#[trigger] rows[i]).0,
            name) by {
                if i > 0 {
                    assert(rest[i - 1] == rows[i]);
                }
            }
        }
    }
}

/// What the fold of upserts stores under each key: the new value at every
/// key it writes, the old entry everywhere else.
proof fn lemma_upsert_eprops_all_find(
    props: Seq<((EdgeKeyV, Seq<char>), serde_json::Value)>,
    rows: Seq<(EdgeKeyV, u64)>,
    name: Seq<char>,
    val: serde_json::Value,
    key: (EdgeKeyV, Seq<char>),
)
    ensures
        find_eprop(upsert_eprops_all(props, rows, name, val), key) == if exists|i: int|
            0 <= i < rows.len() && key == ((#[trigger] rows[i]).0, name) {
            Some(val)
        } else {
            find_eprop(props, key)
        },
    decreases rows.len(),
{
    if rows.len() > 0 {
        let mid = upsert_eprop(props, (rows[0].0, name), val);
        lemma_upsert_eprops_all_find(mid, rows.drop_first(), name, val, key);
        lemma_upsert_eprop_find(props, (rows[0].0, name), val);
        let rest = rows.drop_first();
        if exists|i: int| 0 <= i < rest.len() && key == ((#[trigger] rest[i]).0, name) {
            let i = choose|i: int| 0 <= i < rest.len() && key == ((#[trigger] rest[i]).0, name);
            assert(rows[i + 1] == rest[i]);
        } else if key == (rows[0].0, name) {
            assert(key == ((rows[0]).0, name));
        } else {
            assert forall|i: int| 0 <= i < rows.len() implies key != ((#[trigger] rows[i]).0,
            name) by {
                if i > 0 {
                    assert(rest[i - 1] == rows[i]);
                }
            }
        }
    }
}

/// Setting then getting: after the named property is upserted on every
/// row of a query result, reading the same name back over those rows
/// yields exactly one entry per row carrying the new value, in row order.
pub proof fn lemma_set_then_get_vprops(
    props: Seq<((Identifier, Seq<char>), serde_json::Value)>,
    rows: Seq<(Identifier, Seq<char>)>,
    name: Seq<char>,
    val: serde_json::Value,
)
    ensures
        get_vprops(upsert_vprops_all(props, rows, name, val), rows, name) == rows.map_values(
            |p: (Identifier, Seq<char>)| (p.0, val),
        ),
    decreases rows.len(),
{
    let f = |p: (Identifier, Seq<char>)| (p.0, val);
    if rows.len() == 0 {
        assert(get_vprops(upsert_vprops_all(props, rows, name, val), rows, name)
            =~= rows.map_values(f));
    } else {
        let fin = upsert_vprops_all(props, rows, name, val);
        lemma_upsert_vprops_all_find(props, rows, name, val, (rows[0].0, name));
        assert((rows[0].0, name) == ((rows[0]).0, name));
        assert(find_vprop(fin, (rows[0].0, name)) == Some(val));
        let mid = upsert_vprop(props, (rows[0].0, name), val);
        lemma_set_then_get_vprops(mid, rows.drop_first(), name, val);
        assert(fin == upsert_vprops_all(mid, rows.drop_first(), name, val));
        assert(get_vprops(fin, rows, name) == seq![(rows[0].0, val)] + get_vprops(
            fin,
            rows.drop_first(),
            name,
        ));
        assert(seq![(rows[0].0, val)] + rows.drop_first().map_values(f) =~= rows.map_values(f));
    }
}

/// Setting then getting, for edge properties.
pub proof fn lemma_set_then_get_eprops(
    props: Seq<((EdgeKeyV, Seq<char>), serde_json::Value)>,
    rows: Seq<(EdgeKeyV, u64)>,
    name: Seq<char>,
    val: serde_json::Value,
)
    ensures
        get_eprops(upsert_eprops_all(props, rows, name, val), rows, name) == rows.map_values(
            |e: (EdgeKeyV, u64)| (e.0, val),
        ),
    decreases rows.len(),
{
    let f = |e: (EdgeKeyV, u64)| (e.0, val);
    if rows.len() == 0 {
        assert(get_eprops(upsert_eprops_all(props, rows, name, val), rows, name)
            =~= rows.map_values(f));
    } else {
        let fin = upsert_eprops_all(props, rows, name, val);
        lemma_upsert_eprops_all_find(props, rows, name, val, (rows[0].0, name));
        assert((rows[0].0, name) == ((rows[0]).0, name));
        assert(find_eprop(fin, (rows[0].0, name)) == Some(val));
        let mid = upsert_eprop(props, (rows[0].0, name), val);
        lemma_set_then_get_eprops(mid, rows.drop_first(), name, val);
        assert(fin == upsert_eprops_all(mid, rows.drop_first(), name, val));
        assert(get_eprops(fin, rows, name) == seq![(rows[0].0, val)] + get_eprops(
            fin,
            rows.drop_first(),
            name,
        ));
        assert(seq![(rows[0].0, val)] + rows.drop_first().map_values(f) =~= rows.map_values(f));
    }
}

} // verus!
