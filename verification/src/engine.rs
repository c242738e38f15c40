//! The in-memory storage engine: four ordered maps held as sorted vectors,
//! a recursive query evaluator, and cascading deletion.
//!
//! The edge map is kept sorted by the lexicographic `(outbound_id, t,
//! inbound_id)` key order, so every edge sharing an `(outbound_id, t)`
//! prefix is contiguous and the rows an outbound pipe emits for one source
//! come out in key order. Traversal here walks each table in full; the
//! sorted order is what fixes the order of every result.

use vstd::prelude::*;
use crate::ident::Identifier;
use crate::types::Type;
use crate::models::{EdgeKey, EdgeKeyV, key_lt, key_lt_exec, key_eq_exec, VertexProperty,
    EdgeProperty};
use crate::models::{lemma_key_lt_irrefl, lemma_key_lt_connex, lemma_key_lt_trans};
use crate::queries::{VertexQuery, EdgeQuery, VertexQueryV, EdgeQueryV, EdgeDirection};
use crate::types::str_eq;

verus! {

// ---------------------------------------------------------------------------
// The mathematical state
// ---------------------------------------------------------------------------

/// The mathematical value of the whole store: four association sequences.
/// The vertex and edge sequences are kept sorted by key; the property
/// sequences have pairwise-distinct keys.
#[verifier::ext_equal]
pub ghost struct StateV {
    pub vertices: Seq<(Identifier, Seq<char>)>,
    pub edges: Seq<(EdgeKeyV, u64)>,
    pub vertex_properties: Seq<((Identifier, Seq<char>), serde_json::Value)>,
    pub edge_properties: Seq<((EdgeKeyV, Seq<char>), serde_json::Value)>,
}

/// Vertices strictly sorted by identifier.
pub open spec fn vertices_sorted(vs: Seq<(Identifier, Seq<char>)>) -> bool {
    forall|i: int, j: int|
        0 <= i < j < vs.len() ==> (#[trigger] vs[i]).0.0 < (#[trigger] vs[j]).0.0
}

/// Edges strictly sorted by key.
pub open spec fn edges_sorted(es: Seq<(EdgeKeyV, u64)>) -> bool {
    forall|i: int, j: int|
        0 <= i < j < es.len() ==> key_lt((#[trigger] es[i]).0, (#[trigger] es[j]).0)
}

/// Whether some vertex in `vs` has the given identifier.
pub open spec fn has_vertex(vs: Seq<(Identifier, Seq<char>)>, id: Identifier) -> bool {
    exists|i: int| 0 <= i < vs.len() && (#[trigger] vs[i]).0 == id
}

/// Whether some edge in `es` has the given key.
pub open spec fn has_edge(es: Seq<(EdgeKeyV, u64)>, k: EdgeKeyV) -> bool {
    exists|i: int| 0 <= i < es.len() && (#[trigger] es[i]).0 == k
}

impl StateV {
    /// Well-formedness: both keyed sequences sorted, property keys
    /// pairwise distinct, and referential integrity between the tables:
    /// every edge endpoint is a known vertex and every property is owned
    /// by an entity that exists.
    pub open spec fn wf(self) -> bool {
        &&& vertices_sorted(self.vertices)
        &&& edges_sorted(self.edges)
        &&& (forall|i: int, j: int|
            0 <= i < j < self.vertex_properties.len() ==> (#[trigger] self.vertex_properties[i]).0
                != (#[trigger] self.vertex_properties[j]).0)
        &&& (forall|i: int, j: int|
            0 <= i < j < self.edge_properties.len() ==> (#[trigger] self.edge_properties[i]).0
                != (#[trigger] self.edge_properties[j]).0)
        &&& (forall|i: int|
            0 <= i < self.edges.len() ==> has_vertex(
                self.vertices,
                (#[trigger] self.edges[i]).0.outbound_id,
            ) && has_vertex(self.vertices, self.edges[i].0.inbound_id))
        &&& (forall|i: int|
            0 <= i < self.vertex_properties.len() ==> has_vertex(
                self.vertices,
                (#[trigger] self.vertex_properties[i]).0.0,
            ))
        &&& (forall|i: int|
            0 <= i < self.edge_properties.len() ==> has_edge(
                self.edges,
                (#[trigger] self.edge_properties[i]).0.0,
            ))
    }
}

// ---------------------------------------------------------------------------
// Spec-level evaluation
// ---------------------------------------------------------------------------

/// The first `limit` entries of a result sequence; the whole sequence when
/// it is shorter.
pub open spec fn take_limit<A>(s: Seq<A>, limit: nat) -> Seq<A> {
    if s.len() <= limit {
        s
    } else {
        s.take(limit as int)
    }
}

/// The type the store holds for an identifier, if any: the first (and,
/// in a well-formed store, only) entry.
pub open spec fn find_vertex(vs: Seq<(Identifier, Seq<char>)>, id: Identifier) -> Option<
    Seq<char>,
>
    decreases vs.len(),
{
    if vs.len() == 0 {
        None
    } else if vs[0].0 == id {
        Some(vs[0].1)
    } else {
        find_vertex(vs.drop_first(), id)
    }
}

/// The creation time the store holds for an edge key, if any.
pub open spec fn find_edge(es: Seq<(EdgeKeyV, u64)>, k: EdgeKeyV) -> Option<u64>
    decreases es.len(),
{
    if es.len() == 0 {
        None
    } else if es[0].0 == k {
        Some(es[0].1)
    } else {
        find_edge(es.drop_first(), k)
    }
}

/// The vertices answering to the given ids, in the order given; missing
/// ids are silently dropped.
pub open spec fn vertex_lookups(vs: Seq<(Identifier, Seq<char>)>, ids: Seq<Identifier>) -> Seq<
    (Identifier, Seq<char>),
>
    decreases ids.len(),
{
    if ids.len() == 0 {
        Seq::empty()
    } else {
        let rest = vertex_lookups(vs, ids.drop_first());
        match find_vertex(vs, ids[0]) {
            Some(t) => seq![(ids[0], t)] + rest,
            None => rest,
        }
    }
}

/// The edges answering to the given keys, in the order given; missing
/// keys are silently dropped.
pub open spec fn edge_lookups(es: Seq<(EdgeKeyV, u64)>, keys: Seq<EdgeKeyV>) -> Seq<
    (EdgeKeyV, u64),
>
    decreases keys.len(),
{
    if keys.len() == 0 {
        Seq::empty()
    } else {
        let rest = edge_lookups(es, keys.drop_first());
        match find_edge(es, keys[0]) {
            Some(t) => seq![(keys[0], t)] + rest,
            None => rest,
        }
    }
}

/// Whether an edge passes a type filter.
pub open spec fn type_ok(k: EdgeKeyV, tf: Option<Seq<char>>) -> bool {
    match tf {
        None => true,
        Some(t) => k.t == t,
    }
}

/// Whether a creation time passes the inclusive high and low bounds.
pub open spec fn time_ok(ts: u64, hi: Option<u64>, lo: Option<u64>) -> bool {
    &&& match hi {
        None => true,
        Some(h) => ts <= h,
    }
    &&& match lo {
        None => true,
        Some(l) => ts >= l,
    }
}

/// Whether an edge is an outbound match for a source vertex under the
/// given filters.
pub open spec fn out_matches(
    e: (EdgeKeyV, u64),
    src: Identifier,
    tf: Option<Seq<char>>,
    hi: Option<u64>,
    lo: Option<u64>,
) -> bool {
    e.0.outbound_id == src && type_ok(e.0, tf) && time_ok(e.1, hi, lo)
}

/// Whether an edge is an inbound match for any of the candidate ids under
/// the given filters.
pub open spec fn in_matches(
    e: (EdgeKeyV, u64),
    srcs: Seq<Identifier>,
    tf: Option<Seq<char>>,
    hi: Option<u64>,
    lo: Option<u64>,
) -> bool {
    srcs.contains(e.0.inbound_id) && type_ok(e.0, tf) && time_ok(e.1, hi, lo)
}

/// The outbound matches of each source vertex in turn, in edge-key order
/// within each source.
pub open spec fn outbound_concat(
    es: Seq<(EdgeKeyV, u64)>,
    srcs: Seq<Identifier>,
    tf: Option<Seq<char>>,
    hi: Option<u64>,
    lo: Option<u64>,
) -> Seq<(EdgeKeyV, u64)>
    decreases srcs.len(),
{
    if srcs.len() == 0 {
        Seq::empty()
    } else {
        es.filter(|e: (EdgeKeyV, u64)| out_matches(e, srcs[0], tf, hi, lo)) + outbound_concat(
            es,
            srcs.drop_first(),
            tf,
            hi,
            lo,
        )
    }
}

/// What a vertex query evaluates to: pairs of identifier and type, in
/// result order.
pub open spec fn eval_vq(st: StateV, q: VertexQueryV) -> Seq<(Identifier, Seq<char>)>
    decreases q,
{
    match q {
        VertexQueryV::All { start_id, limit } => {
            let base = match start_id {
                None => st.vertices,
                Some(sid) => st.vertices.filter(|p: (Identifier, Seq<char>)| p.0.0 >= sid.0),
            };
            take_limit(base, limit as nat)
        },
        VertexQueryV::Vertices { ids } => vertex_lookups(st.vertices, ids),
        VertexQueryV::Pipe { edge_query, converter, limit } => {
            let evs = eval_eq(st, *edge_query);
            let ids = take_limit(
                evs.map_values(
                    |e: (EdgeKeyV, u64)|
                        match converter {
                            EdgeDirection::Outbound => e.0.outbound_id,
                            EdgeDirection::Inbound => e.0.inbound_id,
                        },
                ),
                limit as nat,
            );
            vertex_lookups(st.vertices, ids)
        },
    }
}

/// What an edge query evaluates to: pairs of key and creation time, in
/// result order.
pub open spec fn eval_eq(st: StateV, q: EdgeQueryV) -> Seq<(EdgeKeyV, u64)>
    decreases q,
{
    match q {
        EdgeQueryV::Edges { keys } => edge_lookups(st.edges, keys),
        EdgeQueryV::Pipe { vertex_query, converter, type_filter, high_filter, low_filter, limit }
            => {
            let srcs = eval_vq(st, *vertex_query).map_values(
                |p: (Identifier, Seq<char>)| p.0,
            );
            match converter {
                EdgeDirection::Outbound => take_limit(
                    outbound_concat(st.edges, srcs, type_filter, high_filter, low_filter),
                    limit as nat,
                ),
                EdgeDirection::Inbound => take_limit(
                    st.edges.filter(
                        |e: (EdgeKeyV, u64)|
                            in_matches(e, srcs, type_filter, high_filter, low_filter),
                    ),
                    limit as nat,
                ),
            }
        },
    }
}

/// The value stored under a vertex-property key, if any.
pub open spec fn find_vprop(
    props: Seq<((Identifier, Seq<char>), serde_json::Value)>,
    key: (Identifier, Seq<char>),
) -> Option<serde_json::Value>
    decreases props.len(),
{
    if props.len() == 0 {
        None
    } else if props[0].0 == key {
        Some(props[0].1)
    } else {
        find_vprop(props.drop_first(), key)
    }
}

/// The value stored under an edge-property key, if any.
pub open spec fn find_eprop(
    props: Seq<((EdgeKeyV, Seq<char>), serde_json::Value)>,
    key: (EdgeKeyV, Seq<char>),
) -> Option<serde_json::Value>
    decreases props.len(),
{
    if props.len() == 0 {
        None
    } else if props[0].0 == key {
        Some(props[0].1)
    } else {
        find_eprop(props.drop_first(), key)
    }
}

/// One named property per query row that has it, in row order.
pub open spec fn get_vprops(
    props: Seq<((Identifier, Seq<char>), serde_json::Value)>,
    rows: Seq<(Identifier, Seq<char>)>,
    name: Seq<char>,
) -> Seq<(Identifier, serde_json::Value)>
    decreases rows.len(),
{
    if rows.len() == 0 {
        Seq::empty()
    } else {
        let rest = get_vprops(props, rows.drop_first(), name);
        match find_vprop(props, (rows[0].0, name)) {
            Some(v) => seq![(rows[0].0, v)] + rest,
            None => rest,
        }
    }
}

/// One named property per query row that has it, in row order.
pub open spec fn get_eprops(
    props: Seq<((EdgeKeyV, Seq<char>), serde_json::Value)>,
    rows: Seq<(EdgeKeyV, u64)>,
    name: Seq<char>,
) -> Seq<(EdgeKeyV, serde_json::Value)>
    decreases rows.len(),
{
    if rows.len() == 0 {
        Seq::empty()
    } else {
        let rest = get_eprops(props, rows.drop_first(), name);
        match find_eprop(props, (rows[0].0, name)) {
            Some(v) => seq![(rows[0].0, v)] + rest,
            None => rest,
        }
    }
}

/// The property table with one entry overwritten in place or appended.
pub open spec fn upsert_vprop(
    props: Seq<((Identifier, Seq<char>), serde_json::Value)>,
    key: (Identifier, Seq<char>),
    val: serde_json::Value,
) -> Seq<((Identifier, Seq<char>), serde_json::Value)>
    decreases props.len(),
{
    if props.len() == 0 {
        seq![(key, val)]
    } else if props[0].0 == key {
        seq![(key, val)] + props.drop_first()
    } else {
        seq![props[0]] + upsert_vprop(props.drop_first(), key, val)
    }
}

/// The property table with one entry per row upserted, in row order.
pub open spec fn upsert_vprops_all(
    props: Seq<((Identifier, Seq<char>), serde_json::Value)>,
    rows: Seq<(Identifier, Seq<char>)>,
    name: Seq<char>,
    val: serde_json::Value,
) -> Seq<((Identifier, Seq<char>), serde_json::Value)>
    decreases rows.len(),
{
    if rows.len() == 0 {
        props
    } else {
        upsert_vprops_all(
            upsert_vprop(props, (rows[0].0, name), val),
            rows.drop_first(),
            name,
            val,
        )
    }
}

/// The property table with one entry overwritten in place or appended.
pub open spec fn upsert_eprop(
    props: Seq<((EdgeKeyV, Seq<char>), serde_json::Value)>,
    key: (EdgeKeyV, Seq<char>),
    val: serde_json::Value,
) -> Seq<((EdgeKeyV, Seq<char>), serde_json::Value)>
    decreases props.len(),
{
    if props.len() == 0 {
        seq![(key, val)]
    } else if props[0].0 == key {
        seq![(key, val)] + props.drop_first()
    } else {
        seq![props[0]] + upsert_eprop(props.drop_first(), key, val)
    }
}

/// The property table with one entry per row upserted, in row order.
pub open spec fn upsert_eprops_all(
    props: Seq<((EdgeKeyV, Seq<char>), serde_json::Value)>,
    rows: Seq<(EdgeKeyV, u64)>,
    name: Seq<char>,
    val: serde_json::Value,
) -> Seq<((EdgeKeyV, Seq<char>), serde_json::Value)>
    decreases rows.len(),
{
    if rows.len() == 0 {
        props
    } else {
        upsert_eprops_all(upsert_eprop(props, (rows[0].0, name), val), rows.drop_first(), name, val)
    }
}

// ---------------------------------------------------------------------------
// The executable state
// ---------------------------------------------------------------------------

/// All of the data, held in four sorted vectors behind one lock owned by
/// the datastore.
pub struct InternalState {
    pub vertices: Vec<(Identifier, Type)>,
    pub edges: Vec<(EdgeKey, u64)>,
    pub vertex_properties: Vec<((Identifier, String), serde_json::Value)>,
    pub edge_properties: Vec<((EdgeKey, String), serde_json::Value)>,
}

/// The mathematical value of the vertex vector.
pub open spec fn vertices_view(v: Seq<(Identifier, Type)>) -> Seq<(Identifier, Seq<char>)> {
    Seq::new(v.len(), |i: int| (v[i].0, v[i].1@))
}

/// The mathematical value of the edge vector.
pub open spec fn edges_view(v: Seq<(EdgeKey, u64)>) -> Seq<(EdgeKeyV, u64)> {
    Seq::new(v.len(), |i: int| (v[i].0@, v[i].1))
}

/// The mathematical value of the vertex-property vector.
pub open spec fn vprops_view(v: Seq<((Identifier, String), serde_json::Value)>) -> Seq<
    ((Identifier, Seq<char>), serde_json::Value),
> {
    Seq::new(v.len(), |i: int| ((v[i].0.0, v[i].0.1@), v[i].1))
}

/// The mathematical value of the edge-property vector.
pub open spec fn eprops_view(v: Seq<((EdgeKey, String), serde_json::Value)>) -> Seq<
    ((EdgeKeyV, Seq<char>), serde_json::Value),
> {
    Seq::new(v.len(), |i: int| ((v[i].0.0@, v[i].0.1@), v[i].1))
}

/// The mathematical value of a vector of edge keys.
pub open spec fn edge_keys_view(ks: Seq<EdgeKey>) -> Seq<EdgeKeyV> {
    Seq::new(ks.len(), |i: int| ks[i]@)
}

impl InternalState {
    /// The mathematical value of the store.
    pub open spec fn v(&self) -> StateV {
        StateV {
            vertices: vertices_view(self.vertices@),
            edges: edges_view(self.edges@),
            vertex_properties: vprops_view(self.vertex_properties@),
            edge_properties: eprops_view(self.edge_properties@),
        }
    }

    /// Well-formedness of the executable store.
    pub open spec fn wf(&self) -> bool {
        self.v().wf()
    }

    /// An empty store.
    pub fn new() -> (r: InternalState)
        ensures
            r.v().vertices.len() == 0,
            r.v().edges.len() == 0,
            r.v().vertex_properties.len() == 0,
            r.v().edge_properties.len() == 0,
            r.wf(),
    {
        let r = InternalState {
            vertices: Vec::new(),
            edges: Vec::new(),
            vertex_properties: Vec::new(),
            edge_properties: Vec::new(),
        };
        r
    }

    /// The number of vertices in the store.
    pub fn vertex_count(&self) -> (r: u64)
        ensures
            r as nat == self.v().vertices.len(),
    {
        self.vertices.len() as u64
    }

    /// Looks an identifier up in the vertex table.
    pub fn lookup_vertex(&self, id: Identifier) -> (r: Option<Type>)
        ensures
            match r {
                Some(t) => find_vertex(self.v().vertices, id) == Some(t@),
                None => find_vertex(self.v().vertices, id) is None,
            },
    {
        let n = self.vertices.len();
        let mut i: usize = 0;
        while i < n
            invariant
                i <= n,
                n == self.vertices@.len(),
                forall|j: int| 0 <= j < i ==> (#[trigger] self.v().vertices[j]).0 != id,
            decreases n - i,
        {
            if self.vertices[i].0.0 == id.0 {
                proof {
                    assert(self.v().vertices[i as int].0 == id);
                    lemma_find_vertex_skip(self.v().vertices, id, i as int);
                    assert(self.v().vertices.skip(i as int)[0] == self.v().vertices[i as int]);
                }
                return Some(self.vertices[i].1.duplicate());
            }
            proof {
                assert(self.v().vertices[i as int].0.0 != id.0);
            }
            i = i + 1;
        }
        proof {
            lemma_find_vertex_skip(self.v().vertices, id, n as int);
            assert(self.v().vertices.skip(n as int).len() == 0);
        }
        None
    }

    /// Looks a key up in the edge table.
    pub fn lookup_edge(&self, key: &EdgeKey) -> (r: Option<u64>)
        ensures
            r == find_edge(self.v().edges, key@),
    {
        let n = self.edges.len();
        let mut i: usize = 0;
        while i < n
            invariant
                i <= n,
                n == self.edges@.len(),
                forall|j: int| 0 <= j < i ==> (#[trigger] self.v().edges[j]).0 != key@,
            decreases n - i,
        {
            if key_eq_exec(&self.edges[i].0, key) {
                proof {
                    lemma_find_edge_skip(self.v().edges, key@, i as int);
                    assert(self.v().edges.skip(i as int)[0] == self.v().edges[i as int]);
                }
                return Some(self.edges[i].1);
            }
            i = i + 1;
        }
        proof {
            lemma_find_edge_skip(self.v().edges, key@, n as int);
            assert(self.v().edges.skip(n as int).len() == 0);
        }
        None
    }
}

impl InternalState {
    /// Inserts a vertex. A duplicate id is a no-op returning `false`: the
    /// existing vertex and its type are preserved unchanged.
    pub fn create_vertex(&mut self, vertex: &crate::models::Vertex) -> (r: bool)
        requires
            old(self).wf(),
        ensures
            final(self).wf(),
            has_vertex(old(self).v().vertices, vertex.id) ==> r == false && final(self).v() == old(
                self,
            ).v(),
            !has_vertex(old(self).v().vertices, vertex.id) ==> r == true && final(self).v() == (StateV {
                vertices: insert_vertex_sorted(old(self).v().vertices, vertex.id, vertex.t@),
                ..old(self).v()
            }),
    {
        let ghost st = self.v();
        let n = self.vertices.len();
        let mut i: usize = 0;
        while i < n && self.vertices[i].0.0 < vertex.id.0
            invariant
                i <= n,
                n == self.vertices@.len(),
                forall|j: int| 0 <= j < i ==> (#[trigger] self.v().vertices[j]).0.0 < vertex.id.0,
            decreases n - i,
        {
            i = i + 1;
        }
        if i < n && self.vertices[i].0.0 == vertex.id.0 {
            proof {
                assert(st.vertices[i as int].0 == vertex.id);
                assert(has_vertex(st.vertices, vertex.id));
            }
            return false;
        }
        proof {
            assert(!has_vertex(st.vertices, vertex.id)) by {
                if has_vertex(st.vertices, vertex.id) {
                    let w = choose|w: int|
                        0 <= w < st.vertices.len() && (#[trigger] st.vertices[w]).0 == vertex.id;
                    if w < i {
                        assert(st.vertices[w].0.0 < vertex.id.0);
                    } else {
                        assert(vertices_sorted(st.vertices));
                        if w > i {
                            assert(st.vertices[i as int].0.0 < st.vertices[w].0.0);
                        }
                    }
                }
            }
            lemma_insert_vertex_at(st.vertices, vertex.id, vertex.t@, i as int);
        }
        let t = vertex.t.duplicate();
        self.vertices.insert(i, (vertex.id, t));
        proof {
            let newv = self.v().vertices;
            let want = st.vertices.take(i as int) + seq![(vertex.id, vertex.t@)] + st.vertices.skip(
                i as int,
            );
            assert(newv =~= want);
            assert(self.v().edges =~= st.edges);
            assert(self.v().vertex_properties =~= st.vertex_properties);
            assert(self.v().edge_properties =~= st.edge_properties);
            lemma_insert_wf_vertex(st, vertex.id, vertex.t@, i as int);
        }
        true
    }

    /// Inserts an edge created now. Returns `false`, inserting nothing,
    /// when either endpoint is missing; a duplicate key has its creation
    /// time refreshed.
    pub fn create_edge(&mut self, key: &EdgeKey, now: u64) -> (r: bool)
        requires
            old(self).wf(),
        ensures
            final(self).wf(),
            ({
                let st = old(self).v();
                if has_vertex(st.vertices, key@.outbound_id) && has_vertex(
                    st.vertices,
                    key@.inbound_id,
                ) {
                    r == true && final(self).v() == (StateV {
                        edges: insert_edge_sorted(st.edges, key@, now),
                        ..st
                    })
                } else {
                    r == false && final(self).v() == st
                }
            }),
    {
        let ghost st = self.v();
        if self.lookup_vertex(key.outbound_id).is_none() {
            proof {
                lemma_find_has_vertex(st.vertices, key@.outbound_id);
            }
            return false;
        }
        if self.lookup_vertex(key.inbound_id).is_none() {
            proof {
                lemma_find_has_vertex(st.vertices, key@.inbound_id);
            }
            return false;
        }
        proof {
            lemma_find_has_vertex(st.vertices, key@.outbound_id);
            lemma_find_has_vertex(st.vertices, key@.inbound_id);
        }
        let n = self.edges.len();
        let mut i: usize = 0;
        while i < n && key_lt_exec(&self.edges[i].0, key)
            invariant
                i <= n,
                n == self.edges@.len(),
                forall|j: int| 0 <= j < i ==> key_lt((#[trigger] self.v().edges[j]).0, key@),
            decreases n - i,
        {
            i = i + 1;
        }
        proof {
            lemma_insert_edge_at(st.edges, key@, now, i as int);
        }
        if i < n && key_eq_exec(&self.edges[i].0, key) {
            let k = key.duplicate();
            self.edges.remove(i);
            self.edges.insert(i, (k, now));
            proof {
                let want = st.edges.take(i as int) + seq![(key@, now)] + st.edges.skip(i as int + 1);
                assert(self.v().edges =~= want);
                assert(self.v().vertices =~= st.vertices);
                assert(self.v().vertex_properties =~= st.vertex_properties);
                assert(self.v().edge_properties =~= st.edge_properties);
                lemma_insert_wf_edge_replace(st, key@, now, i as int);
            }
            true
        } else {
            let k = key.duplicate();
            self.edges.insert(i, (k, now));
            proof {
                let want = st.edges.take(i as int) + seq![(key@, now)] + st.edges.skip(i as int);
                assert(self.v().edges =~= want);
                assert(self.v().vertices =~= st.vertices);
                assert(self.v().vertex_properties =~= st.vertex_properties);
                assert(self.v().edge_properties =~= st.edge_properties);
                lemma_insert_wf_edge_insert(st, key@, now, i as int);
            }
            true
        }
    }
}

/// `find_vertex` answers exactly when the vertex exists.
pub proof fn lemma_find_has_vertex(vs: Seq<(Identifier, Seq<char>)>, id: Identifier)
    ensures
        find_vertex(vs, id) is Some <==> has_vertex(vs, id),
        find_vertex(vs, id) is Some ==> exists|i: int|
            0 <= i < vs.len() && (#[trigger] vs[i]).0 == id && vs[i].1 == find_vertex(
                vs,
                id,
            ).unwrap(),
    decreases vs.len(),
{
    if vs.len() > 0 {
        if vs[0].0 == id {
        } else {
            lemma_find_has_vertex(vs.drop_first(), id);
            assert forall|i: int|
                0 <= i < vs.drop_first().len() && (#[trigger] vs.drop_first()[i]).0
                    == id implies (#[trigger] vs[i + 1]).0 == id by {}
            if has_vertex(vs, id) {
                let w = choose|w: int| 0 <= w < vs.len() && (#[trigger] vs[w]).0 == id;
                assert(w != 0);
                assert(vs.drop_first()[w - 1] == vs[w]);
                assert(has_vertex(vs.drop_first(), id));
            }
            if find_vertex(vs, id) is Some {
                let w = choose|w: int|
                    0 <= w < vs.drop_first().len() && (#[trigger] vs.drop_first()[w]).0 == id
                        && vs.drop_first()[w].1 == find_vertex(vs.drop_first(), id).unwrap();
                assert(vs[w + 1] == vs.drop_first()[w]);
            }
        }
    }
}

/// `find_edge` answers exactly when the edge exists.
pub proof fn lemma_find_has_edge(es: Seq<(EdgeKeyV, u64)>, k: EdgeKeyV)
    ensures
        find_edge(es, k) is Some <==> has_edge(es, k),
        find_edge(es, k) is Some ==> exists|i: int|
            0 <= i < es.len() && (#[trigger] es[i]).0 == k && es[i].1 == find_edge(es, k).unwrap(),
    decreases es.len(),
{
    if es.len() > 0 {
        if es[0].0 == k {
        } else {
            lemma_find_has_edge(es.drop_first(), k);
            if has_edge(es, k) {
                let w = choose|w: int| 0 <= w < es.len() && (#[trigger] es[w]).0 == k;
                assert(w != 0);
                assert(es.drop_first()[w - 1] == es[w]);
                assert(has_edge(es.drop_first(), k));
            }
            if find_edge(es, k) is Some {
                let w = choose|w: int|
                    0 <= w < es.drop_first().len() && (#[trigger] es.drop_first()[w]).0 == k
                        && es.drop_first()[w].1 == find_edge(es.drop_first(), k).unwrap();
                assert(es[w + 1] == es.drop_first()[w]);
            }
        }
    }
}

/// Inserting a fresh vertex at its sorted position keeps the state
/// well-formed.
proof fn lemma_insert_wf_vertex(st: StateV, id: Identifier, t: Seq<char>, i: int)
    requires
        st.wf(),
        !has_vertex(st.vertices, id),
        0 <= i <= st.vertices.len(),
        forall|j: int| 0 <= j < i ==> (#[trigger] st.vertices[j]).0.0 < id.0,
        i < st.vertices.len() ==> !(st.vertices[i].0.0 < id.0),
    ensures
        (StateV { vertices: st.vertices.take(i) + seq![(id, t)] + st.vertices.skip(i), ..st }).wf(),
{
    let newv = st.vertices.take(i) + seq![(id, t)] + st.vertices.skip(i);
    assert forall|a: int, b: int| 0 <= a < b < newv.len() implies (#[trigger] newv[a]).0.0 < (
    #[trigger] newv[b]).0.0 by {
        if a < i {
            assert(newv[a] == st.vertices[a]);
        } else if a == i {
            assert(newv[a] == (id, t));
        } else {
            assert(newv[a] == st.vertices[a - 1]);
        }
        if b < i {
            assert(newv[b] == st.vertices[b]);
        } else if b == i {
            assert(newv[b] == (id, t));
        } else {
            assert(newv[b] == st.vertices[b - 1]);
        }
        if i < st.vertices.len() {
            assert(st.vertices[i].0 != id);
            assert(st.vertices[i].0.0 > id.0 || st.vertices[i].0.0 == id.0);
            if st.vertices[i].0.0 == id.0 {
                assert(st.vertices[i].0.0 == id.0 && st.vertices[i].0 != id);
            }
        }
    }
    assert forall|x: Identifier| has_vertex(st.vertices, x) implies has_vertex(newv, x) by {
        let w = choose|w: int| 0 <= w < st.vertices.len() && (#[trigger] st.vertices[w]).0 == x;
        if w < i {
            assert(newv[w] == st.vertices[w]);
        } else {
            assert(newv[w + 1] == st.vertices[w]);
        }
    }
}

/// Refreshing the creation time of an existing edge keeps the state
/// well-formed.
proof fn lemma_insert_wf_edge_replace(st: StateV, k: EdgeKeyV, ts: u64, i: int)
    requires
        st.wf(),
        has_vertex(st.vertices, k.outbound_id),
        has_vertex(st.vertices, k.inbound_id),
        0 <= i < st.edges.len(),
        st.edges[i].0 == k,
    ensures
        (StateV { edges: st.edges.take(i) + seq![(k, ts)] + st.edges.skip(i + 1), ..st }).wf(),
{
    let newe = st.edges.take(i) + seq![(k, ts)] + st.edges.skip(i + 1);
    assert(newe =~= st.edges.update(i, (k, ts)));
    assert forall|a: int, b: int| 0 <= a < b < newe.len() implies key_lt(
        (#[trigger] newe[a]).0,
        (#[trigger] newe[b]).0,
    ) by {
        assert(newe[a].0 == st.edges[a].0);
        assert(newe[b].0 == st.edges[b].0);
    }
    assert forall|x: EdgeKeyV| has_edge(st.edges, x) implies has_edge(newe, x) by {
        let w = choose|w: int| 0 <= w < st.edges.len() && (#[trigger] st.edges[w]).0 == x;
        assert(newe[w].0 == st.edges[w].0);
    }
    assert forall|j: int| 0 <= j < newe.len() implies has_vertex(
        st.vertices,
        (#[trigger] newe[j]).0.outbound_id,
    ) && has_vertex(st.vertices, newe[j].0.inbound_id) by {
        assert(newe[j].0 == st.edges[j].0);
    }
}

/// Inserting a fresh edge at its sorted position keeps the state
/// well-formed.
proof fn lemma_insert_wf_edge_insert(st: StateV, k: EdgeKeyV, ts: u64, i: int)
    requires
        st.wf(),
        has_vertex(st.vertices, k.outbound_id),
        has_vertex(st.vertices, k.inbound_id),
        0 <= i <= st.edges.len(),
        forall|j: int| 0 <= j < i ==> key_lt((#[trigger] st.edges[j]).0, k),
        i < st.edges.len() ==> !key_lt(st.edges[i].0, k) && st.edges[i].0 != k,
    ensures
        (StateV { edges: st.edges.take(i) + seq![(k, ts)] + st.edges.skip(i), ..st }).wf(),
{
    let newe = st.edges.take(i) + seq![(k, ts)] + st.edges.skip(i);
    assert forall|a: int, b: int| 0 <= a < b < newe.len() implies key_lt(
        (#[trigger] newe[a]).0,
        (#[trigger] newe[b]).0,
    ) by {
        if a < i {
            assert(newe[a] == st.edges[a]);
        } else if a == i {
            assert(newe[a] == (k, ts));
        } else {
            assert(newe[a] == st.edges[a - 1]);
        }
        if b < i {
            assert(newe[b] == st.edges[b]);
        } else if b == i {
            assert(newe[b] == (k, ts));
        } else {
            assert(newe[b] == st.edges[b - 1]);
        }
        if b > i {
            assert(i < st.edges.len());
            lemma_key_lt_connex(st.edges[i].0, k);
            assert(key_lt(k, st.edges[i].0));
            if b - 1 > i {
                assert(key_lt(st.edges[i].0, st.edges[b - 1].0));
                lemma_key_lt_trans(k, st.edges[i].0, st.edges[b - 1].0);
            }
            assert(key_lt(k, st.edges[b - 1].0));
            if a < i {
                lemma_key_lt_trans(st.edges[a].0, k, st.edges[b - 1].0);
            }
        }
    }
    assert forall|x: EdgeKeyV| has_edge(st.edges, x) implies has_edge(newe, x) by {
        let w = choose|w: int| 0 <= w < st.edges.len() && (#[trigger] st.edges[w]).0 == x;
        if w < i {
            assert(newe[w] == st.edges[w]);
        } else {
            assert(newe[w + 1] == st.edges[w]);
        }
    }
    assert forall|j: int| 0 <= j < newe.len() implies has_vertex(
        st.vertices,
        (#[trigger] newe[j]).0.outbound_id,
    ) && has_vertex(st.vertices, newe[j].0.inbound_id) by {
        if j < i {
            assert(newe[j] == st.edges[j]);
        } else if j > i {
            assert(newe[j] == st.edges[j - 1]);
        }
    }
}

// ---------------------------------------------------------------------------
// Sorted insertion
// ---------------------------------------------------------------------------

/// The vertex table with `(id, t)` inserted at its sorted position. Only
/// meaningful when `id` is not already present.
pub open spec fn insert_vertex_sorted(
    vs: Seq<(Identifier, Seq<char>)>,
    id: Identifier,
    t: Seq<char>,
) -> Seq<(Identifier, Seq<char>)>
    decreases vs.len(),
{
    if vs.len() == 0 {
        seq![(id, t)]
    } else if vs[0].0.0 < id.0 {
        seq![vs[0]] + insert_vertex_sorted(vs.drop_first(), id, t)
    } else {
        seq![(id, t)] + vs
    }
}

/// The edge table with `(k, ts)` inserted at its sorted position, or with
/// the creation time refreshed when the key is already present.
pub open spec fn insert_edge_sorted(es: Seq<(EdgeKeyV, u64)>, k: EdgeKeyV, ts: u64) -> Seq<
    (EdgeKeyV, u64),
>
    decreases es.len(),
{
    if es.len() == 0 {
        seq![(k, ts)]
    } else if key_lt(es[0].0, k) {
        seq![es[0]] + insert_edge_sorted(es.drop_first(), k, ts)
    } else if es[0].0 == k {
        seq![(k, ts)] + es.drop_first()
    } else {
        seq![(k, ts)] + es
    }
}

proof fn lemma_insert_vertex_at(vs: Seq<(Identifier, Seq<char>)>, id: Identifier, t: Seq<char>, i: int)
    requires
        0 <= i <= vs.len(),
        forall|j: int| 0 <= j < i ==> (#[trigger] vs[j]).0.0 < id.0,
        i < vs.len() ==> !(vs[i].0.0 < id.0),
    ensures
        insert_vertex_sorted(vs, id, t) == vs.take(i) + seq![(id, t)] + vs.skip(i),
    decreases i,
{
    if i == 0 {
        assert(vs.take(0) =~= Seq::empty());
        assert(vs.skip(0) =~= vs);
        if vs.len() == 0 {
            assert(insert_vertex_sorted(vs, id, t) =~= vs.take(0) + seq![(id, t)] + vs.skip(0));
        } else {
            assert(insert_vertex_sorted(vs, id, t) =~= vs.take(0) + seq![(id, t)] + vs.skip(0));
        }
    } else {
        let d = vs.drop_first();
        assert(forall|j: int| 0 <= j < i - 1 ==> (#[trigger] d[j]).0.0 < id.0) by {
            assert(forall|j: int| 0 <= j < i - 1 ==> d[j] == vs[j + 1]);
        }
        lemma_insert_vertex_at(d, id, t, i - 1);
        assert(vs[0].0.0 < id.0);
        assert(insert_vertex_sorted(vs, id, t) == seq![vs[0]] + insert_vertex_sorted(d, id, t));
        assert(seq![vs[0]] + (d.take(i - 1) + seq![(id, t)] + d.skip(i - 1)) =~= vs.take(i) + seq![
            (id, t),
        ] + vs.skip(i));
    }
}

proof fn lemma_insert_edge_at(es: Seq<(EdgeKeyV, u64)>, k: EdgeKeyV, ts: u64, i: int)
    requires
        0 <= i <= es.len(),
        forall|j: int| 0 <= j < i ==> key_lt((#[trigger] es[j]).0, k),
        i < es.len() ==> !key_lt(es[i].0, k),
    ensures
        i < es.len() && es[i].0 == k ==> insert_edge_sorted(es, k, ts) == es.take(i) + seq![
            (k, ts),
        ] + es.skip(i + 1),
        !(i < es.len() && es[i].0 == k) ==> insert_edge_sorted(es, k, ts) == es.take(i) + seq![
            (k, ts),
        ] + es.skip(i),
    decreases i,
{
    if i == 0 {
        assert(es.take(0) =~= Seq::empty());
        assert(es.skip(0) =~= es);
        if 0 < es.len() && es[0].0 == k {
            lemma_key_lt_irrefl(k);
            assert(insert_edge_sorted(es, k, ts) =~= es.take(0) + seq![(k, ts)] + es.skip(1));
        } else {
            assert(insert_edge_sorted(es, k, ts) =~= es.take(0) + seq![(k, ts)] + es.skip(0));
        }
    } else {
        let d = es.drop_first();
        assert(forall|j: int| 0 <= j < i - 1 ==> key_lt((#[trigger] d[j]).0, k)) by {
            assert(forall|j: int| 0 <= j < i - 1 ==> d[j] == es[j + 1]);
        }
        lemma_insert_edge_at(d, k, ts, i - 1);
        assert(key_lt(es[0].0, k));
        lemma_key_lt_irrefl(es[0].0);
        assert(es[0].0 != k);
        assert(insert_edge_sorted(es, k, ts) == seq![es[0]] + insert_edge_sorted(d, k, ts));
        if i < es.len() && es[i].0 == k {
            assert(d[i - 1] == es[i]);
            assert(seq![es[0]] + (d.take(i - 1) + seq![(k, ts)] + d.skip(i)) =~= es.take(i) + seq![
                (k, ts),
            ] + es.skip(i + 1));
        } else {
            assert(seq![es[0]] + (d.take(i - 1) + seq![(k, ts)] + d.skip(i - 1)) =~= es.take(i)
                + seq![(k, ts)] + es.skip(i));
        }
    }
}

// ---------------------------------------------------------------------------
// Filters keep order and distinctness
// ---------------------------------------------------------------------------

/// Every entry of a filtered sequence comes from the original.
pub proof fn lemma_filter_origin<A>(s: Seq<A>, pred: spec_fn(A) -> bool, i: int) -> (a: int)
    requires
        0 <= i < s.filter(pred).len(),
    ensures
        0 <= a < s.len(),
        s[a] == s.filter(pred)[i],
    decreases s.len(),
{
    reveal(Seq::filter);
    s.lemma_filter_len(pred);
    let sd = s.drop_last();
    if pred(s.last()) && i == sd.filter(pred).len() {
        s.len() - 1
    } else {
        let a = lemma_filter_origin(sd, pred, i);
        a
    }
}

/// Two entries of a filtered sequence come from the original in the same
/// order.
pub proof fn lemma_filter_ordered_origin<A>(s: Seq<A>, pred: spec_fn(A) -> bool, i: int, j: int)
    -> (ab: (int, int))
    requires
        0 <= i < j < s.filter(pred).len(),
    ensures
        0 <= ab.0 < ab.1 < s.len(),
        s[ab.0] == s.filter(pred)[i],
        s[ab.1] == s.filter(pred)[j],
    decreases s.len(),
{
    reveal(Seq::filter);
    s.lemma_filter_len(pred);
    let sd = s.drop_last();
    if pred(s.last()) && j == sd.filter(pred).len() {
        let a = lemma_filter_origin(sd, pred, i);
        (a, s.len() - 1)
    } else {
        let ab = lemma_filter_ordered_origin(sd, pred, i, j);
        ab
    }
}

/// A pairwise property of the entries of a sequence, in order, carries
/// over to any filtered subsequence.
pub proof fn lemma_filter_pairwise<A>(s: Seq<A>, pred: spec_fn(A) -> bool, r: spec_fn(A, A) -> bool)
    requires
        forall|i: int, j: int| 0 <= i < j < s.len() ==> r(#[trigger] s[i], #[trigger] s[j]),
    ensures
        forall|i: int, j: int|
            0 <= i < j < s.filter(pred).len() ==> r(
                #[trigger] s.filter(pred)[i],
                #[trigger] s.filter(pred)[j],
            ),
{
    let f = s.filter(pred);
    assert forall|i: int, j: int| 0 <= i < j < f.len() implies r(#[trigger] f[i], #[trigger] f[j]) by {
        let ab = lemma_filter_ordered_origin(s, pred, i, j);
    }
}

/// Whether a vector of identifiers holds the given one.
fn ids_contain(ids: &Vec<Identifier>, id: Identifier) -> (r: bool)
    ensures
        r == ids@.contains(id),
{
    let n = ids.len();
    let mut i: usize = 0;
    while i < n
        invariant
            i <= n,
            n == ids@.len(),
            forall|j: int| 0 <= j < i ==> ids@[j] != id,
        decreases n - i,
    {
        if ids[i].0 == id.0 {
            proof {
                assert(ids@[i as int] == id);
            }
            return true;
        }
        i = i + 1;
    }
    proof {
        assert(forall|j: int| 0 <= j < ids@.len() ==> ids@[j] != id);
    }
    false
}

/// Whether a vector of edge keys holds the given one.
fn keys_contain(keys: &Vec<EdgeKey>, k: &EdgeKey) -> (r: bool)
    ensures
        r == edge_keys_view(keys@).contains(k@),
{
    let n = keys.len();
    let mut i: usize = 0;
    while i < n
        invariant
            i <= n,
            n == keys@.len(),
            forall|j: int| 0 <= j < i ==> edge_keys_view(keys@)[j] != k@,
        decreases n - i,
    {
        if key_eq_exec(&keys[i], k) {
            proof {
                assert(edge_keys_view(keys@)[i as int] == k@);
            }
            return true;
        }
        i = i + 1;
    }
    proof {
        assert(forall|j: int| 0 <= j < edge_keys_view(keys@).len() ==> edge_keys_view(keys@)[j]
            != k@);
    }
    false
}

impl InternalState {
    /// Removes every edge whose key is listed.
    fn remove_edges_with_keys(&mut self, keys: &Vec<EdgeKey>)
        ensures
            final(self).v().edges == old(self).v().edges.filter(
                |e: (EdgeKeyV, u64)| !edge_keys_view(keys@).contains(e.0),
            ),
            final(self).vertices == old(self).vertices,
            final(self).vertex_properties == old(self).vertex_properties,
            final(self).edge_properties == old(self).edge_properties,
    {
        let ghost pred = |e: (EdgeKeyV, u64)| !edge_keys_view(keys@).contains(e.0);
        let n = self.edges.len();
        let mut kept: Vec<(EdgeKey, u64)> = Vec::new();
        let mut i: usize = 0;
        proof {
            assert(edges_view(self.edges@.take(0)) =~= Seq::empty());
            assert(edges_view(self.edges@.take(0)).filter(pred) =~= Seq::empty());
        }
        while i < n
            invariant
                i <= n,
                n == self.edges@.len(),
                edges_view(kept@) == edges_view(self.edges@.take(i as int)).filter(pred),
                pred == (|e: (EdgeKeyV, u64)| !edge_keys_view(keys@).contains(e.0)),
            decreases n - i,
        {
            let ghost prefix = edges_view(self.edges@.take(i as int));
            let ghost elem = (self.edges@[i as int].0@, self.edges@[i as int].1);
            proof {
                assert(edges_view(self.edges@.take(i + 1)) =~= prefix.push(elem));
                lemma_filter_push(prefix, pred, elem);
            }
            if !keys_contain(keys, &self.edges[i].0) {
                let k = self.edges[i].0.duplicate();
                let ts = self.edges[i].1;
                kept.push((k, ts));
                proof {
                    assert(edges_view(kept@) =~= prefix.filter(pred).push(elem));
                }
            }
            i = i + 1;
        }
        proof {
            assert(self.edges@.take(n as int) =~= self.edges@);
        }
        self.edges = kept;
    }

    /// Removes every edge property owned by a listed key.
    fn remove_eprops_with_keys(&mut self, keys: &Vec<EdgeKey>)
        ensures
            final(self).v().edge_properties == old(self).v().edge_properties.filter(
                |p: ((EdgeKeyV, Seq<char>), serde_json::Value)|
                    !edge_keys_view(keys@).contains(p.0.0),
            ),
            final(self).vertices == old(self).vertices,
            final(self).vertex_properties == old(self).vertex_properties,
            final(self).edges == old(self).edges,
    {
        let ghost pred = |p: ((EdgeKeyV, Seq<char>), serde_json::Value)|
            !edge_keys_view(keys@).contains(p.0.0);
        let n = self.edge_properties.len();
        let mut kept: Vec<((EdgeKey, String), serde_json::Value)> = Vec::new();
        let mut i: usize = 0;
        proof {
            assert(eprops_view(self.edge_properties@.take(0)) =~= Seq::empty());
            assert(eprops_view(self.edge_properties@.take(0)).filter(pred) =~= Seq::empty());
        }
        while i < n
            invariant
                i <= n,
                n == self.edge_properties@.len(),
                eprops_view(kept@) == eprops_view(self.edge_properties@.take(i as int)).filter(
                    pred,
                ),
                pred == (|p: ((EdgeKeyV, Seq<char>), serde_json::Value)|
                    !edge_keys_view(keys@).contains(p.0.0)),
            decreases n - i,
        {
            let ghost prefix = eprops_view(self.edge_properties@.take(i as int));
            let ghost elem = (
                (self.edge_properties@[i as int].0.0@, self.edge_properties@[i as int].0.1@),
                self.edge_properties@[i as int].1,
            );
            proof {
                assert(eprops_view(self.edge_properties@.take(i + 1)) =~= prefix.push(elem));
                lemma_filter_push(prefix, pred, elem);
            }
            if !keys_contain(keys, &self.edge_properties[i].0.0) {
                let k = self.edge_properties[i].0.0.duplicate();
                let name = self.edge_properties[i].0.1.clone();
                let value = self.edge_properties[i].1.clone();
                kept.push(((k, name), value));
                proof {
                    assert(eprops_view(kept@) =~= prefix.filter(pred).push(elem));
                }
            }
            i = i + 1;
        }
        proof {
            assert(self.edge_properties@.take(n as int) =~= self.edge_properties@);
        }
        self.edge_properties = kept;
    }

    /// Removes every vertex whose identifier is listed.
    fn remove_vertices_in(&mut self, ids: &Vec<Identifier>)
        ensures
            final(self).v().vertices == old(self).v().vertices.filter(
                |p: (Identifier, Seq<char>)| !ids@.contains(p.0),
            ),
            final(self).edges == old(self).edges,
            final(self).vertex_properties == old(self).vertex_properties,
            final(self).edge_properties == old(self).edge_properties,
    {
        let ghost pred = |p: (Identifier, Seq<char>)| !ids@.contains(p.0);
        let n = self.vertices.len();
        let mut kept: Vec<(Identifier, Type)> = Vec::new();
        let mut i: usize = 0;
        proof {
            assert(vertices_view(self.vertices@.take(0)) =~= Seq::empty());
            assert(vertices_view(self.vertices@.take(0)).filter(pred) =~= Seq::empty());
        }
        while i < n
            invariant
                i <= n,
                n == self.vertices@.len(),
                vertices_view(kept@) == vertices_view(self.vertices@.take(i as int)).filter(pred),
                pred == (|p: (Identifier, Seq<char>)| !ids@.contains(p.0)),
            decreases n - i,
        {
            let ghost prefix = vertices_view(self.vertices@.take(i as int));
            let ghost elem = (self.vertices@[i as int].0, self.vertices@[i as int].1@);
            proof {
                assert(vertices_view(self.vertices@.take(i + 1)) =~= prefix.push(elem));
                lemma_filter_push(prefix, pred, elem);
            }
            if !ids_contain(ids, self.vertices[i].0) {
                let t = self.vertices[i].1.duplicate();
                let id = self.vertices[i].0;
                kept.push((id, t));
                proof {
                    assert(vertices_view(kept@) =~= prefix.filter(pred).push(elem));
                }
            }
            i = i + 1;
        }
        proof {
            assert(self.vertices@.take(n as int) =~= self.vertices@);
        }
        self.vertices = kept;
    }

    /// Removes every vertex property owned by a listed identifier.
    fn remove_vprops_owned_by(&mut self, ids: &Vec<Identifier>)
        ensures
            final(self).v().vertex_properties == old(self).v().vertex_properties.filter(
                |p: ((Identifier, Seq<char>), serde_json::Value)| !ids@.contains(p.0.0),
            ),
            final(self).vertices == old(self).vertices,
            final(self).edges == old(self).edges,
            final(self).edge_properties == old(self).edge_properties,
    {
        let ghost pred = |p: ((Identifier, Seq<char>), serde_json::Value)| !ids@.contains(p.0.0);
        let n = self.vertex_properties.len();
        let mut kept: Vec<((Identifier, String), serde_json::Value)> = Vec::new();
        let mut i: usize = 0;
        proof {
            assert(vprops_view(self.vertex_properties@.take(0)) =~= Seq::empty());
            assert(vprops_view(self.vertex_properties@.take(0)).filter(pred) =~= Seq::empty());
        }
        while i < n
            invariant
                i <= n,
                n == self.vertex_properties@.len(),
                vprops_view(kept@) == vprops_view(self.vertex_properties@.take(i as int)).filter(
                    pred,
                ),
                pred == (|p: ((Identifier, Seq<char>), serde_json::Value)| !ids@.contains(p.0.0)),
            decreases n - i,
        {
            let ghost prefix = vprops_view(self.vertex_properties@.take(i as int));
            let ghost elem = (
                (self.vertex_properties@[i as int].0.0, self.vertex_properties@[i as int].0.1@),
                self.vertex_properties@[i as int].1,
            );
            proof {
                assert(vprops_view(self.vertex_properties@.take(i + 1)) =~= prefix.push(elem));
                lemma_filter_push(prefix, pred, elem);
            }
            if !ids_contain(ids, self.vertex_properties[i].0.0) {
                let id = self.vertex_properties[i].0.0;
                let name = self.vertex_properties[i].0.1.clone();
                let value = self.vertex_properties[i].1.clone();
                kept.push(((id, name), value));
                proof {
                    assert(vprops_view(kept@) =~= prefix.filter(pred).push(elem));
                }
            }
            i = i + 1;
        }
        proof {
            assert(self.vertex_properties@.take(n as int) =~= self.vertex_properties@);
        }
        self.vertex_properties = kept;
    }
}

/// Removing a set of edge keys, together with the edge properties they
/// own, keeps the state well-formed.
proof fn lemma_remove_edge_keys_wf(st: StateV, kv: Seq<EdgeKeyV>)
    requires
        st.wf(),
    ensures
        (StateV {
            edges: st.edges.filter(|e: (EdgeKeyV, u64)| !kv.contains(e.0)),
            edge_properties: st.edge_properties.filter(
                |p: ((EdgeKeyV, Seq<char>), serde_json::Value)| !kv.contains(p.0.0),
            ),
            ..st
        }).wf(),
{
    let pred_e = |e: (EdgeKeyV, u64)| !kv.contains(e.0);
    let pred_p = |p: ((EdgeKeyV, Seq<char>), serde_json::Value)| !kv.contains(p.0.0);
    let newe = st.edges.filter(pred_e);
    let newp = st.edge_properties.filter(pred_p);
    lemma_filter_pairwise(st.edges, pred_e, |a: (EdgeKeyV, u64), b: (EdgeKeyV, u64)| key_lt(a.0, b.0));
    lemma_filter_pairwise(
        st.edge_properties,
        pred_p,
        |a: ((EdgeKeyV, Seq<char>), serde_json::Value),
            b: ((EdgeKeyV, Seq<char>), serde_json::Value)| a.0 != b.0,
    );
    assert forall|j: int| 0 <= j < newe.len() implies has_vertex(
        st.vertices,
        (#[trigger] newe[j]).0.outbound_id,
    ) && has_vertex(st.vertices, newe[j].0.inbound_id) by {
        let a = lemma_filter_origin(st.edges, pred_e, j);
    }
    assert forall|j: int| 0 <= j < newp.len() implies has_edge(newe, (#[trigger] newp[j]).0.0) by {
        let a = lemma_filter_origin(st.edge_properties, pred_p, j);
        let p = st.edge_properties[a];
        assert(has_edge(st.edges, p.0.0));
        let w = choose|w: int| 0 <= w < st.edges.len() && (#[trigger] st.edges[w]).0 == p.0.0;
        assert(pred_e(st.edges[w]));
        st.edges.lemma_filter_contains(pred_e, w);
        let m = choose|m: int| 0 <= m < newe.len() && (#[trigger] newe[m]) == st.edges[w];
    }
}

impl InternalState {
    /// The vertices answering to the ids, in the order given; missing ids
    /// are dropped.
    fn collect_vertex_lookups(&self, ids: &Vec<Identifier>) -> (r: Vec<(Identifier, Type)>)
        ensures
            vertices_view(r@) == vertex_lookups(self.v().vertices, ids@),
    {
        let ghost st = self.v();
        let n = ids.len();
        let mut results: Vec<(Identifier, Type)> = Vec::new();
        let mut k: usize = 0;
        proof {
            assert(ids@.take(0) =~= Seq::empty());
            assert(vertices_view(results@) =~= vertex_lookups(st.vertices, ids@.take(0)));
        }
        while k < n
            invariant
                k <= n,
                n == ids@.len(),
                st == self.v(),
                vertices_view(results@) == vertex_lookups(st.vertices, ids@.take(k as int)),
            decreases n - k,
        {
            let ghost before = vertices_view(results@);
            proof {
                lemma_vertex_lookups_push(st.vertices, ids@.take(k as int), ids@[k as int]);
                assert(ids@.take(k + 1) =~= ids@.take(k as int).push(ids@[k as int]));
            }
            match self.lookup_vertex(ids[k]) {
                Some(t) => {
                    results.push((ids[k], t));
                    proof {
                        assert(vertices_view(results@) =~= before.push(
                            (ids@[k as int], find_vertex(st.vertices, ids@[k as int]).unwrap()),
                        ));
                    }
                },
                None => {},
            }
            k = k + 1;
        }
        proof {
            assert(ids@.take(n as int) =~= ids@);
        }
        results
    }

    /// The first `limit` vertices in identifier order, skipping, when a
    /// start is given, to the first vertex whose id is at least it.
    fn collect_all_vertices(&self, start_id: &Option<Identifier>, limit: u32) -> (r: Vec<
        (Identifier, Type),
    >)
        requires
            self.wf(),
        ensures
            vertices_view(r@) == take_limit(
                match start_id {
                    None => self.v().vertices,
                    Some(sid) => self.v().vertices.filter(
                        |p: (Identifier, Seq<char>)| p.0.0 >= sid.0,
                    ),
                },
                limit as nat,
            ),
    {
        let ghost st = self.v();
        let n = self.vertices.len();
        let mut results: Vec<(Identifier, Type)> = Vec::new();
        match start_id {
            None => {
                let mut j: usize = 0;
                proof {
                    assert(vertices_view(results@) =~= st.vertices.take(0));
                }
                while j < n && j < limit as usize
                    invariant
                        j <= n,
                        j <= limit as usize,
                        n == self.vertices@.len(),
                        st == self.v(),
                        vertices_view(results@) == st.vertices.take(j as int),
                    decreases n - j,
                {
                    let ghost before = vertices_view(results@);
                    let id = self.vertices[j].0;
                    let t = self.vertices[j].1.duplicate();
                    results.push((id, t));
                    proof {
                        assert(vertices_view(results@) =~= before.push(st.vertices[j as int]));
                        assert(before.push(st.vertices[j as int]) =~= st.vertices.take(j + 1));
                    }
                    j = j + 1;
                }
                proof {
                    if j == n {
                        assert(st.vertices.take(n as int) =~= st.vertices);
                    }
                }
                results
            },
            Some(sid) => {
                let sid = *sid;
                let mut i: usize = 0;
                while i < n && self.vertices[i].0.0 < sid.0
                    invariant
                        i <= n,
                        n == self.vertices@.len(),
                        st == self.v(),
                        forall|j: int| 0 <= j < i ==> (#[trigger] st.vertices[j]).0.0 < sid.0,
                    decreases n - i,
                {
                    i = i + 1;
                }
                let ghost pred = |p: (Identifier, Seq<char>)| p.0.0 >= sid.0;
                proof {
                    lemma_filter_none(st.vertices.take(i as int), pred);
                    assert forall|j: int|
                        0 <= j < st.vertices.skip(i as int).len() implies pred(
                        #[trigger] st.vertices.skip(i as int)[j],
                    ) by {
                        assert(st.vertices.skip(i as int)[j] == st.vertices[i + j]);
                        if i < n && i + j > i {
                            assert(st.vertices[i as int].0.0 < st.vertices[i + j].0.0);
                        }
                    }
                    lemma_filter_all_true(st.vertices.skip(i as int), pred);
                    assert(st.vertices.take(i as int) + st.vertices.skip(i as int) =~= st.vertices);
                    lemma_filter_append(st.vertices.take(i as int), st.vertices.skip(i as int), pred);
                    assert(st.vertices.filter(pred) =~= st.vertices.skip(i as int));
                }
                let mut j: usize = i;
                proof {
                    assert(vertices_view(results@) =~= st.vertices.subrange(i as int, i as int));
                }
                while j < n && (j - i) < limit as usize
                    invariant
                        i <= j <= n,
                        j - i <= limit as usize,
                        n == self.vertices@.len(),
                        st == self.v(),
                        vertices_view(results@) == st.vertices.subrange(i as int, j as int),
                    decreases n - j,
                {
                    let ghost before = vertices_view(results@);
                    let id = self.vertices[j].0;
                    let t = self.vertices[j].1.duplicate();
                    results.push((id, t));
                    proof {
                        assert(vertices_view(results@) =~= before.push(st.vertices[j as int]));
                        assert(before.push(st.vertices[j as int]) =~= st.vertices.subrange(
                            i as int,
                            j + 1,
                        ));
                    }
                    j = j + 1;
                }
                proof {
                    let suffix = st.vertices.skip(i as int);
                    if j == n {
                        assert(st.vertices.subrange(i as int, n as int) =~= suffix);
                        assert(suffix.len() <= limit as nat);
                    } else {
                        assert(st.vertices.subrange(i as int, j as int) =~= suffix.take(
                            limit as int,
                        ));
                    }
                }
                results
            },
        }
    }

    /// Evaluates a vertex query: identifier and type of each matching
    /// vertex, in query order.
    #[verifier::rlimit(80)]
    pub fn get_vertex_values_by_query(&self, q: &VertexQuery) -> (r: Vec<(Identifier, Type)>)
        requires
            self.wf(),
        ensures
            vertices_view(r@) == eval_vq(self.v(), q.qview()),
        decreases q,
    {
        let ghost st = self.v();
        match q {
            VertexQuery::All { start_id, limit } => self.collect_all_vertices(
                start_id,
                *limit,
            ),
            VertexQuery::Vertices { ids } => self.collect_vertex_lookups(ids),
            VertexQuery::Pipe { edge_query, converter, limit } => {
                let limit = *limit;
                let edge_values = self.get_edge_values_by_query(edge_query);
                let ghost evs = edges_view(edge_values@);
                let ghost conv = *converter;
                let ghost f = |e: (EdgeKeyV, u64)|
                    match conv {
                        EdgeDirection::Outbound => e.0.outbound_id,
                        EdgeDirection::Inbound => e.0.inbound_id,
                    };
                let en = edge_values.len();
                let mut ids: Vec<Identifier> = Vec::new();
                let mut j: usize = 0;
                proof {
                    assert(ids@ =~= evs.map_values(f).take(0));
                }
                while j < en && j < limit as usize
                    invariant
                        j <= en,
                        j <= limit as usize,
                        en == edge_values@.len(),
                        evs == edges_view(edge_values@),
                        conv == *converter,
                        f == (|e: (EdgeKeyV, u64)|
                            match conv {
                                EdgeDirection::Outbound => e.0.outbound_id,
                                EdgeDirection::Inbound => e.0.inbound_id,
                            }),
                        ids@ == evs.map_values(f).take(j as int),
                    decreases en - j,
                {
                    let ghost before = ids@;
                    let id = match converter {
                        EdgeDirection::Outbound => edge_values[j].0.outbound_id,
                        EdgeDirection::Inbound => edge_values[j].0.inbound_id,
                    };
                    ids.push(id);
                    proof {
                        match conv {
                            EdgeDirection::Outbound => {
                                assert(id == evs[j as int].0.outbound_id);
                            },
                            EdgeDirection::Inbound => {
                                assert(id == evs[j as int].0.inbound_id);
                            },
                        }
                        assert(id == f(evs[j as int]));
                        assert(ids@ =~= before.push(f(evs[j as int])));
                        assert(before.push(f(evs[j as int])) =~= evs.map_values(f).take(j + 1));
                    }
                    j = j + 1;
                }
                proof {
                    if j == en {
                        assert(evs.map_values(f).take(en as int) =~= evs.map_values(f));
                    }
                    assert(ids@ == take_limit(evs.map_values(f), limit as nat));
                }
                self.collect_vertex_lookups(&ids)
            },
        }
    }
}

/// Whether one of the result rows carries the identifier.
fn rows_contain(rows: &Vec<(Identifier, Type)>, id: Identifier) -> (r: bool)
    ensures
        r == vertices_view(rows@).map_values(|p: (Identifier, Seq<char>)| p.0).contains(id),
{
    let ghost srcs = vertices_view(rows@).map_values(|p: (Identifier, Seq<char>)| p.0);
    let n = rows.len();
    let mut i: usize = 0;
    while i < n
        invariant
            i <= n,
            n == rows@.len(),
            srcs == vertices_view(rows@).map_values(|p: (Identifier, Seq<char>)| p.0),
            forall|j: int| 0 <= j < i ==> srcs[j] != id,
        decreases n - i,
    {
        if rows[i].0.0 == id.0 {
            proof {
                assert(srcs[i as int] == id);
            }
            return true;
        }
        i = i + 1;
    }
    proof {
        assert(forall|j: int| 0 <= j < srcs.len() ==> srcs[j] != id);
    }
    false
}

impl InternalState {
    /// Whether an edge row passes the type and time filters.
    fn edge_filters_pass(
        row_key: &EdgeKey,
        row_ts: u64,
        type_filter: &Option<Type>,
        high_filter: Option<u64>,
        low_filter: Option<u64>,
    ) -> (r: bool)
        ensures
            r == ({
                let tf = match type_filter {
                    Some(t) => Some(t@),
                    None => None,
                };
                type_ok(row_key@, tf) && time_ok(row_ts, high_filter, low_filter)
            }),
    {
        let type_pass = match type_filter {
            Some(t) => str_eq(row_key.t.as_str(), t.as_str()),
            None => true,
        };
        let high_pass = match high_filter {
            Some(h) => row_ts <= h,
            None => true,
        };
        let low_pass = match low_filter {
            Some(l) => row_ts >= l,
            None => true,
        };
        type_pass && high_pass && low_pass
    }

    /// Evaluates an edge query: key and creation time of each matching
    /// edge, in query order.
    #[verifier::rlimit(80)]
    pub fn get_edge_values_by_query(&self, q: &EdgeQuery) -> (r: Vec<(EdgeKey, u64)>)
        requires
            self.wf(),
        ensures
            edges_view(r@) == eval_eq(self.v(), q.qview()),
        decreases q,
    {
        let ghost st = self.v();
        match q {
            EdgeQuery::Edges { keys } => {
                let ghost keys_v = edge_keys_view(keys@);
                let n = keys.len();
                let mut results: Vec<(EdgeKey, u64)> = Vec::new();
                let mut k: usize = 0;
                proof {
                    assert(keys_v.take(0) =~= Seq::empty());
                    assert(edges_view(results@) =~= edge_lookups(st.edges, keys_v.take(0)));
                }
                while k < n
                    invariant
                        k <= n,
                        n == keys@.len(),
                        st == self.v(),
                        keys_v == edge_keys_view(keys@),
                        edges_view(results@) == edge_lookups(st.edges, keys_v.take(k as int)),
                    decreases n - k,
                {
                    let ghost before = edges_view(results@);
                    proof {
                        lemma_edge_lookups_push(st.edges, keys_v.take(k as int), keys_v[k as int]);
                        assert(keys_v.take(k + 1) =~= keys_v.take(k as int).push(keys_v[k as int]));
                    }
                    match self.lookup_edge(&keys[k]) {
                        Some(ts) => {
                            let kk = keys[k].duplicate();
                            results.push((kk, ts));
                            proof {
                                assert(edges_view(results@) =~= before.push(
                                    (keys_v[k as int], ts),
                                ));
                            }
                        },
                        None => {},
                    }
                    k = k + 1;
                }
                proof {
                    assert(keys_v.take(n as int) =~= keys_v);
                }
                results
            },
            EdgeQuery::Pipe {
                vertex_query,
                converter,
                type_filter,
                high_filter,
                low_filter,
                limit,
            } => {
                let limit = *limit;
                let high_filter = *high_filter;
                let low_filter = *low_filter;
                let vertex_values = self.get_vertex_values_by_query(vertex_query);
                let ghost srcs = vertices_view(vertex_values@).map_values(
                    |p: (Identifier, Seq<char>)| p.0,
                );
                let ghost tf = match type_filter {
                    Some(t) => Some(t@),
                    None => None,
                };
                let mut results: Vec<(EdgeKey, u64)> = Vec::new();
                if limit == 0 {
                    proof {
                        assert(edges_view(results@) =~= Seq::empty());
                        let full = match *converter {
                            EdgeDirection::Outbound => outbound_concat(
                                st.edges,
                                srcs,
                                tf,
                                high_filter,
                                low_filter,
                            ),
                            EdgeDirection::Inbound => st.edges.filter(
                                |e: (EdgeKeyV, u64)|
                                    in_matches(e, srcs, tf, high_filter, low_filter),
                            ),
                        };
                        assert(take_limit(full, 0) =~= Seq::<(EdgeKeyV, u64)>::empty());
                    }
                    return results;
                }
                match converter {
                    EdgeDirection::Outbound => {
                        let sn = vertex_values.len();
                        let en = self.edges.len();
                        let mut s: usize = 0;
                        proof {
                            assert(srcs.take(0) =~= Seq::empty());
                            assert(edges_view(results@) =~= outbound_concat(
                                st.edges,
                                srcs.take(0),
                                tf,
                                high_filter,
                                low_filter,
                            ));
                        }
                        while s < sn
                            invariant
                                s <= sn,
                                sn == vertex_values@.len(),
                                en == self.edges@.len(),
                                st == self.v(),
                                limit > 0,
                                srcs == vertices_view(vertex_values@).map_values(
                                    |p: (Identifier, Seq<char>)| p.0,
                                ),
                                tf == (match type_filter {
                                    Some(t) => Some(t@),
                                    None => None,
                                }),
                                vertices_view(vertex_values@) == eval_vq(
                                    st,
                                    (**vertex_query).qview(),
                                ),
                                q.qview() == (EdgeQueryV::Pipe {
                                    vertex_query: Box::new((**vertex_query).qview()),
                                    converter: EdgeDirection::Outbound,
                                    type_filter: tf,
                                    high_filter: high_filter,
                                    low_filter: low_filter,
                                    limit: limit,
                                }),
                                results@.len() < limit as nat,
                                edges_view(results@) == outbound_concat(
                                    st.edges,
                                    srcs.take(s as int),
                                    tf,
                                    high_filter,
                                    low_filter,
                                ),
                            decreases sn - s,
                        {
                            let src = vertex_values[s].0;
                            let ghost cur = |e: (EdgeKeyV, u64)|
                                out_matches(e, srcs[s as int], tf, high_filter, low_filter);
                            let ghost done = outbound_concat(
                                st.edges,
                                srcs.take(s as int),
                                tf,
                                high_filter,
                                low_filter,
                            );
                            let mut j: usize = 0;
                            proof {
                                assert(srcs[s as int] == src);
                                assert(st.edges.take(0).filter(cur) =~= Seq::empty());
                                assert(edges_view(results@) =~= done + st.edges.take(0).filter(
                                    cur,
                                ));
                            }
                            while j < en
                                invariant
                                    j <= en,
                                    s < sn,
                                    sn == vertex_values@.len(),
                                    en == self.edges@.len(),
                                    st == self.v(),
                                    limit > 0,
                                    srcs == vertices_view(vertex_values@).map_values(
                                        |p: (Identifier, Seq<char>)| p.0,
                                    ),
                                    tf == (match type_filter {
                                        Some(t) => Some(t@),
                                        None => None,
                                    }),
                                    vertices_view(vertex_values@) == eval_vq(
                                        st,
                                        (**vertex_query).qview(),
                                    ),
                                    q.qview() == (EdgeQueryV::Pipe {
                                        vertex_query: Box::new((**vertex_query).qview()),
                                        converter: EdgeDirection::Outbound,
                                        type_filter: tf,
                                        high_filter: high_filter,
                                        low_filter: low_filter,
                                        limit: limit,
                                    }),
                                    srcs[s as int] == vertex_values@[s as int].0,
                                    src == srcs[s as int],
                                    cur == (|e: (EdgeKeyV, u64)|
                                        out_matches(
                                            e,
                                            srcs[s as int],
                                            tf,
                                            high_filter,
                                            low_filter,
                                        )),
                                    done == outbound_concat(
                                        st.edges,
                                        srcs.take(s as int),
                                        tf,
                                        high_filter,
                                        low_filter,
                                    ),
                                    results@.len() < limit as nat,
                                    edges_view(results@) == done + st.edges.take(j as int).filter(
                                        cur,
                                    ),
                                decreases en - j,
                            {
                                let ghost prefix = st.edges.take(j as int);
                                let ghost elem = st.edges[j as int];
                                proof {
                                    assert(st.edges.take(j + 1) =~= prefix.push(elem));
                                    lemma_filter_push(prefix, cur, elem);
                                }
                                let matches_src = self.edges[j].0.outbound_id.0 == src.0;
                                if matches_src && Self::edge_filters_pass(
                                    &self.edges[j].0,
                                    self.edges[j].1,
                                    type_filter,
                                    high_filter,
                                    low_filter,
                                ) {
                                    let ghost before = edges_view(results@);
                                    let kk = self.edges[j].0.duplicate();
                                    let ts = self.edges[j].1;
                                    results.push((kk, ts));
                                    proof {
                                        assert(edges_view(results@) =~= before.push(elem));
                                    }
                                    if results.len() == limit as usize {
                                        proof {
                                            assert(cur(elem));
                                            assert(st.edges.take(j + 1).filter(cur)
                                                =~= st.edges.take(j as int).filter(cur).push(
                                                elem,
                                            ));
                                            assert(edges_view(results@) =~= done + st.edges.take(
                                                j + 1,
                                            ).filter(cur));
                                            assert(edges_view(results@).len() == limit as nat);
                                            lemma_outbound_limit_reached(
                                                st.edges,
                                                srcs,
                                                s as int,
                                                j + 1,
                                                tf,
                                                high_filter,
                                                low_filter,
                                                limit as nat,
                                            );
                                            assert(srcs == eval_vq(
                                                st,
                                                (**vertex_query).qview(),
                                            ).map_values(|p: (Identifier, Seq<char>)| p.0));
                                            assert(edges_view(results@) == eval_eq(
                                                st,
                                                q.qview(),
                                            ));
                                        }
                                        return results;
                                    }
                                }
                                j = j + 1;
                            }
                            proof {
                                assert(st.edges.take(en as int) =~= st.edges);
                                assert(srcs.take(s + 1) =~= srcs.take(s as int).push(
                                    srcs[s as int],
                                ));
                                lemma_outbound_concat_push(
                                    st.edges,
                                    srcs.take(s as int),
                                    srcs[s as int],
                                    tf,
                                    high_filter,
                                    low_filter,
                                );
                            }
                            s = s + 1;
                        }
                        proof {
                            assert(srcs.take(sn as int) =~= srcs);
                        }
                        results
                    },
                    EdgeDirection::Inbound => {
                        let ghost inp = |e: (EdgeKeyV, u64)|
                            in_matches(e, srcs, tf, high_filter, low_filter);
                        let en = self.edges.len();
                        let mut j: usize = 0;
                        proof {
                            assert(st.edges.take(0).filter(inp) =~= Seq::empty());
                            assert(edges_view(results@) =~= st.edges.take(0).filter(inp));
                        }
                        while j < en
                            invariant
                                j <= en,
                                en == self.edges@.len(),
                                st == self.v(),
                                limit > 0,
                                srcs == vertices_view(vertex_values@).map_values(
                                    |p: (Identifier, Seq<char>)| p.0,
                                ),
                                tf == (match type_filter {
                                    Some(t) => Some(t@),
                                    None => None,
                                }),
                                vertices_view(vertex_values@) == eval_vq(
                                    st,
                                    (**vertex_query).qview(),
                                ),
                                q.qview() == (EdgeQueryV::Pipe {
                                    vertex_query: Box::new((**vertex_query).qview()),
                                    converter: EdgeDirection::Inbound,
                                    type_filter: tf,
                                    high_filter: high_filter,
                                    low_filter: low_filter,
                                    limit: limit,
                                }),
                                inp == (|e: (EdgeKeyV, u64)|
                                    in_matches(e, srcs, tf, high_filter, low_filter)),
                                results@.len() < limit as nat,
                                edges_view(results@) == st.edges.take(j as int).filter(inp),
                            decreases en - j,
                        {
                            let ghost prefix = st.edges.take(j as int);
                            let ghost elem = st.edges[j as int];
                            proof {
                                assert(st.edges.take(j + 1) =~= prefix.push(elem));
                                lemma_filter_push(prefix, inp, elem);
                            }
                            let member = rows_contain(&vertex_values, self.edges[j].0.inbound_id);
                            if member && Self::edge_filters_pass(
                                &self.edges[j].0,
                                self.edges[j].1,
                                type_filter,
                                high_filter,
                                low_filter,
                            ) {
                                let ghost before = edges_view(results@);
                                let kk = self.edges[j].0.duplicate();
                                let ts = self.edges[j].1;
                                results.push((kk, ts));
                                proof {
                                    assert(edges_view(results@) =~= before.push(elem));
                                }
                                if results.len() == limit as usize {
                                    proof {
                                        assert(inp(elem));
                                        assert(st.edges.take(j + 1).filter(inp) =~= st.edges.take(
                                            j as int,
                                        ).filter(inp).push(elem));
                                        assert(edges_view(results@) =~= st.edges.take(
                                            j + 1,
                                        ).filter(inp));
                                        let full = st.edges.filter(inp);
                                        assert(st.edges.take(j + 1) + st.edges.skip(j + 1)
                                            =~= st.edges);
                                        lemma_filter_append(
                                            st.edges.take(j + 1),
                                            st.edges.skip(j + 1),
                                            inp,
                                        );
                                        assert(full.take(limit as int) =~= st.edges.take(
                                            j + 1,
                                        ).filter(inp));
                                        assert(full.len() >= limit as nat);
                                        assert(srcs == eval_vq(
                                            st,
                                            (**vertex_query).qview(),
                                        ).map_values(|p: (Identifier, Seq<char>)| p.0));
                                        assert(edges_view(results@) == eval_eq(st, q.qview()));
                                    }
                                    return results;
                                }
                            }
                            j = j + 1;
                        }
                        proof {
                            assert(st.edges.take(en as int) =~= st.edges);
                        }
                        results
                    },
                }
            },
        }
    }
}

/// When the first `i` entries all miss the key, the search continues in
/// the rest.
proof fn lemma_find_vprop_skip(
    props: Seq<((Identifier, Seq<char>), serde_json::Value)>,
    key: (Identifier, Seq<char>),
    i: int,
)
    requires
        0 <= i <= props.len(),
        forall|j: int| 0 <= j < i ==> (#[trigger] props[j]).0 != key,
    ensures
        find_vprop(props, key) == find_vprop(props.skip(i), key),
    decreases i,
{
    if i > 0 {
        assert(props[0].0 != key);
        lemma_find_vprop_skip(props.drop_first(), key, i - 1);
        assert(props.drop_first().skip(i - 1) =~= props.skip(i));
    } else {
        assert(props.skip(0) =~= props);
    }
}

/// When the first `i` entries all miss the key, the search continues in
/// the rest.
proof fn lemma_find_eprop_skip(
    props: Seq<((EdgeKeyV, Seq<char>), serde_json::Value)>,
    key: (EdgeKeyV, Seq<char>),
    i: int,
)
    requires
        0 <= i <= props.len(),
        forall|j: int| 0 <= j < i ==> (#[trigger] props[j]).0 != key,
    ensures
        find_eprop(props, key) == find_eprop(props.skip(i), key),
    decreases i,
{
    if i > 0 {
        assert(props[0].0 != key);
        lemma_find_eprop_skip(props.drop_first(), key, i - 1);
        assert(props.drop_first().skip(i - 1) =~= props.skip(i));
    } else {
        assert(props.skip(0) =~= props);
    }
}

/// Reading one more row appends its property, if it has one.
proof fn lemma_get_vprops_push(
    props: Seq<((Identifier, Seq<char>), serde_json::Value)>,
    rows: Seq<(Identifier, Seq<char>)>,
    name: Seq<char>,
    x: (Identifier, Seq<char>),
)
    ensures
        get_vprops(props, rows.push(x), name) == match find_vprop(props, (x.0, name)) {
            Some(v) => get_vprops(props, rows, name).push((x.0, v)),
            None => get_vprops(props, rows, name),
        },
    decreases rows.len(),
{
    reveal_with_fuel(get_vprops, 3);
    if rows.len() == 0 {
        assert(rows.push(x)[0] == x);
        assert(rows.push(x).drop_first() =~= Seq::empty());
        match find_vprop(props, (x.0, name)) {
            Some(v) => {
                assert(get_vprops(props, rows.push(x), name) =~= get_vprops(
                    props,
                    rows,
                    name,
                ).push((x.0, v)));
            },
            None => {},
        }
    } else {
        assert(rows.push(x)[0] == rows[0]);
        assert(rows.push(x).drop_first() =~= rows.drop_first().push(x));
        lemma_get_vprops_push(props, rows.drop_first(), name, x);
        match find_vprop(props, (x.0, name)) {
            Some(v) => {
                match find_vprop(props, (rows[0].0, name)) {
                    Some(v0) => {
                        assert(seq![(rows[0].0, v0)] + get_vprops(
                            props,
                            rows.drop_first(),
                            name,
                        ).push((x.0, v)) =~= (seq![(rows[0].0, v0)] + get_vprops(
                            props,
                            rows.drop_first(),
                            name,
                        )).push((x.0, v)));
                    },
                    None => {},
                }
            },
            None => {},
        }
    }
}

/// Reading one more row appends its property, if it has one.
proof fn lemma_get_eprops_push(
    props: Seq<((EdgeKeyV, Seq<char>), serde_json::Value)>,
    rows: Seq<(EdgeKeyV, u64)>,
    name: Seq<char>,
    x: (EdgeKeyV, u64),
)
    ensures
        get_eprops(props, rows.push(x), name) == match find_eprop(props, (x.0, name)) {
            Some(v) => get_eprops(props, rows, name).push((x.0, v)),
            None => get_eprops(props, rows, name),
        },
    decreases rows.len(),
{
    reveal_with_fuel(get_eprops, 3);
    if rows.len() == 0 {
        assert(rows.push(x)[0] == x);
        assert(rows.push(x).drop_first() =~= Seq::empty());
        match find_eprop(props, (x.0, name)) {
            Some(v) => {
                assert(get_eprops(props, rows.push(x), name) =~= get_eprops(
                    props,
                    rows,
                    name,
                ).push((x.0, v)));
            },
            None => {},
        }
    } else {
        assert(rows.push(x)[0] == rows[0]);
        assert(rows.push(x).drop_first() =~= rows.drop_first().push(x));
        lemma_get_eprops_push(props, rows.drop_first(), name, x);
        match find_eprop(props, (x.0, name)) {
            Some(v) => {
                match find_eprop(props, (rows[0].0, name)) {
                    Some(v0) => {
                        assert(seq![(rows[0].0, v0)] + get_eprops(
                            props,
                            rows.drop_first(),
                            name,
                        ).push((x.0, v)) =~= (seq![(rows[0].0, v0)] + get_eprops(
                            props,
                            rows.drop_first(),
                            name,
                        )).push((x.0, v)));
                    },
                    None => {},
                }
            },
            None => {},
        }
    }
}

/// Where the upsert lands: in place at the first matching key, or at the
/// end when no key matches.
proof fn lemma_upsert_vprop_at(
    props: Seq<((Identifier, Seq<char>), serde_json::Value)>,
    key: (Identifier, Seq<char>),
    val: serde_json::Value,
    i: int,
)
    requires
        0 <= i <= props.len(),
        forall|j: int| 0 <= j < i ==> (#[trigger] props[j]).0 != key,
        i < props.len() ==> props[i].0 == key,
    ensures
        i < props.len() ==> upsert_vprop(props, key, val) == props.update(i, (key, val)),
        i == props.len() ==> upsert_vprop(props, key, val) == props.push((key, val)),
    decreases i,
{
    if i == 0 {
        if props.len() > 0 {
            assert(upsert_vprop(props, key, val) =~= props.update(0, (key, val)));
        } else {
            assert(upsert_vprop(props, key, val) =~= props.push((key, val)));
        }
    } else {
        let d = props.drop_first();
        assert(forall|j: int| 0 <= j < i - 1 ==> (#[trigger] d[j]).0 != key) by {
            assert(forall|j: int| 0 <= j < i - 1 ==> d[j] == props[j + 1]);
        }
        if i < props.len() {
            assert(d[i - 1] == props[i]);
        }
        lemma_upsert_vprop_at(d, key, val, i - 1);
        assert(props[0].0 != key);
        if i < props.len() {
            assert(seq![props[0]] + d.update(i - 1, (key, val)) =~= props.update(i, (key, val)));
        } else {
            assert(seq![props[0]] + d.push((key, val)) =~= props.push((key, val)));
        }
    }
}

/// Where the upsert lands: in place at the first matching key, or at the
/// end when no key matches.
proof fn lemma_upsert_eprop_at(
    props: Seq<((EdgeKeyV, Seq<char>), serde_json::Value)>,
    key: (EdgeKeyV, Seq<char>),
    val: serde_json::Value,
    i: int,
)
    requires
        0 <= i <= props.len(),
        forall|j: int| 0 <= j < i ==> (#[trigger] props[j]).0 != key,
        i < props.len() ==> props[i].0 == key,
    ensures
        i < props.len() ==> upsert_eprop(props, key, val) == props.update(i, (key, val)),
        i == props.len() ==> upsert_eprop(props, key, val) == props.push((key, val)),
    decreases i,
{
    if i == 0 {
        if props.len() > 0 {
            assert(upsert_eprop(props, key, val) =~= props.update(0, (key, val)));
        } else {
            assert(upsert_eprop(props, key, val) =~= props.push((key, val)));
        }
    } else {
        let d = props.drop_first();
        assert(forall|j: int| 0 <= j < i - 1 ==> (#[trigger] d[j]).0 != key) by {
            assert(forall|j: int| 0 <= j < i - 1 ==> d[j] == props[j + 1]);
        }
        if i < props.len() {
            assert(d[i - 1] == props[i]);
        }
        lemma_upsert_eprop_at(d, key, val, i - 1);
        assert(props[0].0 != key);
        if i < props.len() {
            assert(seq![props[0]] + d.update(i - 1, (key, val)) =~= props.update(i, (key, val)));
        } else {
            assert(seq![props[0]] + d.push((key, val)) =~= props.push((key, val)));
        }
    }
}

/// Upserting one more row folds onto the end.
proof fn lemma_upsert_vprops_all_push(
    props: Seq<((Identifier, Seq<char>), serde_json::Value)>,
    rows: Seq<(Identifier, Seq<char>)>,
    name: Seq<char>,
    val: serde_json::Value,
    x: (Identifier, Seq<char>),
)
    ensures
        upsert_vprops_all(props, rows.push(x), name, val) == upsert_vprop(
            upsert_vprops_all(props, rows, name, val),
            (x.0, name),
            val,
        ),
    decreases rows.len(),
{
    reveal_with_fuel(upsert_vprops_all, 3);
    if rows.len() == 0 {
        assert(rows.push(x)[0] == x);
        assert(rows.push(x).drop_first() =~= Seq::empty());
    } else {
        assert(rows.push(x)[0] == rows[0]);
        assert(rows.push(x).drop_first() =~= rows.drop_first().push(x));
        lemma_upsert_vprops_all_push(
            upsert_vprop(props, (rows[0].0, name), val),
            rows.drop_first(),
            name,
            val,
            x,
        );
    }
}

/// Upserting one more row folds onto the end.
proof fn lemma_upsert_eprops_all_push(
    props: Seq<((EdgeKeyV, Seq<char>), serde_json::Value)>,
    rows: Seq<(EdgeKeyV, u64)>,
    name: Seq<char>,
    val: serde_json::Value,
    x: (EdgeKeyV, u64),
)
    ensures
        upsert_eprops_all(props, rows.push(x), name, val) == upsert_eprop(
            upsert_eprops_all(props, rows, name, val),
            (x.0, name),
            val,
        ),
    decreases rows.len(),
{
    reveal_with_fuel(upsert_eprops_all, 3);
    if rows.len() == 0 {
        assert(rows.push(x)[0] == x);
        assert(rows.push(x).drop_first() =~= Seq::empty());
    } else {
        assert(rows.push(x)[0] == rows[0]);
        assert(rows.push(x).drop_first() =~= rows.drop_first().push(x));
        lemma_upsert_eprops_all_push(
            upsert_eprop(props, (rows[0].0, name), val),
            rows.drop_first(),
            name,
            val,
            x,
        );
    }
}

/// Every row a lookup returns carries the stored type of its identifier.
proof fn lemma_vertex_lookups_members(vs: Seq<(Identifier, Seq<char>)>, ids: Seq<Identifier>)
    ensures
        forall|i: int|
            0 <= i < vertex_lookups(vs, ids).len() ==> find_vertex(
                vs,
                (#[trigger] vertex_lookups(vs, ids)[i]).0,
            ) == Some(vertex_lookups(vs, ids)[i].1),
    decreases ids.len(),
{
    if ids.len() > 0 {
        lemma_vertex_lookups_members(vs, ids.drop_first());
        let rest = vertex_lookups(vs, ids.drop_first());
        match find_vertex(vs, ids[0]) {
            Some(t) => {
                assert forall|i: int|
                    0 <= i < vertex_lookups(vs, ids).len() implies find_vertex(
                    vs,
                    (#[trigger] vertex_lookups(vs, ids)[i]).0,
                ) == Some(vertex_lookups(vs, ids)[i].1) by {
                    if i > 0 {
                        assert(vertex_lookups(vs, ids)[i] == rest[i - 1]);
                    }
                }
            },
            None => {},
        }
    }
}

/// Every row an edge lookup returns carries the stored time of its key.
proof fn lemma_edge_lookups_members(es: Seq<(EdgeKeyV, u64)>, keys: Seq<EdgeKeyV>)
    ensures
        forall|i: int|
            0 <= i < edge_lookups(es, keys).len() ==> find_edge(
                es,
                (#[trigger] edge_lookups(es, keys)[i]).0,
            ) == Some(edge_lookups(es, keys)[i].1),
    decreases keys.len(),
{
    if keys.len() > 0 {
        lemma_edge_lookups_members(es, keys.drop_first());
        let rest = edge_lookups(es, keys.drop_first());
        match find_edge(es, keys[0]) {
            Some(t) => {
                assert forall|i: int|
                    0 <= i < edge_lookups(es, keys).len() implies find_edge(
                    es,
                    (#[trigger] edge_lookups(es, keys)[i]).0,
                ) == Some(edge_lookups(es, keys)[i].1) by {
                    if i > 0 {
                        assert(edge_lookups(es, keys)[i] == rest[i - 1]);
                    }
                }
            },
            None => {},
        }
    }
}

/// In a sorted edge table, every entry the per-source concatenation
/// returns carries the stored creation time of its key.
proof fn lemma_outbound_concat_members(
    es: Seq<(EdgeKeyV, u64)>,
    srcs: Seq<Identifier>,
    tf: Option<Seq<char>>,
    hi: Option<u64>,
    lo: Option<u64>,
)
    requires
        edges_sorted(es),
    ensures
        forall|i: int|
            0 <= i < outbound_concat(es, srcs, tf, hi, lo).len() ==> find_edge(
                es,
                (#[trigger] outbound_concat(es, srcs, tf, hi, lo)[i]).0,
            ) == Some(outbound_concat(es, srcs, tf, hi, lo)[i].1),
    decreases srcs.len(),
{
    if srcs.len() > 0 {
        lemma_outbound_concat_members(es, srcs.drop_first(), tf, hi, lo);
        let cur = es.filter(|e: (EdgeKeyV, u64)| out_matches(e, srcs[0], tf, hi, lo));
        let rest = outbound_concat(es, srcs.drop_first(), tf, hi, lo);
        assert forall|i: int|
            0 <= i < outbound_concat(es, srcs, tf, hi, lo).len() implies find_edge(
            es,
            (#[trigger] outbound_concat(es, srcs, tf, hi, lo)[i]).0,
        ) == Some(outbound_concat(es, srcs, tf, hi, lo)[i].1) by {
            if i < cur.len() {
                let a = lemma_filter_origin(
                    es,
                    |e: (EdgeKeyV, u64)| out_matches(e, srcs[0], tf, hi, lo),
                    i,
                );
                lemma_sorted_find_edge(es, a);
                assert(outbound_concat(es, srcs, tf, hi, lo)[i] == es[a]);
            } else {
                assert(outbound_concat(es, srcs, tf, hi, lo)[i] == rest[i - cur.len()]);
            }
        }
    }
}

/// Every row a vertex query returns is a stored vertex with its stored
/// type.
pub proof fn lemma_eval_vq_members(st: StateV, q: VertexQueryV)
    requires
        st.wf(),
    ensures
        forall|i: int|
            0 <= i < eval_vq(st, q).len() ==> find_vertex(
                st.vertices,
                (#[trigger] eval_vq(st, q)[i]).0,
            ) == Some(eval_vq(st, q)[i].1),
    decreases q,
{
    match q {
        VertexQueryV::All { start_id, limit } => {
            let base = match start_id {
                None => st.vertices,
                Some(sid) => st.vertices.filter(|p: (Identifier, Seq<char>)| p.0.0 >= sid.0),
            };
            assert forall|i: int|
                0 <= i < eval_vq(st, q).len() implies find_vertex(
                st.vertices,
                (#[trigger] eval_vq(st, q)[i]).0,
            ) == Some(eval_vq(st, q)[i].1) by {
                assert(eval_vq(st, q)[i] == base[i]);
                match start_id {
                    None => {
                        lemma_sorted_find_vertex(st.vertices, i);
                    },
                    Some(sid) => {
                        let a = lemma_filter_origin(
                            st.vertices,
                            |p: (Identifier, Seq<char>)| p.0.0 >= sid.0,
                            i,
                        );
                        lemma_sorted_find_vertex(st.vertices, a);
                    },
                }
            }
        },
        VertexQueryV::Vertices { ids } => {
            lemma_vertex_lookups_members(st.vertices, ids);
        },
        VertexQueryV::Pipe { edge_query, converter, limit } => {
            let evs = eval_eq(st, *edge_query);
            let ids = take_limit(
                evs.map_values(
                    |e: (EdgeKeyV, u64)|
                        match converter {
                            EdgeDirection::Outbound => e.0.outbound_id,
                            EdgeDirection::Inbound => e.0.inbound_id,
                        },
                ),
                limit as nat,
            );
            lemma_vertex_lookups_members(st.vertices, ids);
        },
    }
}

/// Every row an edge query returns is a stored edge with its stored
/// creation time.
pub proof fn lemma_eval_eq_members(st: StateV, q: EdgeQueryV)
    requires
        st.wf(),
    ensures
        forall|i: int|
            0 <= i < eval_eq(st, q).len() ==> find_edge(
                st.edges,
                (#[trigger] eval_eq(st, q)[i]).0,
            ) == Some(eval_eq(st, q)[i].1),
    decreases q,
{
    match q {
        EdgeQueryV::Edges { keys } => {
            lemma_edge_lookups_members(st.edges, keys);
        },
        EdgeQueryV::Pipe { vertex_query, converter, type_filter, high_filter, low_filter, limit }
            => {
            let srcs = eval_vq(st, *vertex_query).map_values(|p: (Identifier, Seq<char>)| p.0);
            match converter {
                EdgeDirection::Outbound => {
                    let full = outbound_concat(
                        st.edges,
                        srcs,
                        type_filter,
                        high_filter,
                        low_filter,
                    );
                    lemma_outbound_concat_members(
                        st.edges,
                        srcs,
                        type_filter,
                        high_filter,
                        low_filter,
                    );
                    assert forall|i: int|
                        0 <= i < eval_eq(st, q).len() implies find_edge(
                        st.edges,
                        (#[trigger] eval_eq(st, q)[i]).0,
                    ) == Some(eval_eq(st, q)[i].1) by {
                        assert(eval_eq(st, q)[i] == full[i]);
                    }
                },
                EdgeDirection::Inbound => {
                    let pred = |e: (EdgeKeyV, u64)|
                        in_matches(e, srcs, type_filter, high_filter, low_filter);
                    assert forall|i: int|
                        0 <= i < eval_eq(st, q).len() implies find_edge(
                        st.edges,
                        (#[trigger] eval_eq(st, q)[i]).0,
                    ) == Some(eval_eq(st, q)[i].1) by {
                        assert(eval_eq(st, q)[i] == st.edges.filter(pred)[i]);
                        let a = lemma_filter_origin(st.edges, pred, i);
                        lemma_sorted_find_edge(st.edges, a);
                    }
                },
            }
        },
    }
}

/// Whether one of the edge rows carries the key.
fn erows_contain(rows: &Vec<(EdgeKey, u64)>, k: &EdgeKey) -> (r: bool)
    ensures
        r == edges_view(rows@).map_values(|e: (EdgeKeyV, u64)| e.0).contains(k@),
{
    let ghost keys = edges_view(rows@).map_values(|e: (EdgeKeyV, u64)| e.0);
    let n = rows.len();
    let mut i: usize = 0;
    while i < n
        invariant
            i <= n,
            n == rows@.len(),
            keys == edges_view(rows@).map_values(|e: (EdgeKeyV, u64)| e.0),
            forall|j: int| 0 <= j < i ==> keys[j] != k@,
        decreases n - i,
    {
        if key_eq_exec(&rows[i].0, k) {
            proof {
                assert(keys[i as int] == k@);
            }
            return true;
        }
        i = i + 1;
    }
    proof {
        assert(forall|j: int| 0 <= j < keys.len() ==> keys[j] != k@);
    }
    false
}

impl InternalState {
    /// Counts the edges incident to a vertex on the given side, optionally
    /// restricted to one type.
    pub fn get_edge_count(
        &self,
        id: Identifier,
        type_filter: Option<&Type>,
        direction: EdgeDirection,
    ) -> (r: u64)
        ensures
            r as nat == ({
                let tf = match type_filter {
                    Some(t) => Some(t@),
                    None => None,
                };
                match direction {
                    EdgeDirection::Outbound => self.v().edges.filter(
                        |e: (EdgeKeyV, u64)| e.0.outbound_id == id && type_ok(e.0, tf),
                    ).len(),
                    EdgeDirection::Inbound => self.v().edges.filter(
                        |e: (EdgeKeyV, u64)| e.0.inbound_id == id && type_ok(e.0, tf),
                    ).len(),
                }
            }),
    {
        let ghost st = self.v();
        let ghost tf = match type_filter {
            Some(t) => Some(t@),
            None => None,
        };
        let ghost pred = match direction {
            EdgeDirection::Outbound => |e: (EdgeKeyV, u64)| e.0.outbound_id == id && type_ok(
                e.0,
                tf,
            ),
            EdgeDirection::Inbound => |e: (EdgeKeyV, u64)| e.0.inbound_id == id && type_ok(
                e.0,
                tf,
            ),
        };
        let n = self.edges.len();
        let mut count: u64 = 0;
        let mut j: usize = 0;
        proof {
            assert(st.edges.take(0).filter(pred) =~= Seq::empty());
        }
        while j < n
            invariant
                j <= n,
                n == self.edges@.len(),
                st == self.v(),
                tf == (match type_filter {
                    Some(t) => Some(t@),
                    None => None,
                }),
                pred == (match direction {
                    EdgeDirection::Outbound => |e: (EdgeKeyV, u64)| e.0.outbound_id == id
                        && type_ok(e.0, tf),
                    EdgeDirection::Inbound => |e: (EdgeKeyV, u64)| e.0.inbound_id == id
                        && type_ok(e.0, tf),
                }),
                count as nat == st.edges.take(j as int).filter(pred).len(),
                count <= j as u64,
            decreases n - j,
        {
            let ghost elem = st.edges[j as int];
            proof {
                assert(st.edges.take(j + 1) =~= st.edges.take(j as int).push(elem));
                lemma_filter_push(st.edges.take(j as int), pred, elem);
            }
            let side_match = match direction {
                EdgeDirection::Outbound => self.edges[j].0.outbound_id.0 == id.0,
                EdgeDirection::Inbound => self.edges[j].0.inbound_id.0 == id.0,
            };
            let type_match = match type_filter {
                Some(t) => str_eq(self.edges[j].0.t.as_str(), t.as_str()),
                None => true,
            };
            if side_match && type_match {
                proof {
                    assert(pred(elem));
                }
                count = count + 1;
            } else {
                proof {
                    assert(!pred(elem));
                }
            }
            j = j + 1;
        }
        proof {
            assert(st.edges.take(n as int) =~= st.edges);
        }
        count
    }

    /// Looks a `(vertex, name)` property up, copying its value.
    fn find_vertex_property(&self, id: Identifier, name: &str) -> (r: Option<serde_json::Value>)
        ensures
            r == find_vprop(self.v().vertex_properties, (id, name@)),
    {
        let ghost props = self.v().vertex_properties;
        let n = self.vertex_properties.len();
        let mut i: usize = 0;
        while i < n
            invariant
                i <= n,
                n == self.vertex_properties@.len(),
                props == self.v().vertex_properties,
                forall|j: int| 0 <= j < i ==> (#[trigger] props[j]).0 != (id, name@),
            decreases n - i,
        {
            if self.vertex_properties[i].0.0.0 == id.0 && str_eq(
                self.vertex_properties[i].0.1.as_str(),
                name,
            ) {
                proof {
                    assert(props[i as int].0 == (id, name@));
                    lemma_find_vprop_skip(props, (id, name@), i as int);
                    assert(props.skip(i as int)[0] == props[i as int]);
                }
                return Some(self.vertex_properties[i].1.clone());
            }
            i = i + 1;
        }
        proof {
            lemma_find_vprop_skip(props, (id, name@), n as int);
            assert(props.skip(n as int).len() == 0);
        }
        None
    }

    /// Looks an `(edge, name)` property up, copying its value.
    fn find_edge_property(&self, key: &EdgeKey, name: &str) -> (r: Option<serde_json::Value>)
        ensures
            r == find_eprop(self.v().edge_properties, (key@, name@)),
    {
        let ghost props = self.v().edge_properties;
        let n = self.edge_properties.len();
        let mut i: usize = 0;
        while i < n
            invariant
                i <= n,
                n == self.edge_properties@.len(),
                props == self.v().edge_properties,
                forall|j: int| 0 <= j < i ==> (#[trigger] props[j]).0 != (key@, name@),
            decreases n - i,
        {
            if key_eq_exec(&self.edge_properties[i].0.0, key) && str_eq(
                self.edge_properties[i].0.1.as_str(),
                name,
            ) {
                proof {
                    assert(props[i as int].0 == (key@, name@));
                    lemma_find_eprop_skip(props, (key@, name@), i as int);
                    assert(props.skip(i as int)[0] == props[i as int]);
                }
                return Some(self.edge_properties[i].1.clone());
            }
            i = i + 1;
        }
        proof {
            lemma_find_eprop_skip(props, (key@, name@), n as int);
            assert(props.skip(n as int).len() == 0);
        }
        None
    }

    /// The named property of every vertex the query returns that has it.
    pub fn get_vertex_properties(&self, q: &VertexQuery, name: &str) -> (r: Vec<VertexProperty>)
        requires
            self.wf(),
        ensures
            Seq::new(r@.len(), |i: int| r@[i]@) == get_vprops(
                self.v().vertex_properties,
                eval_vq(self.v(), q.qview()),
                name@,
            ),
    {
        let ghost st = self.v();
        let rows = self.get_vertex_values_by_query(q);
        let ghost rows_v = vertices_view(rows@);
        let n = rows.len();
        let mut result: Vec<VertexProperty> = Vec::new();
        let mut k: usize = 0;
        proof {
            assert(rows_v.take(0) =~= Seq::empty());
            assert(Seq::new(result@.len(), |i: int| result@[i]@) =~= get_vprops(
                st.vertex_properties,
                rows_v.take(0),
                name@,
            ));
        }
        while k < n
            invariant
                k <= n,
                n == rows@.len(),
                st == self.v(),
                rows_v == vertices_view(rows@),
                Seq::new(result@.len(), |i: int| result@[i]@) == get_vprops(
                    st.vertex_properties,
                    rows_v.take(k as int),
                    name@,
                ),
            decreases n - k,
        {
            let ghost before = Seq::new(result@.len(), |i: int| result@[i]@);
            proof {
                lemma_get_vprops_push(
                    st.vertex_properties,
                    rows_v.take(k as int),
                    name@,
                    rows_v[k as int],
                );
                assert(rows_v.take(k + 1) =~= rows_v.take(k as int).push(rows_v[k as int]));
            }
            match self.find_vertex_property(rows[k].0, name) {
                Some(value) => {
                    result.push(VertexProperty::new(rows[k].0, value));
                    proof {
                        assert(Seq::new(result@.len(), |i: int| result@[i]@) =~= before.push(
                            (
                                rows_v[k as int].0,
                                find_vprop(
                                    st.vertex_properties,
                                    (rows_v[k as int].0, name@),
                                ).unwrap(),
                            ),
                        ));
                    }
                },
                None => {},
            }
            k = k + 1;
        }
        proof {
            assert(rows_v.take(n as int) =~= rows_v);
        }
        result
    }

    /// The named property of every edge the query returns that has it.
    pub fn get_edge_properties(&self, q: &EdgeQuery, name: &str) -> (r: Vec<EdgeProperty>)
        requires
            self.wf(),
        ensures
            Seq::new(r@.len(), |i: int| r@[i]@) == get_eprops(
                self.v().edge_properties,
                eval_eq(self.v(), q.qview()),
                name@,
            ),
    {
        let ghost st = self.v();
        let rows = self.get_edge_values_by_query(q);
        let ghost rows_v = edges_view(rows@);
        let n = rows.len();
        let mut result: Vec<EdgeProperty> = Vec::new();
        let mut k: usize = 0;
        proof {
            assert(rows_v.take(0) =~= Seq::empty());
            assert(Seq::new(result@.len(), |i: int| result@[i]@) =~= get_eprops(
                st.edge_properties,
                rows_v.take(0),
                name@,
            ));
        }
        while k < n
            invariant
                k <= n,
                n == rows@.len(),
                st == self.v(),
                rows_v == edges_view(rows@),
                Seq::new(result@.len(), |i: int| result@[i]@) == get_eprops(
                    st.edge_properties,
                    rows_v.take(k as int),
                    name@,
                ),
            decreases n - k,
        {
            let ghost before = Seq::new(result@.len(), |i: int| result@[i]@);
            proof {
                lemma_get_eprops_push(
                    st.edge_properties,
                    rows_v.take(k as int),
                    name@,
                    rows_v[k as int],
                );
                assert(rows_v.take(k + 1) =~= rows_v.take(k as int).push(rows_v[k as int]));
            }
            match self.find_edge_property(&rows[k].0, name) {
                Some(value) => {
                    let kk = rows[k].0.duplicate();
                    result.push(EdgeProperty::new(kk, value));
                    proof {
                        assert(Seq::new(result@.len(), |i: int| result@[i]@) =~= before.push(
                            (
                                rows_v[k as int].0,
                                find_eprop(
                                    st.edge_properties,
                                    (rows_v[k as int].0, name@),
                                ).unwrap(),
                            ),
                        ));
                    }
                },
                None => {},
            }
            k = k + 1;
        }
        proof {
            assert(rows_v.take(n as int) =~= rows_v);
        }
        result
    }
}

/// The vertex-property table without the named property of the listed
/// owners.
pub open spec fn remove_vprops(
    props: Seq<((Identifier, Seq<char>), serde_json::Value)>,
    ids: Seq<Identifier>,
    name: Seq<char>,
) -> Seq<((Identifier, Seq<char>), serde_json::Value)> {
    props.filter(
        |p: ((Identifier, Seq<char>), serde_json::Value)|
            !(ids.contains(p.0.0) && p.0.1 == name),
    )
}

/// The edge-property table without the named property of the listed
/// owners.
pub open spec fn remove_eprops(
    props: Seq<((EdgeKeyV, Seq<char>), serde_json::Value)>,
    keys: Seq<EdgeKeyV>,
    name: Seq<char>,
) -> Seq<((EdgeKeyV, Seq<char>), serde_json::Value)> {
    props.filter(
        |p: ((EdgeKeyV, Seq<char>), serde_json::Value)|
            !(keys.contains(p.0.0) && p.0.1 == name),
    )
}

/// Dropping vertex properties never breaks well-formedness.
proof fn lemma_vprops_filter_wf(st: StateV, pred: spec_fn(((Identifier, Seq<char>), serde_json::Value)) -> bool)
    requires
        st.wf(),
    ensures
        (StateV { vertex_properties: st.vertex_properties.filter(pred), ..st }).wf(),
{
    let newp = st.vertex_properties.filter(pred);
    lemma_filter_pairwise(
        st.vertex_properties,
        pred,
        |a: ((Identifier, Seq<char>), serde_json::Value),
            b: ((Identifier, Seq<char>), serde_json::Value)| a.0 != b.0,
    );
    assert forall|j: int| 0 <= j < newp.len() implies has_vertex(
        st.vertices,
        (#[trigger] newp[j]).0.0,
    ) by {
        let a = lemma_filter_origin(st.vertex_properties, pred, j);
    }
}

/// Dropping edge properties never breaks well-formedness.
proof fn lemma_eprops_filter_wf(st: StateV, pred: spec_fn(((EdgeKeyV, Seq<char>), serde_json::Value)) -> bool)
    requires
        st.wf(),
    ensures
        (StateV { edge_properties: st.edge_properties.filter(pred), ..st }).wf(),
{
    let newp = st.edge_properties.filter(pred);
    lemma_filter_pairwise(
        st.edge_properties,
        pred,
        |a: ((EdgeKeyV, Seq<char>), serde_json::Value),
            b: ((EdgeKeyV, Seq<char>), serde_json::Value)| a.0 != b.0,
    );
    assert forall|j: int| 0 <= j < newp.len() implies has_edge(
        st.edges,
        (#[trigger] newp[j]).0.0,
    ) by {
        let a = lemma_filter_origin(st.edge_properties, pred, j);
    }
}

/// Upserting a property owned by an existing vertex keeps the state
/// well-formed.
proof fn lemma_upsert_vprop_wf(st: StateV, key: (Identifier, Seq<char>), val: serde_json::Value)
    requires
        st.wf(),
        has_vertex(st.vertices, key.0),
    ensures
        (StateV { vertex_properties: upsert_vprop(st.vertex_properties, key, val), ..st }).wf(),
{
    let props = st.vertex_properties;
    if exists|j: int| 0 <= j < props.len() && (#[trigger] props[j]).0 == key {
        let j = choose|j: int| 0 <= j < props.len() && (#[trigger] props[j]).0 == key;
        assert(forall|m: int| 0 <= m < j ==> (#[trigger] props[m]).0 != key);
        lemma_upsert_vprop_at(props, key, val, j);
        let newp = props.update(j, (key, val));
        assert forall|a: int, b: int| 0 <= a < b < newp.len() implies (#[trigger] newp[a]).0 != (
        #[trigger] newp[b]).0 by {
            assert(newp[a].0 == if a == j {
                key
            } else {
                props[a].0
            });
            assert(newp[b].0 == if b == j {
                key
            } else {
                props[b].0
            });
        }
    } else {
        assert(forall|m: int| 0 <= m < props.len() ==> (#[trigger] props[m]).0 != key);
        lemma_upsert_vprop_at(props, key, val, props.len() as int);
    }
}

/// Upserting a property owned by an existing edge keeps the state
/// well-formed.
proof fn lemma_upsert_eprop_wf(st: StateV, key: (EdgeKeyV, Seq<char>), val: serde_json::Value)
    requires
        st.wf(),
        has_edge(st.edges, key.0),
    ensures
        (StateV { edge_properties: upsert_eprop(st.edge_properties, key, val), ..st }).wf(),
{
    let props = st.edge_properties;
    if exists|j: int| 0 <= j < props.len() && (#[trigger] props[j]).0 == key {
        let j = choose|j: int| 0 <= j < props.len() && (#[trigger] props[j]).0 == key;
        assert(forall|m: int| 0 <= m < j ==> (#[trigger] props[m]).0 != key);
        lemma_upsert_eprop_at(props, key, val, j);
        let newp = props.update(j, (key, val));
        assert forall|a: int, b: int| 0 <= a < b < newp.len() implies (#[trigger] newp[a]).0 != (
        #[trigger] newp[b]).0 by {
            assert(newp[a].0 == if a == j {
                key
            } else {
                props[a].0
            });
            assert(newp[b].0 == if b == j {
                key
            } else {
                props[b].0
            });
        }
    } else {
        assert(forall|m: int| 0 <= m < props.len() ==> (#[trigger] props[m]).0 != key);
        lemma_upsert_eprop_at(props, key, val, props.len() as int);
    }
}

impl InternalState {
    /// Overwrites or creates one vertex property.
    fn upsert_vertex_property(&mut self, id: Identifier, name: &str, value: &serde_json::Value)
        ensures
            final(self).v().vertex_properties == upsert_vprop(
                old(self).v().vertex_properties,
                (id, name@),
                *value,
            ),
            final(self).vertices == old(self).vertices,
            final(self).edges == old(self).edges,
            final(self).edge_properties == old(self).edge_properties,
    {
        let ghost props = self.v().vertex_properties;
        let ghost key = (id, name@);
        let n = self.vertex_properties.len();
        let mut i: usize = 0;
        while i < n
            invariant
                i <= n,
                n == self.vertex_properties@.len(),
                props == self.v().vertex_properties,
                *self == *old(self),
                key == (id, name@),
                forall|j: int| 0 <= j < i ==> (#[trigger] props[j]).0 != key,
            decreases n - i,
        {
            if self.vertex_properties[i].0.0.0 == id.0 && str_eq(
                self.vertex_properties[i].0.1.as_str(),
                name,
            ) {
                proof {
                    assert(props[i as int].0 == key);
                    lemma_upsert_vprop_at(props, key, *value, i as int);
                }
                self.vertex_properties.remove(i);
                self.vertex_properties.insert(i, ((id, name.to_owned()), value.clone()));
                proof {
                    assert(vprops_view(self.vertex_properties@) =~= props.update(
                        i as int,
                        (key, *value),
                    ));
                }
                return ;
            }
            i = i + 1;
        }
        proof {
            lemma_upsert_vprop_at(props, key, *value, n as int);
        }
        self.vertex_properties.push(((id, name.to_owned()), value.clone()));
        proof {
            assert(vprops_view(self.vertex_properties@) =~= props.push((key, *value)));
        }
    }

    /// Overwrites or creates one edge property.
    fn upsert_edge_property(&mut self, key: &EdgeKey, name: &str, value: &serde_json::Value)
        ensures
            final(self).v().edge_properties == upsert_eprop(
                old(self).v().edge_properties,
                (key@, name@),
                *value,
            ),
            final(self).vertices == old(self).vertices,
            final(self).edges == old(self).edges,
            final(self).vertex_properties == old(self).vertex_properties,
    {
        let ghost props = self.v().edge_properties;
        let ghost keyv = (key@, name@);
        let n = self.edge_properties.len();
        let mut i: usize = 0;
        while i < n
            invariant
                i <= n,
                n == self.edge_properties@.len(),
                props == self.v().edge_properties,
                *self == *old(self),
                keyv == (key@, name@),
                forall|j: int| 0 <= j < i ==> (#[trigger] props[j]).0 != keyv,
            decreases n - i,
        {
            if key_eq_exec(&self.edge_properties[i].0.0, key) && str_eq(
                self.edge_properties[i].0.1.as_str(),
                name,
            ) {
                proof {
                    assert(props[i as int].0 == keyv);
                    lemma_upsert_eprop_at(props, keyv, *value, i as int);
                }
                let kk = key.duplicate();
                self.edge_properties.remove(i);
                self.edge_properties.insert(i, ((kk, name.to_owned()), value.clone()));
                proof {
                    assert(eprops_view(self.edge_properties@) =~= props.update(
                        i as int,
                        (keyv, *value),
                    ));
                }
                return ;
            }
            i = i + 1;
        }
        proof {
            lemma_upsert_eprop_at(props, keyv, *value, n as int);
        }
        let kk = key.duplicate();
        self.edge_properties.push(((kk, name.to_owned()), value.clone()));
        proof {
            assert(eprops_view(self.edge_properties@) =~= props.push((keyv, *value)));
        }
    }

    /// Evaluates the query, then upserts the named property on each
    /// matching vertex.
    pub fn set_vertex_properties(&mut self, q: &VertexQuery, name: &str, value: &serde_json::Value)
        requires
            old(self).wf(),
        ensures
            final(self).wf(),
            final(self).v().vertex_properties == upsert_vprops_all(
                old(self).v().vertex_properties,
                eval_vq(old(self).v(), q.qview()),
                name@,
                *value,
            ),
            final(self).v().vertices == old(self).v().vertices,
            final(self).v().edges == old(self).v().edges,
            final(self).v().edge_properties == old(self).v().edge_properties,
    {
        let ghost st = self.v();
        let rows = self.get_vertex_values_by_query(q);
        let ghost rows_v = vertices_view(rows@);
        proof {
            lemma_eval_vq_members(st, q.qview());
            assert(rows_v.take(0) =~= Seq::empty());
        }
        let n = rows.len();
        let mut k: usize = 0;
        while k < n
            invariant
                k <= n,
                n == rows@.len(),
                rows_v == vertices_view(rows@),
                self.wf(),
                self.v().vertices == st.vertices,
                self.v().edges == st.edges,
                self.v().edge_properties == st.edge_properties,
                self.v().vertex_properties == upsert_vprops_all(
                    st.vertex_properties,
                    rows_v.take(k as int),
                    name@,
                    *value,
                ),
                forall|i: int|
                    0 <= i < rows_v.len() ==> find_vertex(st.vertices, (#[trigger] rows_v[i]).0)
                        == Some(rows_v[i].1),
            decreases n - k,
        {
            proof {
                lemma_upsert_vprops_all_push(
                    st.vertex_properties,
                    rows_v.take(k as int),
                    name@,
                    *value,
                    rows_v[k as int],
                );
                assert(rows_v.take(k + 1) =~= rows_v.take(k as int).push(rows_v[k as int]));
                lemma_find_has_vertex(st.vertices, rows_v[k as int].0);
                lemma_upsert_vprop_wf(self.v(), (rows_v[k as int].0, name@), *value);
            }
            self.upsert_vertex_property(rows[k].0, name, value);
            k = k + 1;
        }
        proof {
            assert(rows_v.take(n as int) =~= rows_v);
        }
    }

    /// Evaluates the query, then upserts the named property on each
    /// matching edge.
    pub fn set_edge_properties(&mut self, q: &EdgeQuery, name: &str, value: &serde_json::Value)
        requires
            old(self).wf(),
        ensures
            final(self).wf(),
            final(self).v().edge_properties == upsert_eprops_all(
                old(self).v().edge_properties,
                eval_eq(old(self).v(), q.qview()),
                name@,
                *value,
            ),
            final(self).v().vertices == old(self).v().vertices,
            final(self).v().edges == old(self).v().edges,
            final(self).v().vertex_properties == old(self).v().vertex_properties,
    {
        let ghost st = self.v();
        let rows = self.get_edge_values_by_query(q);
        let ghost rows_v = edges_view(rows@);
        proof {
            lemma_eval_eq_members(st, q.qview());
            assert(rows_v.take(0) =~= Seq::empty());
        }
        let n = rows.len();
        let mut k: usize = 0;
        while k < n
            invariant
                k <= n,
                n == rows@.len(),
                rows_v == edges_view(rows@),
                self.wf(),
                self.v().vertices == st.vertices,
                self.v().edges == st.edges,
                self.v().vertex_properties == st.vertex_properties,
                self.v().edge_properties == upsert_eprops_all(
                    st.edge_properties,
                    rows_v.take(k as int),
                    name@,
                    *value,
                ),
                forall|i: int|
                    0 <= i < rows_v.len() ==> find_edge(st.edges, (#[trigger] rows_v[i]).0)
                        == Some(rows_v[i].1),
            decreases n - k,
        {
            proof {
                lemma_upsert_eprops_all_push(
                    st.edge_properties,
                    rows_v.take(k as int),
                    name@,
                    *value,
                    rows_v[k as int],
                );
                assert(rows_v.take(k + 1) =~= rows_v.take(k as int).push(rows_v[k as int]));
                lemma_find_has_edge(st.edges, rows_v[k as int].0);
                lemma_upsert_eprop_wf(self.v(), (rows_v[k as int].0, name@), *value);
            }
            self.upsert_edge_property(&rows[k].0, name, value);
            k = k + 1;
        }
        proof {
            assert(rows_v.take(n as int) =~= rows_v);
        }
    }

    /// Evaluates the query, then removes the named property from each
    /// matching vertex.
    pub fn delete_vertex_properties(&mut self, q: &VertexQuery, name: &str)
        requires
            old(self).wf(),
        ensures
            final(self).wf(),
            final(self).v().vertex_properties == remove_vprops(
                old(self).v().vertex_properties,
                eval_vq(old(self).v(), q.qview()).map_values(|p: (Identifier, Seq<char>)| p.0),
                name@,
            ),
            final(self).v().vertices == old(self).v().vertices,
            final(self).v().edges == old(self).v().edges,
            final(self).v().edge_properties == old(self).v().edge_properties,
    {
        let ghost st = self.v();
        let rows = self.get_vertex_values_by_query(q);
        let ghost ids = vertices_view(rows@).map_values(|p: (Identifier, Seq<char>)| p.0);
        let ghost pred = |p: ((Identifier, Seq<char>), serde_json::Value)|
            !(ids.contains(p.0.0) && p.0.1 == name@);
        let n = self.vertex_properties.len();
        let mut kept: Vec<((Identifier, String), serde_json::Value)> = Vec::new();
        let mut i: usize = 0;
        proof {
            assert(st.vertex_properties.take(0).filter(pred) =~= Seq::empty());
            assert(vprops_view(kept@) =~= st.vertex_properties.take(0).filter(pred));
        }
        while i < n
            invariant
                i <= n,
                n == self.vertex_properties@.len(),
                st == self.v(),
                ids == vertices_view(rows@).map_values(|p: (Identifier, Seq<char>)| p.0),
                pred == (|p: ((Identifier, Seq<char>), serde_json::Value)|
                    !(ids.contains(p.0.0) && p.0.1 == name@)),
                vprops_view(kept@) == st.vertex_properties.take(i as int).filter(pred),
            decreases n - i,
        {
            let ghost prefix = st.vertex_properties.take(i as int);
            let ghost elem = st.vertex_properties[i as int];
            proof {
                assert(st.vertex_properties.take(i + 1) =~= prefix.push(elem));
                lemma_filter_push(prefix, pred, elem);
            }
            let ghost before = vprops_view(kept@);
            let owned = rows_contain(&rows, self.vertex_properties[i].0.0) && str_eq(
                self.vertex_properties[i].0.1.as_str(),
                name,
            );
            if !owned {
                let id = self.vertex_properties[i].0.0;
                let pname = self.vertex_properties[i].0.1.clone();
                let pvalue = self.vertex_properties[i].1.clone();
                kept.push(((id, pname), pvalue));
                proof {
                    assert(vprops_view(kept@) =~= before.push(elem));
                }
            }
            i = i + 1;
        }
        proof {
            assert(st.vertex_properties.take(n as int) =~= st.vertex_properties);
        }
        self.vertex_properties = kept;
        proof {
            lemma_vprops_filter_wf(st, pred);
            assert(self.v() =~= (StateV {
                vertex_properties: st.vertex_properties.filter(pred),
                ..st
            }));
        }
    }

    /// Evaluates the query, then removes the named property from each
    /// matching edge.
    pub fn delete_edge_properties(&mut self, q: &EdgeQuery, name: &str)
        requires
            old(self).wf(),
        ensures
            final(self).wf(),
            final(self).v().edge_properties == remove_eprops(
                old(self).v().edge_properties,
                eval_eq(old(self).v(), q.qview()).map_values(|e: (EdgeKeyV, u64)| e.0),
                name@,
            ),
            final(self).v().vertices == old(self).v().vertices,
            final(self).v().edges == old(self).v().edges,
            final(self).v().vertex_properties == old(self).v().vertex_properties,
    {
        let ghost st = self.v();
        let rows = self.get_edge_values_by_query(q);
        let ghost keys = edges_view(rows@).map_values(|e: (EdgeKeyV, u64)| e.0);
        let ghost pred = |p: ((EdgeKeyV, Seq<char>), serde_json::Value)|
            !(keys.contains(p.0.0) && p.0.1 == name@);
        let n = self.edge_properties.len();
        let mut kept: Vec<((EdgeKey, String), serde_json::Value)> = Vec::new();
        let mut i: usize = 0;
        proof {
            assert(st.edge_properties.take(0).filter(pred) =~= Seq::empty());
            assert(eprops_view(kept@) =~= st.edge_properties.take(0).filter(pred));
        }
        while i < n
            invariant
                i <= n,
                n == self.edge_properties@.len(),
                st == self.v(),
                keys == edges_view(rows@).map_values(|e: (EdgeKeyV, u64)| e.0),
                pred == (|p: ((EdgeKeyV, Seq<char>), serde_json::Value)|
                    !(keys.contains(p.0.0) && p.0.1 == name@)),
                eprops_view(kept@) == st.edge_properties.take(i as int).filter(pred),
            decreases n - i,
        {
            let ghost prefix = st.edge_properties.take(i as int);
            let ghost elem = st.edge_properties[i as int];
            proof {
                assert(st.edge_properties.take(i + 1) =~= prefix.push(elem));
                lemma_filter_push(prefix, pred, elem);
            }
            let ghost before = eprops_view(kept@);
            let owned = erows_contain(&rows, &self.edge_properties[i].0.0) && str_eq(
                self.edge_properties[i].0.1.as_str(),
                name,
            );
            if !owned {
                let kk = self.edge_properties[i].0.0.duplicate();
                let pname = self.edge_properties[i].0.1.clone();
                let pvalue = self.edge_properties[i].1.clone();
                kept.push(((kk, pname), pvalue));
                proof {
                    assert(eprops_view(kept@) =~= before.push(elem));
                }
            }
            i = i + 1;
        }
        proof {
            assert(st.edge_properties.take(n as int) =~= st.edge_properties);
        }
        self.edge_properties = kept;
        proof {
            lemma_eprops_filter_wf(st, pred);
            assert(self.v() =~= (StateV {
                edge_properties: st.edge_properties.filter(pred),
                ..st
            }));
        }
    }
}

/// When the running outbound collection reaches the limit, it is exactly
/// the limited prefix of the full concatenation.
proof fn lemma_outbound_limit_reached(
    es: Seq<(EdgeKeyV, u64)>,
    srcs: Seq<Identifier>,
    s: int,
    j: int,
    tf: Option<Seq<char>>,
    hi: Option<u64>,
    lo: Option<u64>,
    limit: nat,
)
    requires
        0 <= s < srcs.len(),
        0 <= j <= es.len(),
        (outbound_concat(es, srcs.take(s), tf, hi, lo) + es.take(j).filter(
            |e: (EdgeKeyV, u64)| out_matches(e, srcs[s], tf, hi, lo),
        )).len() == limit,
    ensures
        take_limit(outbound_concat(es, srcs, tf, hi, lo), limit) == outbound_concat(
            es,
            srcs.take(s),
            tf,
            hi,
            lo,
        ) + es.take(j).filter(|e: (EdgeKeyV, u64)| out_matches(e, srcs[s], tf, hi, lo)),
{
    let cur = |e: (EdgeKeyV, u64)| out_matches(e, srcs[s], tf, hi, lo);
    let done = outbound_concat(es, srcs.take(s), tf, hi, lo);
    let partial = done + es.take(j).filter(cur);
    assert(es.take(j) + es.skip(j) =~= es);
    lemma_filter_append(es.take(j), es.skip(j), cur);
    lemma_outbound_concat_push(es, srcs.take(s), srcs[s], tf, hi, lo);
    assert(srcs.take(s).push(srcs[s]) =~= srcs.take(s + 1));
    assert(srcs.take(s + 1) + srcs.skip(s + 1) =~= srcs);
    lemma_outbound_concat_append(es, srcs.take(s + 1), srcs.skip(s + 1), tf, hi, lo);
    let full = outbound_concat(es, srcs, tf, hi, lo);
    assert(full =~= partial + (es.skip(j).filter(cur) + outbound_concat(
        es,
        srcs.skip(s + 1),
        tf,
        hi,
        lo,
    )));
    assert(full.take(limit as int) =~= partial);
}

/// Whether an edge key names a listed identifier as either endpoint.
pub open spec fn incident(k: EdgeKeyV, ids: Seq<Identifier>) -> bool {
    ids.contains(k.outbound_id) || ids.contains(k.inbound_id)
}

impl InternalState {
    /// Removes the listed edges, cascading to every edge property keyed by
    /// one of them; keys that are not present are ignored.
    pub fn delete_edges(&mut self, edges: Vec<EdgeKey>)
        ensures
            final(self).v().edges == old(self).v().edges.filter(
                |e: (EdgeKeyV, u64)| !edge_keys_view(edges@).contains(e.0),
            ),
            final(self).v().edge_properties == old(self).v().edge_properties.filter(
                |p: ((EdgeKeyV, Seq<char>), serde_json::Value)|
                    !edge_keys_view(edges@).contains(p.0.0),
            ),
            final(self).v().vertices == old(self).v().vertices,
            final(self).v().vertex_properties == old(self).v().vertex_properties,
            old(self).wf() ==> final(self).wf(),
    {
        let ghost st = self.v();
        let ghost kv = edge_keys_view(edges@);
        let ghost pred_e = |e: (EdgeKeyV, u64)| !edge_keys_view(edges@).contains(e.0);
        let ghost pred_p = |p: ((EdgeKeyV, Seq<char>), serde_json::Value)| !edge_keys_view(
            edges@,
        ).contains(p.0.0);
        self.remove_edges_with_keys(&edges);
        self.remove_eprops_with_keys(&edges);
        proof {
            if st.wf() {
                lemma_remove_edge_keys_wf(st, kv);
                lemma_filter_equiv(
                    st.edges,
                    pred_e,
                    |e: (EdgeKeyV, u64)| !kv.contains(e.0),
                );
                lemma_filter_equiv(
                    st.edge_properties,
                    pred_p,
                    |p: ((EdgeKeyV, Seq<char>), serde_json::Value)| !kv.contains(p.0.0),
                );
                assert(self.v() =~= (StateV {
                    edges: st.edges.filter(|e: (EdgeKeyV, u64)| !kv.contains(e.0)),
                    edge_properties: st.edge_properties.filter(
                        |p: ((EdgeKeyV, Seq<char>), serde_json::Value)| !kv.contains(p.0.0),
                    ),
                    ..st
                }));
            }
        }
    }

    /// Removes the listed vertices, cascading: every incident edge goes,
    /// every property owned by a removed vertex or edge goes with it.
    pub fn delete_vertices(&mut self, vertices: Vec<Identifier>)
        requires
            old(self).wf(),
        ensures
            final(self).wf(),
            final(self).v().vertices == old(self).v().vertices.filter(
                |p: (Identifier, Seq<char>)| !vertices@.contains(p.0),
            ),
            final(self).v().vertex_properties == old(self).v().vertex_properties.filter(
                |p: ((Identifier, Seq<char>), serde_json::Value)| !vertices@.contains(p.0.0),
            ),
            final(self).v().edges == old(self).v().edges.filter(
                |e: (EdgeKeyV, u64)| !incident(e.0, vertices@),
            ),
            final(self).v().edge_properties == old(self).v().edge_properties.filter(
                |p: ((EdgeKeyV, Seq<char>), serde_json::Value)| !incident(p.0.0, vertices@),
            ),
    {
        let ghost st = self.v();
        let ghost inc_pred = |e: (EdgeKeyV, u64)| incident(e.0, vertices@);

        // Collect the incident edges.
        let n = self.edges.len();
        let mut deletable: Vec<EdgeKey> = Vec::new();
        let mut i: usize = 0;
        proof {
            assert(st.edges.take(0) =~= Seq::empty());
            assert(st.edges.take(0).filter(inc_pred) =~= Seq::empty());
            assert(edge_keys_view(deletable@) =~= st.edges.take(0).filter(inc_pred).map_values(
                |e: (EdgeKeyV, u64)| e.0,
            ));
        }
        while i < n
            invariant
                i <= n,
                n == self.edges@.len(),
                self.v() == st,
                edge_keys_view(deletable@) == st.edges.take(i as int).filter(inc_pred).map_values(
                    |e: (EdgeKeyV, u64)| e.0,
                ),
                inc_pred == (|e: (EdgeKeyV, u64)| incident(e.0, vertices@)),
            decreases n - i,
        {
            let ghost prefix = st.edges.take(i as int);
            let ghost elem = st.edges[i as int];
            proof {
                assert(st.edges.take(i + 1) =~= prefix.push(elem));
                lemma_filter_push(prefix, inc_pred, elem);
            }
            let out_in = ids_contain(&vertices, self.edges[i].0.outbound_id);
            let in_in = ids_contain(&vertices, self.edges[i].0.inbound_id);
            let ghost old_keys = edge_keys_view(deletable@);
            if out_in || in_in {
                let k = self.edges[i].0.duplicate();
                deletable.push(k);
                proof {
                    assert(edge_keys_view(deletable@) =~= old_keys.push(elem.0));
                    assert(prefix.filter(inc_pred).push(elem).map_values(
                        |e: (EdgeKeyV, u64)| e.0,
                    ) =~= prefix.filter(inc_pred).map_values(|e: (EdgeKeyV, u64)| e.0).push(
                        elem.0,
                    ));
                }
            }
            i = i + 1;
        }
        proof {
            assert(st.edges.take(n as int) =~= st.edges);
        }
        let ghost kv = edge_keys_view(deletable@);

        // The collected keys are exactly the incident ones among the edges,
        // and, by referential integrity, among the edge-property owners.
        proof {
            let mapped = st.edges.filter(inc_pred).map_values(|e: (EdgeKeyV, u64)| e.0);
            assert forall|j: int| 0 <= j < st.edges.len() implies (kv.contains(
                (#[trigger] st.edges[j]).0,
            ) <==> incident(st.edges[j].0, vertices@)) by {
                if incident(st.edges[j].0, vertices@) {
                    st.edges.lemma_filter_contains(inc_pred, j);
                    let m = choose|m: int|
                        0 <= m < st.edges.filter(inc_pred).len() && (#[trigger] st.edges.filter(
                            inc_pred,
                        )[m]) == st.edges[j];
                    assert(kv[m] == st.edges[j].0);
                }
                if kv.contains(st.edges[j].0) {
                    let m = choose|m: int| 0 <= m < kv.len() && (#[trigger] kv[m]) == st.edges[j].0;
                    st.edges.lemma_filter_pred(inc_pred, m);
                    assert(st.edges.filter(inc_pred)[m].0 == st.edges[j].0);
                }
            }
        }

        self.delete_edges(deletable);
        self.remove_vertices_in(&vertices);
        self.remove_vprops_owned_by(&vertices);

        proof {
            let pred_e = |e: (EdgeKeyV, u64)| !edge_keys_view(deletable@).contains(e.0);
            let pred_ei = |e: (EdgeKeyV, u64)| !incident(e.0, vertices@);
            let pred_p = |p: ((EdgeKeyV, Seq<char>), serde_json::Value)| !edge_keys_view(
                deletable@,
            ).contains(p.0.0);
            let pred_pi = |p: ((EdgeKeyV, Seq<char>), serde_json::Value)| !incident(
                p.0.0,
                vertices@,
            );
            let pred_v = |p: (Identifier, Seq<char>)| !vertices@.contains(p.0);
            let pred_vp = |p: ((Identifier, Seq<char>), serde_json::Value)| !vertices@.contains(
                p.0.0,
            );
            lemma_filter_equiv(st.edges, pred_e, pred_ei);
            assert forall|j: int| 0 <= j < st.edge_properties.len() implies (pred_p(
                #[trigger] st.edge_properties[j],
            ) <==> pred_pi(st.edge_properties[j])) by {
                let p = st.edge_properties[j];
                assert(has_edge(st.edges, p.0.0));
                let w = choose|w: int|
                    0 <= w < st.edges.len() && (#[trigger] st.edges[w]).0 == p.0.0;
                assert(kv.contains(st.edges[w].0) <==> incident(st.edges[w].0, vertices@));
            }
            lemma_filter_equiv(st.edge_properties, pred_p, pred_pi);

            // Well-formedness of the final state.
            let newv = st.vertices.filter(pred_v);
            let newe = st.edges.filter(pred_ei);
            let newvp = st.vertex_properties.filter(pred_vp);
            let newep = st.edge_properties.filter(pred_pi);
            lemma_filter_pairwise(
                st.vertices,
                pred_v,
                |a: (Identifier, Seq<char>), b: (Identifier, Seq<char>)| a.0.0 < b.0.0,
            );
            lemma_filter_pairwise(
                st.vertex_properties,
                pred_vp,
                |a: ((Identifier, Seq<char>), serde_json::Value),
                    b: ((Identifier, Seq<char>), serde_json::Value)| a.0 != b.0,
            );
            lemma_filter_pairwise(
                st.edges,
                pred_ei,
                |a: (EdgeKeyV, u64), b: (EdgeKeyV, u64)| key_lt(a.0, b.0),
            );
            lemma_filter_pairwise(
                st.edge_properties,
                pred_pi,
                |a: ((EdgeKeyV, Seq<char>), serde_json::Value),
                    b: ((EdgeKeyV, Seq<char>), serde_json::Value)| a.0 != b.0,
            );
            assert forall|x: Identifier|
                has_vertex(st.vertices, x) && !vertices@.contains(x) implies has_vertex(
                newv,
                x,
            ) by {
                let w = choose|w: int|
                    0 <= w < st.vertices.len() && (#[trigger] st.vertices[w]).0 == x;
                st.vertices.lemma_filter_contains(pred_v, w);
                let m = choose|m: int| 0 <= m < newv.len() && (#[trigger] newv[m]) == st.vertices[w];
            }
            assert forall|j: int| 0 <= j < newe.len() implies has_vertex(
                newv,
                (#[trigger] newe[j]).0.outbound_id,
            ) && has_vertex(newv, newe[j].0.inbound_id) by {
                let a = lemma_filter_origin(st.edges, pred_ei, j);
                st.edges.lemma_filter_pred(pred_ei, j);
            }
            assert forall|j: int| 0 <= j < newvp.len() implies has_vertex(
                newv,
                (#[trigger] newvp[j]).0.0,
            ) by {
                let a = lemma_filter_origin(st.vertex_properties, pred_vp, j);
                st.vertex_properties.lemma_filter_pred(pred_vp, j);
            }
            assert forall|j: int| 0 <= j < newep.len() implies has_edge(
                newe,
                (#[trigger] newep[j]).0.0,
            ) by {
                let a = lemma_filter_origin(st.edge_properties, pred_pi, j);
                st.edge_properties.lemma_filter_pred(pred_pi, j);
                let p = st.edge_properties[a];
                assert(has_edge(st.edges, p.0.0));
                let w = choose|w: int|
                    0 <= w < st.edges.len() && (#[trigger] st.edges[w]).0 == p.0.0;
                assert(pred_ei(st.edges[w]));
                st.edges.lemma_filter_contains(pred_ei, w);
                let m = choose|m: int| 0 <= m < newe.len() && (#[trigger] newe[m]) == st.edges[w];
            }
        }
    }
}

/// Filtering a sequence extended by one entry keeps the old result and
/// appends the entry when it passes.
pub proof fn lemma_filter_push<A>(s: Seq<A>, pred: spec_fn(A) -> bool, x: A)
    ensures
        s.push(x).filter(pred) == if pred(x) {
            s.filter(pred).push(x)
        } else {
            s.filter(pred)
        },
{
    reveal(Seq::filter);
    assert(s.push(x).drop_last() =~= s);
    assert(s.push(x).last() == x);
}

/// Filtering distributes over concatenation.
pub proof fn lemma_filter_append<A>(a: Seq<A>, b: Seq<A>, pred: spec_fn(A) -> bool)
    ensures
        (a + b).filter(pred) == a.filter(pred) + b.filter(pred),
    decreases b.len(),
{
    reveal(Seq::filter);
    if b.len() == 0 {
        assert(a + b =~= a);
        assert(b.filter(pred) =~= Seq::empty());
        assert(a.filter(pred) + b.filter(pred) =~= a.filter(pred));
    } else {
        let bd = b.drop_last();
        lemma_filter_append(a, bd, pred);
        assert((a + b).drop_last() =~= a + bd);
        assert((a + b).last() == b.last());
        lemma_filter_push(a + bd, pred, b.last());
        assert((a + bd).push(b.last()) =~= a + b);
        lemma_filter_push(bd, pred, b.last());
        assert(bd.push(b.last()) =~= b);
        if pred(b.last()) {
            assert((a.filter(pred) + bd.filter(pred)).push(b.last()) =~= a.filter(pred) + b.filter(
                pred,
            ));
        }
    }
}

/// Filters with predicates that agree on every entry give the same result.
pub proof fn lemma_filter_equiv<A>(s: Seq<A>, p1: spec_fn(A) -> bool, p2: spec_fn(A) -> bool)
    requires
        forall|i: int| 0 <= i < s.len() ==> (p1(#[trigger] s[i]) <==> p2(s[i])),
    ensures
        s.filter(p1) == s.filter(p2),
    decreases s.len(),
{
    reveal(Seq::filter);
    if s.len() > 0 {
        let sd = s.drop_last();
        assert(forall|i: int| 0 <= i < sd.len() ==> (p1(#[trigger] sd[i]) <==> p2(sd[i]))) by {
            assert(forall|i: int| 0 <= i < sd.len() ==> sd[i] == s[i]);
        }
        lemma_filter_equiv(sd, p1, p2);
        assert(s.last() == s[s.len() - 1]);
    }
}

/// A filter that accepts every entry changes nothing.
pub proof fn lemma_filter_all_true<A>(s: Seq<A>, pred: spec_fn(A) -> bool)
    requires
        forall|i: int| 0 <= i < s.len() ==> pred(#[trigger] s[i]),
    ensures
        s.filter(pred) == s,
    decreases s.len(),
{
    reveal(Seq::filter);
    if s.len() > 0 {
        let sd = s.drop_last();
        assert(forall|i: int| 0 <= i < sd.len() ==> pred(#[trigger] sd[i])) by {
            assert(forall|i: int| 0 <= i < sd.len() ==> sd[i] == s[i]);
        }
        lemma_filter_all_true(sd, pred);
        assert(s.last() == s[s.len() - 1]);
        assert(sd.push(s.last()) =~= s);
    }
}

/// A filter that rejects every entry leaves nothing.
pub proof fn lemma_filter_none<A>(s: Seq<A>, pred: spec_fn(A) -> bool)
    requires
        forall|i: int| 0 <= i < s.len() ==> !pred(#[trigger] s[i]),
    ensures
        s.filter(pred) == Seq::<A>::empty(),
    decreases s.len(),
{
    reveal(Seq::filter);
    if s.len() > 0 {
        let sd = s.drop_last();
        assert(forall|i: int| 0 <= i < sd.len() ==> !pred(#[trigger] sd[i])) by {
            assert(forall|i: int| 0 <= i < sd.len() ==> sd[i] == s[i]);
        }
        lemma_filter_none(sd, pred);
        assert(s.last() == s[s.len() - 1]);
    }
}

/// Appending one source appends its matches.
pub proof fn lemma_outbound_concat_push(
    es: Seq<(EdgeKeyV, u64)>,
    srcs: Seq<Identifier>,
    x: Identifier,
    tf: Option<Seq<char>>,
    hi: Option<u64>,
    lo: Option<u64>,
)
    ensures
        outbound_concat(es, srcs.push(x), tf, hi, lo) == outbound_concat(es, srcs, tf, hi, lo)
            + es.filter(|e: (EdgeKeyV, u64)| out_matches(e, x, tf, hi, lo)),
{
    reveal_with_fuel(outbound_concat, 3);
    assert(srcs.push(x) =~= srcs + seq![x]);
    lemma_outbound_concat_append(es, srcs, seq![x], tf, hi, lo);
    assert(seq![x][0] == x);
    assert(seq![x].drop_first() =~= Seq::empty());
    assert(outbound_concat(es, seq![x], tf, hi, lo) =~= es.filter(
        |e: (EdgeKeyV, u64)| out_matches(e, x, tf, hi, lo),
    ));
}

/// Per-source outbound matching distributes over concatenation of the
/// source list.
pub proof fn lemma_outbound_concat_append(
    es: Seq<(EdgeKeyV, u64)>,
    s1: Seq<Identifier>,
    s2: Seq<Identifier>,
    tf: Option<Seq<char>>,
    hi: Option<u64>,
    lo: Option<u64>,
)
    ensures
        outbound_concat(es, s1 + s2, tf, hi, lo) == outbound_concat(es, s1, tf, hi, lo)
            + outbound_concat(es, s2, tf, hi, lo),
    decreases s1.len(),
{
    if s1.len() == 0 {
        assert(s1 + s2 =~= s2);
        assert(outbound_concat(es, s1, tf, hi, lo) + outbound_concat(es, s2, tf, hi, lo)
            =~= outbound_concat(es, s2, tf, hi, lo));
    } else {
        assert((s1 + s2)[0] == s1[0]);
        assert((s1 + s2).drop_first() =~= s1.drop_first() + s2);
        lemma_outbound_concat_append(es, s1.drop_first(), s2, tf, hi, lo);
        assert(es.filter(|e: (EdgeKeyV, u64)| out_matches(e, s1[0], tf, hi, lo)) + (outbound_concat(
            es,
            s1.drop_first(),
            tf,
            hi,
            lo,
        ) + outbound_concat(es, s2, tf, hi, lo)) =~= (es.filter(
            |e: (EdgeKeyV, u64)| out_matches(e, s1[0], tf, hi, lo),
        ) + outbound_concat(es, s1.drop_first(), tf, hi, lo)) + outbound_concat(
            es,
            s2,
            tf,
            hi,
            lo,
        ));
    }
}

/// Looking up one more id appends its hit, if any.
pub proof fn lemma_vertex_lookups_push(
    vs: Seq<(Identifier, Seq<char>)>,
    ids: Seq<Identifier>,
    x: Identifier,
)
    ensures
        vertex_lookups(vs, ids.push(x)) == match find_vertex(vs, x) {
            Some(t) => vertex_lookups(vs, ids).push((x, t)),
            None => vertex_lookups(vs, ids),
        },
    decreases ids.len(),
{
    reveal_with_fuel(vertex_lookups, 3);
    if ids.len() == 0 {
        assert(ids.push(x)[0] == x);
        assert(ids.push(x).drop_first() =~= Seq::empty());
        match find_vertex(vs, x) {
            Some(t) => {
                assert(vertex_lookups(vs, ids.push(x)) =~= vertex_lookups(vs, ids).push((x, t)));
            },
            None => {},
        }
    } else {
        assert(ids.push(x)[0] == ids[0]);
        assert(ids.push(x).drop_first() =~= ids.drop_first().push(x));
        lemma_vertex_lookups_push(vs, ids.drop_first(), x);
        match find_vertex(vs, x) {
            Some(t) => {
                match find_vertex(vs, ids[0]) {
                    Some(t0) => {
                        assert(seq![(ids[0], t0)] + vertex_lookups(vs, ids.drop_first()).push(
                            (x, t),
                        ) =~= (seq![(ids[0], t0)] + vertex_lookups(vs, ids.drop_first())).push(
                            (x, t),
                        ));
                    },
                    None => {},
                }
            },
            None => {},
        }
    }
}

/// Looking up one more key appends its hit, if any.
pub proof fn lemma_edge_lookups_push(es: Seq<(EdgeKeyV, u64)>, keys: Seq<EdgeKeyV>, x: EdgeKeyV)
    ensures
        edge_lookups(es, keys.push(x)) == match find_edge(es, x) {
            Some(t) => edge_lookups(es, keys).push((x, t)),
            None => edge_lookups(es, keys),
        },
    decreases keys.len(),
{
    reveal_with_fuel(edge_lookups, 3);
    if keys.len() == 0 {
        assert(keys.push(x)[0] == x);
        assert(keys.push(x).drop_first() =~= Seq::empty());
        match find_edge(es, x) {
            Some(t) => {
                assert(edge_lookups(es, keys.push(x)) =~= edge_lookups(es, keys).push((x, t)));
            },
            None => {},
        }
    } else {
        assert(keys.push(x)[0] == keys[0]);
        assert(keys.push(x).drop_first() =~= keys.drop_first().push(x));
        lemma_edge_lookups_push(es, keys.drop_first(), x);
        match find_edge(es, x) {
            Some(t) => {
                match find_edge(es, keys[0]) {
                    Some(t0) => {
                        assert(seq![(keys[0], t0)] + edge_lookups(es, keys.drop_first()).push(
                            (x, t),
                        ) =~= (seq![(keys[0], t0)] + edge_lookups(es, keys.drop_first())).push(
                            (x, t),
                        ));
                    },
                    None => {},
                }
            },
            None => {},
        }
    }
}

/// In a sorted vertex table an entry is what lookup finds.
pub proof fn lemma_sorted_find_vertex(vs: Seq<(Identifier, Seq<char>)>, i: int)
    requires
        vertices_sorted(vs),
        0 <= i < vs.len(),
    ensures
        find_vertex(vs, vs[i].0) == Some(vs[i].1),
    decreases vs.len(),
{
    if i > 0 {
        assert(vs[0].0.0 < vs[i].0.0);
        lemma_sorted_find_vertex(vs.drop_first(), i - 1);
        assert(vs.drop_first()[i - 1] == vs[i]);
        assert forall|a: int, b: int|
            0 <= a < b < vs.drop_first().len() implies (#[trigger] vs.drop_first()[a]).0.0 < (
        #[trigger] vs.drop_first()[b]).0.0 by {
            assert(vs.drop_first()[a] == vs[a + 1]);
            assert(vs.drop_first()[b] == vs[b + 1]);
        }
    }
}

/// In a sorted edge table an entry is what lookup finds.
pub proof fn lemma_sorted_find_edge(es: Seq<(EdgeKeyV, u64)>, i: int)
    requires
        edges_sorted(es),
        0 <= i < es.len(),
    ensures
        find_edge(es, es[i].0) == Some(es[i].1),
    decreases es.len(),
{
    if i > 0 {
        assert(key_lt(es[0].0, es[i].0));
        lemma_key_lt_irrefl(es[0].0);
        assert(es[0].0 != es[i].0);
        lemma_sorted_find_edge(es.drop_first(), i - 1);
        assert(es.drop_first()[i - 1] == es[i]);
        assert forall|a: int, b: int|
            0 <= a < b < es.drop_first().len() implies key_lt(
            (#[trigger] es.drop_first()[a]).0,
            (#[trigger] es.drop_first()[b]).0,
        ) by {
            assert(es.drop_first()[a] == es[a + 1]);
            assert(es.drop_first()[b] == es[b + 1]);
        }
    }
}

/// When the first `i` entries all miss the id, the search continues in the
/// rest.
pub proof fn lemma_find_vertex_skip(vs: Seq<(Identifier, Seq<char>)>, id: Identifier, i: int)
    requires
        0 <= i <= vs.len(),
        forall|j: int| 0 <= j < i ==> (#[trigger] vs[j]).0 != id,
    ensures
        find_vertex(vs, id) == find_vertex(vs.skip(i), id),
    decreases i,
{
    if i > 0 {
        assert(vs[0].0 != id);
        lemma_find_vertex_skip(vs.drop_first(), id, i - 1);
        assert(vs.drop_first().skip(i - 1) =~= vs.skip(i));
    } else {
        assert(vs.skip(0) =~= vs);
    }
}

/// When the first `i` entries all miss the key, the search continues in
/// the rest.
pub proof fn lemma_find_edge_skip(es: Seq<(EdgeKeyV, u64)>, k: EdgeKeyV, i: int)
    requires
        0 <= i <= es.len(),
        forall|j: int| 0 <= j < i ==> (#[trigger] es[j]).0 != k,
    ensures
        find_edge(es, k) == find_edge(es.skip(i), k),
    decreases i,
{
    if i > 0 {
        assert(es[0].0 != k);
        lemma_find_edge_skip(es.drop_first(), k, i - 1);
        assert(es.drop_first().skip(i - 1) =~= es.skip(i));
    } else {
        assert(es.skip(0) =~= es);
    }
}

} // verus!
