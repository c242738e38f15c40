//! The in-memory datastore and its transactions.
//!
//! All of the data lives in one [`InternalState`] behind a single
//! reader–writer lock, so queries that span several maps never face a
//! lock-ordering hazard. Transactions are cheap shared handles onto the
//! same state; every operation acquires the lock for its own duration, so
//! a "transaction" here is an atomic single operation. The lock's
//! invariant is [`InternalState::wf`]: every operation receives a
//! well-formed store and must leave one behind.

use vstd::prelude::*;
use vstd::rwlock::{RwLock, RwLockPredicate};
use std::sync::Arc;
use crate::engine::{InternalState, StateV, eval_vq, eval_eq, has_vertex, type_ok, get_vprops,
    get_eprops, vertices_view, edges_view};
use crate::ident::Identifier;
use crate::models::{Vertex, VertexV, Edge, EdgeV, EdgeKey, EdgeKeyV, VertexProperty, EdgeProperty};
use crate::queries::{VertexQuery, EdgeQuery, EdgeDirection};
use crate::types::Type;

verus! {

/// The lock invariant: whatever is stored behind the lock is well-formed.
pub struct StoreInv;

impl RwLockPredicate<InternalState> for StoreInv {
    open spec fn inv(self, s: InternalState) -> bool {
        s.wf()
    }
}

/// Relies on chrono's conversion from the system clock: the current
/// wall-clock time as nanoseconds since the epoch, negative for a clock
/// set before it, `None` where it does not fit in 64 bits. The
/// conversion handles a pre-epoch clock without aborting.
#[verifier::external_body]
fn now_timestamp_nanos() -> (r: Option<i64>) {
    chrono::DateTime::<chrono::Utc>::from(std::time::SystemTime::now()).timestamp_nanos_opt()
}

/// The current time in nanoseconds since the epoch; zero when the clock
/// answers with a moment that has no such representation.
fn now_nanos() -> (r: u64) {
    match now_timestamp_nanos() {
        Some(n) => if n >= 0 {
            n as u64
        } else {
            0
        },
        None => 0,
    }
}

/// An in-memory-only datastore.
pub struct MemoryDatastore {
    state: Arc<RwLock<InternalState, StoreInv>>,
}

impl MemoryDatastore {
    /// Creates a new, empty in-memory datastore.
    pub fn default() -> (r: MemoryDatastore) {
        MemoryDatastore { state: Arc::new(RwLock::new(InternalState::new(), Ghost(StoreInv))) }
    }

    /// Opens a transaction: a shared handle onto this datastore.
    pub fn transaction(&self) -> (r: MemoryTransaction) {
        MemoryTransaction { datastore: Arc::clone(&self.state) }
    }
}

/// A transaction for manipulating in-memory-only datastores. Each
/// operation takes the shared lock in the mode it needs, for its own
/// duration only.
pub struct MemoryTransaction {
    datastore: Arc<RwLock<InternalState, StoreInv>>,
}

impl MemoryTransaction {
    /// Inserts a vertex. Answers `false`, changing nothing, exactly when
    /// the id was already present in the store at call time.
    pub fn create_vertex(&self, vertex: &Vertex) -> (r: bool)
        ensures
            exists|pre: StateV|
                #[trigger] pre.wf() && r == !has_vertex(pre.vertices, vertex.id),
    {
        let (mut state, handle) = self.datastore.acquire_write();
        let ghost pre = state.v();
        let r = state.create_vertex(vertex);
        handle.release_write(state);
        proof {
            assert(pre.wf() && r == !has_vertex(pre.vertices, vertex.id));
        }
        r
    }

    /// The vertices the query selects, against the state the lock hands
    /// out.
    pub fn get_vertices(&self, q: &VertexQuery) -> (r: Vec<Vertex>)
        ensures
            exists|st: StateV|
                #[trigger] st.wf() && Seq::new(r@.len(), |i: int| r@[i]@) == eval_vq(
                    st,
                    q.qview(),
                ).map_values(|p: (Identifier, Seq<char>)| (VertexV { id: p.0, t: p.1 })),
    {
        let read_handle = self.datastore.acquire_read();
        let guard = read_handle.borrow();
        let ghost st = guard.v();
        let rows = guard.get_vertex_values_by_query(q);
        read_handle.release_read();
        let n = rows.len();
        let mut result: Vec<Vertex> = Vec::new();
        let mut i: usize = 0;
        while i < n
            invariant
                i <= n,
                n == rows@.len(),
                result@.len() == i,
                forall|j: int|
                    0 <= j < i ==> (#[trigger] result@[j])@ == (VertexV {
                        id: vertices_view(rows@)[j].0,
                        t: vertices_view(rows@)[j].1,
                    }),
            decreases n - i,
        {
            let id = rows[i].0;
            let t = rows[i].1.duplicate();
            result.push(Vertex::with_id(id, t));
            i = i + 1;
        }
        proof {
            let target = eval_vq(st, q.qview()).map_values(
                |p: (Identifier, Seq<char>)| (VertexV { id: p.0, t: p.1 }),
            );
            assert(Seq::new(result@.len(), |i: int| result@[i]@) =~= target);
        }
        result
    }

    /// Deletes the vertices the query selects, cascading to their
    /// properties, their incident edges, and those edges' properties.
    pub fn delete_vertices(&self, q: &VertexQuery)
    {
        let (mut state, handle) = self.datastore.acquire_write();
        let rows = state.get_vertex_values_by_query(q);
        let n = rows.len();
        let mut ids: Vec<Identifier> = Vec::new();
        let mut i: usize = 0;
        while i < n
            invariant
                i <= n,
                n == rows@.len(),
            decreases n - i,
        {
            ids.push(rows[i].0);
            i = i + 1;
        }
        state.delete_vertices(ids);
        handle.release_write(state);
    }

    /// The number of vertices in the store.
    pub fn get_vertex_count(&self) -> (r: u64)
        ensures
            exists|st: StateV| #[trigger] st.wf() && r as nat == st.vertices.len(),
    {
        let read_handle = self.datastore.acquire_read();
        let guard = read_handle.borrow();
        let ghost st = guard.v();
        let r = guard.vertex_count();
        read_handle.release_read();
        proof {
            assert(st.wf() && r as nat == st.vertices.len());
        }
        r
    }

    /// Inserts an edge created now. Answers `false`, changing nothing,
    /// exactly when either endpoint was missing at call time; an existing
    /// edge has its creation time refreshed.
    pub fn create_edge(&self, key: &EdgeKey) -> (r: bool)
        ensures
            exists|pre: StateV|
                #[trigger] pre.wf() && r == (has_vertex(pre.vertices, key@.outbound_id)
                    && has_vertex(pre.vertices, key@.inbound_id)),
    {
        let now = now_nanos();
        let (mut state, handle) = self.datastore.acquire_write();
        let ghost pre = state.v();
        let r = state.create_edge(key, now);
        handle.release_write(state);
        proof {
            assert(pre.wf() && r == (has_vertex(pre.vertices, key@.outbound_id) && has_vertex(
                pre.vertices,
                key@.inbound_id,
            )));
        }
        r
    }

    /// The edges the query selects, against the state the lock hands out.
    pub fn get_edges(&self, q: &EdgeQuery) -> (r: Vec<Edge>)
        ensures
            exists|st: StateV|
                #[trigger] st.wf() && Seq::new(r@.len(), |i: int| r@[i]@) == eval_eq(
                    st,
                    q.qview(),
                ).map_values(
                    |e: (EdgeKeyV, u64)| (EdgeV { key: e.0, created_datetime: e.1 }),
                ),
    {
        let read_handle = self.datastore.acquire_read();
        let guard = read_handle.borrow();
        let ghost st = guard.v();
        let rows = guard.get_edge_values_by_query(q);
        read_handle.release_read();
        let n = rows.len();
        let mut result: Vec<Edge> = Vec::new();
        let mut i: usize = 0;
        while i < n
            invariant
                i <= n,
                n == rows@.len(),
                result@.len() == i,
                forall|j: int|
                    0 <= j < i ==> (#[trigger] result@[j])@ == (EdgeV {
                        key: edges_view(rows@)[j].0,
                        created_datetime: edges_view(rows@)[j].1,
                    }),
            decreases n - i,
        {
            let k = rows[i].0.duplicate();
            let ts = rows[i].1;
            result.push(Edge::new(k, ts));
            i = i + 1;
        }
        proof {
            let target = eval_eq(st, q.qview()).map_values(
                |e: (EdgeKeyV, u64)| (EdgeV { key: e.0, created_datetime: e.1 }),
            );
            assert(Seq::new(result@.len(), |i: int| result@[i]@) =~= target);
        }
        result
    }

    /// Deletes the edges the query selects, cascading to their properties.
    pub fn delete_edges(&self, q: &EdgeQuery)
    {
        let (mut state, handle) = self.datastore.acquire_write();
        let rows = state.get_edge_values_by_query(q);
        let n = rows.len();
        let mut keys: Vec<EdgeKey> = Vec::new();
        let mut i: usize = 0;
        while i < n
            invariant
                i <= n,
                n == rows@.len(),
            decreases n - i,
        {
            let k = rows[i].0.duplicate();
            keys.push(k);
            i = i + 1;
        }
        state.delete_edges(keys);
        handle.release_write(state);
    }

    /// Counts the edges incident to a vertex on the given side, optionally
    /// restricted to one type.
    pub fn get_edge_count(
        &self,
        id: Identifier,
        type_filter: Option<&Type>,
        direction: EdgeDirection,
    ) -> (r: u64)
        ensures
            exists|st: StateV|
                #[trigger] st.wf() && r as nat == ({
                    let tf = match type_filter {
                        Some(t) => Some(t@),
                        None => None,
                    };
                    match direction {
                        EdgeDirection::Outbound => st.edges.filter(
                            |e: (EdgeKeyV, u64)| e.0.outbound_id == id && type_ok(e.0, tf),
                        ).len(),
                        EdgeDirection::Inbound => st.edges.filter(
                            |e: (EdgeKeyV, u64)| e.0.inbound_id == id && type_ok(e.0, tf),
                        ).len(),
                    }
                }),
    {
        let read_handle = self.datastore.acquire_read();
        let guard = read_handle.borrow();
        let ghost st = guard.v();
        let r = guard.get_edge_count(id, type_filter, direction);
        read_handle.release_read();
        r
    }

    /// The named property of every vertex the query selects that has it.
    pub fn get_vertex_properties(&self, q: &VertexQuery, name: &str) -> (r: Vec<VertexProperty>)
        ensures
            exists|st: StateV|
                #[trigger] st.wf() && Seq::new(r@.len(), |i: int| r@[i]@) == get_vprops(
                    st.vertex_properties,
                    eval_vq(st, q.qview()),
                    name@,
                ),
    {
        let read_handle = self.datastore.acquire_read();
        let guard = read_handle.borrow();
        let ghost st = guard.v();
        let r = guard.get_vertex_properties(q, name);
        read_handle.release_read();
        r
    }

    /// Evaluates the query under the write lock, then upserts the named
    /// property on each selected vertex.
    pub fn set_vertex_properties(&self, q: &VertexQuery, name: &str, value: &serde_json::Value)
    {
        let (mut state, handle) = self.datastore.acquire_write();
        state.set_vertex_properties(q, name, value);
        handle.release_write(state);
    }

    /// Evaluates the query under the write lock, then removes the named
    /// property from each selected vertex.
    pub fn delete_vertex_properties(&self, q: &VertexQuery, name: &str)
    {
        let (mut state, handle) = self.datastore.acquire_write();
        state.delete_vertex_properties(q, name);
        handle.release_write(state);
    }

    /// The named property of every edge the query selects that has it.
    pub fn get_edge_properties(&self, q: &EdgeQuery, name: &str) -> (r: Vec<EdgeProperty>)
        ensures
            exists|st: StateV|
                #[trigger] st.wf() && Seq::new(r@.len(), |i: int| r@[i]@) == get_eprops(
                    st.edge_properties,
                    eval_eq(st, q.qview()),
                    name@,
                ),
    {
        let read_handle = self.datastore.acquire_read();
        let guard = read_handle.borrow();
        let ghost st = guard.v();
        let r = guard.get_edge_properties(q, name);
        read_handle.release_read();
        r
    }

    /// Evaluates the query under the write lock, then upserts the named
    /// property on each selected edge.
    pub fn set_edge_properties(&self, q: &EdgeQuery, name: &str, value: &serde_json::Value)
    {
        let (mut state, handle) = self.datastore.acquire_write();
        state.set_edge_properties(q, name, value);
        handle.release_write(state);
    }

    /// Evaluates the query under the write lock, then removes the named
    /// property from each selected edge.
    pub fn delete_edge_properties(&self, q: &EdgeQuery, name: &str)
    {
        let (mut state, handle) = self.datastore.acquire_write();
        state.delete_edge_properties(q, name);
        handle.release_write(state);
    }
}

} // verus!
