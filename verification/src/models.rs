//! Domain types: vertices, edge keys, edges, properties, bulk-insert items.

use vstd::prelude::*;
use crate::ident::Identifier;
use crate::types::{Type, lex_lt, lex_lt_exec, str_eq};
use crate::types::{lemma_lex_lt_irrefl, lemma_lex_lt_connex, lemma_lex_lt_trans};

verus! {

/// A vertex: an identifier and an immutable type.
#[derive(Debug, PartialEq, Eq)]
pub struct Vertex {
    pub id: Identifier,
    pub t: Type,
}

/// The mathematical value of a vertex.
pub ghost struct VertexV {
    pub id: Identifier,
    pub t: Seq<char>,
}

impl View for Vertex {
    type V = VertexV;

    open spec fn view(&self) -> VertexV {
        VertexV { id: self.id, t: self.t@ }
    }
}

impl Vertex {
    /// Builds a vertex with the given id and type.
    pub fn with_id(id: Identifier, t: Type) -> (r: Vertex)
        ensures
            r@ == (VertexV { id, t: t@ }),
    {
        Vertex { id, t }
    }
}

/// The composite key `(outbound_id, t, inbound_id)`: the sole identity of an
/// edge. Ordered lexicographically in that field order.
#[derive(Debug, PartialEq, Eq)]
pub struct EdgeKey {
    pub outbound_id: Identifier,
    pub t: Type,
    pub inbound_id: Identifier,
}

/// The mathematical value of an edge key.
pub ghost struct EdgeKeyV {
    pub outbound_id: Identifier,
    pub t: Seq<char>,
    pub inbound_id: Identifier,
}

impl View for EdgeKey {
    type V = EdgeKeyV;

    open spec fn view(&self) -> EdgeKeyV {
        EdgeKeyV { outbound_id: self.outbound_id, t: self.t@, inbound_id: self.inbound_id }
    }
}

impl EdgeKey {
    /// Builds an edge key from its three parts.
    pub fn new(outbound_id: Identifier, t: Type, inbound_id: Identifier) -> (r: EdgeKey)
        ensures
            r@ == (EdgeKeyV { outbound_id, t: t@, inbound_id }),
    {
        EdgeKey { outbound_id, t, inbound_id }
    }

    /// An owned copy denoting the same key.
    pub fn duplicate(&self) -> (r: EdgeKey)
        ensures
            r@ == self@,
    {
        EdgeKey {
            outbound_id: self.outbound_id,
            t: self.t.duplicate(),
            inbound_id: self.inbound_id,
        }
    }
}

/// Strict lexicographic order on edge keys: by outbound id, then type,
/// then inbound id. This ordering makes all edges that share an
/// `(outbound_id, t)` prefix contiguous, which range scans rely on.
pub open spec fn key_lt(a: EdgeKeyV, b: EdgeKeyV) -> bool {
    ||| a.outbound_id.0 < b.outbound_id.0
    ||| (a.outbound_id == b.outbound_id && lex_lt(a.t, b.t))
    ||| (a.outbound_id == b.outbound_id && a.t == b.t && a.inbound_id.0 < b.inbound_id.0)
}

pub proof fn lemma_key_lt_irrefl(a: EdgeKeyV)
    ensures
        !key_lt(a, a),
{
    lemma_lex_lt_irrefl(a.t);
}

pub proof fn lemma_key_lt_connex(a: EdgeKeyV, b: EdgeKeyV)
    ensures
        key_lt(a, b) || key_lt(b, a) || a == b,
{
    if a.outbound_id.0 == b.outbound_id.0 {
        lemma_lex_lt_connex(a.t, b.t);
    }
}

pub proof fn lemma_key_lt_trans(a: EdgeKeyV, b: EdgeKeyV, c: EdgeKeyV)
    requires
        key_lt(a, b),
        key_lt(b, c),
    ensures
        key_lt(a, c),
{
    if a.outbound_id == b.outbound_id && b.outbound_id == c.outbound_id {
        if lex_lt(a.t, b.t) && lex_lt(b.t, c.t) {
            lemma_lex_lt_trans(a.t, b.t, c.t);
        }
    }
}

/// Compares two edge keys in the order of [`key_lt`].
pub fn key_lt_exec(a: &EdgeKey, b: &EdgeKey) -> (r: bool)
    ensures
        r == key_lt(a@, b@),
{
    if a.outbound_id.0 < b.outbound_id.0 {
        true
    } else if b.outbound_id.0 < a.outbound_id.0 {
        false
    } else if lex_lt_exec(a.t.as_str(), b.t.as_str()) {
        true
    } else if lex_lt_exec(b.t.as_str(), a.t.as_str()) {
        false
    } else {
        proof {
            lemma_lex_lt_connex(a.t@, b.t@);
        }
        a.inbound_id.0 < b.inbound_id.0
    }
}

/// Equality of two edge keys.
pub fn key_eq_exec(a: &EdgeKey, b: &EdgeKey) -> (r: bool)
    ensures
        r == (a@ == b@),
{
    let same = a.outbound_id.0 == b.outbound_id.0 && a.inbound_id.0 == b.inbound_id.0 && str_eq(
        a.t.as_str(),
        b.t.as_str(),
    );
    proof {
        if same {
            assert(a@ =~= b@);
        }
    }
    same
}

/// An edge: its key together with the moment the engine (re)created it,
/// in nanoseconds since the epoch.
#[derive(Debug, PartialEq, Eq)]
pub struct Edge {
    pub key: EdgeKey,
    pub created_datetime: u64,
}

/// The mathematical value of an edge.
pub ghost struct EdgeV {
    pub key: EdgeKeyV,
    pub created_datetime: u64,
}

impl View for Edge {
    type V = EdgeV;

    open spec fn view(&self) -> EdgeV {
        EdgeV { key: self.key@, created_datetime: self.created_datetime }
    }
}

impl Edge {
    /// Builds an edge from its key and creation time.
    pub fn new(key: EdgeKey, created_datetime: u64) -> (r: Edge)
        ensures
            r@ == (EdgeV { key: key@, created_datetime }),
    {
        Edge { key, created_datetime }
    }
}

/// A named property value attached to a vertex. The value is an opaque
/// structured document.
#[derive(Debug, PartialEq)]
pub struct VertexProperty {
    pub id: Identifier,
    pub value: serde_json::Value,
}

impl View for VertexProperty {
    type V = (Identifier, serde_json::Value);

    open spec fn view(&self) -> (Identifier, serde_json::Value) {
        (self.id, self.value)
    }
}

impl VertexProperty {
    /// Builds a vertex property record.
    pub fn new(id: Identifier, value: serde_json::Value) -> (r: VertexProperty)
        ensures
            r@ == (id, value),
    {
        VertexProperty { id, value }
    }
}

/// A named property value attached to an edge.
#[derive(Debug, PartialEq)]
pub struct EdgeProperty {
    pub key: EdgeKey,
    pub value: serde_json::Value,
}

impl View for EdgeProperty {
    type V = (EdgeKeyV, serde_json::Value);

    open spec fn view(&self) -> (EdgeKeyV, serde_json::Value) {
        (self.key@, self.value)
    }
}

impl EdgeProperty {
    /// Builds an edge property record.
    pub fn new(key: EdgeKey, value: serde_json::Value) -> (r: EdgeProperty)
        ensures
            r@ == (key@, value),
    {
        EdgeProperty { key, value }
    }
}

/// One item of a bulk insertion: the codec frames these; their application
/// semantics is "each item applied in order".
#[derive(Debug, PartialEq)]
pub enum BulkInsertItem {
    Vertex(Vertex),
    Edge(EdgeKey),
    VertexProperty(Identifier, String, serde_json::Value),
    EdgeProperty(EdgeKey, String, serde_json::Value),
}

/// The mathematical value of a bulk-insert item.
pub ghost enum BulkInsertItemV {
    Vertex(VertexV),
    Edge(EdgeKeyV),
    VertexProperty(Identifier, Seq<char>, serde_json::Value),
    EdgeProperty(EdgeKeyV, Seq<char>, serde_json::Value),
}

impl View for BulkInsertItem {
    type V = BulkInsertItemV;

    open spec fn view(&self) -> BulkInsertItemV {
        match self {
            BulkInsertItem::Vertex(v) => BulkInsertItemV::Vertex(v@),
            BulkInsertItem::Edge(k) => BulkInsertItemV::Edge(k@),
            BulkInsertItem::VertexProperty(id, name, value) => BulkInsertItemV::VertexProperty(
                *id,
                name@,
                *value,
            ),
            BulkInsertItem::EdgeProperty(k, name, value) => BulkInsertItemV::EdgeProperty(
                k@,
                name@,
                *value,
            ),
        }
    }
}

} // verus!
