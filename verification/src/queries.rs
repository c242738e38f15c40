//! The query algebra: recursive, pipe-oriented queries over vertices and
//! edges.
//!
//! Edge and vertex queries build off one another via pipes: the outbound
//! or inbound end of the edges a query returns can feed the next stage.
//! Every pipe carries its own limit; limits do not propagate.

use vstd::prelude::*;
use core::str::FromStr;
use crate::errors::ValidationError;
use crate::ident::Identifier;
use crate::models::EdgeKey;
use crate::models::EdgeKeyV;
use crate::types::{Type, str_eq};

verus! {

/// Which end of an edge feeds into the next stage of a pipe.
#[derive(Clone, Copy, Debug, PartialEq, Eq, Hash, Structural)]
pub enum EdgeDirection {
    Outbound,
    Inbound,
}

/// The textual form of a direction.
pub open spec fn direction_chars(d: EdgeDirection) -> Seq<char> {
    match d {
        EdgeDirection::Outbound => "outbound"@,
        EdgeDirection::Inbound => "inbound"@,
    }
}

/// What parsing a direction string yields.
pub open spec fn parse_direction_spec(s: Seq<char>) -> Result<EdgeDirection, ValidationError> {
    if s == "outbound"@ {
        Ok(EdgeDirection::Outbound)
    } else if s == "inbound"@ {
        Ok(EdgeDirection::Inbound)
    } else {
        Err(ValidationError::InvalidValue)
    }
}

impl EdgeDirection {
    /// Parses `"outbound"` or `"inbound"`; any other string is rejected
    /// with a validation error.
    pub fn parse(s: &str) -> (r: Result<EdgeDirection, ValidationError>)
        ensures
            r == parse_direction_spec(s@),
    {
        if str_eq(s, "outbound") {
            Ok(EdgeDirection::Outbound)
        } else if str_eq(s, "inbound") {
            Ok(EdgeDirection::Inbound)
        } else {
            Err(ValidationError::InvalidValue)
        }
    }

    /// The textual form: `"outbound"` or `"inbound"`.
    pub fn as_str(&self) -> (r: &'static str)
        ensures
            r@ == direction_chars(*self),
    {
        match self {
            EdgeDirection::Outbound => "outbound",
            EdgeDirection::Inbound => "inbound",
        }
    }

    /// Textual round trip: a direction parses back from its own string
    /// form, for both directions.
    pub proof fn lemma_direction_round_trip(d: EdgeDirection)
        ensures
            parse_direction_spec(direction_chars(d)) == Ok::<
                EdgeDirection,
                ValidationError,
            >(d),
    {
        reveal_strlit("outbound");
        reveal_strlit("inbound");
        assert("outbound"@.len() == 8);
        assert("inbound"@.len() == 7);
    }
}

impl FromStr for EdgeDirection {
    type Err = ValidationError;

    fn from_str(s: &str) -> Result<EdgeDirection, ValidationError> {
        EdgeDirection::parse(s)
    }
}

impl From<EdgeDirection> for String {
    /// The textual form, as an owned string.
    fn from(d: EdgeDirection) -> (r: String) {
        d.as_str().to_owned()
    }
}

impl vstd::std_specs::convert::FromSpecImpl<EdgeDirection> for String {
    open spec fn obeys_from_spec() -> bool {
        false
    }

    open spec fn from_spec(d: EdgeDirection) -> String {
        vstd::pervasive::arbitrary()
    }
}

/// A query for vertices.
#[derive(Debug, PartialEq, Eq)]
pub enum VertexQuery {
    All { start_id: Option<Identifier>, limit: u32 },
    Vertices { ids: Vec<Identifier> },
    Pipe { edge_query: Box<EdgeQuery>, converter: EdgeDirection, limit: u32 },
}

/// A query for edges.
#[derive(Debug, PartialEq, Eq)]
pub enum EdgeQuery {
    Edges { keys: Vec<EdgeKey> },
    Pipe {
        vertex_query: Box<VertexQuery>,
        converter: EdgeDirection,
        type_filter: Option<Type>,
        high_filter: Option<u64>,
        low_filter: Option<u64>,
        limit: u32,
    },
}

/// The mathematical value of a vertex query.
pub ghost enum VertexQueryV {
    All { start_id: Option<Identifier>, limit: u32 },
    Vertices { ids: Seq<Identifier> },
    Pipe { edge_query: Box<EdgeQueryV>, converter: EdgeDirection, limit: u32 },
}

/// The mathematical value of an edge query.
pub ghost enum EdgeQueryV {
    Edges { keys: Seq<EdgeKeyV> },
    Pipe {
        vertex_query: Box<VertexQueryV>,
        converter: EdgeDirection,
        type_filter: Option<Seq<char>>,
        high_filter: Option<u64>,
        low_filter: Option<u64>,
        limit: u32,
    },
}

impl VertexQuery {
    /// The mathematical value of this query.
    pub open spec fn qview(&self) -> VertexQueryV
        decreases self,
    {
        match self {
            VertexQuery::All { start_id, limit } => VertexQueryV::All {
                start_id: *start_id,
                limit: *limit,
            },
            VertexQuery::Vertices { ids } => VertexQueryV::Vertices { ids: ids@ },
            VertexQuery::Pipe { edge_query, converter, limit } => VertexQueryV::Pipe {
                edge_query: Box::new(edge_query.qview()),
                converter: *converter,
                limit: *limit,
            },
        }
    }
}

impl EdgeQuery {
    /// The mathematical value of this query.
    pub open spec fn qview(&self) -> EdgeQueryV
        decreases self,
    {
        match self {
            EdgeQuery::Edges { keys } => EdgeQueryV::Edges {
                keys: Seq::new(keys@.len(), |i: int| keys@[i]@),
            },
            EdgeQuery::Pipe { vertex_query, converter, type_filter, high_filter, low_filter, limit }
                => EdgeQueryV::Pipe {
                vertex_query: Box::new(vertex_query.qview()),
                converter: *converter,
                type_filter: match type_filter {
                    Some(t) => Some(t@),
                    None => None,
                },
                high_filter: *high_filter,
                low_filter: *low_filter,
                limit: *limit,
            },
        }
    }
}

impl VertexQuery {
    /// Pipes this query into an outbound edge query.
    pub fn outbound_edges(
        self,
        type_filter: Option<Type>,
        high_filter: Option<u64>,
        low_filter: Option<u64>,
        limit: u32,
    ) -> (r: EdgeQuery)
        ensures
            r.qview() == (EdgeQueryV::Pipe {
                vertex_query: Box::new(self.qview()),
                converter: EdgeDirection::Outbound,
                type_filter: match type_filter {
                    Some(t) => Some(t@),
                    None => None,
                },
                high_filter,
                low_filter,
                limit,
            }),
    {
        EdgeQuery::Pipe {
            vertex_query: Box::new(self),
            converter: EdgeDirection::Outbound,
            type_filter,
            high_filter,
            low_filter,
            limit,
        }
    }

    /// Pipes this query into an inbound edge query.
    pub fn inbound_edges(
        self,
        type_filter: Option<Type>,
        high_filter: Option<u64>,
        low_filter: Option<u64>,
        limit: u32,
    ) -> (r: EdgeQuery)
        ensures
            r.qview() == (EdgeQueryV::Pipe {
                vertex_query: Box::new(self.qview()),
                converter: EdgeDirection::Inbound,
                type_filter: match type_filter {
                    Some(t) => Some(t@),
                    None => None,
                },
                high_filter,
                low_filter,
                limit,
            }),
    {
        EdgeQuery::Pipe {
            vertex_query: Box::new(self),
            converter: EdgeDirection::Inbound,
            type_filter,
            high_filter,
            low_filter,
            limit,
        }
    }
}

impl EdgeQuery {
    /// Pipes this query into a vertex query over outbound endpoints.
    pub fn outbound_vertices(self, limit: u32) -> (r: VertexQuery)
        ensures
            r.qview() == (VertexQueryV::Pipe {
                edge_query: Box::new(self.qview()),
                converter: EdgeDirection::Outbound,
                limit,
            }),
    {
        VertexQuery::Pipe {
            edge_query: Box::new(self),
            converter: EdgeDirection::Outbound,
            limit,
        }
    }

    /// Pipes this query into a vertex query over inbound endpoints.
    pub fn inbound_vertices(self, limit: u32) -> (r: VertexQuery)
        ensures
            r.qview() == (VertexQueryV::Pipe {
                edge_query: Box::new(self.qview()),
                converter: EdgeDirection::Inbound,
                limit,
            }),
    {
        VertexQuery::Pipe {
            edge_query: Box::new(self),
            converter: EdgeDirection::Inbound,
            limit,
        }
    }
}

} // verus!
