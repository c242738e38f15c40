//! The binary wire codec.
//!
//! A schema-driven, symmetric projection of every model and query onto
//! bytes: `from_*` encodes a native value, `to_*` decodes and validates.
//! Identifiers travel as 16 raw bytes; strings as length-prefixed UTF-8;
//! property values as JSON text; timestamps on edges as seconds and on
//! filters as nanoseconds with zero meaning "no bound"; unions as a
//! one-byte tag; lists as length-prefixed sequences.

use vstd::prelude::*;
use crate::errors::CodecError;
use crate::ident::{Identifier, be_bytes, be_val, pow256, be_encode, be_decode, lemma_be_bytes_len,
    lemma_be_val_be_bytes, lemma_be_val_bound};
use crate::json::{json_text_of, json_parses, json_to_string, json_from_str};
use crate::models::{Vertex, VertexV, Edge, EdgeV, EdgeKey, EdgeKeyV, VertexProperty, EdgeProperty,
    BulkInsertItem, BulkInsertItemV};
use crate::queries::{EdgeDirection, VertexQuery, EdgeQuery, VertexQueryV, EdgeQueryV};
use crate::types::{Type, type_valid};
use vstd::utf8::{encode_utf8, decode_utf8, valid_utf8};

verus! {

/// Relies on `String::from_utf8`: builds a string exactly from valid
/// UTF-8 bytes, and refuses anything else.
#[verifier::external_body]
pub(crate) fn string_from_utf8(bytes: Vec<u8>) -> (r: Option<String>)
    ensures
        match r {
            Some(s) => valid_utf8(bytes@) && s@ == decode_utf8(bytes@),
            None => !valid_utf8(bytes@),
        },
{
    String::from_utf8(bytes).ok()
}

// ---------------------------------------------------------------------------
// Wire primitives
// ---------------------------------------------------------------------------

/// A 32-bit field: four bytes, most significant first.
pub open spec fn enc_u32(v: u32) -> Seq<u8> {
    be_bytes(v as nat, 4)
}

/// A 64-bit field: eight bytes, most significant first.
pub open spec fn enc_u64(v: u64) -> Seq<u8> {
    be_bytes(v as nat, 8)
}

/// An identifier: its 16 raw bytes.
pub open spec fn enc_id(id: Identifier) -> Seq<u8> {
    be_bytes(id.0 as nat, 16)
}

/// A byte string: a 64-bit length, then the bytes.
pub open spec fn enc_bytes(data: Seq<u8>) -> Seq<u8> {
    enc_u64(data.len() as u64) + data
}

/// A string: its UTF-8 bytes, length-prefixed.
pub open spec fn enc_string(s: Seq<char>) -> Seq<u8> {
    enc_bytes(encode_utf8(s))
}

pub open spec fn dec_u8(b: Seq<u8>, pos: int) -> Option<(u8, int)> {
    if 0 <= pos && pos + 1 <= b.len() {
        Some((b[pos], pos + 1))
    } else {
        None
    }
}

pub open spec fn dec_u32(b: Seq<u8>, pos: int) -> Option<(u32, int)> {
    if 0 <= pos && pos + 4 <= b.len() {
        Some(((be_val(b.subrange(pos, pos + 4)) as u32), pos + 4))
    } else {
        None
    }
}

pub open spec fn dec_u64(b: Seq<u8>, pos: int) -> Option<(u64, int)> {
    if 0 <= pos && pos + 8 <= b.len() {
        Some(((be_val(b.subrange(pos, pos + 8)) as u64), pos + 8))
    } else {
        None
    }
}

pub open spec fn dec_id(b: Seq<u8>, pos: int) -> Option<(Identifier, int)> {
    if 0 <= pos && pos + 16 <= b.len() {
        Some((Identifier(be_val(b.subrange(pos, pos + 16)) as u128), pos + 16))
    } else {
        None
    }
}

pub open spec fn dec_bytes(b: Seq<u8>, pos: int) -> Option<(Seq<u8>, int)> {
    match dec_u64(b, pos) {
        None => None,
        Some((n, p)) => {
            if p + n <= b.len() {
                Some((b.subrange(p, p + n), p + n))
            } else {
                None
            }
        },
    }
}

pub open spec fn dec_string(b: Seq<u8>, pos: int) -> Option<(Seq<char>, int)> {
    match dec_bytes(b, pos) {
        None => None,
        Some((data, p)) => {
            if valid_utf8(data) {
                Some((decode_utf8(data), p))
            } else {
                None
            }
        },
    }
}

// ---------------------------------------------------------------------------
// Primitive round trips
// ---------------------------------------------------------------------------

proof fn lemma_pow256_small()
    ensures
        pow256(4) == 0x100000000,
        pow256(8) == 0x10000000000000000,
        pow256(16) == 0x100000000000000000000000000000000,
{
    reveal_with_fuel(pow256, 17);
}

pub proof fn lemma_dec_u32_at(b: Seq<u8>, pos: int, v: u32)
    requires
        0 <= pos,
        pos + 4 <= b.len(),
        b.subrange(pos, pos + 4) == enc_u32(v),
    ensures
        dec_u32(b, pos) == Some((v, pos + 4)),
{
    lemma_pow256_small();
    lemma_be_val_be_bytes(v as nat, 4);
}

pub proof fn lemma_dec_u64_at(b: Seq<u8>, pos: int, v: u64)
    requires
        0 <= pos,
        pos + 8 <= b.len(),
        b.subrange(pos, pos + 8) == enc_u64(v),
    ensures
        dec_u64(b, pos) == Some((v, pos + 8)),
{
    lemma_pow256_small();
    lemma_be_val_be_bytes(v as nat, 8);
}

pub proof fn lemma_dec_id_at(b: Seq<u8>, pos: int, id: Identifier)
    requires
        0 <= pos,
        pos + 16 <= b.len(),
        b.subrange(pos, pos + 16) == enc_id(id),
    ensures
        dec_id(b, pos) == Some((id, pos + 16)),
{
    lemma_pow256_small();
    lemma_be_val_be_bytes(id.0 as nat, 16);
}

pub proof fn lemma_dec_bytes_at(b: Seq<u8>, pos: int, data: Seq<u8>)
    requires
        0 <= pos,
        data.len() < 0x10000000000000000,
        pos + enc_bytes(data).len() <= b.len(),
        b.subrange(pos, pos + enc_bytes(data).len()) == enc_bytes(data),
    ensures
        dec_bytes(b, pos) == Some((data, pos + enc_bytes(data).len())),
{
    lemma_be_bytes_len(data.len() as nat, 8);
    let total = enc_bytes(data).len() as int;
    assert(total == 8 + data.len());
    assert(b.subrange(pos, pos + 8) =~= enc_u64(data.len() as u64)) by {
        assert forall|i: int| 0 <= i < 8 implies #[trigger] b.subrange(pos, pos + 8)[i] == enc_u64(
            data.len() as u64,
        )[i] by {
            assert(b.subrange(pos, pos + 8)[i] == b.subrange(pos, pos + total)[i]);
            assert(b.subrange(pos, pos + total)[i] == enc_bytes(data)[i]);
        }
    }
    lemma_dec_u64_at(b, pos, data.len() as u64);
    assert(b.subrange(pos + 8, pos + 8 + data.len()) =~= data) by {
        assert forall|i: int| 0 <= i < data.len() implies #[trigger] b.subrange(
            pos + 8,
            pos + 8 + data.len(),
        )[i] == data[i] by {
            assert(b.subrange(pos + 8, pos + 8 + data.len())[i] == b.subrange(
                pos,
                pos + total,
            )[i + 8]);
            assert(b.subrange(pos, pos + total)[i + 8] == enc_bytes(data)[i + 8]);
        }
    }
}

pub proof fn lemma_dec_string_at(b: Seq<u8>, pos: int, s: Seq<char>)
    requires
        0 <= pos,
        encode_utf8(s).len() < 0x10000000000000000,
        pos + enc_string(s).len() <= b.len(),
        b.subrange(pos, pos + enc_string(s).len()) == enc_string(s),
    ensures
        dec_string(b, pos) == Some((s, pos + enc_string(s).len())),
{
    lemma_dec_bytes_at(b, pos, encode_utf8(s));
    vstd::utf8::encode_utf8_valid_utf8(s);
    vstd::utf8::encode_utf8_decode_utf8(s);
}

// ---------------------------------------------------------------------------
// Message layouts
// ---------------------------------------------------------------------------

/// Nanoseconds in one second: filter timestamps travel as nanoseconds,
/// edge creation times as whole seconds.
pub const NANOS_PER_SEC: u64 = 1000000000;

pub open spec fn enc_vertex(v: VertexV) -> Seq<u8> {
    enc_id(v.id) + enc_string(v.t)
}

pub open spec fn enc_edge_key(k: EdgeKeyV) -> Seq<u8> {
    enc_id(k.outbound_id) + enc_string(k.t) + enc_id(k.inbound_id)
}

pub open spec fn enc_edge(e: EdgeV) -> Seq<u8> {
    enc_edge_key(e.key) + enc_u64((e.created_datetime / NANOS_PER_SEC) as u64)
}

pub open spec fn enc_vertex_property(id: Identifier, value: serde_json::Value) -> Seq<u8> {
    enc_id(id) + enc_string(json_text_of(value))
}

pub open spec fn enc_edge_property(k: EdgeKeyV, value: serde_json::Value) -> Seq<u8> {
    enc_edge_key(k) + enc_string(json_text_of(value))
}

pub open spec fn enc_direction(d: EdgeDirection) -> Seq<u8> {
    match d {
        EdgeDirection::Outbound => seq![0u8],
        EdgeDirection::Inbound => seq![1u8],
    }
}

/// An optional start id: an empty byte slice encodes `None`, a 16-byte
/// slice encodes the identifier.
pub open spec fn enc_opt_id(o: Option<Identifier>) -> Seq<u8> {
    match o {
        None => enc_bytes(Seq::empty()),
        Some(id) => enc_bytes(enc_id(id)),
    }
}

/// An optional timestamp filter: nanoseconds, with zero for `None`.
pub open spec fn enc_opt_ts(o: Option<u64>) -> Seq<u8> {
    match o {
        None => enc_u64(0),
        Some(t) => enc_u64(t),
    }
}

/// An optional type filter: the empty string is the "no filter" sentinel.
pub open spec fn enc_opt_type(o: Option<Seq<char>>) -> Seq<u8> {
    match o {
        None => enc_string(Seq::empty()),
        Some(t) => enc_string(t),
    }
}

pub open spec fn enc_ids(ids: Seq<Identifier>) -> Seq<u8>
    decreases ids.len(),
{
    if ids.len() == 0 {
        Seq::empty()
    } else {
        enc_id(ids[0]) + enc_ids(ids.drop_first())
    }
}

pub open spec fn enc_keys(keys: Seq<EdgeKeyV>) -> Seq<u8>
    decreases keys.len(),
{
    if keys.len() == 0 {
        Seq::empty()
    } else {
        enc_edge_key(keys[0]) + enc_keys(keys.drop_first())
    }
}

pub open spec fn enc_vq(q: VertexQueryV) -> Seq<u8>
    decreases q,
{
    match q {
        VertexQueryV::All { start_id, limit } => seq![0u8] + enc_opt_id(start_id) + enc_u32(limit),
        VertexQueryV::Vertices { ids } => seq![1u8] + enc_u64(ids.len() as u64) + enc_ids(ids),
        VertexQueryV::Pipe { edge_query, converter, limit } => seq![2u8] + enc_eq(*edge_query)
            + enc_direction(converter) + enc_u32(limit),
    }
}

pub open spec fn enc_eq(q: EdgeQueryV) -> Seq<u8>
    decreases q,
{
    match q {
        EdgeQueryV::Edges { keys } => seq![0u8] + enc_u64(keys.len() as u64) + enc_keys(keys),
        EdgeQueryV::Pipe { vertex_query, converter, type_filter, high_filter, low_filter, limit }
            => seq![1u8] + enc_vq(*vertex_query) + enc_direction(converter) + enc_opt_type(
            type_filter,
        ) + enc_opt_ts(high_filter) + enc_opt_ts(low_filter) + enc_u32(limit),
    }
}

pub open spec fn enc_bulk_item(it: BulkInsertItemV) -> Seq<u8> {
    match it {
        BulkInsertItemV::Vertex(v) => seq![0u8] + enc_vertex(v),
        BulkInsertItemV::Edge(k) => seq![1u8] + enc_edge_key(k),
        BulkInsertItemV::VertexProperty(id, name, value) => seq![2u8] + enc_id(id) + enc_string(
            name,
        ) + enc_string(json_text_of(value)),
        BulkInsertItemV::EdgeProperty(k, name, value) => seq![3u8] + enc_edge_key(k) + enc_string(
            name,
        ) + enc_string(json_text_of(value)),
    }
}

pub open spec fn enc_bulk_items_seq(items: Seq<BulkInsertItemV>) -> Seq<u8>
    decreases items.len(),
{
    if items.len() == 0 {
        Seq::empty()
    } else {
        enc_bulk_item(items[0]) + enc_bulk_items_seq(items.drop_first())
    }
}

pub open spec fn enc_bulk(items: Seq<BulkInsertItemV>) -> Seq<u8> {
    enc_u64(items.len() as u64) + enc_bulk_items_seq(items)
}

// ---------------------------------------------------------------------------
// Message decoding, mathematically
// ---------------------------------------------------------------------------

pub open spec fn dec_direction(b: Seq<u8>, pos: int) -> Option<(EdgeDirection, int)> {
    match dec_u8(b, pos) {
        None => None,
        Some((t, p)) => {
            if t == 0 {
                Some((EdgeDirection::Outbound, p))
            } else if t == 1 {
                Some((EdgeDirection::Inbound, p))
            } else {
                None
            }
        },
    }
}

pub open spec fn dec_type_string(b: Seq<u8>, pos: int) -> Option<(Seq<char>, int)> {
    match dec_string(b, pos) {
        None => None,
        Some((s, p)) => {
            if type_valid(s) {
                Some((s, p))
            } else {
                None
            }
        },
    }
}

pub open spec fn dec_vertex(b: Seq<u8>, pos: int) -> Option<(VertexV, int)> {
    match dec_id(b, pos) {
        None => None,
        Some((id, p)) => match dec_type_string(b, p) {
            None => None,
            Some((t, p2)) => Some((VertexV { id, t }, p2)),
        },
    }
}

pub open spec fn dec_edge_key(b: Seq<u8>, pos: int) -> Option<(EdgeKeyV, int)> {
    match dec_id(b, pos) {
        None => None,
        Some((outbound_id, p)) => match dec_type_string(b, p) {
            None => None,
            Some((t, p2)) => match dec_id(b, p2) {
                None => None,
                Some((inbound_id, p3)) => Some((EdgeKeyV { outbound_id, t, inbound_id }, p3)),
            },
        },
    }
}

pub open spec fn dec_edge(b: Seq<u8>, pos: int) -> Option<(EdgeV, int)> {
    match dec_edge_key(b, pos) {
        None => None,
        Some((key, p)) => match dec_u64(b, p) {
            None => None,
            Some((secs, p2)) => {
                if secs <= u64::MAX / NANOS_PER_SEC {
                    Some(
                        (
                            EdgeV {
                                key,
                                created_datetime: (secs * NANOS_PER_SEC) as u64,
                            },
                            p2,
                        ),
                    )
                } else {
                    None
                }
            },
        },
    }
}

/// A decoded vertex property, its value still JSON text.
pub open spec fn dec_vertex_property(b: Seq<u8>, pos: int) -> Option<
    ((Identifier, Seq<char>), int),
> {
    match dec_id(b, pos) {
        None => None,
        Some((id, p)) => match dec_string(b, p) {
            None => None,
            Some((text, p2)) => Some(((id, text), p2)),
        },
    }
}

/// A decoded edge property, its value still JSON text.
pub open spec fn dec_edge_property(b: Seq<u8>, pos: int) -> Option<((EdgeKeyV, Seq<char>), int)> {
    match dec_edge_key(b, pos) {
        None => None,
        Some((key, p)) => match dec_string(b, p) {
            None => None,
            Some((text, p2)) => Some(((key, text), p2)),
        },
    }
}

pub open spec fn dec_opt_id(b: Seq<u8>, pos: int) -> Option<(Option<Identifier>, int)> {
    match dec_bytes(b, pos) {
        None => None,
        Some((data, p)) => {
            if data.len() == 0 {
                Some((None, p))
            } else if data.len() == 16 {
                Some((Some(Identifier(be_val(data) as u128)), p))
            } else {
                None
            }
        },
    }
}

pub open spec fn dec_opt_ts(b: Seq<u8>, pos: int) -> Option<(Option<u64>, int)> {
    match dec_u64(b, pos) {
        None => None,
        Some((t, p)) => {
            if t == 0 {
                Some((None, p))
            } else {
                Some((Some(t), p))
            }
        },
    }
}

pub open spec fn dec_opt_type(b: Seq<u8>, pos: int) -> Option<(Option<Seq<char>>, int)> {
    match dec_string(b, pos) {
        None => None,
        Some((s, p)) => {
            if s.len() == 0 {
                Some((None, p))
            } else if type_valid(s) {
                Some((Some(s), p))
            } else {
                None
            }
        },
    }
}

pub open spec fn dec_ids(b: Seq<u8>, pos: int, n: int) -> Option<(Seq<Identifier>, int)>
    decreases n,
{
    if n <= 0 {
        Some((Seq::empty(), pos))
    } else {
        match dec_id(b, pos) {
            None => None,
            Some((id, p)) => match dec_ids(b, p, n - 1) {
                None => None,
                Some((rest, p2)) => Some((seq![id] + rest, p2)),
            },
        }
    }
}

pub open spec fn dec_keys(b: Seq<u8>, pos: int, n: int) -> Option<(Seq<EdgeKeyV>, int)>
    decreases n,
{
    if n <= 0 {
        Some((Seq::empty(), pos))
    } else {
        match dec_edge_key(b, pos) {
            None => None,
            Some((k, p)) => match dec_keys(b, p, n - 1) {
                None => None,
                Some((rest, p2)) => Some((seq![k] + rest, p2)),
            },
        }
    }
}

pub open spec fn dec_vq(b: Seq<u8>, pos: int) -> Option<(VertexQueryV, int)>
    decreases b.len() - pos, 1int,
{
    match dec_u8(b, pos) {
        None => None,
        Some((tag, p)) => {
            if tag == 0 {
                match dec_opt_id(b, p) {
                    None => None,
                    Some((start_id, p2)) => match dec_u32(b, p2) {
                        None => None,
                        Some((limit, p3)) => Some((VertexQueryV::All { start_id, limit }, p3)),
                    },
                }
            } else if tag == 1 {
                match dec_u64(b, p) {
                    None => None,
                    Some((n, p2)) => match dec_ids(b, p2, n as int) {
                        None => None,
                        Some((ids, p3)) => Some((VertexQueryV::Vertices { ids }, p3)),
                    },
                }
            } else if tag == 2 {
                match dec_eq(b, p) {
                    None => None,
                    Some((eq, p2)) => match dec_direction(b, p2) {
                        None => None,
                        Some((converter, p3)) => match dec_u32(b, p3) {
                            None => None,
                            Some((limit, p4)) => Some(
                                (
                                    VertexQueryV::Pipe {
                                        edge_query: Box::new(eq),
                                        converter,
                                        limit,
                                    },
                                    p4,
                                ),
                            ),
                        },
                    },
                }
            } else {
                None
            }
        },
    }
}

pub open spec fn dec_eq(b: Seq<u8>, pos: int) -> Option<(EdgeQueryV, int)>
    decreases b.len() - pos, 0int,
{
    match dec_u8(b, pos) {
        None => None,
        Some((tag, p)) => {
            if tag == 0 {
                match dec_u64(b, p) {
                    None => None,
                    Some((n, p2)) => match dec_keys(b, p2, n as int) {
                        None => None,
                        Some((keys, p3)) => Some((EdgeQueryV::Edges { keys }, p3)),
                    },
                }
            } else if tag == 1 {
                match dec_vq(b, p) {
                    None => None,
                    Some((vq, p2)) => match dec_direction(b, p2) {
                        None => None,
                        Some((converter, p3)) => match dec_opt_type(b, p3) {
                            None => None,
                            Some((type_filter, p4)) => match dec_opt_ts(b, p4) {
                                None => None,
                                Some((high_filter, p5)) => match dec_opt_ts(b, p5) {
                                    None => None,
                                    Some((low_filter, p6)) => match dec_u32(b, p6) {
                                        None => None,
                                        Some((limit, p7)) => Some(
                                            (
                                                EdgeQueryV::Pipe {
                                                    vertex_query: Box::new(vq),
                                                    converter,
                                                    type_filter,
                                                    high_filter,
                                                    low_filter,
                                                    limit,
                                                },
                                                p7,
                                            ),
                                        ),
                                    },
                                },
                            },
                        },
                    },
                }
            } else {
                None
            }
        },
    }
}

/// A decoded bulk-insert item, property values still JSON text.
pub ghost enum WireItemV {
    Vertex(VertexV),
    Edge(EdgeKeyV),
    VertexProperty(Identifier, Seq<char>, Seq<char>),
    EdgeProperty(EdgeKeyV, Seq<char>, Seq<char>),
}

pub open spec fn dec_bulk_item(b: Seq<u8>, pos: int) -> Option<(WireItemV, int)> {
    match dec_u8(b, pos) {
        None => None,
        Some((tag, p)) => {
            if tag == 0 {
                match dec_vertex(b, p) {
                    None => None,
                    Some((v, p2)) => Some((WireItemV::Vertex(v), p2)),
                }
            } else if tag == 1 {
                match dec_edge_key(b, p) {
                    None => None,
                    Some((k, p2)) => Some((WireItemV::Edge(k), p2)),
                }
            } else if tag == 2 {
                match dec_id(b, p) {
                    None => None,
                    Some((id, p2)) => match dec_string(b, p2) {
                        None => None,
                        Some((name, p3)) => match dec_string(b, p3) {
                            None => None,
                            Some((text, p4)) => Some(
                                (WireItemV::VertexProperty(id, name, text), p4),
                            ),
                        },
                    },
                }
            } else if tag == 3 {
                match dec_edge_key(b, p) {
                    None => None,
                    Some((k, p2)) => match dec_string(b, p2) {
                        None => None,
                        Some((name, p3)) => match dec_string(b, p3) {
                            None => None,
                            Some((text, p4)) => Some(
                                (WireItemV::EdgeProperty(k, name, text), p4),
                            ),
                        },
                    },
                }
            } else {
                None
            }
        },
    }
}

pub open spec fn dec_bulk_items(b: Seq<u8>, pos: int, n: int) -> Option<(Seq<WireItemV>, int)>
    decreases n,
{
    if n <= 0 {
        Some((Seq::empty(), pos))
    } else {
        match dec_bulk_item(b, pos) {
            None => None,
            Some((it, p)) => match dec_bulk_items(b, p, n - 1) {
                None => None,
                Some((rest, p2)) => Some((seq![it] + rest, p2)),
            },
        }
    }
}

pub open spec fn dec_bulk(b: Seq<u8>, pos: int) -> Option<(Seq<WireItemV>, int)> {
    match dec_u64(b, pos) {
        None => None,
        Some((n, p)) => dec_bulk_items(b, p, n as int),
    }
}

/// Whether a native bulk-insert item answers to a decoded wire item: equal
/// where the payload is plain data, and, for a property value, the unique
/// value whose rendering the carried text is.
pub open spec fn wire_matches(x: BulkInsertItemV, w: WireItemV) -> bool {
    match w {
        WireItemV::Vertex(v) => x == BulkInsertItemV::Vertex(v),
        WireItemV::Edge(k) => x == BulkInsertItemV::Edge(k),
        WireItemV::VertexProperty(id, name, text) => {
            &&& x is VertexProperty
            &&& x->VertexProperty_0 == id
            &&& x->VertexProperty_1 == name
            &&& (forall|v: serde_json::Value|
                #[trigger] json_text_of(v) == text ==> x->VertexProperty_2 == v)
        },
        WireItemV::EdgeProperty(k, name, text) => {
            &&& x is EdgeProperty
            &&& x->EdgeProperty_0 == k
            &&& x->EdgeProperty_1 == name
            &&& (forall|v: serde_json::Value|
                #[trigger] json_text_of(v) == text ==> x->EdgeProperty_2 == v)
        },
    }
}

// ---------------------------------------------------------------------------
// Executable primitives
// ---------------------------------------------------------------------------

fn push_u32(buf: &mut Vec<u8>, v: u32)
    ensures
        final(buf)@ == old(buf)@ + enc_u32(v),
{
    let mut tmp = be_encode(v as u128, 4);
    buf.append(&mut tmp);
    proof {
        assert(buf@ =~= old(buf)@ + enc_u32(v));
    }
}

fn push_u64(buf: &mut Vec<u8>, v: u64)
    ensures
        final(buf)@ == old(buf)@ + enc_u64(v),
{
    let mut tmp = be_encode(v as u128, 8);
    buf.append(&mut tmp);
    proof {
        assert(buf@ =~= old(buf)@ + enc_u64(v));
    }
}

fn push_id(buf: &mut Vec<u8>, id: Identifier)
    ensures
        final(buf)@ == old(buf)@ + enc_id(id),
{
    let mut tmp = be_encode(id.0, 16);
    buf.append(&mut tmp);
    proof {
        assert(buf@ =~= old(buf)@ + enc_id(id));
    }
}

fn push_str(buf: &mut Vec<u8>, s: &str)
    ensures
        final(buf)@ == old(buf)@ + enc_string(s@),
{
    let bytes = s.as_bytes();
    push_u64(buf, bytes.len() as u64);
    let mut tmp = vstd::slice::slice_to_vec(bytes);
    buf.append(&mut tmp);
    proof {
        assert(buf@ =~= old(buf)@ + enc_string(s@));
    }
}

fn read_u8(b: &Vec<u8>, pos: usize) -> (r: Result<(u8, usize), CodecError>)
    ensures
        match dec_u8(b@, pos as int) {
            Some((v, p)) => r matches Ok(x) && x.0 == v && x.1 == p,
            None => r is Err,
        },
{
    if pos < b.len() {
        Ok((b[pos], pos + 1))
    } else {
        Err(CodecError::Truncated)
    }
}

fn read_u32(b: &Vec<u8>, pos: usize) -> (r: Result<(u32, usize), CodecError>)
    ensures
        match dec_u32(b@, pos as int) {
            Some((v, p)) => r matches Ok(x) && x.0 == v && x.1 == p,
            None => r is Err,
        },
{
    if pos <= b.len() && b.len() - pos >= 4 {
        let v = be_decode(b, pos, 4);
        proof {
            lemma_pow256_small();
            lemma_be_val_bound(b@.subrange(pos as int, pos + 4));
        }
        Ok(((v as u32), pos + 4))
    } else {
        Err(CodecError::Truncated)
    }
}

fn read_u64(b: &Vec<u8>, pos: usize) -> (r: Result<(u64, usize), CodecError>)
    ensures
        match dec_u64(b@, pos as int) {
            Some((v, p)) => r matches Ok(x) && x.0 == v && x.1 == p,
            None => r is Err,
        },
{
    if pos <= b.len() && b.len() - pos >= 8 {
        let v = be_decode(b, pos, 8);
        proof {
            lemma_pow256_small();
            lemma_be_val_bound(b@.subrange(pos as int, pos + 8));
        }
        Ok(((v as u64), pos + 8))
    } else {
        Err(CodecError::Truncated)
    }
}

fn read_id(b: &Vec<u8>, pos: usize) -> (r: Result<(Identifier, usize), CodecError>)
    ensures
        match dec_id(b@, pos as int) {
            Some((v, p)) => r matches Ok(x) && x.0 == v && x.1 == p,
            None => r is Err,
        },
{
    if pos <= b.len() && b.len() - pos >= 16 {
        let v = be_decode(b, pos, 16);
        Ok((Identifier(v), pos + 16))
    } else {
        Err(CodecError::Truncated)
    }
}

fn read_bytes(b: &Vec<u8>, pos: usize) -> (r: Result<(Vec<u8>, usize), CodecError>)
    ensures
        match dec_bytes(b@, pos as int) {
            Some((data, p)) => r matches Ok(x) && x.0@ == data && x.1 == p,
            None => r is Err,
        },
{
    let (n, p) = match read_u64(b, pos) {
        Ok(x) => x,
        Err(e) => {
            return Err(e);
        },
    };
    if (n as u128) > (b.len() - p) as u128 {
        return Err(CodecError::Truncated);
    }
    let n = n as usize;
    let blen: usize = b.len();
    let mut out: Vec<u8> = Vec::new();
    let mut i: usize = 0;
    proof {
        assert(out@ =~= b@.subrange(p as int, p as int));
    }
    while i < n
        invariant
            i <= n,
            p + n <= blen,
            blen == b@.len(),
            out@ == b@.subrange(p as int, p + i),
        decreases n - i,
    {
        out.push(b[p + i]);
        proof {
            assert(out@ =~= b@.subrange(p as int, p + i + 1));
        }
        i = i + 1;
    }
    Ok((out, p + n))
}

fn read_string(b: &Vec<u8>, pos: usize) -> (r: Result<(String, usize), CodecError>)
    ensures
        match dec_string(b@, pos as int) {
            Some((s, p)) => r matches Ok(x) && x.0@ == s && x.1 == p,
            None => r is Err,
        },
{
    let (data, p) = match read_bytes(b, pos) {
        Ok(x) => x,
        Err(e) => {
            return Err(e);
        },
    };
    match string_from_utf8(data) {
        Some(s) => Ok((s, p)),
        None => Err(CodecError::InvalidUtf8),
    }
}

} // verus!

// ---------------------------------------------------------------------------
// Encoding
// ---------------------------------------------------------------------------

verus! {

/// The mathematical values of a vector of bulk-insert items.
pub open spec fn bulk_items_view(s: Seq<BulkInsertItem>) -> Seq<BulkInsertItemV> {
    Seq::new(s.len(), |i: int| s[i]@)
}

proof fn lemma_enc_ids_push(ids: Seq<Identifier>, x: Identifier)
    ensures
        enc_ids(ids.push(x)) == enc_ids(ids) + enc_id(x),
    decreases ids.len(),
{
    reveal_with_fuel(enc_ids, 3);
    if ids.len() == 0 {
        assert(ids.push(x)[0] == x);
        assert(ids.push(x).drop_first() =~= Seq::empty());
        assert(enc_ids(ids.push(x)) =~= enc_ids(ids) + enc_id(x));
    } else {
        assert(ids.push(x)[0] == ids[0]);
        assert(ids.push(x).drop_first() =~= ids.drop_first().push(x));
        lemma_enc_ids_push(ids.drop_first(), x);
        assert(enc_id(ids[0]) + (enc_ids(ids.drop_first()) + enc_id(x)) =~= (enc_id(ids[0])
            + enc_ids(ids.drop_first())) + enc_id(x));
    }
}

proof fn lemma_enc_keys_push(keys: Seq<EdgeKeyV>, x: EdgeKeyV)
    ensures
        enc_keys(keys.push(x)) == enc_keys(keys) + enc_edge_key(x),
    decreases keys.len(),
{
    reveal_with_fuel(enc_keys, 3);
    if keys.len() == 0 {
        assert(keys.push(x)[0] == x);
        assert(keys.push(x).drop_first() =~= Seq::empty());
        assert(enc_keys(keys.push(x)) =~= enc_keys(keys) + enc_edge_key(x));
    } else {
        assert(keys.push(x)[0] == keys[0]);
        assert(keys.push(x).drop_first() =~= keys.drop_first().push(x));
        lemma_enc_keys_push(keys.drop_first(), x);
        assert(enc_edge_key(keys[0]) + (enc_keys(keys.drop_first()) + enc_edge_key(x)) =~= (
        enc_edge_key(keys[0]) + enc_keys(keys.drop_first())) + enc_edge_key(x));
    }
}

proof fn lemma_enc_bulk_items_push(items: Seq<BulkInsertItemV>, x: BulkInsertItemV)
    ensures
        enc_bulk_items_seq(items.push(x)) == enc_bulk_items_seq(items) + enc_bulk_item(x),
    decreases items.len(),
{
    reveal_with_fuel(enc_bulk_items_seq, 3);
    if items.len() == 0 {
        assert(items.push(x)[0] == x);
        assert(items.push(x).drop_first() =~= Seq::empty());
        assert(enc_bulk_items_seq(items.push(x)) =~= enc_bulk_items_seq(items) + enc_bulk_item(x));
    } else {
        assert(items.push(x)[0] == items[0]);
        assert(items.push(x).drop_first() =~= items.drop_first().push(x));
        lemma_enc_bulk_items_push(items.drop_first(), x);
        assert(enc_bulk_item(items[0]) + (enc_bulk_items_seq(items.drop_first()) + enc_bulk_item(
            x,
        )) =~= (enc_bulk_item(items[0]) + enc_bulk_items_seq(items.drop_first())) + enc_bulk_item(
            x,
        ));
    }
}

fn push_vertex(buf: &mut Vec<u8>, vertex: &Vertex)
    ensures
        final(buf)@ == old(buf)@ + enc_vertex(vertex@),
{
    push_id(buf, vertex.id);
    push_str(buf, vertex.t.as_str());
    proof {
        assert(buf@ =~= old(buf)@ + enc_vertex(vertex@));
    }
}

fn push_edge_key(buf: &mut Vec<u8>, key: &EdgeKey)
    ensures
        final(buf)@ == old(buf)@ + enc_edge_key(key@),
{
    push_id(buf, key.outbound_id);
    push_str(buf, key.t.as_str());
    push_id(buf, key.inbound_id);
    proof {
        assert(buf@ =~= old(buf)@ + enc_edge_key(key@));
    }
}

/// Encodes a vertex: its identifier, then its type.
pub fn from_vertex(vertex: &Vertex) -> (r: Vec<u8>)
    ensures
        r@ == enc_vertex(vertex@),
{
    let mut buf: Vec<u8> = Vec::new();
    push_vertex(&mut buf, vertex);
    proof {
        assert(buf@ =~= enc_vertex(vertex@));
    }
    buf
}

/// Encodes an edge key: outbound id, type, inbound id.
pub fn from_edge_key(key: &EdgeKey) -> (r: Vec<u8>)
    ensures
        r@ == enc_edge_key(key@),
{
    let mut buf: Vec<u8> = Vec::new();
    push_edge_key(&mut buf, key);
    proof {
        assert(buf@ =~= enc_edge_key(key@));
    }
    buf
}

/// Encodes an edge: its key, then its creation time in whole seconds.
pub fn from_edge(edge: &Edge) -> (r: Vec<u8>)
    ensures
        r@ == enc_edge(edge@),
{
    let mut buf: Vec<u8> = Vec::new();
    push_edge_key(&mut buf, &edge.key);
    push_u64(&mut buf, edge.created_datetime / NANOS_PER_SEC);
    proof {
        assert(buf@ =~= enc_edge(edge@));
    }
    buf
}

/// Encodes a vertex property: owner id, then the value as JSON text.
pub fn from_vertex_property(property: &VertexProperty) -> (r: Vec<u8>)
    ensures
        r@ == enc_vertex_property(property.id, property.value),
{
    let mut buf: Vec<u8> = Vec::new();
    push_id(&mut buf, property.id);
    let text = json_to_string(&property.value);
    push_str(&mut buf, text.as_str());
    proof {
        assert(buf@ =~= enc_vertex_property(property.id, property.value));
    }
    buf
}

/// Encodes an edge property: owner key, then the value as JSON text.
pub fn from_edge_property(property: &EdgeProperty) -> (r: Vec<u8>)
    ensures
        r@ == enc_edge_property(property.key@, property.value),
{
    let mut buf: Vec<u8> = Vec::new();
    push_edge_key(&mut buf, &property.key);
    let text = json_to_string(&property.value);
    push_str(&mut buf, text.as_str());
    proof {
        assert(buf@ =~= enc_edge_property(property.key@, property.value));
    }
    buf
}

/// The wire tag of a direction.
pub fn from_edge_direction(direction: EdgeDirection) -> (r: u8)
    ensures
        seq![r] == enc_direction(direction),
{
    match direction {
        EdgeDirection::Outbound => 0,
        EdgeDirection::Inbound => 1,
    }
}

/// The direction a wire tag denotes; any other tag is rejected.
pub fn to_edge_direction(tag: u8) -> (r: Result<EdgeDirection, CodecError>)
    ensures
        tag == 0 ==> r == Result::<EdgeDirection, CodecError>::Ok(EdgeDirection::Outbound),
        tag == 1 ==> r == Result::<EdgeDirection, CodecError>::Ok(EdgeDirection::Inbound),
        tag >= 2 ==> r == Result::<EdgeDirection, CodecError>::Err(CodecError::UnknownTag),
{
    if tag == 0 {
        Ok(EdgeDirection::Outbound)
    } else if tag == 1 {
        Ok(EdgeDirection::Inbound)
    } else {
        Err(CodecError::UnknownTag)
    }
}

/// A filter timestamp read from the wire: zero is the `None` sentinel.
pub fn to_optional_datetime(timestamp: u64) -> (r: Option<u64>)
    ensures
        timestamp == 0 ==> r is None,
        timestamp != 0 ==> r == Some(timestamp),
{
    if timestamp == 0 {
        None
    } else {
        Some(timestamp)
    }
}

fn push_direction(buf: &mut Vec<u8>, d: EdgeDirection)
    ensures
        final(buf)@ == old(buf)@ + enc_direction(d),
{
    let tag = from_edge_direction(d);
    buf.push(tag);
    proof {
        assert(buf@ =~= old(buf)@ + enc_direction(d));
    }
}

fn push_opt_id(buf: &mut Vec<u8>, o: &Option<Identifier>)
    ensures
        final(buf)@ == old(buf)@ + enc_opt_id(*o),
{
    match o {
        None => {
            push_u64(buf, 0);
            proof {
                assert(buf@ =~= old(buf)@ + enc_opt_id(None::<Identifier>));
            }
        },
        Some(id) => {
            proof {
                lemma_be_bytes_len(id.0 as nat, 16);
            }
            push_u64(buf, 16);
            push_id(buf, *id);
            proof {
                assert(buf@ =~= old(buf)@ + enc_opt_id(Some(*id)));
            }
        },
    }
}

fn push_opt_ts(buf: &mut Vec<u8>, o: Option<u64>)
    ensures
        final(buf)@ == old(buf)@ + enc_opt_ts(o),
{
    match o {
        None => push_u64(buf, 0),
        Some(t) => push_u64(buf, t),
    }
}

fn push_opt_type(buf: &mut Vec<u8>, o: &Option<Type>)
    ensures
        final(buf)@ == old(buf)@ + enc_opt_type(match o {
            Some(t) => Some(t@),
            None => None,
        }),
{
    match o {
        None => {
            push_str(buf, "");
            proof {
                reveal_strlit("");
                assert(""@ =~= Seq::<char>::empty());
            }
        },
        Some(t) => {
            push_str(buf, t.as_str());
        },
    }
}

/// Encodes a vertex query as a tagged union.
pub fn from_vertex_query(q: &VertexQuery) -> (r: Vec<u8>)
    ensures
        r@ == enc_vq(q.qview()),
    decreases q,
{
    let mut buf: Vec<u8> = Vec::new();
    match q {
        VertexQuery::All { start_id, limit } => {
            buf.push(0);
            push_opt_id(&mut buf, start_id);
            push_u32(&mut buf, *limit);
            proof {
                assert(buf@ =~= enc_vq(q.qview()));
            }
        },
        VertexQuery::Vertices { ids } => {
            let ghost ids_v = ids@;
            buf.push(1);
            push_u64(&mut buf, ids.len() as u64);
            let ghost base = buf@;
            let n = ids.len();
            let mut k: usize = 0;
            proof {
                assert(enc_ids(ids_v.take(0)) =~= Seq::empty());
                assert(buf@ =~= base + enc_ids(ids_v.take(0)));
            }
            while k < n
                invariant
                    k <= n,
                    n == ids@.len(),
                    ids_v == ids@,
                    buf@ == base + enc_ids(ids_v.take(k as int)),
                decreases n - k,
            {
                proof {
                    lemma_enc_ids_push(ids_v.take(k as int), ids_v[k as int]);
                    assert(ids_v.take(k + 1) =~= ids_v.take(k as int).push(ids_v[k as int]));
                }
                push_id(&mut buf, ids[k]);
                proof {
                    assert(buf@ =~= base + enc_ids(ids_v.take(k + 1)));
                }
                k = k + 1;
            }
            proof {
                assert(ids_v.take(n as int) =~= ids_v);
                assert(buf@ =~= enc_vq(q.qview()));
            }
        },
        VertexQuery::Pipe { edge_query, converter, limit } => {
            buf.push(2);
            let mut inner = from_edge_query(edge_query);
            buf.append(&mut inner);
            push_direction(&mut buf, *converter);
            push_u32(&mut buf, *limit);
            proof {
                assert(buf@ =~= enc_vq(q.qview()));
            }
        },
    }
    buf
}

/// Encodes an edge query as a tagged union.
pub fn from_edge_query(q: &EdgeQuery) -> (r: Vec<u8>)
    ensures
        r@ == enc_eq(q.qview()),
    decreases q,
{
    let mut buf: Vec<u8> = Vec::new();
    match q {
        EdgeQuery::Edges { keys } => {
            let ghost keys_v = Seq::new(keys@.len(), |i: int| keys@[i]@);
            buf.push(0);
            push_u64(&mut buf, keys.len() as u64);
            let ghost base = buf@;
            let n = keys.len();
            let mut k: usize = 0;
            proof {
                assert(enc_keys(keys_v.take(0)) =~= Seq::empty());
                assert(buf@ =~= base + enc_keys(keys_v.take(0)));
            }
            while k < n
                invariant
                    k <= n,
                    n == keys@.len(),
                    keys_v == Seq::new(keys@.len(), |i: int| keys@[i]@),
                    buf@ == base + enc_keys(keys_v.take(k as int)),
                decreases n - k,
            {
                proof {
                    lemma_enc_keys_push(keys_v.take(k as int), keys_v[k as int]);
                    assert(keys_v.take(k + 1) =~= keys_v.take(k as int).push(keys_v[k as int]));
                }
                push_edge_key(&mut buf, &keys[k]);
                proof {
                    assert(buf@ =~= base + enc_keys(keys_v.take(k + 1)));
                }
                k = k + 1;
            }
            proof {
                assert(keys_v.take(n as int) =~= keys_v);
                assert(buf@ =~= enc_eq(q.qview()));
            }
        },
        EdgeQuery::Pipe { vertex_query, converter, type_filter, high_filter, low_filter, limit }
            => {
            buf.push(1);
            let mut inner = from_vertex_query(vertex_query);
            buf.append(&mut inner);
            push_direction(&mut buf, *converter);
            push_opt_type(&mut buf, type_filter);
            push_opt_ts(&mut buf, *high_filter);
            push_opt_ts(&mut buf, *low_filter);
            push_u32(&mut buf, *limit);
            proof {
                assert(buf@ =~= enc_eq(q.qview()));
            }
        },
    }
    buf
}

fn push_bulk_item(buf: &mut Vec<u8>, item: &BulkInsertItem)
    ensures
        final(buf)@ == old(buf)@ + enc_bulk_item(item@),
{
    match item {
        BulkInsertItem::Vertex(v) => {
            buf.push(0);
            push_vertex(buf, v);
            proof {
                assert(buf@ =~= old(buf)@ + enc_bulk_item(item@));
            }
        },
        BulkInsertItem::Edge(k) => {
            buf.push(1);
            push_edge_key(buf, k);
            proof {
                assert(buf@ =~= old(buf)@ + enc_bulk_item(item@));
            }
        },
        BulkInsertItem::VertexProperty(id, name, value) => {
            buf.push(2);
            push_id(buf, *id);
            push_str(buf, name.as_str());
            let text = json_to_string(value);
            push_str(buf, text.as_str());
            proof {
                assert(buf@ =~= old(buf)@ + enc_bulk_item(item@));
            }
        },
        BulkInsertItem::EdgeProperty(k, name, value) => {
            buf.push(3);
            push_edge_key(buf, k);
            push_str(buf, name.as_str());
            let text = json_to_string(value);
            push_str(buf, text.as_str());
            proof {
                assert(buf@ =~= old(buf)@ + enc_bulk_item(item@));
            }
        },
    }
}

/// Encodes a list of bulk-insert items, length-prefixed, each a tagged
/// union.
pub fn from_bulk_insert_items(items: &Vec<BulkInsertItem>) -> (r: Vec<u8>)
    ensures
        r@ == enc_bulk(bulk_items_view(items@)),
{
    let ghost items_v = bulk_items_view(items@);
    let mut buf: Vec<u8> = Vec::new();
    push_u64(&mut buf, items.len() as u64);
    let ghost base = buf@;
    let n = items.len();
    let mut k: usize = 0;
    proof {
        assert(enc_bulk_items_seq(items_v.take(0)) =~= Seq::empty());
        assert(buf@ =~= base + enc_bulk_items_seq(items_v.take(0)));
    }
    while k < n
        invariant
            k <= n,
            n == items@.len(),
            items_v == bulk_items_view(items@),
            buf@ == base + enc_bulk_items_seq(items_v.take(k as int)),
        decreases n - k,
    {
        proof {
            lemma_enc_bulk_items_push(items_v.take(k as int), items_v[k as int]);
            assert(items_v.take(k + 1) =~= items_v.take(k as int).push(items_v[k as int]));
        }
        push_bulk_item(&mut buf, &items[k]);
        proof {
            assert(buf@ =~= base + enc_bulk_items_seq(items_v.take(k + 1)));
        }
        k = k + 1;
    }
    proof {
        assert(items_v.take(n as int) =~= items_v);
        assert(buf@ =~= enc_bulk(items_v));
    }
    buf
}

} // verus!

// ---------------------------------------------------------------------------
// Decoding
// ---------------------------------------------------------------------------

verus! {

fn read_direction(b: &Vec<u8>, pos: usize) -> (r: Result<(EdgeDirection, usize), CodecError>)
    ensures
        match dec_direction(b@, pos as int) {
            Some((d, p)) => r matches Ok(x) && x.0 == d && x.1 == p,
            None => r is Err,
        },
{
    let (tag, p) = match read_u8(b, pos) {
        Ok(x) => x,
        Err(e) => {
            return Err(e);
        },
    };
    match to_edge_direction(tag) {
        Ok(d) => Ok((d, p)),
        Err(e) => Err(e),
    }
}

fn read_type(b: &Vec<u8>, pos: usize) -> (r: Result<(Type, usize), CodecError>)
    ensures
        match dec_type_string(b@, pos as int) {
            Some((s, p)) => r matches Ok(x) && x.0@ == s && x.1 == p,
            None => r is Err,
        },
{
    let (s, p) = match read_string(b, pos) {
        Ok(x) => x,
        Err(e) => {
            return Err(e);
        },
    };
    match Type::new(s) {
        Ok(t) => Ok((t, p)),
        Err(_) => Err(CodecError::InvalidValue),
    }
}

fn read_vertex(b: &Vec<u8>, pos: usize) -> (r: Result<(Vertex, usize), CodecError>)
    ensures
        match dec_vertex(b@, pos as int) {
            Some((v, p)) => r matches Ok(x) && x.0@ == v && x.1 == p,
            None => r is Err,
        },
{
    let (id, p) = match read_id(b, pos) {
        Ok(x) => x,
        Err(e) => {
            return Err(e);
        },
    };
    let (t, p2) = match read_type(b, p) {
        Ok(x) => x,
        Err(e) => {
            return Err(e);
        },
    };
    Ok((Vertex::with_id(id, t), p2))
}

fn read_edge_key(b: &Vec<u8>, pos: usize) -> (r: Result<(EdgeKey, usize), CodecError>)
    ensures
        match dec_edge_key(b@, pos as int) {
            Some((k, p)) => r matches Ok(x) && x.0@ == k && x.1 == p,
            None => r is Err,
        },
{
    let (outbound_id, p) = match read_id(b, pos) {
        Ok(x) => x,
        Err(e) => {
            return Err(e);
        },
    };
    let (t, p2) = match read_type(b, p) {
        Ok(x) => x,
        Err(e) => {
            return Err(e);
        },
    };
    let (inbound_id, p3) = match read_id(b, p2) {
        Ok(x) => x,
        Err(e) => {
            return Err(e);
        },
    };
    Ok((EdgeKey::new(outbound_id, t, inbound_id), p3))
}

fn read_edge(b: &Vec<u8>, pos: usize) -> (r: Result<(Edge, usize), CodecError>)
    ensures
        match dec_edge(b@, pos as int) {
            Some((e, p)) => r matches Ok(x) && x.0@ == e && x.1 == p,
            None => r is Err,
        },
{
    let (key, p) = match read_edge_key(b, pos) {
        Ok(x) => x,
        Err(e) => {
            return Err(e);
        },
    };
    let (secs, p2) = match read_u64(b, p) {
        Ok(x) => x,
        Err(e) => {
            return Err(e);
        },
    };
    if secs > u64::MAX / NANOS_PER_SEC {
        return Err(CodecError::TimestampOutOfRange);
    }
    proof {
        assert(secs * NANOS_PER_SEC <= u64::MAX) by (nonlinear_arith)
            requires
                secs <= u64::MAX / NANOS_PER_SEC,
                NANOS_PER_SEC == 1000000000u64,
        ;
    }
    Ok((Edge::new(key, secs * NANOS_PER_SEC), p2))
}

fn read_opt_id(b: &Vec<u8>, pos: usize) -> (r: Result<(Option<Identifier>, usize), CodecError>)
    ensures
        match dec_opt_id(b@, pos as int) {
            Some((o, p)) => r matches Ok(x) && x.0 == o && x.1 == p,
            None => r is Err,
        },
{
    let (data, p) = match read_bytes(b, pos) {
        Ok(x) => x,
        Err(e) => {
            return Err(e);
        },
    };
    if data.len() == 0 {
        Ok((None, p))
    } else if data.len() == 16 {
        let v = be_decode(&data, 0, 16);
        proof {
            assert(data@.subrange(0, 16) =~= data@);
        }
        Ok((Some(Identifier(v)), p))
    } else {
        Err(CodecError::InvalidValue)
    }
}

fn read_opt_ts(b: &Vec<u8>, pos: usize) -> (r: Result<(Option<u64>, usize), CodecError>)
    ensures
        match dec_opt_ts(b@, pos as int) {
            Some((o, p)) => r matches Ok(x) && x.0 == o && x.1 == p,
            None => r is Err,
        },
{
    let (t, p) = match read_u64(b, pos) {
        Ok(x) => x,
        Err(e) => {
            return Err(e);
        },
    };
    Ok((to_optional_datetime(t), p))
}

fn read_opt_type(b: &Vec<u8>, pos: usize) -> (r: Result<(Option<Type>, usize), CodecError>)
    ensures
        match dec_opt_type(b@, pos as int) {
            Some((o, p)) => r matches Ok(x) && x.1 == p && (match (x.0, o) {
                (Some(t), Some(s)) => t@ == s,
                (None, None) => true,
                _ => false,
            }),
            None => r is Err,
        },
{
    let (s, p) = match read_string(b, pos) {
        Ok(x) => x,
        Err(e) => {
            return Err(e);
        },
    };
    if s.as_str().unicode_len() == 0 {
        Ok((None, p))
    } else {
        match Type::new(s) {
            Ok(t) => Ok((Some(t), p)),
            Err(_) => Err(CodecError::InvalidValue),
        }
    }
}

fn read_ids(b: &Vec<u8>, pos: usize, n: u64) -> (r: Result<(Vec<Identifier>, usize), CodecError>)
    ensures
        match dec_ids(b@, pos as int, n as int) {
            Some((ids, p)) => r matches Ok(x) && x.0@ == ids && x.1 == p,
            None => r is Err,
        },
    decreases n,
{
    if n == 0 {
        Ok((Vec::new(), pos))
    } else {
        let (id, p) = match read_id(b, pos) {
            Ok(x) => x,
            Err(e) => {
                return Err(e);
            },
        };
        let (mut rest, p2) = match read_ids(b, p, n - 1) {
            Ok(x) => x,
            Err(e) => {
                return Err(e);
            },
        };
        rest.insert(0, id);
        proof {
            let spec_rest = dec_ids(b@, p as int, n - 1int).unwrap().0;
            assert(rest@ =~= seq![id] + spec_rest);
        }
        Ok((rest, p2))
    }
}

fn read_keys(b: &Vec<u8>, pos: usize, n: u64) -> (r: Result<(Vec<EdgeKey>, usize), CodecError>)
    ensures
        match dec_keys(b@, pos as int, n as int) {
            Some((keys, p)) => r matches Ok(x) && Seq::new(x.0@.len(), |i: int| x.0@[i]@) == keys
                && x.1 == p,
            None => r is Err,
        },
    decreases n,
{
    if n == 0 {
        let out: Vec<EdgeKey> = Vec::new();
        proof {
            assert(Seq::new(out@.len(), |i: int| out@[i]@) =~= Seq::<EdgeKeyV>::empty());
        }
        Ok((out, pos))
    } else {
        let (k, p) = match read_edge_key(b, pos) {
            Ok(x) => x,
            Err(e) => {
                return Err(e);
            },
        };
        let (mut rest, p2) = match read_keys(b, p, n - 1) {
            Ok(x) => x,
            Err(e) => {
                return Err(e);
            },
        };
        rest.insert(0, k);
        proof {
            let spec_rest = dec_keys(b@, p as int, n - 1int).unwrap().0;
            assert(Seq::new(rest@.len(), |i: int| rest@[i]@) =~= seq![
                dec_edge_key(b@, pos as int).unwrap().0,
            ] + spec_rest);
        }
        Ok((rest, p2))
    }
}

/// Decodes a vertex query at a position.
fn read_vertex_query(b: &Vec<u8>, pos: usize) -> (r: Result<(VertexQuery, usize), CodecError>)
    ensures
        match dec_vq(b@, pos as int) {
            Some((qv, p)) => r matches Ok(x) && x.0.qview() == qv && x.1 == p,
            None => r is Err,
        },
    decreases b@.len() - pos, 1int,
{
    let (tag, p) = match read_u8(b, pos) {
        Ok(x) => x,
        Err(e) => {
            return Err(e);
        },
    };
    if tag == 0 {
        let (start_id, p2) = match read_opt_id(b, p) {
            Ok(x) => x,
            Err(e) => {
                return Err(e);
            },
        };
        let (limit, p3) = match read_u32(b, p2) {
            Ok(x) => x,
            Err(e) => {
                return Err(e);
            },
        };
        Ok((VertexQuery::All { start_id, limit }, p3))
    } else if tag == 1 {
        let (n, p2) = match read_u64(b, p) {
            Ok(x) => x,
            Err(e) => {
                return Err(e);
            },
        };
        let (ids, p3) = match read_ids(b, p2, n) {
            Ok(x) => x,
            Err(e) => {
                return Err(e);
            },
        };
        Ok((VertexQuery::Vertices { ids }, p3))
    } else if tag == 2 {
        let (eq, p2) = match read_edge_query(b, p) {
            Ok(x) => x,
            Err(e) => {
                return Err(e);
            },
        };
        let (converter, p3) = match read_direction(b, p2) {
            Ok(x) => x,
            Err(e) => {
                return Err(e);
            },
        };
        let (limit, p4) = match read_u32(b, p3) {
            Ok(x) => x,
            Err(e) => {
                return Err(e);
            },
        };
        Ok((VertexQuery::Pipe { edge_query: Box::new(eq), converter, limit }, p4))
    } else {
        Err(CodecError::UnknownTag)
    }
}

/// Decodes an edge query at a position.
fn read_edge_query(b: &Vec<u8>, pos: usize) -> (r: Result<(EdgeQuery, usize), CodecError>)
    ensures
        match dec_eq(b@, pos as int) {
            Some((qv, p)) => r matches Ok(x) && x.0.qview() == qv && x.1 == p,
            None => r is Err,
        },
    decreases b@.len() - pos, 0int,
{
    let (tag, p) = match read_u8(b, pos) {
        Ok(x) => x,
        Err(e) => {
            return Err(e);
        },
    };
    if tag == 0 {
        let (n, p2) = match read_u64(b, p) {
            Ok(x) => x,
            Err(e) => {
                return Err(e);
            },
        };
        let (keys, p3) = match read_keys(b, p2, n) {
            Ok(x) => x,
            Err(e) => {
                return Err(e);
            },
        };
        Ok((EdgeQuery::Edges { keys }, p3))
    } else if tag == 1 {
        let (vq, p2) = match read_vertex_query(b, p) {
            Ok(x) => x,
            Err(e) => {
                return Err(e);
            },
        };
        let (converter, p3) = match read_direction(b, p2) {
            Ok(x) => x,
            Err(e) => {
                return Err(e);
            },
        };
        let (type_filter, p4) = match read_opt_type(b, p3) {
            Ok(x) => x,
            Err(e) => {
                return Err(e);
            },
        };
        let (high_filter, p5) = match read_opt_ts(b, p4) {
            Ok(x) => x,
            Err(e) => {
                return Err(e);
            },
        };
        let (low_filter, p6) = match read_opt_ts(b, p5) {
            Ok(x) => x,
            Err(e) => {
                return Err(e);
            },
        };
        let (limit, p7) = match read_u32(b, p6) {
            Ok(x) => x,
            Err(e) => {
                return Err(e);
            },
        };
        Ok(
            (
                EdgeQuery::Pipe {
                    vertex_query: Box::new(vq),
                    converter,
                    type_filter,
                    high_filter,
                    low_filter,
                    limit,
                },
                p7,
            ),
        )
    } else {
        Err(CodecError::UnknownTag)
    }
}

} // verus!

// ---------------------------------------------------------------------------
// Whole messages
// ---------------------------------------------------------------------------

verus! {

/// Decodes a vertex message, requiring the whole buffer to be consumed.
pub fn to_vertex(bytes: &Vec<u8>) -> (r: Result<Vertex, CodecError>)
    ensures
        match dec_vertex(bytes@, 0) {
            Some((v, p)) => if p == bytes@.len() {
                r matches Ok(x) && x@ == v
            } else {
                r is Err
            },
            None => r is Err,
        },
{
    match read_vertex(bytes, 0) {
        Ok((v, p)) => if p == bytes.len() {
            Ok(v)
        } else {
            Err(CodecError::InvalidValue)
        },
        Err(e) => Err(e),
    }
}

/// Decodes an edge-key message, requiring the whole buffer to be consumed.
pub fn to_edge_key(bytes: &Vec<u8>) -> (r: Result<EdgeKey, CodecError>)
    ensures
        match dec_edge_key(bytes@, 0) {
            Some((k, p)) => if p == bytes@.len() {
                r matches Ok(x) && x@ == k
            } else {
                r is Err
            },
            None => r is Err,
        },
{
    match read_edge_key(bytes, 0) {
        Ok((k, p)) => if p == bytes.len() {
            Ok(k)
        } else {
            Err(CodecError::InvalidValue)
        },
        Err(e) => Err(e),
    }
}

/// Decodes an edge message, requiring the whole buffer to be consumed.
pub fn to_edge(bytes: &Vec<u8>) -> (r: Result<Edge, CodecError>)
    ensures
        match dec_edge(bytes@, 0) {
            Some((e, p)) => if p == bytes@.len() {
                r matches Ok(x) && x@ == e
            } else {
                r is Err
            },
            None => r is Err,
        },
{
    match read_edge(bytes, 0) {
        Ok((e, p)) => if p == bytes.len() {
            Ok(e)
        } else {
            Err(CodecError::InvalidValue)
        },
        Err(e) => Err(e),
    }
}

/// Decodes a vertex-property message: the owner id and the value parsed
/// back from its JSON text. Parsing gives back exactly the value whose
/// rendering the text is, whenever it is one the parser accepts.
pub fn to_vertex_property(bytes: &Vec<u8>) -> (r: Result<VertexProperty, CodecError>)
    ensures
        match dec_vertex_property(bytes@, 0) {
            Some((iv, p)) => if p == bytes@.len() {
                match r {
                    Ok(vp) => vp.id == iv.0 && (forall|v: serde_json::Value|
                        #[trigger] json_text_of(v) == iv.1 ==> vp.value == v),
                    Err(_) => forall|v: serde_json::Value|
                        #[trigger] json_text_of(v) == iv.1 ==> !json_parses(v),
                }
            } else {
                r is Err
            },
            None => r is Err,
        },
{
    let (id, p) = match read_id(bytes, 0) {
        Ok(x) => x,
        Err(e) => {
            return Err(e);
        },
    };
    let (text, p2) = match read_string(bytes, p) {
        Ok(x) => x,
        Err(e) => {
            return Err(e);
        },
    };
    if p2 != bytes.len() {
        return Err(CodecError::InvalidValue);
    }
    match json_from_str(text.as_str()) {
        Ok(value) => Ok(VertexProperty::new(id, value)),
        Err(_) => Err(CodecError::MalformedJson),
    }
}

/// Decodes an edge-property message: the owner key and the value parsed
/// back from its JSON text.
pub fn to_edge_property(bytes: &Vec<u8>) -> (r: Result<EdgeProperty, CodecError>)
    ensures
        match dec_edge_property(bytes@, 0) {
            Some((kv, p)) => if p == bytes@.len() {
                match r {
                    Ok(ep) => ep.key@ == kv.0 && (forall|v: serde_json::Value|
                        #[trigger] json_text_of(v) == kv.1 ==> ep.value == v),
                    Err(_) => forall|v: serde_json::Value|
                        #[trigger] json_text_of(v) == kv.1 ==> !json_parses(v),
                }
            } else {
                r is Err
            },
            None => r is Err,
        },
{
    let (key, p) = match read_edge_key(bytes, 0) {
        Ok(x) => x,
        Err(e) => {
            return Err(e);
        },
    };
    let (text, p2) = match read_string(bytes, p) {
        Ok(x) => x,
        Err(e) => {
            return Err(e);
        },
    };
    if p2 != bytes.len() {
        return Err(CodecError::InvalidValue);
    }
    match json_from_str(text.as_str()) {
        Ok(value) => Ok(EdgeProperty::new(key, value)),
        Err(_) => Err(CodecError::MalformedJson),
    }
}

/// Decodes a vertex-query message, requiring the whole buffer to be
/// consumed.
pub fn to_vertex_query(bytes: &Vec<u8>) -> (r: Result<VertexQuery, CodecError>)
    ensures
        match dec_vq(bytes@, 0) {
            Some((qv, p)) => if p == bytes@.len() {
                r matches Ok(x) && x.qview() == qv
            } else {
                r is Err
            },
            None => r is Err,
        },
{
    match read_vertex_query(bytes, 0) {
        Ok((q, p)) => if p == bytes.len() {
            Ok(q)
        } else {
            Err(CodecError::InvalidValue)
        },
        Err(e) => Err(e),
    }
}

/// Decodes an edge-query message, requiring the whole buffer to be
/// consumed.
pub fn to_edge_query(bytes: &Vec<u8>) -> (r: Result<EdgeQuery, CodecError>)
    ensures
        match dec_eq(bytes@, 0) {
            Some((qv, p)) => if p == bytes@.len() {
                r matches Ok(x) && x.qview() == qv
            } else {
                r is Err
            },
            None => r is Err,
        },
{
    match read_edge_query(bytes, 0) {
        Ok((q, p)) => if p == bytes.len() {
            Ok(q)
        } else {
            Err(CodecError::InvalidValue)
        },
        Err(e) => Err(e),
    }
}

/// Whether the texts a wire item carries are the rendering of some value
/// that the parser accepts, so that parsing them succeeds.
pub open spec fn wire_parseable(w: WireItemV) -> bool {
    match w {
        WireItemV::Vertex(_) => true,
        WireItemV::Edge(_) => true,
        WireItemV::VertexProperty(_, _, text) => exists|v: serde_json::Value|
            #[trigger] json_text_of(v) == text && json_parses(v),
        WireItemV::EdgeProperty(_, _, text) => exists|v: serde_json::Value|
            #[trigger] json_text_of(v) == text && json_parses(v),
    }
}

fn read_bulk_item(b: &Vec<u8>, pos: usize) -> (r: Result<(BulkInsertItem, usize), CodecError>)
    ensures
        match dec_bulk_item(b@, pos as int) {
            Some((w, p)) => match r {
                Ok(x) => x.1 == p && wire_matches(x.0@, w),
                Err(_) => !wire_parseable(w),
            },
            None => r is Err,
        },
{
    let (tag, p) = match read_u8(b, pos) {
        Ok(x) => x,
        Err(e) => {
            return Err(e);
        },
    };
    if tag == 0 {
        let (v, p2) = match read_vertex(b, p) {
            Ok(x) => x,
            Err(e) => {
                return Err(e);
            },
        };
        Ok((BulkInsertItem::Vertex(v), p2))
    } else if tag == 1 {
        let (k, p2) = match read_edge_key(b, p) {
            Ok(x) => x,
            Err(e) => {
                return Err(e);
            },
        };
        Ok((BulkInsertItem::Edge(k), p2))
    } else if tag == 2 {
        let (id, p2) = match read_id(b, p) {
            Ok(x) => x,
            Err(e) => {
                return Err(e);
            },
        };
        let (name, p3) = match read_string(b, p2) {
            Ok(x) => x,
            Err(e) => {
                return Err(e);
            },
        };
        let (text, p4) = match read_string(b, p3) {
            Ok(x) => x,
            Err(e) => {
                return Err(e);
            },
        };
        match json_from_str(text.as_str()) {
            Ok(value) => Ok((BulkInsertItem::VertexProperty(id, name, value), p4)),
            Err(_) => Err(CodecError::MalformedJson),
        }
    } else if tag == 3 {
        let (k, p2) = match read_edge_key(b, p) {
            Ok(x) => x,
            Err(e) => {
                return Err(e);
            },
        };
        let (name, p3) = match read_string(b, p2) {
            Ok(x) => x,
            Err(e) => {
                return Err(e);
            },
        };
        let (text, p4) = match read_string(b, p3) {
            Ok(x) => x,
            Err(e) => {
                return Err(e);
            },
        };
        match json_from_str(text.as_str()) {
            Ok(value) => Ok((BulkInsertItem::EdgeProperty(k, name, value), p4)),
            Err(_) => Err(CodecError::MalformedJson),
        }
    } else {
        Err(CodecError::UnknownTag)
    }
}

fn read_bulk_items(b: &Vec<u8>, pos: usize, n: u64) -> (r: Result<
    (Vec<BulkInsertItem>, usize),
    CodecError,
>)
    ensures
        match dec_bulk_items(b@, pos as int, n as int) {
            Some((ws, p)) => match r {
                Ok(x) => x.1 == p && x.0@.len() == ws.len() && (forall|i: int|
                    0 <= i < ws.len() ==> wire_matches(#[trigger] x.0@[i]@, ws[i])),
                Err(_) => exists|i: int| 0 <= i < ws.len() && !wire_parseable(#[trigger] ws[i]),
            },
            None => r is Err,
        },
    decreases n,
{
    if n == 0 {
        Ok((Vec::new(), pos))
    } else {
        let ghost spec_result = dec_bulk_items(b@, pos as int, n as int);
        let (item, p) = match read_bulk_item(b, pos) {
            Ok(x) => x,
            Err(e) => {
                proof {
                    if spec_result is Some {
                        let w0 = dec_bulk_item(b@, pos as int).unwrap().0;
                        let ws = spec_result.unwrap().0;
                        assert(ws[0] == w0);
                    }
                }
                return Err(e);
            },
        };
        let (mut rest, p2) = match read_bulk_items(b, p, n - 1) {
            Ok(x) => x,
            Err(e) => {
                proof {
                    if spec_result is Some {
                        let ws_rest = dec_bulk_items(b@, p as int, n - 1int).unwrap().0;
                        let ws = spec_result.unwrap().0;
                        let i = choose|i: int|
                            0 <= i < ws_rest.len() && !wire_parseable(#[trigger] ws_rest[i]);
                        assert(ws[i + 1] == ws_rest[i]);
                    }
                }
                return Err(e);
            },
        };
        rest.insert(0, item);
        proof {
            if spec_result is Some {
                let ws = spec_result.unwrap().0;
                let ws_rest = dec_bulk_items(b@, p as int, n - 1int).unwrap().0;
                assert(ws =~= seq![dec_bulk_item(b@, pos as int).unwrap().0] + ws_rest);
                assert forall|i: int| 0 <= i < ws.len() implies wire_matches(
                    #[trigger] rest@[i]@,
                    ws[i],
                ) by {
                    if i > 0 {
                        assert(rest@[i] == rest@.subrange(1, rest@.len() as int)[i - 1]);
                        assert(ws[i] == ws_rest[i - 1]);
                    }
                }
            }
        }
        Ok((rest, p2))
    }
}

/// Decodes a length-prefixed list of bulk-insert items, requiring the
/// whole buffer to be consumed. Each decoded item answers to its wire
/// form; for property items the value is parsed back from its JSON text.
pub fn to_bulk_insert_items(bytes: &Vec<u8>) -> (r: Result<Vec<BulkInsertItem>, CodecError>)
    ensures
        match dec_bulk(bytes@, 0) {
            Some((ws, p)) => if p == bytes@.len() {
                match r {
                    Ok(out) => out@.len() == ws.len() && (forall|i: int|
                        0 <= i < ws.len() ==> wire_matches(#[trigger] out@[i]@, ws[i])),
                    Err(_) => exists|i: int|
                        0 <= i < ws.len() && !wire_parseable(#[trigger] ws[i]),
                }
            } else {
                r is Err
            },
            None => r is Err,
        },
{
    let (n, p) = match read_u64(bytes, 0) {
        Ok(x) => x,
        Err(e) => {
            return Err(e);
        },
    };
    match read_bulk_items(bytes, p, n) {
        Ok((out, p2)) => if p2 == bytes.len() {
            Ok(out)
        } else {
            Err(CodecError::InvalidValue)
        },
        Err(e) => Err(e),
    }
}

} // verus!

// ---------------------------------------------------------------------------
// Round trips: decoding an encoding recovers the value
// ---------------------------------------------------------------------------

verus! {

/// Splits knowledge of a two-segment subrange into its parts.
pub(crate) proof fn lemma_peel(b: Seq<u8>, pos: int, s1: Seq<u8>, s2: Seq<u8>)
    requires
        0 <= pos,
        pos + s1.len() + s2.len() <= b.len(),
        b.subrange(pos, pos + s1.len() + s2.len()) == s1 + s2,
    ensures
        b.subrange(pos, pos + s1.len()) == s1,
        b.subrange(pos + s1.len(), pos + s1.len() + s2.len()) == s2,
{
    let whole = b.subrange(pos, pos + s1.len() + s2.len());
    assert(b.subrange(pos, pos + s1.len()) =~= s1) by {
        assert forall|i: int| 0 <= i < s1.len() implies #[trigger] b.subrange(
            pos,
            pos + s1.len(),
        )[i] == s1[i] by {
            assert(b.subrange(pos, pos + s1.len())[i] == whole[i]);
        }
    }
    assert(b.subrange(pos + s1.len(), pos + s1.len() + s2.len()) =~= s2) by {
        assert forall|i: int| 0 <= i < s2.len() implies #[trigger] b.subrange(
            pos + s1.len(),
            pos + s1.len() + s2.len(),
        )[i] == s2[i] by {
            assert(b.subrange(pos + s1.len(), pos + s1.len() + s2.len())[i] == whole[i
                + s1.len()]);
        }
    }
}

/// UTF-8 encoding uses at most four bytes per character.
proof fn lemma_encode_utf8_len_bound(s: Seq<char>)
    ensures
        encode_utf8(s).len() <= 4 * s.len(),
    decreases s.len(),
{
    if s.len() > 0 {
        lemma_encode_utf8_len_bound(s.drop_first());
        vstd::utf8::char_is_scalar(s[0]);
        assert(vstd::utf8::encode_scalar(s[0] as u32).len() <= 4);
    }
}

proof fn lemma_dec_direction_at(b: Seq<u8>, pos: int, d: EdgeDirection)
    requires
        0 <= pos,
        pos + 1 <= b.len(),
        b.subrange(pos, pos + 1) == enc_direction(d),
    ensures
        dec_direction(b, pos) == Some((d, pos + 1)),
{
    assert(b[pos] == b.subrange(pos, pos + 1)[0]);
}

pub proof fn lemma_dec_vertex_at(b: Seq<u8>, pos: int, v: VertexV)
    requires
        0 <= pos,
        type_valid(v.t),
        pos + enc_vertex(v).len() <= b.len(),
        b.subrange(pos, pos + enc_vertex(v).len()) == enc_vertex(v),
    ensures
        dec_vertex(b, pos) == Some((v, pos + enc_vertex(v).len())),
{
    lemma_be_bytes_len(v.id.0 as nat, 16);
    lemma_encode_utf8_len_bound(v.t);
    lemma_peel(b, pos, enc_id(v.id), enc_string(v.t));
    lemma_dec_id_at(b, pos, v.id);
    lemma_dec_string_at(b, pos + 16, v.t);
}

pub proof fn lemma_dec_edge_key_at(b: Seq<u8>, pos: int, k: EdgeKeyV)
    requires
        0 <= pos,
        type_valid(k.t),
        pos + enc_edge_key(k).len() <= b.len(),
        b.subrange(pos, pos + enc_edge_key(k).len()) == enc_edge_key(k),
    ensures
        dec_edge_key(b, pos) == Some((k, pos + enc_edge_key(k).len())),
{
    lemma_be_bytes_len(k.outbound_id.0 as nat, 16);
    lemma_be_bytes_len(k.inbound_id.0 as nat, 16);
    lemma_encode_utf8_len_bound(k.t);
    let s1 = enc_id(k.outbound_id);
    let s2 = enc_string(k.t);
    let s3 = enc_id(k.inbound_id);
    assert(b.subrange(pos, pos + s1.len() + (s2.len() + s3.len())) =~= s1 + (s2 + s3));
    lemma_peel(b, pos, s1, s2 + s3);
    lemma_peel(b, pos + 16, s2, s3);
    lemma_dec_id_at(b, pos, k.outbound_id);
    lemma_dec_string_at(b, pos + 16, k.t);
    lemma_dec_id_at(b, pos + 16 + s2.len(), k.inbound_id);
}

pub proof fn lemma_dec_edge_at(b: Seq<u8>, pos: int, e: EdgeV)
    requires
        0 <= pos,
        type_valid(e.key.t),
        e.created_datetime % NANOS_PER_SEC == 0,
        pos + enc_edge(e).len() <= b.len(),
        b.subrange(pos, pos + enc_edge(e).len()) == enc_edge(e),
    ensures
        dec_edge(b, pos) == Some((e, pos + enc_edge(e).len())),
{
    let secs = (e.created_datetime / NANOS_PER_SEC) as u64;
    let s1 = enc_edge_key(e.key);
    let s2 = enc_u64(secs);
    lemma_be_bytes_len(secs as nat, 8);
    lemma_peel(b, pos, s1, s2);
    lemma_dec_edge_key_at(b, pos, e.key);
    lemma_dec_u64_at(b, pos + s1.len(), secs);
    assert(secs <= u64::MAX / NANOS_PER_SEC);
    assert(secs * NANOS_PER_SEC == e.created_datetime) by (nonlinear_arith)
        requires
            secs == e.created_datetime / NANOS_PER_SEC,
            e.created_datetime % NANOS_PER_SEC == 0,
            NANOS_PER_SEC == 1000000000u64,
    ;
}

pub proof fn lemma_dec_vertex_property_at(b: Seq<u8>, pos: int, id: Identifier, value: serde_json::Value)
    requires
        0 <= pos,
        encode_utf8(json_text_of(value)).len() < 0x10000000000000000,
        pos + enc_vertex_property(id, value).len() <= b.len(),
        b.subrange(pos, pos + enc_vertex_property(id, value).len()) == enc_vertex_property(
            id,
            value,
        ),
    ensures
        dec_vertex_property(b, pos) == Some(
            ((id, json_text_of(value)), pos + enc_vertex_property(id, value).len()),
        ),
{
    lemma_be_bytes_len(id.0 as nat, 16);
    lemma_peel(b, pos, enc_id(id), enc_string(json_text_of(value)));
    lemma_dec_id_at(b, pos, id);
    lemma_dec_string_at(b, pos + 16, json_text_of(value));
}

pub proof fn lemma_dec_edge_property_at(b: Seq<u8>, pos: int, k: EdgeKeyV, value: serde_json::Value)
    requires
        0 <= pos,
        type_valid(k.t),
        encode_utf8(json_text_of(value)).len() < 0x10000000000000000,
        pos + enc_edge_property(k, value).len() <= b.len(),
        b.subrange(pos, pos + enc_edge_property(k, value).len()) == enc_edge_property(k, value),
    ensures
        dec_edge_property(b, pos) == Some(
            ((k, json_text_of(value)), pos + enc_edge_property(k, value).len()),
        ),
{
    lemma_peel(b, pos, enc_edge_key(k), enc_string(json_text_of(value)));
    lemma_dec_edge_key_at(b, pos, k);
    lemma_dec_string_at(b, pos + enc_edge_key(k).len(), json_text_of(value));
}

proof fn lemma_dec_opt_id_at(b: Seq<u8>, pos: int, o: Option<Identifier>)
    requires
        0 <= pos,
        pos + enc_opt_id(o).len() <= b.len(),
        b.subrange(pos, pos + enc_opt_id(o).len()) == enc_opt_id(o),
    ensures
        dec_opt_id(b, pos) == Some((o, pos + enc_opt_id(o).len())),
{
    match o {
        None => {
            lemma_dec_bytes_at(b, pos, Seq::empty());
            assert(enc_bytes(Seq::<u8>::empty()) =~= enc_u64(0));
        },
        Some(id) => {
            lemma_be_bytes_len(id.0 as nat, 16);
            lemma_dec_bytes_at(b, pos, enc_id(id));
            lemma_pow256_small();
            lemma_be_val_be_bytes(id.0 as nat, 16);
        },
    }
}

proof fn lemma_dec_opt_ts_at(b: Seq<u8>, pos: int, o: Option<u64>)
    requires
        0 <= pos,
        o != Some(0u64),
        pos + enc_opt_ts(o).len() <= b.len(),
        b.subrange(pos, pos + enc_opt_ts(o).len()) == enc_opt_ts(o),
    ensures
        dec_opt_ts(b, pos) == Some((o, pos + enc_opt_ts(o).len())),
{
    match o {
        None => {
            lemma_be_bytes_len(0, 8);
            lemma_dec_u64_at(b, pos, 0);
        },
        Some(t) => {
            lemma_be_bytes_len(t as nat, 8);
            lemma_dec_u64_at(b, pos, t);
        },
    }
}

proof fn lemma_dec_opt_type_at(b: Seq<u8>, pos: int, o: Option<Seq<char>>)
    requires
        0 <= pos,
        match o {
            None => true,
            Some(t) => type_valid(t) && t.len() > 0,
        },
        pos + enc_opt_type(o).len() <= b.len(),
        b.subrange(pos, pos + enc_opt_type(o).len()) == enc_opt_type(o),
    ensures
        dec_opt_type(b, pos) == Some((o, pos + enc_opt_type(o).len())),
{
    match o {
        None => {
            assert(encode_utf8(Seq::<char>::empty()) =~= Seq::<u8>::empty());
            lemma_dec_string_at(b, pos, Seq::empty());
        },
        Some(t) => {
            lemma_encode_utf8_len_bound(t);
            lemma_dec_string_at(b, pos, t);
        },
    }
}

proof fn lemma_enc_ids_len(ids: Seq<Identifier>)
    ensures
        enc_ids(ids).len() == 16 * ids.len(),
    decreases ids.len(),
{
    if ids.len() > 0 {
        lemma_be_bytes_len(ids[0].0 as nat, 16);
        lemma_enc_ids_len(ids.drop_first());
    }
}

proof fn lemma_dec_ids_at(b: Seq<u8>, pos: int, ids: Seq<Identifier>)
    requires
        0 <= pos,
        pos + enc_ids(ids).len() <= b.len(),
        b.subrange(pos, pos + enc_ids(ids).len()) == enc_ids(ids),
    ensures
        dec_ids(b, pos, ids.len() as int) == Some((ids, pos + enc_ids(ids).len())),
    decreases ids.len(),
{
    if ids.len() == 0 {
        assert(dec_ids(b, pos, 0) == Some((Seq::<Identifier>::empty(), pos)));
        assert(ids =~= Seq::<Identifier>::empty());
    } else {
        lemma_be_bytes_len(ids[0].0 as nat, 16);
        lemma_peel(b, pos, enc_id(ids[0]), enc_ids(ids.drop_first()));
        lemma_dec_id_at(b, pos, ids[0]);
        lemma_dec_ids_at(b, pos + 16, ids.drop_first());
        assert(seq![ids[0]] + ids.drop_first() =~= ids);
    }
}

proof fn lemma_dec_keys_at(b: Seq<u8>, pos: int, keys: Seq<EdgeKeyV>)
    requires
        0 <= pos,
        forall|i: int| 0 <= i < keys.len() ==> type_valid((#[trigger] keys[i]).t),
        pos + enc_keys(keys).len() <= b.len(),
        b.subrange(pos, pos + enc_keys(keys).len()) == enc_keys(keys),
    ensures
        dec_keys(b, pos, keys.len() as int) == Some((keys, pos + enc_keys(keys).len())),
    decreases keys.len(),
{
    if keys.len() == 0 {
        assert(dec_keys(b, pos, 0) == Some((Seq::<EdgeKeyV>::empty(), pos)));
        assert(keys =~= Seq::<EdgeKeyV>::empty());
    } else {
        lemma_peel(b, pos, enc_edge_key(keys[0]), enc_keys(keys.drop_first()));
        lemma_dec_edge_key_at(b, pos, keys[0]);
        assert(forall|i: int|
            0 <= i < keys.drop_first().len() ==> type_valid(
                (#[trigger] keys.drop_first()[i]).t,
            )) by {
            assert(forall|i: int|
                0 <= i < keys.drop_first().len() ==> keys.drop_first()[i] == keys[i + 1]);
        }
        lemma_dec_keys_at(b, pos + enc_edge_key(keys[0]).len(), keys.drop_first());
        assert(seq![keys[0]] + keys.drop_first() =~= keys);
    }
}

/// Validity of a vertex query for the wire: list lengths fit their
/// prefixes, types are valid, and filters avoid the sentinel values.
pub open spec fn vq_valid(q: VertexQueryV) -> bool
    decreases q,
{
    match q {
        VertexQueryV::All { start_id, limit } => true,
        VertexQueryV::Vertices { ids } => ids.len() < 0x10000000000000000,
        VertexQueryV::Pipe { edge_query, converter, limit } => eq_valid(*edge_query),
    }
}

/// Validity of an edge query for the wire.
pub open spec fn eq_valid(q: EdgeQueryV) -> bool
    decreases q,
{
    match q {
        EdgeQueryV::Edges { keys } => keys.len() < 0x10000000000000000 && (forall|i: int|
            0 <= i < keys.len() ==> type_valid((#[trigger] keys[i]).t)),
        EdgeQueryV::Pipe { vertex_query, converter, type_filter, high_filter, low_filter, limit }
            => {
            &&& vq_valid(*vertex_query)
            &&& match type_filter {
                None => true,
                Some(t) => type_valid(t) && t.len() > 0,
            }
            &&& high_filter != Some(0u64)
            &&& low_filter != Some(0u64)
        },
    }
}

/// Codec round trip for vertex queries: decoding an encoding recovers the
/// query exactly and consumes exactly its bytes.
#[verifier::rlimit(100)]
pub proof fn lemma_dec_vq_at(b: Seq<u8>, pos: int, q: VertexQueryV)
    requires
        0 <= pos,
        vq_valid(q),
        pos + enc_vq(q).len() <= b.len(),
        b.subrange(pos, pos + enc_vq(q).len()) == enc_vq(q),
    ensures
        dec_vq(b, pos) == Some((q, pos + enc_vq(q).len())),
    decreases q, 1int,
{
    let whole = enc_vq(q);
    match q {
        VertexQueryV::All { start_id, limit } => {
            let s1 = seq![0u8];
            let s2 = enc_opt_id(start_id);
            let s3 = enc_u32(limit);
            lemma_be_bytes_len(limit as nat, 4);
            assert(b.subrange(pos, pos + s1.len() + (s2.len() + s3.len())) =~= s1 + (s2 + s3));
            lemma_peel(b, pos, s1, s2 + s3);
            lemma_peel(b, pos + 1, s2, s3);
            assert(b[pos] == b.subrange(pos, pos + 1)[0]);
            lemma_dec_opt_id_at(b, pos + 1, start_id);
            lemma_dec_u32_at(b, pos + 1 + s2.len(), limit);
        },
        VertexQueryV::Vertices { ids } => {
            let s1 = seq![1u8];
            let s2 = enc_u64(ids.len() as u64);
            let s3 = enc_ids(ids);
            lemma_be_bytes_len(ids.len() as nat, 8);
            lemma_enc_ids_len(ids);
            assert(b.subrange(pos, pos + s1.len() + (s2.len() + s3.len())) =~= s1 + (s2 + s3));
            lemma_peel(b, pos, s1, s2 + s3);
            lemma_peel(b, pos + 1, s2, s3);
            assert(b[pos] == b.subrange(pos, pos + 1)[0]);
            lemma_dec_u64_at(b, pos + 1, ids.len() as u64);
            lemma_dec_ids_at(b, pos + 9, ids);
        },
        VertexQueryV::Pipe { edge_query, converter, limit } => {
            let s1 = seq![2u8];
            let s2 = enc_eq(*edge_query);
            let s3 = enc_direction(converter);
            let s4 = enc_u32(limit);
            lemma_be_bytes_len(limit as nat, 4);
            assert(b.subrange(pos, pos + s1.len() + (s2.len() + (s3.len() + s4.len()))) =~= s1 + (
            s2 + (s3 + s4)));
            lemma_peel(b, pos, s1, s2 + (s3 + s4));
            lemma_peel(b, pos + 1, s2, s3 + s4);
            lemma_peel(b, pos + 1 + s2.len(), s3, s4);
            assert(b[pos] == b.subrange(pos, pos + 1)[0]);
            lemma_dec_eq_at(b, pos + 1, *edge_query);
            lemma_dec_direction_at(b, pos + 1 + s2.len(), converter);
            lemma_dec_u32_at(b, pos + 1 + s2.len() + 1, limit);
        },
    }
}

/// Codec round trip for edge queries.
#[verifier::rlimit(100)]
pub proof fn lemma_dec_eq_at(b: Seq<u8>, pos: int, q: EdgeQueryV)
    requires
        0 <= pos,
        eq_valid(q),
        pos + enc_eq(q).len() <= b.len(),
        b.subrange(pos, pos + enc_eq(q).len()) == enc_eq(q),
    ensures
        dec_eq(b, pos) == Some((q, pos + enc_eq(q).len())),
    decreases q, 0int,
{
    match q {
        EdgeQueryV::Edges { keys } => {
            let s1 = seq![0u8];
            let s2 = enc_u64(keys.len() as u64);
            let s3 = enc_keys(keys);
            lemma_be_bytes_len(keys.len() as nat, 8);
            assert(b.subrange(pos, pos + s1.len() + (s2.len() + s3.len())) =~= s1 + (s2 + s3));
            lemma_peel(b, pos, s1, s2 + s3);
            lemma_peel(b, pos + 1, s2, s3);
            assert(b[pos] == b.subrange(pos, pos + 1)[0]);
            lemma_dec_u64_at(b, pos + 1, keys.len() as u64);
            lemma_dec_keys_at(b, pos + 9, keys);
        },
        EdgeQueryV::Pipe { vertex_query, converter, type_filter, high_filter, low_filter, limit }
            => {
            lemma_dec_eq_pipe_at(
                b,
                pos,
                *vertex_query,
                converter,
                type_filter,
                high_filter,
                low_filter,
                limit,
            );
        },
    }
}

/// The pipe case of [`lemma_dec_eq_at`], separated to keep each proof
/// small.
#[verifier::rlimit(100)]
proof fn lemma_dec_eq_pipe_at(
    b: Seq<u8>,
    pos: int,
    vertex_query: VertexQueryV,
    converter: EdgeDirection,
    type_filter: Option<Seq<char>>,
    high_filter: Option<u64>,
    low_filter: Option<u64>,
    limit: u32,
)
    requires
        0 <= pos,
        eq_valid(
            EdgeQueryV::Pipe {
                vertex_query: Box::new(vertex_query),
                converter,
                type_filter,
                high_filter,
                low_filter,
                limit,
            },
        ),
        pos + enc_eq(
            EdgeQueryV::Pipe {
                vertex_query: Box::new(vertex_query),
                converter,
                type_filter,
                high_filter,
                low_filter,
                limit,
            },
        ).len() <= b.len(),
        b.subrange(
            pos,
            pos + enc_eq(
                EdgeQueryV::Pipe {
                    vertex_query: Box::new(vertex_query),
                    converter,
                    type_filter,
                    high_filter,
                    low_filter,
                    limit,
                },
            ).len(),
        ) == enc_eq(
            EdgeQueryV::Pipe {
                vertex_query: Box::new(vertex_query),
                converter,
                type_filter,
                high_filter,
                low_filter,
                limit,
            },
        ),
    ensures
        ({
            let q = EdgeQueryV::Pipe {
                vertex_query: Box::new(vertex_query),
                converter,
                type_filter,
                high_filter,
                low_filter,
                limit,
            };
            dec_eq(b, pos) == Some((q, pos + enc_eq(q).len()))
        }),
    decreases vertex_query, 2int,
{
    let s1 = seq![1u8];
    let s2 = enc_vq(vertex_query);
    let s3 = enc_direction(converter);
    let s4 = enc_opt_type(type_filter);
    let s5 = enc_opt_ts(high_filter);
    let s6 = enc_opt_ts(low_filter);
    let s7 = enc_u32(limit);
    lemma_be_bytes_len(limit as nat, 4);
    assert(b.subrange(
        pos,
        pos + s1.len() + (s2.len() + (s3.len() + (s4.len() + (s5.len() + (s6.len()
            + s7.len()))))),
    ) =~= s1 + (s2 + (s3 + (s4 + (s5 + (s6 + s7))))));
    lemma_peel(b, pos, s1, s2 + (s3 + (s4 + (s5 + (s6 + s7)))));
    lemma_peel(b, pos + 1, s2, s3 + (s4 + (s5 + (s6 + s7))));
    lemma_peel(b, pos + 1 + s2.len(), s3, s4 + (s5 + (s6 + s7)));
    lemma_peel(b, pos + 1 + s2.len() + s3.len(), s4, s5 + (s6 + s7));
    lemma_peel(b, pos + 1 + s2.len() + s3.len() + s4.len(), s5, s6 + s7);
    lemma_peel(b, pos + 1 + s2.len() + s3.len() + s4.len() + s5.len(), s6, s7);
    assert(b[pos] == b.subrange(pos, pos + 1)[0]);
    lemma_dec_vq_at(b, pos + 1, vertex_query);
    lemma_dec_direction_at(b, pos + 1 + s2.len(), converter);
    lemma_dec_opt_type_at(b, pos + 1 + s2.len() + 1, type_filter);
    lemma_dec_opt_ts_at(b, pos + 1 + s2.len() + 1 + s4.len(), high_filter);
    lemma_dec_opt_ts_at(b, pos + 1 + s2.len() + 1 + s4.len() + 8, low_filter);
    lemma_dec_u32_at(b, pos + 1 + s2.len() + 1 + s4.len() + 16, limit);
}

} // verus!

// ---------------------------------------------------------------------------
// Bulk-insert round trips
// ---------------------------------------------------------------------------

verus! {

/// The wire form of a native bulk-insert item: property values rendered
/// as their JSON text.
pub open spec fn wire_of(it: BulkInsertItemV) -> WireItemV {
    match it {
        BulkInsertItemV::Vertex(v) => WireItemV::Vertex(v),
        BulkInsertItemV::Edge(k) => WireItemV::Edge(k),
        BulkInsertItemV::VertexProperty(id, name, value) => WireItemV::VertexProperty(
            id,
            name,
            json_text_of(value),
        ),
        BulkInsertItemV::EdgeProperty(k, name, value) => WireItemV::EdgeProperty(
            k,
            name,
            json_text_of(value),
        ),
    }
}

/// Validity of a bulk-insert item for the wire.
pub open spec fn bulk_item_valid(it: BulkInsertItemV) -> bool {
    match it {
        BulkInsertItemV::Vertex(v) => type_valid(v.t),
        BulkInsertItemV::Edge(k) => type_valid(k.t),
        BulkInsertItemV::VertexProperty(id, name, value) => encode_utf8(name).len()
            < 0x10000000000000000 && encode_utf8(json_text_of(value)).len()
            < 0x10000000000000000,
        BulkInsertItemV::EdgeProperty(k, name, value) => type_valid(k.t) && encode_utf8(
            name,
        ).len() < 0x10000000000000000 && encode_utf8(json_text_of(value)).len()
            < 0x10000000000000000,
    }
}

#[verifier::rlimit(100)]
pub proof fn lemma_dec_bulk_item_at(b: Seq<u8>, pos: int, it: BulkInsertItemV)
    requires
        0 <= pos,
        bulk_item_valid(it),
        pos + enc_bulk_item(it).len() <= b.len(),
        b.subrange(pos, pos + enc_bulk_item(it).len()) == enc_bulk_item(it),
    ensures
        dec_bulk_item(b, pos) == Some((wire_of(it), pos + enc_bulk_item(it).len())),
{
    match it {
        BulkInsertItemV::Vertex(v) => {
            lemma_peel(b, pos, seq![0u8], enc_vertex(v));
            assert(b[pos] == b.subrange(pos, pos + 1)[0]);
            lemma_dec_vertex_at(b, pos + 1, v);
        },
        BulkInsertItemV::Edge(k) => {
            lemma_peel(b, pos, seq![1u8], enc_edge_key(k));
            assert(b[pos] == b.subrange(pos, pos + 1)[0]);
            lemma_dec_edge_key_at(b, pos + 1, k);
        },
        BulkInsertItemV::VertexProperty(id, name, value) => {
            let s2 = enc_id(id);
            let s3 = enc_string(name);
            let s4 = enc_string(json_text_of(value));
            lemma_be_bytes_len(id.0 as nat, 16);
            assert(b.subrange(pos, pos + 1 + (s2.len() + (s3.len() + s4.len()))) =~= seq![2u8] + (
            s2 + (s3 + s4)));
            lemma_peel(b, pos, seq![2u8], s2 + (s3 + s4));
            lemma_peel(b, pos + 1, s2, s3 + s4);
            lemma_peel(b, pos + 17, s3, s4);
            assert(b[pos] == b.subrange(pos, pos + 1)[0]);
            lemma_dec_id_at(b, pos + 1, id);
            lemma_dec_string_at(b, pos + 17, name);
            lemma_dec_string_at(b, pos + 17 + s3.len(), json_text_of(value));
        },
        BulkInsertItemV::EdgeProperty(k, name, value) => {
            let s2 = enc_edge_key(k);
            let s3 = enc_string(name);
            let s4 = enc_string(json_text_of(value));
            assert(b.subrange(pos, pos + 1 + (s2.len() + (s3.len() + s4.len()))) =~= seq![3u8] + (
            s2 + (s3 + s4)));
            lemma_peel(b, pos, seq![3u8], s2 + (s3 + s4));
            lemma_peel(b, pos + 1, s2, s3 + s4);
            lemma_peel(b, pos + 1 + s2.len(), s3, s4);
            assert(b[pos] == b.subrange(pos, pos + 1)[0]);
            lemma_dec_edge_key_at(b, pos + 1, k);
            lemma_dec_string_at(b, pos + 1 + s2.len(), name);
            lemma_dec_string_at(b, pos + 1 + s2.len() + s3.len(), json_text_of(value));
        },
    }
}

proof fn lemma_dec_bulk_items_at(b: Seq<u8>, pos: int, items: Seq<BulkInsertItemV>)
    requires
        0 <= pos,
        forall|i: int| 0 <= i < items.len() ==> bulk_item_valid(#[trigger] items[i]),
        pos + enc_bulk_items_seq(items).len() <= b.len(),
        b.subrange(pos, pos + enc_bulk_items_seq(items).len()) == enc_bulk_items_seq(items),
    ensures
        dec_bulk_items(b, pos, items.len() as int) == Some(
            (
                items.map_values(|it: BulkInsertItemV| wire_of(it)),
                pos + enc_bulk_items_seq(items).len(),
            ),
        ),
    decreases items.len(),
{
    if items.len() == 0 {
        assert(items.map_values(|it: BulkInsertItemV| wire_of(it)) =~= Seq::<WireItemV>::empty());
    } else {
        lemma_peel(b, pos, enc_bulk_item(items[0]), enc_bulk_items_seq(items.drop_first()));
        lemma_dec_bulk_item_at(b, pos, items[0]);
        assert(forall|i: int|
            0 <= i < items.drop_first().len() ==> bulk_item_valid(
                #[trigger] items.drop_first()[i],
            )) by {
            assert(forall|i: int|
                0 <= i < items.drop_first().len() ==> items.drop_first()[i] == items[i + 1]);
        }
        lemma_dec_bulk_items_at(b, pos + enc_bulk_item(items[0]).len(), items.drop_first());
        assert(seq![wire_of(items[0])] + items.drop_first().map_values(
            |it: BulkInsertItemV| wire_of(it),
        ) =~= items.map_values(|it: BulkInsertItemV| wire_of(it)));
    }
}

/// Codec round trip for bulk-insert lists, at the wire level: decoding an
/// encoding recovers every item, property values as their JSON text.
pub proof fn lemma_dec_bulk_at(b: Seq<u8>, pos: int, items: Seq<BulkInsertItemV>)
    requires
        0 <= pos,
        items.len() < 0x10000000000000000,
        forall|i: int| 0 <= i < items.len() ==> bulk_item_valid(#[trigger] items[i]),
        pos + enc_bulk(items).len() <= b.len(),
        b.subrange(pos, pos + enc_bulk(items).len()) == enc_bulk(items),
    ensures
        dec_bulk(b, pos) == Some(
            (
                items.map_values(|it: BulkInsertItemV| wire_of(it)),
                pos + enc_bulk(items).len(),
            ),
        ),
{
    lemma_be_bytes_len(items.len() as nat, 8);
    lemma_peel(b, pos, enc_u64(items.len() as u64), enc_bulk_items_seq(items));
    lemma_dec_u64_at(b, pos, items.len() as u64);
    lemma_dec_bulk_items_at(b, pos + 8, items);
}

} // verus!
