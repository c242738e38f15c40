//! Byte-level physical key encoding, as guidance for persistent backends.
//!
//! Composite keys are the concatenation of fixed-width identifiers,
//! big-endian non-negative timestamps, and strings, either raw or
//! prefixed by a one-byte length. The in-memory engine does not use these;
//! a disk backend would key its ordered column families with them.

use vstd::prelude::*;
use crate::codec::lemma_peel;
use crate::errors::CodecError;
use crate::ident::{Identifier, be_bytes, be_val, be_encode, be_decode, lemma_be_bytes_len,
    lemma_be_val_be_bytes, lemma_be_val_bound, pow256};
use crate::types::{Type, type_valid};
use vstd::utf8::{encode_utf8, decode_utf8, valid_utf8};

verus! {

/// One component of a composite key.
pub enum KeyComponent {
    Uuid(Identifier),
    UnsizedString(String),
    ShortSizedString(String),
    NaiveDateTime(i64),
}

/// The bytes a component contributes to a key.
pub open spec fn component_bytes(c: KeyComponent) -> Seq<u8> {
    match c {
        KeyComponent::Uuid(id) => be_bytes(id.0 as nat, 16),
        KeyComponent::UnsizedString(s) => encode_utf8(s@),
        KeyComponent::ShortSizedString(s) => seq![encode_utf8(s@).len() as u8] + encode_utf8(s@),
        KeyComponent::NaiveDateTime(ts) => be_bytes(ts as nat, 8),
    }
}

/// Whether a component can be written: sized strings must fit their
/// one-byte length and timestamps must be non-negative.
pub open spec fn component_ok(c: KeyComponent) -> bool {
    match c {
        KeyComponent::Uuid(_) => true,
        KeyComponent::UnsizedString(_) => true,
        KeyComponent::ShortSizedString(s) => encode_utf8(s@).len() <= 255,
        KeyComponent::NaiveDateTime(ts) => ts >= 0,
    }
}

/// The concatenated bytes of a component list.
pub open spec fn components_bytes(cs: Seq<KeyComponent>) -> Seq<u8>
    decreases cs.len(),
{
    if cs.len() == 0 {
        Seq::empty()
    } else {
        component_bytes(cs[0]) + components_bytes(cs.drop_first())
    }
}

proof fn lemma_components_bytes_push(cs: Seq<KeyComponent>, x: KeyComponent)
    ensures
        components_bytes(cs.push(x)) == components_bytes(cs) + component_bytes(x),
    decreases cs.len(),
{
    reveal_with_fuel(components_bytes, 3);
    if cs.len() == 0 {
        assert(cs.push(x)[0] == x);
        assert(cs.push(x).drop_first() =~= Seq::empty());
        assert(components_bytes(cs.push(x)) =~= components_bytes(cs) + component_bytes(x));
    } else {
        assert(cs.push(x)[0] == cs[0]);
        assert(cs.push(x).drop_first() =~= cs.drop_first().push(x));
        lemma_components_bytes_push(cs.drop_first(), x);
        assert(component_bytes(cs[0]) + (components_bytes(cs.drop_first()) + component_bytes(x))
            =~= (component_bytes(cs[0]) + components_bytes(cs.drop_first())) + component_bytes(
            x,
        ));
    }
}

impl KeyComponent {
    /// The number of bytes this component contributes.
    pub fn len(&self) -> (r: usize)
        requires
            component_ok(*self),
        ensures
            r == component_bytes(*self).len(),
    {
        match self {
            KeyComponent::Uuid(id) => {
                proof {
                    lemma_be_bytes_len(id.0 as nat, 16);
                }
                16
            },
            KeyComponent::UnsizedString(s) => s.as_str().as_bytes().len(),
            KeyComponent::ShortSizedString(s) => {
                let n = s.as_str().as_bytes().len();
                proof {
                    assert(n + 1 <= usize::MAX);
                }
                n + 1
            },
            KeyComponent::NaiveDateTime(ts) => {
                proof {
                    lemma_be_bytes_len(*ts as nat, 8);
                }
                8
            },
        }
    }

    /// Appends this component's bytes to a key under construction.
    pub fn write(&self, out: &mut Vec<u8>)
        requires
            component_ok(*self),
        ensures
            final(out)@ == old(out)@ + component_bytes(*self),
    {
        match self {
            KeyComponent::Uuid(id) => {
                let mut tmp = be_encode(id.0, 16);
                out.append(&mut tmp);
                proof {
                    assert(out@ =~= old(out)@ + component_bytes(*self));
                }
            },
            KeyComponent::UnsizedString(s) => {
                let mut tmp = vstd::slice::slice_to_vec(s.as_str().as_bytes());
                out.append(&mut tmp);
                proof {
                    assert(out@ =~= old(out)@ + component_bytes(*self));
                }
            },
            KeyComponent::ShortSizedString(s) => {
                let bytes = s.as_str().as_bytes();
                out.push(bytes.len() as u8);
                let mut tmp = vstd::slice::slice_to_vec(bytes);
                out.append(&mut tmp);
                proof {
                    assert(out@ =~= old(out)@ + component_bytes(*self));
                }
            },
            KeyComponent::NaiveDateTime(ts) => {
                let mut tmp = be_encode(*ts as u128, 8);
                out.append(&mut tmp);
                proof {
                    assert(out@ =~= old(out)@ + component_bytes(*self));
                }
            },
        }
    }
}

/// Builds a composite key: the concatenation of the components' bytes.
pub fn build_key(components: Vec<KeyComponent>) -> (r: Vec<u8>)
    requires
        forall|i: int| 0 <= i < components@.len() ==> component_ok(#[trigger] components@[i]),
    ensures
        r@ == components_bytes(components@),
{
    let n = components.len();
    let mut out: Vec<u8> = Vec::new();
    let mut i: usize = 0;
    proof {
        assert(out@ =~= components_bytes(components@.take(0)));
    }
    while i < n
        invariant
            i <= n,
            n == components@.len(),
            forall|j: int| 0 <= j < n ==> component_ok(#[trigger] components@[j]),
            out@ == components_bytes(components@.take(i as int)),
        decreases n - i,
    {
        proof {
            lemma_components_bytes_push(components@.take(i as int), components@[i as int]);
            assert(components@.take(i + 1) =~= components@.take(i as int).push(
                components@[i as int],
            ));
        }
        components[i].write(&mut out);
        i = i + 1;
    }
    proof {
        assert(components@.take(n as int) =~= components@);
    }
    out
}

/// Reads an identifier back from a 16-byte key.
pub fn parse_uuid_key(key: &Vec<u8>) -> (r: Identifier)
    requires
        key@.len() == 16,
    ensures
        r.0 as nat == be_val(key@),
{
    let v = be_decode(key, 0, 16);
    proof {
        assert(key@.subrange(0, 16) =~= key@);
    }
    Identifier(v)
}

/// What an edge-range key decodes to, when it has the encoded shape:
/// a 16-byte id, a one-byte-length-prefixed valid type, an 8-byte
/// non-negative big-endian timestamp, and a second 16-byte id.
pub open spec fn dec_edge_range_key(key: Seq<u8>) -> Option<(Identifier, Seq<char>, i64, Identifier)> {
    if key.len() < 17 {
        None
    } else {
        let t_len = key[16] as int;
        if key.len() != t_len + 41 {
            None
        } else {
            let t_bytes = key.subrange(17, 17 + t_len);
            if !valid_utf8(t_bytes) {
                None
            } else {
                let t = decode_utf8(t_bytes);
                if !type_valid(t) {
                    None
                } else {
                    let ts = be_val(key.subrange(t_len + 17, t_len + 25));
                    if ts > 0x7fffffffffffffff {
                        None
                    } else {
                        Some(
                            (
                                Identifier(be_val(key.subrange(0, 16)) as u128),
                                t,
                                ts as i64,
                                Identifier(be_val(key.subrange(t_len + 25, t_len + 41)) as u128),
                            ),
                        )
                    }
                }
            }
        }
    }
}

/// Reads back an edge-range key: first id, sized type, timestamp, second
/// id. Succeeds exactly on keys of the encoded shape, and then recovers
/// every component.
pub fn parse_edge_range_key(key: &Vec<u8>) -> (r: Result<
    (Identifier, Type, i64, Identifier),
    CodecError,
>)
    requires
        key@.len() >= 33,
    ensures
        match dec_edge_range_key(key@) {
            Some((u1, t, d, u2)) => r matches Ok(x) && x.0 == u1 && x.1@ == t && x.2 == d && x.3
                == u2,
            None => r is Err,
        },
{
    let first_id = Identifier(be_decode(key, 0, 16));
    let t_len = key[16] as usize;
    let klen: usize = key.len();
    if klen != t_len + 41 {
        return Err(CodecError::Truncated);
    }
    let mut t_bytes: Vec<u8> = Vec::new();
    let mut i: usize = 0;
    while i < t_len
        invariant
            i <= t_len,
            klen == key@.len(),
            t_len + 41 == klen,
            t_bytes@ == key@.subrange(17, 17 + i),
        decreases t_len - i,
    {
        t_bytes.push(key[17 + i]);
        proof {
            assert(t_bytes@ =~= key@.subrange(17, 17 + i + 1));
        }
        i = i + 1;
    }
    let t_str = match crate::codec::string_from_utf8(t_bytes) {
        Some(s) => s,
        None => {
            return Err(CodecError::InvalidUtf8);
        },
    };
    let t = match Type::new(t_str) {
        Ok(t) => t,
        Err(_) => {
            return Err(CodecError::InvalidValue);
        },
    };
    let ts_val = be_decode(key, t_len + 17, 8);
    proof {
        lemma_be_val_bound(key@.subrange(t_len + 17, t_len + 17 + 8));
        reveal_with_fuel(pow256, 9);
    }
    let ts = ts_val as u64;
    if ts > i64::MAX as u64 {
        return Err(CodecError::TimestampOutOfRange);
    }
    let second_id = Identifier(be_decode(key, t_len + 25, 16));
    Ok((first_id, t, ts as i64, second_id))
}

/// Parsing inverts building: a key assembled from a 16-byte id, a
/// length-prefixed valid type, an 8-byte non-negative timestamp and a
/// second 16-byte id decodes to exactly those four components.
pub proof fn lemma_parse_edge_range_key(
    key: Seq<u8>,
    u1: Identifier,
    t: Seq<char>,
    d: i64,
    u2: Identifier,
)
    requires
        type_valid(t),
        encode_utf8(t).len() <= 255,
        0 <= d,
        key == be_bytes(u1.0 as nat, 16) + (seq![encode_utf8(t).len() as u8] + encode_utf8(t))
            + be_bytes(d as nat, 8) + be_bytes(u2.0 as nat, 16),
    ensures
        dec_edge_range_key(key) == Some((u1, t, d, u2)),
{
    let n = encode_utf8(t).len() as int;
    let s1 = be_bytes(u1.0 as nat, 16);
    let s2 = seq![encode_utf8(t).len() as u8] + encode_utf8(t);
    let s3 = be_bytes(d as nat, 8);
    let s4 = be_bytes(u2.0 as nat, 16);
    lemma_be_bytes_len(u1.0 as nat, 16);
    lemma_be_bytes_len(d as nat, 8);
    lemma_be_bytes_len(u2.0 as nat, 16);
    assert(key.len() == n + 41);
    assert(key.subrange(0, key.len() as int) =~= key);
    assert(key.subrange(0, 16 + (s2.len() + (s3.len() + s4.len())) as int) =~= s1 + (s2 + (s3
        + s4)));
    lemma_peel(key, 0, s1, s2 + (s3 + s4));
    lemma_peel(key, 16, s2, s3 + s4);
    lemma_peel(key, 16 + s2.len() as int, s3, s4);
    lemma_peel(key, 16, seq![encode_utf8(t).len() as u8], encode_utf8(t));
    assert(key[16] == key.subrange(16, 17)[0]);
    assert(key[16] as int == n);
    assert(key.subrange(17, 17 + n) =~= encode_utf8(t));
    vstd::utf8::encode_utf8_valid_utf8(t);
    vstd::utf8::encode_utf8_decode_utf8(t);
    reveal_with_fuel(pow256, 17);
    assert(key.subrange(n + 17, n + 25) =~= s3);
    lemma_be_val_be_bytes(d as nat, 8);
    assert(key.subrange(0, 16) =~= s1);
    lemma_be_val_be_bytes(u1.0 as nat, 16);
    assert(key.subrange(n + 25, n + 41) =~= s4);
    lemma_be_val_be_bytes(u2.0 as nat, 16);
}

/// The largest identifier: all 16 bytes 0xFF.
pub fn max_uuid() -> (r: Identifier)
    ensures
        r == Identifier(u128::MAX),
{
    Identifier(u128::MAX)
}

} // verus!
