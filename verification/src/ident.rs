//! Identifiers: 16-byte unique identifiers with byte-lexicographic order.
//!
//! An identifier is held as one 128-bit integer; its byte-lexicographic
//! order on the wire is exactly the numeric order of that integer when the
//! bytes are read big-endian.

use vstd::prelude::*;
use crate::errors::ValidationError;

verus! {

/// 256 raised to `n`: the number of byte strings of length `n`.
pub open spec fn pow256(n: nat) -> nat
    decreases n,
{
    if n == 0 {
        1
    } else {
        256 * pow256((n - 1) as nat)
    }
}

/// The big-endian byte string of length `n` holding the value `v`
/// (mod 256^n): the last byte is the least significant.
pub open spec fn be_bytes(v: nat, n: nat) -> Seq<u8>
    decreases n,
{
    if n == 0 {
        Seq::empty()
    } else {
        be_bytes(v / 256, (n - 1) as nat).push((v % 256) as u8)
    }
}

/// The value a byte string denotes when read big-endian.
pub open spec fn be_val(s: Seq<u8>) -> nat
    decreases s.len(),
{
    if s.len() == 0 {
        0
    } else {
        (be_val(s.drop_last()) * 256 + s.last()) as nat
    }
}

pub proof fn lemma_be_bytes_len(v: nat, n: nat)
    ensures
        be_bytes(v, n).len() == n,
    decreases n,
{
    if n > 0 {
        lemma_be_bytes_len(v / 256, (n - 1) as nat);
    }
}

/// Reading back the big-endian bytes of a value below 256^n recovers it.
pub proof fn lemma_be_val_be_bytes(v: nat, n: nat)
    requires
        v < pow256(n),
    ensures
        be_val(be_bytes(v, n)) == v,
    decreases n,
{
    if n > 0 {
        let rest = be_bytes(v / 256, (n - 1) as nat);
        lemma_be_bytes_len(v / 256, (n - 1) as nat);
        assert(be_bytes(v, n).drop_last() =~= rest);
        assert(v / 256 < pow256((n - 1) as nat)) by (nonlinear_arith)
            requires
                v < 256 * pow256((n - 1) as nat),
        ;
        lemma_be_val_be_bytes(v / 256, (n - 1) as nat);
        assert((v / 256) * 256 + v % 256 == v) by (nonlinear_arith);
    }
}

/// A byte string of length `n` denotes a value below 256^n.
pub proof fn lemma_be_val_bound(s: Seq<u8>)
    ensures
        be_val(s) < pow256(s.len()),
    decreases s.len(),
{
    if s.len() > 0 {
        lemma_be_val_bound(s.drop_last());
        assert(be_val(s.drop_last()) * 256 + 255 < 256 * pow256((s.len() - 1) as nat))
            by (nonlinear_arith)
            requires
                be_val(s.drop_last()) < pow256((s.len() - 1) as nat),
        ;
    }
}

/// Writes the low `n` bytes of `v`, most significant first.
pub fn be_encode(v: u128, n: usize) -> (r: Vec<u8>)
    ensures
        r@ == be_bytes(v as nat, n as nat),
        r@.len() == n,
    decreases n,
{
    proof {
        lemma_be_bytes_len(v as nat, n as nat);
    }
    if n == 0 {
        Vec::new()
    } else {
        let mut r = be_encode(v / 256, n - 1);
        r.push((v % 256) as u8);
        r
    }
}

/// Reads `n` bytes starting at `start`, most significant first.
pub fn be_decode(b: &Vec<u8>, start: usize, n: usize) -> (r: u128)
    requires
        start + n <= b@.len(),
        n <= 16,
    ensures
        r as nat == be_val(b@.subrange(start as int, start + n)),
{
    let blen: usize = b.len();
    let mut v: u128 = 0;
    let mut i: usize = 0;
    proof {
        assert(b@.subrange(start as int, start as int) =~= Seq::empty());
    }
    while i < n
        invariant
            i <= n,
            n <= 16,
            start + n <= blen,
            blen == b@.len(),
            v as nat == be_val(b@.subrange(start as int, start + i)),
            v < pow256(i as nat),
        decreases n - i,
    {
        proof {
            assert(pow256(i as nat) <= pow256(15)) by {
                lemma_pow256_le(i as nat, 15);
            }
            lemma_pow256_16();
            assert(v * 256 + 255 < 256 * pow256(15)) by (nonlinear_arith)
                requires
                    v < pow256(15),
            ;
            assert(256 * pow256(15) == pow256(16));
            assert(b@.subrange(start as int, start + i + 1).drop_last() =~= b@.subrange(
                start as int,
                start + i,
            ));
            assert(v * 256 + 255 < pow256((i + 1) as nat)) by (nonlinear_arith)
                requires
                    v < pow256(i as nat),
                    pow256((i + 1) as nat) == 256 * pow256(i as nat),
            ;
        }
        v = v * 256 + (b[start + i] as u128);
        i = i + 1;
    }
    v
}

proof fn lemma_pow256_16()
    ensures
        pow256(16) == 0x100000000000000000000000000000000,
{
    reveal_with_fuel(pow256, 17);
}

proof fn lemma_pow256_le(m: nat, n: nat)
    requires
        m <= n,
    ensures
        pow256(m) <= pow256(n),
    decreases n,
{
    if m < n {
        lemma_pow256_le(m, (n - 1) as nat);
        assert(pow256((n - 1) as nat) <= 256 * pow256((n - 1) as nat)) by (nonlinear_arith)
            requires
                pow256((n - 1) as nat) >= 0,
        ;
    }
}

/// A 16-byte unique identifier. Ordering is byte-lexicographic, which is
/// numeric order of the single big-endian 128-bit value held here.
#[derive(Clone, Copy, Debug, PartialEq, Eq, Hash, Structural)]
pub struct Identifier(pub u128);

impl Identifier {
    /// The identifier whose 16 bytes are the given slice, read big-endian.
    /// Fails when the slice is not exactly 16 bytes long.
    pub fn from_bytes(b: &Vec<u8>) -> (r: Result<Identifier, ValidationError>)
        ensures
            b@.len() == 16 ==> r == Result::<Identifier, ValidationError>::Ok(
                Identifier(be_val(b@) as u128),
            ),
            b@.len() != 16 ==> r == Result::<Identifier, ValidationError>::Err(
                ValidationError::BadIdentifierLength,
            ),
    {
        if b.len() != 16 {
            Err(ValidationError::BadIdentifierLength)
        } else {
            let v = be_decode(b, 0, 16);
            proof {
                assert(b@.subrange(0, 16) =~= b@);
            }
            Ok(Identifier(v))
        }
    }

    /// The 16 bytes of this identifier, most significant first.
    pub fn as_bytes(&self) -> (r: Vec<u8>)
        ensures
            r@ == be_bytes(self.0 as nat, 16),
            r@.len() == 16,
            be_val(r@) == self.0 as nat,
    {
        proof {
            lemma_pow256_16();
            lemma_be_val_be_bytes(self.0 as nat, 16);
        }
        be_encode(self.0, 16)
    }

}

impl Default for Identifier {
    /// The all-zero identifier, used as a range sentinel.
    fn default() -> (r: Identifier)
        ensures
            r == Identifier(0u128),
    {
        Identifier(0)
    }
}

} // verus!
