//! Fixed-width big-endian encodings of field elements and curve points.

use crate::field::{be_value, fq_modulus, fr_modulus, Fq, Fr};
use crate::group::{G1Affine, G1Point};
use vstd::prelude::*;

verus! {

/// Byte strings of one length that spell the same number are the same.
pub proof fn lemma_be_value_injective(a: Seq<u8>, b: Seq<u8>)
    requires
        a.len() == b.len(),
        be_value(a) == be_value(b),
    ensures
        a == b,
    decreases a.len(),
{
    if a.len() == 0 {
        assert(a =~= b);
    } else {
        lemma_be_value_bounds(a.drop_last());
        lemma_be_value_bounds(b.drop_last());
        lemma_be_value_injective(a.drop_last(), b.drop_last());
        assert(a =~= a.drop_last().push(a.last()));
        assert(b =~= b.drop_last().push(b.last()));
    }
}

/// The number that a byte string spells is not negative.
pub proof fn lemma_be_value_bounds(a: Seq<u8>)
    ensures
        0 <= be_value(a),
    decreases a.len(),
{
    if a.len() > 0 {
        lemma_be_value_bounds(a.drop_last());
    }
}

/// Whether two byte strings are the same.
pub fn bytes_equal(a: &[u8], b: &[u8]) -> (r: bool)
    ensures
        r == (a@ == b@),
{
    if a.len() != b.len() {
        return false;
    }
    let mut i: usize = 0;
    while i < a.len()
        invariant
            a@.len() == b@.len(),
            i <= a@.len(),
            forall|j: int| 0 <= j < i ==> a@[j] == b@[j],
        decreases a@.len() - i,
    {
        if a[i] != b[i] {
            return false;
        }
        i = i + 1;
    }
    proof {
        assert(a@ =~= b@);
    }
    true
}

/// The base-field coordinate that 32 big-endian bytes spell, where they
/// spell a canonical one.
pub open spec fn spec_coordinate(bytes: Seq<u8>) -> Option<int> {
    if bytes.len() == 32 && be_value(bytes) < fq_modulus() {
        Some(be_value(bytes))
    } else {
        None
    }
}

/// The scalar that 32 big-endian bytes spell, where they spell a canonical
/// one.
pub open spec fn spec_scalar(bytes: Seq<u8>) -> Option<int> {
    if bytes.len() == 32 && be_value(bytes) < fr_modulus() {
        Some(be_value(bytes))
    } else {
        None
    }
}

/// Reads a canonical base-field element from 32 big-endian bytes.
pub fn fq_from_bytes(bytes: &[u8]) -> (r: Option<Fq>)
    ensures
        r is Some <==> spec_coordinate(bytes@) is Some,
        r matches Some(v) ==> v.wf() && Some(v@) == spec_coordinate(bytes@),
{
    if bytes.len() != 32 {
        return None;
    }
    // The bytes spell a canonical number exactly when reducing them changes
    // nothing.
    let v = Fq::from_be_bytes_mod_order(bytes);
    let back = v.to_be_bytes();
    proof {
        lemma_be_value_bounds(bytes@);
        if be_value(bytes@) < fq_modulus() {
            vstd::arithmetic::div_mod::lemma_small_mod(be_value(bytes@) as nat, fq_modulus() as nat);
            lemma_be_value_injective(bytes@, back@);
        }
    }
    if bytes_equal(bytes, back.as_slice()) {
        Some(v)
    } else {
        None
    }
}

/// Reads a canonical scalar from 32 big-endian bytes.
pub fn fr_from_bytes(bytes: &[u8]) -> (r: Option<Fr>)
    ensures
        r is Some <==> spec_scalar(bytes@) is Some,
        r matches Some(v) ==> v.wf() && Some(v@) == spec_scalar(bytes@),
{
    if bytes.len() != 32 {
        return None;
    }
    let v = Fr::from_be_bytes_mod_order(bytes);
    let back = v.to_be_bytes();
    proof {
        lemma_be_value_bounds(bytes@);
        if be_value(bytes@) < fr_modulus() {
            vstd::arithmetic::div_mod::lemma_small_mod(be_value(bytes@) as nat, fr_modulus() as nat);
            lemma_be_value_injective(bytes@, back@);
        }
    }
    if bytes_equal(bytes, back.as_slice()) {
        Some(v)
    } else {
        None
    }
}

/// The point of the first group that 64 bytes spell: `x` then `y`, 32
/// big-endian bytes each, both canonical. Whether the point is on the curve
/// is not asked here.
pub open spec fn spec_g1_from_bytes(bytes: Seq<u8>) -> Option<G1Point> {
    if bytes.len() != 64 {
        None
    } else {
        match (spec_coordinate(bytes.subrange(0, 32)), spec_coordinate(bytes.subrange(32, 64))) {
            (Some(x), Some(y)) => Some(G1Point { x, y, infinity: false }),
            _ => None,
        }
    }
}

/// Reads a point of the first group from its 64 bytes.
pub fn g1_from_bytes(bytes: &[u8]) -> (r: Option<G1Affine>)
    ensures
        r is Some <==> spec_g1_from_bytes(bytes@) is Some,
        r matches Some(p) ==> p.wf() && Some(p@) == spec_g1_from_bytes(bytes@),
{
    if bytes.len() != 64 {
        return None;
    }
    let x = fq_from_bytes(vstd::slice::slice_subrange(bytes, 0, 32));
    let y = fq_from_bytes(vstd::slice::slice_subrange(bytes, 32, 64));
    match (x, y) {
        (Some(x), Some(y)) => Some(G1Affine::from_xy(x, y)),
        _ => None,
    }
}

/// The 64 bytes that spell a point of the first group: `x` then `y`, 32
/// big-endian bytes each.
pub open spec fn spec_g1_bytes(p: G1Point) -> Seq<u8> {
    spec_bytes32(p.x) + spec_bytes32(p.y)
}

/// The 64 bytes of a point of the first group: `x` then `y`, 32 big-endian
/// bytes each.
pub fn g1_to_bytes(p: &G1Affine) -> (r: Vec<u8>)
    requires
        p.wf(),
    ensures
        r@ == spec_g1_bytes(p@),
        r@.len() == 64,
        !p@.infinity ==> spec_g1_from_bytes(r@) == Some(p@),
{
    let mut out = p.x.to_be_bytes();
    let mut tail = p.y.to_be_bytes();
    let ghost head = out@;
    let ghost rest = tail@;
    out.append(&mut tail);
    proof {
        lemma_be_value_injective(head, spec_bytes32(p@.x));
        lemma_be_value_injective(rest, spec_bytes32(p@.y));
        assert(out@.subrange(0, 32) =~= head);
        assert(out@.subrange(32, 64) =~= rest);
    }
    out
}

/// Appends a byte string to a buffer.
pub fn append_bytes(buffer: &mut Vec<u8>, bytes: &[u8])
    ensures
        final(buffer)@ == old(buffer)@ + bytes@,
{
    let mut i: usize = 0;
    while i < bytes.len()
        invariant
            i <= bytes@.len(),
            buffer@ == old(buffer)@ + bytes@.take(i as int),
        decreases bytes@.len() - i,
    {
        buffer.push(bytes[i]);
        proof {
            assert(buffer@ =~= old(buffer)@ + bytes@.take(i + 1));
        }
        i = i + 1;
    }
    proof {
        assert(bytes@.take(i as int) =~= bytes@);
    }
}

/// The four big-endian bytes of a 32-bit number.
pub open spec fn spec_u32_bytes(v: u32) -> Seq<u8> {
    seq![
        (v / 0x100_0000) as u8,
        ((v / 0x1_0000) % 0x100) as u8,
        ((v / 0x100) % 0x100) as u8,
        (v % 0x100) as u8,
    ]
}

/// The four big-endian bytes of a 32-bit number.
pub fn u32_to_be_bytes(v: u32) -> (r: Vec<u8>)
    ensures
        r@ == spec_u32_bytes(v),
{
    let mut r: Vec<u8> = Vec::new();
    r.push((v / 0x100_0000) as u8);
    r.push(((v / 0x1_0000) % 0x100) as u8);
    r.push(((v / 0x100) % 0x100) as u8);
    r.push((v % 0x100) as u8);
    proof {
        assert(r@ =~= spec_u32_bytes(v));
    }
    r
}

/// The 32 big-endian bytes that spell a number.
pub open spec fn spec_bytes32(v: int) -> Seq<u8> {
    choose|b: Seq<u8>| b.len() == 32 && be_value(b) == v
}

/// The 32 bytes of a scalar, most significant first.
pub fn fr_to_bytes(v: &Fr) -> (r: Vec<u8>)
    requires
        v.wf(),
    ensures
        r@ == spec_bytes32(v@),
        r@.len() == 32,
        spec_scalar(r@) == Some(v@),
{
    let r = v.to_be_bytes();
    proof {
        lemma_be_value_injective(r@, spec_bytes32(v@));
    }
    r
}

} // verus!
