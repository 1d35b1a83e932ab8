//! The persisted form of a proving key: the kind of circuit, its size, the
//! number of public inputs, the number of polynomials, every polynomial
//! with its label, whether the circuit verifies a proof and at which public
//! inputs, and the memory records. Numbers are 32 bits wide and big-endian,
//! lists and labels are preceded by their lengths, scalars take 32 bytes.

use crate::bytes::{append_bytes, fr_from_bytes, fr_to_bytes, spec_bytes32, spec_scalar, spec_u32_bytes, u32_to_be_bytes};
use crate::errors::Error;
use crate::field::Fr;
use crate::polynomial::{all_wf, fr_values, Polynomial};
use crate::polynomial_store::PolynomialStore;
use crate::proving_key::{ProvingKey, ProvingKeyData};
use crate::settings::PolynomialSource;
use vstd::prelude::*;
use vstd::utf8::{decode_utf8, encode_utf8, valid_utf8};

verus! {

/// std's `String::from_utf8`: the string that bytes spell in UTF-8, where
/// they spell one.
#[verifier::external_body]
fn string_from_utf8(bytes: Vec<u8>) -> (r: Option<String>)
    ensures
        r is Some <==> valid_utf8(bytes@),
        r matches Some(s) ==> s@ == decode_utf8(bytes@),
{
    String::from_utf8(bytes).ok()
}

/// The number that four big-endian bytes spell.
pub open spec fn spec_u32_of(bytes: Seq<u8>) -> u32 {
    (bytes[0] as u32 * 0x100_0000 + bytes[1] as u32 * 0x1_0000 + bytes[2] as u32 * 0x100
        + bytes[3] as u32) as u32
}

/// The number at a position, and the position behind it.
pub open spec fn dec_u32(bytes: Seq<u8>, pos: int) -> Option<(u32, int)> {
    if 0 <= pos && pos + 4 <= bytes.len() {
        Some((spec_u32_of(bytes.subrange(pos, pos + 4)), pos + 4))
    } else {
        None
    }
}

/// The truth value at a position, one byte that is zero or one, and the
/// position behind it.
pub open spec fn dec_bool(bytes: Seq<u8>, pos: int) -> Option<(bool, int)> {
    if 0 <= pos < bytes.len() && bytes[pos] <= 1 {
        Some((bytes[pos] == 1, pos + 1))
    } else {
        None
    }
}

/// `count` numbers from a position on, and the position behind them.
pub open spec fn dec_u32s(bytes: Seq<u8>, pos: int, count: nat) -> Option<(Seq<u32>, int)>
    decreases count,
{
    if count == 0 {
        Some((Seq::empty(), pos))
    } else {
        match dec_u32s(bytes, pos, (count - 1) as nat) {
            None => None,
            Some((list, at)) => match dec_u32(bytes, at) {
                None => None,
                Some((v, next)) => Some((list.push(v), next)),
            },
        }
    }
}

/// A list of numbers at a position, preceded by its length, and the
/// position behind it.
pub open spec fn dec_u32_list(bytes: Seq<u8>, pos: int) -> Option<(Seq<u32>, int)> {
    match dec_u32(bytes, pos) {
        None => None,
        Some((count, at)) => dec_u32s(bytes, at, count as nat),
    }
}

/// `count` canonical scalars from a position on, and the position behind
/// them.
pub open spec fn dec_scalars(bytes: Seq<u8>, pos: int, count: nat) -> Option<(Seq<int>, int)>
    decreases count,
{
    if count == 0 {
        Some((Seq::empty(), pos))
    } else {
        match dec_scalars(bytes, pos, (count - 1) as nat) {
            None => None,
            Some((list, at)) => if 0 <= at && at + 32 <= bytes.len() {
                match spec_scalar(bytes.subrange(at, at + 32)) {
                    None => None,
                    Some(v) => Some((list.push(v), at + 32)),
                }
            } else {
                None
            },
        }
    }
}

/// A polynomial at a position, preceded by the number of its coefficients,
/// and the position behind it.
pub open spec fn dec_polynomial(bytes: Seq<u8>, pos: int) -> Option<(Seq<int>, int)> {
    match dec_u32(bytes, pos) {
        None => None,
        Some((count, at)) => dec_scalars(bytes, at, count as nat),
    }
}

/// A label at a position, preceded by the number of its bytes, and the
/// position behind it.
pub open spec fn dec_label(bytes: Seq<u8>, pos: int) -> Option<(Seq<char>, int)> {
    match dec_u32(bytes, pos) {
        None => None,
        Some((count, at)) => if at + count <= bytes.len() && valid_utf8(
            bytes.subrange(at, at + count),
        ) {
            Some((decode_utf8(bytes.subrange(at, at + count)), at + count))
        } else {
            None
        },
    }
}

/// `count` polynomials with their labels from a position on, as a map from
/// label to coefficients, a later one taking the place of an earlier one
/// with the same label, and the position behind them.
pub open spec fn dec_entries(bytes: Seq<u8>, pos: int, count: nat) -> Option<
    (Map<Seq<char>, Seq<int>>, int),
>
    decreases count,
{
    if count == 0 {
        Some((Map::empty(), pos))
    } else {
        match dec_entries(bytes, pos, (count - 1) as nat) {
            None => None,
            Some((m, at)) => match dec_label(bytes, at) {
                None => None,
                Some((label, at_polynomial)) => match dec_polynomial(bytes, at_polynomial) {
                    None => None,
                    Some((coefficients, next)) => Some((m.insert(label, coefficients), next)),
                },
            },
        }
    }
}

/// What a persisted key holds.
pub struct PersistedKey {
    pub composer_type: u32,
    pub circuit_size: u32,
    pub num_public_inputs: u32,
    pub polynomials: Map<Seq<char>, Seq<int>>,
    pub contains_recursive_proof: bool,
    pub recursive_proof_public_input_indices: Seq<u32>,
    pub memory_read_records: Seq<u32>,
    pub memory_write_records: Seq<u32>,
}

/// The key that bytes spell, where they spell one and nothing is left
/// over.
pub open spec fn dec_key(bytes: Seq<u8>) -> Option<PersistedKey> {
    match dec_u32(bytes, 0) {
        None => None,
        Some((composer_type, at1)) => match dec_u32(bytes, at1) {
            None => None,
            Some((circuit_size, at2)) => match dec_u32(bytes, at2) {
                None => None,
                Some((num_public_inputs, at3)) => match dec_u32(bytes, at3) {
                    None => None,
                    Some((count, at4)) => match dec_entries(bytes, at4, count as nat) {
                        None => None,
                        Some((polynomials, at5)) => dec_key_tail(
                            bytes,
                            at5,
                            composer_type,
                            circuit_size,
                            num_public_inputs,
                            polynomials,
                        ),
                    },
                },
            },
        },
    }
}

/// The part of a key behind its polynomials.
pub open spec fn dec_key_tail(
    bytes: Seq<u8>,
    pos: int,
    composer_type: u32,
    circuit_size: u32,
    num_public_inputs: u32,
    polynomials: Map<Seq<char>, Seq<int>>,
) -> Option<PersistedKey> {
    match dec_bool(bytes, pos) {
        None => None,
        Some((contains_recursive_proof, at1)) => match dec_u32_list(bytes, at1) {
            None => None,
            Some((recursive_proof_public_input_indices, at2)) => match dec_u32_list(bytes, at2) {
                None => None,
                Some((memory_read_records, at3)) => match dec_u32_list(bytes, at3) {
                    None => None,
                    Some((memory_write_records, at4)) => if at4 == bytes.len() {
                        Some(
                            PersistedKey {
                                composer_type,
                                circuit_size,
                                num_public_inputs,
                                polynomials,
                                contains_recursive_proof,
                                recursive_proof_public_input_indices,
                                memory_read_records,
                                memory_write_records,
                            },
                        )
                    } else {
                        None
                    },
                },
            },
        },
    }
}

/// Reads a number.
fn read_u32(bytes: &[u8], pos: usize) -> (r: Option<(u32, usize)>)
    ensures
        r is Some <==> dec_u32(bytes@, pos as int) is Some,
        r matches Some(v) ==> dec_u32(bytes@, pos as int) == Some((v.0, v.1 as int)) && v.1
            <= bytes@.len(),
{
    if pos > bytes.len() || bytes.len() - pos < 4 {
        return None;
    }
    let b0 = bytes[pos] as u32;
    let b1 = bytes[pos + 1] as u32;
    let b2 = bytes[pos + 2] as u32;
    let b3 = bytes[pos + 3] as u32;
    let v = b0 * 0x100_0000 + b1 * 0x1_0000 + b2 * 0x100 + b3;
    Some((v, pos + 4))
}

/// Reads a truth value.
fn read_bool(bytes: &[u8], pos: usize) -> (r: Option<(bool, usize)>)
    ensures
        r is Some <==> dec_bool(bytes@, pos as int) is Some,
        r matches Some(v) ==> dec_bool(bytes@, pos as int) == Some((v.0, v.1 as int)) && v.1
            <= bytes@.len(),
{
    if pos >= bytes.len() || bytes[pos] > 1 {
        return None;
    }
    Some((bytes[pos] == 1, pos + 1))
}

/// Once a list cannot be read, it cannot be read with more entries.
proof fn lemma_dec_u32s_stays(bytes: Seq<u8>, pos: int, k: nat, n: nat)
    requires
        k <= n,
        dec_u32s(bytes, pos, k) is None,
    ensures
        dec_u32s(bytes, pos, n) is None,
    decreases n,
{
    if k < n {
        lemma_dec_u32s_stays(bytes, pos, k, (n - 1) as nat);
    }
}

/// Reads a list of numbers.
fn read_u32_list(bytes: &[u8], pos: usize) -> (r: Option<(Vec<u32>, usize)>)
    ensures
        r is Some <==> dec_u32_list(bytes@, pos as int) is Some,
        r matches Some(v) ==> dec_u32_list(bytes@, pos as int) == Some((v.0@, v.1 as int)) && v.1
            <= bytes@.len(),
{
    let (count, start) = match read_u32(bytes, pos) {
        Some(v) => v,
        None => {
            return None;
        },
    };
    let mut out: Vec<u32> = Vec::new();
    let mut at = start;
    let mut i: u32 = 0;
    while i < count
        invariant
            i <= count,
            at <= bytes@.len(),
            dec_u32(bytes@, pos as int) == Some((count, start as int)),
            dec_u32s(bytes@, start as int, i as nat) == Some((out@, at as int)),
        decreases count - i,
    {
        match read_u32(bytes, at) {
            Some((v, next)) => {
                out.push(v);
                at = next;
            },
            None => {
                proof {
                    lemma_dec_u32s_stays(bytes@, start as int, (i + 1) as nat, count as nat);
                }
                return None;
            },
        }
        i = i + 1;
    }
    Some((out, at))
}

/// Once scalars cannot be read, they cannot be read with more of them.
proof fn lemma_dec_scalars_stays(bytes: Seq<u8>, pos: int, k: nat, n: nat)
    requires
        k <= n,
        dec_scalars(bytes, pos, k) is None,
    ensures
        dec_scalars(bytes, pos, n) is None,
    decreases n,
{
    if k < n {
        lemma_dec_scalars_stays(bytes, pos, k, (n - 1) as nat);
    }
}

/// Reads a polynomial.
fn read_polynomial(bytes: &[u8], pos: usize) -> (r: Option<(Polynomial, usize)>)
    ensures
        r is Some <==> dec_polynomial(bytes@, pos as int) is Some,
        r matches Some(v) ==> v.0.wf() && dec_polynomial(bytes@, pos as int) == Some(
            (v.0@, v.1 as int),
        ) && v.1 <= bytes@.len(),
{
    let (count, start) = match read_u32(bytes, pos) {
        Some(v) => v,
        None => {
            return None;
        },
    };
    let mut out: Vec<Fr> = Vec::new();
    let mut at = start;
    let mut i: u32 = 0;
    proof {
        assert(fr_values(out@) =~= Seq::<int>::empty());
    }
    while i < count
        invariant
            i <= count,
            at <= bytes@.len(),
            all_wf(out@),
            dec_u32(bytes@, pos as int) == Some((count, start as int)),
            dec_scalars(bytes@, start as int, i as nat) == Some((fr_values(out@), at as int)),
        decreases count - i,
    {
        if bytes.len() - at < 32 {
            proof {
                lemma_dec_scalars_stays(bytes@, start as int, (i + 1) as nat, count as nat);
            }
            return None;
        }
        let chunk = vstd::slice::slice_subrange(bytes, at, at + 32);
        match fr_from_bytes(chunk) {
            Some(v) => {
                let ghost before = out@;
                out.push(v);
                proof {
                    assert(fr_values(out@) =~= fr_values(before).push(v@));
                }
                at = at + 32;
            },
            None => {
                proof {
                    lemma_dec_scalars_stays(bytes@, start as int, (i + 1) as nat, count as nat);
                }
                return None;
            },
        }
        i = i + 1;
    }
    Some((Polynomial::from_coefficients(out), at))
}

/// Reads a label.
fn read_label(bytes: &[u8], pos: usize) -> (r: Option<(String, usize)>)
    ensures
        r is Some <==> dec_label(bytes@, pos as int) is Some,
        r matches Some(v) ==> dec_label(bytes@, pos as int) == Some((v.0@, v.1 as int)) && v.1
            <= bytes@.len(),
{
    let (count, start) = match read_u32(bytes, pos) {
        Some(v) => v,
        None => {
            return None;
        },
    };
    if bytes.len() - start < count as usize {
        return None;
    }
    let end = start + count as usize;
    let raw = vstd::slice::slice_to_vec(vstd::slice::slice_subrange(bytes, start, end));
    match string_from_utf8(raw) {
        Some(label) => Some((label, end)),
        None => None,
    }
}

/// The coefficients of the polynomials of a store by label.
pub open spec fn store_view(store: PolynomialStore) -> Map<Seq<char>, Seq<int>> {
    store.polynomials@.map_values(|p: Polynomial| p@)
}

/// Once entries cannot be read, they cannot be read with more of them.
proof fn lemma_dec_entries_stays(bytes: Seq<u8>, pos: int, k: nat, n: nat)
    requires
        k <= n,
        dec_entries(bytes, pos, k) is None,
    ensures
        dec_entries(bytes, pos, n) is None,
    decreases n,
{
    if k < n {
        lemma_dec_entries_stays(bytes, pos, k, (n - 1) as nat);
    }
}

/// Reads polynomials with their labels into a store.
fn read_entries(bytes: &[u8], pos: usize, count: u32) -> (r: Option<(PolynomialStore, usize)>)
    requires
        pos <= bytes@.len(),
    ensures
        r is Some <==> dec_entries(bytes@, pos as int, count as nat) is Some,
        r matches Some(v) ==> v.0.wf() && dec_entries(bytes@, pos as int, count as nat) == Some(
            (store_view(v.0), v.1 as int),
        ) && v.1 <= bytes@.len(),
{
    let mut store = PolynomialStore::new();
    let mut at = pos;
    let mut i: u32 = 0;
    proof {
        assert(store_view(store) =~= Map::empty());
    }
    while i < count
        invariant
            i <= count,
            at <= bytes@.len(),
            store.wf(),
            dec_entries(bytes@, pos as int, i as nat) == Some((store_view(store), at as int)),
        decreases count - i,
    {
        proof {
            if dec_entries(bytes@, pos as int, (i + 1) as nat) is None {
                lemma_dec_entries_stays(bytes@, pos as int, (i + 1) as nat, count as nat);
            }
        }
        let (label, at_polynomial) = match read_label(bytes, at) {
            Some(v) => v,
            None => {
                return None;
            },
        };
        let (polynomial, next) = match read_polynomial(bytes, at_polynomial) {
            Some(v) => v,
            None => {
                return None;
            },
        };
        let ghost before = store.polynomials@;
        store.put(label.as_str(), polynomial);
        proof {
            assert(store_view(store) =~= before.map_values(|p: Polynomial| p@).insert(
                label@,
                polynomial@,
            ));
        }
        at = next;
        i = i + 1;
    }
    Some((store, at))
}

impl ProvingKeyData {
    /// What a proving key is made from, read from its persisted form.
    /// Bytes that spell no key, or more than a key, are refused.
    pub fn from_bytes(bytes: &[u8]) -> (r: Result<ProvingKeyData, Error>)
        ensures
            r is Ok <==> dec_key(bytes@) is Some,
            r matches Err(e) ==> e == Error::SerializationError,
            r matches Ok(data) ==> data.polynomial_store.wf() && dec_key(bytes@) == Some(
                PersistedKey {
                    composer_type: data.composer_type,
                    circuit_size: data.circuit_size,
                    num_public_inputs: data.num_public_inputs,
                    polynomials: store_view(data.polynomial_store),
                    contains_recursive_proof: data.contains_recursive_proof,
                    recursive_proof_public_input_indices: data.recursive_proof_public_input_indices@,
                    memory_read_records: data.memory_read_records@,
                    memory_write_records: data.memory_write_records@,
                },
            ),
    {
        let (composer_type, at1) = match read_u32(bytes, 0) {
            Some(v) => v,
            None => {
                return Err(Error::SerializationError);
            },
        };
        let (circuit_size, at2) = match read_u32(bytes, at1) {
            Some(v) => v,
            None => {
                return Err(Error::SerializationError);
            },
        };
        let (num_public_inputs, at3) = match read_u32(bytes, at2) {
            Some(v) => v,
            None => {
                return Err(Error::SerializationError);
            },
        };
        let (count, at4) = match read_u32(bytes, at3) {
            Some(v) => v,
            None => {
                return Err(Error::SerializationError);
            },
        };
        let (polynomial_store, at5) = match read_entries(bytes, at4, count) {
            Some(v) => v,
            None => {
                return Err(Error::SerializationError);
            },
        };
        let (contains_recursive_proof, at6) = match read_bool(bytes, at5) {
            Some(v) => v,
            None => {
                return Err(Error::SerializationError);
            },
        };
        let (recursive_proof_public_input_indices, at7) = match read_u32_list(bytes, at6) {
            Some(v) => v,
            None => {
                return Err(Error::SerializationError);
            },
        };
        let (memory_read_records, at8) = match read_u32_list(bytes, at7) {
            Some(v) => v,
            None => {
                return Err(Error::SerializationError);
            },
        };
        let (memory_write_records, at9) = match read_u32_list(bytes, at8) {
            Some(v) => v,
            None => {
                return Err(Error::SerializationError);
            },
        };
        if at9 != bytes.len() {
            return Err(Error::SerializationError);
        }
        Ok(
            ProvingKeyData {
                composer_type,
                circuit_size,
                num_public_inputs,
                contains_recursive_proof,
                recursive_proof_public_input_indices,
                memory_read_records,
                memory_write_records,
                polynomial_store,
            },
        )
    }
}

/// The bytes of a list of numbers.
pub open spec fn enc_u32s(list: Seq<u32>, k: nat) -> Seq<u8>
    decreases k,
{
    if k == 0 {
        Seq::empty()
    } else {
        enc_u32s(list, (k - 1) as nat) + spec_u32_bytes(list[k - 1])
    }
}

/// The bytes of a list of numbers behind its length.
pub open spec fn enc_u32_list(list: Seq<u32>) -> Seq<u8> {
    spec_u32_bytes(list.len() as u32) + enc_u32s(list, list.len())
}

/// The bytes of the first `k` of a list of scalars.
pub open spec fn enc_scalars(list: Seq<int>, k: nat) -> Seq<u8>
    decreases k,
{
    if k == 0 {
        Seq::empty()
    } else {
        enc_scalars(list, (k - 1) as nat) + spec_bytes32(list[k - 1])
    }
}

/// The bytes of a polynomial: the number of its coefficients, then the
/// coefficients.
pub open spec fn enc_polynomial(coefficients: Seq<int>) -> Seq<u8> {
    spec_u32_bytes(coefficients.len() as u32) + enc_scalars(coefficients, coefficients.len())
}

/// The bytes of a label: the number of its bytes in UTF-8, then the bytes.
pub open spec fn enc_label(label: Seq<char>) -> Seq<u8> {
    spec_u32_bytes(encode_utf8(label).len() as u32) + encode_utf8(label)
}

/// The labels of the polynomials that a kind of circuit fixes: those of the
/// first `k` polynomials of its manifest that are no witnesses.
pub open spec fn precomputed_labels(
    polynomials: Seq<(Seq<char>, Seq<char>, bool, PolynomialSource)>,
    k: nat,
) -> Seq<Seq<char>>
    decreases k,
{
    if k == 0 {
        Seq::empty()
    } else {
        let before = precomputed_labels(polynomials, (k - 1) as nat);
        if polynomials[k - 1].3 == PolynomialSource::Witness {
            before
        } else {
            before.push(polynomials[k - 1].1)
        }
    }
}

/// The bytes of the first `k` of the given polynomials of a store, each
/// behind its label.
pub open spec fn enc_entries(store: PolynomialStore, labels: Seq<Seq<char>>, k: nat) -> Seq<u8>
    decreases k,
{
    if k == 0 {
        Seq::empty()
    } else {
        enc_entries(store, labels, (k - 1) as nat) + enc_label(labels[k - 1]) + enc_polynomial(
            store.spec_get(labels[k - 1]),
        )
    }
}

/// Whether a key can be persisted: the store holds every polynomial that
/// the kind of circuit fixes, and every number and length fits 32 bits.
pub open spec fn persistable(key: ProvingKey) -> bool {
    let labels = precomputed_labels(key.polynomial_manifest@, key.polynomial_manifest@.len());
    &&& key.circuit_size <= u32::MAX
    &&& key.num_public_inputs <= u32::MAX
    &&& labels.len() <= u32::MAX
    &&& key.recursive_proof_public_input_indices@.len() <= u32::MAX
    &&& key.memory_read_records@.len() <= u32::MAX
    &&& key.memory_write_records@.len() <= u32::MAX
    &&& forall|i: int|
        0 <= i < labels.len() ==> key.polynomial_store.spec_contains(#[trigger] labels[i])
            && key.polynomial_store.spec_get(labels[i]).len() <= u32::MAX && encode_utf8(
            labels[i],
        ).len() <= u32::MAX
}

/// The bytes of a truth value.
pub open spec fn enc_bool(b: bool) -> Seq<u8> {
    seq![if b { 1u8 } else { 0u8 }]
}

/// The persisted form of a key.
pub open spec fn enc_key(key: ProvingKey) -> Seq<u8> {
    let labels = precomputed_labels(key.polynomial_manifest@, key.polynomial_manifest@.len());
    spec_u32_bytes(key.composer_type) + spec_u32_bytes(key.circuit_size as u32) + spec_u32_bytes(
        key.num_public_inputs as u32,
    ) + spec_u32_bytes(labels.len() as u32) + enc_entries(
        key.polynomial_store,
        labels,
        labels.len(),
    ) + enc_bool(key.contains_recursive_proof) + enc_u32_list(
        key.recursive_proof_public_input_indices@,
    ) + enc_u32_list(key.memory_read_records@) + enc_u32_list(key.memory_write_records@)
}

/// Writes a list of numbers behind its length.
fn write_u32_list(out: &mut Vec<u8>, list: &Vec<u32>)
    requires
        list@.len() <= u32::MAX,
    ensures
        final(out)@ == old(out)@ + enc_u32_list(list@),
{
    let ghost start = out@;
    let head = u32_to_be_bytes(list.len() as u32);
    append_bytes(out, head.as_slice());
    let ghost base = out@;
    let mut i: usize = 0;
    while i < list.len()
        invariant
            i <= list@.len(),
            out@ == base + enc_u32s(list@, i as nat),
        decreases list@.len() - i,
    {
        let bytes = u32_to_be_bytes(list[i]);
        append_bytes(out, bytes.as_slice());
        proof {
            assert(out@ =~= base + enc_u32s(list@, (i + 1) as nat));
        }
        i = i + 1;
    }
    proof {
        assert(out@ =~= start + enc_u32_list(list@));
    }
}

/// Writes a polynomial: the number of its coefficients, then the
/// coefficients.
fn write_polynomial(out: &mut Vec<u8>, polynomial: &Polynomial)
    requires
        polynomial.wf(),
        polynomial@.len() <= u32::MAX,
    ensures
        final(out)@ == old(out)@ + enc_polynomial(polynomial@),
{
    let ghost start = out@;
    let head = u32_to_be_bytes(polynomial.size() as u32);
    append_bytes(out, head.as_slice());
    let ghost base = out@;
    let mut i: usize = 0;
    while i < polynomial.size()
        invariant
            i <= polynomial@.len(),
            polynomial.wf(),
            out@ == base + enc_scalars(polynomial@, i as nat),
        decreases polynomial@.len() - i,
    {
        let bytes = fr_to_bytes(&polynomial.get(i));
        append_bytes(out, bytes.as_slice());
        proof {
            assert(out@ =~= base + enc_scalars(polynomial@, (i + 1) as nat));
        }
        i = i + 1;
    }
    proof {
        assert(out@ =~= start + enc_polynomial(polynomial@));
    }
}

/// Writes a label: the number of its bytes, then the bytes.
fn write_label(out: &mut Vec<u8>, label: &str)
    requires
        encode_utf8(label@).len() <= u32::MAX,
    ensures
        final(out)@ == old(out)@ + enc_label(label@),
{
    let bytes = label.as_bytes();
    let head = u32_to_be_bytes(bytes.len() as u32);
    append_bytes(out, head.as_slice());
    append_bytes(out, bytes);
    proof {
        assert(out@ =~= old(out)@ + enc_label(label@));
    }
}

impl ProvingKey {
    /// The persisted form of the key. A key that lacks a polynomial that
    /// its kind of circuit fixes, or whose numbers do not fit 32 bits, is
    /// refused.
    pub fn to_bytes(&self) -> (r: Result<Vec<u8>, Error>)
        requires
            self.polynomial_store.wf(),
        ensures
            r is Ok <==> persistable(*self),
            r matches Err(e) ==> e == Error::SerializationError,
            r matches Ok(bytes) ==> bytes@ == enc_key(*self),
    {
        let ghost pv = self.polynomial_manifest@;
        let ghost labels = precomputed_labels(pv, pv.len());
        if self.circuit_size > u32::MAX as usize || self.num_public_inputs > u32::MAX as usize
            || self.recursive_proof_public_input_indices.len() > u32::MAX as usize
            || self.memory_read_records.len() > u32::MAX as usize || self.memory_write_records.len()
            > u32::MAX as usize {
            return Err(Error::SerializationError);
        }
        // the polynomials first, into a buffer of their own: their number
        // comes before them
        let mut entries: Vec<u8> = Vec::new();
        let mut count: usize = 0;
        let mut i: usize = 0;
        while i < self.polynomial_manifest.entries.len()
            invariant
                i <= self.polynomial_manifest.entries@.len(),
                self.polynomial_store.wf(),
                pv == self.polynomial_manifest@,
                labels == precomputed_labels(pv, pv.len()),
                count <= i,
                count == precomputed_labels(pv, i as nat).len(),
                entries@ == enc_entries(
                    self.polynomial_store,
                    precomputed_labels(pv, i as nat),
                    count as nat,
                ),
                forall|k: int|
                    0 <= k < count ==> {
                        let l = #[trigger] precomputed_labels(pv, i as nat)[k];
                        self.polynomial_store.spec_contains(l) && self.polynomial_store.spec_get(
                            l,
                        ).len() <= u32::MAX && encode_utf8(l).len() <= u32::MAX
                    },
            decreases self.polynomial_manifest.entries@.len() - i,
        {
            let d = &self.polynomial_manifest.entries[i];
            let ghost before = precomputed_labels(pv, i as nat);
            let ghost after = precomputed_labels(pv, (i + 1) as nat);
            proof {
                assert(pv[i as int].1 == d.polynomial_label@);
                assert(pv[i as int].3 == d.source);
                lemma_precomputed_labels_prefix(pv, (i + 1) as nat, pv.len());
            }
            match d.source {
                PolynomialSource::Witness => {},
                _ => {
                    proof {
                        assert(after == before.push(d.polynomial_label@));
                        assert(labels[count as int] == d.polynomial_label@);
                    }
                    let polynomial = match self.polynomial_store.get(d.polynomial_label.as_str()) {
                        Some(p) => p,
                        None => {
                            return Err(Error::SerializationError);
                        },
                    };
                    let label = d.polynomial_label.as_str();
                    if polynomial.size() > u32::MAX as usize || label.as_bytes().len()
                        > u32::MAX as usize {
                        return Err(Error::SerializationError);
                    }
                    write_label(&mut entries, label);
                    write_polynomial(&mut entries, polynomial);
                    proof {
                        lemma_enc_entries_prefix(
                            self.polynomial_store,
                            before,
                            after,
                            count as nat,
                        );
                        assert(entries@ =~= enc_entries(
                            self.polynomial_store,
                            after,
                            (count + 1) as nat,
                        ));
                    }
                    count = count + 1;
                },
            }
            i = i + 1;
        }
        if count > u32::MAX as usize {
            return Err(Error::SerializationError);
        }
        let mut out = u32_to_be_bytes(self.composer_type);
        append_bytes(&mut out, u32_to_be_bytes(self.circuit_size as u32).as_slice());
        append_bytes(&mut out, u32_to_be_bytes(self.num_public_inputs as u32).as_slice());
        append_bytes(&mut out, u32_to_be_bytes(count as u32).as_slice());
        append_bytes(&mut out, entries.as_slice());
        out.push(if self.contains_recursive_proof { 1 } else { 0 });
        write_u32_list(&mut out, &self.recursive_proof_public_input_indices);
        write_u32_list(&mut out, &self.memory_read_records);
        write_u32_list(&mut out, &self.memory_write_records);
        proof {
            assert(out@ =~= enc_key(*self));
        }
        Ok(out)
    }
}

/// The labels of the first `k` polynomials come first among those of the
/// first `n`.
pub proof fn lemma_precomputed_labels_prefix(
    polynomials: Seq<(Seq<char>, Seq<char>, bool, PolynomialSource)>,
    k: nat,
    n: nat,
)
    requires
        k <= n,
    ensures
        precomputed_labels(polynomials, k).len() <= precomputed_labels(polynomials, n).len(),
        forall|i: int|
            0 <= i < precomputed_labels(polynomials, k).len() ==> precomputed_labels(
                polynomials,
                k,
            )[i] == precomputed_labels(polynomials, n)[i],
    decreases n,
{
    if k < n {
        lemma_precomputed_labels_prefix(polynomials, k, (n - 1) as nat);
    }
}

/// The bytes of the first `k` polynomials depend on the first `k` labels
/// only.
pub proof fn lemma_enc_entries_prefix(
    store: PolynomialStore,
    labels: Seq<Seq<char>>,
    longer: Seq<Seq<char>>,
    k: nat,
)
    requires
        k <= labels.len() <= longer.len(),
        forall|i: int| 0 <= i < labels.len() ==> labels[i] == longer[i],
    ensures
        enc_entries(store, labels, k) == enc_entries(store, longer, k),
    decreases k,
{
    if k > 0 {
        lemma_enc_entries_prefix(store, labels, longer, (k - 1) as nat);
    }
}

/// Whether a byte string stands in another at a position.
pub open spec fn occurs(bytes: Seq<u8>, pos: int, part: Seq<u8>) -> bool {
    0 <= pos && pos + part.len() <= bytes.len() && bytes.subrange(pos, pos + part.len()) == part
}

/// Where two byte strings stand one behind the other, each stands at its
/// place.
pub proof fn lemma_occurs_split(bytes: Seq<u8>, pos: int, first: Seq<u8>, second: Seq<u8>)
    requires
        occurs(bytes, pos, first + second),
    ensures
        occurs(bytes, pos, first),
        occurs(bytes, pos + first.len(), second),
{
    let whole = first + second;
    assert(bytes.subrange(pos, pos + first.len()) =~= whole.subrange(0, first.len() as int));
    assert(whole.subrange(0, first.len() as int) =~= first);
    assert(bytes.subrange(pos + first.len(), pos + first.len() + second.len())
        =~= whole.subrange(first.len() as int, whole.len() as int));
    assert(whole.subrange(first.len() as int, whole.len() as int) =~= second);
}

/// A number is read back from its bytes.
pub proof fn lemma_read_back_u32(bytes: Seq<u8>, pos: int, v: u32)
    requires
        occurs(bytes, pos, spec_u32_bytes(v)),
    ensures
        dec_u32(bytes, pos) == Some((v, pos + 4)),
{
    let b = spec_u32_bytes(v);
    assert(b.len() == 4);
    assert(bytes.subrange(pos, pos + 4) == b);
    assert(b[0] == (v / 0x100_0000) as u8);
    assert(b[1] == ((v / 0x1_0000) % 0x100) as u8);
    assert(b[2] == ((v / 0x100) % 0x100) as u8);
    assert(b[3] == (v % 0x100) as u8);
}

/// The bytes of `k` numbers are `4 k` bytes.
pub proof fn lemma_enc_u32s_len(list: Seq<u32>, k: nat)
    ensures
        enc_u32s(list, k).len() == 4 * k,
    decreases k,
{
    if k > 0 {
        lemma_enc_u32s_len(list, (k - 1) as nat);
    }
}

/// Numbers are read back from their bytes.
pub proof fn lemma_read_back_u32s(bytes: Seq<u8>, pos: int, list: Seq<u32>, k: nat)
    requires
        k <= list.len(),
        occurs(bytes, pos, enc_u32s(list, k)),
    ensures
        dec_u32s(bytes, pos, k) == Some((list.take(k as int), pos + 4 * k)),
    decreases k,
{
    if k == 0 {
        assert(list.take(0) =~= Seq::<u32>::empty());
    } else {
        let before = enc_u32s(list, (k - 1) as nat);
        lemma_enc_u32s_len(list, (k - 1) as nat);
        lemma_occurs_split(bytes, pos, before, spec_u32_bytes(list[k - 1]));
        lemma_read_back_u32s(bytes, pos, list, (k - 1) as nat);
        lemma_read_back_u32(bytes, pos + 4 * (k - 1), list[k - 1]);
        assert(list.take(k - 1).push(list[k - 1]) =~= list.take(k as int));
    }
}

/// A list of numbers is read back from its bytes.
pub proof fn lemma_read_back_u32_list(bytes: Seq<u8>, pos: int, list: Seq<u32>)
    requires
        list.len() <= u32::MAX,
        occurs(bytes, pos, enc_u32_list(list)),
    ensures
        dec_u32_list(bytes, pos) == Some((list, pos + 4 + 4 * list.len())),
        enc_u32_list(list).len() == 4 + 4 * list.len(),
{
    lemma_enc_u32s_len(list, list.len());
    lemma_occurs_split(bytes, pos, spec_u32_bytes(list.len() as u32), enc_u32s(list, list.len()));
    lemma_read_back_u32(bytes, pos, list.len() as u32);
    lemma_read_back_u32s(bytes, pos + 4, list, list.len());
    assert(list.take(list.len() as int) =~= list);
}

/// The big-endian bytes of a number, `len` of them.
pub open spec fn be_bytes(v: int, len: nat) -> Seq<u8>
    decreases len,
{
    if len == 0 {
        Seq::empty()
    } else {
        be_bytes(v / 256, (len - 1) as nat).push((v % 256) as u8)
    }
}

/// A number below `256^len` has `len` big-endian bytes that spell it.
pub proof fn lemma_be_bytes(v: int, len: nat)
    requires
        0 <= v < vstd::arithmetic::power::pow(256, len),
    ensures
        be_bytes(v, len).len() == len,
        crate::field::be_value(be_bytes(v, len)) == v,
    decreases len,
{
    if len == 0 {
        vstd::arithmetic::power::lemma_pow0(256);
    } else {
        let rest = (len - 1) as nat;
        vstd::arithmetic::power::lemma_pow1(256);
        vstd::arithmetic::power::lemma_pow_adds(256, rest, 1);
        vstd::arithmetic::div_mod::lemma_multiply_divide_lt(
            v,
            256,
            vstd::arithmetic::power::pow(256, rest),
        );
        assert(256 * vstd::arithmetic::power::pow(256, rest) == vstd::arithmetic::power::pow(
            256,
            rest,
        ) * 256) by (nonlinear_arith);
        lemma_be_bytes(v / 256, rest);
        let b = be_bytes(v, len);
        assert(b.drop_last() =~= be_bytes(v / 256, rest));
        assert(b.last() == (v % 256) as u8);
    }
}

/// A canonical scalar is read back from its 32 bytes.
pub proof fn lemma_read_back_scalar(v: int)
    requires
        0 <= v < crate::field::fr_modulus(),
    ensures
        spec_bytes32(v).len() == 32,
        spec_scalar(spec_bytes32(v)) == Some(v),
{
    lemma_pow_256(32);
    lemma_be_bytes(v, 32);
    let witness = be_bytes(v, 32);
    assert(witness.len() == 32 && crate::field::be_value(witness) == v);
}

/// The powers of 256 up to the thirty-second.
proof fn lemma_pow_256(k: nat)
    requires
        k <= 32,
    ensures
        vstd::arithmetic::power::pow(256, k) == vstd::arithmetic::power2::pow2(8 * k),
        k == 32 ==> vstd::arithmetic::power::pow(256, k)
            == 0x1_0000_0000_0000_0000_0000_0000_0000_0000int
            * 0x1_0000_0000_0000_0000_0000_0000_0000_0000int,
    decreases k,
{
    vstd::arithmetic::power2::lemma2_to64();
    if k == 0 {
        vstd::arithmetic::power::lemma_pow0(256);
    } else {
        lemma_pow_256((k - 1) as nat);
        vstd::arithmetic::power::lemma_pow1(256);
        vstd::arithmetic::power::lemma_pow_adds(256, (k - 1) as nat, 1);
        vstd::arithmetic::power2::lemma_pow2_adds((8 * (k - 1)) as nat, 8);
    }
    if k == 32 {
        vstd::arithmetic::power2::lemma_pow2_adds(64, 64);
        vstd::arithmetic::power2::lemma_pow2_adds(128, 128);
        let a = vstd::arithmetic::power2::pow2(64) as int;
        let b = vstd::arithmetic::power2::pow2(128) as int;
        assert(a == 0x1_0000_0000_0000_0000int);
        assert(b == a * a);
        assert(b == 0x1_0000_0000_0000_0000_0000_0000_0000_0000int);
        assert(vstd::arithmetic::power2::pow2(256) == b * b);
    }
}

/// Every entry is a canonical scalar.
pub open spec fn canonical(list: Seq<int>) -> bool {
    forall|i: int| 0 <= i < list.len() ==> 0 <= #[trigger] list[i] < crate::field::fr_modulus()
}

/// The bytes of `k` canonical scalars are `32 k` bytes.
pub proof fn lemma_enc_scalars_len(list: Seq<int>, k: nat)
    requires
        k <= list.len(),
        canonical(list),
    ensures
        enc_scalars(list, k).len() == 32 * k,
    decreases k,
{
    if k > 0 {
        lemma_enc_scalars_len(list, (k - 1) as nat);
        lemma_read_back_scalar(list[k - 1]);
    }
}

/// Canonical scalars are read back from their bytes.
pub proof fn lemma_read_back_scalars(bytes: Seq<u8>, pos: int, list: Seq<int>, k: nat)
    requires
        k <= list.len(),
        canonical(list),
        occurs(bytes, pos, enc_scalars(list, k)),
    ensures
        dec_scalars(bytes, pos, k) == Some((list.take(k as int), pos + 32 * k)),
    decreases k,
{
    if k == 0 {
        assert(list.take(0) =~= Seq::<int>::empty());
    } else {
        let before = enc_scalars(list, (k - 1) as nat);
        lemma_enc_scalars_len(list, (k - 1) as nat);
        lemma_read_back_scalar(list[k - 1]);
        lemma_occurs_split(bytes, pos, before, spec_bytes32(list[k - 1]));
        lemma_read_back_scalars(bytes, pos, list, (k - 1) as nat);
        assert(list.take(k - 1).push(list[k - 1]) =~= list.take(k as int));
    }
}

/// A polynomial with canonical coefficients is read back from its bytes.
pub proof fn lemma_read_back_polynomial(bytes: Seq<u8>, pos: int, coefficients: Seq<int>)
    requires
        coefficients.len() <= u32::MAX,
        canonical(coefficients),
        occurs(bytes, pos, enc_polynomial(coefficients)),
    ensures
        dec_polynomial(bytes, pos) == Some((coefficients, pos + enc_polynomial(coefficients).len())),
{
    let n = coefficients.len();
    lemma_enc_scalars_len(coefficients, n);
    lemma_occurs_split(bytes, pos, spec_u32_bytes(n as u32), enc_scalars(coefficients, n));
    lemma_read_back_u32(bytes, pos, n as u32);
    lemma_read_back_scalars(bytes, pos + 4, coefficients, n);
    assert(coefficients.take(n as int) =~= coefficients);
}

/// A label is read back from its bytes.
pub proof fn lemma_read_back_label(bytes: Seq<u8>, pos: int, label: Seq<char>)
    requires
        encode_utf8(label).len() <= u32::MAX,
        occurs(bytes, pos, enc_label(label)),
    ensures
        dec_label(bytes, pos) == Some((label, pos + enc_label(label).len())),
{
    let text = encode_utf8(label);
    lemma_occurs_split(bytes, pos, spec_u32_bytes(text.len() as u32), text);
    lemma_read_back_u32(bytes, pos, text.len() as u32);
    vstd::utf8::encode_utf8_valid_utf8(label);
    vstd::utf8::encode_utf8_decode_utf8(label);
}

/// The polynomials of the first `k` of the given labels, by label.
pub open spec fn persisted_polynomials(store: PolynomialStore, labels: Seq<Seq<char>>, k: nat) -> Map<
    Seq<char>,
    Seq<int>,
>
    decreases k,
{
    if k == 0 {
        Map::empty()
    } else {
        persisted_polynomials(store, labels, (k - 1) as nat).insert(
            labels[k - 1],
            store.spec_get(labels[k - 1]),
        )
    }
}

/// Whether the first `k` of the given polynomials of a store can be
/// persisted.
pub open spec fn entries_persistable(store: PolynomialStore, labels: Seq<Seq<char>>, k: nat) -> bool {
    forall|i: int|
        0 <= i < k ==> store.spec_contains(#[trigger] labels[i]) && store.spec_get(labels[i]).len()
            <= u32::MAX && encode_utf8(labels[i]).len() <= u32::MAX
}

/// The polynomials of a well-formed store have canonical coefficients.
pub proof fn lemma_store_canonical(store: PolynomialStore, label: Seq<char>)
    requires
        store.wf(),
        store.spec_contains(label),
    ensures
        canonical(store.spec_get(label)),
{
    let keys = store.polynomials.keys@;
    let values = store.polynomials.values@;
    crate::label_map::lemma_entries_map_domain(keys, values, keys.len(), label);
    let i = choose|i: int| 0 <= i < keys.len() && #[trigger] keys[i]@ == label;
    crate::label_map::lemma_entries_map_value(keys, values, keys.len(), i);
    let p = values[i];
    assert(p.wf());
    assert forall|k: int| 0 <= k < p@.len() implies 0 <= #[trigger] p@[k]
        < crate::field::fr_modulus() by {
        assert(p.coefficients@[k].wf());
    }
}

/// Polynomials with their labels are read back from their bytes.
pub proof fn lemma_read_back_entries(
    bytes: Seq<u8>,
    pos: int,
    store: PolynomialStore,
    labels: Seq<Seq<char>>,
    k: nat,
)
    requires
        store.wf(),
        k <= labels.len(),
        entries_persistable(store, labels, k),
        occurs(bytes, pos, enc_entries(store, labels, k)),
    ensures
        dec_entries(bytes, pos, k) == Some(
            (persisted_polynomials(store, labels, k), pos + enc_entries(store, labels, k).len()),
        ),
    decreases k,
{
    if k > 0 {
        let before = enc_entries(store, labels, (k - 1) as nat);
        let label = labels[k - 1];
        let coefficients = store.spec_get(label);
        let a = enc_label(label);
        let b = enc_polynomial(coefficients);
        assert(enc_entries(store, labels, k) =~= before + (a + b));
        lemma_occurs_split(bytes, pos, before, a + b);
        lemma_occurs_split(bytes, pos + before.len(), a, b);
        lemma_read_back_entries(bytes, pos, store, labels, (k - 1) as nat);
        lemma_read_back_label(bytes, pos + before.len(), label);
        lemma_store_canonical(store, label);
        lemma_read_back_polynomial(bytes, pos + before.len() + a.len(), coefficients);
    }
}

/// What the persisted form of a key holds: the numbers of the key, and the
/// polynomials that its kind of circuit fixes.
pub open spec fn persisted_view(key: ProvingKey) -> PersistedKey {
    let labels = precomputed_labels(key.polynomial_manifest@, key.polynomial_manifest@.len());
    PersistedKey {
        composer_type: key.composer_type,
        circuit_size: key.circuit_size as u32,
        num_public_inputs: key.num_public_inputs as u32,
        polynomials: persisted_polynomials(key.polynomial_store, labels, labels.len()),
        contains_recursive_proof: key.contains_recursive_proof,
        recursive_proof_public_input_indices: key.recursive_proof_public_input_indices@,
        memory_read_records: key.memory_read_records@,
        memory_write_records: key.memory_write_records@,
    }
}

/// Where the parts of a key stand in its bytes: one behind the other.
pub open spec fn key_layout(bytes: Seq<u8>, parts: Seq<Seq<u8>>, k: nat) -> bool
    decreases k,
{
    if k == 0 {
        true
    } else {
        key_layout(bytes, parts, (k - 1) as nat) && occurs(
            bytes,
            parts_len(parts, (k - 1) as nat) as int,
            parts[k - 1],
        )
    }
}

/// The number of bytes of the first `k` parts.
pub open spec fn parts_len(parts: Seq<Seq<u8>>, k: nat) -> nat
    decreases k,
{
    if k == 0 {
        0
    } else {
        parts_len(parts, (k - 1) as nat) + parts[k - 1].len()
    }
}

/// The first `k` parts, one behind the other.
pub open spec fn parts_joined(parts: Seq<Seq<u8>>, k: nat) -> Seq<u8>
    decreases k,
{
    if k == 0 {
        Seq::empty()
    } else {
        parts_joined(parts, (k - 1) as nat) + parts[k - 1]
    }
}

/// Parts that are joined stand one behind the other in what follows the
/// join.
pub proof fn lemma_parts_layout(bytes: Seq<u8>, parts: Seq<Seq<u8>>, k: nat)
    requires
        k <= parts.len(),
        occurs(bytes, 0, parts_joined(parts, k)),
    ensures
        key_layout(bytes, parts, k),
        parts_joined(parts, k).len() == parts_len(parts, k),
    decreases k,
{
    if k > 0 {
        let before = parts_joined(parts, (k - 1) as nat);
        lemma_occurs_split(bytes, 0, before, parts[k - 1]);
        lemma_parts_layout(bytes, parts, (k - 1) as nat);
    }
}

/// The parts of a persisted key.
pub open spec fn key_parts(key: ProvingKey) -> Seq<Seq<u8>> {
    let labels = precomputed_labels(key.polynomial_manifest@, key.polynomial_manifest@.len());
    seq![
        spec_u32_bytes(key.composer_type),
        spec_u32_bytes(key.circuit_size as u32),
        spec_u32_bytes(key.num_public_inputs as u32),
        spec_u32_bytes(labels.len() as u32),
        enc_entries(key.polynomial_store, labels, labels.len()),
        enc_bool(key.contains_recursive_proof),
        enc_u32_list(key.recursive_proof_public_input_indices@),
        enc_u32_list(key.memory_read_records@),
        enc_u32_list(key.memory_write_records@),
    ]
}

/// A persisted key is read back: the bytes that a key is written to spell
/// the numbers of the key and the polynomials that its kind of circuit
/// fixes.
pub proof fn lemma_persisted_key_is_read_back(key: ProvingKey)
    requires
        key.polynomial_store.wf(),
        persistable(key),
    ensures
        dec_key(enc_key(key)) == Some(persisted_view(key)),
{
    let bytes = enc_key(key);
    let parts = key_parts(key);
    lemma_enc_key_is_joined(key);
    assert(parts.len() == 9);
    assert(bytes.subrange(0, bytes.len() as int) =~= bytes);
    assert(occurs(bytes, 0, parts_joined(parts, 9)));
    lemma_parts_layout(bytes, parts, 9);
    lemma_key_from_layout(bytes, key);
}

/// The persisted form of a key is its parts, one behind the other.
proof fn lemma_enc_key_is_joined(key: ProvingKey)
    ensures
        enc_key(key) == parts_joined(key_parts(key), 9),
        key_parts(key).len() == 9,
{
    let parts = key_parts(key);
    assert(parts_joined(parts, 0) =~= Seq::<u8>::empty());
    assert(parts_joined(parts, 1) =~= parts[0]);
    assert(parts_joined(parts, 2) == parts_joined(parts, 1) + parts[1]);
    assert(parts_joined(parts, 3) == parts_joined(parts, 2) + parts[2]);
    assert(parts_joined(parts, 4) == parts_joined(parts, 3) + parts[3]);
    assert(parts_joined(parts, 5) == parts_joined(parts, 4) + parts[4]);
    assert(parts_joined(parts, 6) == parts_joined(parts, 5) + parts[5]);
    assert(parts_joined(parts, 7) == parts_joined(parts, 6) + parts[6]);
    assert(parts_joined(parts, 8) == parts_joined(parts, 7) + parts[7]);
    assert(parts_joined(parts, 9) == parts_joined(parts, 8) + parts[8]);
}

/// Bytes in which the parts of a key stand one behind the other, and
/// nothing else, are read as the key.
proof fn lemma_key_from_layout(bytes: Seq<u8>, key: ProvingKey)
    requires
        key.polynomial_store.wf(),
        persistable(key),
        key_layout(bytes, key_parts(key), 9),
        bytes.len() == parts_len(key_parts(key), 9),
    ensures
        dec_key(bytes) == Some(persisted_view(key)),
{
    let labels = precomputed_labels(key.polynomial_manifest@, key.polynomial_manifest@.len());
    let parts = key_parts(key);
    let at5 = parts_len(parts, 5) as int;
    let at6 = parts_len(parts, 6) as int;
    let at7 = parts_len(parts, 7) as int;
    let at8 = parts_len(parts, 8) as int;
    lemma_layout_positions(bytes, parts);
    assert(entries_persistable(key.polynomial_store, labels, labels.len()));
    lemma_tail_from_occurs(bytes, at5, persisted_view(key));
    lemma_head_from_occurs(bytes, key.polynomial_store, labels, persisted_view(key));
}

/// Where nine parts stand one behind the other, each stands behind the
/// bytes of those before it.
proof fn lemma_layout_positions(bytes: Seq<u8>, parts: Seq<Seq<u8>>)
    requires
        parts.len() == 9,
        key_layout(bytes, parts, 9),
    ensures
        occurs(bytes, 0, parts[0]),
        occurs(bytes, parts[0].len() as int, parts[1]),
        occurs(bytes, (parts[0].len() + parts[1].len()) as int, parts[2]),
        occurs(bytes, (parts[0].len() + parts[1].len() + parts[2].len()) as int, parts[3]),
        occurs(bytes, parts_len(parts, 4) as int, parts[4]),
        occurs(bytes, parts_len(parts, 5) as int, parts[5]),
        occurs(bytes, (parts_len(parts, 5) + parts[5].len()) as int, parts[6]),
        occurs(bytes, (parts_len(parts, 5) + parts[5].len() + parts[6].len()) as int, parts[7]),
        occurs(
            bytes,
            (parts_len(parts, 5) + parts[5].len() + parts[6].len() + parts[7].len()) as int,
            parts[8],
        ),
        parts_len(parts, 4) == parts[0].len() + parts[1].len() + parts[2].len() + parts[3].len(),
        parts_len(parts, 5) == parts_len(parts, 4) + parts[4].len(),
        parts_len(parts, 9) == parts_len(parts, 5) + parts[5].len() + parts[6].len()
            + parts[7].len() + parts[8].len(),
{
    assert(parts_len(parts, 0) == 0);
    assert(parts_len(parts, 1) == parts_len(parts, 0) + parts[0].len());
    assert(parts_len(parts, 2) == parts_len(parts, 1) + parts[1].len());
    assert(parts_len(parts, 3) == parts_len(parts, 2) + parts[2].len());
    assert(parts_len(parts, 4) == parts_len(parts, 3) + parts[3].len());
    assert(parts_len(parts, 5) == parts_len(parts, 4) + parts[4].len());
    assert(parts_len(parts, 6) == parts_len(parts, 5) + parts[5].len());
    assert(parts_len(parts, 7) == parts_len(parts, 6) + parts[6].len());
    assert(parts_len(parts, 8) == parts_len(parts, 7) + parts[7].len());
    assert(parts_len(parts, 9) == parts_len(parts, 8) + parts[8].len());
    assert(key_layout(bytes, parts, 8));
    assert(key_layout(bytes, parts, 7));
    assert(key_layout(bytes, parts, 6));
    assert(key_layout(bytes, parts, 5));
    assert(key_layout(bytes, parts, 4));
    assert(key_layout(bytes, parts, 3));
    assert(key_layout(bytes, parts, 2));
    assert(key_layout(bytes, parts, 1));
}

/// The part of a key behind its polynomials is read back.
proof fn lemma_tail_from_occurs(bytes: Seq<u8>, pos: int, head: PersistedKey)
    requires
        head.recursive_proof_public_input_indices.len() <= u32::MAX,
        head.memory_read_records.len() <= u32::MAX,
        head.memory_write_records.len() <= u32::MAX,
        occurs(bytes, pos, enc_bool(head.contains_recursive_proof)),
        occurs(bytes, pos + 1, enc_u32_list(head.recursive_proof_public_input_indices)),
        occurs(
            bytes,
            pos + 1 + enc_u32_list(head.recursive_proof_public_input_indices).len(),
            enc_u32_list(head.memory_read_records),
        ),
        occurs(
            bytes,
            pos + 1 + enc_u32_list(head.recursive_proof_public_input_indices).len() + enc_u32_list(
                head.memory_read_records,
            ).len(),
            enc_u32_list(head.memory_write_records),
        ),
        bytes.len() == pos + 1 + enc_u32_list(head.recursive_proof_public_input_indices).len()
            + enc_u32_list(head.memory_read_records).len() + enc_u32_list(
            head.memory_write_records,
        ).len(),
    ensures
        dec_key_tail(
            bytes,
            pos,
            head.composer_type,
            head.circuit_size,
            head.num_public_inputs,
            head.polynomials,
        ) == Some(head),
{
    let e6 = enc_bool(head.contains_recursive_proof);
    let e7 = enc_u32_list(head.recursive_proof_public_input_indices);
    let e8 = enc_u32_list(head.memory_read_records);
    assert(bytes.subrange(pos, pos + 1)[0] == bytes[pos]);
    assert(bytes[pos] == e6[0]);
    lemma_read_back_u32_list(bytes, pos + 1, head.recursive_proof_public_input_indices);
    let at7: int = pos + 1 + e7.len() as int;
    lemma_read_back_u32_list(bytes, at7, head.memory_read_records);
    let at8: int = at7 + e8.len() as int;
    lemma_read_back_u32_list(bytes, at8, head.memory_write_records);
}

/// The part of a key up to its polynomials is read back.
proof fn lemma_head_from_occurs(
    bytes: Seq<u8>,
    store: PolynomialStore,
    labels: Seq<Seq<char>>,
    head: PersistedKey,
)
    requires
        store.wf(),
        labels.len() <= u32::MAX,
        entries_persistable(store, labels, labels.len()),
        head.polynomials == persisted_polynomials(store, labels, labels.len()),
        occurs(bytes, 0, spec_u32_bytes(head.composer_type)),
        occurs(bytes, 4, spec_u32_bytes(head.circuit_size)),
        occurs(bytes, 8, spec_u32_bytes(head.num_public_inputs)),
        occurs(bytes, 12, spec_u32_bytes(labels.len() as u32)),
        occurs(bytes, 16, enc_entries(store, labels, labels.len())),
        dec_key_tail(
            bytes,
            16 + enc_entries(store, labels, labels.len()).len() as int,
            head.composer_type,
            head.circuit_size,
            head.num_public_inputs,
            head.polynomials,
        ) == Some(head),
    ensures
        dec_key(bytes) == Some(head),
{
    lemma_read_back_u32(bytes, 0, head.composer_type);
    lemma_read_back_u32(bytes, 4, head.circuit_size);
    lemma_read_back_u32(bytes, 8, head.num_public_inputs);
    lemma_read_back_u32(bytes, 12, labels.len() as u32);
    lemma_read_back_entries(bytes, 16, store, labels, labels.len());
}

} // verus!
