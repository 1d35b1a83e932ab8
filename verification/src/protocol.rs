//! How the commitment scheme and the verifier read a transcript: what a
//! proof lacks is a protocol error, what it holds that spells no value or no
//! point of the curve makes the proof invalid.

use crate::bytes::{spec_g1_from_bytes, spec_scalar};
use crate::errors::Error;
use crate::field::{be_value, fr_modulus, Fr};
use crate::group::{G1Affine, G1Point};
use crate::transcript::{Transcript, TranscriptState};
use vstd::prelude::*;

verus! {

/// Challenge `index` of those derived under `name`, as a scalar.
pub open spec fn tv_challenge(tv: TranscriptState, name: Seq<char>, index: int) -> Result<
    int,
    Error,
> {
    if tv.challenges.contains_key(name) && 0 <= index < tv.challenges[name].len() {
        Ok(be_value(tv.challenges[name][index]) % fr_modulus())
    } else {
        Err(Error::ProtocolError)
    }
}

/// The element under `name` as a scalar.
pub open spec fn tv_scalar(tv: TranscriptState, name: Seq<char>) -> Result<int, Error> {
    if !tv.elements.contains_key(name) {
        Err(Error::ProtocolError)
    } else {
        match spec_scalar(tv.elements[name]) {
            Some(v) => Ok(v),
            None => Err(Error::InvalidProof),
        }
    }
}

/// The element under `name` as a point of the curve.
pub open spec fn tv_point(tv: TranscriptState, name: Seq<char>) -> Result<G1Point, Error> {
    if !tv.elements.contains_key(name) {
        Err(Error::ProtocolError)
    } else {
        match spec_g1_from_bytes(tv.elements[name]) {
            Some(p) => if p.on_curve() {
                Ok(p)
            } else {
                Err(Error::InvalidProof)
            },
            None => Err(Error::InvalidProof),
        }
    }
}

/// Challenge `index` of those derived under `name`, as a scalar; a protocol
/// error where it was not derived.
pub fn read_challenge(transcript: &Transcript, name: &str, index: usize) -> (r: Result<Fr, Error>)
    requires
        transcript.wf(),
    ensures
        r is Ok <==> tv_challenge(transcript@, name@, index as int) is Ok,
        r matches Ok(v) ==> v.wf() && Ok::<int, Error>(v@) == tv_challenge(
            transcript@,
            name@,
            index as int,
        ),
        r matches Err(e) ==> Err::<int, Error>(e) == tv_challenge(transcript@, name@, index as int),
{
    match transcript.get_challenge_field_element(name, index) {
        Ok(v) => Ok(v),
        Err(_) => Err(Error::ProtocolError),
    }
}

/// The element under `name` as a scalar; a protocol error where it is
/// missing, an invalid proof where its bytes spell no canonical scalar.
pub fn read_scalar(transcript: &Transcript, name: &str) -> (r: Result<Fr, Error>)
    requires
        transcript.wf(),
    ensures
        r is Ok <==> tv_scalar(transcript@, name@) is Ok,
        r matches Ok(v) ==> v.wf() && Ok::<int, Error>(v@) == tv_scalar(transcript@, name@),
        r matches Err(e) ==> Err::<int, Error>(e) == tv_scalar(transcript@, name@),
{
    match transcript.get_field_element(name) {
        Ok(v) => Ok(v),
        Err(Error::MissingElement) => Err(Error::ProtocolError),
        Err(_) => Err(Error::InvalidProof),
    }
}

/// The element under `name` as a point of the curve; a protocol error where
/// it is missing, an invalid proof where its bytes spell no point of the
/// curve.
pub fn read_point(transcript: &Transcript, name: &str) -> (r: Result<G1Affine, Error>)
    requires
        transcript.wf(),
    ensures
        r is Ok <==> tv_point(transcript@, name@) is Ok,
        r matches Ok(p) ==> p.wf() && p@.on_curve() && !p@.infinity && Ok::<G1Point, Error>(p@)
            == tv_point(transcript@, name@),
        r matches Err(e) ==> Err::<G1Point, Error>(e) == tv_point(transcript@, name@),
{
    match transcript.get_group_element(name) {
        Ok(p) => {
            if p.on_curve() {
                Ok(p)
            } else {
                Err(Error::InvalidProof)
            }
        },
        Err(Error::MissingElement) => Err(Error::ProtocolError),
        Err(_) => Err(Error::InvalidProof),
    }
}

} // verus!
