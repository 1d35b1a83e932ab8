//! The Fiat-Shamir transcript: named byte strings are added round by round,
//! and after each round challenges are derived by hashing the last
//! challenge and the elements that the manifest lists for the round.

use crate::bytes::{append_bytes, fr_from_bytes, g1_from_bytes, spec_g1_from_bytes, spec_scalar};
use crate::errors::Error;
use crate::field::{be_value, fr_modulus, Fr};
use crate::group::G1Affine;
use crate::hash::{hash, spec_hash, HashType};
use crate::label_map::LabelMap;
use crate::manifest::Manifest;
use vstd::prelude::*;

verus! {

/// The byte strings that a map of buffers stands for.
pub open spec fn elements_view(m: Map<Seq<char>, Vec<u8>>) -> Map<Seq<char>, Seq<u8>> {
    m.map_values(|v: Vec<u8>| v@)
}

/// The byte strings that a list of buffers stands for.
pub open spec fn challenge_list_view(v: Vec<Vec<u8>>) -> Seq<Seq<u8>> {
    Seq::new(v@.len(), |i: int| v@[i]@)
}

/// The challenges that a map of lists of buffers stands for.
pub open spec fn challenges_view(m: Map<Seq<char>, Vec<Vec<u8>>>) -> Map<Seq<char>, Seq<Seq<u8>>> {
    m.map_values(|v: Vec<Vec<u8>>| challenge_list_view(v))
}

/// Why the first `k` elements of a round cannot be hashed, if they
/// cannot: the first of them that is missing, or that the prover supplies
/// and that has not the size the manifest gives.
pub open spec fn round_failure(
    entries: Seq<(Seq<char>, nat, bool)>,
    elements: Map<Seq<char>, Seq<u8>>,
    k: nat,
) -> Option<Error>
    decreases k,
{
    if k == 0 {
        None
    } else {
        match round_failure(entries, elements, (k - 1) as nat) {
            Some(e) => Some(e),
            None => {
                let (name, size, derived) = entries[k - 1];
                if !elements.contains_key(name) {
                    Some(Error::MissingElement)
                } else if !derived && elements[name].len() != size {
                    Some(Error::ProtocolError)
                } else {
                    None
                }
            },
        }
    }
}

/// What is hashed for a round, up to its element `k`: the last challenge,
/// then the elements in the manifest's order.
pub open spec fn round_buffer(
    last: Seq<u8>,
    entries: Seq<(Seq<char>, nat, bool)>,
    elements: Map<Seq<char>, Seq<u8>>,
    k: nat,
) -> Seq<u8>
    decreases k,
{
    if k == 0 {
        last
    } else {
        round_buffer(last, entries, elements, (k - 1) as nat) + elements[entries[k - 1].0]
    }
}

/// Challenge `i` of a round with digest `base`: the leading bytes of the
/// digest itself for the first, of the digest of `base` and the byte `i`
/// for the others.
pub open spec fn challenge_at(hash_type: HashType, base: Seq<u8>, num_bytes: nat, i: nat) -> Seq<
    u8,
> {
    if i == 0 {
        base.take(num_bytes as int)
    } else {
        spec_hash(hash_type, base.push(i as u8)).take(num_bytes as int)
    }
}

/// The challenges of a round with digest `base`.
pub open spec fn round_challenges(
    hash_type: HashType,
    base: Seq<u8>,
    num_bytes: nat,
    count: nat,
) -> Seq<Seq<u8>> {
    Seq::new(count, |i: int| challenge_at(hash_type, base, num_bytes, i as nat))
}

/// The state of a transcript as plain values.
pub struct TranscriptState {
    pub manifest: Seq<(Seq<char>, nat, Seq<(Seq<char>, nat, bool)>)>,
    pub hash_type: HashType,
    pub num_challenge_bytes: nat,
    pub elements: Map<Seq<char>, Seq<u8>>,
    pub challenges: Map<Seq<char>, Seq<Seq<u8>>>,
    pub current_round: nat,
    pub current_challenge: Seq<u8>,
}

/// Why the challenges of the current round cannot be derived under `name`,
/// if they cannot: the manifest has no round left, or the round's challenge
/// has another name, or more than 256 challenges, or an element fails.
pub open spec fn fiat_shamir_failure(s: TranscriptState, name: Seq<char>) -> Option<Error> {
    if s.current_round >= s.manifest.len() {
        Some(Error::ProtocolError)
    } else {
        let (challenge, count, entries) = s.manifest[s.current_round as int];
        if challenge != name || count > 256 {
            Some(Error::ProtocolError)
        } else {
            round_failure(entries, s.elements, entries.len())
        }
    }
}

/// The digest of the current round.
pub open spec fn fiat_shamir_base(s: TranscriptState) -> Seq<u8> {
    let entries = s.manifest[s.current_round as int].2;
    spec_hash(s.hash_type, round_buffer(s.current_challenge, entries, s.elements, entries.len()))
}

/// The state after the challenges of the current round were derived under
/// `name`.
pub open spec fn fiat_shamir_next(s: TranscriptState, name: Seq<char>) -> TranscriptState {
    let count = s.manifest[s.current_round as int].1;
    let base = fiat_shamir_base(s);
    if count == 0 {
        TranscriptState { current_round: s.current_round + 1, ..s }
    } else {
        TranscriptState {
            current_round: s.current_round + 1,
            challenges: s.challenges.insert(
                name,
                round_challenges(s.hash_type, base, s.num_challenge_bytes, count),
            ),
            current_challenge: challenge_at(
                s.hash_type,
                base,
                s.num_challenge_bytes,
                (count - 1) as nat,
            ),
            ..s
        }
    }
}

/// Later elements of a round change nothing about its first failure.
pub proof fn lemma_round_failure_stays(
    entries: Seq<(Seq<char>, nat, bool)>,
    elements: Map<Seq<char>, Seq<u8>>,
    k: nat,
    n: nat,
)
    requires
        k <= n,
        round_failure(entries, elements, k) is Some,
    ensures
        round_failure(entries, elements, n) == round_failure(entries, elements, k),
    decreases n,
{
    if k < n {
        lemma_round_failure_stays(entries, elements, k, (n - 1) as nat);
    }
}

/// What reading a proof has come to: the elements read so far, how many
/// bytes were read, and whether the proof had bytes for all of them.
pub struct ProofParse {
    pub elements: Map<Seq<char>, Seq<u8>>,
    pub offset: nat,
    pub complete: bool,
}

/// Reading the first `k` elements of a round from a proof: each element that
/// the verifier does not derive takes its bytes from the proof, in order.
pub open spec fn parse_entries(
    entries: Seq<(Seq<char>, nat, bool)>,
    proof_data: Seq<u8>,
    k: nat,
    start: ProofParse,
) -> ProofParse
    decreases k,
{
    if k == 0 {
        start
    } else {
        let before = parse_entries(entries, proof_data, (k - 1) as nat, start);
        let (name, size, derived) = entries[k - 1];
        if !before.complete || derived {
            before
        } else if before.offset + size > proof_data.len() {
            ProofParse { complete: false, ..before }
        } else {
            ProofParse {
                elements: before.elements.insert(
                    name,
                    proof_data.subrange(before.offset as int, (before.offset + size) as int),
                ),
                offset: before.offset + size,
                complete: true,
            }
        }
    }
}

/// Reading the elements of the first `r` rounds of a manifest from a proof.
pub open spec fn parse_rounds(
    manifest: Seq<(Seq<char>, nat, Seq<(Seq<char>, nat, bool)>)>,
    proof_data: Seq<u8>,
    r: nat,
) -> ProofParse
    decreases r,
{
    if r == 0 {
        ProofParse { elements: Map::empty(), offset: 0, complete: true }
    } else {
        parse_entries(
            manifest[r - 1].2,
            proof_data,
            manifest[r - 1].2.len(),
            parse_rounds(manifest, proof_data, (r - 1) as nat),
        )
    }
}

/// Once a proof has run out of bytes, reading on changes nothing.
pub proof fn lemma_parse_entries_stays(
    entries: Seq<(Seq<char>, nat, bool)>,
    proof_data: Seq<u8>,
    k: nat,
    start: ProofParse,
)
    requires
        !start.complete,
    ensures
        parse_entries(entries, proof_data, k, start) == start,
    decreases k,
{
    if k > 0 {
        lemma_parse_entries_stays(entries, proof_data, (k - 1) as nat, start);
    }
}

/// Once a proof has run out of bytes within a round, the rest of the round
/// changes nothing.
pub proof fn lemma_parse_entries_fails(
    entries: Seq<(Seq<char>, nat, bool)>,
    proof_data: Seq<u8>,
    k: nat,
    n: nat,
    start: ProofParse,
)
    requires
        k <= n,
        !parse_entries(entries, proof_data, k, start).complete,
    ensures
        !parse_entries(entries, proof_data, n, start).complete,
    decreases n,
{
    if k < n {
        lemma_parse_entries_fails(entries, proof_data, k, (n - 1) as nat, start);
    }
}

/// Once a proof has run out of bytes, the later rounds change nothing.
pub proof fn lemma_parse_rounds_fails(
    manifest: Seq<(Seq<char>, nat, Seq<(Seq<char>, nat, bool)>)>,
    proof_data: Seq<u8>,
    r: nat,
    n: nat,
)
    requires
        r <= n,
        !parse_rounds(manifest, proof_data, r).complete,
    ensures
        !parse_rounds(manifest, proof_data, n).complete,
    decreases n,
{
    if r < n {
        lemma_parse_rounds_fails(manifest, proof_data, r, (n - 1) as nat);
        lemma_parse_entries_stays(
            manifest[n - 1].2,
            proof_data,
            manifest[n - 1].2.len(),
            parse_rounds(manifest, proof_data, (n - 1) as nat),
        );
    }
}

/// The bytes of a proof up to element `k` of a round, behind the bytes
/// `start`: the elements that the verifier does not derive, in order. An
/// element that is missing, or that has not the size the manifest gives, is
/// a failure.
pub open spec fn export_entries(
    entries: Seq<(Seq<char>, nat, bool)>,
    elements: Map<Seq<char>, Seq<u8>>,
    k: nat,
    start: Result<Seq<u8>, Error>,
) -> Result<Seq<u8>, Error>
    decreases k,
{
    if k == 0 {
        start
    } else {
        match export_entries(entries, elements, (k - 1) as nat, start) {
            Err(e) => Err(e),
            Ok(bytes) => {
                let (name, size, derived) = entries[k - 1];
                if derived {
                    Ok(bytes)
                } else if !elements.contains_key(name) {
                    Err(Error::MissingElement)
                } else if elements[name].len() != size {
                    Err(Error::ProtocolError)
                } else {
                    Ok(bytes + elements[name])
                }
            },
        }
    }
}

/// The bytes of a proof for the first `r` rounds of a manifest.
pub open spec fn export_rounds(
    manifest: Seq<(Seq<char>, nat, Seq<(Seq<char>, nat, bool)>)>,
    elements: Map<Seq<char>, Seq<u8>>,
    r: nat,
) -> Result<Seq<u8>, Error>
    decreases r,
{
    if r == 0 {
        Ok(Seq::empty())
    } else {
        export_entries(
            manifest[r - 1].2,
            elements,
            manifest[r - 1].2.len(),
            export_rounds(manifest, elements, (r - 1) as nat),
        )
    }
}

/// A failure stays a failure through the rest of a round.
pub proof fn lemma_export_entries_stays(
    entries: Seq<(Seq<char>, nat, bool)>,
    elements: Map<Seq<char>, Seq<u8>>,
    k: nat,
    n: nat,
    start: Result<Seq<u8>, Error>,
)
    requires
        k <= n,
        export_entries(entries, elements, k, start) is Err,
    ensures
        export_entries(entries, elements, n, start) == export_entries(entries, elements, k, start),
    decreases n,
{
    if k < n {
        lemma_export_entries_stays(entries, elements, k, (n - 1) as nat, start);
    }
}

/// A failure stays a failure through the later rounds.
pub proof fn lemma_export_rounds_stays(
    manifest: Seq<(Seq<char>, nat, Seq<(Seq<char>, nat, bool)>)>,
    elements: Map<Seq<char>, Seq<u8>>,
    r: nat,
    n: nat,
)
    requires
        r <= n,
        export_rounds(manifest, elements, r) is Err,
    ensures
        export_rounds(manifest, elements, n) == export_rounds(manifest, elements, r),
    decreases n,
{
    if r < n {
        lemma_export_rounds_stays(manifest, elements, r, (n - 1) as nat);
        lemma_export_entries_stays(
            manifest[n - 1].2,
            elements,
            0,
            manifest[n - 1].2.len(),
            export_rounds(manifest, elements, (n - 1) as nat),
        );
    }
}

/// A transcript.
pub struct Transcript {
    pub manifest: Manifest,
    pub hash_type: HashType,
    pub num_challenge_bytes: usize,
    pub elements: LabelMap<Vec<u8>>,
    pub challenges: LabelMap<Vec<Vec<u8>>>,
    pub current_round: usize,
    pub current_challenge: Vec<u8>,
}

impl View for Transcript {
    type V = TranscriptState;

    open spec fn view(&self) -> TranscriptState {
        TranscriptState {
            manifest: self.manifest@,
            hash_type: self.hash_type,
            num_challenge_bytes: self.num_challenge_bytes as nat,
            elements: elements_view(self.elements@),
            challenges: challenges_view(self.challenges@),
            current_round: self.current_round as nat,
            current_challenge: self.current_challenge@,
        }
    }
}

impl Transcript {
    /// Names are unique, a challenge has between 1 and 32 bytes, and the
    /// round is one of the manifest or the one behind its last.
    pub open spec fn wf(&self) -> bool {
        &&& self.elements.wf()
        &&& self.challenges.wf()
        &&& 1 <= self.num_challenge_bytes <= 32
        &&& self.current_round <= self.manifest.rounds@.len()
    }

    /// An empty transcript in the first round of a manifest. A number of
    /// challenge bytes outside 1 to 32 is refused.
    pub fn new(manifest: Manifest, hash_type: HashType, num_challenge_bytes: usize) -> (r: Result<
        Transcript,
        Error,
    >)
        ensures
            r is Ok <==> 1 <= num_challenge_bytes <= 32,
            r matches Err(e) ==> e == Error::InvalidInput,
            r matches Ok(t) ==> t.wf() && t@ == (TranscriptState {
                manifest: manifest@,
                hash_type,
                num_challenge_bytes: num_challenge_bytes as nat,
                elements: Map::empty(),
                challenges: Map::empty(),
                current_round: 0,
                current_challenge: Seq::empty(),
            }),
    {
        if num_challenge_bytes < 1 || num_challenge_bytes > 32 {
            return Err(Error::InvalidInput);
        }
        let t = Transcript {
            manifest,
            hash_type,
            num_challenge_bytes,
            elements: LabelMap::new(),
            challenges: LabelMap::new(),
            current_round: 0,
            current_challenge: Vec::new(),
        };
        proof {
            assert(t@.elements =~= Map::empty());
            assert(t@.challenges =~= Map::empty());
        }
        Ok(t)
    }

    /// The transcript of a proof: every element that the manifest lets the
    /// prover supply, read from the proof in the manifest's order. A proof
    /// with too few or too many bytes is refused.
    pub fn from_proof(
        proof_data: &[u8],
        manifest: Manifest,
        hash_type: HashType,
        num_challenge_bytes: usize,
    ) -> (r: Result<Transcript, Error>)
        ensures
            r is Ok <==> 1 <= num_challenge_bytes <= 32 && parse_rounds(
                manifest@,
                proof_data@,
                manifest@.len(),
            ).complete && parse_rounds(manifest@, proof_data@, manifest@.len()).offset
                == proof_data@.len(),
            r matches Err(e) ==> e == (if 1 <= num_challenge_bytes <= 32 {
                Error::SerializationError
            } else {
                Error::InvalidInput
            }),
            r matches Ok(t) ==> t.wf() && t@ == (TranscriptState {
                manifest: manifest@,
                hash_type,
                num_challenge_bytes: num_challenge_bytes as nat,
                elements: parse_rounds(manifest@, proof_data@, manifest@.len()).elements,
                challenges: Map::empty(),
                current_round: 0,
                current_challenge: Seq::empty(),
            }),
    {
        if num_challenge_bytes < 1 || num_challenge_bytes > 32 {
            return Err(Error::InvalidInput);
        }
        let ghost mv = manifest@;
        let ghost pv = proof_data@;
        let mut elements: LabelMap<Vec<u8>> = LabelMap::new();
        let mut offset: usize = 0;
        let mut r: usize = 0;
        proof {
            assert(elements_view(elements@) =~= Map::empty());
        }
        while r < manifest.rounds.len()
            invariant
                r <= manifest.rounds@.len(),
                1 <= num_challenge_bytes <= 32,
                mv == manifest@,
                pv == proof_data@,
                elements.wf(),
                offset <= pv.len(),
                parse_rounds(mv, pv, r as nat) == (ProofParse {
                    elements: elements_view(elements@),
                    offset: offset as nat,
                    complete: true,
                }),
            decreases manifest.rounds@.len() - r,
        {
            let round = &manifest.rounds[r];
            let ghost entries = crate::manifest::entries_view(round.elements@);
            let ghost start = parse_rounds(mv, pv, r as nat);
            proof {
                assert(mv[r as int] == crate::manifest::round_view(*round));
            }
            let mut k: usize = 0;
            while k < round.elements.len()
                invariant
                    k <= round.elements@.len(),
                    r < manifest.rounds@.len(),
                    1 <= num_challenge_bytes <= 32,
                    mv == manifest@,
                    pv == proof_data@,
                    entries == crate::manifest::entries_view(round.elements@),
                    mv[r as int].2 == entries,
                    start == parse_rounds(mv, pv, r as nat),
                    elements.wf(),
                    offset <= pv.len(),
                    parse_entries(entries, pv, k as nat, start) == (ProofParse {
                        elements: elements_view(elements@),
                        offset: offset as nat,
                        complete: true,
                    }),
                decreases round.elements@.len() - k,
            {
                let entry = &round.elements[k];
                proof {
                    assert(entries[k as int] == (
                        entry.name@,
                        entry.num_bytes as nat,
                        entry.derived_by_verifier,
                    ));
                }
                if !entry.derived_by_verifier {
                    if entry.num_bytes > proof_data.len() - offset {
                        proof {
                            lemma_parse_entries_fails(
                                entries,
                                pv,
                                (k + 1) as nat,
                                entries.len(),
                                start,
                            );
                            lemma_parse_rounds_fails(mv, pv, (r + 1) as nat, mv.len());
                        }
                        return Err(Error::SerializationError);
                    }
                    let bytes = vstd::slice::slice_to_vec(
                        vstd::slice::slice_subrange(proof_data, offset, offset + entry.num_bytes),
                    );
                    let ghost before = elements@;
                    elements.insert(entry.name.as_str(), bytes);
                    proof {
                        assert(elements_view(elements@) =~= elements_view(before).insert(
                            entry.name@,
                            bytes@,
                        ));
                    }
                    offset = offset + entry.num_bytes;
                }
                k = k + 1;
            }
            r = r + 1;
        }
        if offset != proof_data.len() {
            return Err(Error::SerializationError);
        }
        let t = Transcript {
            manifest,
            hash_type,
            num_challenge_bytes,
            elements,
            challenges: LabelMap::new(),
            current_round: 0,
            current_challenge: Vec::new(),
        };
        proof {
            assert(t@.challenges =~= Map::empty());
        }
        Ok(t)
    }

    /// The proof that the transcript holds: the elements that the manifest
    /// lets the prover supply, one behind the other in the manifest's order.
    pub fn export_proof(&self) -> (r: Result<Vec<u8>, Error>)
        requires
            self.wf(),
        ensures
            r matches Ok(bytes) ==> Ok::<Seq<u8>, Error>(bytes@) == export_rounds(
                self@.manifest,
                self@.elements,
                self@.manifest.len(),
            ),
            r matches Err(e) ==> Err::<Seq<u8>, Error>(e) == export_rounds(
                self@.manifest,
                self@.elements,
                self@.manifest.len(),
            ),
    {
        let ghost mv = self@.manifest;
        let ghost ev = self@.elements;
        let mut out: Vec<u8> = Vec::new();
        let mut r: usize = 0;
        while r < self.manifest.rounds.len()
            invariant
                r <= self.manifest.rounds@.len(),
                self.wf(),
                mv == self@.manifest,
                ev == self@.elements,
                export_rounds(mv, ev, r as nat) == Ok::<Seq<u8>, Error>(out@),
            decreases self.manifest.rounds@.len() - r,
        {
            let round = &self.manifest.rounds[r];
            let ghost entries = crate::manifest::entries_view(round.elements@);
            let ghost start = export_rounds(mv, ev, r as nat);
            proof {
                assert(mv[r as int] == crate::manifest::round_view(*round));
            }
            let mut k: usize = 0;
            while k < round.elements.len()
                invariant
                    k <= round.elements@.len(),
                    r < self.manifest.rounds@.len(),
                    self.wf(),
                    mv == self@.manifest,
                    ev == self@.elements,
                    entries == crate::manifest::entries_view(round.elements@),
                    mv[r as int].2 == entries,
                    start == export_rounds(mv, ev, r as nat),
                    export_entries(entries, ev, k as nat, start) == Ok::<Seq<u8>, Error>(out@),
                decreases round.elements@.len() - k,
            {
                let entry = &round.elements[k];
                proof {
                    assert(entries[k as int] == (
                        entry.name@,
                        entry.num_bytes as nat,
                        entry.derived_by_verifier,
                    ));
                    if export_entries(entries, ev, (k + 1) as nat, start) is Err {
                        lemma_export_entries_stays(
                            entries,
                            ev,
                            (k + 1) as nat,
                            entries.len(),
                            start,
                        );
                        lemma_export_rounds_stays(mv, ev, (r + 1) as nat, mv.len());
                    }
                }
                if !entry.derived_by_verifier {
                    match self.elements.get(entry.name.as_str()) {
                        Some(bytes) => {
                            if bytes.len() != entry.num_bytes {
                                return Err(Error::ProtocolError);
                            }
                            append_bytes(&mut out, bytes.as_slice());
                        },
                        None => {
                            return Err(Error::MissingElement);
                        },
                    }
                }
                k = k + 1;
            }
            r = r + 1;
        }
        Ok(out)
    }

    /// Puts a byte string under a name, in place of what was there.
    pub fn add_element(&mut self, name: &str, bytes: Vec<u8>)
        requires
            old(self).wf(),
        ensures
            final(self).wf(),
            final(self)@ == (TranscriptState {
                elements: old(self)@.elements.insert(name@, bytes@),
                ..old(self)@
            }),
    {
        let ghost before = self.elements@;
        self.elements.insert(name, bytes);
        proof {
            assert(elements_view(self.elements@) =~= elements_view(before).insert(name@, bytes@));
        }
    }

    /// Whether an element was added under a name.
    pub fn has_element(&self, name: &str) -> (r: bool)
        requires
            self.wf(),
        ensures
            r == self@.elements.contains_key(name@),
    {
        self.elements.contains(name)
    }

    /// The bytes of the element under a name.
    pub fn get_element(&self, name: &str) -> (r: Result<Vec<u8>, Error>)
        requires
            self.wf(),
        ensures
            r is Ok <==> self@.elements.contains_key(name@),
            r matches Err(e) ==> e == Error::MissingElement,
            r matches Ok(bytes) ==> bytes@ == self@.elements[name@],
    {
        match self.elements.get(name) {
            Some(bytes) => Ok(vstd::slice::slice_to_vec(bytes.as_slice())),
            None => Err(Error::MissingElement),
        }
    }

    /// The element under a name as a scalar: its 32 bytes spell a canonical
    /// one.
    pub fn get_field_element(&self, name: &str) -> (r: Result<Fr, Error>)
        requires
            self.wf(),
        ensures
            r matches Ok(v) ==> self@.elements.contains_key(name@) && v.wf() && Some(v@)
                == spec_scalar(self@.elements[name@]),
            r matches Err(e) ==> (e == Error::MissingElement <==> !self@.elements.contains_key(
                name@,
            )) && (e == Error::TypeMismatch <==> self@.elements.contains_key(name@) && spec_scalar(
                self@.elements[name@],
            ) is None) && (e == Error::MissingElement || e == Error::TypeMismatch),
            r is Ok <==> self@.elements.contains_key(name@) && spec_scalar(self@.elements[name@])
                is Some,
    {
        match self.elements.get(name) {
            Some(bytes) => match fr_from_bytes(bytes.as_slice()) {
                Some(v) => Ok(v),
                None => Err(Error::TypeMismatch),
            },
            None => Err(Error::MissingElement),
        }
    }

    /// The element under a name as a point of the first group: its 64 bytes
    /// spell canonical coordinates.
    pub fn get_group_element(&self, name: &str) -> (r: Result<G1Affine, Error>)
        requires
            self.wf(),
        ensures
            r matches Ok(p) ==> self@.elements.contains_key(name@) && p.wf() && Some(p@)
                == spec_g1_from_bytes(self@.elements[name@]),
            r matches Err(e) ==> (e == Error::MissingElement <==> !self@.elements.contains_key(
                name@,
            )) && (e == Error::TypeMismatch <==> self@.elements.contains_key(name@)
                && spec_g1_from_bytes(self@.elements[name@]) is None) && (e == Error::MissingElement
                || e == Error::TypeMismatch),
            r is Ok <==> self@.elements.contains_key(name@) && spec_g1_from_bytes(
                self@.elements[name@],
            ) is Some,
    {
        match self.elements.get(name) {
            Some(bytes) => match g1_from_bytes(bytes.as_slice()) {
                Some(p) => Ok(p),
                None => Err(Error::TypeMismatch),
            },
            None => Err(Error::MissingElement),
        }
    }

    /// The element under a name as a list of scalars: every 32 bytes spell
    /// a canonical one.
    pub fn get_field_element_vector(&self, name: &str) -> (r: Result<Vec<Fr>, Error>)
        requires
            self.wf(),
        ensures
            r is Ok <==> self@.elements.contains_key(name@) && spec_scalar_vector(
                self@.elements[name@],
            ) is Some,
            r matches Ok(v) ==> crate::polynomial::all_wf(v@) && Some(
                crate::polynomial::fr_values(v@),
            ) == spec_scalar_vector(self@.elements[name@]),
            r matches Err(e) ==> e == (if self@.elements.contains_key(name@) {
                Error::TypeMismatch
            } else {
                Error::MissingElement
            }),
    {
        match self.elements.get(name) {
            Some(bytes) => {
                if bytes.len() % 32 != 0 {
                    return Err(Error::TypeMismatch);
                }
                let count = bytes.len() / 32;
                let mut out: Vec<Fr> = Vec::new();
                let mut i: usize = 0;
                while i < count
                    invariant
                        i <= count,
                        count == bytes@.len() / 32,
                        32 * count == bytes@.len(),
                        bytes@.len() <= usize::MAX,
                        bytes@ == self@.elements[name@],
                        self@.elements.contains_key(name@),
                        out@.len() == i,
                        forall|k: int|
                            0 <= k < i ==> (#[trigger] out@[k]).wf() && Some(out@[k]@)
                                == spec_scalar(bytes@.subrange(32 * k, 32 * k + 32)),
                    decreases count - i,
                {
                    let chunk = vstd::slice::slice_subrange(bytes.as_slice(), 32 * i, 32 * i + 32);
                    match fr_from_bytes(chunk) {
                        Some(v) => {
                            out.push(v);
                        },
                        None => {
                            proof {
                                assert(spec_scalar(bytes@.subrange(32 * i, 32 * i + 32)) is None);
                            }
                            return Err(Error::TypeMismatch);
                        },
                    }
                    i = i + 1;
                }
                proof {
                    assert forall|k: int| 0 <= k < bytes@.len() / 32 implies spec_scalar(
                        #[trigger] bytes@.subrange(32 * k, 32 * k + 32),
                    ) is Some by {
                        assert(out@[k].wf());
                    }
                    assert(crate::polynomial::fr_values(out@) =~= spec_scalar_vector(
                        bytes@,
                    ).unwrap());
                }
                Ok(out)
            },
            None => Err(Error::MissingElement),
        }
    }

    /// Challenge `index` of those derived under a name, as a scalar: the
    /// number that its bytes spell, reduced modulo the field order.
    pub fn get_challenge_field_element(&self, name: &str, index: usize) -> (r: Result<Fr, Error>)
        requires
            self.wf(),
        ensures
            r is Ok <==> self@.challenges.contains_key(name@) && index
                < self@.challenges[name@].len(),
            r matches Err(e) ==> e == Error::MissingChallenge,
            r matches Ok(v) ==> v.wf() && v@ == be_value(self@.challenges[name@][index as int])
                % fr_modulus(),
    {
        match self.challenges.get(name) {
            Some(list) => {
                if index < list.len() {
                    Ok(Fr::from_be_bytes_mod_order(list[index].as_slice()))
                } else {
                    Err(Error::MissingChallenge)
                }
            },
            None => Err(Error::MissingChallenge),
        }
    }

    /// Derives the challenges of the current round under `name` and moves
    /// to the next round. Where that fails, the transcript stays as it was.
    pub fn apply_fiat_shamir(&mut self, name: &str) -> (r: Result<(), Error>)
        requires
            old(self).wf(),
        ensures
            final(self).wf(),
            r is Ok <==> fiat_shamir_failure(old(self)@, name@) is None,
            r matches Err(e) ==> Some(e) == fiat_shamir_failure(old(self)@, name@) && final(self)@
                == old(self)@,
            r is Ok ==> final(self)@ == fiat_shamir_next(old(self)@, name@),
    {
        if self.current_round >= self.manifest.rounds.len() {
            return Err(Error::ProtocolError);
        }
        let ghost state = self@;
        let round = &self.manifest.rounds[self.current_round];
        let ghost entries = crate::manifest::entries_view(round.elements@);
        proof {
            assert(self.manifest@[self.current_round as int] == crate::manifest::round_view(
                *round,
            ));
        }
        let wanted = name.to_owned();
        if round.challenge != wanted || round.num_challenges > 256 {
            return Err(Error::ProtocolError);
        }
        proof {
            assert(state.manifest[state.current_round as int] == (
                round.challenge@,
                round.num_challenges as nat,
                entries,
            ));
            assert(fiat_shamir_failure(state, name@) == round_failure(
                entries,
                state.elements,
                entries.len(),
            ));
        }
        let mut buffer = vstd::slice::slice_to_vec(self.current_challenge.as_slice());
        let mut k: usize = 0;
        while k < round.elements.len()
            invariant
                k <= round.elements@.len(),
                self.wf(),
                self@ == state,
                entries == crate::manifest::entries_view(round.elements@),
                round_failure(entries, state.elements, k as nat) is None,
                fiat_shamir_failure(state, name@) == round_failure(
                    entries,
                    state.elements,
                    entries.len(),
                ),
                buffer@ == round_buffer(state.current_challenge, entries, state.elements, k as nat),
            decreases round.elements@.len() - k,
        {
            let entry = &round.elements[k];
            proof {
                assert(entries[k as int] == (
                    entry.name@,
                    entry.num_bytes as nat,
                    entry.derived_by_verifier,
                ));
                if round_failure(entries, state.elements, (k + 1) as nat) is Some {
                    lemma_round_failure_stays(
                        entries,
                        state.elements,
                        (k + 1) as nat,
                        entries.len(),
                    );
                }
            }
            match self.elements.get(entry.name.as_str()) {
                Some(bytes) => {
                    if !entry.derived_by_verifier && bytes.len() != entry.num_bytes {
                        proof {
                            assert(round_failure(entries, state.elements, (k + 1) as nat) == Some(
                                Error::ProtocolError,
                            ));
                        }
                        return Err(Error::ProtocolError);
                    }
                    append_bytes(&mut buffer, bytes.as_slice());
                },
                None => {
                    proof {
                        assert(round_failure(entries, state.elements, (k + 1) as nat) == Some(
                            Error::MissingElement,
                        ));
                    }
                    return Err(Error::MissingElement);
                },
            }
            k = k + 1;
        }
        let count = round.num_challenges;
        let base = hash(self.hash_type, buffer.as_slice());
        if count == 0 {
            self.current_round = self.current_round + 1;
            return Ok(());
        }
        let mut list: Vec<Vec<u8>> = Vec::new();
        let mut last: Vec<u8> = Vec::new();
        let mut i: usize = 0;
        while i < count
            invariant
                i <= count <= 256,
                base@.len() == 32,
                1 <= self.num_challenge_bytes <= 32,
                list@.len() == i,
                forall|j: int|
                    0 <= j < i ==> (#[trigger] list@[j])@ == challenge_at(
                        self.hash_type,
                        base@,
                        self.num_challenge_bytes as nat,
                        j as nat,
                    ),
                i > 0 ==> last@ == challenge_at(
                    self.hash_type,
                    base@,
                    self.num_challenge_bytes as nat,
                    (i - 1) as nat,
                ),
            decreases count - i,
        {
            let challenge = if i == 0 {
                vstd::slice::slice_to_vec(
                    vstd::slice::slice_subrange(base.as_slice(), 0, self.num_challenge_bytes),
                )
            } else {
                let mut input = vstd::slice::slice_to_vec(base.as_slice());
                input.push(i as u8);
                let digest = hash(self.hash_type, input.as_slice());
                vstd::slice::slice_to_vec(
                    vstd::slice::slice_subrange(digest.as_slice(), 0, self.num_challenge_bytes),
                )
            };
            last = vstd::slice::slice_to_vec(challenge.as_slice());
            list.push(challenge);
            i = i + 1;
        }
        let ghost before = self.challenges@;
        proof {
            assert(challenge_list_view(list) =~= round_challenges(
                self.hash_type,
                base@,
                self.num_challenge_bytes as nat,
                count as nat,
            ));
        }
        self.challenges.insert(name, list);
        self.current_challenge = last;
        self.current_round = self.current_round + 1;
        proof {
            assert(challenges_view(self.challenges@) =~= challenges_view(before).insert(
                name@,
                challenge_list_view(list),
            ));
        }
        Ok(())
    }
}

/// The scalars that a byte string spells in chunks of 32 bytes, where every
/// chunk spells a canonical one.
pub open spec fn spec_scalar_vector(bytes: Seq<u8>) -> Option<Seq<int>> {
    if bytes.len() % 32 == 0 && (forall|k: int|
        0 <= k < bytes.len() / 32 ==> spec_scalar(#[trigger] bytes.subrange(32 * k, 32 * k + 32))
            is Some) {
        Some(
            Seq::new(
                bytes.len() / 32,
                |k: int| spec_scalar(bytes.subrange(32 * k, 32 * k + 32)).unwrap(),
            ),
        )
    } else {
        None
    }
}

/// Equal transcripts derive equal challenges: what a round yields depends
/// on nothing but the manifest, the hash function, the challenge size, the
/// elements added and the challenge before.
pub proof fn lemma_fiat_shamir_deterministic(a: Transcript, b: Transcript, name: Seq<char>)
    requires
        a@.manifest == b@.manifest,
        a@.hash_type == b@.hash_type,
        a@.num_challenge_bytes == b@.num_challenge_bytes,
        a@.elements == b@.elements,
        a@.current_round == b@.current_round,
        a@.current_challenge == b@.current_challenge,
    ensures
        fiat_shamir_failure(a@, name) == fiat_shamir_failure(b@, name),
        fiat_shamir_base(a@) == fiat_shamir_base(b@),
        fiat_shamir_next(a@, name).current_challenge == fiat_shamir_next(
            b@,
            name,
        ).current_challenge,
        a@.challenges == b@.challenges ==> fiat_shamir_next(a@, name) == fiat_shamir_next(b@, name),
{
}

} // verus!
