//! The manifest of a transcript: for every round, the elements that go into
//! its challenge, in order, and the name and number of the challenges.

use vstd::prelude::*;

verus! {

/// One element of a round.
pub struct ManifestEntry {
    /// The name under which the element is added.
    pub name: String,
    /// How many bytes the element has.
    pub num_bytes: usize,
    /// Whether the verifier computes the element, so that no proof carries
    /// it.
    pub derived_by_verifier: bool,
}

/// One round: its elements in order, and the challenges derived after
/// them.
pub struct RoundManifest {
    pub elements: Vec<ManifestEntry>,
    pub challenge: String,
    pub num_challenges: usize,
}

/// The rounds of a protocol in order.
pub struct Manifest {
    pub rounds: Vec<RoundManifest>,
}

impl ManifestEntry {
    /// An entry with the given name and size.
    pub fn new(name: &str, num_bytes: usize, derived_by_verifier: bool) -> (r: ManifestEntry)
        ensures
            r.name@ == name@,
            r.num_bytes == num_bytes,
            r.derived_by_verifier == derived_by_verifier,
    {
        ManifestEntry { name: name.to_owned(), num_bytes, derived_by_verifier }
    }

    /// A copy of the entry.
    pub fn duplicate(&self) -> (r: ManifestEntry)
        ensures
            r == *self,
    {
        ManifestEntry {
            name: self.name.clone(),
            num_bytes: self.num_bytes,
            derived_by_verifier: self.derived_by_verifier,
        }
    }
}

impl RoundManifest {
    /// A round with the given elements and challenge.
    pub fn new(elements: Vec<ManifestEntry>, challenge: &str, num_challenges: usize) -> (r:
        RoundManifest)
        ensures
            r.elements == elements,
            r.challenge@ == challenge@,
            r.num_challenges == num_challenges,
    {
        RoundManifest { elements, challenge: challenge.to_owned(), num_challenges }
    }

    /// A copy of the round.
    pub fn duplicate(&self) -> (r: RoundManifest)
        ensures
            r.challenge == self.challenge,
            r.num_challenges == self.num_challenges,
            r.elements@ == self.elements@,
    {
        let mut elements: Vec<ManifestEntry> = Vec::new();
        let mut i: usize = 0;
        while i < self.elements.len()
            invariant
                i <= self.elements@.len(),
                elements@ == self.elements@.take(i as int),
            decreases self.elements@.len() - i,
        {
            elements.push(self.elements[i].duplicate());
            proof {
                assert(elements@ =~= self.elements@.take(i + 1));
            }
            i = i + 1;
        }
        proof {
            assert(elements@ =~= self.elements@);
        }
        RoundManifest {
            elements,
            challenge: self.challenge.clone(),
            num_challenges: self.num_challenges,
        }
    }
}

/// The elements of a round as plain values: per element its name, size
/// and whether the verifier derives it.
pub open spec fn entries_view(elements: Seq<ManifestEntry>) -> Seq<(Seq<char>, nat, bool)> {
    Seq::new(
        elements.len(),
        |k: int| (elements[k].name@, elements[k].num_bytes as nat, elements[k].derived_by_verifier),
    )
}

/// The view of a list of elements with one more element is the view of the
/// list with the element's values behind it.
pub proof fn lemma_entries_view_push(elements: Seq<ManifestEntry>, e: ManifestEntry)
    ensures
        entries_view(elements.push(e)) == entries_view(elements).push(
            (e.name@, e.num_bytes as nat, e.derived_by_verifier),
        ),
{
    assert(entries_view(elements.push(e)) =~= entries_view(elements).push(
        (e.name@, e.num_bytes as nat, e.derived_by_verifier),
    ));
}

/// A round as plain values: the challenge's name, the number of
/// challenges, and the elements.
pub open spec fn round_view(round: RoundManifest) -> (Seq<char>, nat, Seq<(Seq<char>, nat, bool)>) {
    (round.challenge@, round.num_challenges as nat, entries_view(round.elements@))
}

/// The rounds of a manifest as plain values.
pub open spec fn rounds_view(rounds: Seq<RoundManifest>) -> Seq<
    (Seq<char>, nat, Seq<(Seq<char>, nat, bool)>),
> {
    Seq::new(rounds.len(), |r: int| round_view(rounds[r]))
}

impl View for Manifest {
    type V = Seq<(Seq<char>, nat, Seq<(Seq<char>, nat, bool)>)>;

    open spec fn view(&self) -> Self::V {
        rounds_view(self.rounds@)
    }
}

impl Manifest {
    /// A manifest with the given rounds.
    pub fn new(rounds: Vec<RoundManifest>) -> (r: Manifest)
        ensures
            r.rounds == rounds,
    {
        Manifest { rounds }
    }

    /// The number of rounds.
    pub fn get_num_rounds(&self) -> (n: usize)
        ensures
            n == self.rounds@.len(),
    {
        self.rounds.len()
    }

    /// A copy of the manifest.
    pub fn duplicate(&self) -> (r: Manifest)
        ensures
            r@ == self@,
            r.rounds@.len() == self.rounds@.len(),
    {
        let mut rounds: Vec<RoundManifest> = Vec::new();
        let mut i: usize = 0;
        while i < self.rounds.len()
            invariant
                i <= self.rounds@.len(),
                rounds@.len() == i,
                forall|j: int|
                    0 <= j < i ==> round_view(#[trigger] rounds@[j]) == round_view(self.rounds@[j]),
            decreases self.rounds@.len() - i,
        {
            rounds.push(self.rounds[i].duplicate());
            i = i + 1;
        }
        proof {
            assert(rounds_view(rounds@) =~= rounds_view(self.rounds@));
        }
        Manifest { rounds }
    }
}

} // verus!
