//! The variants of the proof system and what each fixes: the number of
//! wires, the hash function of the transcript, the size of a challenge,
//! the polynomials of a circuit and the manifest of the transcript.

use crate::hash::HashType;
use crate::manifest::{Manifest, ManifestEntry, RoundManifest};
use vstd::prelude::*;
use vstd::string::StringExecFns;

verus! {

/// The kind of circuit that a key belongs to.
#[derive(Clone, Copy, PartialEq, Eq, Structural, Debug)]
pub enum ComposerType {
    Standard,
    Turbo,
    Plookup,
}

impl ComposerType {
    /// The number that stands for the kind in a persisted key.
    pub open spec fn spec_code(self) -> u32 {
        match self {
            ComposerType::Standard => 0,
            ComposerType::Turbo => 1,
            ComposerType::Plookup => 2,
        }
    }

    /// The number that stands for the kind in a persisted key.
    pub fn code(self) -> (r: u32)
        ensures
            r == self.spec_code(),
    {
        match self {
            ComposerType::Standard => 0,
            ComposerType::Turbo => 1,
            ComposerType::Plookup => 2,
        }
    }

    /// The kind that a number stands for.
    pub fn from_code(code: u32) -> (r: Option<ComposerType>)
        ensures
            r is Some <==> code <= 2,
            r matches Some(t) ==> t.spec_code() == code,
    {
        if code == 0 {
            Some(ComposerType::Standard)
        } else if code == 1 {
            Some(ComposerType::Turbo)
        } else if code == 2 {
            Some(ComposerType::Plookup)
        } else {
            None
        }
    }
}

/// Where the commitment to a polynomial comes from.
#[derive(Clone, Copy, PartialEq, Eq, Structural, Debug)]
pub enum PolynomialSource {
    /// From the proof.
    Witness,
    /// From the verification key: a gate selector or a table.
    Selector,
    /// From the verification key: a permutation.
    Permutation,
}

/// One polynomial of a circuit.
pub struct PolynomialDescriptor {
    /// The label of its commitment.
    pub commitment_label: String,
    /// The label of the polynomial and of its value at the challenge point.
    pub polynomial_label: String,
    /// Whether it is also opened at the challenge point times the root of
    /// the domain.
    pub requires_shifted_evaluation: bool,
    pub source: PolynomialSource,
}

impl PolynomialDescriptor {
    /// A descriptor with the given labels.
    pub fn new(
        commitment_label: &str,
        polynomial_label: &str,
        requires_shifted_evaluation: bool,
        source: PolynomialSource,
    ) -> (r: PolynomialDescriptor)
        ensures
            r.commitment_label@ == commitment_label@,
            r.polynomial_label@ == polynomial_label@,
            r.requires_shifted_evaluation == requires_shifted_evaluation,
            r.source == source,
    {
        PolynomialDescriptor {
            commitment_label: commitment_label.to_owned(),
            polynomial_label: polynomial_label.to_owned(),
            requires_shifted_evaluation,
            source,
        }
    }
}

/// The polynomials of a circuit in the order in which they are opened.
pub struct PolynomialManifest {
    pub entries: Vec<PolynomialDescriptor>,
}

/// The polynomials of a manifest as plain values: per polynomial the label
/// of the commitment, the label of the polynomial, whether it is opened at
/// the shifted point, and its source.
pub open spec fn descriptors_view(entries: Seq<PolynomialDescriptor>) -> Seq<
    (Seq<char>, Seq<char>, bool, PolynomialSource),
> {
    Seq::new(
        entries.len(),
        |i: int|
            (
                entries[i].commitment_label@,
                entries[i].polynomial_label@,
                entries[i].requires_shifted_evaluation,
                entries[i].source,
            ),
    )
}

impl View for PolynomialManifest {
    type V = Seq<(Seq<char>, Seq<char>, bool, PolynomialSource)>;

    open spec fn view(&self) -> Self::V {
        descriptors_view(self.entries@)
    }
}

impl PolynomialManifest {
    /// The manifest without polynomials.
    pub fn empty() -> (r: PolynomialManifest)
        ensures
            r@.len() == 0,
    {
        PolynomialManifest { entries: Vec::new() }
    }

    /// The number of polynomials.
    pub fn size(&self) -> (n: usize)
        ensures
            n == self@.len(),
    {
        self.entries.len()
    }

    /// A copy of the manifest.
    pub fn duplicate(&self) -> (r: PolynomialManifest)
        ensures
            r@ == self@,
    {
        let mut entries: Vec<PolynomialDescriptor> = Vec::new();
        let mut i: usize = 0;
        while i < self.entries.len()
            invariant
                i <= self.entries@.len(),
                entries@.len() == i,
                forall|k: int| 0 <= k < i ==> #[trigger] entries@[k] == self.entries@[k],
            decreases self.entries@.len() - i,
        {
            let e = &self.entries[i];
            entries.push(
                PolynomialDescriptor {
                    commitment_label: e.commitment_label.clone(),
                    polynomial_label: e.polynomial_label.clone(),
                    requires_shifted_evaluation: e.requires_shifted_evaluation,
                    source: e.source,
                },
            );
            i = i + 1;
        }
        let r = PolynomialManifest { entries };
        proof {
            assert(r@ =~= self@);
        }
        r
    }
}

/// The polynomials of a standard circuit.
pub open spec fn spec_standard_polynomials() -> Seq<(Seq<char>, Seq<char>, bool, PolynomialSource)> {
    seq![
        ("W_1"@, "w_1"@, false, PolynomialSource::Witness),
        ("W_2"@, "w_2"@, false, PolynomialSource::Witness),
        ("W_3"@, "w_3"@, false, PolynomialSource::Witness),
        ("Z_PERM"@, "z_perm"@, true, PolynomialSource::Witness),
        ("Q_1"@, "q_1"@, false, PolynomialSource::Selector),
        ("Q_2"@, "q_2"@, false, PolynomialSource::Selector),
        ("Q_3"@, "q_3"@, false, PolynomialSource::Selector),
        ("Q_M"@, "q_m"@, false, PolynomialSource::Selector),
        ("Q_C"@, "q_c"@, false, PolynomialSource::Selector),
        ("SIGMA_1"@, "sigma_1"@, false, PolynomialSource::Permutation),
        ("SIGMA_2"@, "sigma_2"@, false, PolynomialSource::Permutation),
        ("SIGMA_3"@, "sigma_3"@, false, PolynomialSource::Permutation),
    ]
}

/// The polynomials of a standard circuit.
pub fn standard_polynomial_manifest() -> (r: PolynomialManifest)
    ensures
        r@ == spec_standard_polynomials(),
{
    let mut entries: Vec<PolynomialDescriptor> = Vec::new();
    entries.push(PolynomialDescriptor::new("W_1", "w_1", false, PolynomialSource::Witness));
    entries.push(PolynomialDescriptor::new("W_2", "w_2", false, PolynomialSource::Witness));
    entries.push(PolynomialDescriptor::new("W_3", "w_3", false, PolynomialSource::Witness));
    entries.push(PolynomialDescriptor::new("Z_PERM", "z_perm", true, PolynomialSource::Witness));
    entries.push(PolynomialDescriptor::new("Q_1", "q_1", false, PolynomialSource::Selector));
    entries.push(PolynomialDescriptor::new("Q_2", "q_2", false, PolynomialSource::Selector));
    entries.push(PolynomialDescriptor::new("Q_3", "q_3", false, PolynomialSource::Selector));
    entries.push(PolynomialDescriptor::new("Q_M", "q_m", false, PolynomialSource::Selector));
    entries.push(PolynomialDescriptor::new("Q_C", "q_c", false, PolynomialSource::Selector));
    entries.push(PolynomialDescriptor::new("SIGMA_1", "sigma_1", false, PolynomialSource::Permutation));
    entries.push(PolynomialDescriptor::new("SIGMA_2", "sigma_2", false, PolynomialSource::Permutation));
    entries.push(PolynomialDescriptor::new("SIGMA_3", "sigma_3", false, PolynomialSource::Permutation));
    let r = PolynomialManifest { entries };
    proof {
        assert(r@ =~= spec_standard_polynomials());
    }
    r
}

/// The polynomials of a turbo circuit.
pub open spec fn spec_turbo_polynomials() -> Seq<(Seq<char>, Seq<char>, bool, PolynomialSource)> {
    seq![
        ("W_1"@, "w_1"@, true, PolynomialSource::Witness),
        ("W_2"@, "w_2"@, true, PolynomialSource::Witness),
        ("W_3"@, "w_3"@, true, PolynomialSource::Witness),
        ("W_4"@, "w_4"@, true, PolynomialSource::Witness),
        ("Z_PERM"@, "z_perm"@, true, PolynomialSource::Witness),
        ("Q_1"@, "q_1"@, false, PolynomialSource::Selector),
        ("Q_2"@, "q_2"@, false, PolynomialSource::Selector),
        ("Q_3"@, "q_3"@, false, PolynomialSource::Selector),
        ("Q_4"@, "q_4"@, false, PolynomialSource::Selector),
        ("Q_5"@, "q_5"@, false, PolynomialSource::Selector),
        ("Q_M"@, "q_m"@, false, PolynomialSource::Selector),
        ("Q_C"@, "q_c"@, false, PolynomialSource::Selector),
        ("Q_ARITHMETIC"@, "q_arith"@, false, PolynomialSource::Selector),
        ("Q_RANGE"@, "q_range"@, false, PolynomialSource::Selector),
        ("Q_FIXED_BASE"@, "q_fixed_base"@, false, PolynomialSource::Selector),
        ("Q_LOGIC"@, "q_logic"@, false, PolynomialSource::Selector),
        ("SIGMA_1"@, "sigma_1"@, false, PolynomialSource::Permutation),
        ("SIGMA_2"@, "sigma_2"@, false, PolynomialSource::Permutation),
        ("SIGMA_3"@, "sigma_3"@, false, PolynomialSource::Permutation),
        ("SIGMA_4"@, "sigma_4"@, false, PolynomialSource::Permutation),
    ]
}

/// The polynomials of a turbo circuit.
pub fn turbo_polynomial_manifest() -> (r: PolynomialManifest)
    ensures
        r@ == spec_turbo_polynomials(),
{
    let mut entries: Vec<PolynomialDescriptor> = Vec::new();
    entries.push(PolynomialDescriptor::new("W_1", "w_1", true, PolynomialSource::Witness));
    entries.push(PolynomialDescriptor::new("W_2", "w_2", true, PolynomialSource::Witness));
    entries.push(PolynomialDescriptor::new("W_3", "w_3", true, PolynomialSource::Witness));
    entries.push(PolynomialDescriptor::new("W_4", "w_4", true, PolynomialSource::Witness));
    entries.push(PolynomialDescriptor::new("Z_PERM", "z_perm", true, PolynomialSource::Witness));
    entries.push(PolynomialDescriptor::new("Q_1", "q_1", false, PolynomialSource::Selector));
    entries.push(PolynomialDescriptor::new("Q_2", "q_2", false, PolynomialSource::Selector));
    entries.push(PolynomialDescriptor::new("Q_3", "q_3", false, PolynomialSource::Selector));
    entries.push(PolynomialDescriptor::new("Q_4", "q_4", false, PolynomialSource::Selector));
    entries.push(PolynomialDescriptor::new("Q_5", "q_5", false, PolynomialSource::Selector));
    entries.push(PolynomialDescriptor::new("Q_M", "q_m", false, PolynomialSource::Selector));
    entries.push(PolynomialDescriptor::new("Q_C", "q_c", false, PolynomialSource::Selector));
    entries.push(PolynomialDescriptor::new("Q_ARITHMETIC", "q_arith", false, PolynomialSource::Selector));
    entries.push(PolynomialDescriptor::new("Q_RANGE", "q_range", false, PolynomialSource::Selector));
    entries.push(PolynomialDescriptor::new("Q_FIXED_BASE", "q_fixed_base", false, PolynomialSource::Selector));
    entries.push(PolynomialDescriptor::new("Q_LOGIC", "q_logic", false, PolynomialSource::Selector));
    entries.push(PolynomialDescriptor::new("SIGMA_1", "sigma_1", false, PolynomialSource::Permutation));
    entries.push(PolynomialDescriptor::new("SIGMA_2", "sigma_2", false, PolynomialSource::Permutation));
    entries.push(PolynomialDescriptor::new("SIGMA_3", "sigma_3", false, PolynomialSource::Permutation));
    entries.push(PolynomialDescriptor::new("SIGMA_4", "sigma_4", false, PolynomialSource::Permutation));
    let r = PolynomialManifest { entries };
    proof {
        assert(r@ =~= spec_turbo_polynomials());
    }
    r
}

/// The polynomials of an ultra circuit.
pub open spec fn spec_ultra_polynomials() -> Seq<(Seq<char>, Seq<char>, bool, PolynomialSource)> {
    seq![
        ("W_1"@, "w_1"@, true, PolynomialSource::Witness),
        ("W_2"@, "w_2"@, true, PolynomialSource::Witness),
        ("W_3"@, "w_3"@, true, PolynomialSource::Witness),
        ("W_4"@, "w_4"@, true, PolynomialSource::Witness),
        ("S"@, "s"@, true, PolynomialSource::Witness),
        ("Z_PERM"@, "z_perm"@, true, PolynomialSource::Witness),
        ("Z_LOOKUP"@, "z_lookup"@, true, PolynomialSource::Witness),
        ("Q_1"@, "q_1"@, false, PolynomialSource::Selector),
        ("Q_2"@, "q_2"@, false, PolynomialSource::Selector),
        ("Q_3"@, "q_3"@, false, PolynomialSource::Selector),
        ("Q_4"@, "q_4"@, false, PolynomialSource::Selector),
        ("Q_M"@, "q_m"@, false, PolynomialSource::Selector),
        ("Q_C"@, "q_c"@, false, PolynomialSource::Selector),
        ("Q_ARITHMETIC"@, "q_arith"@, false, PolynomialSource::Selector),
        ("Q_SORT"@, "q_sort"@, false, PolynomialSource::Selector),
        ("Q_ELLIPTIC"@, "q_elliptic"@, false, PolynomialSource::Selector),
        ("Q_AUX"@, "q_aux"@, false, PolynomialSource::Selector),
        ("SIGMA_1"@, "sigma_1"@, false, PolynomialSource::Permutation),
        ("SIGMA_2"@, "sigma_2"@, false, PolynomialSource::Permutation),
        ("SIGMA_3"@, "sigma_3"@, false, PolynomialSource::Permutation),
        ("SIGMA_4"@, "sigma_4"@, false, PolynomialSource::Permutation),
        ("TABLE_1"@, "table_value_1"@, true, PolynomialSource::Selector),
        ("TABLE_2"@, "table_value_2"@, true, PolynomialSource::Selector),
        ("TABLE_3"@, "table_value_3"@, true, PolynomialSource::Selector),
        ("TABLE_4"@, "table_value_4"@, true, PolynomialSource::Selector),
        ("TABLE_TYPE"@, "table_type"@, false, PolynomialSource::Selector),
        ("ID_1"@, "id_1"@, false, PolynomialSource::Permutation),
        ("ID_2"@, "id_2"@, false, PolynomialSource::Permutation),
        ("ID_3"@, "id_3"@, false, PolynomialSource::Permutation),
        ("ID_4"@, "id_4"@, false, PolynomialSource::Permutation),
    ]
}

/// The polynomials of an ultra circuit.
pub fn ultra_polynomial_manifest() -> (r: PolynomialManifest)
    ensures
        r@ == spec_ultra_polynomials(),
{
    let mut entries: Vec<PolynomialDescriptor> = Vec::new();
    entries.push(PolynomialDescriptor::new("W_1", "w_1", true, PolynomialSource::Witness));
    entries.push(PolynomialDescriptor::new("W_2", "w_2", true, PolynomialSource::Witness));
    entries.push(PolynomialDescriptor::new("W_3", "w_3", true, PolynomialSource::Witness));
    entries.push(PolynomialDescriptor::new("W_4", "w_4", true, PolynomialSource::Witness));
    entries.push(PolynomialDescriptor::new("S", "s", true, PolynomialSource::Witness));
    entries.push(PolynomialDescriptor::new("Z_PERM", "z_perm", true, PolynomialSource::Witness));
    entries.push(PolynomialDescriptor::new("Z_LOOKUP", "z_lookup", true, PolynomialSource::Witness));
    entries.push(PolynomialDescriptor::new("Q_1", "q_1", false, PolynomialSource::Selector));
    entries.push(PolynomialDescriptor::new("Q_2", "q_2", false, PolynomialSource::Selector));
    entries.push(PolynomialDescriptor::new("Q_3", "q_3", false, PolynomialSource::Selector));
    entries.push(PolynomialDescriptor::new("Q_4", "q_4", false, PolynomialSource::Selector));
    entries.push(PolynomialDescriptor::new("Q_M", "q_m", false, PolynomialSource::Selector));
    entries.push(PolynomialDescriptor::new("Q_C", "q_c", false, PolynomialSource::Selector));
    entries.push(PolynomialDescriptor::new("Q_ARITHMETIC", "q_arith", false, PolynomialSource::Selector));
    entries.push(PolynomialDescriptor::new("Q_SORT", "q_sort", false, PolynomialSource::Selector));
    entries.push(PolynomialDescriptor::new("Q_ELLIPTIC", "q_elliptic", false, PolynomialSource::Selector));
    entries.push(PolynomialDescriptor::new("Q_AUX", "q_aux", false, PolynomialSource::Selector));
    entries.push(PolynomialDescriptor::new("SIGMA_1", "sigma_1", false, PolynomialSource::Permutation));
    entries.push(PolynomialDescriptor::new("SIGMA_2", "sigma_2", false, PolynomialSource::Permutation));
    entries.push(PolynomialDescriptor::new("SIGMA_3", "sigma_3", false, PolynomialSource::Permutation));
    entries.push(PolynomialDescriptor::new("SIGMA_4", "sigma_4", false, PolynomialSource::Permutation));
    entries.push(PolynomialDescriptor::new("TABLE_1", "table_value_1", true, PolynomialSource::Selector));
    entries.push(PolynomialDescriptor::new("TABLE_2", "table_value_2", true, PolynomialSource::Selector));
    entries.push(PolynomialDescriptor::new("TABLE_3", "table_value_3", true, PolynomialSource::Selector));
    entries.push(PolynomialDescriptor::new("TABLE_4", "table_value_4", true, PolynomialSource::Selector));
    entries.push(PolynomialDescriptor::new("TABLE_TYPE", "table_type", false, PolynomialSource::Selector));
    entries.push(PolynomialDescriptor::new("ID_1", "id_1", false, PolynomialSource::Permutation));
    entries.push(PolynomialDescriptor::new("ID_2", "id_2", false, PolynomialSource::Permutation));
    entries.push(PolynomialDescriptor::new("ID_3", "id_3", false, PolynomialSource::Permutation));
    entries.push(PolynomialDescriptor::new("ID_4", "id_4", false, PolynomialSource::Permutation));
    let r = PolynomialManifest { entries };
    proof {
        assert(r@ =~= spec_ultra_polynomials());
    }
    r
}

/// The polynomials of a circuit of a kind.
pub open spec fn spec_polynomials(composer_type: ComposerType) -> Seq<
    (Seq<char>, Seq<char>, bool, PolynomialSource),
> {
    match composer_type {
        ComposerType::Standard => spec_standard_polynomials(),
        ComposerType::Turbo => spec_turbo_polynomials(),
        ComposerType::Plookup => spec_ultra_polynomials(),
    }
}

/// The polynomials of a circuit of a kind.
pub fn polynomial_manifest(composer_type: ComposerType) -> (r: PolynomialManifest)
    ensures
        r@ == spec_polynomials(composer_type),
{
    match composer_type {
        ComposerType::Standard => standard_polynomial_manifest(),
        ComposerType::Turbo => turbo_polynomial_manifest(),
        ComposerType::Plookup => ultra_polynomial_manifest(),
    }
}

/// A variant of the proof system.
#[derive(Clone, Copy, PartialEq, Eq, Structural, Debug)]
pub enum Settings {
    Standard,
    Turbo,
    Ultra,
    UltraToStandard,
    UltraWithKeccak,
}

impl Settings {
    /// The number of wires of a gate.
    pub open spec fn spec_program_width(self) -> nat {
        match self {
            Settings::Standard => 3,
            _ => 4,
        }
    }

    /// The number of wires of a gate.
    pub fn program_width(self) -> (r: usize)
        ensures
            r == self.spec_program_width(),
    {
        match self {
            Settings::Standard => 3,
            _ => 4,
        }
    }

    /// The hash function of the transcript.
    pub open spec fn spec_hash_type(self) -> HashType {
        match self {
            Settings::UltraWithKeccak => HashType::Keccak256,
            _ => HashType::Blake3s,
        }
    }

    /// The hash function of the transcript.
    pub fn hash_type(self) -> (r: HashType)
        ensures
            r == self.spec_hash_type(),
    {
        match self {
            Settings::UltraWithKeccak => HashType::Keccak256,
            _ => HashType::Blake3s,
        }
    }

    /// The number of bytes of a challenge.
    pub open spec fn spec_num_challenge_bytes(self) -> nat {
        match self {
            Settings::UltraWithKeccak => 32,
            _ => 16,
        }
    }

    /// The number of bytes of a challenge.
    pub fn num_challenge_bytes(self) -> (r: usize)
        ensures
            r == self.spec_num_challenge_bytes(),
    {
        match self {
            Settings::UltraWithKeccak => 32,
            _ => 16,
        }
    }

    /// The kind of circuit.
    pub open spec fn spec_composer_type(self) -> ComposerType {
        match self {
            Settings::Standard => ComposerType::Standard,
            Settings::Turbo => ComposerType::Turbo,
            _ => ComposerType::Plookup,
        }
    }

    /// The kind of circuit.
    pub fn composer_type(self) -> (r: ComposerType)
        ensures
            r == self.spec_composer_type(),
    {
        match self {
            Settings::Standard => ComposerType::Standard,
            Settings::Turbo => ComposerType::Turbo,
            _ => ComposerType::Plookup,
        }
    }
}

/// The evaluations of the polynomials at the challenge point as elements
/// of a round, in the order of the manifest.
pub open spec fn evaluation_entries(
    polynomials: Seq<(Seq<char>, Seq<char>, bool, PolynomialSource)>,
) -> Seq<(Seq<char>, nat, bool)> {
    Seq::new(polynomials.len(), |i: int| (polynomials[i].1, 32nat, false))
}

/// The evaluations at the shifted point of those of the first `k`
/// polynomials that are opened there, each under the label of its
/// polynomial followed by `_omega`.
pub open spec fn shifted_entries(
    polynomials: Seq<(Seq<char>, Seq<char>, bool, PolynomialSource)>,
    k: nat,
) -> Seq<(Seq<char>, nat, bool)>
    decreases k,
{
    if k == 0 {
        Seq::empty()
    } else {
        let before = shifted_entries(polynomials, (k - 1) as nat);
        if polynomials[k - 1].2 {
            before.push((polynomials[k - 1].1 + "_omega"@, 32nat, false))
        } else {
            before
        }
    }
}

/// The commitments to the wires as elements of a round.
pub open spec fn wire_entries(composer_type: ComposerType) -> Seq<(Seq<char>, nat, bool)> {
    match composer_type {
        ComposerType::Standard => seq![("W_1"@, 64nat, false), ("W_2"@, 64nat, false), ("W_3"@, 64nat, false)],
        ComposerType::Turbo => seq![
            ("W_1"@, 64nat, false),
            ("W_2"@, 64nat, false),
            ("W_3"@, 64nat, false),
            ("W_4"@, 64nat, false),
        ],
        ComposerType::Plookup => seq![
            ("W_1"@, 64nat, false),
            ("W_2"@, 64nat, false),
            ("W_3"@, 64nat, false),
            ("W_4"@, 64nat, false),
            ("S"@, 64nat, false),
        ],
    }
}

/// The commitments to the grand products as elements of a round.
pub open spec fn product_entries(composer_type: ComposerType) -> Seq<(Seq<char>, nat, bool)> {
    match composer_type {
        ComposerType::Plookup => seq![("Z_PERM"@, 64nat, false), ("Z_LOOKUP"@, 64nat, false)],
        _ => seq![("Z_PERM"@, 64nat, false)],
    }
}

/// The commitments to the parts of the quotient as elements of a round.
pub open spec fn quotient_entries(width: nat) -> Seq<(Seq<char>, nat, bool)> {
    if width == 3 {
        seq![("T_1"@, 64nat, false), ("T_2"@, 64nat, false), ("T_3"@, 64nat, false)]
    } else {
        seq![
            ("T_1"@, 64nat, false),
            ("T_2"@, 64nat, false),
            ("T_3"@, 64nat, false),
            ("T_4"@, 64nat, false),
        ]
    }
}

/// The manifest of a variant for a number of public inputs: the sizes, then
/// the public inputs and wires, the two permutation challenges, the grand
/// products, the quotient, the evaluations, and the opening proofs.
pub open spec fn spec_manifest(settings: Settings, num_public_inputs: nat) -> Seq<
    (Seq<char>, nat, Seq<(Seq<char>, nat, bool)>),
> {
    let composer_type = settings.spec_composer_type();
    let polynomials = spec_polynomials(composer_type);
    let evaluations = seq![("t"@, 32nat, true)] + evaluation_entries(polynomials) + shifted_entries(
        polynomials,
        polynomials.len(),
    );
    seq![
        ("init"@, 1nat, seq![("circuit_size"@, 4nat, true), ("public_input_size"@, 4nat, true)]),
        (
            "eta"@,
            1nat,
            seq![("public_inputs"@, 32 * num_public_inputs, false)] + wire_entries(composer_type),
        ),
        ("beta"@, 2nat, Seq::empty()),
        ("alpha"@, 1nat, product_entries(composer_type)),
        ("z"@, 1nat, quotient_entries(settings.spec_program_width())),
        ("nu"@, evaluations.len(), evaluations),
        ("separator"@, 1nat, seq![("PI_Z"@, 64nat, false), ("PI_Z_OMEGA"@, 64nat, false)]),
    ]
}

/// The elements with the given names, of 64 bytes each, that the prover
/// supplies.
fn point_entries(names: &[&str]) -> (r: Vec<ManifestEntry>)
    ensures
        crate::manifest::entries_view(r@) == Seq::new(
            names@.len(),
            |i: int| (names@[i]@, 64nat, false),
        ),
{
    let mut out: Vec<ManifestEntry> = Vec::new();
    let mut i: usize = 0;
    while i < names.len()
        invariant
            i <= names@.len(),
            out@.len() == i,
            forall|k: int|
                0 <= k < i ==> (#[trigger] out@[k]).name@ == names@[k]@ && out@[k].num_bytes == 64
                    && !out@[k].derived_by_verifier,
        decreases names@.len() - i,
    {
        out.push(ManifestEntry::new(names[i], 64, false));
        i = i + 1;
    }
    proof {
        assert(crate::manifest::entries_view(out@) =~= Seq::new(
            names@.len(),
            |i: int| (names@[i]@, 64nat, false),
        ));
    }
    out
}

impl Settings {
    /// The manifest of the variant for a number of public inputs.
    pub fn create_manifest(self, num_public_inputs: usize) -> (r: Manifest)
        requires
            32 * num_public_inputs <= usize::MAX,
        ensures
            r@ == spec_manifest(self, num_public_inputs as nat),
    {
        let composer_type = self.composer_type();
        let polynomials = polynomial_manifest(composer_type);
        let ghost pv = polynomials@;
        // the sizes
        let mut sizes: Vec<ManifestEntry> = Vec::new();
        sizes.push(ManifestEntry::new("circuit_size", 4, true));
        sizes.push(ManifestEntry::new("public_input_size", 4, true));
        // the public inputs and the wires
        let mut wires: Vec<ManifestEntry> = Vec::new();
        wires.push(ManifestEntry::new("public_inputs", 32 * num_public_inputs, false));
        let mut wire_points = match composer_type {
            ComposerType::Standard => point_entries(&["W_1", "W_2", "W_3"]),
            ComposerType::Turbo => point_entries(&["W_1", "W_2", "W_3", "W_4"]),
            ComposerType::Plookup => point_entries(&["W_1", "W_2", "W_3", "W_4", "S"]),
        };
        let ghost wire_view = crate::manifest::entries_view(wire_points@);
        let ghost first = wires@;
        let ghost rest = wire_points@;
        wires.append(&mut wire_points);
        // the grand products
        let products = match composer_type {
            ComposerType::Plookup => point_entries(&["Z_PERM", "Z_LOOKUP"]),
            _ => point_entries(&["Z_PERM"]),
        };
        // the quotient
        let quotient = if self.program_width() == 3 {
            point_entries(&["T_1", "T_2", "T_3"])
        } else {
            point_entries(&["T_1", "T_2", "T_3", "T_4"])
        };
        // the evaluations
        let mut evaluations: Vec<ManifestEntry> = Vec::new();
        evaluations.push(ManifestEntry::new("t", 32, true));
        let mut i: usize = 0;
        while i < polynomials.entries.len()
            invariant
                i <= polynomials.entries@.len(),
                pv == polynomials@,
                evaluations@.len() == 1 + i,
                crate::manifest::entries_view(evaluations@) == seq![("t"@, 32nat, true)]
                    + evaluation_entries(pv).take(i as int),
            decreases polynomials.entries@.len() - i,
        {
            let label = polynomials.entries[i].polynomial_label.as_str();
            let entry = ManifestEntry::new(label, 32, false);
            proof {
                assert(pv[i as int].1 == label@);
                crate::manifest::lemma_entries_view_push(evaluations@, entry);
                assert((seq![("t"@, 32nat, true)] + evaluation_entries(pv).take(i as int)).push(
                    (label@, 32nat, false),
                ) =~= seq![("t"@, 32nat, true)] + evaluation_entries(pv).take(i + 1));
            }
            evaluations.push(entry);
            i = i + 1;
        }
        proof {
            assert(evaluation_entries(pv).take(i as int) =~= evaluation_entries(pv));
        }
        let ghost head = crate::manifest::entries_view(evaluations@);
        let mut k: usize = 0;
        while k < polynomials.entries.len()
            invariant
                k <= polynomials.entries@.len(),
                pv == polynomials@,
                head == seq![("t"@, 32nat, true)] + evaluation_entries(pv),
                crate::manifest::entries_view(evaluations@) == head + shifted_entries(pv, k as nat),
            decreases polynomials.entries@.len() - k,
        {
            if polynomials.entries[k].requires_shifted_evaluation {
                let label = polynomials.entries[k].polynomial_label.clone().concat("_omega");
                let entry = ManifestEntry { name: label, num_bytes: 32, derived_by_verifier: false };
                proof {
                    assert(pv[k as int].2);
                    assert(pv[k as int].1 + "_omega"@ == label@);
                    crate::manifest::lemma_entries_view_push(evaluations@, entry);
                    assert((head + shifted_entries(pv, k as nat)).push((label@, 32nat, false))
                        =~= head + shifted_entries(pv, (k + 1) as nat));
                }
                evaluations.push(entry);
            } else {
                proof {
                    assert(!pv[k as int].2);
                }
            }
            k = k + 1;
        }
        let count = evaluations.len();
        let mut openings: Vec<ManifestEntry> = Vec::new();
        openings.push(ManifestEntry::new("PI_Z", 64, false));
        openings.push(ManifestEntry::new("PI_Z_OMEGA", 64, false));
        let mut rounds: Vec<RoundManifest> = Vec::new();
        rounds.push(RoundManifest::new(sizes, "init", 1));
        rounds.push(RoundManifest::new(wires, "eta", 1));
        rounds.push(RoundManifest::new(Vec::new(), "beta", 2));
        rounds.push(RoundManifest::new(products, "alpha", 1));
        rounds.push(RoundManifest::new(quotient, "z", 1));
        rounds.push(RoundManifest::new(evaluations, "nu", count));
        rounds.push(RoundManifest::new(openings, "separator", 1));
        let r = Manifest::new(rounds);
        proof {
            reveal(spec_manifest);
            let want = spec_manifest(self, num_public_inputs as nat);
            assert(r@.len() == 7);
            assert(r@[0].2 =~= want[0].2);
            assert(r@[1].2 =~= want[1].2) by {
                assert(crate::manifest::entries_view(first + rest) =~= crate::manifest::entries_view(
                    first,
                ) + crate::manifest::entries_view(rest));
                assert(wire_view =~= wire_entries(composer_type));
            }
            assert(r@[2].2 =~= want[2].2);
            assert(r@[3].2 =~= want[3].2);
            assert(r@[4].2 =~= want[4].2);
            assert(r@[5].2 =~= want[5].2);
            assert(r@[6].2 =~= want[6].2);
            assert(r@ =~= want);
        }
        r
    }
}

} // verus!
