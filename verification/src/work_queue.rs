//! Deferred work: commitments and transforms are asked for first and computed together
//! when the queue is drained. Every result is kept under the tag of its
//! item.

use crate::errors::Error;
use crate::fft::{fft, spec_dft};
use crate::field::{fr_modulus, Fr};
use crate::polynomial::Polynomial;
use vstd::arithmetic::power::pow;
use vstd::arithmetic::power2::pow2;
use crate::group::{g1_mul, G1Affine, G1Point};
use crate::group_laws::{all_valid, g1_laws};
use crate::label_map::LabelMap;
use crate::msm::{msm, points_view};
use crate::pippenger::{pippenger, pippenger_sum, PippengerRuntimeState};
use crate::polynomial_store::PolynomialStore;
use crate::reference_string::ProverReferenceString;
use vstd::prelude::*;

verus! {

/// A unit of deferred work.
pub enum Work {
    /// The commitment to `size` coefficients of the polynomial at `handle`,
    /// from `offset` on, against the monomial points of the reference
    /// string, multiplied by `constant`.
    ScalarMultiplication { handle: usize, offset: usize, size: usize, constant: Fr },
    /// The values of the polynomial at `handle`, of `2^log_size`
    /// coefficients, at the powers of `root`, a root of unity of that
    /// order.
    Fft { handle: usize, root: Fr, log_size: usize },
}

/// A unit of deferred work and the tag under which its result is kept.
pub struct WorkItem {
    pub work: Work,
    pub tag: String,
}

/// The pending items, in the order in which they were added, and the
/// results of the items drained so far: the commitments, and the values of
/// the transforms.
pub struct WorkQueue {
    pub items: Vec<WorkItem>,
    pub results: LabelMap<G1Affine>,
    pub fft_results: LabelMap<Polynomial>,
}

/// The coefficients that a map of polynomials stands for.
pub open spec fn polynomials_view(m: Map<Seq<char>, Polynomial>) -> Map<Seq<char>, Seq<int>> {
    m.map_values(|p: Polynomial| p@)
}

/// The points that a map of affine points stands for.
pub open spec fn results_view(m: Map<Seq<char>, G1Affine>) -> Map<Seq<char>, G1Point> {
    m.map_values(|p: G1Affine| p@)
}

/// Whether an item can be computed: its polynomial is in the store, its
/// range lies within the polynomial, and the reference string has a point
/// for every coefficient.
pub open spec fn item_ready(
    item: WorkItem,
    store: PolynomialStore,
    srs: ProverReferenceString,
) -> bool {
    match item.work {
        Work::ScalarMultiplication { handle, offset, size, constant } => {
            &&& handle < store.spec_len()
            &&& offset + size <= store.spec_coefficients(handle as int).len()
        },
        Work::Fft { handle, root, log_size } => {
            &&& handle < store.spec_len()
            &&& log_size <= 28
            &&& store.spec_coefficients(handle as int).len() == pow2(log_size as nat)
            &&& log_size >= 1 ==> pow(root@, pow2((log_size - 1) as nat)) % fr_modulus()
                == fr_modulus() - 1
        },
    }
}

/// Whether the reference string has a point for every coefficient of an
/// item.
pub open spec fn item_covered(item: WorkItem, srs: ProverReferenceString) -> bool {
    match item.work {
        Work::ScalarMultiplication { handle, offset, size, constant } => size
            <= srs.monomials@.len(),
        Work::Fft { handle, root, log_size } => true,
    }
}

/// The coefficients that an item commits to.
pub open spec fn item_scalars(item: WorkItem, store: PolynomialStore) -> Seq<int> {
    match item.work {
        Work::ScalarMultiplication { handle, offset, size, constant } => store.spec_coefficients(
            handle as int,
        ).subrange(offset as int, offset + size),
        Work::Fft { handle, root, log_size } => store.spec_coefficients(handle as int),
    }
}

/// The points that an item commits against.
pub open spec fn item_points(item: WorkItem, srs: ProverReferenceString) -> Seq<G1Point> {
    match item.work {
        Work::ScalarMultiplication { handle, offset, size, constant } => points_view(
            srs.monomials@,
        ).take(size as int),
        Work::Fft { handle, root, log_size } => Seq::empty(),
    }
}

/// The constant of an item.
pub open spec fn item_constant(item: WorkItem) -> int {
    match item.work {
        Work::ScalarMultiplication { handle, offset, size, constant } => constant@,
        Work::Fft { handle, root, log_size } => root@,
    }
}

/// The values that a transform asks for: those of its polynomial at the
/// powers of its root.
pub open spec fn item_values(item: WorkItem, store: PolynomialStore) -> Seq<int> {
    spec_dft(item_scalars(item, store), item_constant(item))
}

/// The result of an item: the bucket-method sum of its coefficients times
/// the monomial points, multiplied by its constant.
pub open spec fn item_result(
    item: WorkItem,
    store: PolynomialStore,
    srs: ProverReferenceString,
) -> G1Point {
    g1_mul(item_constant(item), pippenger_sum(item_scalars(item, store), item_points(item, srs)))
}

/// The commitment that an item asks for: the sum of its coefficients times
/// the monomial points, multiplied by its constant.
pub open spec fn item_commitment(
    item: WorkItem,
    store: PolynomialStore,
    srs: ProverReferenceString,
) -> G1Point {
    g1_mul(item_constant(item), msm(item_scalars(item, store), item_points(item, srs)))
}

/// The values of the transforms among the first `k` items, each put under
/// its tag.
pub open spec fn drained_values(
    before: Map<Seq<char>, Seq<int>>,
    items: Seq<WorkItem>,
    store: PolynomialStore,
    k: nat,
) -> Map<Seq<char>, Seq<int>>
    decreases k,
{
    if k == 0 {
        before
    } else {
        let earlier = drained_values(before, items, store, (k - 1) as nat);
        if items[k - 1].work is Fft {
            earlier.insert(items[k - 1].tag@, item_values(items[k - 1], store))
        } else {
            earlier
        }
    }
}

/// The commitments among the first `k` items, each put under its tag.
pub open spec fn drained(
    before: Map<Seq<char>, G1Point>,
    items: Seq<WorkItem>,
    store: PolynomialStore,
    srs: ProverReferenceString,
    k: nat,
) -> Map<Seq<char>, G1Point>
    decreases k,
{
    if k == 0 {
        before
    } else {
        let earlier = drained(before, items, store, srs, (k - 1) as nat);
        if items[k - 1].work is ScalarMultiplication {
            earlier.insert(items[k - 1].tag@, item_result(items[k - 1], store, srs))
        } else {
            earlier
        }
    }
}

/// The first of the first `k` items that cannot be computed, if there is
/// one, and why: `InvalidInput` where the polynomial or the range is not
/// there, `InsufficientSrs` where the reference string is too short.
pub open spec fn first_failure(
    items: Seq<WorkItem>,
    store: PolynomialStore,
    srs: ProverReferenceString,
    k: nat,
) -> Option<Error>
    decreases k,
{
    if k == 0 {
        None
    } else {
        match first_failure(items, store, srs, (k - 1) as nat) {
            Some(e) => Some(e),
            None => if !item_ready(items[k - 1], store, srs) {
                Some(Error::InvalidInput)
            } else if !item_covered(items[k - 1], srs) {
                Some(Error::InsufficientSrs)
            } else {
                None
            },
        }
    }
}

/// Items behind the first that cannot be computed change nothing about it.
pub proof fn lemma_first_failure_stays(
    items: Seq<WorkItem>,
    store: PolynomialStore,
    srs: ProverReferenceString,
    k: nat,
    n: nat,
)
    requires
        k <= n,
        first_failure(items, store, srs, k) is Some,
    ensures
        first_failure(items, store, srs, n) == first_failure(items, store, srs, k),
    decreases n,
{
    if k < n {
        lemma_first_failure_stays(items, store, srs, k, (n - 1) as nat);
    }
}

impl WorkItem {
    /// The constant is in canonical form.
    pub open spec fn wf(&self) -> bool {
        match self.work {
            Work::ScalarMultiplication { handle, offset, size, constant } => constant.wf(),
            Work::Fft { handle, root, log_size } => root.wf(),
        }
    }
}

impl WorkQueue {
    /// Results have unique tags and canonical values; pending items have
    /// canonical constants.
    pub open spec fn wf(&self) -> bool {
        &&& self.results.wf()
        &&& self.fft_results.wf()
        &&& forall|i: int|
            0 <= i < self.fft_results.values@.len() ==> (#[trigger] self.fft_results.values@[i]).wf()
        &&& forall|i: int|
            0 <= i < self.results.values@.len() ==> (#[trigger] self.results.values@[i]).wf()
        &&& forall|i: int| 0 <= i < self.items@.len() ==> (#[trigger] self.items@[i]).wf()
    }

    /// The queue with nothing pending and no results.
    pub fn new() -> (r: WorkQueue)
        ensures
            r.wf(),
            r.items@.len() == 0,
            r.results@ == Map::<Seq<char>, G1Affine>::empty(),
            r.fft_results@ == Map::<Seq<char>, Polynomial>::empty(),
    {
        WorkQueue { items: Vec::new(), results: LabelMap::new(), fft_results: LabelMap::new() }
    }

    /// Adds an item behind the pending ones.
    pub fn add_to_queue(&mut self, item: WorkItem)
        requires
            old(self).wf(),
            item.wf(),
        ensures
            final(self).wf(),
            final(self).items@ == old(self).items@.push(item),
            final(self).results == old(self).results,
            final(self).fft_results == old(self).fft_results,
    {
        self.items.push(item);
    }

    /// The number of pending items.
    pub fn pending(&self) -> (n: usize)
        ensures
            n == self.items@.len(),
    {
        self.items.len()
    }

    /// The result kept under a tag, if an item with that tag was drained.
    pub fn get_result(&self, tag: &str) -> (r: Option<G1Affine>)
        requires
            self.wf(),
        ensures
            r is Some <==> self.results@.contains_key(tag@),
            r matches Some(p) ==> p.wf() && p == self.results@[tag@],
    {
        match self.results.find(tag) {
            Some(i) => Some(self.results.values[i]),
            None => None,
        }
    }

    /// The values kept under a tag, if a transform with that tag was
    /// drained.
    pub fn get_fft_result(&self, tag: &str) -> (r: Option<&Polynomial>)
        requires
            self.wf(),
        ensures
            r is Some <==> self.fft_results@.contains_key(tag@),
            r matches Some(p) ==> p.wf() && *p == self.fft_results@[tag@],
    {
        match self.fft_results.find(tag) {
            Some(i) => Some(&self.fft_results.values[i]),
            None => None,
        }
    }

    /// Checks that every pending item can be computed.
    fn check_items(&self, store: &PolynomialStore, srs: &ProverReferenceString) -> (r: Result<
        (),
        Error,
    >)
        requires
            self.wf(),
            store.wf(),
        ensures
            r is Ok <==> first_failure(self.items@, *store, *srs, self.items@.len()) is None,
            r matches Err(e) ==> Some(e) == first_failure(
                self.items@,
                *store,
                *srs,
                self.items@.len(),
            ),
    {
        let mut k: usize = 0;
        while k < self.items.len()
            invariant
                k <= self.items@.len(),
                self.wf(),
                store.wf(),
                first_failure(self.items@, *store, *srs, k as nat) is None,
            decreases self.items@.len() - k,
        {
            match &self.items[k].work {
                Work::ScalarMultiplication { handle, offset, size, constant } => {
                    proof {
                        if first_failure(self.items@, *store, *srs, (k + 1) as nat) is Some {
                            lemma_first_failure_stays(
                                self.items@,
                                *store,
                                *srs,
                                (k + 1) as nat,
                                self.items@.len(),
                            );
                        }
                    }
                    if *handle >= store.len() {
                        return Err(Error::InvalidInput);
                    }
                    let length = store.polynomial(*handle).size();
                    if *offset > length || *size > length - *offset {
                        return Err(Error::InvalidInput);
                    }
                    if *size > srs.get_monomial_size() {
                        return Err(Error::InsufficientSrs);
                    }
                },
                Work::Fft { handle, root, log_size } => {
                    proof {
                        if first_failure(self.items@, *store, *srs, (k + 1) as nat) is Some {
                            lemma_first_failure_stays(
                                self.items@,
                                *store,
                                *srs,
                                (k + 1) as nat,
                                self.items@.len(),
                            );
                        }
                    }
                    if *handle >= store.len() || *log_size > 28 {
                        return Err(Error::InvalidInput);
                    }
                    let size = crate::pippenger::bucket_count(*log_size + 1);
                    if store.polynomial(*handle).size() != size {
                        return Err(Error::InvalidInput);
                    }
                    if *log_size >= 1 {
                        let half = crate::pippenger::bucket_count(*log_size);
                        let minus_one = Fr::one().neg();
                        proof {
                            vstd::arithmetic::div_mod::lemma_mod_add_multiples_vanish(
                                -1,
                                fr_modulus(),
                            );
                            vstd::arithmetic::div_mod::lemma_small_mod(
                                (fr_modulus() - 1) as nat,
                                fr_modulus() as nat,
                            );
                        }
                        if !root.pow(half as u64).equals(&minus_one) {
                            return Err(Error::InvalidInput);
                        }
                    }
                },
            }
            k = k + 1;
        }
        Ok(())
    }

    /// Computes every pending item in order, keeps each result under the
    /// item's tag, and leaves nothing pending. Where an item cannot be
    /// computed, nothing is computed and the queue stays as it was.
    pub fn process_queue(
        &mut self,
        store: &PolynomialStore,
        srs: &ProverReferenceString,
        state: &mut PippengerRuntimeState,
    ) -> (r: Result<(), Error>)
        requires
            old(self).wf(),
            store.wf(),
            srs.wf(),
        ensures
            final(self).wf(),
            r is Ok <==> first_failure(old(self).items@, *store, *srs, old(self).items@.len())
                is None,
            r matches Err(e) ==> Some(e) == first_failure(
                old(self).items@,
                *store,
                *srs,
                old(self).items@.len(),
            ) && final(self).items == old(self).items && final(self).results == old(self).results
                && final(self).fft_results == old(self).fft_results,
            r is Ok ==> final(self).items@.len() == 0 && results_view(final(self).results@)
                == drained(
                results_view(old(self).results@),
                old(self).items@,
                *store,
                *srs,
                old(self).items@.len(),
            ) && polynomials_view(final(self).fft_results@) == drained_values(
                polynomials_view(old(self).fft_results@),
                old(self).items@,
                *store,
                old(self).items@.len(),
            ),
            final(state).num_points == old(state).num_points,
    {
        match self.check_items(store, srs) {
            Err(e) => {
                return Err(e);
            },
            Ok(()) => {},
        }
        let ghost items0 = self.items@;
        let ghost before = results_view(self.results@);
        let ghost values_before = polynomials_view(self.fft_results@);
        let mut k: usize = 0;
        while k < self.items.len()
            invariant
                k <= self.items@.len(),
                self.wf(),
                store.wf(),
                srs.wf(),
                self.items@ == items0,
                first_failure(items0, *store, *srs, items0.len()) is None,
                results_view(self.results@) == drained(before, items0, *store, *srs, k as nat),
                polynomials_view(self.fft_results@) == drained_values(
                    values_before,
                    items0,
                    *store,
                    k as nat,
                ),
                state.num_points == old(state).num_points,
            decreases self.items@.len() - k,
        {
            proof {
                lemma_no_failure(items0, *store, *srs, items0.len(), k as int);
            }
            match &self.items[k].work {
                Work::ScalarMultiplication { handle, offset, size, constant } => {
                    let poly = store.polynomial(*handle);
                    let length = poly.size();
                    let coeffs = vstd::slice::slice_subrange(
                        poly.coefficients.as_slice(),
                        *offset,
                        *offset + *size,
                    );
                    let points = vstd::slice::slice_subrange(srs.monomials.as_slice(), 0, *size);
                    proof {
                        assert(crate::polynomial::fr_values(coeffs@) =~= item_scalars(
                            items0[k as int],
                            *store,
                        ));
                        assert(points_view(points@) =~= item_points(items0[k as int], *srs));
                    }
                    let result = match pippenger(coeffs, points, state) {
                        Ok(sum) => sum.mul(constant),
                        Err(_) => G1Affine::identity(),
                    };
                    let ghost prior = self.results@;
                    self.results.insert(self.items[k].tag.as_str(), result);
                    proof {
                        assert(results_view(self.results@) =~= results_view(prior).insert(
                            items0[k as int].tag@,
                            result@,
                        ));
                    }
                },
                Work::Fft { handle, root, log_size } => {
                    let poly = store.polynomial(*handle);
                    let values = fft(poly.coefficients.as_slice(), root, *log_size);
                    let ghost prior = self.fft_results@;
                    let result = Polynomial::from_coefficients(values);
                    self.fft_results.insert(self.items[k].tag.as_str(), result);
                    proof {
                        assert(polynomials_view(self.fft_results@) =~= polynomials_view(
                            prior,
                        ).insert(items0[k as int].tag@, result@));
                    }
                },
            }
            k = k + 1;
        }
        self.items.clear();
        Ok(())
    }
}

/// Where no item fails, every item can be computed.
pub proof fn lemma_no_failure(
    items: Seq<WorkItem>,
    store: PolynomialStore,
    srs: ProverReferenceString,
    n: nat,
    k: int,
)
    requires
        first_failure(items, store, srs, n) is None,
        0 <= k < n,
    ensures
        item_ready(items[k], store, srs),
        item_covered(items[k], srs),
    decreases n,
{
    if k < n - 1 {
        lemma_no_failure(items, store, srs, (n - 1) as nat, k);
    }
}

/// Where the monomial points are on the curve and the curve's addition is
/// a group law, the result of an item that asks for a commitment is the
/// commitment: the sum of the coefficients times the points, added up one
/// by one, multiplied by the constant.
pub proof fn lemma_item_result_is_commitment(
    item: WorkItem,
    store: PolynomialStore,
    srs: ProverReferenceString,
)
    requires
        g1_laws(),
        all_valid(points_view(srs.monomials@)),
        store.wf(),
        item.work is ScalarMultiplication,
        item_ready(item, store, srs),
        item_covered(item, srs),
    ensures
        item_result(item, store, srs) == item_commitment(item, store, srs),
{
    let scalars = item_scalars(item, store);
    let points = item_points(item, srs);
    let handle = item.work->ScalarMultiplication_handle;
    assert forall|i: int| 0 <= i < scalars.len() implies 0 <= #[trigger] scalars[i]
        < fr_modulus() by {
        let p = store.polynomials.values@[handle as int];
        assert(p.wf());
        let k = item.work->ScalarMultiplication_offset + i;
        assert(p.coefficients@[k].wf());
        assert(scalars[i] == p@[k]);
    }
    assert(all_valid(points)) by {
        assert forall|i: int| 0 <= i < points.len() implies crate::group_laws::g1_valid(
            #[trigger] points[i],
        ) by {
            assert(points[i] == points_view(srs.monomials@)[i]);
        }
    }
    crate::pippenger::lemma_pippenger_sum_is_msm(scalars, points);
}

/// Committing to the same coefficients with different constants gives
/// different commitments, where the commitment to the coefficients alone is
/// not the point at infinity, the monomial points are on the curve, and the
/// curve's addition is a group law of prime order.
pub proof fn lemma_different_constants_different_commitments(
    first: WorkItem,
    second: WorkItem,
    store: PolynomialStore,
    srs: ProverReferenceString,
)
    requires
        g1_laws(),
        crate::group_laws::g1_prime_order(),
        all_valid(points_view(srs.monomials@)),
        store.wf(),
        first.work matches Work::ScalarMultiplication { handle, offset, size, constant }
            && second.work matches Work::ScalarMultiplication {
            handle: other_handle,
            offset: other_offset,
            size: other_size,
            constant: other_constant,
        } && handle == other_handle && offset == other_offset && size == other_size
            && constant.wf() && other_constant.wf() && constant@ != other_constant@,
        item_ready(first, store, srs),
        item_covered(first, srs),
        msm(item_scalars(first, store), item_points(first, srs)) != crate::group::g1_identity(),
    ensures
        item_result(first, store, srs) != item_result(second, store, srs),
        item_commitment(first, store, srs) != item_commitment(second, store, srs),
{
    let scalars = item_scalars(first, store);
    let points = item_points(first, srs);
    assert(item_scalars(second, store) == scalars);
    assert(item_points(second, srs) == points);
    lemma_item_result_is_commitment(first, store, srs);
    lemma_item_result_is_commitment(second, store, srs);
    let handle = first.work->ScalarMultiplication_handle;
    assert forall|i: int| 0 <= i < scalars.len() implies 0 <= #[trigger] scalars[i] by {
        let p = store.polynomials.values@[handle as int];
        assert(p.wf());
        let k = first.work->ScalarMultiplication_offset + i;
        assert(p.coefficients@[k].wf());
        assert(scalars[i] == p@[k]);
    }
    assert(all_valid(points)) by {
        assert forall|i: int| 0 <= i < points.len() implies crate::group_laws::g1_valid(
            #[trigger] points[i],
        ) by {
            assert(points[i] == points_view(srs.monomials@)[i]);
        }
    }
    crate::msm::lemma_msm_is_lc(scalars, points);
    crate::group_laws::lemma_lc_valid(points, scalars);
    crate::group_laws::lemma_distinct_multiples(
        item_constant(first),
        item_constant(second),
        msm(scalars, points),
    );
}

/// Committing to the same coefficients with the same constant gives the
/// same commitment, whatever the tags: a queue that holds two such items
/// and nothing else drains to the same point under both tags.
pub proof fn lemma_same_work_same_commitment(
    before: Map<Seq<char>, G1Point>,
    first: WorkItem,
    second: WorkItem,
    store: PolynomialStore,
    srs: ProverReferenceString,
)
    requires
        first.work == second.work,
        first.work is ScalarMultiplication,
    ensures
        item_result(first, store, srs) == item_result(second, store, srs),
        ({
            let results = drained(before, seq![first, second], store, srs, 2);
            results.contains_key(first.tag@) && results.contains_key(second.tag@)
                && results[first.tag@] == results[second.tag@]
        }),
{
    let items = seq![first, second];
    assert(drained(before, items, store, srs, 0) == before);
    assert(drained(before, items, store, srs, 1) == before.insert(
        first.tag@,
        item_result(first, store, srs),
    ));
}

} // verus!
