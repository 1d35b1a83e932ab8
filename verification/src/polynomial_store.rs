//! The polynomials of a proving key under their labels. A polynomial keeps
//! its place for as long as the store lives, so a place is a stable handle.

use crate::label_map::LabelMap;
use crate::polynomial::Polynomial;
use vstd::prelude::*;

verus! {

/// A map from label to polynomial. Putting a polynomial under a label that
/// is taken replaces the polynomial there; nothing is ever removed.
pub struct PolynomialStore {
    pub polynomials: LabelMap<Polynomial>,
}

impl PolynomialStore {
    /// Labels are unique and every polynomial is well formed.
    pub open spec fn wf(&self) -> bool {
        &&& self.polynomials.wf()
        &&& forall|h: int|
            0 <= h < self.polynomials.values@.len() ==> (#[trigger] self.polynomials.values@[h]).wf()
    }

    /// The number of polynomials held.
    pub open spec fn spec_len(&self) -> nat {
        self.polynomials.values@.len()
    }

    /// The coefficients of the polynomial at a handle.
    pub open spec fn spec_coefficients(&self, handle: int) -> Seq<int> {
        self.polynomials.values@[handle]@
    }

    /// Whether a label is taken.
    pub open spec fn spec_contains(&self, label: Seq<char>) -> bool {
        self.polynomials@.contains_key(label)
    }

    /// The coefficients of the polynomial under a label.
    pub open spec fn spec_get(&self, label: Seq<char>) -> Seq<int> {
        self.polynomials@[label]@
    }

    /// The empty store.
    pub fn new() -> (r: PolynomialStore)
        ensures
            r.wf(),
            r.spec_len() == 0,
            forall|label: Seq<char>| !r.spec_contains(label),
    {
        PolynomialStore { polynomials: LabelMap::new() }
    }

    /// Whether labels are unique and every coefficient is canonical.
    pub fn is_well_formed(&self) -> (r: bool)
        ensures
            r == self.wf(),
    {
        if !self.polynomials.is_well_formed() {
            return false;
        }
        let mut h: usize = 0;
        while h < self.polynomials.values.len()
            invariant
                h <= self.polynomials.values@.len(),
                forall|j: int| 0 <= j < h ==> (#[trigger] self.polynomials.values@[j]).wf(),
            decreases self.polynomials.values@.len() - h,
        {
            let coefficients = &self.polynomials.values[h].coefficients;
            let mut k: usize = 0;
            while k < coefficients.len()
                invariant
                    k <= coefficients@.len(),
                    h < self.polynomials.values@.len(),
                    coefficients == &self.polynomials.values@[h as int].coefficients,
                    forall|j: int| 0 <= j < k ==> (#[trigger] coefficients@[j]).wf(),
                decreases coefficients@.len() - k,
            {
                if !coefficients[k].is_canonical() {
                    return false;
                }
                k = k + 1;
            }
            h = h + 1;
        }
        true
    }

    /// The number of polynomials held.
    pub fn len(&self) -> (n: usize)
        requires
            self.wf(),
        ensures
            n == self.spec_len(),
    {
        self.polynomials.values.len()
    }

    /// Puts a polynomial under a label, in place of the one that was there,
    /// and returns its handle. The other polynomials keep theirs.
    pub fn put(&mut self, label: &str, polynomial: Polynomial) -> (handle: usize)
        requires
            old(self).wf(),
            polynomial.wf(),
        ensures
            final(self).wf(),
            final(self).polynomials@ == old(self).polynomials@.insert(label@, polynomial),
            handle < final(self).spec_len(),
            final(self).polynomials.values@[handle as int] == polynomial,
            final(self).polynomials.keys@[handle as int]@ == label@,
            old(self).spec_contains(label@) ==> final(self).spec_len() == old(self).spec_len(),
            !old(self).spec_contains(label@) ==> handle == old(self).spec_len()
                && final(self).spec_len() == handle + 1,
            forall|h: int|
                0 <= h < old(self).spec_len() && h != handle ==> final(self).polynomials.values@[h]
                    == old(self).polynomials.values@[h],
            forall|h: int|
                0 <= h < old(self).spec_len() ==> final(self).polynomials.keys@[h] == old(
                    self,
                ).polynomials.keys@[h],
    {
        let h = self.polynomials.insert(label, polynomial);
        proof {
            if !old(self).spec_contains(label@) {
                assert forall|k: int| 0 <= k < old(self).spec_len() implies self.polynomials.keys@[k]
                    == old(self).polynomials.keys@[k] by {
                    assert(self.polynomials.keys@.take(h as int)[k] == self.polynomials.keys@[k]);
                }
            }
        }
        h
    }

    /// The handle of the polynomial under a label.
    pub fn handle_of(&self, label: &str) -> (r: Option<usize>)
        requires
            self.wf(),
        ensures
            r is Some <==> self.spec_contains(label@),
            r matches Some(h) ==> h < self.spec_len() && self.polynomials.values@[h as int]
                == self.polynomials@[label@],
    {
        self.polynomials.find(label)
    }

    /// The polynomial under a label.
    pub fn get(&self, label: &str) -> (r: Option<&Polynomial>)
        requires
            self.wf(),
        ensures
            r is Some <==> self.spec_contains(label@),
            r matches Some(p) ==> p.wf() && *p == self.polynomials@[label@],
    {
        match self.polynomials.find(label) {
            Some(h) => Some(&self.polynomials.values[h]),
            None => None,
        }
    }

    /// The polynomial at a handle.
    pub fn polynomial(&self, handle: usize) -> (p: &Polynomial)
        requires
            self.wf(),
            handle < self.spec_len(),
        ensures
            p.wf(),
            *p == self.polynomials.values@[handle as int],
    {
        &self.polynomials.values[handle]
    }
}

} // verus!
