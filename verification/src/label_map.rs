//! A map from string labels to values that keeps its entries in the order
//! in which their labels were first inserted.

use vstd::prelude::*;

verus! {

/// The map that the first `n` entries of two parallel sequences spell, a
/// later entry taking the place of an earlier one with the same label.
pub open spec fn entries_map<T>(keys: Seq<String>, values: Seq<T>, n: nat) -> Map<Seq<char>, T>
    decreases n,
{
    if n == 0 {
        Map::empty()
    } else {
        entries_map(keys, values, (n - 1) as nat).insert(keys[n - 1]@, values[n - 1])
    }
}

/// No label occurs twice.
pub open spec fn distinct_keys(keys: Seq<String>) -> bool {
    forall|i: int, j: int| 0 <= i < j < keys.len() ==> keys[i]@ != keys[j]@
}

/// The labels of `entries_map` are those of the entries.
pub proof fn lemma_entries_map_domain<T>(keys: Seq<String>, values: Seq<T>, n: nat, k: Seq<char>)
    requires
        n <= keys.len(),
        n <= values.len(),
    ensures
        entries_map(keys, values, n).contains_key(k) <==> exists|i: int|
            0 <= i < n && #[trigger] keys[i]@ == k,
    decreases n,
{
    if n > 0 {
        lemma_entries_map_domain(keys, values, (n - 1) as nat, k);
        if entries_map(keys, values, n).contains_key(k) {
            if keys[n - 1]@ == k {
            } else {
                let i = choose|i: int| 0 <= i < n - 1 && #[trigger] keys[i]@ == k;
                assert(0 <= i < n && keys[i]@ == k);
            }
        }
    }
}

/// Where labels are distinct, `entries_map` sends each label to the value
/// beside it.
pub proof fn lemma_entries_map_value<T>(keys: Seq<String>, values: Seq<T>, n: nat, i: int)
    requires
        n <= keys.len(),
        n <= values.len(),
        distinct_keys(keys),
        0 <= i < n,
    ensures
        entries_map(keys, values, n).contains_key(keys[i]@),
        entries_map(keys, values, n)[keys[i]@] == values[i],
    decreases n,
{
    if i < n - 1 {
        lemma_entries_map_value(keys, values, (n - 1) as nat, i);
    }
}

/// `entries_map` reads only the first `n` entries.
pub proof fn lemma_entries_map_prefix<T>(
    keys: Seq<String>,
    values: Seq<T>,
    keys2: Seq<String>,
    values2: Seq<T>,
    n: nat,
)
    requires
        n <= keys.len(),
        n <= values.len(),
        n <= keys2.len(),
        n <= values2.len(),
        forall|i: int| 0 <= i < n ==> keys[i] == keys2[i] && values[i] == values2[i],
    ensures
        entries_map(keys, values, n) == entries_map(keys2, values2, n),
    decreases n,
{
    if n > 0 {
        lemma_entries_map_prefix(keys, values, keys2, values2, (n - 1) as nat);
    }
}

/// Replacing the value beside a label is inserting under that label.
pub proof fn lemma_entries_map_update<T>(keys: Seq<String>, values: Seq<T>, n: nat, i: int, v: T)
    requires
        n <= keys.len(),
        n <= values.len(),
        distinct_keys(keys),
        0 <= i < n,
    ensures
        entries_map(keys, values.update(i, v), n) == entries_map(keys, values, n).insert(
            keys[i]@,
            v,
        ),
    decreases n,
{
    let m = (n - 1) as nat;
    if i == n - 1 {
        lemma_entries_map_prefix(keys, values, keys, values.update(i, v), m);
        assert(entries_map(keys, values.update(i, v), n) =~= entries_map(keys, values, n).insert(
            keys[i]@,
            v,
        ));
    } else {
        lemma_entries_map_update(keys, values, m, i, v);
        assert(entries_map(keys, values.update(i, v), n) =~= entries_map(keys, values, n).insert(
            keys[i]@,
            v,
        ));
    }
}

/// A map from string labels to values.
pub struct LabelMap<T> {
    pub keys: Vec<String>,
    pub values: Vec<T>,
}

impl<T> View for LabelMap<T> {
    type V = Map<Seq<char>, T>;

    open spec fn view(&self) -> Map<Seq<char>, T> {
        entries_map(self.keys@, self.values@, self.keys@.len())
    }
}

impl<T> LabelMap<T> {
    /// One value beside each label, and no label twice.
    pub open spec fn wf(&self) -> bool {
        &&& self.keys@.len() == self.values@.len()
        &&& distinct_keys(self.keys@)
    }

    /// The position of a label among the entries, if it is there.
    pub open spec fn position(&self, key: Seq<char>) -> Option<int> {
        if exists|i: int| 0 <= i < self.keys@.len() && #[trigger] self.keys@[i]@ == key {
            Some(choose|i: int| 0 <= i < self.keys@.len() && #[trigger] self.keys@[i]@ == key)
        } else {
            None
        }
    }

    /// The empty map.
    pub fn new() -> (r: LabelMap<T>)
        ensures
            r.wf(),
            r@ == Map::<Seq<char>, T>::empty(),
            r.keys@.len() == 0,
    {
        LabelMap { keys: Vec::new(), values: Vec::new() }
    }

    /// The number of entries.
    pub fn len(&self) -> (n: usize)
        requires
            self.wf(),
        ensures
            n == self.keys@.len(),
    {
        self.keys.len()
    }

    /// Whether there is one value beside each label and no label twice.
    pub fn is_well_formed(&self) -> (r: bool)
        ensures
            r == self.wf(),
    {
        if self.keys.len() != self.values.len() {
            return false;
        }
        let mut j: usize = 0;
        while j < self.keys.len()
            invariant
                j <= self.keys@.len(),
                forall|a: int, b: int| 0 <= a < b < j ==> self.keys@[a]@ != self.keys@[b]@,
            decreases self.keys@.len() - j,
        {
            let mut i: usize = 0;
            while i < j
                invariant
                    i <= j < self.keys@.len(),
                    forall|a: int| 0 <= a < i ==> self.keys@[a]@ != self.keys@[j as int]@,
                decreases j - i,
            {
                if self.keys[i] == self.keys[j] {
                    return false;
                }
                i = i + 1;
            }
            j = j + 1;
        }
        true
    }

    /// The position of the entry with the given label.
    pub fn find(&self, key: &str) -> (r: Option<usize>)
        requires
            self.wf(),
        ensures
            r is Some <==> self@.contains_key(key@),
            r matches Some(i) ==> i < self.keys@.len() && self.keys@[i as int]@ == key@
                && self@[key@] == self.values@[i as int],
    {
        let wanted = key.to_owned();
        let mut i: usize = 0;
        while i < self.keys.len()
            invariant
                self.wf(),
                wanted@ == key@,
                i <= self.keys@.len(),
                forall|j: int| 0 <= j < i ==> (#[trigger] self.keys@[j])@ != key@,
            decreases self.keys@.len() - i,
        {
            if self.keys[i] == wanted {
                proof {
                    lemma_entries_map_value(self.keys@, self.values@, self.keys@.len(), i as int);
                }
                return Some(i);
            }
            i = i + 1;
        }
        proof {
            lemma_entries_map_domain(self.keys@, self.values@, self.keys@.len(), key@);
        }
        None
    }

    /// Whether the map holds the label.
    pub fn contains(&self, key: &str) -> (r: bool)
        requires
            self.wf(),
        ensures
            r == self@.contains_key(key@),
    {
        self.find(key).is_some()
    }

    /// The value under the label, if the map holds it.
    pub fn get(&self, key: &str) -> (r: Option<&T>)
        requires
            self.wf(),
        ensures
            r is Some <==> self@.contains_key(key@),
            r matches Some(v) ==> *v == self@[key@],
    {
        match self.find(key) {
            Some(i) => Some(&self.values[i]),
            None => None,
        }
    }

    /// Puts a value under a label, in place of the value that was there, and
    /// returns the position of the entry. The positions of the other
    /// entries stay.
    pub fn insert(&mut self, key: &str, value: T) -> (i: usize)
        requires
            old(self).wf(),
        ensures
            final(self).wf(),
            final(self)@ == old(self)@.insert(key@, value),
            i < final(self).keys@.len(),
            final(self).keys@[i as int]@ == key@,
            final(self).values@ == if old(self)@.contains_key(key@) {
                old(self).values@.update(i as int, value)
            } else {
                old(self).values@.push(value)
            },
            old(self)@.contains_key(key@) ==> final(self).keys@ == old(self).keys@,
            !old(self)@.contains_key(key@) ==> i == old(self).keys@.len() && final(self).keys@.len()
                == i + 1 && final(self).keys@.take(i as int) == old(self).keys@,
    {
        match self.find(key) {
            Some(i) => {
                proof {
                    lemma_entries_map_update(
                        self.keys@,
                        self.values@,
                        self.keys@.len(),
                        i as int,
                        value,
                    );
                }
                self.values[i] = value;
                i
            },
            None => {
                let i = self.keys.len();
                proof {
                    lemma_entries_map_domain(self.keys@, self.values@, self.keys@.len(), key@);
                }
                let owned = key.to_owned();
                self.keys.push(owned);
                self.values.push(value);
                proof {
                    lemma_entries_map_prefix(
                        old(self).keys@,
                        old(self).values@,
                        self.keys@,
                        self.values@,
                        old(self).keys@.len(),
                    );
                    assert(self.keys@.take(i as int) =~= old(self).keys@);
                }
                i
            },
        }
    }
}

impl<T: Copy> LabelMap<T> {
    /// A copy of the map.
    pub fn duplicate(&self) -> (r: LabelMap<T>)
        requires
            self.wf(),
        ensures
            r.wf(),
            r@ == self@,
            r.values@ == self.values@,
            r.keys@ == self.keys@,
    {
        let mut keys: Vec<String> = Vec::new();
        let mut i: usize = 0;
        while i < self.keys.len()
            invariant
                i <= self.keys@.len(),
                keys@ == self.keys@.take(i as int),
            decreases self.keys@.len() - i,
        {
            keys.push(self.keys[i].clone());
            proof {
                assert(keys@ =~= self.keys@.take(i + 1));
            }
            i = i + 1;
        }
        proof {
            assert(self.keys@.take(i as int) =~= self.keys@);
        }
        LabelMap { keys, values: vstd::slice::slice_to_vec(self.values.as_slice()) }
    }
}

} // verus!
