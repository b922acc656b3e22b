//! A counter store over a fixed set of names chosen at construction.
//!
//! Counters wrap around on overflow, matching 64-bit fetch-and-add
//! semantics; touching a name outside the fixed set is an error.

use vstd::prelude::*;

verus! {

/// Error returned when a counter name is not part of the store.
#[derive(Debug, PartialEq, Eq, Structural)]
pub enum MetricsError {
    KeyNotFound,
}

/// Incrementing with 64-bit wrap-around.
pub open spec fn wrap_inc(v: i64) -> i64 {
    if v == i64::MAX {
        i64::MIN
    } else {
        (v + 1) as i64
    }
}

/// Decrementing with 64-bit wrap-around.
pub open spec fn wrap_dec(v: i64) -> i64 {
    if v == i64::MIN {
        i64::MAX
    } else {
        (v - 1) as i64
    }
}

/// A store of named 64-bit counters; the set of names is fixed when
/// the store is created, and each counter starts at zero.
#[derive(Debug)]
pub struct AmapMetrics {
    keys: Vec<String>,
    values: Vec<i64>,
}

impl AmapMetrics {
    /// The counter names, in storage order, without duplicates.
    pub closed spec fn names(&self) -> Seq<Seq<char>> {
        self.keys@.map_values(|s: String| s@)
    }

    /// The counter values, in storage order.
    pub closed spec fn counts(&self) -> Seq<i64> {
        self.values@
    }

    /// One value per name, and no name occurs twice.
    pub open spec fn wf(&self) -> bool {
        &&& self.names().len() == self.counts().len()
        &&& forall|i: int, j: int|
            0 <= i < j < self.names().len() ==> self.names()[i] != self.names()[j]
    }

    /// Whether a counter of this name exists.
    pub open spec fn has_name(&self, k: Seq<char>) -> bool {
        exists|i: int| 0 <= i < self.names().len() && self.names()[i] == k
    }

    /// The storage index of the counter of this name.
    pub open spec fn name_index(&self, k: Seq<char>) -> int {
        choose|i: int| 0 <= i < self.names().len() && self.names()[i] == k
    }

    /// The value of the counter of this name.
    pub open spec fn count_of(&self, k: Seq<char>) -> i64 {
        self.counts()[self.name_index(k)]
    }

    /// The index of the first stored key equal to `k`, if any.
    fn find(&self, k: &String) -> (r: Option<usize>)
        requires
            self.wf(),
        ensures
            match r {
                Some(i) => self.has_name(k@) && i == self.name_index(k@),
                None => !self.has_name(k@),
            },
    {
        let n = self.keys.len();
        for i in 0..n
            invariant
                self.wf(),
                n == self.keys@.len(),
                forall|t: int| 0 <= t < i ==> self.names()[t] != k@,
        {
            if self.keys[i] == *k {
                proof {
                    assert(self.names()[i as int] == self.keys@[i as int]@);
                    assert(self.has_name(k@));
                    let ci = self.name_index(k@);
                    assert(0 <= ci < self.names().len() && self.names()[ci] == k@);
                    if ci != i as int {
                        if ci < i as int {
                            assert(self.names()[ci] != self.names()[i as int]);
                        } else {
                            assert(self.names()[i as int] != self.names()[ci]);
                        }
                        assert(false);
                    }
                }
                return Some(i);
            }
        }
        None
    }

    /// One counter per distinct name, all starting at zero; a name
    /// given twice yields a single counter.
    pub fn new(names: &[&str]) -> (m: AmapMetrics)
        ensures
            m.wf(),
            forall|j: int| 0 <= j < names@.len() ==> m.has_name(#[trigger] names@[j]@),
            forall|k: Seq<char>|
                #[trigger] m.has_name(k) ==> exists|j: int|
                    0 <= j < names@.len() && names@[j]@ == k,
            forall|t: int| 0 <= t < m.counts().len() ==> m.counts()[t] == 0,
    {
        let mut m = AmapMetrics { keys: Vec::new(), values: Vec::new() };
        let n = names.len();
        for j in 0..n
            invariant
                m.wf(),
                n == names@.len(),
                forall|t: int| 0 <= t < j ==> m.has_name(#[trigger] names@[t]@),
                forall|k: Seq<char>|
                    #[trigger] m.has_name(k) ==> exists|t: int|
                        0 <= t < j && names@[t]@ == k,
                forall|t: int| 0 <= t < m.counts().len() ==> m.counts()[t] == 0,
        {
            let ghost before = m;
            let name = names[j].to_owned();
            match m.find(&name) {
                Some(_) => {
                    proof {
                        assert(m.has_name(names@[j as int]@));
                    }
                },
                None => {
                    m.keys.push(name);
                    m.values.push(0);
                    proof {
                        assert(m.names() =~= before.names().push(name@));
                        let last = m.names().len() - 1;
                        assert(m.names()[last] == name@);
                        assert(m.has_name(names@[j as int]@));
                        assert forall|k: Seq<char>| #[trigger] m.has_name(k) implies k == name@
                            || before.has_name(k) by {
                            let i = choose|i: int|
                                0 <= i < m.names().len() && m.names()[i] == k;
                            if i < last {
                                assert(before.names()[i] == k);
                            }
                        }
                        assert forall|k: Seq<char>| #[trigger] before.has_name(k) implies m.has_name(
                            k,
                        ) by {
                            let i = choose|i: int|
                                0 <= i < before.names().len() && before.names()[i] == k;
                            assert(m.names()[i] == k);
                        }
                        assert forall|t: int| 0 <= t <= j implies m.has_name(
                            #[trigger] names@[t]@,
                        ) by {
                            if t < j {
                                assert(before.has_name(names@[t]@));
                            }
                        }
                    }
                },
            }
        }
        m
    }

    /// The value of the named counter, if the name is in the store.
    pub fn get(&self, key: &str) -> (r: Option<i64>)
        requires
            self.wf(),
        ensures
            match r {
                Some(v) => self.has_name(key@) && v == self.count_of(key@),
                None => !self.has_name(key@),
            },
    {
        let k = key.to_owned();
        match self.find(&k) {
            Some(i) => Some(self.values[i]),
            None => None,
        }
    }

    /// Adds one (wrapping) to the named counter; `KeyNotFound` exactly
    /// when the name is not in the store, in which case nothing
    /// changes.
    pub fn inc(&mut self, key: &str) -> (r: Result<(), MetricsError>)
        requires
            old(self).wf(),
        ensures
            final(self).wf(),
            final(self).names() == old(self).names(),
            match r {
                Ok(()) => old(self).has_name(key@) && final(self).counts() == old(
                    self,
                ).counts().update(
                    old(self).name_index(key@),
                    wrap_inc(old(self).count_of(key@)),
                ),
                Err(MetricsError::KeyNotFound) => !old(self).has_name(key@) && final(self).counts()
                    == old(self).counts(),
            },
    {
        let k = key.to_owned();
        match self.find(&k) {
            Some(i) => {
                let v = self.values[i];
                let nv: i64 = if v == i64::MAX {
                    i64::MIN
                } else {
                    v + 1
                };
                self.values[i] = nv;
                Ok(())
            },
            None => Err(MetricsError::KeyNotFound),
        }
    }

    /// Subtracts one (wrapping) from the named counter; `KeyNotFound`
    /// exactly when the name is not in the store, in which case
    /// nothing changes.
    pub fn dsc(&mut self, key: &str) -> (r: Result<(), MetricsError>)
        requires
            old(self).wf(),
        ensures
            final(self).wf(),
            final(self).names() == old(self).names(),
            match r {
                Ok(()) => old(self).has_name(key@) && final(self).counts() == old(
                    self,
                ).counts().update(
                    old(self).name_index(key@),
                    wrap_dec(old(self).count_of(key@)),
                ),
                Err(MetricsError::KeyNotFound) => !old(self).has_name(key@) && final(self).counts()
                    == old(self).counts(),
            },
    {
        let k = key.to_owned();
        match self.find(&k) {
            Some(i) => {
                let v = self.values[i];
                let nv: i64 = if v == i64::MIN {
                    i64::MAX
                } else {
                    v - 1
                };
                self.values[i] = nv;
                Ok(())
            },
            None => Err(MetricsError::KeyNotFound),
        }
    }
}

} // verus!
