//! Sparse per-trial observables: defect measurements, detected erasures,
//! error patterns and corrections. Each is an ordered collection keyed by
//! `Position` in ascending lexicographic order, backed by a sorted vector.

use vstd::prelude::*;

use crate::pauli::ErrorType;
use crate::pauli::pauli_mul;
use crate::position::Position;
use crate::position::pos_lt;

verus! {

/// Whether a sequence of positions is strictly ascending.
pub open spec fn positions_sorted(s: Seq<Position>) -> bool {
    forall|k: int, l: int| 0 <= k < l < s.len() ==> pos_lt(s[k], s[l])
}

/// Whether a sequence of keyed entries has strictly ascending keys.
pub open spec fn entries_sorted(s: Seq<(Position, ErrorType)>) -> bool {
    forall|k: int, l: int| 0 <= k < l < s.len() ==> pos_lt(s[k].0, s[l].0)
}

/// Whether some entry of `s` carries the key `p`.
pub open spec fn has_key(s: Seq<(Position, ErrorType)>, p: Position) -> bool {
    exists|k: int| 0 <= k < s.len() && s[k].0 == p
}

/// The index of the entry carrying key `p` (meaningful when `has_key` holds
/// and keys are distinct).
pub open spec fn index_of_key(s: Seq<(Position, ErrorType)>, p: Position) -> int {
    choose|k: int| 0 <= k < s.len() && s[k].0 == p
}

/// The value stored under key `p` (meaningful when `has_key` holds).
pub open spec fn value_of_key(s: Seq<(Position, ErrorType)>, p: Position) -> ErrorType {
    s[index_of_key(s, p)].1
}

/// The set of defect measurements of one trial, in ascending position order.
#[derive(Debug, Clone)]
pub struct SparseMeasurement {
    defects: Vec<Position>,
}

impl View for SparseMeasurement {
    type V = Seq<Position>;

    closed spec fn view(&self) -> Seq<Position> {
        self.defects@
    }
}

impl SparseMeasurement {
    /// The positions are strictly ascending, so each defect appears once.
    pub open spec fn wf(&self) -> bool {
        positions_sorted(self@)
    }

    /// Create an empty defect set.
    pub fn new() -> (r: Self)
        ensures
            r@ == Seq::<Position>::empty(),
            r.wf(),
    {
        Self { defects: Vec::new() }
    }

    /// Build a defect set from an already ascending vector of positions.
    pub fn new_set(defects: Vec<Position>) -> (r: Self)
        requires
            positions_sorted(defects@),
        ensures
            r@ == defects@,
            r.wf(),
    {
        Self { defects }
    }

    /// The number of defects.
    pub fn len(&self) -> (r: usize)
        ensures
            r == self@.len(),
    {
        self.defects.len()
    }

    /// Whether `position` is recorded as a defect.
    pub fn contains(&self, position: &Position) -> (r: bool)
        ensures
            r == self@.contains(*position),
    {
        let n = self.defects.len();
        let mut k: usize = 0;
        while k < n
            invariant
                n == self@.len(),
                k <= n,
                forall|l: int| 0 <= l < k ==> self@[l] != *position,
            decreases n - k,
        {
            if self.defects[k].t == position.t && self.defects[k].i == position.i
                && self.defects[k].j == position.j {
                assert(self@[k as int] == *position);
                return true;
            }
            k += 1;
        }
        false
    }

    /// Record a defect measurement; returns `false` when it was already
    /// present. All other defects are unchanged.
    pub fn insert_defect_measurement(&mut self, position: &Position) -> (r: bool)
        requires
            old(self).wf(),
        ensures
            final(self).wf(),
            r == !old(self)@.contains(*position),
            final(self)@.contains(*position),
            forall|q: Position|
                q != *position ==> final(self)@.contains(q) == old(self)@.contains(q),
            final(self)@.len() == old(self)@.len() + (if old(self)@.contains(*position) {
                0int
            } else {
                1int
            }),
    {
        let n = self.defects.len();
        let mut idx: usize = 0;
        while idx < n && self.defects[idx].lt(position)
            invariant
                n == self@.len(),
                idx <= n,
                forall|l: int| 0 <= l < idx ==> pos_lt(self@[l], *position),
            decreases n - idx,
        {
            idx += 1;
        }
        if idx < n && self.defects[idx].t == position.t && self.defects[idx].i == position.i
            && self.defects[idx].j == position.j {
            assert(self@[idx as int] == *position);
            return false;
        }
        assert forall|l: int| idx <= l < self@.len() implies pos_lt(*position, self@[l]) by {
            assert(!pos_lt(self@[idx as int], *position));
            assert(self@[idx as int] != *position);
            if l > idx {
                assert(pos_lt(self@[idx as int], self@[l]));
            }
        }
        assert(!self@.contains(*position)) by {
            if self@.contains(*position) {
                let k = choose|k: int| 0 <= k < self@.len() && self@[k] == *position;
                assert(pos_lt(*position, *position) || pos_lt(*position, *position));
            }
        }
        self.defects.insert(idx, *position);
        assert(self@[idx as int] == *position);
        assert(self@.contains(*position));
        assert forall|q: Position| q != *position implies self@.contains(q) == old(
            self,
        )@.contains(q) by {
            if old(self)@.contains(q) {
                let k = choose|k: int| 0 <= k < old(self)@.len() && old(self)@[k] == q;
                if k < idx {
                    assert(self@[k] == q);
                } else {
                    assert(self@[k + 1] == q);
                }
            }
            if self@.contains(q) {
                let k = choose|k: int| 0 <= k < self@.len() && self@[k] == q;
                if k < idx {
                    assert(old(self)@[k] == q);
                } else {
                    assert(old(self)@[k - 1] == q);
                }
            }
        }
        true
    }

    /// Build a defect set from a vector of distinct positions in any order.
    pub fn from_vec(defects: &Vec<Position>) -> (r: Self)
        ensures
            r.wf(),
            forall|q: Position| r@.contains(q) == defects@.contains(q),
    {
        let mut sparse_measurement = Self::new();
        let n = defects.len();
        let mut k: usize = 0;
        while k < n
            invariant
                n == defects@.len(),
                k <= n,
                sparse_measurement.wf(),
                forall|q: Position|
                    sparse_measurement@.contains(q) == defects@.subrange(0, k as int).contains(q),
            decreases n - k,
        {
            let ghost prefix = defects@.subrange(0, k as int);
            sparse_measurement.insert_defect_measurement(&defects[k]);
            proof {
                let next = defects@.subrange(0, k as int + 1);
                assert(next.drop_last() =~= prefix);
                assert(next.last() == defects@[k as int]);
                assert forall|q: Position| sparse_measurement@.contains(q) == next.contains(
                    q,
                ) by {
                    if next.contains(q) {
                        let l = choose|l: int| 0 <= l < next.len() && next[l] == q;
                        if l < k as int {
                            assert(prefix[l] == q);
                        }
                    }
                    if prefix.contains(q) {
                        let l = choose|l: int| 0 <= l < prefix.len() && prefix[l] == q;
                        assert(next[l] == q);
                    }
                }
            }
            k += 1;
        }
        proof {
            assert(defects@.subrange(0, n as int) =~= defects@);
        }
        sparse_measurement
    }

    /// The defects as a vector in ascending order.
    pub fn to_vec(&self) -> (r: Vec<Position>)
        ensures
            r@ == self@,
    {
        let mut out: Vec<Position> = Vec::new();
        let n = self.defects.len();
        let mut k: usize = 0;
        while k < n
            invariant
                n == self@.len(),
                k <= n,
                out@ == self@.subrange(0, k as int),
            decreases n - k,
        {
            out.push(self.defects[k]);
            proof {
                assert(out@ =~= self@.subrange(0, k as int + 1));
            }
            k += 1;
        }
        proof {
            assert(self@.subrange(0, n as int) =~= self@);
        }
        out
    }
}

/// The set of cells erased in one trial, in ascending position order.
#[derive(Debug, Clone)]
pub struct SparseErasures {
    erasures: Vec<Position>,
}

impl View for SparseErasures {
    type V = Seq<Position>;

    closed spec fn view(&self) -> Seq<Position> {
        self.erasures@
    }
}

impl SparseErasures {
    /// The positions are strictly ascending, so each erasure appears once.
    pub open spec fn wf(&self) -> bool {
        positions_sorted(self@)
    }

    /// Create an empty erasure set.
    pub fn new() -> (r: Self)
        ensures
            r@ == Seq::<Position>::empty(),
            r.wf(),
    {
        Self { erasures: Vec::new() }
    }

    /// The number of erased cells.
    pub fn len(&self) -> (r: usize)
        ensures
            r == self@.len(),
    {
        self.erasures.len()
    }

    /// Whether `key` is recorded as erased.
    pub fn contains(&self, key: &Position) -> (r: bool)
        ensures
            r == self@.contains(*key),
    {
        let n = self.erasures.len();
        let mut k: usize = 0;
        while k < n
            invariant
                n == self@.len(),
                k <= n,
                forall|l: int| 0 <= l < k ==> self@[l] != *key,
            decreases n - k,
        {
            if self.erasures[k].t == key.t && self.erasures[k].i == key.i && self.erasures[k].j
                == key.j {
                assert(self@[k as int] == *key);
                return true;
            }
            k += 1;
        }
        false
    }

    /// Record an erasure; returns `false` when it was already present. All
    /// other erasures are unchanged.
    pub fn insert_erasure(&mut self, position: &Position) -> (r: bool)
        requires
            old(self).wf(),
        ensures
            final(self).wf(),
            r == !old(self)@.contains(*position),
            final(self)@.contains(*position),
            forall|q: Position|
                q != *position ==> final(self)@.contains(q) == old(self)@.contains(q),
            final(self)@.len() == old(self)@.len() + (if old(self)@.contains(*position) {
                0int
            } else {
                1int
            }),
    {
        let n = self.erasures.len();
        let mut idx: usize = 0;
        while idx < n && self.erasures[idx].lt(position)
            invariant
                n == self@.len(),
                idx <= n,
                forall|l: int| 0 <= l < idx ==> pos_lt(self@[l], *position),
            decreases n - idx,
        {
            idx += 1;
        }
        if idx < n && self.erasures[idx].t == position.t && self.erasures[idx].i == position.i
            && self.erasures[idx].j == position.j {
            assert(self@[idx as int] == *position);
            return false;
        }
        assert forall|l: int| idx <= l < self@.len() implies pos_lt(*position, self@[l]) by {
            assert(!pos_lt(self@[idx as int], *position));
            assert(self@[idx as int] != *position);
            if l > idx {
                assert(pos_lt(self@[idx as int], self@[l]));
            }
        }
        assert(!self@.contains(*position)) by {
            if self@.contains(*position) {
                let k = choose|k: int| 0 <= k < self@.len() && self@[k] == *position;
                assert(pos_lt(*position, *position) || pos_lt(*position, *position));
            }
        }
        self.erasures.insert(idx, *position);
        assert(self@[idx as int] == *position);
        assert(self@.contains(*position));
        assert forall|q: Position| q != *position implies self@.contains(q) == old(
            self,
        )@.contains(q) by {
            if old(self)@.contains(q) {
                let k = choose|k: int| 0 <= k < old(self)@.len() && old(self)@[k] == q;
                if k < idx {
                    assert(self@[k] == q);
                } else {
                    assert(self@[k + 1] == q);
                }
            }
            if self@.contains(q) {
                let k = choose|k: int| 0 <= k < self@.len() && self@[k] == q;
                if k < idx {
                    assert(old(self)@[k] == q);
                } else {
                    assert(old(self)@[k - 1] == q);
                }
            }
        }
        true
    }

    /// The erased positions as a vector in ascending order.
    pub fn to_vec(&self) -> (r: Vec<Position>)
        ensures
            r@ == self@,
    {
        let mut out: Vec<Position> = Vec::new();
        let n = self.erasures.len();
        let mut k: usize = 0;
        while k < n
            invariant
                n == self@.len(),
                k <= n,
                out@ == self@.subrange(0, k as int),
            decreases n - k,
        {
            out.push(self.erasures[k]);
            proof {
                assert(out@ =~= self@.subrange(0, k as int + 1));
            }
            k += 1;
        }
        proof {
            assert(self@.subrange(0, n as int) =~= self@);
        }
        out
    }
}

/// A sparse Pauli error pattern: an ordered map from positions to non-trivial
/// Pauli operators, in ascending key order.
#[derive(Debug, Clone)]
pub struct SparseErrorPattern {
    errors: Vec<(Position, ErrorType)>,
}

impl View for SparseErrorPattern {
    type V = Seq<(Position, ErrorType)>;

    closed spec fn view(&self) -> Seq<(Position, ErrorType)> {
        self.errors@
    }
}

impl SparseErrorPattern {
    /// The keys are strictly ascending, so each key appears once.
    pub open spec fn wf(&self) -> bool {
        entries_sorted(self@)
    }

    /// Create an empty error pattern.
    pub fn new() -> (r: Self)
        ensures
            r@ == Seq::<(Position, ErrorType)>::empty(),
            r.wf(),
    {
        Self { errors: Vec::new() }
    }

    /// Build an error pattern from entries with already ascending keys.
    pub fn new_map(errors: Vec<(Position, ErrorType)>) -> (r: Self)
        requires
            entries_sorted(errors@),
        ensures
            r@ == errors@,
            r.wf(),
    {
        Self { errors }
    }

    /// The number of keyed entries.
    pub fn len(&self) -> (r: usize)
        ensures
            r == self@.len(),
    {
        self.errors.len()
    }

    /// The value stored at `key`, if any.
    pub fn get(&self, key: &Position) -> (r: Option<&ErrorType>)
        requires
            self.wf(),
        ensures
            match r {
                Some(v) => has_key(self@, *key) && *v == value_of_key(self@, *key),
                None => !has_key(self@, *key),
            },
    {
        let n = self.errors.len();
        let mut k: usize = 0;
        while k < n
            invariant
                self.wf(),
                n == self@.len(),
                k <= n,
                forall|l: int| 0 <= l < k ==> self@[l].0 != *key,
            decreases n - k,
        {
            if self.errors[k].0.t == key.t && self.errors[k].0.i == key.i && self.errors[k].0.j
                == key.j {
                assert(self@[k as int].0 == *key);
                proof {
                    lemma_key_index_unique(self@, *key, k as int);
                }
                return Some(&self.errors[k].1);
            }
            k += 1;
        }
        None
    }

    /// Add a Pauli operator at `position`: a fresh key is inserted, an
    /// existing one has the operator multiplied into its value. Other keys
    /// are unchanged.
    pub fn add(&mut self, position: Position, error: ErrorType)
        requires
            old(self).wf(),
        ensures
            final(self).wf(),
            has_key(final(self)@, position),
            value_of_key(final(self)@, position) == (if has_key(old(self)@, position) {
                pauli_mul(value_of_key(old(self)@, position), error)
            } else {
                error
            }),
            forall|q: Position|
                q != position ==> #[trigger] has_key(final(self)@, q) == has_key(old(self)@, q),
            forall|q: Position|
                q != position && has_key(old(self)@, q) ==> #[trigger] value_of_key(
                    final(self)@,
                    q,
                ) == value_of_key(old(self)@, q),
            final(self)@.len() == old(self)@.len() + (if has_key(old(self)@, position) {
                0int
            } else {
                1int
            }),
    {
        let n = self.errors.len();
        let mut idx: usize = 0;
        while idx < n && self.errors[idx].0.lt(&position)
            invariant
                n == self@.len(),
                idx <= n,
                forall|l: int| 0 <= l < idx ==> pos_lt(self@[l].0, position),
            decreases n - idx,
        {
            idx += 1;
        }
        if idx < n && self.errors[idx].0.t == position.t && self.errors[idx].0.i == position.i
            && self.errors[idx].0.j == position.j {
            assert(self@[idx as int].0 == position);
            proof {
                lemma_key_index_unique(self@, position, idx as int);
            }
            let merged = self.errors[idx].1.multiply(&error);
            self.errors.set(idx, (position, merged));
            proof {
                assert(forall|l: int|
                    0 <= l < self@.len() ==> self@[l].0 == old(self)@[l].0);
                assert(entries_sorted(self@));
                lemma_key_index_unique(self@, position, idx as int);
                assert forall|q: Position| q != position implies #[trigger] has_key(self@, q)
                    == has_key(old(self)@, q) by {
                    lemma_update_other_keys(old(self)@, self@, idx as int, q);
                }
                assert forall|q: Position|
                    q != position && has_key(old(self)@, q) implies #[trigger] value_of_key(
                    self@,
                    q,
                ) == value_of_key(old(self)@, q) by {
                    lemma_update_other_keys(old(self)@, self@, idx as int, q);
                }
            }
            return ;
        }
        assert forall|l: int| idx <= l < self@.len() implies pos_lt(position, self@[l].0) by {
            assert(!pos_lt(self@[idx as int].0, position));
            assert(self@[idx as int].0 != position);
            if l > idx {
                assert(pos_lt(self@[idx as int].0, self@[l].0));
            }
        }
        assert(!has_key(self@, position)) by {
            if has_key(self@, position) {
                let k = choose|k: int| 0 <= k < self@.len() && self@[k].0 == position;
                assert(pos_lt(position, position) || pos_lt(position, position));
            }
        }
        self.errors.insert(idx, (position, error));
        proof {
            old(self)@.insert_ensures(idx as int, (position, error));
            assert(self@[idx as int] == (position, error));
            assert forall|k2: int, l2: int|
                0 <= k2 < l2 < self@.len() implies pos_lt(self@[k2].0, self@[l2].0) by {
                if l2 < idx {
                    assert(self@[k2] == old(self)@[k2]);
                    assert(self@[l2] == old(self)@[l2]);
                } else if k2 < idx && l2 == idx {
                    assert(self@[k2] == old(self)@[k2]);
                } else if k2 < idx && l2 > idx {
                    assert(self@[k2] == old(self)@[k2]);
                    assert(self@[l2] == old(self)@[l2 - 1]);
                } else if k2 == idx {
                    assert(self@[l2] == old(self)@[l2 - 1]);
                } else {
                    assert(self@[k2] == old(self)@[k2 - 1]);
                    assert(self@[l2] == old(self)@[l2 - 1]);
                }
            }
            lemma_key_index_unique(self@, position, idx as int);
            assert forall|q: Position| q != position implies #[trigger] has_key(self@, q)
                == has_key(old(self)@, q) by {
                lemma_insert_other_keys(old(self)@, self@, idx as int, q);
            }
            assert forall|q: Position|
                q != position && has_key(old(self)@, q) implies #[trigger] value_of_key(self@, q)
                == value_of_key(old(self)@, q) by {
                lemma_insert_other_keys(old(self)@, self@, idx as int, q);
            }
        }
    }

    /// Merge every entry of `next` into this pattern.
    pub fn extend(&mut self, next: &Self)
        requires
            old(self).wf(),
            next.wf(),
        ensures
            final(self).wf(),
    {
        let n = next.errors.len();
        let mut k: usize = 0;
        while k < n
            invariant
                n == next@.len(),
                k <= n,
                self.wf(),
            decreases n - k,
        {
            let (position, error) = next.errors[k];
            self.add(position, error);
            k += 1;
        }
    }

    /// The entries as a vector in ascending key order.
    pub fn to_vec(&self) -> (r: Vec<(Position, ErrorType)>)
        ensures
            r@ == self@,
    {
        let mut out: Vec<(Position, ErrorType)> = Vec::new();
        let n = self.errors.len();
        let mut k: usize = 0;
        while k < n
            invariant
                n == self@.len(),
                k <= n,
                out@ == self@.subrange(0, k as int),
            decreases n - k,
        {
            out.push(self.errors[k]);
            proof {
                assert(out@ =~= self@.subrange(0, k as int + 1));
            }
            k += 1;
        }
        proof {
            assert(self@.subrange(0, n as int) =~= self@);
        }
        out
    }
}


/// With distinct keys, the value stored under the key of entry `k` is that
/// entry's value.
pub proof fn lemma_entries_key_at(s: Seq<(Position, ErrorType)>, k: int)
    requires
        entries_sorted(s),
        0 <= k < s.len(),
    ensures
        has_key(s, s[k].0),
        value_of_key(s, s[k].0) == s[k].1,
        index_of_key(s, s[k].0) == k,
{
    lemma_key_index_unique(s, s[k].0, k);
}

/// With distinct keys, the index carrying a key is unique, so the chosen
/// index is the witnessed one.
proof fn lemma_key_index_unique(s: Seq<(Position, ErrorType)>, p: Position, k: int)
    requires
        entries_sorted(s),
        0 <= k < s.len(),
        s[k].0 == p,
    ensures
        has_key(s, p),
        index_of_key(s, p) == k,
        value_of_key(s, p) == s[k].1,
{
    assert(has_key(s, p));
    let w = index_of_key(s, p);
    if w != k {
        assert(pos_lt(s[w].0, s[k].0) || pos_lt(s[k].0, s[w].0));
    }
}

/// Updating the entry at index `idx` leaves every other key and its value
/// unchanged.
proof fn lemma_update_other_keys(
    olds: Seq<(Position, ErrorType)>,
    news: Seq<(Position, ErrorType)>,
    idx: int,
    q: Position,
)
    requires
        entries_sorted(olds),
        entries_sorted(news),
        olds.len() == news.len(),
        0 <= idx < olds.len(),
        forall|l: int| 0 <= l < olds.len() && l != idx ==> news[l] == olds[l],
        news[idx].0 == olds[idx].0,
        q != olds[idx].0,
    ensures
        has_key(news, q) == has_key(olds, q),
        has_key(olds, q) ==> value_of_key(news, q) == value_of_key(olds, q),
{
    if has_key(olds, q) {
        let k = choose|k: int| 0 <= k < olds.len() && olds[k].0 == q;
        assert(k != idx);
        assert(news[k].0 == q);
        lemma_key_index_unique(news, q, k);
        lemma_key_index_unique(olds, q, k);
    }
    if has_key(news, q) {
        let k = choose|k: int| 0 <= k < news.len() && news[k].0 == q;
        assert(k != idx);
        assert(olds[k].0 == q);
    }
}

/// Inserting an entry at index `idx` leaves every other key and its value
/// unchanged.
proof fn lemma_insert_other_keys(
    olds: Seq<(Position, ErrorType)>,
    news: Seq<(Position, ErrorType)>,
    idx: int,
    q: Position,
)
    requires
        entries_sorted(olds),
        entries_sorted(news),
        news.len() == olds.len() + 1,
        0 <= idx < news.len(),
        forall|l: int| 0 <= l < idx ==> news[l] == olds[l],
        forall|l: int| idx < l < news.len() ==> news[l] == olds[l - 1],
        q != news[idx].0,
    ensures
        has_key(news, q) == has_key(olds, q),
        has_key(olds, q) ==> value_of_key(news, q) == value_of_key(olds, q),
{
    if has_key(olds, q) {
        let k = choose|k: int| 0 <= k < olds.len() && olds[k].0 == q;
        if k < idx {
            assert(news[k].0 == q);
            lemma_key_index_unique(news, q, k);
            lemma_key_index_unique(olds, q, k);
        } else {
            assert(news[k + 1].0 == q);
            lemma_key_index_unique(news, q, k + 1);
            lemma_key_index_unique(olds, q, k);
        }
    }
    if has_key(news, q) {
        let k = choose|k: int| 0 <= k < news.len() && news[k].0 == q;
        if k < idx {
            assert(olds[k].0 == q);
        } else {
            assert(k != idx);
            assert(olds[k - 1].0 == q);
        }
    }
}

/// A sparse correction: a Pauli operator per data qubit, every entry at the
/// same (top) layer of the lattice.
#[derive(Debug, Clone)]
pub struct SparseCorrection(SparseErrorPattern);

impl View for SparseCorrection {
    type V = Seq<(Position, ErrorType)>;

    closed spec fn view(&self) -> Seq<(Position, ErrorType)> {
        self.0@
    }
}

impl SparseCorrection {
    /// Keys are strictly ascending and all share the same layer.
    pub open spec fn wf(&self) -> bool {
        entries_sorted(self@) && (forall|k: int, l: int|
            0 <= k < self@.len() && 0 <= l < self@.len() ==> self@[k].0.t == self@[l].0.t)
    }

    /// Create an empty correction.
    pub fn new() -> (r: Self)
        ensures
            r@ == Seq::<(Position, ErrorType)>::empty(),
            r.wf(),
    {
        Self(SparseErrorPattern::new())
    }

    /// Add a correction operator at `position`; an existing entry has the
    /// operator multiplied into its value. The layer must agree with the
    /// entries already present.
    pub fn add(&mut self, position: Position, operator: ErrorType)
        requires
            old(self).wf(),
            forall|k: int| 0 <= k < old(self)@.len() ==> old(self)@[k].0.t == position.t,
        ensures
            final(self).wf(),
            has_key(final(self)@, position),
            value_of_key(final(self)@, position) == (if has_key(old(self)@, position) {
                pauli_mul(value_of_key(old(self)@, position), operator)
            } else {
                operator
            }),
            forall|q: Position|
                q != position ==> #[trigger] has_key(final(self)@, q) == has_key(old(self)@, q),
            forall|q: Position|
                q != position && has_key(old(self)@, q) ==> #[trigger] value_of_key(
                    final(self)@,
                    q,
                ) == value_of_key(old(self)@, q),
            final(self)@.len() == old(self)@.len() + (if has_key(old(self)@, position) {
                0int
            } else {
                1int
            }),
            forall|k: int| 0 <= k < final(self)@.len() ==> final(self)@[k].0.t == position.t,
    {
        self.0.add(position, operator);
        proof {
            assert forall|k: int| 0 <= k < self@.len() implies self@[k].0.t == position.t by {
                if self@[k].0 != position {
                    assert(has_key(self@, self@[k].0)) by {
                        assert(0 <= k < self@.len() && self@[k].0 == self@[k].0);
                    }
                    assert(has_key(old(self)@, self@[k].0));
                    let l = choose|l: int|
                        0 <= l < old(self)@.len() && old(self)@[l].0 == self@[k].0;
                    assert(old(self)@[l].0.t == position.t);
                }
            }
        }
    }

    /// Merge every entry of `next` into this correction.
    pub fn extend(&mut self, next: &Self)
        requires
            old(self).wf(),
            next.wf(),
            old(self)@.len() > 0 && next@.len() > 0 ==> old(self)@[0].0.t == next@[0].0.t,
        ensures
            final(self).wf(),
    {
        let n = next.0.len();
        let v = next.0.to_vec();
        let mut k: usize = 0;
        while k < n
            invariant
                n == next@.len(),
                v@ == next@,
                k <= n,
                self.wf(),
                next.wf(),
                forall|l: int|
                    0 <= l < self@.len() && n > 0 ==> #[trigger] self@[l].0.t == next@[0].0.t,
            decreases n - k,
        {
            let (position, operator) = v[k];
            assert(position == next@[k as int].0);
            self.add(position, operator);
            k += 1;
        }
    }

    /// The number of keyed entries.
    pub fn len(&self) -> (r: usize)
        ensures
            r == self@.len(),
    {
        self.0.len()
    }

    /// The value stored at `key`, if any.
    pub fn get(&self, key: &Position) -> (r: Option<&ErrorType>)
        requires
            self.wf(),
        ensures
            match r {
                Some(v) => has_key(self@, *key) && *v == value_of_key(self@, *key),
                None => !has_key(self@, *key),
            },
    {
        self.0.get(key)
    }

    /// The entries as a vector in ascending key order.
    pub fn to_vec(&self) -> (r: Vec<(Position, ErrorType)>)
        ensures
            r@ == self@,
    {
        self.0.to_vec()
    }
}

} // verus!
