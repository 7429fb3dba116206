//! Positions in the space-time circuit lattice: `t` is the layer, `i` the
//! vertical and `j` the horizontal grid index. The total order is
//! lexicographic on `(t, i, j)`.

use vstd::prelude::*;

verus! {

/// A cell of the 3D circuit lattice at layer `t`, row `i`, column `j`.
#[derive(Debug, Clone, Copy, PartialEq, Eq, Structural, Hash)]
pub struct Position {
    pub t: usize,
    pub i: usize,
    pub j: usize,
}

/// Strict lexicographic order on `(t, i, j)`.
pub open spec fn pos_lt(a: Position, b: Position) -> bool {
    a.t < b.t || (a.t == b.t && (a.i < b.i || (a.i == b.i && a.j < b.j)))
}

/// The lexicographic order is total: exactly one of `a < b`, `a == b`,
/// `b < a` holds.
pub proof fn lemma_pos_order_total(a: Position, b: Position)
    ensures
        pos_lt(a, b) || pos_lt(b, a) || a == b,
        pos_lt(a, b) ==> !pos_lt(b, a) && a != b,
        a == b ==> !pos_lt(a, b),
{
}

/// The lexicographic order is transitive.
pub proof fn lemma_pos_order_transitive(a: Position, b: Position, c: Position)
    requires
        pos_lt(a, b),
        pos_lt(b, c),
    ensures
        pos_lt(a, c),
{
}

impl Position {
    /// Create a position from its three indices.
    pub fn new(t: usize, i: usize, j: usize) -> (r: Self)
        ensures
            r == (Position { t, i, j }),
    {
        Self { t, i, j }
    }

    /// Whether this position comes strictly before `other` in the
    /// lexicographic order on `(t, i, j)`.
    pub fn lt(&self, other: &Self) -> (r: bool)
        ensures
            r == pos_lt(*self, *other),
    {
        if self.t != other.t {
            self.t < other.t
        } else if self.i != other.i {
            self.i < other.i
        } else {
            self.j < other.j
        }
    }

    /// The L1 (Manhattan) distance between two positions.
    pub fn distance(&self, other: &Self) -> (r: usize)
        requires
            abs_diff_spec(self.t as int, other.t as int) + abs_diff_spec(
                self.i as int,
                other.i as int,
            ) + abs_diff_spec(self.j as int, other.j as int) <= usize::MAX,
        ensures
            r == abs_diff_spec(self.t as int, other.t as int) + abs_diff_spec(
                self.i as int,
                other.i as int,
            ) + abs_diff_spec(self.j as int, other.j as int),
    {
        let dt: usize = if self.t >= other.t {
            self.t - other.t
        } else {
            other.t - self.t
        };
        let di: usize = if self.i >= other.i {
            self.i - other.i
        } else {
            other.i - self.i
        };
        let dj: usize = if self.j >= other.j {
            self.j - other.j
        } else {
            other.j - self.j
        };
        dt + di + dj
    }
}

/// The absolute difference of two integers.
pub open spec fn abs_diff_spec(a: int, b: int) -> int {
    if a >= b {
        a - b
    } else {
        b - a
    }
}

} // verus!
