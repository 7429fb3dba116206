//! Per-cell noise records and the noise-model store. Every probability is a
//! fixed-point rate: a numerator over the denominator `PROB_ONE`, compared
//! against the uniform draws of the reproducible generator.

use vstd::prelude::*;

use crate::pauli::ErrorType;
use crate::position::Position;
use crate::rng::PROB_ONE;

verus! {

/// Independent single-qubit Pauli marginals of one cell.
#[derive(Debug, Clone, Copy, PartialEq, Eq, Structural)]
pub struct PauliErrorRates {
    pub error_rate_X: u64,
    pub error_rate_Y: u64,
    pub error_rate_Z: u64,
}

impl PauliErrorRates {
    /// The marginals sum to at most one.
    pub open spec fn wf(&self) -> bool {
        self.error_rate_X + self.error_rate_Y + self.error_rate_Z <= PROB_ONE
    }

    /// A noiseless record: every marginal zero.
    pub fn new() -> (r: Self)
        ensures
            r == (PauliErrorRates { error_rate_X: 0u64, error_rate_Y: 0u64, error_rate_Z: 0u64 }),
    {
        Self { error_rate_X: 0, error_rate_Y: 0, error_rate_Z: 0 }
    }

    /// The total probability of any Pauli fault at this cell.
    pub fn error_probability(&self) -> (r: u64)
        requires
            self.wf(),
        ensures
            r == self.error_rate_X + self.error_rate_Y + self.error_rate_Z,
    {
        self.error_rate_X + self.error_rate_Y + self.error_rate_Z
    }
}

/// The Pauli sampled from the single-cell marginals by a uniform draw: the
/// draw is compared against the cumulative bounds of X, then Z, then Y.
pub open spec fn sample_pauli(rates: PauliErrorRates, draw: u64) -> ErrorType {
    if draw < rates.error_rate_X {
        ErrorType::X
    } else if draw < rates.error_rate_X + rates.error_rate_Z {
        ErrorType::Z
    } else if draw < rates.error_rate_X + rates.error_rate_Z + rates.error_rate_Y {
        ErrorType::Y
    } else {
        ErrorType::I
    }
}

/// A two-qubit Pauli fault on a gate: the operator applied to this cell and
/// the operator applied to its gate peer.
#[derive(Debug, Clone, Copy, PartialEq, Eq, Structural)]
pub struct CorrelatedPauliErrorType {
    pub this: ErrorType,
    pub peer: ErrorType,
}

impl CorrelatedPauliErrorType {
    /// The operator on this cell.
    pub fn my_error(&self) -> (r: ErrorType)
        ensures
            r == self.this,
    {
        self.this
    }

    /// The operator on this cell's coupled peer.
    pub fn peer_error(&self) -> (r: ErrorType)
        ensures
            r == self.peer,
    {
        self.peer
    }
}

/// The 15 non-trivial entries of a two-qubit correlated Pauli table over
/// `{I,X,Y,Z}²`; the trivial entry `II` is the remaining probability. The
/// first letter is the operator on this cell, the second the operator on the
/// gate peer.
#[derive(Debug, Clone, Copy, PartialEq, Eq, Structural)]
pub struct CorrelatedPauliErrorRates {
    pub error_rate_IX: u64,
    pub error_rate_IY: u64,
    pub error_rate_IZ: u64,
    pub error_rate_XI: u64,
    pub error_rate_XX: u64,
    pub error_rate_XY: u64,
    pub error_rate_XZ: u64,
    pub error_rate_YI: u64,
    pub error_rate_YX: u64,
    pub error_rate_YY: u64,
    pub error_rate_YZ: u64,
    pub error_rate_ZI: u64,
    pub error_rate_ZX: u64,
    pub error_rate_ZY: u64,
    pub error_rate_ZZ: u64,
}

/// The sum of the 15 non-trivial entries of a correlated Pauli table.
pub open spec fn correlated_pauli_total(r: CorrelatedPauliErrorRates) -> int {
    r.error_rate_IX + r.error_rate_IY + r.error_rate_IZ + r.error_rate_XI + r.error_rate_XX
        + r.error_rate_XY + r.error_rate_XZ + r.error_rate_YI + r.error_rate_YX + r.error_rate_YY
        + r.error_rate_YZ + r.error_rate_ZI + r.error_rate_ZX + r.error_rate_ZY + r.error_rate_ZZ
}

/// The two-qubit fault selected from a correlated Pauli table by a uniform
/// draw, walking the entries in the fixed order IX..ZZ; a draw beyond the
/// total selects the trivial fault.
pub open spec fn sample_correlated_pauli(
    r: CorrelatedPauliErrorRates,
    draw: u64,
) -> CorrelatedPauliErrorType {
    let pairs = correlated_pauli_entries(r);
    sample_from_entries(pairs, draw as int)
}

/// The entries of a correlated Pauli table in the fixed order IX..ZZ.
pub open spec fn correlated_pauli_entries(r: CorrelatedPauliErrorRates) -> Seq<
    (CorrelatedPauliErrorType, int),
> {
    seq![
        (CorrelatedPauliErrorType { this: ErrorType::I, peer: ErrorType::X }, r.error_rate_IX as int),
        (CorrelatedPauliErrorType { this: ErrorType::I, peer: ErrorType::Y }, r.error_rate_IY as int),
        (CorrelatedPauliErrorType { this: ErrorType::I, peer: ErrorType::Z }, r.error_rate_IZ as int),
        (CorrelatedPauliErrorType { this: ErrorType::X, peer: ErrorType::I }, r.error_rate_XI as int),
        (CorrelatedPauliErrorType { this: ErrorType::X, peer: ErrorType::X }, r.error_rate_XX as int),
        (CorrelatedPauliErrorType { this: ErrorType::X, peer: ErrorType::Y }, r.error_rate_XY as int),
        (CorrelatedPauliErrorType { this: ErrorType::X, peer: ErrorType::Z }, r.error_rate_XZ as int),
        (CorrelatedPauliErrorType { this: ErrorType::Y, peer: ErrorType::I }, r.error_rate_YI as int),
        (CorrelatedPauliErrorType { this: ErrorType::Y, peer: ErrorType::X }, r.error_rate_YX as int),
        (CorrelatedPauliErrorType { this: ErrorType::Y, peer: ErrorType::Y }, r.error_rate_YY as int),
        (CorrelatedPauliErrorType { this: ErrorType::Y, peer: ErrorType::Z }, r.error_rate_YZ as int),
        (CorrelatedPauliErrorType { this: ErrorType::Z, peer: ErrorType::I }, r.error_rate_ZI as int),
        (CorrelatedPauliErrorType { this: ErrorType::Z, peer: ErrorType::X }, r.error_rate_ZX as int),
        (CorrelatedPauliErrorType { this: ErrorType::Z, peer: ErrorType::Y }, r.error_rate_ZY as int),
        (CorrelatedPauliErrorType { this: ErrorType::Z, peer: ErrorType::Z }, r.error_rate_ZZ as int),
    ]
}

/// Walk cumulative probability entries: the first entry whose cumulative
/// bound exceeds the draw is selected; past the total, the trivial fault.
pub open spec fn sample_from_entries(
    entries: Seq<(CorrelatedPauliErrorType, int)>,
    draw: int,
) -> CorrelatedPauliErrorType
    decreases entries.len(),
{
    if entries.len() == 0 {
        CorrelatedPauliErrorType { this: ErrorType::I, peer: ErrorType::I }
    } else if draw < entries[0].1 {
        entries[0].0
    } else {
        sample_from_entries(entries.drop_first(), draw - entries[0].1)
    }
}

impl CorrelatedPauliErrorRates {
    /// The non-trivial entries sum to at most one.
    pub open spec fn wf(&self) -> bool {
        correlated_pauli_total(*self) <= PROB_ONE
    }

    /// A table with every non-trivial entry at the same rate `p`.
    pub fn default_with_probability(p: u64) -> (r: Self)
        requires
            15 * p <= PROB_ONE,
        ensures
            r == (CorrelatedPauliErrorRates {
                error_rate_IX: p,
                error_rate_IY: p,
                error_rate_IZ: p,
                error_rate_XI: p,
                error_rate_XX: p,
                error_rate_XY: p,
                error_rate_XZ: p,
                error_rate_YI: p,
                error_rate_YX: p,
                error_rate_YY: p,
                error_rate_YZ: p,
                error_rate_ZI: p,
                error_rate_ZX: p,
                error_rate_ZY: p,
                error_rate_ZZ: p,
            }),
            r.wf(),
    {
        Self {
            error_rate_IX: p,
            error_rate_IY: p,
            error_rate_IZ: p,
            error_rate_XI: p,
            error_rate_XX: p,
            error_rate_XY: p,
            error_rate_XZ: p,
            error_rate_YI: p,
            error_rate_YX: p,
            error_rate_YY: p,
            error_rate_YZ: p,
            error_rate_ZI: p,
            error_rate_ZX: p,
            error_rate_ZY: p,
            error_rate_ZZ: p,
        }
    }

    /// Whether the table's entries sum to at most one.
    pub fn sanity_check(&self) -> (r: bool)
        ensures
            r == self.wf(),
    {
        let mut total: u64 = 0;
        let cap = u64::MAX;
        if self.error_rate_IX > cap - total {
            return false;
        }
        total += self.error_rate_IX;
        if self.error_rate_IY > cap - total {
            return false;
        }
        total += self.error_rate_IY;
        if self.error_rate_IZ > cap - total {
            return false;
        }
        total += self.error_rate_IZ;
        if self.error_rate_XI > cap - total {
            return false;
        }
        total += self.error_rate_XI;
        if self.error_rate_XX > cap - total {
            return false;
        }
        total += self.error_rate_XX;
        if self.error_rate_XY > cap - total {
            return false;
        }
        total += self.error_rate_XY;
        if self.error_rate_XZ > cap - total {
            return false;
        }
        total += self.error_rate_XZ;
        if self.error_rate_YI > cap - total {
            return false;
        }
        total += self.error_rate_YI;
        if self.error_rate_YX > cap - total {
            return false;
        }
        total += self.error_rate_YX;
        if self.error_rate_YY > cap - total {
            return false;
        }
        total += self.error_rate_YY;
        if self.error_rate_YZ > cap - total {
            return false;
        }
        total += self.error_rate_YZ;
        if self.error_rate_ZI > cap - total {
            return false;
        }
        total += self.error_rate_ZI;
        if self.error_rate_ZX > cap - total {
            return false;
        }
        total += self.error_rate_ZX;
        if self.error_rate_ZY > cap - total {
            return false;
        }
        total += self.error_rate_ZY;
        if self.error_rate_ZZ > cap - total {
            return false;
        }
        total += self.error_rate_ZZ;
        total <= PROB_ONE
    }

    /// Select a two-qubit fault from the table by a uniform draw.
    pub fn generate_random_error(&self, draw: u64) -> (r: CorrelatedPauliErrorType)
        ensures
            r == sample_correlated_pauli(*self, draw),
    {
        let mut remaining = draw;
        proof {
            reveal_with_fuel(sample_from_entries, 16);
        }
        if remaining < self.error_rate_IX {
            return CorrelatedPauliErrorType { this: ErrorType::I, peer: ErrorType::X };
        }
        remaining -= self.error_rate_IX;
        if remaining < self.error_rate_IY {
            return CorrelatedPauliErrorType { this: ErrorType::I, peer: ErrorType::Y };
        }
        remaining -= self.error_rate_IY;
        if remaining < self.error_rate_IZ {
            return CorrelatedPauliErrorType { this: ErrorType::I, peer: ErrorType::Z };
        }
        remaining -= self.error_rate_IZ;
        if remaining < self.error_rate_XI {
            return CorrelatedPauliErrorType { this: ErrorType::X, peer: ErrorType::I };
        }
        remaining -= self.error_rate_XI;
        if remaining < self.error_rate_XX {
            return CorrelatedPauliErrorType { this: ErrorType::X, peer: ErrorType::X };
        }
        remaining -= self.error_rate_XX;
        if remaining < self.error_rate_XY {
            return CorrelatedPauliErrorType { this: ErrorType::X, peer: ErrorType::Y };
        }
        remaining -= self.error_rate_XY;
        if remaining < self.error_rate_XZ {
            return CorrelatedPauliErrorType { this: ErrorType::X, peer: ErrorType::Z };
        }
        remaining -= self.error_rate_XZ;
        if remaining < self.error_rate_YI {
            return CorrelatedPauliErrorType { this: ErrorType::Y, peer: ErrorType::I };
        }
        remaining -= self.error_rate_YI;
        if remaining < self.error_rate_YX {
            return CorrelatedPauliErrorType { this: ErrorType::Y, peer: ErrorType::X };
        }
        remaining -= self.error_rate_YX;
        if remaining < self.error_rate_YY {
            return CorrelatedPauliErrorType { this: ErrorType::Y, peer: ErrorType::Y };
        }
        remaining -= self.error_rate_YY;
        if remaining < self.error_rate_YZ {
            return CorrelatedPauliErrorType { this: ErrorType::Y, peer: ErrorType::Z };
        }
        remaining -= self.error_rate_YZ;
        if remaining < self.error_rate_ZI {
            return CorrelatedPauliErrorType { this: ErrorType::Z, peer: ErrorType::I };
        }
        remaining -= self.error_rate_ZI;
        if remaining < self.error_rate_ZX {
            return CorrelatedPauliErrorType { this: ErrorType::Z, peer: ErrorType::X };
        }
        remaining -= self.error_rate_ZX;
        if remaining < self.error_rate_ZY {
            return CorrelatedPauliErrorType { this: ErrorType::Z, peer: ErrorType::Y };
        }
        remaining -= self.error_rate_ZY;
        if remaining < self.error_rate_ZZ {
            return CorrelatedPauliErrorType { this: ErrorType::Z, peer: ErrorType::Z };
        }
        CorrelatedPauliErrorType { this: ErrorType::I, peer: ErrorType::I }
    }
}

/// A two-qubit erasure fault: whether this cell and whether its peer is
/// erased.
#[derive(Debug, Clone, Copy, PartialEq, Eq, Structural)]
pub struct CorrelatedErasureErrorType {
    pub this: bool,
    pub peer: bool,
}

impl CorrelatedErasureErrorType {
    /// Whether this cell is erased.
    pub fn my_error(&self) -> (r: bool)
        ensures
            r == self.this,
    {
        self.this
    }

    /// Whether this cell's coupled peer is erased.
    pub fn peer_error(&self) -> (r: bool)
        ensures
            r == self.peer,
    {
        self.peer
    }
}

/// The 3 non-trivial entries of a two-qubit correlated erasure table over
/// `{keep,erase}²`; the trivial entry is the remaining probability.
#[derive(Debug, Clone, Copy, PartialEq, Eq, Structural)]
pub struct CorrelatedErasureErrorRates {
    pub error_rate_IE: u64,
    pub error_rate_EI: u64,
    pub error_rate_EE: u64,
}

/// The erasure fault selected from a correlated erasure table by a uniform
/// draw, walking the entries in the fixed order IE, EI, EE.
pub open spec fn sample_correlated_erasure(
    r: CorrelatedErasureErrorRates,
    draw: u64,
) -> CorrelatedErasureErrorType {
    if draw < r.error_rate_IE {
        CorrelatedErasureErrorType { this: false, peer: true }
    } else if draw < r.error_rate_IE + r.error_rate_EI {
        CorrelatedErasureErrorType { this: true, peer: false }
    } else if draw < r.error_rate_IE + r.error_rate_EI + r.error_rate_EE {
        CorrelatedErasureErrorType { this: true, peer: true }
    } else {
        CorrelatedErasureErrorType { this: false, peer: false }
    }
}

impl CorrelatedErasureErrorRates {
    /// The non-trivial entries sum to at most one.
    pub open spec fn wf(&self) -> bool {
        self.error_rate_IE + self.error_rate_EI + self.error_rate_EE <= PROB_ONE
    }

    /// A table with every non-trivial entry at the same rate `p`.
    pub fn default_with_probability(p: u64) -> (r: Self)
        requires
            3 * p <= PROB_ONE,
        ensures
            r == (CorrelatedErasureErrorRates {
                error_rate_IE: p,
                error_rate_EI: p,
                error_rate_EE: p,
            }),
            r.wf(),
    {
        Self { error_rate_IE: p, error_rate_EI: p, error_rate_EE: p }
    }

    /// Whether the table's entries sum to at most one.
    pub fn sanity_check(&self) -> (r: bool)
        ensures
            r == self.wf(),
    {
        if self.error_rate_IE > u64::MAX - self.error_rate_EI {
            return false;
        }
        let partial = self.error_rate_IE + self.error_rate_EI;
        if self.error_rate_EE > u64::MAX - partial {
            return false;
        }
        partial + self.error_rate_EE <= PROB_ONE
    }

    /// Select an erasure fault from the table by a uniform draw.
    pub fn generate_random_erasure_error(&self, draw: u64) -> (r: CorrelatedErasureErrorType)
        requires
            self.wf(),
        ensures
            r == sample_correlated_erasure(*self, draw),
    {
        if draw < self.error_rate_IE {
            CorrelatedErasureErrorType { this: false, peer: true }
        } else if draw < self.error_rate_IE + self.error_rate_EI {
            CorrelatedErasureErrorType { this: true, peer: false }
        } else if draw < self.error_rate_IE + self.error_rate_EI + self.error_rate_EE {
            CorrelatedErasureErrorType { this: true, peer: true }
        } else {
            CorrelatedErasureErrorType { this: false, peer: false }
        }
    }
}

/// The complete noise record of one cell: independent Pauli marginals, an
/// erasure marginal, and optional correlated tables shared with the cell's
/// gate peer.
#[derive(Debug, Clone, Copy, PartialEq, Eq, Structural)]
pub struct NoiseModelNode {
    pub pauli_error_rates: PauliErrorRates,
    pub erasure_error_rate: u64,
    pub correlated_pauli_error_rates: Option<CorrelatedPauliErrorRates>,
    pub correlated_erasure_error_rates: Option<CorrelatedErasureErrorRates>,
}

impl NoiseModelNode {
    /// Every stored rate and table is within bounds.
    pub open spec fn wf(&self) -> bool {
        &&& self.pauli_error_rates.wf()
        &&& self.erasure_error_rate <= PROB_ONE
        &&& match self.correlated_pauli_error_rates {
            Some(r) => r.wf(),
            None => true,
        }
        &&& match self.correlated_erasure_error_rates {
            Some(r) => r.wf(),
            None => true,
        }
    }

    /// Whether this record carries no noise at all.
    pub open spec fn is_noiseless(&self) -> bool {
        *self == NoiseModelNode::noiseless_spec()
    }

    /// The noiseless record.
    pub open spec fn noiseless_spec() -> NoiseModelNode {
        NoiseModelNode {
            pauli_error_rates: PauliErrorRates { error_rate_X: 0, error_rate_Y: 0, error_rate_Z: 0 },
            erasure_error_rate: 0,
            correlated_pauli_error_rates: None,
            correlated_erasure_error_rates: None,
        }
    }

    /// A noiseless record: every rate zero, no correlated tables.
    pub fn new() -> (r: Self)
        ensures
            r == NoiseModelNode::noiseless_spec(),
            r.wf(),
    {
        Self {
            pauli_error_rates: PauliErrorRates::new(),
            erasure_error_rate: 0,
            correlated_pauli_error_rates: None,
            correlated_erasure_error_rates: None,
        }
    }
}

/// An all-or-nothing extra noise source: with the given probability, every
/// listed Pauli override and erasure is applied in one trial.
#[derive(Debug, Clone)]
pub struct AdditionalNoise {
    pub probability: u64,
    pub pauli_errors: Vec<(Position, ErrorType)>,
    pub erasures: Vec<Position>,
}

/// The noise model of a whole lattice: one record index per cell, the records
/// themselves held once in an arena so that many cells can share one record.
#[derive(Debug, Clone)]
pub struct NoiseModel {
    pub height: usize,
    pub vertical: usize,
    pub horizontal: usize,
    pub nodes: Vec<Vec<Vec<usize>>>,
    pub arena: Vec<NoiseModelNode>,
    pub additional_noise: Vec<AdditionalNoise>,
}

impl NoiseModel {
    /// The shape is a full cube, every cell's index points into the arena,
    /// and every arena record is within bounds.
    pub open spec fn wf(&self) -> bool {
        &&& self.nodes@.len() == self.height
        &&& forall|t: int|
            0 <= t < self.height ==> #[trigger] self.nodes@[t]@.len() == self.vertical
        &&& forall|t: int, i: int|
            0 <= t < self.height && 0 <= i < self.vertical ==> #[trigger] self.nodes@[t]@[i]@.len()
                == self.horizontal
        &&& forall|t: int, i: int, j: int|
            0 <= t < self.height && 0 <= i < self.vertical && 0 <= j < self.horizontal
                ==> #[trigger] self.nodes@[t]@[i]@[j] < self.arena@.len()
        &&& forall|k: int| 0 <= k < self.arena@.len() ==> (#[trigger] self.arena@[k]).wf()
        &&& self.arena@.len() > 0
    }

    /// The noise record governing cell `(t, i, j)`.
    pub open spec fn rates_at(&self, t: int, i: int, j: int) -> NoiseModelNode {
        self.arena@[self.nodes@[t]@[i]@[j] as int]
    }

    /// Create a noise model of the given shape with every cell noiseless.
    pub fn new(height: usize, vertical: usize, horizontal: usize) -> (r: Self)
        ensures
            r.wf(),
            r.height == height,
            r.vertical == vertical,
            r.horizontal == horizontal,
            forall|t: int, i: int, j: int|
                0 <= t < height && 0 <= i < vertical && 0 <= j < horizontal ==> (
                #[trigger] r.rates_at(t, i, j)).is_noiseless(),
            r.additional_noise@.len() == 0,
    {
        let mut arena: Vec<NoiseModelNode> = Vec::new();
        arena.push(NoiseModelNode::new());
        let mut nodes: Vec<Vec<Vec<usize>>> = Vec::new();
        let mut t: usize = 0;
        while t < height
            invariant
                t <= height,
                nodes@.len() == t,
                arena@.len() == 1,
                arena@[0].is_noiseless(),
                arena@[0].wf(),
                forall|a: int| 0 <= a < t ==> #[trigger] nodes@[a]@.len() == vertical,
                forall|a: int, b: int|
                    0 <= a < t && 0 <= b < vertical ==> #[trigger] nodes@[a]@[b]@.len()
                        == horizontal,
                forall|a: int, b: int, c: int|
                    0 <= a < t && 0 <= b < vertical && 0 <= c < horizontal
                        ==> #[trigger] nodes@[a]@[b]@[c] == 0,
            decreases height - t,
        {
            let mut row_i: Vec<Vec<usize>> = Vec::new();
            let mut i: usize = 0;
            while i < vertical
                invariant
                    i <= vertical,
                    row_i@.len() == i,
                    forall|b: int| 0 <= b < i ==> #[trigger] row_i@[b]@.len() == horizontal,
                    forall|b: int, c: int|
                        0 <= b < i && 0 <= c < horizontal ==> #[trigger] row_i@[b]@[c] == 0,
                decreases vertical - i,
            {
                let mut row_j: Vec<usize> = Vec::new();
                let mut j: usize = 0;
                while j < horizontal
                    invariant
                        j <= horizontal,
                        row_j@.len() == j,
                        forall|c: int| 0 <= c < j ==> #[trigger] row_j@[c] == 0,
                    decreases horizontal - j,
                {
                    row_j.push(0);
                    j += 1;
                }
                row_i.push(row_j);
                i += 1;
            }
            nodes.push(row_i);
            t += 1;
        }
        Self { height, vertical, horizontal, nodes, arena, additional_noise: Vec::new() }
    }

    /// Install a record in the arena so that cells can share it; returns its
    /// index. Existing cells are unchanged.
    pub fn add_node(&mut self, node: NoiseModelNode) -> (r: usize)
        requires
            old(self).wf(),
            node.wf(),
        ensures
            final(self).wf(),
            r == old(self).arena_len(),
            final(self).arena_len() == old(self).arena_len() + 1,
            r < final(self).arena_len(),
            final(self).arena_at(r as int) == node,
            forall|k: int|
                0 <= k < old(self).arena_len() ==> #[trigger] final(self).arena_at(k) == old(
                    self,
                ).arena_at(k),
            final(self).height == old(self).height,
            final(self).vertical == old(self).vertical,
            final(self).horizontal == old(self).horizontal,
            final(self).additional_noise == old(self).additional_noise,
            forall|t: int, i: int, j: int|
                0 <= t < old(self).height && 0 <= i < old(self).vertical && 0 <= j < old(
                    self,
                ).horizontal ==> #[trigger] final(self).rates_at(t, i, j) == old(self).rates_at(
                    t,
                    i,
                    j,
                ),
    {
        let idx = self.arena.len();
        self.arena.push(node);
        idx
    }

    /// The number of records in the arena.
    pub open spec fn arena_len(&self) -> int {
        self.arena@.len() as int
    }

    /// The arena record at index `k`.
    pub open spec fn arena_at(&self, k: int) -> NoiseModelNode {
        self.arena@[k]
    }

    /// Point cell `(t, i, j)` at the arena record with index `idx`. All other
    /// cells are unchanged.
    pub fn set_node(&mut self, position: &Position, idx: usize) -> (r: ())
        requires
            old(self).wf(),
            position.t < old(self).height,
            position.i < old(self).vertical,
            position.j < old(self).horizontal,
            idx < old(self).arena_len(),
        ensures
            final(self).wf(),
            final(self).height == old(self).height,
            final(self).vertical == old(self).vertical,
            final(self).horizontal == old(self).horizontal,
            final(self).additional_noise == old(self).additional_noise,
            final(self).arena_len() == old(self).arena_len(),
            forall|k: int|
                0 <= k < old(self).arena_len() ==> #[trigger] final(self).arena_at(k) == old(
                    self,
                ).arena_at(k),
            final(self).rates_at(position.t as int, position.i as int, position.j as int) == old(
                self,
            ).arena_at(idx as int),
            forall|t: int, i: int, j: int|
                0 <= t < old(self).height && 0 <= i < old(self).vertical && 0 <= j < old(
                    self,
                ).horizontal && !(t == position.t && i == position.i && j == position.j)
                    ==> #[trigger] final(self).rates_at(t, i, j) == old(self).rates_at(t, i, j),
    {
        let row_i = &mut self.nodes[position.t];
        let row_j = &mut row_i[position.i];
        row_j.set(position.j, idx);
    }

    /// The noise record governing cell `(t, i, j)`.
    pub fn get_node(&self, position: &Position) -> (r: &NoiseModelNode)
        requires
            self.wf(),
            position.t < self.height,
            position.i < self.vertical,
            position.j < self.horizontal,
        ensures
            *r == self.rates_at(position.t as int, position.i as int, position.j as int),
            r.wf(),
    {
        let idx = self.nodes[position.t][position.i][position.j];
        &self.arena[idx]
    }

    /// Append an all-or-nothing extra noise source.
    pub fn add_additional_noise(&mut self, noise: AdditionalNoise)
        requires
            old(self).wf(),
        ensures
            final(self).wf(),
            final(self).height == old(self).height,
            final(self).vertical == old(self).vertical,
            final(self).horizontal == old(self).horizontal,
            final(self).additional_noise@ == old(self).additional_noise@.push(noise),
            final(self).arena_len() == old(self).arena_len(),
            forall|t: int, i: int, j: int|
                0 <= t < old(self).height && 0 <= i < old(self).vertical && 0 <= j < old(
                    self,
                ).horizontal ==> #[trigger] final(self).rates_at(t, i, j) == old(self).rates_at(
                    t,
                    i,
                    j,
                ),
    {
        self.additional_noise.push(noise);
    }
}

} // verus!
