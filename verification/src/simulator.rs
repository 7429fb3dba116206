//! The simulator state: a 3D lattice of optional per-cell nodes carrying the
//! gate schedule and the per-trial fault state, together with Pauli-frame
//! propagation, sparse syndrome extraction and correction handling.

use vstd::prelude::*;

use crate::code_builder::BuildError;
use crate::code_builder::CodeType;
use crate::code_builder::build_code;
use crate::code_builder::built_lattice;
use crate::code_builder::code_builder_sanity_check;
use crate::code_builder::code_builder_validate_correction;
use crate::code_builder::code_parameters;
use crate::code_builder::column_flip_count;
use crate::code_builder::row_flip_count;
use crate::noise::NoiseModel;
use crate::sparse::SparseCorrection;
use crate::sparse::positions_sorted;
use crate::pauli::ErrorType;
use crate::pauli::GateType;
use crate::pauli::QubitType;
use crate::pauli::is_initialization_spec;
use crate::pauli::is_measurement_spec;
use crate::pauli::is_single_qubit_gate_spec;
use crate::pauli::is_two_qubit_gate_spec;
use crate::pauli::pauli_mul;
use crate::pauli::peer_gate_spec;
use crate::pauli::propagate_peer_spec;
use crate::pauli::stabilizer_measurement_spec;
use crate::position::Position;
use crate::position::pos_lt;
use crate::rng::Xoroshiro128StarStar;
use crate::sparse::SparseErasures;
use crate::sparse::SparseErrorPattern;
use crate::sparse::SparseMeasurement;
use crate::sparse::entries_sorted;
use crate::sparse::lemma_entries_key_at;
use crate::sparse::has_key;
use crate::sparse::value_of_key;

verus! {

/// One cell of the space-time lattice: its role, what acts there in this
/// layer, its coupled peer on a two-qubit kind, and the per-trial fault
/// state. Faults are applied after that action.
#[derive(Debug)]
pub struct SimulatorNode {
    pub qubit_type: QubitType,
    pub gate_type: GateType,
    pub gate_peer: Option<Box<Position>>,
    pub error: ErrorType,
    pub has_erasure: bool,
    pub propagated: ErrorType,
    /// A virtual cell stands for a missing boundary stabilizer: it never
    /// originates faults and never propagates its frame to a real peer.
    pub is_virtual: bool,
    pub is_peer_virtual: bool,
}

impl SimulatorNode {
    /// The peer position, with the box erased.
    pub open spec fn peer(&self) -> Option<Position> {
        match self.gate_peer {
            Some(p) => Some(*p),
            None => None,
        }
    }

    /// Whether the per-trial state of this cell is clean.
    pub open spec fn is_clean(&self) -> bool {
        self.error == ErrorType::I && !self.has_erasure && self.propagated == ErrorType::I
    }

    /// Create a node with clean fault state and no virtual flags.
    pub fn new(qubit_type: QubitType, gate_type: GateType, gate_peer: Option<Position>) -> (r:
        Self)
        ensures
            r.qubit_type == qubit_type,
            r.gate_type == gate_type,
            r.peer() == gate_peer,
            r.error == ErrorType::I,
            !r.has_erasure,
            r.propagated == ErrorType::I,
            !r.is_virtual,
            !r.is_peer_virtual,
    {
        let boxed: Option<Box<Position>> = match gate_peer {
            Some(p) => Some(Box::new(p)),
            None => None,
        };
        Self {
            qubit_type,
            gate_type,
            gate_peer: boxed,
            error: ErrorType::I,
            has_erasure: false,
            propagated: ErrorType::I,
            is_virtual: false,
            is_peer_virtual: false,
        }
    }

    /// Replace this cell's coupled peer.
    pub fn set_gate_peer(&mut self, pos: Position)
        ensures
            *final(self) == (SimulatorNode { gate_peer: final(self).gate_peer, ..*old(self) }),
            final(self).peer() == Some(pos),
    {
        self.gate_peer = Some(Box::new(pos));
    }

    /// This cell's coupled peer position; there must be one.
    pub fn get_gate_peer(&self) -> (r: Position)
        requires
            self.peer() is Some,
        ensures
            Some(r) == self.peer(),
    {
        match &self.gate_peer {
            Some(p) => **p,
            None => vstd::pervasive::unreached(),
        }
    }

    /// This cell's coupled peer position, if any.
    pub fn get_peer_option(&self) -> (r: Option<Position>)
        ensures
            r == self.peer(),
    {
        match &self.gate_peer {
            Some(p) => Some(**p),
            None => None,
        }
    }

    /// Overwrite the sampled fault. A virtual cell never carries a fault of
    /// its own, so only the identity may be stored there.
    pub fn set_error_temp(&mut self, error: &ErrorType)
        requires
            !old(self).is_virtual || *error == ErrorType::I,
        ensures
            *final(self) == (SimulatorNode { error: *error, ..*old(self) }),
    {
        self.error = *error;
    }


    /// An exact copy of this node.
    pub fn duplicate(&self) -> (r: Self)
        ensures
            r == *self,
    {
        let peer: Option<Box<Position>> = match &self.gate_peer {
            Some(p) => Some(Box::new(**p)),
            None => None,
        };
        SimulatorNode {
            qubit_type: self.qubit_type,
            gate_type: self.gate_type,
            gate_peer: peer,
            error: self.error,
            has_erasure: self.has_erasure,
            propagated: self.propagated,
            is_virtual: self.is_virtual,
            is_peer_virtual: self.is_peer_virtual,
        }
    }

    /// Builder step: mark the virtual flags.
    pub fn set_virtual(self, is_virtual: bool, is_peer_virtual: bool) -> (r: Self)
        ensures
            r == (SimulatorNode { is_virtual, is_peer_virtual, ..self }),
    {
        let mut node = self;
        node.is_virtual = is_virtual;
        node.is_peer_virtual = is_peer_virtual;
        node
    }
}

/// A circuit-level simulator for a two-dimensional code: a lattice of
/// `height × vertical × horizontal` optional nodes plus the reproducible
/// generator feeding fault sampling.
#[derive(Debug)]
pub struct Simulator {
    pub code_type: CodeType,
    pub height: usize,
    pub vertical: usize,
    pub horizontal: usize,
    pub nodes: Vec<Vec<Vec<Option<SimulatorNode>>>>,
    pub rng: Xoroshiro128StarStar,
    /// The number of layers of one stabilizer-measurement round.
    pub measurement_cycles: usize,
}

impl Simulator {
    /// The node array is a full `height × vertical × horizontal` cube.
    pub open spec fn dims_ok(&self) -> bool {
        &&& self.nodes@.len() == self.height
        &&& forall|t: int|
            0 <= t < self.height ==> #[trigger] self.nodes@[t]@.len() == self.vertical
        &&& forall|t: int, i: int|
            0 <= t < self.height && 0 <= i < self.vertical ==> #[trigger] self.nodes@[t]@[i]@.len()
                == self.horizontal
    }

    /// The optional node stored at `(t, i, j)` (bounds must hold).
    pub open spec fn node_at(&self, t: int, i: int, j: int) -> Option<SimulatorNode> {
        self.nodes@[t]@[i]@[j]
    }

    /// Whether `(t, i, j)` is within the lattice bounds.
    pub open spec fn in_bounds(&self, t: int, i: int, j: int) -> bool {
        0 <= t < self.height && 0 <= i < self.vertical && 0 <= j < self.horizontal
    }

    /// Whether a node exists at `(t, i, j)`.
    pub open spec fn exists_at(&self, t: int, i: int, j: int) -> bool {
        self.in_bounds(t, i, j) && self.node_at(t, i, j) is Some
    }

    /// The node at `(t, i, j)`; it must exist.
    pub open spec fn get(&self, t: int, i: int, j: int) -> SimulatorNode {
        self.node_at(t, i, j)->Some_0
    }

    /// Whether two simulators agree on everything except the per-trial state:
    /// same code, same shape, same gates, peers and flags at every cell.
    pub open spec fn same_lattice(&self, other: &Simulator) -> bool {
        &&& other.code_type == self.code_type
        &&& other.height == self.height
        &&& other.vertical == self.vertical
        &&& other.horizontal == self.horizontal
        &&& other.measurement_cycles == self.measurement_cycles
        &&& forall|t: int, i: int, j: int|
            self.in_bounds(t, i, j) ==> #[trigger] other.exists_at(t, i, j) == self.exists_at(
                t,
                i,
                j,
            )
        &&& forall|t: int, i: int, j: int|
            self.exists_at(t, i, j) ==> {
                let a = self.get(t, i, j);
                let b = #[trigger] other.get(t, i, j);
                b.qubit_type == a.qubit_type && b.gate_type == a.gate_type && b.peer() == a.peer()
                    && b.is_virtual == a.is_virtual && b.is_peer_virtual == a.is_peer_virtual
            }
    }

    /// Structural well-formedness of the lattice, as the builder establishes
    /// it and the sanity check decides it: a full cube, existence constant
    /// along the time axis, and two-qubit gates paired symmetrically with an
    /// existing peer in the same layer.
    #[verifier::opaque]
    pub open spec fn lattice_wf(&self) -> bool {
        &&& self.dims_ok()
        &&& self.measurement_cycles >= 1
        &&& forall|t: int, i: int, j: int|
            self.in_bounds(t, i, j) ==> #[trigger] self.exists_at(t, i, j) == self.exists_at(
                0,
                i,
                j,
            )
        &&& forall|t: int, i: int, j: int|
            self.exists_at(t, i, j) ==> #[trigger] cell_peer_ok(*self, t, i, j)
    }

    /// Whether every cell's per-trial state is clean.
    pub open spec fn all_clean(&self) -> bool {
        forall|t: int, i: int, j: int|
            self.exists_at(t, i, j) ==> (#[trigger] self.get(t, i, j)).is_clean()
    }

    /// Whether every cell's propagated frame is the identity.
    pub open spec fn propagated_clean(&self) -> bool {
        forall|t: int, i: int, j: int|
            self.exists_at(t, i, j) ==> (#[trigger] self.get(t, i, j)).propagated == ErrorType::I
    }

    /// The number of cells of the bounding cube.
    pub fn volume(&self) -> (r: usize)
        requires
            self.height * self.vertical <= usize::MAX,
            self.height * self.vertical * self.horizontal <= usize::MAX,
        ensures
            r == self.height * self.vertical * self.horizontal,
    {
        proof {
            vstd::arithmetic::mul::lemma_mul_nonnegative(
                self.height as int,
                self.vertical as int,
            );
            vstd::arithmetic::mul::lemma_mul_upper_bound(
                self.height as int * self.vertical as int,
                self.height as int * self.vertical as int,
                self.horizontal as int,
                self.horizontal as int,
            );
        }
        self.height * self.vertical * self.horizontal
    }

    /// Whether `position` indexes inside the lattice cube.
    #[inline]
    pub fn is_valid_position(&self, position: &Position) -> (r: bool)
        ensures
            r == self.in_bounds(position.t as int, position.i as int, position.j as int),
    {
        position.t < self.height && position.i < self.vertical && position.j < self.horizontal
    }

    /// Whether a node exists at `position`.
    #[inline]
    pub fn is_node_exist(&self, position: &Position) -> (r: bool)
        requires
            self.dims_ok(),
        ensures
            r == self.exists_at(position.t as int, position.i as int, position.j as int),
    {
        self.is_valid_position(position) && self.get_node(position).is_some()
    }

    /// Whether the node at `position` exists and is real (not virtual).
    #[inline]
    pub fn is_node_real(&self, position: &Position) -> (r: bool)
        requires
            self.dims_ok(),
        ensures
            r == (self.exists_at(position.t as int, position.i as int, position.j as int)
                && !self.get(position.t as int, position.i as int, position.j as int).is_virtual),
    {
        self.is_node_exist(position) && !self.get_node_unwrap(position).is_virtual
    }

    /// Whether the node at `position` exists and is a virtual boundary cell.
    #[inline]
    pub fn is_node_virtual(&self, position: &Position) -> (r: bool)
        requires
            self.dims_ok(),
        ensures
            r == (self.exists_at(position.t as int, position.i as int, position.j as int)
                && self.get(position.t as int, position.i as int, position.j as int).is_virtual),
    {
        self.is_node_exist(position) && self.get_node_unwrap(position).is_virtual
    }

    /// The optional node slot at `position`; the position must be in bounds.
    #[inline]
    pub fn get_node(&self, position: &Position) -> (r: &Option<SimulatorNode>)
        requires
            self.dims_ok(),
            self.in_bounds(position.t as int, position.i as int, position.j as int),
        ensures
            *r == self.node_at(position.t as int, position.i as int, position.j as int),
    {
        &self.nodes[position.t][position.i][position.j]
    }

    /// The node at `position`; it must exist.
    #[inline]
    pub fn get_node_unwrap(&self, position: &Position) -> (r: &SimulatorNode)
        requires
            self.dims_ok(),
            self.exists_at(position.t as int, position.i as int, position.j as int),
        ensures
            *r == self.get(position.t as int, position.i as int, position.j as int),
    {
        match &self.nodes[position.t][position.i][position.j] {
            Some(node) => node,
            None => vstd::pervasive::unreached(),
        }
    }

    /// A mutable borrow of the node at `position`; it must exist. Writing
    /// through the borrow changes that cell alone.
    #[inline]
    pub fn get_node_mut_unwrap(&mut self, position: &Position) -> (r: &mut SimulatorNode)
        requires
            old(self).dims_ok(),
            old(self).exists_at(position.t as int, position.i as int, position.j as int),
        ensures
            *r == old(self).get(position.t as int, position.i as int, position.j as int),
            final(self).code_type == old(self).code_type,
            final(self).height == old(self).height,
            final(self).vertical == old(self).vertical,
            final(self).horizontal == old(self).horizontal,
            final(self).measurement_cycles == old(self).measurement_cycles,
            final(self).rng == old(self).rng,
            final(self).dims_ok(),
            forall|t: int, i: int, j: int|
                old(self).in_bounds(t, i, j) ==> #[trigger] final(self).node_at(t, i, j) == (if t
                    == position.t && i == position.i && j == position.j {
                    Some(*final(r))
                } else {
                    old(self).node_at(t, i, j)
                }),
    {
        let t = position.t;
        let i = position.i;
        let j = position.j;
        match &mut self.nodes[t][i][j] {
            Some(node) => node,
            None => vstd::pervasive::unreached(),
        }
    }

    /// Store a sampled fault at `position` (the node must exist; a virtual
    /// cell only accepts the identity).
    pub fn set_nodes(&mut self, position: Position, error: ErrorType)
        requires
            old(self).dims_ok(),
            old(self).exists_at(position.t as int, position.i as int, position.j as int),
            !old(self).get(position.t as int, position.i as int, position.j as int).is_virtual
                || error == ErrorType::I,
        ensures
            final(self).dims_ok(),
            final(self).same_lattice(old(self)),
            final(self).rng == old(self).rng,
            forall|t: int, i: int, j: int|
                old(self).in_bounds(t, i, j) ==> #[trigger] final(self).node_at(t, i, j) == (if t
                    == position.t && i == position.i && j == position.j {
                    Some(
                        SimulatorNode {
                            error,
                            ..old(self).get(position.t as int, position.i as int, position.j as int)
                        },
                    )
                } else {
                    old(self).node_at(t, i, j)
                }),
    {
        let node = self.get_node_mut_unwrap(&position);
        node.set_error_temp(&error);
    }

    /// Compute and store the propagated frame of one cell at layer `t >= 1`
    /// from the already-propagated layer below. `base` is the state the
    /// frames are defined over; the caller supplies the pointwise agreement
    /// of this state with `base` at the source cell and its peer.
    #[verifier::spinoff_prover]
    fn propagate_into(&mut self, position: &Position, Ghost(base): Ghost<Simulator>)
        requires
            old(self).dims_ok(),
            position.t >= 1,
            old(self).exists_at(position.t as int, position.i as int, position.j as int),
            old(self).exists_at(position.t - 1, position.i as int, position.j as int),
            base.exists_at(position.t - 1, position.i as int, position.j as int),
            ({
                let n_old = old(self).get(position.t - 1, position.i as int, position.j as int);
                let n_base = base.get(position.t - 1, position.i as int, position.j as int);
                &&& n_old.gate_type == n_base.gate_type
                &&& n_old.error == n_base.error
                &&& n_old.peer() == n_base.peer()
                &&& n_old.propagated == propagated_frame(
                    base,
                    position.t - 1,
                    position.i as int,
                    position.j as int,
                )
            }),
            match old(self).get(position.t - 1, position.i as int, position.j as int).peer() {
                Some(p) => {
                    &&& old(self).exists_at(position.t - 1, p.i as int, p.j as int)
                    &&& base.exists_at(position.t - 1, p.i as int, p.j as int)
                    &&& ({
                        let q_old = old(self).get(position.t - 1, p.i as int, p.j as int);
                        let q_base = base.get(position.t - 1, p.i as int, p.j as int);
                        &&& q_old.gate_type == q_base.gate_type
                        &&& q_old.is_virtual == q_base.is_virtual
                        &&& q_old.is_peer_virtual == q_base.is_peer_virtual
                        &&& q_old.propagated == propagated_frame(
                            base,
                            position.t - 1,
                            p.i as int,
                            p.j as int,
                        )
                        &&& is_two_qubit_gate_spec(q_base.gate_type)
                    })
                },
                None => true,
            },
        ensures
            final(self).dims_ok(),
            final(self).code_type == old(self).code_type,
            final(self).height == old(self).height,
            final(self).vertical == old(self).vertical,
            final(self).horizontal == old(self).horizontal,
            final(self).measurement_cycles == old(self).measurement_cycles,
            final(self).rng == old(self).rng,
            forall|t: int, i: int, j: int|
                old(self).in_bounds(t, i, j) ==> #[trigger] final(self).node_at(t, i, j) == (if t
                    == position.t && i == position.i && j == position.j {
                    Some(
                        SimulatorNode {
                            propagated: propagated_frame(base, t, i, j),
                            ..old(self).get(t, i, j)
                        },
                    )
                } else {
                    old(self).node_at(t, i, j)
                }),
    {
        let t = position.t;
        let i = position.i;
        let j = position.j;
        let below = Position::new(t - 1, i, j);
        let n_gate = self.get_node_unwrap(&below).gate_type;
        let n_error = self.get_node_unwrap(&below).error;
        let n_prop = self.get_node_unwrap(&below).propagated;
        let self_contrib = if n_gate.is_initialization() {
            ErrorType::I
        } else {
            n_error.multiply(&n_prop)
        };
        let peer_contrib = match self.get_node_unwrap(&below).get_peer_option() {
            Some(p) => {
                let q_pos = Position::new(t - 1, p.i, p.j);
                let q_gate = self.get_node_unwrap(&q_pos).gate_type;
                let q_virtual = self.get_node_unwrap(&q_pos).is_virtual;
                let q_peer_virtual = self.get_node_unwrap(&q_pos).is_peer_virtual;
                let q_prop = self.get_node_unwrap(&q_pos).propagated;
                if q_virtual && !q_peer_virtual {
                    ErrorType::I
                } else {
                    q_gate.propagate_peer(&q_prop)
                }
            },
            None => ErrorType::I,
        };
        let v = self_contrib.multiply(&peer_contrib);
        proof {
            reveal(propagated_frame);
            assert(v == propagated_frame(base, t as int, i as int, j as int));
        }
        self.set_propagated(position, v);
    }

    /// Propagate the injected errors through the whole circuit, layer by
    /// layer: afterwards every cell's propagated frame equals the unique
    /// frame implied by the error fields. The frames must be clean first.
    /// Propagate one layer: compute the frames of every cell at layer `tgt`
    /// from the already-propagated layer below.
    #[verifier::spinoff_prover]
    fn propagate_layer(&mut self, tgt: usize, Ghost(base): Ghost<Simulator>)
        requires
            base.lattice_wf(),
            old(self).dims_ok(),
            old(self).same_lattice(&base),
            1 <= tgt < old(self).height,
            forall|a: int, b: int, c: int|
                base.exists_at(a, b, c) ==> {
                    let x = base.get(a, b, c);
                    let y = #[trigger] old(self).get(a, b, c);
                    y.error == x.error && y.has_erasure == x.has_erasure
                },
            forall|a: int, b: int, c: int|
                old(self).exists_at(a, b, c) && a < tgt ==> (#[trigger] old(self).get(
                    a,
                    b,
                    c,
                )).propagated == propagated_frame(base, a, b, c),
            forall|a: int, b: int, c: int|
                old(self).exists_at(a, b, c) && a >= tgt ==> (#[trigger] old(self).get(
                    a,
                    b,
                    c,
                )).propagated == ErrorType::I,
        ensures
            final(self).dims_ok(),
            final(self).same_lattice(&base),
            final(self).code_type == old(self).code_type,
            final(self).height == old(self).height,
            final(self).vertical == old(self).vertical,
            final(self).horizontal == old(self).horizontal,
            final(self).measurement_cycles == old(self).measurement_cycles,
            final(self).rng == old(self).rng,
            forall|a: int, b: int, c: int|
                base.exists_at(a, b, c) ==> {
                    let x = base.get(a, b, c);
                    let y = #[trigger] final(self).get(a, b, c);
                    y.error == x.error && y.has_erasure == x.has_erasure
                },
            forall|a: int, b: int, c: int|
                final(self).exists_at(a, b, c) && a < tgt + 1 ==> (#[trigger] final(self).get(
                    a,
                    b,
                    c,
                )).propagated == propagated_frame(base, a, b, c),
            forall|a: int, b: int, c: int|
                final(self).exists_at(a, b, c) && a >= tgt + 1 ==> (#[trigger] final(self).get(
                    a,
                    b,
                    c,
                )).propagated == ErrorType::I,
    {
        let vertical = self.vertical;
        let horizontal = self.horizontal;
        let mut i: usize = 0;
        while i < vertical
            invariant
                base.lattice_wf(),
                self.dims_ok(),
                self.same_lattice(&base),
                self.same_lattice(old(self)),
                self.rng == old(self).rng,
                vertical == self.vertical,
                horizontal == self.horizontal,
                1 <= tgt < self.height,
                i <= vertical,
                forall|a: int, b: int, c: int|
                    base.exists_at(a, b, c) ==> {
                        let x = base.get(a, b, c);
                        let y = #[trigger] self.get(a, b, c);
                        y.error == x.error && y.has_erasure == x.has_erasure
                    },
                forall|a: int, b: int, c: int|
                    self.exists_at(a, b, c) && (a < tgt || (a == tgt && b < i)) ==> (
                    #[trigger] self.get(a, b, c)).propagated == propagated_frame(base, a, b, c),
                forall|a: int, b: int, c: int|
                    self.exists_at(a, b, c) && (a > tgt || (a == tgt && b >= i)) ==> (
                    #[trigger] self.get(a, b, c)).propagated == ErrorType::I,
            decreases vertical - i,
        {
            let mut j: usize = 0;
            while j < horizontal
                invariant
                    base.lattice_wf(),
                    self.dims_ok(),
                    self.same_lattice(&base),
                    self.same_lattice(old(self)),
                    self.rng == old(self).rng,
                    vertical == self.vertical,
                    horizontal == self.horizontal,
                    1 <= tgt < self.height,
                    i < vertical,
                    j <= horizontal,
                    forall|a: int, b: int, c: int|
                        base.exists_at(a, b, c) ==> {
                            let x = base.get(a, b, c);
                            let y = #[trigger] self.get(a, b, c);
                            y.error == x.error && y.has_erasure == x.has_erasure
                        },
                    forall|a: int, b: int, c: int|
                        self.exists_at(a, b, c) && (a < tgt || (a == tgt && b < i) || (a == tgt
                            && b == i && c < j)) ==> (#[trigger] self.get(a, b, c)).propagated
                            == propagated_frame(base, a, b, c),
                    forall|a: int, b: int, c: int|
                        self.exists_at(a, b, c) && (a > tgt || (a == tgt && b > i) || (a == tgt
                            && b == i && c >= j)) ==> (#[trigger] self.get(a, b, c)).propagated
                            == ErrorType::I,
                decreases horizontal - j,
            {
                let position = Position::new(tgt, i, j);
                if self.is_node_exist(&position) {
                    proof {
                        lemma_propagate_step_facts(*self, base, tgt as int, i as int, j as int);
                    }
                    let ghost prev = *self;
                    self.propagate_into(&position, Ghost(base));
                    proof {
                        lemma_propagate_step_update(prev, *self, base, tgt as int, i as int, j as int);
                    }
                }
                j += 1;
            }
            i += 1;
        }
    }

    /// Propagate the injected errors through the whole circuit, layer by
    /// layer: afterwards every cell's propagated frame equals the unique
    /// frame implied by the error fields. The frames must be clean first.
    #[verifier::rlimit(100)]
    #[verifier::spinoff_prover]
    pub fn propagate_errors(&mut self)
        requires
            old(self).lattice_wf(),
            old(self).propagated_clean(),
        ensures
            final(self).lattice_wf(),
            final(self).same_lattice(old(self)),
            final(self).rng == old(self).rng,
            forall|t: int, i: int, j: int|
                old(self).exists_at(t, i, j) ==> {
                    let a = old(self).get(t, i, j);
                    let b = #[trigger] final(self).get(t, i, j);
                    b.error == a.error && b.has_erasure == a.has_erasure
                },
            forall|t: int, i: int, j: int|
                final(self).exists_at(t, i, j) ==> (#[trigger] final(self).get(t, i, j)).propagated
                    == propagated_frame(*old(self), t, i, j),
    {
        let height = self.height;
        proof {
            lemma_wf_dims(*old(self));
            assert forall|b: int, c: int|
                old(self).exists_at(0, b, c) implies (#[trigger] old(self).get(0, b, c)).propagated
                == propagated_frame(*old(self), 0, b, c) by {
                lemma_frame_layer_zero(*old(self), b, c);
            }
        }
        let mut tgt: usize = 1;
        while tgt < height
            invariant
                old(self).lattice_wf(),
                self.dims_ok(),
                self.same_lattice(old(self)),
                self.rng == old(self).rng,
                height == self.height,
                1 <= tgt,
                height >= 1 ==> tgt <= height,
                height < 1 ==> tgt == 1,
                forall|a: int, b: int, c: int|
                    old(self).exists_at(a, b, c) ==> {
                        let x = old(self).get(a, b, c);
                        let y = #[trigger] self.get(a, b, c);
                        y.error == x.error && y.has_erasure == x.has_erasure
                    },
                forall|a: int, b: int, c: int|
                    self.exists_at(a, b, c) && a < tgt ==> (#[trigger] self.get(a, b, c)).propagated
                        == propagated_frame(*old(self), a, b, c),
                forall|a: int, b: int, c: int|
                    self.exists_at(a, b, c) && a >= tgt ==> (#[trigger] self.get(
                        a,
                        b,
                        c,
                    )).propagated == ErrorType::I,
            decreases height - tgt,
        {
            self.propagate_layer(tgt, Ghost(*old(self)));
            tgt += 1;
        }
        proof {
            lemma_same_lattice_preserves_wf(*old(self), *self);
        }
    }


    /// Whether the measurement at `position` is a defect: its outcome under
    /// the propagated frame differs from the previous measurement of the same
    /// column.
    fn measurement_result_differs(&self, position: &Position) -> (r: bool)
        requires
            self.lattice_wf(),
            self.exists_at(position.t as int, position.i as int, position.j as int),
            is_measurement_spec(
                self.get(position.t as int, position.i as int, position.j as int).gate_type,
            ),
            measurement_found(*self, position.t as int, position.i as int, position.j as int),
        ensures
            r == defect_at(*self, position.t as int, position.i as int, position.j as int),
    {
        proof {
            lemma_wf_dims(*self);
            lemma_meas_walk_step(
                *self,
                position.t as int,
                position.i as int,
                position.j as int,
            );
        }
        let node = self.get_node_unwrap(position);
        let this_result = node.gate_type.stabilizer_measurement(&node.propagated);
        let cycles = self.measurement_cycles;
        let mut previous_t: usize = position.t;
        loop
            invariant
                self.lattice_wf(),
                self.dims_ok(),
                cycles == self.measurement_cycles,
                cycles >= 1,
                previous_t <= position.t,
                position.i < self.vertical,
                position.j < self.horizontal,
                position.t < self.height,
                self.exists_at(position.t as int, position.i as int, position.j as int),
                is_measurement_spec(
                    self.get(position.t as int, position.i as int, position.j as int).gate_type,
                ),
                measurement_found(*self, position.t as int, position.i as int, position.j as int),
                this_result == stabilizer_measurement_spec(
                    self.get(position.t as int, position.i as int, position.j as int).gate_type,
                    self.get(position.t as int, position.i as int, position.j as int).propagated,
                ),
                measurement_found(*self, previous_t as int, position.i as int, position.j as int),
                prev_meas_layer(*self, previous_t as int, position.i as int, position.j as int)
                    == prev_meas_layer(
                    *self,
                    position.t as int,
                    position.i as int,
                    position.j as int,
                ),
            decreases previous_t,
        {
            proof {
                lemma_prev_meas_layer(
                    *self,
                    previous_t as int,
                    position.i as int,
                    position.j as int,
                );
                lemma_meas_walk_step(
                    *self,
                    previous_t as int,
                    position.i as int,
                    position.j as int,
                );
            }
            let ghost old_pt = previous_t as int;
            previous_t = previous_t - cycles;
            let previous_position = Position::new(previous_t, position.i, position.j);
            proof {
                lemma_wf_column(
                    *self,
                    previous_t as int,
                    position.i as int,
                    position.j as int,
                );
                lemma_wf_column(*self, position.t as int, position.i as int, position.j as int);
                assert(self.exists_at(previous_t as int, position.i as int, position.j as int));
            }
            let previous_node = self.get_node_unwrap(&previous_position);
            if previous_node.gate_type.is_measurement() {
                proof {
                    assert(prev_meas_layer(*self, old_pt, position.i as int, position.j as int)
                        == previous_t as int);
                    lemma_defect_at_unfold(
                        *self,
                        position.t as int,
                        position.i as int,
                        position.j as int,
                    );
                }
                let previous_result = previous_node.gate_type.stabilizer_measurement(
                    &previous_node.propagated,
                );
                return this_result != previous_result;
            }
            proof {
                assert(prev_meas_layer(*self, old_pt, position.i as int, position.j as int)
                    == prev_meas_layer(
                    *self,
                    previous_t as int,
                    position.i as int,
                    position.j as int,
                ));
                assert(measurement_found(
                    *self,
                    previous_t as int,
                    position.i as int,
                    position.j as int,
                ));
            }
        }
    }

    /// Collect the defect measurements on real stabilizers, in ascending
    /// position order: the cells on measurement-round layers whose outcome
    /// changed since the previous round.
    pub fn generate_sparse_measurement(&self) -> (r: SparseMeasurement)
        requires
            self.lattice_wf(),
            syndrome_wf(*self),
        ensures
            r.wf(),
            forall|p: Position|
                #[trigger] r@.contains(p) <==> (self.measurement_cycles <= p.t < self.height && (
                p.t as int) % (self.measurement_cycles as int) == 0 && defect_at(
                    *self,
                    p.t as int,
                    p.i as int,
                    p.j as int,
                ) && !self.get(p.t as int, p.i as int, p.j as int).is_virtual),
    {
        self.generate_sparse_measurement_filtered(false)
    }

    /// Collect the defect measurements on virtual stabilizers, in ascending
    /// position order.
    pub fn generate_sparse_measurement_virtual(&self) -> (r: SparseMeasurement)
        requires
            self.lattice_wf(),
            syndrome_wf(*self),
        ensures
            r.wf(),
            forall|p: Position|
                #[trigger] r@.contains(p) <==> (self.measurement_cycles <= p.t < self.height && (
                p.t as int) % (self.measurement_cycles as int) == 0 && defect_at(
                    *self,
                    p.t as int,
                    p.i as int,
                    p.j as int,
                ) && self.get(p.t as int, p.i as int, p.j as int).is_virtual),
    {
        self.generate_sparse_measurement_filtered(true)
    }

    /// Collect the defect measurements whose cell's virtual flag equals
    /// `want_virtual`, in ascending position order.
    #[verifier::spinoff_prover]
    fn generate_sparse_measurement_filtered(&self, want_virtual: bool) -> (r: SparseMeasurement)
        requires
            self.lattice_wf(),
            syndrome_wf(*self),
        ensures
            r.wf(),
            forall|p: Position|
                #[trigger] r@.contains(p) <==> (self.measurement_cycles <= p.t < self.height && (
                p.t as int) % (self.measurement_cycles as int) == 0 && defect_at(
                    *self,
                    p.t as int,
                    p.i as int,
                    p.j as int,
                ) && self.get(p.t as int, p.i as int, p.j as int).is_virtual == want_virtual),
    {
        proof {
            lemma_wf_dims(*self);
        }
        let mut out = SparseMeasurement::new();
        let height = self.height;
        let vertical = self.vertical;
        let horizontal = self.horizontal;
        let cycles = self.measurement_cycles;
        let mut t: usize = cycles;
        proof {
            vstd::arithmetic::div_mod::lemma_mod_self_0(cycles as int);
            assert forall|p: Position| #[trigger] out@.contains(p) <==> meas_cond(
                *self,
                want_virtual,
                p,
                t as int,
                0,
                0,
            ) by {
                assert(!out@.contains(p));
                assert(!scan_before(p, t as int, 0, 0) ==> !meas_cond(
                    *self,
                    want_virtual,
                    p,
                    t as int,
                    0,
                    0,
                ));
            }
        }
        while t < height
            invariant
                self.lattice_wf(),
                self.dims_ok(),
                syndrome_wf(*self),
                height == self.height,
                vertical == self.vertical,
                horizontal == self.horizontal,
                cycles == self.measurement_cycles,
                cycles >= 1,
                cycles <= t,
                t < height ==> (t as int) % (cycles as int) == 0,
                out.wf(),
                forall|p: Position| #[trigger] out@.contains(p) <==> meas_cond(*self, want_virtual, p, t as int, 0, 0),
            ensures
                t >= height,
                out.wf(),
                forall|p: Position| #[trigger] out@.contains(p) <==> meas_cond(*self, want_virtual, p, t as int, 0, 0),
            decreases height - t,
        {
            let mut i: usize = 0;
            while i < vertical
                invariant
                    self.lattice_wf(),
                    self.dims_ok(),
                    syndrome_wf(*self),
                    height == self.height,
                    vertical == self.vertical,
                    horizontal == self.horizontal,
                    cycles == self.measurement_cycles,
                    cycles >= 1,
                    cycles <= t < height,
                    (t as int) % (cycles as int) == 0,
                    i <= vertical,
                    out.wf(),
                    forall|p: Position|
                        #[trigger] out@.contains(p) <==> meas_cond(*self, want_virtual, p, t as int, i as int, 0),
                decreases vertical - i,
            {
                let mut j: usize = 0;
                while j < horizontal
                    invariant
                        self.lattice_wf(),
                        self.dims_ok(),
                        syndrome_wf(*self),
                        height == self.height,
                        vertical == self.vertical,
                        horizontal == self.horizontal,
                        cycles == self.measurement_cycles,
                        cycles >= 1,
                        cycles <= t < height,
                        (t as int) % (cycles as int) == 0,
                        i < vertical,
                        j <= horizontal,
                        out.wf(),
                        forall|p: Position|
                            #[trigger] out@.contains(p) <==> meas_cond(*self, want_virtual, p, t as int, i as int, j as int),
                    decreases horizontal - j,
                {
                    let position = Position::new(t, i, j);
                    let mut is_defect = false;
                    if self.is_node_exist(&position) {
                        let node = self.get_node_unwrap(&position);
                        if node.is_virtual == want_virtual && node.gate_type.is_measurement() {
                            is_defect = self.measurement_result_differs(&position);
                        }
                    }
                    let ghost prev_out = out@;
                    if is_defect {
                        out.insert_defect_measurement(&position);
                    }
                    proof {
                        assert forall|p: Position| #[trigger] out@.contains(p) <==> meas_cond(*self, want_virtual, p,
                            t as int,
                            i as int,
                            j + 1,
                        ) by {
                            if p == position {
                                assert(!meas_cond(*self, want_virtual, p, t as int, i as int, j as int));
                                assert(!prev_out.contains(p));
                                assert(out@.contains(p) == is_defect);
                                if is_defect {
                                    assert(meas_cond(*self, want_virtual, p, t as int, i as int, j + 1));
                                }
                                if meas_cond(*self, want_virtual, p, t as int, i as int, j + 1) {
                                    assert(defect_at(*self, t as int, i as int, j as int));
                                    lemma_defect_at_unfold(*self, t as int, i as int, j as int);
                                    assert(self.exists_at(t as int, i as int, j as int));
                                    assert(is_measurement_spec(
                                        self.get(t as int, i as int, j as int).gate_type,
                                    ));
                                    assert(is_defect);
                                }
                            } else {
                                assert(out@.contains(p) == prev_out.contains(p));
                            }
                        }
                    }
                    j += 1;
                }
                proof {
                    assert forall|p: Position| #[trigger] out@.contains(p) <==> meas_cond(*self, want_virtual, p,
                        t as int,
                        i + 1,
                        0,
                    ) by {
                        if meas_cond(*self, want_virtual, p, t as int, i + 1, 0) && !(p.t < t || (p.t == t && p.i < i)) {
                            assert(p.t == t && p.i == i);
                            lemma_defect_at_unfold(*self, p.t as int, p.i as int, p.j as int);
                            assert(self.exists_at(p.t as int, p.i as int, p.j as int));
                            assert(p.j < horizontal);
                        }
                        if out@.contains(p) && p.t == t && p.i == i {
                            assert(meas_cond(*self, want_virtual, p, t as int, i as int, horizontal as int));
                        }
                    }
                }
                i += 1;
            }
            proof {
                assert forall|p: Position| #[trigger] out@.contains(p) <==> meas_cond(*self, want_virtual, p,
                    t + cycles,
                    0,
                    0,
                ) by {
                    if meas_cond(*self, want_virtual, p, t + cycles, 0, 0) && !(p.t < t) {
                        assert(t <= p.t < t + cycles);
                        if p.t != t {
                            assert((p.t as int) % (cycles as int) == 0);
                            assert((t as int) % (cycles as int) == 0);
                            assert(false) by {
                                vstd::arithmetic::div_mod::lemma_mod_equivalence(
                                    p.t as int,
                                    t as int,
                                    cycles as int,
                                );
                                vstd::arithmetic::div_mod::lemma_small_mod(
                                    (p.t - t) as nat,
                                    cycles as nat,
                                );
                            }
                        }
                        if p.t == t {
                            lemma_defect_at_unfold(*self, p.t as int, p.i as int, p.j as int);
                            assert(self.exists_at(p.t as int, p.i as int, p.j as int));
                            assert(meas_cond(*self, want_virtual, p, t as int, vertical as int, 0));
                        }
                    }
                    if out@.contains(p) {
                        assert(meas_cond(*self, want_virtual, p, t as int, vertical as int, 0));
                    }
                }
            }
            if height - t <= cycles {
                proof {
                    assert forall|p: Position| #[trigger] out@.contains(p) <==> meas_cond(
                        *self,
                        want_virtual,
                        p,
                        height as int,
                        0,
                        0,
                    ) by {
                        if out@.contains(p) {
                            assert(meas_cond(*self, want_virtual, p, t + cycles, 0, 0));
                        }
                        if meas_cond(*self, want_virtual, p, height as int, 0, 0) {
                            assert(p.t < height <= t + cycles);
                            assert(meas_cond(*self, want_virtual, p, t + cycles, 0, 0));
                        }
                    }
                }
                t = height;
                break ;
            }
            proof {
                vstd::arithmetic::div_mod::lemma_mod_add_multiples_vanish(
                    t as int,
                    cycles as int,
                );
            }
            t += cycles;
        }
        proof {
            assert forall|p: Position|
                #[trigger] out@.contains(p) <==> (self.measurement_cycles <= p.t < self.height && (
            p.t as int) % (self.measurement_cycles as int) == 0 && defect_at(
                *self,
                p.t as int,
                p.i as int,
                p.j as int,
            ) && self.get(p.t as int, p.i as int, p.j as int).is_virtual == want_virtual) by {
                if out@.contains(p) {
                    assert(meas_cond(*self, want_virtual, p, t as int, 0, 0));
                }
                if self.measurement_cycles <= p.t < self.height && (p.t as int) % (
                self.measurement_cycles as int) == 0 && defect_at(
                    *self,
                    p.t as int,
                    p.i as int,
                    p.j as int,
                ) && self.get(p.t as int, p.i as int, p.j as int).is_virtual == want_virtual {
                    assert(p.t < height <= t);
                    assert(scan_before(p, t as int, 0, 0));
                    assert(meas_cond(*self, want_virtual, p, t as int, 0, 0));
                }
            }
        }
        out
    }

    /// Read off the correction implied by the top layer: the propagated
    /// frame of every data qubit there, in ascending position order.
    pub fn generate_sparse_correction(&self) -> (r: crate::sparse::SparseCorrection)
        requires
            self.lattice_wf(),
            self.height >= 1,
        ensures
            r.wf(),
            forall|p: Position|
                #[trigger] has_key(r@, p) <==> (p.t == self.height - 1 && self.exists_at(
                    p.t as int,
                    p.i as int,
                    p.j as int,
                ) && self.get(p.t as int, p.i as int, p.j as int).qubit_type == QubitType::Data
                    && self.get(p.t as int, p.i as int, p.j as int).propagated != ErrorType::I),
            forall|p: Position|
                #[trigger] has_key(r@, p) ==> value_of_key(r@, p) == self.get(
                    p.t as int,
                    p.i as int,
                    p.j as int,
                ).propagated,
    {
        proof {
            lemma_wf_dims(*self);
        }
        let mut out = crate::sparse::SparseCorrection::new();
        let vertical = self.vertical;
        let horizontal = self.horizontal;
        let t = self.height - 1;
        let mut i: usize = 0;
        while i < vertical
            invariant
                self.lattice_wf(),
                self.dims_ok(),
                self.height >= 1,
                t == self.height - 1,
                vertical == self.vertical,
                horizontal == self.horizontal,
                i <= vertical,
                out.wf(),
                forall|p: Position| #[trigger] has_key(out@, p) <==> corr_cond(*self, p, i as int, 0),
                forall|p: Position|
                    #[trigger] has_key(out@, p) ==> value_of_key(out@, p) == self.get(
                        p.t as int,
                        p.i as int,
                        p.j as int,
                    ).propagated,
                forall|k: int| 0 <= k < out@.len() ==> out@[k].0.t == t,
            decreases vertical - i,
        {
            let mut j: usize = 0;
            while j < horizontal
                invariant
                    self.lattice_wf(),
                    self.dims_ok(),
                    self.height >= 1,
                    t == self.height - 1,
                    vertical == self.vertical,
                    horizontal == self.horizontal,
                    i < vertical,
                    j <= horizontal,
                    out.wf(),
                    forall|p: Position| #[trigger] has_key(out@, p) <==> corr_cond(*self, p, i as int, j as int),
                    forall|p: Position|
                        #[trigger] has_key(out@, p) ==> value_of_key(out@, p) == self.get(
                            p.t as int,
                            p.i as int,
                            p.j as int,
                        ).propagated,
                    forall|k: int| 0 <= k < out@.len() ==> out@[k].0.t == t,
                decreases horizontal - j,
            {
                let position = Position::new(t, i, j);
                let ghost prev_out = out@;
                if self.is_node_exist(&position) {
                    let node = self.get_node_unwrap(&position);
                    if node.propagated != ErrorType::I && node.qubit_type == QubitType::Data {
                        out.add(position, node.propagated);
                    }
                }
                proof {
                    assert forall|p: Position| #[trigger] has_key(out@, p) <==> corr_cond(*self, p,
                        i as int,
                        j + 1,
                    ) by {
                        if p == position {
                            assert(!corr_cond(*self, p, i as int, j as int));
                            assert(!has_key(prev_out, p));
                        } else {
                            assert(has_key(out@, p) == has_key(prev_out, p));
                        }
                    }
                    assert forall|p: Position| #[trigger] has_key(out@, p) implies value_of_key(
                        out@,
                        p,
                    ) == self.get(p.t as int, p.i as int, p.j as int).propagated by {
                        if p == position {
                            assert(!has_key(prev_out, p));
                        } else {
                            assert(has_key(prev_out, p));
                            assert(value_of_key(out@, p) == value_of_key(prev_out, p));
                        }
                    }
                }
                j += 1;
            }
            proof {
                assert forall|p: Position| #[trigger] has_key(out@, p) <==> corr_cond(*self, p, i + 1, 0) by {
                    if corr_cond(*self, p, i + 1, 0) && p.i == i {
                        assert(self.exists_at(p.t as int, p.i as int, p.j as int));
                        assert(corr_cond(*self, p, i as int, horizontal as int));
                    }
                    if has_key(out@, p) && p.i == i {
                        assert(corr_cond(*self, p, i as int, horizontal as int));
                    }
                }
            }
            i += 1;
        }
        proof {
            assert forall|p: Position|
                #[trigger] has_key(out@, p) <==> (p.t == self.height - 1 && self.exists_at(
                p.t as int,
                p.i as int,
                p.j as int,
            ) && self.get(p.t as int, p.i as int, p.j as int).qubit_type == QubitType::Data
                && self.get(p.t as int, p.i as int, p.j as int).propagated != ErrorType::I) by {
                if has_key(out@, p) {
                    assert(corr_cond(*self, p, vertical as int, 0));
                }
                if p.t == self.height - 1 && self.exists_at(p.t as int, p.i as int, p.j as int)
                    && self.get(p.t as int, p.i as int, p.j as int).qubit_type == QubitType::Data
                    && self.get(p.t as int, p.i as int, p.j as int).propagated != ErrorType::I {
                    assert(p.i < vertical);
                    assert(corr_cond(*self, p, vertical as int, 0));
                }
            }
        }
        out
    }

    /// Collect every cell carrying a non-trivial fault, in ascending
    /// position order, with the fault it carries.
    pub fn generate_sparse_error_pattern(&self) -> (r: SparseErrorPattern)
        requires
            self.dims_ok(),
        ensures
            r.wf(),
            forall|p: Position|
                #[trigger] has_key(r@, p) <==> (self.exists_at(p.t as int, p.i as int, p.j as int)
                    && self.get(p.t as int, p.i as int, p.j as int).error != ErrorType::I),
            forall|p: Position|
                #[trigger] has_key(r@, p) ==> value_of_key(r@, p) == self.get(
                    p.t as int,
                    p.i as int,
                    p.j as int,
                ).error,
    {
        let mut out = SparseErrorPattern::new();
        let height = self.height;
        let vertical = self.vertical;
        let horizontal = self.horizontal;
        let mut t: usize = 0;
        while t < height
            invariant
                self.dims_ok(),
                height == self.height,
                vertical == self.vertical,
                horizontal == self.horizontal,
                t <= height,
                out.wf(),
                forall|p: Position| #[trigger] has_key(out@, p) <==> error_cond(*self, p, t as int, 0, 0),
                forall|p: Position|
                    #[trigger] has_key(out@, p) ==> value_of_key(out@, p) == self.get(
                        p.t as int,
                        p.i as int,
                        p.j as int,
                    ).error,
            decreases height - t,
        {
            let mut i: usize = 0;
            while i < vertical
                invariant
                    self.dims_ok(),
                    height == self.height,
                    vertical == self.vertical,
                    horizontal == self.horizontal,
                    t < height,
                    i <= vertical,
                    out.wf(),
                    forall|p: Position|
                        #[trigger] has_key(out@, p) <==> error_cond(*self, p, t as int, i as int, 0),
                    forall|p: Position|
                        #[trigger] has_key(out@, p) ==> value_of_key(out@, p) == self.get(
                            p.t as int,
                            p.i as int,
                            p.j as int,
                        ).error,
                decreases vertical - i,
            {
                let mut j: usize = 0;
                while j < horizontal
                    invariant
                        self.dims_ok(),
                        height == self.height,
                        vertical == self.vertical,
                        horizontal == self.horizontal,
                        t < height,
                        i < vertical,
                        j <= horizontal,
                        out.wf(),
                        forall|p: Position|
                            #[trigger] has_key(out@, p) <==> error_cond(*self, p, t as int, i as int, j as int),
                        forall|p: Position|
                            #[trigger] has_key(out@, p) ==> value_of_key(out@, p) == self.get(
                                p.t as int,
                                p.i as int,
                                p.j as int,
                            ).error,
                    decreases horizontal - j,
                {
                    let position = Position::new(t, i, j);
                    let ghost prev_out = out@;
                    if self.is_node_exist(&position) {
                        let node = self.get_node_unwrap(&position);
                        if node.error != ErrorType::I {
                            out.add(position, node.error);
                        }
                    }
                    proof {
                        assert forall|p: Position| #[trigger] has_key(out@, p) <==> error_cond(*self, p,
                            t as int,
                            i as int,
                            j + 1,
                        ) by {
                            if p == position {
                                assert(!error_cond(*self, p, t as int, i as int, j as int));
                                assert(!has_key(prev_out, p));
                            } else {
                                assert(has_key(out@, p) == has_key(prev_out, p));
                            }
                        }
                        assert forall|p: Position| #[trigger] has_key(out@, p) implies value_of_key(
                            out@,
                            p,
                        ) == self.get(p.t as int, p.i as int, p.j as int).error by {
                            if p == position {
                                assert(!has_key(prev_out, p));
                            } else {
                                assert(has_key(prev_out, p));
                                assert(value_of_key(out@, p) == value_of_key(prev_out, p));
                            }
                        }
                    }
                    j += 1;
                }
                proof {
                    assert forall|p: Position| #[trigger] has_key(out@, p) <==> error_cond(*self, p,
                        t as int,
                        i + 1,
                        0,
                    ) by {
                        if error_cond(*self, p, t as int, i + 1, 0) && p.t == t && p.i == i {
                            assert(self.exists_at(p.t as int, p.i as int, p.j as int));
                            assert(error_cond(*self, p, t as int, i as int, horizontal as int));
                        }
                        if has_key(out@, p) && p.t == t && p.i == i {
                            assert(error_cond(*self, p, t as int, i as int, horizontal as int));
                        }
                    }
                }
                i += 1;
            }
            proof {
                assert forall|p: Position| #[trigger] has_key(out@, p) <==> error_cond(*self, p,
                    t + 1,
                    0,
                    0,
                ) by {
                    if error_cond(*self, p, t + 1, 0, 0) && p.t == t {
                        assert(self.exists_at(p.t as int, p.i as int, p.j as int));
                        assert(error_cond(*self, p, t as int, vertical as int, 0));
                    }
                    if has_key(out@, p) && p.t == t {
                        assert(error_cond(*self, p, t as int, vertical as int, 0));
                    }
                }
            }
            t += 1;
        }
        proof {
            assert forall|p: Position|
                #[trigger] has_key(out@, p) <==> (self.exists_at(p.t as int, p.i as int, p.j as int)
                && self.get(p.t as int, p.i as int, p.j as int).error != ErrorType::I) by {
                if has_key(out@, p) {
                    assert(error_cond(*self, p, height as int, 0, 0));
                }
                if self.exists_at(p.t as int, p.i as int, p.j as int) && self.get(
                    p.t as int,
                    p.i as int,
                    p.j as int,
                ).error != ErrorType::I {
                    assert(error_cond(*self, p, height as int, 0, 0));
                }
            }
        }
        out
    }

    /// Collect every real cell marked as erased, in ascending position order.
    pub fn generate_sparse_detected_erasures(&self) -> (r: SparseErasures)
        requires
            self.dims_ok(),
        ensures
            r.wf(),
            forall|p: Position|
                #[trigger] r@.contains(p) <==> (self.exists_at(p.t as int, p.i as int, p.j as int)
                    && !self.get(p.t as int, p.i as int, p.j as int).is_virtual && self.get(
                    p.t as int,
                    p.i as int,
                    p.j as int,
                ).has_erasure),
    {
        let mut out = SparseErasures::new();
        let height = self.height;
        let vertical = self.vertical;
        let horizontal = self.horizontal;
        let mut t: usize = 0;
        while t < height
            invariant
                self.dims_ok(),
                height == self.height,
                vertical == self.vertical,
                horizontal == self.horizontal,
                t <= height,
                out.wf(),
                forall|p: Position| #[trigger] out@.contains(p) <==> erasure_cond(*self, p, t as int, 0, 0),
            decreases height - t,
        {
            let mut i: usize = 0;
            while i < vertical
                invariant
                    self.dims_ok(),
                    height == self.height,
                    vertical == self.vertical,
                    horizontal == self.horizontal,
                    t < height,
                    i <= vertical,
                    out.wf(),
                    forall|p: Position|
                        #[trigger] out@.contains(p) <==> erasure_cond(*self, p, t as int, i as int, 0),
                decreases vertical - i,
            {
                let mut j: usize = 0;
                while j < horizontal
                    invariant
                        self.dims_ok(),
                        height == self.height,
                        vertical == self.vertical,
                        horizontal == self.horizontal,
                        t < height,
                        i < vertical,
                        j <= horizontal,
                        out.wf(),
                        forall|p: Position|
                            #[trigger] out@.contains(p) <==> erasure_cond(*self, p, t as int, i as int, j as int),
                    decreases horizontal - j,
                {
                    let position = Position::new(t, i, j);
                    let ghost prev_out = out@;
                    if self.is_node_real(&position) {
                        let node = self.get_node_unwrap(&position);
                        if node.has_erasure {
                            out.insert_erasure(&position);
                        }
                    }
                    proof {
                        assert forall|p: Position| #[trigger] out@.contains(p) <==> erasure_cond(*self, p,
                            t as int,
                            i as int,
                            j + 1,
                        ) by {
                            if p == position {
                            } else {
                                assert(out@.contains(p) == prev_out.contains(p));
                            }
                        }
                    }
                    j += 1;
                }
                proof {
                    assert forall|p: Position| #[trigger] out@.contains(p) <==> erasure_cond(*self, p,
                        t as int,
                        i + 1,
                        0,
                    ) by {
                        if erasure_cond(*self, p, t as int, i + 1, 0) && p.t == t && p.i == i {
                            assert(self.exists_at(p.t as int, p.i as int, p.j as int));
                            assert(erasure_cond(*self, p, t as int, i as int, horizontal as int));
                        }
                        if out@.contains(p) && p.t == t && p.i == i {
                            assert(erasure_cond(*self, p, t as int, i as int, horizontal as int));
                        }
                    }
                }
                i += 1;
            }
            proof {
                assert forall|p: Position| #[trigger] out@.contains(p) <==> erasure_cond(*self, p,
                    t + 1,
                    0,
                    0,
                ) by {
                    if erasure_cond(*self, p, t + 1, 0, 0) && p.t == t {
                        assert(self.exists_at(p.t as int, p.i as int, p.j as int));
                        assert(erasure_cond(*self, p, t as int, vertical as int, 0));
                    }
                    if out@.contains(p) && p.t == t {
                        assert(erasure_cond(*self, p, t as int, vertical as int, 0));
                    }
                }
            }
            t += 1;
        }
        proof {
            assert forall|p: Position|
                #[trigger] out@.contains(p) <==> (self.exists_at(p.t as int, p.i as int, p.j as int)
                && !self.get(p.t as int, p.i as int, p.j as int).is_virtual && self.get(
                p.t as int,
                p.i as int,
                p.j as int,
            ).has_erasure) by {
                if out@.contains(p) {
                    assert(erasure_cond(*self, p, height as int, 0, 0));
                }
                if self.exists_at(p.t as int, p.i as int, p.j as int) && !self.get(
                    p.t as int,
                    p.i as int,
                    p.j as int,
                ).is_virtual && self.get(p.t as int, p.i as int, p.j as int).has_erasure {
                    assert(erasure_cond(*self, p, height as int, 0, 0));
                }
            }
        }
        out
    }


    /// Build a simulator for a built-in code descriptor: materialise the
    /// lattice and audit it. Succeeds exactly when the descriptor's
    /// parameters are admissible; the returned simulator is well formed,
    /// clean, and ready for trials.
    pub fn new(code_type: CodeType) -> (r: Result<Simulator, BuildError>)
        requires
            match code_parameters(code_type) {
                Some((nm, di, dj)) => {
                    &&& 6 * (nm + 1) + 1 <= usize::MAX
                    &&& 2 * di + 1 <= usize::MAX
                    &&& 2 * dj + 1 <= usize::MAX
                    &&& di + dj + 1 <= usize::MAX
                },
                None => true,
            },
        ensures
            r is Ok <==> crate::code_builder::code_params_ok(code_type),
            match r {
                Ok(sim) => {
                    &&& sim.code_type == code_type
                    &&& built_lattice(sim)
                    &&& sim.lattice_wf()
                    &&& syndrome_wf(sim)
                    &&& data_gates_ok(sim)
                    &&& basis_ok(sim)
                    &&& sim.all_clean()
                },
                Err(e) => e == (if !crate::code_builder::code_buildable(code_type) {
                    BuildError::UnsupportedCodeType
                } else if code_parameters(code_type)->Some_0.1 == 0 || code_parameters(
                    code_type,
                )->Some_0.2 == 0 {
                    BuildError::ZeroCodeDistance
                } else {
                    BuildError::EvenCodeDistance
                }),
            },
    {
        let mut simulator = Simulator {
            code_type,
            height: 0,
            vertical: 0,
            horizontal: 0,
            nodes: Vec::new(),
            rng: Xoroshiro128StarStar::new(),
            measurement_cycles: 1,
        };
        match build_code(&mut simulator) {
            Ok(()) => {},
            Err(e) => {
                return Err(e);
            },
        }
        proof {
            crate::code_builder::lemma_built_lattice_wf(simulator);
        }
        match code_builder_sanity_check(&simulator) {
            Ok(()) => {},
            Err(_) => {
                proof {
                    assert(false);
                }
            },
        }
        proof {
            assert forall|t: int, i: int, j: int| simulator.exists_at(t, i, j) implies (
            #[trigger] simulator.get(t, i, j)).is_clean() by {
                let n = simulator.get(t, i, j);
                assert(n.is_clean());
            }
        }
        Ok(simulator)
    }

    /// Duplicate the lattice and per-trial state, but reseed the generator
    /// freshly so that parallel clones diverge.
    pub fn clone(&self) -> (r: Simulator)
        requires
            self.dims_ok(),
        ensures
            r.dims_ok(),
            r.same_lattice(self),
            forall|t: int, i: int, j: int|
                self.in_bounds(t, i, j) ==> #[trigger] r.node_at(t, i, j) == self.node_at(t, i, j),
    {
        let height = self.height;
        let vertical = self.vertical;
        let horizontal = self.horizontal;
        let mut nodes: Vec<Vec<Vec<Option<SimulatorNode>>>> = Vec::new();
        let mut t: usize = 0;
        while t < height
            invariant
                self.dims_ok(),
                height == self.height,
                vertical == self.vertical,
                horizontal == self.horizontal,
                t <= height,
                nodes@.len() == t,
                forall|a: int| 0 <= a < t ==> #[trigger] nodes@[a]@.len() == vertical,
                forall|a: int, b: int|
                    0 <= a < t && 0 <= b < vertical ==> #[trigger] nodes@[a]@[b]@.len()
                        == horizontal,
                forall|a: int, b: int, c: int|
                    0 <= a < t && 0 <= b < vertical && 0 <= c < horizontal
                        ==> #[trigger] nodes@[a]@[b]@[c] == self.node_at(a, b, c),
            decreases height - t,
        {
            let mut row_i: Vec<Vec<Option<SimulatorNode>>> = Vec::new();
            let mut i: usize = 0;
            while i < vertical
                invariant
                    self.dims_ok(),
                    height == self.height,
                    vertical == self.vertical,
                    horizontal == self.horizontal,
                    t < height,
                    i <= vertical,
                    row_i@.len() == i,
                    forall|b: int| 0 <= b < i ==> #[trigger] row_i@[b]@.len() == horizontal,
                    forall|b: int, c: int|
                        0 <= b < i && 0 <= c < horizontal ==> #[trigger] row_i@[b]@[c]
                            == self.node_at(t as int, b, c),
                decreases vertical - i,
            {
                let mut row_j: Vec<Option<SimulatorNode>> = Vec::new();
                let mut j: usize = 0;
                while j < horizontal
                    invariant
                        self.dims_ok(),
                        height == self.height,
                        vertical == self.vertical,
                        horizontal == self.horizontal,
                        t < height,
                        i < vertical,
                        j <= horizontal,
                        row_j@.len() == j,
                        forall|c: int|
                            0 <= c < j ==> #[trigger] row_j@[c] == self.node_at(
                                t as int,
                                i as int,
                                c,
                            ),
                    decreases horizontal - j,
                {
                    let position = Position::new(t, i, j);
                    if self.is_node_exist(&position) {
                        let node = self.get_node_unwrap(&position);
                        row_j.push(Some(node.duplicate()));
                    } else {
                        row_j.push(None);
                    }
                    j += 1;
                }
                row_i.push(row_j);
                i += 1;
            }
            nodes.push(row_i);
            t += 1;
        }
        Simulator {
            code_type: self.code_type,
            height,
            vertical,
            horizontal,
            nodes,
            rng: Xoroshiro128StarStar::new(),
            measurement_cycles: self.measurement_cycles,
        }
    }

    /// Validate a correction against the logical operators of the standard
    /// planar code, leaving the observable state unchanged.
    pub fn validate_correction(&mut self, correction: &SparseCorrection) -> (r: (bool, bool))
        requires
            old(self).dims_ok(),
            old(self).height >= 1,
            old(self).code_type matches CodeType::StandardPlanarCode { .. },
            1 < old(self).vertical,
            1 < old(self).horizontal,
            correction.wf(),
            forall|k: int|
                0 <= k < correction@.len() ==> (#[trigger] correction@[k]).0.t == old(self).height
                    - 1,
            forall|k: int|
                0 <= k < correction@.len() ==> old(self).exists_at(
                    (#[trigger] correction@[k]).0.t as int,
                    correction@[k].0.i as int,
                    correction@[k].0.j as int,
                ),
            forall|i2: int, j2: int|
                0 <= i2 < old(self).vertical && 0 <= j2 < old(self).horizontal && (i2 == 1 || j2
                    == 1) && i2 % 2 == 1 && j2 % 2 == 1 ==> #[trigger] old(self).exists_at(
                    old(self).height - 1,
                    i2,
                    j2,
                ),
        ensures
            final(self).dims_ok(),
            final(self).code_type == old(self).code_type,
            final(self).height == old(self).height,
            final(self).vertical == old(self).vertical,
            final(self).horizontal == old(self).horizontal,
            final(self).measurement_cycles == old(self).measurement_cycles,
            final(self).rng == old(self).rng,
            forall|t2: int, i2: int, j2: int|
                old(self).in_bounds(t2, i2, j2) ==> #[trigger] final(self).node_at(t2, i2, j2)
                    == old(self).node_at(t2, i2, j2),
            r.0 == (row_flip_count(*old(self), correction@, old(self).horizontal as int) % 2 == 1),
            r.1 == (column_flip_count(*old(self), correction@, old(self).vertical as int) % 2
                == 1),
    {
        match code_builder_validate_correction(self, correction) {
            Some(result) => result,
            None => vstd::pervasive::unreached(),
        }
    }

    /// Prepare one cell for a fresh trial: store the sampled fault, clear
    /// the erasure flag and the propagated frame.
    fn init_trial_cell(&mut self, position: &Position, error: ErrorType)
        requires
            old(self).dims_ok(),
            old(self).exists_at(position.t as int, position.i as int, position.j as int),
            !old(self).get(position.t as int, position.i as int, position.j as int).is_virtual
                || error == ErrorType::I,
        ensures
            final(self).dims_ok(),
            final(self).code_type == old(self).code_type,
            final(self).height == old(self).height,
            final(self).vertical == old(self).vertical,
            final(self).horizontal == old(self).horizontal,
            final(self).measurement_cycles == old(self).measurement_cycles,
            final(self).rng == old(self).rng,
            forall|t: int, i: int, j: int|
                old(self).in_bounds(t, i, j) ==> #[trigger] final(self).node_at(t, i, j) == (if t
                    == position.t && i == position.i && j == position.j {
                    Some(
                        SimulatorNode {
                            error,
                            has_erasure: false,
                            propagated: ErrorType::I,
                            ..old(self).get(position.t as int, position.i as int, position.j as int)
                        },
                    )
                } else {
                    old(self).node_at(t, i, j)
                }),
    {
        let t = position.t;
        let i = position.i;
        let j = position.j;
        match &mut self.nodes[t][i][j] {
            Some(node) => {
                node.error = error;
                node.has_erasure = false;
                node.propagated = ErrorType::I;
            },
            None => {},
        }
    }

    /// Mark one existing cell as erased and overwrite its fault with the
    /// operator drawn for the erasure.
    fn erase_cell(&mut self, position: &Position, error: ErrorType)
        requires
            old(self).dims_ok(),
            old(self).exists_at(position.t as int, position.i as int, position.j as int),
            !old(self).get(position.t as int, position.i as int, position.j as int).is_virtual,
        ensures
            final(self).dims_ok(),
            final(self).code_type == old(self).code_type,
            final(self).height == old(self).height,
            final(self).vertical == old(self).vertical,
            final(self).horizontal == old(self).horizontal,
            final(self).measurement_cycles == old(self).measurement_cycles,
            final(self).rng == old(self).rng,
            forall|t: int, i: int, j: int|
                old(self).in_bounds(t, i, j) ==> #[trigger] final(self).node_at(t, i, j) == (if t
                    == position.t && i == position.i && j == position.j {
                    Some(
                        SimulatorNode {
                            has_erasure: true,
                            error,
                            ..old(self).get(position.t as int, position.i as int, position.j as int)
                        },
                    )
                } else {
                    old(self).node_at(t, i, j)
                }),
    {
        let t = position.t;
        let i = position.i;
        let j = position.j;
        match &mut self.nodes[t][i][j] {
            Some(node) => {
                node.has_erasure = true;
                node.error = error;
            },
            None => {},
        }
    }

    /// Sample the faults of one cell: draw its Pauli fault and erasure, and
    /// enqueue any correlated two-qubit faults for this cell and its peer.
    /// A virtual cell receives no fault of any kind.
    #[verifier::rlimit(100)]
    #[verifier::spinoff_prover]
    fn sample_cell(
        &mut self,
        position: &Position,
        noise_model: &NoiseModel,
        rng: &mut Xoroshiro128StarStar,
        pending_pauli_errors: &mut Vec<(Position, ErrorType)>,
        pending_erasure_errors: &mut Vec<Position>,
        Ghost(base): Ghost<Simulator>,
    )
        requires
            base.lattice_wf(),
            noise_model_ok(base, *noise_model),
            old(self).dims_ok(),
            old(self).same_lattice(&base),
            base.exists_at(position.t as int, position.i as int, position.j as int),
            old(self).exists_at(position.t as int, position.i as int, position.j as int),
            forall|k: int|
                0 <= k < old(pending_pauli_errors)@.len() ==> {
                    let q = (#[trigger] old(pending_pauli_errors)@[k]).0;
                    base.exists_at(q.t as int, q.i as int, q.j as int) && !base.get(
                        q.t as int,
                        q.i as int,
                        q.j as int,
                    ).is_virtual && fault_attributable(base, *noise_model, q)
                },
            forall|k: int|
                0 <= k < old(pending_erasure_errors)@.len() ==> {
                    let q = #[trigger] old(pending_erasure_errors)@[k];
                    base.exists_at(q.t as int, q.i as int, q.j as int) && !base.get(
                        q.t as int,
                        q.i as int,
                        q.j as int,
                    ).is_virtual && erasure_attributable(base, *noise_model, q)
                },
        ensures
            final(self).dims_ok(),
            final(self).same_lattice(&base),
            final(self).code_type == old(self).code_type,
            final(self).height == old(self).height,
            final(self).vertical == old(self).vertical,
            final(self).horizontal == old(self).horizontal,
            final(self).measurement_cycles == old(self).measurement_cycles,
            final(self).rng == old(self).rng,
            forall|a: int, b: int, c: int|
                old(self).in_bounds(a, b, c) && !(a == position.t && b == position.i && c
                    == position.j) ==> #[trigger] final(self).node_at(a, b, c) == old(
                    self,
                ).node_at(a, b, c),
            final(self).exists_at(position.t as int, position.i as int, position.j as int),
            final(self).get(position.t as int, position.i as int, position.j as int).qubit_type
                == old(self).get(
                position.t as int,
                position.i as int,
                position.j as int,
            ).qubit_type,
            final(self).get(position.t as int, position.i as int, position.j as int).gate_type
                == old(self).get(position.t as int, position.i as int, position.j as int).gate_type,
            final(self).get(position.t as int, position.i as int, position.j as int).peer() == old(
                self,
            ).get(position.t as int, position.i as int, position.j as int).peer(),
            final(self).get(position.t as int, position.i as int, position.j as int).is_virtual
                == old(self).get(
                position.t as int,
                position.i as int,
                position.j as int,
            ).is_virtual,
            final(self).get(
                position.t as int,
                position.i as int,
                position.j as int,
            ).is_peer_virtual == old(self).get(
                position.t as int,
                position.i as int,
                position.j as int,
            ).is_peer_virtual,
            !final(self).get(position.t as int, position.i as int, position.j as int).has_erasure,
            final(self).get(position.t as int, position.i as int, position.j as int).propagated
                == ErrorType::I,
            final(self).get(position.t as int, position.i as int, position.j as int).is_virtual
                ==> final(self).get(position.t as int, position.i as int, position.j as int).error
                == ErrorType::I,
            final(self).get(position.t as int, position.i as int, position.j as int).error
                == crate::noise::sample_pauli(
                noise_model.rates_at(
                    position.t as int,
                    position.i as int,
                    position.j as int,
                ).pauli_error_rates,
                crate::rng::xoroshiro_output(old(rng).state().0) >> 11u64,
            ),
            exists|k: nat|
                2 <= k <= 4 && #[trigger] final(rng).state() == crate::rng::rng_skip(
                    old(rng).state(),
                    k,
                ),
            ({
                let st1 = crate::rng::xoroshiro_next_state(
                    old(rng).state().0,
                    old(rng).state().1,
                );
                let d2 = crate::rng::xoroshiro_output(st1.0) >> 11u64;
                let st2 = crate::rng::xoroshiro_next_state(st1.0, st1.1);
                let rates = noise_model.rates_at(
                    position.t as int,
                    position.i as int,
                    position.j as int,
                );
                (rates.correlated_pauli_error_rates is None
                    && rates.correlated_erasure_error_rates is None) ==> {
                    &&& final(rng).state() == st2
                    &&& final(pending_pauli_errors)@ == old(pending_pauli_errors)@
                    &&& final(pending_erasure_errors)@ == (if d2 < rates.erasure_error_rate {
                        old(pending_erasure_errors)@.push(*position)
                    } else {
                        old(pending_erasure_errors)@
                    })
                }
            }),
            forall|k: int|
                0 <= k < final(pending_pauli_errors)@.len() ==> {
                    let q = (#[trigger] final(pending_pauli_errors)@[k]).0;
                    base.exists_at(q.t as int, q.i as int, q.j as int) && !base.get(
                        q.t as int,
                        q.i as int,
                        q.j as int,
                    ).is_virtual && fault_attributable(base, *noise_model, q)
                },
            forall|k: int|
                0 <= k < final(pending_erasure_errors)@.len() ==> {
                    let q = #[trigger] final(pending_erasure_errors)@[k];
                    base.exists_at(q.t as int, q.i as int, q.j as int) && !base.get(
                        q.t as int,
                        q.i as int,
                        q.j as int,
                    ).is_virtual && erasure_attributable(base, *noise_model, q)
                },
    {
        let t = position.t;
        let i = position.i;
        let j = position.j;
        let peer_opt = self.get_node_unwrap(position).get_peer_option();
        let noise_node = *noise_model.get_node(position);
        let random_pauli = rng.next_unit();
        let x = noise_node.pauli_error_rates.error_rate_X;
        let z = noise_node.pauli_error_rates.error_rate_Z;
        let y = noise_node.pauli_error_rates.error_rate_Y;
        let sampled = if random_pauli < x {
            ErrorType::X
        } else if random_pauli < x + z {
            ErrorType::Z
        } else if random_pauli < x + z + y {
            ErrorType::Y
        } else {
            ErrorType::I
        };
        proof {
            if self.get(t as int, i as int, j as int).is_virtual {
                assert(base.get(t as int, i as int, j as int).is_virtual);
                assert(noise_model.rates_at(t as int, i as int, j as int).is_noiseless());
                assert(x == 0 && y == 0 && z == 0);
                assert(sampled == ErrorType::I);
            }
        }
        let ghost prev = *self;
        self.init_trial_cell(position, sampled);
        proof {
            lemma_same_lattice_point_update(
                prev,
                *self,
                base,
                t as int,
                i as int,
                j as int,
                SimulatorNode {
                    error: sampled,
                    has_erasure: false,
                    propagated: ErrorType::I,
                    ..prev.get(t as int, i as int, j as int)
                },
            );
        }
        let random_erasure = rng.next_unit();
        if random_erasure < noise_node.erasure_error_rate {
            proof {
                assert(!base.get(t as int, i as int, j as int).is_virtual);
                assert(noise_model.rates_at(t as int, i as int, j as int).erasure_error_rate > 0);
                assert(erasure_attributable(base, *noise_model, *position));
            }
            push_pending_erasure(pending_erasure_errors, *position, Ghost(base), Ghost(*noise_model));
        }
        match noise_node.correlated_pauli_error_rates {
            Some(table) => {
                proof {
                    assert(noise_model.rates_at(
                        t as int,
                        i as int,
                        j as int,
                    ).correlated_pauli_error_rates is Some);
                    assert(!base.get(t as int, i as int, j as int).is_virtual);
                }
                let draw = rng.next_unit();
                let fault = table.generate_random_error(draw);
                let my_error = fault.my_error();
                let peer_error = fault.peer_error();
                if my_error != ErrorType::I {
                    proof {
                        assert(fault_attributable(base, *noise_model, *position));
                    }
                    push_pending_pauli(
                        pending_pauli_errors,
                        (*position, my_error),
                        Ghost(base),
                        Ghost(*noise_model),
                    );
                }
                if peer_error != ErrorType::I {
                    match peer_opt {
                        Some(peer_position) => {
                            proof {
                                assert(base.get(t as int, i as int, j as int).peer() == Some(
                                    peer_position,
                                ));
                                lemma_wf_cell(base, t as int, i as int, j as int);
                                assert(peer_position.t == t);
                                assert(base.exists_at(
                                    peer_position.t as int,
                                    peer_position.i as int,
                                    peer_position.j as int,
                                ));
                            }
                            proof {
                                lemma_wf_cell(base, t as int, i as int, j as int);
                                assert(base.get(
                                    t as int,
                                    peer_position.i as int,
                                    peer_position.j as int,
                                ).peer() == Some(*position));
                                assert(peer_correlated_spec(base, *noise_model, peer_position));
                                assert(fault_attributable(base, *noise_model, peer_position));
                            }
                            push_pending_pauli(
                                pending_pauli_errors,
                                (peer_position, peer_error),
                                Ghost(base),
                                Ghost(*noise_model),
                            );
                        },
                        None => {},
                    }
                }
            },
            None => {},
        }
        match noise_node.correlated_erasure_error_rates {
            Some(table) => {
                proof {
                    assert(noise_model.rates_at(
                        t as int,
                        i as int,
                        j as int,
                    ).correlated_erasure_error_rates is Some);
                    assert(!base.get(t as int, i as int, j as int).is_virtual);
                }
                let draw = rng.next_unit();
                let fault = table.generate_random_erasure_error(draw);
                if fault.my_error() {
                    proof {
                        assert(erasure_attributable(base, *noise_model, *position));
                    }
                    push_pending_erasure(
                        pending_erasure_errors,
                        *position,
                        Ghost(base),
                        Ghost(*noise_model),
                    );
                }
                if fault.peer_error() {
                    match peer_opt {
                        Some(peer_position) => {
                            proof {
                                assert(base.get(t as int, i as int, j as int).peer() == Some(
                                    peer_position,
                                ));
                                lemma_wf_cell(base, t as int, i as int, j as int);
                                assert(peer_position.t == t);
                                assert(base.exists_at(
                                    peer_position.t as int,
                                    peer_position.i as int,
                                    peer_position.j as int,
                                ));
                            }
                            proof {
                                lemma_wf_cell(base, t as int, i as int, j as int);
                                assert(base.get(
                                    t as int,
                                    peer_position.i as int,
                                    peer_position.j as int,
                                ).peer() == Some(*position));
                                assert(peer_erasure_correlated_spec(
                                    base,
                                    *noise_model,
                                    peer_position,
                                ));
                                assert(erasure_attributable(base, *noise_model, peer_position));
                            }
                            push_pending_erasure(
                                pending_erasure_errors,
                                peer_position,
                                Ghost(base),
                                Ghost(*noise_model),
                            );
                        },
                        None => {},
                    }
                }
            },
            None => {},
        }
        proof {
            assert forall|a: int, b: int, c: int|
                old(self).in_bounds(a, b, c) && !(a == position.t && b == position.i && c
                    == position.j) implies #[trigger] self.node_at(a, b, c) == old(self).node_at(
                a,
                b,
                c,
            ) by {
                assert(self.node_at(a, b, c) == prev.node_at(a, b, c));
            }
            let k: nat = 2 + (if noise_model.rates_at(
                position.t as int,
                position.i as int,
                position.j as int,
            ).correlated_pauli_error_rates is Some {
                1nat
            } else {
                0nat
            }) + (if noise_model.rates_at(
                position.t as int,
                position.i as int,
                position.j as int,
            ).correlated_erasure_error_rates is Some {
                1nat
            } else {
                0nat
            });
            assert(rng.state() == crate::rng::rng_skip(old(rng).state(), k)) by {
                assert(crate::rng::rng_skip(old(rng).state(), 0) == old(rng).state());
                assert(crate::rng::rng_skip(old(rng).state(), 1)
                    == crate::rng::xoroshiro_next_state(
                    crate::rng::rng_skip(old(rng).state(), 0).0,
                    crate::rng::rng_skip(old(rng).state(), 0).1,
                ));
                assert(crate::rng::rng_skip(old(rng).state(), 2)
                    == crate::rng::xoroshiro_next_state(
                    crate::rng::rng_skip(old(rng).state(), 1).0,
                    crate::rng::rng_skip(old(rng).state(), 1).1,
                ));
                assert(crate::rng::rng_skip(old(rng).state(), 3)
                    == crate::rng::xoroshiro_next_state(
                    crate::rng::rng_skip(old(rng).state(), 2).0,
                    crate::rng::rng_skip(old(rng).state(), 2).1,
                ));
                assert(crate::rng::rng_skip(old(rng).state(), 4)
                    == crate::rng::xoroshiro_next_state(
                    crate::rng::rng_skip(old(rng).state(), 3).0,
                    crate::rng::rng_skip(old(rng).state(), 3).1,
                ));
            }
            assert(exists|k2: nat|
                2 <= k2 <= 4 && #[trigger] rng.state() == crate::rng::rng_skip(
                    old(rng).state(),
                    k2,
                ));
        }
    }

    /// Sample the faults of every cell from the model, queueing correlated
    /// two-qubit faults for later application.
    #[verifier::rlimit(100)]
    #[verifier::spinoff_prover]
    fn sample_all_cells(
        &mut self,
        noise_model: &NoiseModel,
        rng: &mut Xoroshiro128StarStar,
        pending_pauli_errors: &mut Vec<(Position, ErrorType)>,
        pending_erasure_errors: &mut Vec<Position>,
    )
        requires
            old(self).lattice_wf(),
            noise_model_ok(*old(self), *noise_model),
            old(pending_pauli_errors)@.len() == 0,
            old(pending_erasure_errors)@.len() == 0,
        ensures
            final(self).dims_ok(),
            final(self).same_lattice(old(self)),
            final(self).rng == old(self).rng,
            forall|a: int, b: int, c: int|
                final(self).exists_at(a, b, c) && (#[trigger] final(self).get(a, b, c)).is_virtual
                    ==> final(self).get(a, b, c).error == ErrorType::I,
            forall|a: int, b: int, c: int|
                final(self).exists_at(a, b, c) ==> !(#[trigger] final(self).get(
                    a,
                    b,
                    c,
                )).has_erasure && final(self).get(a, b, c).propagated == ErrorType::I,
            forall|a: int, b: int, c: int|
                final(self).exists_at(a, b, c) && (#[trigger] final(self).get(a, b, c)).error
                    != ErrorType::I ==> fault_attributable(
                    *old(self),
                    *noise_model,
                    Position { t: a as usize, i: b as usize, j: c as usize },
                ),
            forall|k: int|
                0 <= k < final(pending_pauli_errors)@.len() ==> {
                    let q = (#[trigger] final(pending_pauli_errors)@[k]).0;
                    old(self).exists_at(q.t as int, q.i as int, q.j as int) && !old(self).get(
                        q.t as int,
                        q.i as int,
                        q.j as int,
                    ).is_virtual && fault_attributable(*old(self), *noise_model, q)
                },
            forall|k: int|
                0 <= k < final(pending_erasure_errors)@.len() ==> {
                    let q = #[trigger] final(pending_erasure_errors)@[k];
                    old(self).exists_at(q.t as int, q.i as int, q.j as int) && !old(self).get(
                        q.t as int,
                        q.i as int,
                        q.j as int,
                    ).is_virtual && erasure_attributable(*old(self), *noise_model, q)
                },
            exists|k: nat|
                #[trigger] final(rng).state() == crate::rng::rng_skip(old(rng).state(), k) && k
                    >= 2 * node_count(*old(self)),
    {
        proof {
            lemma_wf_dims(*old(self));
        }
        let ghost rng_start = rng.state();
        let ghost mut draws: nat = 0;
        let height = self.height;
        let vertical = self.vertical;
        let horizontal = self.horizontal;
        let mut t: usize = 0;
        while t < height
            invariant
                old(self).lattice_wf(),
                noise_model_ok(*old(self), *noise_model),
                self.dims_ok(),
                self.same_lattice(old(self)),
                height == self.height,
                vertical == self.vertical,
                horizontal == self.horizontal,
                t <= height,
                self.rng == old(self).rng,
                rng.state() == crate::rng::rng_skip(rng_start, draws),
                draws >= 2 * node_count_upto(*old(self), t as int),
                forall|a: int, b: int, c: int|
                    self.exists_at(a, b, c) && a < t && (#[trigger] self.get(a, b, c)).is_virtual
                        ==> self.get(a, b, c).error == ErrorType::I,
                forall|a: int, b: int, c: int|
                    self.exists_at(a, b, c) && a < t ==> !(#[trigger] self.get(
                        a,
                        b,
                        c,
                    )).has_erasure && self.get(a, b, c).propagated == ErrorType::I,
                forall|a: int, b: int, c: int|
                    self.exists_at(a, b, c) && a < t && (#[trigger] self.get(a, b, c)).error
                        != ErrorType::I ==> fault_attributable(
                        *old(self),
                        *noise_model,
                        Position { t: a as usize, i: b as usize, j: c as usize },
                    ),
                forall|k: int|
                    0 <= k < pending_pauli_errors@.len() ==> {
                        let q = (#[trigger] pending_pauli_errors@[k]).0;
                        old(self).exists_at(q.t as int, q.i as int, q.j as int) && !old(self).get(
                            q.t as int,
                            q.i as int,
                            q.j as int,
                        ).is_virtual && fault_attributable(*old(self), *noise_model, q)
                    },
                forall|k: int|
                    0 <= k < pending_erasure_errors@.len() ==> {
                        let q = #[trigger] pending_erasure_errors@[k];
                        old(self).exists_at(q.t as int, q.i as int, q.j as int) && !old(self).get(
                            q.t as int,
                            q.i as int,
                            q.j as int,
                        ).is_virtual && erasure_attributable(*old(self), *noise_model, q)
                    },
            decreases height - t,
        {
            let mut i: usize = 0;
            while i < vertical
                invariant
                    old(self).lattice_wf(),
                    noise_model_ok(*old(self), *noise_model),
                    self.dims_ok(),
                    self.same_lattice(old(self)),
                    height == self.height,
                    vertical == self.vertical,
                    horizontal == self.horizontal,
                    t < height,
                    i <= vertical,
                    self.rng == old(self).rng,
                    rng.state() == crate::rng::rng_skip(rng_start, draws),
                    draws >= 2 * (node_count_upto(*old(self), t as int) + layer_node_count(
                        *old(self),
                        t as int,
                        i as int,
                    )),
                    forall|a: int, b: int, c: int|
                        self.exists_at(a, b, c) && (a < t || (a == t && b < i)) && (
                        #[trigger] self.get(a, b, c)).is_virtual ==> self.get(a, b, c).error
                            == ErrorType::I,
                    forall|a: int, b: int, c: int|
                        self.exists_at(a, b, c) && (a < t || (a == t && b < i)) ==> !(
                        #[trigger] self.get(a, b, c)).has_erasure && self.get(a, b, c).propagated
                            == ErrorType::I,
                    forall|a: int, b: int, c: int|
                        self.exists_at(a, b, c) && (a < t || (a == t && b < i)) && (
                        #[trigger] self.get(a, b, c)).error != ErrorType::I
                            ==> fault_attributable(
                            *old(self),
                            *noise_model,
                            Position { t: a as usize, i: b as usize, j: c as usize },
                        ),
                    forall|k: int|
                        0 <= k < pending_pauli_errors@.len() ==> {
                            let q = (#[trigger] pending_pauli_errors@[k]).0;
                            old(self).exists_at(q.t as int, q.i as int, q.j as int) && !old(
                                self,
                            ).get(q.t as int, q.i as int, q.j as int).is_virtual
                                && fault_attributable(*old(self), *noise_model, q)
                        },
                    forall|k: int|
                        0 <= k < pending_erasure_errors@.len() ==> {
                            let q = #[trigger] pending_erasure_errors@[k];
                            old(self).exists_at(q.t as int, q.i as int, q.j as int) && !old(
                                self,
                            ).get(q.t as int, q.i as int, q.j as int).is_virtual
                                && erasure_attributable(*old(self), *noise_model, q)
                        },
                decreases vertical - i,
            {
                let mut j: usize = 0;
                while j < horizontal
                    invariant
                        old(self).lattice_wf(),
                        noise_model_ok(*old(self), *noise_model),
                        self.dims_ok(),
                        self.same_lattice(old(self)),
                        height == self.height,
                        vertical == self.vertical,
                        horizontal == self.horizontal,
                        t < height,
                        i < vertical,
                        j <= horizontal,
                        self.rng == old(self).rng,
                        rng.state() == crate::rng::rng_skip(rng_start, draws),
                        draws >= 2 * (node_count_upto(*old(self), t as int) + layer_node_count(
                            *old(self),
                            t as int,
                            i as int,
                        ) + row_node_count(*old(self), t as int, i as int, j as int)),
                        forall|a: int, b: int, c: int|
                            self.exists_at(a, b, c) && (a < t || (a == t && b < i) || (a == t && b
                                == i && c < j)) && (#[trigger] self.get(a, b, c)).is_virtual
                                ==> self.get(a, b, c).error == ErrorType::I,
                        forall|a: int, b: int, c: int|
                            self.exists_at(a, b, c) && (a < t || (a == t && b < i) || (a == t && b
                                == i && c < j)) ==> !(#[trigger] self.get(a, b, c)).has_erasure
                                && self.get(a, b, c).propagated == ErrorType::I,
                        forall|a: int, b: int, c: int|
                            self.exists_at(a, b, c) && (a < t || (a == t && b < i) || (a == t && b
                                == i && c < j)) && (#[trigger] self.get(a, b, c)).error
                                != ErrorType::I ==> fault_attributable(
                                *old(self),
                                *noise_model,
                                Position { t: a as usize, i: b as usize, j: c as usize },
                            ),
                        forall|k: int|
                            0 <= k < pending_pauli_errors@.len() ==> {
                                let q = (#[trigger] pending_pauli_errors@[k]).0;
                                old(self).exists_at(q.t as int, q.i as int, q.j as int) && !old(
                                    self,
                                ).get(q.t as int, q.i as int, q.j as int).is_virtual
                                    && fault_attributable(*old(self), *noise_model, q)
                            },
                        forall|k: int|
                            0 <= k < pending_erasure_errors@.len() ==> {
                                let q = #[trigger] pending_erasure_errors@[k];
                                old(self).exists_at(q.t as int, q.i as int, q.j as int) && !old(
                                    self,
                                ).get(q.t as int, q.i as int, q.j as int).is_virtual
                                    && erasure_attributable(*old(self), *noise_model, q)
                            },
                    decreases horizontal - j,
                {
                    let position = Position::new(t, i, j);
                    if self.is_node_exist(&position) {
                        proof {
                            assert(old(self).exists_at(t as int, i as int, j as int));
                        }
                        let ghost prev = *self;
                        let ghost prev_rng = rng.state();
                        self.sample_cell(
                            &position,
                            noise_model,
                            rng,
                            pending_pauli_errors,
                            pending_erasure_errors,
                            Ghost(*old(self)),
                        );
                        proof {
                            let k_cell = choose|k2: nat|
                                2 <= k2 <= 4 && #[trigger] rng.state() == crate::rng::rng_skip(
                                    prev_rng,
                                    k2,
                                );
                            crate::rng::lemma_rng_skip_add(rng_start, draws, k_cell);
                            draws = draws + k_cell;
                            assert(row_node_count(*old(self), t as int, i as int, j + 1)
                                == row_node_count(*old(self), t as int, i as int, j as int) + 1);
                            assert forall|a: int, b: int, c: int|
                                self.exists_at(a, b, c) && (a < t || (a == t && b < i) || (a == t
                                    && b == i && c < j + 1)) && (#[trigger] self.get(
                                a,
                                b,
                                c,
                            )).is_virtual implies self.get(a, b, c).error == ErrorType::I by {
                                if a == t && b == i && c == j {
                                    assert(self.get(a, b, c).is_virtual ==> self.get(
                                        a,
                                        b,
                                        c,
                                    ).error == ErrorType::I);
                                } else {
                                    assert(self.node_at(a, b, c) == prev.node_at(a, b, c));
                                    assert(prev.exists_at(a, b, c));
                                    if prev.get(a, b, c).is_virtual {
                                        assert(prev.get(a, b, c).error == ErrorType::I);
                                    }
                                }
                            }
                            assert forall|a: int, b: int, c: int|
                                self.exists_at(a, b, c) && (a < t || (a == t && b < i) || (a == t
                                    && b == i && c < j + 1)) implies !(#[trigger] self.get(
                                a,
                                b,
                                c,
                            )).has_erasure && self.get(a, b, c).propagated == ErrorType::I by {
                                if a == t && b == i && c == j {
                                    assert(!self.get(a, b, c).has_erasure);
                                    assert(self.get(a, b, c).propagated == ErrorType::I);
                                } else {
                                    assert(self.node_at(a, b, c) == prev.node_at(a, b, c));
                                    assert(prev.exists_at(a, b, c));
                                    assert(!prev.get(a, b, c).has_erasure && prev.get(
                                        a,
                                        b,
                                        c,
                                    ).propagated == ErrorType::I);
                                }
                            }
                            assert forall|a: int, b: int, c: int|
                                self.exists_at(a, b, c) && (a < t || (a == t && b < i) || (a == t
                                    && b == i && c < j + 1)) && (#[trigger] self.get(
                                a,
                                b,
                                c,
                            )).error != ErrorType::I implies fault_attributable(
                                *old(self),
                                *noise_model,
                                Position { t: a as usize, i: b as usize, j: c as usize },
                            ) by {
                                if a == t && b == i && c == j {
                                    assert(self.get(a, b, c).error == crate::noise::sample_pauli(
                                        noise_model.rates_at(t as int, i as int, j as int).pauli_error_rates,
                                        crate::rng::xoroshiro_output(prev_rng.0) >> 11u64,
                                    ));
                                } else {
                                    assert(self.node_at(a, b, c) == prev.node_at(a, b, c));
                                    assert(prev.exists_at(a, b, c));
                                }
                            }
                        }
                    } else {
                        proof {
                            assert(row_node_count(*old(self), t as int, i as int, j + 1)
                                == row_node_count(*old(self), t as int, i as int, j as int));
                        }
                    }
                    j += 1;
                }
                proof {
                    assert(layer_node_count(*old(self), t as int, i + 1) == layer_node_count(
                        *old(self),
                        t as int,
                        i as int,
                    ) + row_node_count(*old(self), t as int, i as int, old(self).horizontal as int));
                }
                i += 1;
            }
            proof {
                assert(node_count_upto(*old(self), t + 1) == node_count_upto(*old(self), t as int)
                    + layer_node_count(*old(self), t as int, old(self).vertical as int));
            }
            t += 1;
        }
    }

    /// Sample one trial from the noise model: draw a Pauli fault and an
    /// erasure at each cell, apply correlated two-qubit faults and
    /// all-or-nothing extra noise, overwrite erased cells with a uniform
    /// Pauli, propagate, and report how many cells carry a fault and how
    /// many are erased. Virtual cells never carry a fault; every fault and
    /// erasure is one the model can produce; and the generator is advanced
    /// by at least two draws per cell and saved back.
    #[verifier::rlimit(100)]
    #[verifier::spinoff_prover]
    pub fn generate_random_errors(&mut self, noise_model: &NoiseModel) -> (r: (usize, usize))
        requires
            old(self).lattice_wf(),
            noise_model_ok(*old(self), *noise_model),
        ensures
            final(self).lattice_wf(),
            final(self).same_lattice(old(self)),
            forall|t: int, i: int, j: int|
                final(self).exists_at(t, i, j) && (#[trigger] final(self).get(t, i, j)).is_virtual
                    ==> final(self).get(t, i, j).error == ErrorType::I,
            forall|t: int, i: int, j: int|
                final(self).exists_at(t, i, j) && (#[trigger] final(self).get(t, i, j)).error
                    != ErrorType::I ==> fault_attributable(
                    *final(self),
                    *noise_model,
                    Position { t: t as usize, i: i as usize, j: j as usize },
                ),
            forall|t: int, i: int, j: int|
                final(self).exists_at(t, i, j) && (#[trigger] final(self).get(
                    t,
                    i,
                    j,
                )).has_erasure ==> erasure_attributable(
                    *final(self),
                    *noise_model,
                    Position { t: t as usize, i: i as usize, j: j as usize },
                ),
            forall|t: int, i: int, j: int|
                final(self).exists_at(t, i, j) ==> (#[trigger] final(self).get(t, i, j)).propagated
                    == propagated_frame(*final(self), t, i, j),
            exists|pat: Seq<(Position, ErrorType)>|
                entries_sorted(pat) && r.0 == pat.len() && (forall|p: Position|
                    #[trigger] has_key(pat, p) <==> (final(self).exists_at(
                        p.t as int,
                        p.i as int,
                        p.j as int,
                    ) && final(self).get(p.t as int, p.i as int, p.j as int).error
                        != ErrorType::I)),
            exists|es: Seq<Position>|
                positions_sorted(es) && r.1 == es.len() && (forall|p: Position|
                    #[trigger] es.contains(p) <==> (final(self).exists_at(
                        p.t as int,
                        p.i as int,
                        p.j as int,
                    ) && !final(self).get(p.t as int, p.i as int, p.j as int).is_virtual
                        && final(self).get(p.t as int, p.i as int, p.j as int).has_erasure)),
            exists|k: nat|
                #[trigger] final(self).rng.state() == crate::rng::rng_skip(
                    old(self).rng.state(),
                    k,
                ) && k >= 2 * node_count(*old(self)),
    {
        proof {
            lemma_wf_dims(*old(self));
        }
        let mut rng = self.rng;
        let ghost rng_start = rng.state();
        let mut pending_pauli_errors: Vec<(Position, ErrorType)> = Vec::new();
        let mut pending_erasure_errors: Vec<Position> = Vec::new();
        self.sample_all_cells(
            noise_model,
            &mut rng,
            &mut pending_pauli_errors,
            &mut pending_erasure_errors,
        );
        let ghost mut draws: nat = choose|k: nat|
            #[trigger] rng.state() == crate::rng::rng_skip(rng_start, k) && k >= 2 * node_count(
                *old(self),
            );
        let extra = noise_model.additional_noise.len();
        let mut b: usize = 0;
        while b < extra
            invariant
                old(self).lattice_wf(),
                noise_model_ok(*old(self), *noise_model),
                self.dims_ok(),
                self.same_lattice(old(self)),
                extra == noise_model.additional_noise@.len(),
                b <= extra,
                rng.state() == crate::rng::rng_skip(rng_start, draws),
                draws >= 2 * node_count(*old(self)),
                forall|a: int, b2: int, c: int|
                    self.exists_at(a, b2, c) && (#[trigger] self.get(a, b2, c)).is_virtual
                        ==> self.get(a, b2, c).error == ErrorType::I,
                forall|a: int, b2: int, c: int|
                    self.exists_at(a, b2, c) ==> !(#[trigger] self.get(a, b2, c)).has_erasure
                        && self.get(a, b2, c).propagated == ErrorType::I,
                forall|a: int, b2: int, c: int|
                    self.exists_at(a, b2, c) && (#[trigger] self.get(a, b2, c)).error
                        != ErrorType::I ==> fault_attributable(
                        *old(self),
                        *noise_model,
                        Position { t: a as usize, i: b2 as usize, j: c as usize },
                    ),
                forall|k: int|
                    0 <= k < pending_pauli_errors@.len() ==> {
                        let q = (#[trigger] pending_pauli_errors@[k]).0;
                        old(self).exists_at(q.t as int, q.i as int, q.j as int) && !old(self).get(
                            q.t as int,
                            q.i as int,
                            q.j as int,
                        ).is_virtual && fault_attributable(*old(self), *noise_model, q)
                    },
                forall|k: int|
                    0 <= k < pending_erasure_errors@.len() ==> {
                        let q = #[trigger] pending_erasure_errors@[k];
                        old(self).exists_at(q.t as int, q.i as int, q.j as int) && !old(self).get(
                            q.t as int,
                            q.i as int,
                            q.j as int,
                        ).is_virtual && erasure_attributable(*old(self), *noise_model, q)
                    },
            decreases extra - b,
        {
            let ghost prev_rng = rng.state();
            let draw = rng.next_unit();
            proof {
                lemma_rng_one_more(rng_start, draws, prev_rng, rng.state());
                draws = draws + 1;
            }
            let prob = noise_model.additional_noise[b].probability;
            if draw < prob {
                let np = noise_model.additional_noise[b].pauli_errors.len();
                let mut k: usize = 0;
                while k < np
                    invariant
                        noise_model_ok(*old(self), *noise_model),
                        b < noise_model.additional_noise@.len(),
                        np == noise_model.additional_noise@[b as int].pauli_errors@.len(),
                        k <= np,
                        forall|x: int|
                            0 <= x < pending_pauli_errors@.len() ==> {
                                let q = (#[trigger] pending_pauli_errors@[x]).0;
                                old(self).exists_at(q.t as int, q.i as int, q.j as int) && !old(
                                    self,
                                ).get(q.t as int, q.i as int, q.j as int).is_virtual
                                    && fault_attributable(*old(self), *noise_model, q)
                            },
                    decreases np - k,
                {
                    let entry = noise_model.additional_noise[b].pauli_errors[k];
                    proof {
                        assert(bundle_lists_fault(*noise_model, entry.0)) by {
                            assert(0 <= b < noise_model.additional_noise@.len() && 0 <= k
                                < noise_model.additional_noise@[b as int].pauli_errors@.len() && (
                            noise_model.additional_noise@[b as int].pauli_errors@[k as int]).0
                                == entry.0);
                        }
                    }
                    push_pending_pauli(
                        &mut pending_pauli_errors,
                        entry,
                        Ghost(*old(self)),
                        Ghost(*noise_model),
                    );
                    k += 1;
                }
                let ne = noise_model.additional_noise[b].erasures.len();
                let mut k2: usize = 0;
                while k2 < ne
                    invariant
                        noise_model_ok(*old(self), *noise_model),
                        b < noise_model.additional_noise@.len(),
                        ne == noise_model.additional_noise@[b as int].erasures@.len(),
                        k2 <= ne,
                        forall|x: int|
                            0 <= x < pending_erasure_errors@.len() ==> {
                                let q = #[trigger] pending_erasure_errors@[x];
                                old(self).exists_at(q.t as int, q.i as int, q.j as int) && !old(
                                    self,
                                ).get(q.t as int, q.i as int, q.j as int).is_virtual
                                    && erasure_attributable(*old(self), *noise_model, q)
                            },
                    decreases ne - k2,
                {
                    let entry = noise_model.additional_noise[b].erasures[k2];
                    proof {
                        assert(bundle_lists_erasure(*noise_model, entry)) by {
                            assert(0 <= b < noise_model.additional_noise@.len() && 0 <= k2
                                < noise_model.additional_noise@[b as int].erasures@.len()
                                && noise_model.additional_noise@[b as int].erasures@[k2 as int]
                                == entry);
                        }
                    }
                    push_pending_erasure(
                        &mut pending_erasure_errors,
                        entry,
                        Ghost(*old(self)),
                        Ghost(*noise_model),
                    );
                    k2 += 1;
                }
            }
            b += 1;
        }
        let npend = pending_pauli_errors.len();
        let mut k: usize = 0;
        while k < npend
            invariant
                old(self).lattice_wf(),
                noise_model_ok(*old(self), *noise_model),
                self.dims_ok(),
                self.same_lattice(old(self)),
                npend == pending_pauli_errors@.len(),
                k <= npend,
                rng.state() == crate::rng::rng_skip(rng_start, draws),
                draws >= 2 * node_count(*old(self)),
                forall|a: int, b2: int, c: int|
                    self.exists_at(a, b2, c) && (#[trigger] self.get(a, b2, c)).is_virtual
                        ==> self.get(a, b2, c).error == ErrorType::I,
                forall|a: int, b2: int, c: int|
                    self.exists_at(a, b2, c) ==> !(#[trigger] self.get(a, b2, c)).has_erasure
                        && self.get(a, b2, c).propagated == ErrorType::I,
                forall|a: int, b2: int, c: int|
                    self.exists_at(a, b2, c) && (#[trigger] self.get(a, b2, c)).error
                        != ErrorType::I ==> fault_attributable(
                        *old(self),
                        *noise_model,
                        Position { t: a as usize, i: b2 as usize, j: c as usize },
                    ),
                forall|x: int|
                    0 <= x < pending_pauli_errors@.len() ==> {
                        let q = (#[trigger] pending_pauli_errors@[x]).0;
                        old(self).exists_at(q.t as int, q.i as int, q.j as int) && !old(self).get(
                            q.t as int,
                            q.i as int,
                            q.j as int,
                        ).is_virtual && fault_attributable(*old(self), *noise_model, q)
                    },
                forall|x: int|
                    0 <= x < pending_erasure_errors@.len() ==> {
                        let q = #[trigger] pending_erasure_errors@[x];
                        old(self).exists_at(q.t as int, q.i as int, q.j as int) && !old(self).get(
                            q.t as int,
                            q.i as int,
                            q.j as int,
                        ).is_virtual && erasure_attributable(*old(self), *noise_model, q)
                    },
            decreases npend - k,
        {
            let (position, operator) = pending_pauli_errors[k];
            proof {
                assert(old(self).exists_at(position.t as int, position.i as int, position.j as int)
                    && !old(self).get(
                    position.t as int,
                    position.i as int,
                    position.j as int,
                ).is_virtual);
                assert(self.exists_at(position.t as int, position.i as int, position.j as int));
                assert(!self.get(
                    position.t as int,
                    position.i as int,
                    position.j as int,
                ).is_virtual);
            }
            let current = self.get_node_unwrap(&position).error;
            let merged = current.multiply(&operator);
            let ghost prev = *self;
            self.set_error_field(&position, merged);
            proof {
                lemma_same_lattice_point_update(
                    prev,
                    *self,
                    *old(self),
                    position.t as int,
                    position.i as int,
                    position.j as int,
                    SimulatorNode {
                        error: merged,
                        ..prev.get(position.t as int, position.i as int, position.j as int)
                    },
                );
                assert forall|a: int, b2: int, c: int|
                    self.exists_at(a, b2, c) && (#[trigger] self.get(a, b2, c)).is_virtual implies
                    self.get(a, b2, c).error == ErrorType::I by {
                    assert(self.node_at(a, b2, c) == (if a == position.t && b2 == position.i && c
                        == position.j {
                        Some(SimulatorNode { error: merged, ..prev.get(a, b2, c) })
                    } else {
                        prev.node_at(a, b2, c)
                    }));
                }
                assert forall|a: int, b2: int, c: int|
                    self.exists_at(a, b2, c) implies !(#[trigger] self.get(a, b2, c)).has_erasure
                    && self.get(a, b2, c).propagated == ErrorType::I by {
                    assert(self.node_at(a, b2, c) == (if a == position.t && b2 == position.i && c
                        == position.j {
                        Some(SimulatorNode { error: merged, ..prev.get(a, b2, c) })
                    } else {
                        prev.node_at(a, b2, c)
                    }));
                }
                assert forall|a: int, b2: int, c: int|
                    self.exists_at(a, b2, c) && (#[trigger] self.get(a, b2, c)).error
                        != ErrorType::I implies fault_attributable(
                    *old(self),
                    *noise_model,
                    Position { t: a as usize, i: b2 as usize, j: c as usize },
                ) by {
                    assert(self.node_at(a, b2, c) == (if a == position.t && b2 == position.i && c
                        == position.j {
                        Some(SimulatorNode { error: merged, ..prev.get(a, b2, c) })
                    } else {
                        prev.node_at(a, b2, c)
                    }));
                }
            }
            k += 1;
        }
        let nerase = pending_erasure_errors.len();
        let mut k2: usize = 0;
        while k2 < nerase
            invariant
                old(self).lattice_wf(),
                noise_model_ok(*old(self), *noise_model),
                self.dims_ok(),
                self.same_lattice(old(self)),
                nerase == pending_erasure_errors@.len(),
                k2 <= nerase,
                rng.state() == crate::rng::rng_skip(rng_start, draws),
                draws >= 2 * node_count(*old(self)),
                forall|a: int, b2: int, c: int|
                    self.exists_at(a, b2, c) && (#[trigger] self.get(a, b2, c)).is_virtual
                        ==> self.get(a, b2, c).error == ErrorType::I,
                forall|a: int, b2: int, c: int|
                    self.exists_at(a, b2, c) ==> (#[trigger] self.get(a, b2, c)).propagated
                        == ErrorType::I,
                forall|a: int, b2: int, c: int|
                    self.exists_at(a, b2, c) && (#[trigger] self.get(a, b2, c)).error
                        != ErrorType::I ==> fault_attributable(
                        *old(self),
                        *noise_model,
                        Position { t: a as usize, i: b2 as usize, j: c as usize },
                    ),
                forall|a: int, b2: int, c: int|
                    self.exists_at(a, b2, c) && (#[trigger] self.get(a, b2, c)).has_erasure
                        ==> erasure_attributable(
                        *old(self),
                        *noise_model,
                        Position { t: a as usize, i: b2 as usize, j: c as usize },
                    ),
                forall|x: int|
                    0 <= x < pending_erasure_errors@.len() ==> {
                        let q = #[trigger] pending_erasure_errors@[x];
                        old(self).exists_at(q.t as int, q.i as int, q.j as int) && !old(self).get(
                            q.t as int,
                            q.i as int,
                            q.j as int,
                        ).is_virtual && erasure_attributable(*old(self), *noise_model, q)
                    },
            decreases nerase - k2,
        {
            let position = pending_erasure_errors[k2];
            proof {
                assert(old(self).exists_at(position.t as int, position.i as int, position.j as int)
                    && !old(self).get(
                    position.t as int,
                    position.i as int,
                    position.j as int,
                ).is_virtual);
                assert(self.exists_at(position.t as int, position.i as int, position.j as int));
                assert(!self.get(
                    position.t as int,
                    position.i as int,
                    position.j as int,
                ).is_virtual);
            }
            let ghost prev_rng = rng.state();
            let random_erasure = rng.next_unit();
            proof {
                lemma_rng_one_more(rng_start, draws, prev_rng, rng.state());
                draws = draws + 1;
            }
            let sampled = if random_erasure < crate::rng::PROB_ONE / 4 {
                ErrorType::X
            } else if random_erasure < crate::rng::PROB_ONE / 2 {
                ErrorType::Z
            } else if random_erasure < 3 * (crate::rng::PROB_ONE / 4) {
                ErrorType::Y
            } else {
                ErrorType::I
            };
            let ghost prev = *self;
            self.erase_cell(&position, sampled);
            proof {
                lemma_same_lattice_point_update(
                    prev,
                    *self,
                    *old(self),
                    position.t as int,
                    position.i as int,
                    position.j as int,
                    SimulatorNode {
                        has_erasure: true,
                        error: sampled,
                        ..prev.get(position.t as int, position.i as int, position.j as int)
                    },
                );
                assert(erasure_attributable(*old(self), *noise_model, position));
                assert(fault_attributable(*old(self), *noise_model, position));
                assert forall|a: int, b2: int, c: int|
                    self.exists_at(a, b2, c) && (#[trigger] self.get(a, b2, c)).is_virtual implies
                    self.get(a, b2, c).error == ErrorType::I by {
                    assert(self.node_at(a, b2, c) == (if a == position.t && b2 == position.i && c
                        == position.j {
                        Some(
                            SimulatorNode {
                                has_erasure: true,
                                error: sampled,
                                ..prev.get(a, b2, c)
                            },
                        )
                    } else {
                        prev.node_at(a, b2, c)
                    }));
                }
                assert forall|a: int, b2: int, c: int|
                    self.exists_at(a, b2, c) implies (#[trigger] self.get(a, b2, c)).propagated
                    == ErrorType::I by {
                    assert(self.node_at(a, b2, c) == (if a == position.t && b2 == position.i && c
                        == position.j {
                        Some(
                            SimulatorNode {
                                has_erasure: true,
                                error: sampled,
                                ..prev.get(a, b2, c)
                            },
                        )
                    } else {
                        prev.node_at(a, b2, c)
                    }));
                }
                assert forall|a: int, b2: int, c: int|
                    self.exists_at(a, b2, c) && (#[trigger] self.get(a, b2, c)).error
                        != ErrorType::I implies fault_attributable(
                    *old(self),
                    *noise_model,
                    Position { t: a as usize, i: b2 as usize, j: c as usize },
                ) by {
                    assert(self.node_at(a, b2, c) == (if a == position.t && b2 == position.i && c
                        == position.j {
                        Some(
                            SimulatorNode {
                                has_erasure: true,
                                error: sampled,
                                ..prev.get(a, b2, c)
                            },
                        )
                    } else {
                        prev.node_at(a, b2, c)
                    }));
                }
                assert forall|a: int, b2: int, c: int|
                    self.exists_at(a, b2, c) && (#[trigger] self.get(a, b2, c)).has_erasure implies
                    erasure_attributable(
                    *old(self),
                    *noise_model,
                    Position { t: a as usize, i: b2 as usize, j: c as usize },
                ) by {
                    assert(self.node_at(a, b2, c) == (if a == position.t && b2 == position.i && c
                        == position.j {
                        Some(
                            SimulatorNode {
                                has_erasure: true,
                                error: sampled,
                                ..prev.get(a, b2, c)
                            },
                        )
                    } else {
                        prev.node_at(a, b2, c)
                    }));
                }
            }
            k2 += 1;
        }
        let ghost before_rng = *self;
        self.rng = rng;
        proof {
            assert forall|a: int, b2: int, c: int|
                self.exists_at(a, b2, c) && (#[trigger] self.get(a, b2, c)).is_virtual implies
                self.get(a, b2, c).error == ErrorType::I by {
                assert(self.node_at(a, b2, c) == before_rng.node_at(a, b2, c));
                assert(before_rng.exists_at(a, b2, c));
                if before_rng.get(a, b2, c).is_virtual {
                    assert(before_rng.get(a, b2, c).error == ErrorType::I);
                }
            }
            assert forall|a: int, b2: int, c: int|
                self.exists_at(a, b2, c) && (#[trigger] self.get(a, b2, c)).error != ErrorType::I
                implies fault_attributable(
                *old(self),
                *noise_model,
                Position { t: a as usize, i: b2 as usize, j: c as usize },
            ) by {
                assert(self.node_at(a, b2, c) == before_rng.node_at(a, b2, c));
                assert(before_rng.exists_at(a, b2, c));
                if before_rng.get(a, b2, c).error != ErrorType::I {
                    assert(fault_attributable(
                        *old(self),
                        *noise_model,
                        Position { t: a as usize, i: b2 as usize, j: c as usize },
                    ));
                }
            }
            assert forall|a: int, b2: int, c: int|
                self.exists_at(a, b2, c) && (#[trigger] self.get(a, b2, c)).has_erasure implies
                erasure_attributable(
                *old(self),
                *noise_model,
                Position { t: a as usize, i: b2 as usize, j: c as usize },
            ) by {
                assert(self.node_at(a, b2, c) == before_rng.node_at(a, b2, c));
                assert(before_rng.exists_at(a, b2, c));
                if before_rng.get(a, b2, c).has_erasure {
                    assert(erasure_attributable(
                        *old(self),
                        *noise_model,
                        Position { t: a as usize, i: b2 as usize, j: c as usize },
                    ));
                }
            }
        }
        let error_pattern = self.generate_sparse_error_pattern();
        let error_count = error_pattern.len();
        let erasures = self.generate_sparse_detected_erasures();
        let erasure_count = erasures.len();
        let ghost pre_clear = *self;
        proof {
            assert(pre_clear.same_lattice(old(self)));
        }
        self.clear_propagate_errors();
        proof {
            lemma_same_lattice_transitive(*old(self), pre_clear, *self);
            lemma_same_lattice_preserves_wf(*old(self), *self);
        }
        let ghost mid = *self;
        self.propagate_errors();
        proof {
            lemma_same_lattice_transitive(*old(self), mid, *self);
            assert forall|a: int, b2: int, c: int|
                self.exists_at(a, b2, c) && (#[trigger] self.get(a, b2, c)).is_virtual implies
                self.get(a, b2, c).error == ErrorType::I by {
                assert(mid.exists_at(a, b2, c));
                assert(self.get(a, b2, c).error == mid.get(a, b2, c).error);
                assert(pre_clear.exists_at(a, b2, c));
                assert(mid.get(a, b2, c).error == pre_clear.get(a, b2, c).error);
                assert(mid.get(a, b2, c).is_virtual == pre_clear.get(a, b2, c).is_virtual);
                assert(self.get(a, b2, c).is_virtual == mid.get(a, b2, c).is_virtual);
                if pre_clear.get(a, b2, c).is_virtual {
                    assert(pre_clear.get(a, b2, c).error == ErrorType::I);
                }
            }
            assert forall|a: int, b2: int, c: int|
                self.exists_at(a, b2, c) && (#[trigger] self.get(a, b2, c)).error != ErrorType::I
                implies fault_attributable(
                *final(self),
                *noise_model,
                Position { t: a as usize, i: b2 as usize, j: c as usize },
            ) by {
                assert(mid.exists_at(a, b2, c));
                assert(self.get(a, b2, c).error == mid.get(a, b2, c).error);
                assert(pre_clear.exists_at(a, b2, c));
                assert(mid.get(a, b2, c).error == pre_clear.get(a, b2, c).error);
                if pre_clear.get(a, b2, c).error != ErrorType::I {
                    assert(fault_attributable(
                        *old(self),
                        *noise_model,
                        Position { t: a as usize, i: b2 as usize, j: c as usize },
                    ));
                }
                let q = Position { t: a as usize, i: b2 as usize, j: c as usize };
                assert(self.get(a, b2, c).peer() == old(self).get(a, b2, c).peer());
            }
            assert forall|a: int, b2: int, c: int|
                self.exists_at(a, b2, c) && (#[trigger] self.get(a, b2, c)).has_erasure implies
                erasure_attributable(
                *final(self),
                *noise_model,
                Position { t: a as usize, i: b2 as usize, j: c as usize },
            ) by {
                assert(mid.exists_at(a, b2, c));
                assert(self.get(a, b2, c).has_erasure == mid.get(a, b2, c).has_erasure);
                assert(pre_clear.exists_at(a, b2, c));
                assert(mid.get(a, b2, c).has_erasure == pre_clear.get(a, b2, c).has_erasure);
                if pre_clear.get(a, b2, c).has_erasure {
                    assert(erasure_attributable(
                        *old(self),
                        *noise_model,
                        Position { t: a as usize, i: b2 as usize, j: c as usize },
                    ));
                }
                assert(self.get(a, b2, c).peer() == old(self).get(a, b2, c).peer());
            }
            lemma_frame_congruence_all(mid, *self);
            assert forall|a: int, b2: int, c: int|
                self.exists_at(a, b2, c) implies (#[trigger] self.get(a, b2, c)).propagated
                == propagated_frame(*self, a, b2, c) by {
                assert(self.get(a, b2, c).propagated == propagated_frame(mid, a, b2, c));
            }
        }
        (error_count, erasure_count)
    }

    /// Overwrite the virtual flag of one existing cell. Callers must
    /// re-establish lattice well-formedness themselves.
    pub(crate) fn set_virtual_field(&mut self, position: &Position, v: bool)
        requires
            old(self).dims_ok(),
            old(self).exists_at(position.t as int, position.i as int, position.j as int),
        ensures
            final(self).dims_ok(),
            final(self).code_type == old(self).code_type,
            final(self).height == old(self).height,
            final(self).vertical == old(self).vertical,
            final(self).horizontal == old(self).horizontal,
            final(self).measurement_cycles == old(self).measurement_cycles,
            final(self).rng == old(self).rng,
            forall|t: int, i: int, j: int|
                old(self).in_bounds(t, i, j) ==> #[trigger] final(self).node_at(t, i, j) == (if t
                    == position.t && i == position.i && j == position.j {
                    Some(
                        SimulatorNode {
                            is_virtual: v,
                            ..old(self).get(position.t as int, position.i as int, position.j as int)
                        },
                    )
                } else {
                    old(self).node_at(t, i, j)
                }),
    {
        let t = position.t;
        let i = position.i;
        let j = position.j;
        match &mut self.nodes[t][i][j] {
            Some(node) => {
                node.is_virtual = v;
            },
            None => {},
        }
    }

    /// Whether the noise model gives cell `position` any way to acquire the
    /// non-trivial fault `error`: a matching marginal, an erasure, or a
    /// correlated table on the cell or on its coupled peer.
    fn error_possible(&self, noise_model: &NoiseModel, position: &Position, error: &ErrorType) -> (
        r: bool)
        requires
            self.dims_ok(),
            self.exists_at(position.t as int, position.i as int, position.j as int),
            noise_model.wf(),
            noise_model.height == self.height,
            noise_model.vertical == self.vertical,
            noise_model.horizontal == self.horizontal,
        ensures
            r == error_possible_spec(*self, *noise_model, *position, *error),
    {
        let rates = noise_model.get_node(position);
        let marginal = match error {
            ErrorType::X => rates.pauli_error_rates.error_rate_X > 0,
            ErrorType::Y => rates.pauli_error_rates.error_rate_Y > 0,
            ErrorType::Z => rates.pauli_error_rates.error_rate_Z > 0,
            ErrorType::I => false,
        };
        let mut possible = marginal || rates.erasure_error_rate > 0
            || rates.correlated_pauli_error_rates.is_some()
            || rates.correlated_erasure_error_rates.is_some();
        if !possible {
            match self.get_node_unwrap(position).get_peer_option() {
                Some(peer_position) => {
                    if peer_position.t < self.height && peer_position.i < self.vertical
                        && peer_position.j < self.horizontal {
                        let peer_rates = noise_model.get_node(&peer_position);
                        possible = peer_rates.correlated_pauli_error_rates.is_some()
                            || peer_rates.correlated_erasure_error_rates.is_some();
                    }
                },
                None => {},
            }
        }
        possible
    }

    /// Store a fault at `position` after checking the noise model allows it
    /// there; a fault the model gives no way to produce is refused.
    pub fn set_error_check_result(
        &mut self,
        noise_model: &NoiseModel,
        position: &Position,
        error: &ErrorType,
    ) -> (r: Result<(), String>)
        requires
            old(self).lattice_wf(),
            noise_model_ok(*old(self), *noise_model),
            old(self).exists_at(position.t as int, position.i as int, position.j as int),
        ensures
            final(self).lattice_wf(),
            final(self).same_lattice(old(self)),
            final(self).rng == old(self).rng,
            r is Ok <==> (*error == ErrorType::I || error_possible_spec(
                *old(self),
                *noise_model,
                *position,
                *error,
            )),
            r is Ok ==> forall|t: int, i: int, j: int|
                old(self).in_bounds(t, i, j) ==> #[trigger] final(self).node_at(t, i, j) == (if t
                    == position.t && i == position.i && j == position.j {
                    Some(SimulatorNode { error: *error, ..old(self).get(t, i, j) })
                } else {
                    old(self).node_at(t, i, j)
                }),
            r is Err ==> *final(self) == *old(self),
    {
        proof {
            lemma_wf_dims(*old(self));
        }
        if *error == ErrorType::I {
            let ghost prev = *self;
            self.set_error_field(position, ErrorType::I);
            proof {
                lemma_same_lattice_point_update(
                    prev,
                    *self,
                    *old(self),
                    position.t as int,
                    position.i as int,
                    position.j as int,
                    SimulatorNode {
                        error: ErrorType::I,
                        ..prev.get(position.t as int, position.i as int, position.j as int)
                    },
                );
                lemma_same_lattice_preserves_wf(*old(self), *self);
            }
            return Ok(());
        }
        if !self.error_possible(noise_model, position, error) {
            return Err(String::from_str("setting this error here has probability zero"));
        }
        proof {
            lemma_error_possible_not_virtual(*old(self), *noise_model, *position, *error);
        }
        let ghost prev = *self;
        self.set_error_field(position, *error);
        proof {
            lemma_same_lattice_point_update(
                prev,
                *self,
                *old(self),
                position.t as int,
                position.i as int,
                position.j as int,
                SimulatorNode {
                    error: *error,
                    ..prev.get(position.t as int, position.i as int, position.j as int)
                },
            );
            lemma_same_lattice_preserves_wf(*old(self), *self);
        }
        Ok(())
    }

    /// Store a fault at `position`, aborting the trial on a fault the noise
    /// model gives no way to produce.
    pub fn set_error_check(
        &mut self,
        noise_model: &NoiseModel,
        position: &Position,
        error: &ErrorType,
    )
        requires
            old(self).lattice_wf(),
            noise_model_ok(*old(self), *noise_model),
            old(self).exists_at(position.t as int, position.i as int, position.j as int),
            *error == ErrorType::I || error_possible_spec(
                *old(self),
                *noise_model,
                *position,
                *error,
            ),
        ensures
            final(self).lattice_wf(),
            final(self).same_lattice(old(self)),
            final(self).rng == old(self).rng,
            forall|t: int, i: int, j: int|
                old(self).in_bounds(t, i, j) ==> #[trigger] final(self).node_at(t, i, j) == (if t
                    == position.t && i == position.i && j == position.j {
                    Some(SimulatorNode { error: *error, ..old(self).get(t, i, j) })
                } else {
                    old(self).node_at(t, i, j)
                }),
    {
        let r = self.set_error_check_result(noise_model, position, error);
        match r {
            Ok(()) => {},
            Err(_) => {
                proof {
                    assert(false);
                }
            },
        }
    }

    /// Mark `position` as erased after checking the noise model allows an
    /// erasure there; clearing the flag is always allowed.
    pub fn set_erasure_check_result(
        &mut self,
        noise_model: &NoiseModel,
        position: &Position,
        has_erasure: bool,
    ) -> (r: Result<(), String>)
        requires
            old(self).lattice_wf(),
            noise_model_ok(*old(self), *noise_model),
            old(self).exists_at(position.t as int, position.i as int, position.j as int),
        ensures
            final(self).lattice_wf(),
            final(self).same_lattice(old(self)),
            final(self).rng == old(self).rng,
            r is Ok <==> (!has_erasure || erasure_possible_spec(
                *old(self),
                *noise_model,
                *position,
            )),
            r is Ok ==> forall|t: int, i: int, j: int|
                old(self).in_bounds(t, i, j) ==> #[trigger] final(self).node_at(t, i, j) == (if t
                    == position.t && i == position.i && j == position.j {
                    Some(SimulatorNode { has_erasure, ..old(self).get(t, i, j) })
                } else {
                    old(self).node_at(t, i, j)
                }),
            r is Err ==> *final(self) == *old(self),
    {
        proof {
            lemma_wf_dims(*old(self));
        }
        if !has_erasure {
            let ghost prev = *self;
            self.set_erasure_field(position, false);
            proof {
                lemma_same_lattice_point_update(
                    prev,
                    *self,
                    *old(self),
                    position.t as int,
                    position.i as int,
                    position.j as int,
                    SimulatorNode {
                        has_erasure: false,
                        ..prev.get(position.t as int, position.i as int, position.j as int)
                    },
                );
                lemma_same_lattice_preserves_wf(*old(self), *self);
            }
            return Ok(());
        }
        let rates = noise_model.get_node(position);
        let mut possible = rates.erasure_error_rate > 0
            || rates.correlated_erasure_error_rates.is_some();
        if !possible {
            match self.get_node_unwrap(position).get_peer_option() {
                Some(peer_position) => {
                    if peer_position.t < self.height && peer_position.i < self.vertical
                        && peer_position.j < self.horizontal {
                        let peer_rates = noise_model.get_node(&peer_position);
                        possible = peer_rates.correlated_erasure_error_rates.is_some();
                    }
                },
                None => {},
            }
        }
        if !possible {
            return Err(String::from_str("setting an erasure here has probability zero"));
        }
        let ghost prev = *self;
        self.set_erasure_field(position, true);
        proof {
            lemma_same_lattice_point_update(
                prev,
                *self,
                *old(self),
                position.t as int,
                position.i as int,
                position.j as int,
                SimulatorNode {
                    has_erasure: true,
                    ..prev.get(position.t as int, position.i as int, position.j as int)
                },
            );
            lemma_same_lattice_preserves_wf(*old(self), *self);
        }
        Ok(())
    }

    /// Mark `position` as erased, aborting the trial on an erasure the noise
    /// model gives no way to produce.
    pub fn set_erasure_check(
        &mut self,
        noise_model: &NoiseModel,
        position: &Position,
        has_erasure: bool,
    )
        requires
            old(self).lattice_wf(),
            noise_model_ok(*old(self), *noise_model),
            old(self).exists_at(position.t as int, position.i as int, position.j as int),
            !has_erasure || erasure_possible_spec(*old(self), *noise_model, *position),
        ensures
            final(self).lattice_wf(),
            final(self).same_lattice(old(self)),
            final(self).rng == old(self).rng,
            forall|t: int, i: int, j: int|
                old(self).in_bounds(t, i, j) ==> #[trigger] final(self).node_at(t, i, j) == (if t
                    == position.t && i == position.i && j == position.j {
                    Some(SimulatorNode { has_erasure, ..old(self).get(t, i, j) })
                } else {
                    old(self).node_at(t, i, j)
                }),
    {
        let r = self.set_erasure_check_result(noise_model, position, has_erasure);
        match r {
            Ok(()) => {},
            Err(_) => {
                proof {
                    assert(false);
                }
            },
        }
    }

    /// Overwrite each listed cell's fault with the listed operator.
    #[verifier::spinoff_prover]
    fn inject_error_pattern(&mut self, sparse_errors: &SparseErrorPattern)
        requires
            old(self).dims_ok(),
            old(self).all_clean(),
            sparse_errors.wf(),
            forall|k: int|
                0 <= k < sparse_errors@.len() ==> old(self).exists_at(
                    (#[trigger] sparse_errors@[k]).0.t as int,
                    sparse_errors@[k].0.i as int,
                    sparse_errors@[k].0.j as int,
                ),
        ensures
            final(self).dims_ok(),
            final(self).code_type == old(self).code_type,
            final(self).height == old(self).height,
            final(self).vertical == old(self).vertical,
            final(self).horizontal == old(self).horizontal,
            final(self).measurement_cycles == old(self).measurement_cycles,
            final(self).rng == old(self).rng,
            final(self).same_lattice(old(self)),
            forall|t2: int, i2: int, j2: int|
                old(self).in_bounds(t2, i2, j2) ==> #[trigger] final(self).node_at(t2, i2, j2)
                    == (if has_key(
                    sparse_errors@,
                    Position { t: t2 as usize, i: i2 as usize, j: j2 as usize },
                ) {
                    Some(
                        SimulatorNode {
                            error: value_of_key(
                                sparse_errors@,
                                Position { t: t2 as usize, i: i2 as usize, j: j2 as usize },
                            ),
                            ..old(self).get(t2, i2, j2)
                        },
                    )
                } else {
                    old(self).node_at(t2, i2, j2)
                }),
            final(self).propagated_clean(),
    {
        let entries = sparse_errors.to_vec();
        let n = entries.len();
        let mut k: usize = 0;
        while k < n
            invariant
                old(self).dims_ok(),
                old(self).all_clean(),
                self.dims_ok(),
                self.same_lattice(old(self)),
                self.code_type == old(self).code_type,
                self.height == old(self).height,
                self.vertical == old(self).vertical,
                self.horizontal == old(self).horizontal,
                self.measurement_cycles == old(self).measurement_cycles,
                self.rng == old(self).rng,
                sparse_errors.wf(),
                entries@ == sparse_errors@,
                n == entries@.len(),
                k <= n,
                forall|x: int|
                    0 <= x < sparse_errors@.len() ==> old(self).exists_at(
                        (#[trigger] sparse_errors@[x]).0.t as int,
                        sparse_errors@[x].0.i as int,
                        sparse_errors@[x].0.j as int,
                    ),
                forall|t2: int, i2: int, j2: int|
                    old(self).in_bounds(t2, i2, j2) ==> #[trigger] self.node_at(t2, i2, j2) == (
                    if exists|x: int|
                        0 <= x < k && (#[trigger] sparse_errors@[x]).0 == (Position {
                            t: t2 as usize,
                            i: i2 as usize,
                            j: j2 as usize,
                        }) {
                        Some(
                            SimulatorNode {
                                error: value_of_key(
                                    sparse_errors@,
                                    Position { t: t2 as usize, i: i2 as usize, j: j2 as usize },
                                ),
                                ..old(self).get(t2, i2, j2)
                            },
                        )
                    } else {
                        old(self).node_at(t2, i2, j2)
                    }),
            decreases n - k,
        {
            let (position, operator) = entries[k];
            proof {
                assert(sparse_errors@[k as int].0 == position);
                crate::sparse::lemma_entries_key_at(sparse_errors@, k as int);
            }
            let ghost prev = *self;
            self.set_error_field(&position, operator);
            proof {
                lemma_same_lattice_point_update(
                    prev,
                    *self,
                    *old(self),
                    position.t as int,
                    position.i as int,
                    position.j as int,
                    SimulatorNode {
                        error: operator,
                        ..prev.get(position.t as int, position.i as int, position.j as int)
                    },
                );
                assert forall|t2: int, i2: int, j2: int|
                    old(self).in_bounds(t2, i2, j2) implies #[trigger] self.node_at(t2, i2, j2)
                    == (if exists|x: int|
                        0 <= x < k + 1 && (#[trigger] sparse_errors@[x]).0 == (Position {
                            t: t2 as usize,
                            i: i2 as usize,
                            j: j2 as usize,
                        }) {
                    Some(
                        SimulatorNode {
                            error: value_of_key(
                                sparse_errors@,
                                Position { t: t2 as usize, i: i2 as usize, j: j2 as usize },
                            ),
                            ..old(self).get(t2, i2, j2)
                        },
                    )
                } else {
                    old(self).node_at(t2, i2, j2)
                }) by {
                    let q = Position { t: t2 as usize, i: i2 as usize, j: j2 as usize };
                    if q == position {
                        assert(exists|x: int|
                            0 <= x < k + 1 && (#[trigger] sparse_errors@[x]).0 == q);
                        assert(value_of_key(sparse_errors@, q) == operator);
                    } else {
                        assert(self.node_at(t2, i2, j2) == prev.node_at(t2, i2, j2));
                        if exists|x: int| 0 <= x < k && (#[trigger] sparse_errors@[x]).0 == q {
                            assert(exists|x: int|
                                0 <= x < k + 1 && (#[trigger] sparse_errors@[x]).0 == q);
                        }
                        if exists|x: int|
                            0 <= x < k + 1 && (#[trigger] sparse_errors@[x]).0 == q {
                            let x = choose|x: int|
                                0 <= x < k + 1 && (#[trigger] sparse_errors@[x]).0 == q;
                            assert(x < k);
                            assert(exists|x2: int|
                                0 <= x2 < k && (#[trigger] sparse_errors@[x2]).0 == q);
                        }
                    }
                }
            }
            k += 1;
        }
        proof {
            assert forall|t2: int, i2: int, j2: int|
                old(self).in_bounds(t2, i2, j2) implies #[trigger] self.node_at(t2, i2, j2) == (
                if has_key(
                sparse_errors@,
                Position { t: t2 as usize, i: i2 as usize, j: j2 as usize },
            ) {
                Some(
                    SimulatorNode {
                        error: value_of_key(
                            sparse_errors@,
                            Position { t: t2 as usize, i: i2 as usize, j: j2 as usize },
                        ),
                        ..old(self).get(t2, i2, j2)
                    },
                )
            } else {
                old(self).node_at(t2, i2, j2)
            }) by {
                let q = Position { t: t2 as usize, i: i2 as usize, j: j2 as usize };
                if has_key(sparse_errors@, q) {
                    let x = choose|x: int|
                        0 <= x < sparse_errors@.len() && sparse_errors@[x].0 == q;
                    assert(exists|y: int| 0 <= y < n && (#[trigger] sparse_errors@[y]).0 == q);
                }
            }
            assert forall|t2: int, i2: int, j2: int|
                self.exists_at(t2, i2, j2) implies (#[trigger] self.get(t2, i2, j2)).propagated
                == ErrorType::I by {
                let q = Position { t: t2 as usize, i: i2 as usize, j: j2 as usize };
                assert(old(self).exists_at(t2, i2, j2));
                assert(old(self).get(t2, i2, j2).is_clean());
            }
        }
    }

    /// Measure the syndrome of one injected error pattern from a clean
    /// state: inject, propagate, read the correction and the real and
    /// virtual defect sets, then restore the clean state. The outputs equal
    /// those of the layer-by-layer sweep for the same pattern.
    #[verifier::rlimit(100)]
    #[verifier::spinoff_prover]
    pub fn fast_measurement_given_few_errors(&mut self, sparse_errors: &SparseErrorPattern) -> (r:
        (SparseCorrection, SparseMeasurement, SparseMeasurement))
        requires
            old(self).lattice_wf(),
            syndrome_wf(*old(self)),
            old(self).all_clean(),
            old(self).height >= 1,
            sparse_errors.wf(),
            forall|k: int|
                0 <= k < sparse_errors@.len() ==> old(self).exists_at(
                    (#[trigger] sparse_errors@[k]).0.t as int,
                    sparse_errors@[k].0.i as int,
                    sparse_errors@[k].0.j as int,
                ),
        ensures
            final(self).lattice_wf(),
            final(self).same_lattice(old(self)),
            final(self).rng == old(self).rng,
            final(self).all_clean(),
            r.0.wf(),
            r.1.wf(),
            r.2.wf(),
            exists|work: Simulator|
                {
                    &&& #[trigger] work.same_lattice(old(self))
                    &&& work.lattice_wf()
                    &&& work.height == old(self).height
                    &&& (forall|t2: int, i2: int, j2: int|
                        work.exists_at(t2, i2, j2) ==> (#[trigger] work.get(t2, i2, j2)).error == (
                        if has_key(
                            sparse_errors@,
                            Position { t: t2 as usize, i: i2 as usize, j: j2 as usize },
                        ) {
                            value_of_key(
                                sparse_errors@,
                                Position { t: t2 as usize, i: i2 as usize, j: j2 as usize },
                            )
                        } else {
                            ErrorType::I
                        }))
                    &&& (forall|t2: int, i2: int, j2: int|
                        work.exists_at(t2, i2, j2) ==> (#[trigger] work.get(
                            t2,
                            i2,
                            j2,
                        )).propagated == propagated_frame(work, t2, i2, j2))
                    &&& (forall|p: Position|
                        #[trigger] r.1@.contains(p) <==> (work.measurement_cycles <= p.t
                            < work.height && (p.t as int) % (work.measurement_cycles as int) == 0
                            && defect_at(work, p.t as int, p.i as int, p.j as int) && !work.get(
                            p.t as int,
                            p.i as int,
                            p.j as int,
                        ).is_virtual))
                    &&& (forall|p: Position|
                        #[trigger] r.2@.contains(p) <==> (work.measurement_cycles <= p.t
                            < work.height && (p.t as int) % (work.measurement_cycles as int) == 0
                            && defect_at(work, p.t as int, p.i as int, p.j as int) && work.get(
                            p.t as int,
                            p.i as int,
                            p.j as int,
                        ).is_virtual))
                    &&& (forall|p: Position|
                        #[trigger] has_key(r.0@, p) <==> (p.t == work.height - 1 && work.exists_at(
                            p.t as int,
                            p.i as int,
                            p.j as int,
                        ) && work.get(p.t as int, p.i as int, p.j as int).qubit_type
                            == QubitType::Data && work.get(
                            p.t as int,
                            p.i as int,
                            p.j as int,
                        ).propagated != ErrorType::I))
                    &&& (forall|p: Position|
                        #[trigger] has_key(r.0@, p) ==> value_of_key(r.0@, p) == work.get(
                            p.t as int,
                            p.i as int,
                            p.j as int,
                        ).propagated)
                },
    {
        proof {
            lemma_wf_dims(*old(self));
        }
        self.inject_error_pattern(sparse_errors);
        proof {
            lemma_same_lattice_preserves_wf(*old(self), *self);
        }
        let ghost injected = *self;
        self.propagate_errors();
        proof {
            lemma_frame_congruence_all(injected, *self);
            assert(syndrome_wf(*self)) by {
                assert forall|t2: int, i2: int, j2: int|
                    self.exists_at(t2, i2, j2) && self.measurement_cycles <= t2 && t2 % (
                self.measurement_cycles as int) == 0 && is_measurement_spec((#[trigger] self.get(
                    t2,
                    i2,
                    j2,
                )).gate_type) implies measurement_found(*self, t2, i2, j2) by {
                    assert(old(self).exists_at(t2, i2, j2));
                    assert(old(self).get(t2, i2, j2).gate_type == self.get(t2, i2, j2).gate_type);
                    assert(measurement_found(*old(self), t2, i2, j2));
                    lemma_measurement_found_congruence(*old(self), *self, t2, i2, j2);
                }
            }
        }
        let ghost work = *self;
        let sparse_measurement_real = self.generate_sparse_measurement();
        let sparse_measurement_virtual = self.generate_sparse_measurement_virtual();
        let sparse_correction = self.generate_sparse_correction();
        proof {
            lemma_wf_dims(*self);
        }
        self.clear_all_errors();
        proof {
            lemma_same_lattice_transitive(*old(self), injected, work);
            lemma_same_lattice_transitive(*old(self), work, *self);
            lemma_same_lattice_preserves_wf(*old(self), *self);
            assert forall|t2: int, i2: int, j2: int|
                work.exists_at(t2, i2, j2) implies (#[trigger] work.get(t2, i2, j2)).error == (
            if has_key(
                sparse_errors@,
                Position { t: t2 as usize, i: i2 as usize, j: j2 as usize },
            ) {
                value_of_key(
                    sparse_errors@,
                    Position { t: t2 as usize, i: i2 as usize, j: j2 as usize },
                )
            } else {
                ErrorType::I
            }) by {
                assert(injected.exists_at(t2, i2, j2));
                assert(work.get(t2, i2, j2).error == injected.get(t2, i2, j2).error);
                assert(injected.node_at(t2, i2, j2) == (if has_key(
                    sparse_errors@,
                    Position { t: t2 as usize, i: i2 as usize, j: j2 as usize },
                ) {
                    Some(
                        SimulatorNode {
                            error: value_of_key(
                                sparse_errors@,
                                Position { t: t2 as usize, i: i2 as usize, j: j2 as usize },
                            ),
                            ..old(self).get(t2, i2, j2)
                        },
                    )
                } else {
                    old(self).node_at(t2, i2, j2)
                }));
                if !has_key(
                    sparse_errors@,
                    Position { t: t2 as usize, i: i2 as usize, j: j2 as usize },
                ) {
                    assert(old(self).get(t2, i2, j2).is_clean());
                }
            }
            assert forall|t2: int, i2: int, j2: int|
                work.exists_at(t2, i2, j2) implies (#[trigger] work.get(t2, i2, j2)).propagated
                == propagated_frame(work, t2, i2, j2) by {
                assert(work.get(t2, i2, j2).propagated == propagated_frame(injected, t2, i2, j2));
                lemma_frame_congruence(injected, work, t2, i2, j2);
            }
        }
        (sparse_correction, sparse_measurement_real, sparse_measurement_virtual)
    }

    /// Reset the per-trial state of one existing cell.
    fn clear_node(&mut self, position: &Position)
        requires
            old(self).dims_ok(),
            old(self).exists_at(position.t as int, position.i as int, position.j as int),
        ensures
            final(self).dims_ok(),
            final(self).code_type == old(self).code_type,
            final(self).height == old(self).height,
            final(self).vertical == old(self).vertical,
            final(self).horizontal == old(self).horizontal,
            final(self).measurement_cycles == old(self).measurement_cycles,
            final(self).rng == old(self).rng,
            forall|t: int, i: int, j: int|
                old(self).in_bounds(t, i, j) ==> #[trigger] final(self).node_at(t, i, j) == (if t
                    == position.t && i == position.i && j == position.j {
                    Some(
                        SimulatorNode {
                            error: ErrorType::I,
                            has_erasure: false,
                            propagated: ErrorType::I,
                            ..old(self).get(position.t as int, position.i as int, position.j as int)
                        },
                    )
                } else {
                    old(self).node_at(t, i, j)
                }),
    {
        let t = position.t;
        let i = position.i;
        let j = position.j;
        match &mut self.nodes[t][i][j] {
            Some(node) => {
                node.error = ErrorType::I;
                node.has_erasure = false;
                node.propagated = ErrorType::I;
            },
            None => {},
        }
    }

    /// Overwrite the propagated frame of one existing cell.
    fn set_propagated(&mut self, position: &Position, v: ErrorType)
        requires
            old(self).dims_ok(),
            old(self).exists_at(position.t as int, position.i as int, position.j as int),
        ensures
            final(self).dims_ok(),
            final(self).code_type == old(self).code_type,
            final(self).height == old(self).height,
            final(self).vertical == old(self).vertical,
            final(self).horizontal == old(self).horizontal,
            final(self).measurement_cycles == old(self).measurement_cycles,
            final(self).rng == old(self).rng,
            forall|t: int, i: int, j: int|
                old(self).in_bounds(t, i, j) ==> #[trigger] final(self).node_at(t, i, j) == (if t
                    == position.t && i == position.i && j == position.j {
                    Some(
                        SimulatorNode {
                            propagated: v,
                            ..old(self).get(position.t as int, position.i as int, position.j as int)
                        },
                    )
                } else {
                    old(self).node_at(t, i, j)
                }),
    {
        let t = position.t;
        let i = position.i;
        let j = position.j;
        match &mut self.nodes[t][i][j] {
            Some(node) => {
                node.propagated = v;
            },
            None => {},
        }
    }

    /// Overwrite the sampled fault of one existing cell.
    fn set_error_field(&mut self, position: &Position, v: ErrorType)
        requires
            old(self).dims_ok(),
            old(self).exists_at(position.t as int, position.i as int, position.j as int),
        ensures
            final(self).dims_ok(),
            final(self).code_type == old(self).code_type,
            final(self).height == old(self).height,
            final(self).vertical == old(self).vertical,
            final(self).horizontal == old(self).horizontal,
            final(self).measurement_cycles == old(self).measurement_cycles,
            final(self).rng == old(self).rng,
            forall|t: int, i: int, j: int|
                old(self).in_bounds(t, i, j) ==> #[trigger] final(self).node_at(t, i, j) == (if t
                    == position.t && i == position.i && j == position.j {
                    Some(
                        SimulatorNode {
                            error: v,
                            ..old(self).get(position.t as int, position.i as int, position.j as int)
                        },
                    )
                } else {
                    old(self).node_at(t, i, j)
                }),
    {
        let t = position.t;
        let i = position.i;
        let j = position.j;
        match &mut self.nodes[t][i][j] {
            Some(node) => {
                node.error = v;
            },
            None => {},
        }
    }

    /// Overwrite the erasure flag of one existing cell.
    fn set_erasure_field(&mut self, position: &Position, v: bool)
        requires
            old(self).dims_ok(),
            old(self).exists_at(position.t as int, position.i as int, position.j as int),
        ensures
            final(self).dims_ok(),
            final(self).code_type == old(self).code_type,
            final(self).height == old(self).height,
            final(self).vertical == old(self).vertical,
            final(self).horizontal == old(self).horizontal,
            final(self).measurement_cycles == old(self).measurement_cycles,
            final(self).rng == old(self).rng,
            forall|t: int, i: int, j: int|
                old(self).in_bounds(t, i, j) ==> #[trigger] final(self).node_at(t, i, j) == (if t
                    == position.t && i == position.i && j == position.j {
                    Some(
                        SimulatorNode {
                            has_erasure: v,
                            ..old(self).get(position.t as int, position.i as int, position.j as int)
                        },
                    )
                } else {
                    old(self).node_at(t, i, j)
                }),
    {
        let t = position.t;
        let i = position.i;
        let j = position.j;
        match &mut self.nodes[t][i][j] {
            Some(node) => {
                node.has_erasure = v;
            },
            None => {},
        }
    }

    /// Reset every cell's fault state: no error, no erasure, identity frame.
    pub fn clear_all_errors(&mut self)
        requires
            old(self).dims_ok(),
        ensures
            final(self).dims_ok(),
            final(self).same_lattice(old(self)),
            final(self).rng == old(self).rng,
            final(self).all_clean(),
    {
        let height = self.height;
        let vertical = self.vertical;
        let horizontal = self.horizontal;
        let mut t: usize = 0;
        while t < height
            invariant
                self.dims_ok(),
                self.same_lattice(old(self)),
                self.rng == old(self).rng,
                height == self.height,
                vertical == self.vertical,
                horizontal == self.horizontal,
                t <= height,
                forall|a: int, b: int, c: int|
                    self.exists_at(a, b, c) && a < t ==> (#[trigger] self.get(a, b, c)).is_clean(),
            decreases height - t,
        {
            let mut i: usize = 0;
            while i < vertical
                invariant
                    self.dims_ok(),
                    self.same_lattice(old(self)),
                    self.rng == old(self).rng,
                    height == self.height,
                    vertical == self.vertical,
                    horizontal == self.horizontal,
                    t < height,
                    i <= vertical,
                    forall|a: int, b: int, c: int|
                        self.exists_at(a, b, c) && (a < t || (a == t && b < i)) ==> (
                        #[trigger] self.get(a, b, c)).is_clean(),
                decreases vertical - i,
            {
                let mut j: usize = 0;
                while j < horizontal
                    invariant
                        self.dims_ok(),
                        self.same_lattice(old(self)),
                        self.rng == old(self).rng,
                        height == self.height,
                        vertical == self.vertical,
                        horizontal == self.horizontal,
                        t < height,
                        i < vertical,
                        j <= horizontal,
                        forall|a: int, b: int, c: int|
                            self.exists_at(a, b, c) && (a < t || (a == t && b < i) || (a == t && b
                                == i && c < j)) ==> (#[trigger] self.get(a, b, c)).is_clean(),
                    decreases horizontal - j,
                {
                    let ghost prev = *self;
                    let position = Position::new(t, i, j);
                    if self.is_node_exist(&position) {
                        self.clear_node(&position);
                    }
                    proof {
                        assert forall|a: int, b: int, c: int|
                            self.exists_at(a, b, c) && (a < t || (a == t && b < i) || (a == t && b
                                == i && c < j + 1)) implies (#[trigger] self.get(
                            a,
                            b,
                            c,
                        )).is_clean() by {
                            assert(self.node_at(a, b, c) == (if a == t && b == i && c == j
                                && prev.exists_at(a, b, c) {
                                Some(
                                    SimulatorNode {
                                        error: ErrorType::I,
                                        has_erasure: false,
                                        propagated: ErrorType::I,
                                        ..prev.get(a, b, c)
                                    },
                                )
                            } else {
                                prev.node_at(a, b, c)
                            }));
                            if !(a == t && b == i && c == j) {
                                assert(prev.get(a, b, c).is_clean());
                            }
                        }
                    }
                    j += 1;
                }
                i += 1;
            }
            t += 1;
        }
    }

    /// Reset every cell's propagated frame to the identity, leaving errors
    /// and erasures alone. Must run before a fresh propagation sweep.
    pub fn clear_propagate_errors(&mut self)
        requires
            old(self).dims_ok(),
        ensures
            final(self).dims_ok(),
            final(self).same_lattice(old(self)),
            final(self).rng == old(self).rng,
            final(self).propagated_clean(),
            forall|t: int, i: int, j: int|
                old(self).exists_at(t, i, j) ==> {
                    let a = old(self).get(t, i, j);
                    let b = #[trigger] final(self).get(t, i, j);
                    b.error == a.error && b.has_erasure == a.has_erasure
                },
    {
        let height = self.height;
        let vertical = self.vertical;
        let horizontal = self.horizontal;
        let mut t: usize = 0;
        while t < height
            invariant
                self.dims_ok(),
                self.same_lattice(old(self)),
                self.rng == old(self).rng,
                height == self.height,
                vertical == self.vertical,
                horizontal == self.horizontal,
                t <= height,
                forall|a: int, b: int, c: int|
                    self.exists_at(a, b, c) && a < t ==> (#[trigger] self.get(a, b, c)).propagated
                        == ErrorType::I,
                forall|a: int, b: int, c: int|
                    old(self).exists_at(a, b, c) ==> {
                        let x = old(self).get(a, b, c);
                        let y = #[trigger] self.get(a, b, c);
                        y.error == x.error && y.has_erasure == x.has_erasure
                    },
            decreases height - t,
        {
            let mut i: usize = 0;
            while i < vertical
                invariant
                    self.dims_ok(),
                    self.same_lattice(old(self)),
                    self.rng == old(self).rng,
                    height == self.height,
                    vertical == self.vertical,
                    horizontal == self.horizontal,
                    t < height,
                    i <= vertical,
                    forall|a: int, b: int, c: int|
                        self.exists_at(a, b, c) && (a < t || (a == t && b < i)) ==> (
                        #[trigger] self.get(a, b, c)).propagated == ErrorType::I,
                    forall|a: int, b: int, c: int|
                        old(self).exists_at(a, b, c) ==> {
                            let x = old(self).get(a, b, c);
                            let y = #[trigger] self.get(a, b, c);
                            y.error == x.error && y.has_erasure == x.has_erasure
                        },
                decreases vertical - i,
            {
                let mut j: usize = 0;
                while j < horizontal
                    invariant
                        self.dims_ok(),
                        self.same_lattice(old(self)),
                        self.rng == old(self).rng,
                        height == self.height,
                        vertical == self.vertical,
                        horizontal == self.horizontal,
                        t < height,
                        i < vertical,
                        j <= horizontal,
                        forall|a: int, b: int, c: int|
                            self.exists_at(a, b, c) && (a < t || (a == t && b < i) || (a == t && b
                                == i && c < j)) ==> (#[trigger] self.get(a, b, c)).propagated
                                == ErrorType::I,
                        forall|a: int, b: int, c: int|
                            old(self).exists_at(a, b, c) ==> {
                                let x = old(self).get(a, b, c);
                                let y = #[trigger] self.get(a, b, c);
                                y.error == x.error && y.has_erasure == x.has_erasure
                            },
                    decreases horizontal - j,
                {
                    let ghost prev = *self;
                    let position = Position::new(t, i, j);
                    if self.is_node_exist(&position) {
                        self.set_propagated(&position, ErrorType::I);
                    }
                    proof {
                        assert forall|a: int, b: int, c: int|
                            self.exists_at(a, b, c) && (a < t || (a == t && b < i) || (a == t && b
                                == i && c < j + 1)) implies (#[trigger] self.get(a, b, c)).propagated
                            == ErrorType::I by {
                            assert(self.node_at(a, b, c) == (if a == t && b == i && c == j
                                && prev.exists_at(a, b, c) {
                                Some(SimulatorNode { propagated: ErrorType::I, ..prev.get(a, b, c) })
                            } else {
                                prev.node_at(a, b, c)
                            }));
                            if !(a == t && b == i && c == j) {
                                assert(prev.get(a, b, c).propagated == ErrorType::I);
                            }
                        }
                    }
                    j += 1;
                }
                i += 1;
            }
            t += 1;
        }
    }
}

/// Whether cell `(t, i, j)` pairs soundly with its peer: a two-qubit
/// gate has a peer in the same layer that exists, points back, carries the
/// matching gate kind, and whose virtual flag this cell mirrors.
#[verifier::opaque]
pub open spec fn cell_peer_ok(s: Simulator, t: int, i: int, j: int) -> bool {
    let n = s.get(t, i, j);
    &&& (is_two_qubit_gate_spec(n.gate_type) <==> n.peer() is Some)
    &&& match n.peer() {
        Some(p) => {
            &&& p.t == t
            &&& s.exists_at(t, p.i as int, p.j as int)
            &&& !(p.i == i && p.j == j)
            &&& s.get(t, p.i as int, p.j as int).gate_type == peer_gate_spec(n.gate_type)
            &&& s.get(t, p.i as int, p.j as int).peer() == Some(
                Position { t: t as usize, i: i as usize, j: j as usize },
            )
            &&& n.is_peer_virtual == s.get(t, p.i as int, p.j as int).is_virtual
        },
        None => true,
    }
}

/// A well-formed lattice is a full cube with at least one layer per round.
pub proof fn lemma_wf_dims(s: Simulator)
    requires
        s.lattice_wf(),
    ensures
        s.dims_ok(),
        s.measurement_cycles >= 1,
{
    reveal(Simulator::lattice_wf);
}

/// In a well-formed lattice, a cell exists exactly when the layer-0 cell of
/// its column exists.
pub proof fn lemma_wf_column(s: Simulator, t: int, i: int, j: int)
    requires
        s.lattice_wf(),
        s.in_bounds(t, i, j),
    ensures
        s.exists_at(t, i, j) == s.exists_at(0, i, j),
        forall|t2: int| 0 <= t2 < s.height ==> #[trigger] s.exists_at(t2, i, j) == s.exists_at(
            0,
            i,
            j,
        ),
{
    reveal(Simulator::lattice_wf);
    assert forall|t2: int| 0 <= t2 < s.height implies #[trigger] s.exists_at(t2, i, j)
        == s.exists_at(0, i, j) by {
        assert(s.in_bounds(t2, i, j));
    }
}

/// The pointwise peer facts of one existing cell of a well-formed lattice.
pub proof fn lemma_wf_cell(s: Simulator, t: int, i: int, j: int)
    requires
        s.lattice_wf(),
        s.exists_at(t, i, j),
    ensures
        (is_two_qubit_gate_spec(s.get(t, i, j).gate_type) <==> s.get(t, i, j).peer() is Some),
        match s.get(t, i, j).peer() {
            Some(p) => {
                &&& p.t == t
                &&& s.exists_at(t, p.i as int, p.j as int)
                &&& !(p.i == i && p.j == j)
                &&& s.get(t, p.i as int, p.j as int).gate_type == peer_gate_spec(
                    s.get(t, i, j).gate_type,
                )
                &&& s.get(t, p.i as int, p.j as int).peer() == Some(
                    Position { t: t as usize, i: i as usize, j: j as usize },
                )
                &&& s.get(t, i, j).is_peer_virtual == s.get(t, p.i as int, p.j as int).is_virtual
            },
            None => true,
        },
{
    reveal(Simulator::lattice_wf);
    assert(cell_peer_ok(s, t, i, j));
    reveal(cell_peer_ok);
}

/// The Pauli frame on the wire at cell `(t, i, j)` implied by the injected
/// `error` fields alone: the unique result of a layer-by-layer propagation
/// sweep from a clean state. The frame at layer 0 is the identity; the frame
/// one layer up combines what the cell below passes on with what its gate
/// peer adds, except that an initialization wipes the frame and a virtual
/// cell never adds to a real peer.
#[verifier::opaque]
pub open spec fn propagated_frame(s: Simulator, t: int, i: int, j: int) -> ErrorType
    decreases t,
{
    if t <= 0 {
        ErrorType::I
    } else {
        let tp = t - 1;
        if !s.exists_at(tp, i, j) {
            ErrorType::I
        } else {
            let n = s.get(tp, i, j);
            let self_contrib = if is_initialization_spec(n.gate_type) {
                ErrorType::I
            } else {
                pauli_mul(n.error, propagated_frame(s, tp, i, j))
            };
            let peer_contrib = match n.peer() {
                Some(p) => if s.exists_at(tp, p.i as int, p.j as int) {
                    let q = s.get(tp, p.i as int, p.j as int);
                    if q.is_virtual && !q.is_peer_virtual {
                        ErrorType::I
                    } else {
                        propagate_peer_spec(
                            q.gate_type,
                            propagated_frame(s, tp, p.i as int, p.j as int),
                        )
                    }
                } else {
                    ErrorType::I
                },
                None => ErrorType::I,
            };
            pauli_mul(self_contrib, peer_contrib)
        }
    }
}

/// When no cell carries an error, every propagated frame is the identity:
/// propagation from a clean state leaves the state clean.
pub proof fn lemma_frame_identity_when_clean(s: Simulator, t: int, i: int, j: int)
    requires
        forall|a: int, b: int, c: int|
            s.exists_at(a, b, c) ==> (#[trigger] s.get(a, b, c)).error == ErrorType::I,
    ensures
        propagated_frame(s, t, i, j) == ErrorType::I,
    decreases t,
{
    reveal(propagated_frame);
    if t > 0 {
        let tp = t - 1;
        lemma_frame_identity_when_clean(s, tp, i, j);
        if s.exists_at(tp, i, j) {
            let n = s.get(tp, i, j);
            match n.peer() {
                Some(p) => {
                    lemma_frame_identity_when_clean(s, tp, p.i as int, p.j as int);
                },
                None => {},
            }
        }
    }
}

/// Whether walking back from layer `t` in steps of one measurement round
/// eventually lands on a measurement gate in the same column.
#[verifier::opaque]
pub open spec fn measurement_found(s: Simulator, t: int, i: int, j: int) -> bool
    decreases t,
{
    if s.measurement_cycles < 1 || t < s.measurement_cycles {
        false
    } else {
        let tp = t - s.measurement_cycles;
        if s.exists_at(tp, i, j) && is_measurement_spec(s.get(tp, i, j).gate_type) {
            true
        } else {
            measurement_found(s, tp, i, j)
        }
    }
}

/// The layer of the previous measurement of the column of `(t, i, j)`:
/// walk back one round at a time until a measurement gate is found.
#[verifier::opaque]
pub open spec fn prev_meas_layer(s: Simulator, t: int, i: int, j: int) -> int
    decreases t,
{
    if s.measurement_cycles < 1 || t < s.measurement_cycles {
        t
    } else {
        let tp = t - s.measurement_cycles;
        if s.exists_at(tp, i, j) && is_measurement_spec(s.get(tp, i, j).gate_type) {
            tp
        } else {
            prev_meas_layer(s, tp, i, j)
        }
    }
}

/// Whether the measurement at `(t, i, j)` is a defect: its outcome differs
/// from the previous measurement of the same column.
#[verifier::opaque]
pub open spec fn defect_at(s: Simulator, t: int, i: int, j: int) -> bool {
    let pm = prev_meas_layer(s, t, i, j);
    &&& s.exists_at(t, i, j)
    &&& is_measurement_spec(s.get(t, i, j).gate_type)
    &&& measurement_found(s, t, i, j)
    &&& stabilizer_measurement_spec(s.get(t, i, j).gate_type, s.get(t, i, j).propagated)
        != stabilizer_measurement_spec(s.get(pm, i, j).gate_type, s.get(pm, i, j).propagated)
}

/// Whether every measurement cell on a measurement-round layer has a previous
/// measurement to compare against (a code may omit measurements in some
/// rounds, but not all of them).
pub open spec fn syndrome_wf(s: Simulator) -> bool {
    forall|t: int, i: int, j: int|
        s.exists_at(t, i, j) && s.measurement_cycles <= t && t % (s.measurement_cycles as int) == 0
            && is_measurement_spec((#[trigger] s.get(t, i, j)).gate_type) ==> measurement_found(
            s,
            t,
            i,
            j,
        )
}

/// The walk to the previous measurement lands on an existing measurement
/// cell at a strictly earlier layer.
pub proof fn lemma_prev_meas_layer(s: Simulator, t: int, i: int, j: int)
    requires
        measurement_found(s, t, i, j),
    ensures
        0 <= prev_meas_layer(s, t, i, j) < t,
        s.exists_at(prev_meas_layer(s, t, i, j), i, j),
        is_measurement_spec(s.get(prev_meas_layer(s, t, i, j), i, j).gate_type),
    decreases t,
{
    reveal(measurement_found);
    reveal(prev_meas_layer);
    let tp = t - s.measurement_cycles;
    if !(s.exists_at(tp, i, j) && is_measurement_spec(s.get(tp, i, j).gate_type)) {
        lemma_prev_meas_layer(s, tp, i, j);
    }
}

/// One step of the walk to the previous measurement: either the cell one
/// round below is a measurement and the walk stops there, or the walk
/// continues from that layer.
pub proof fn lemma_meas_walk_step(s: Simulator, t: int, i: int, j: int)
    requires
        measurement_found(s, t, i, j),
    ensures
        s.measurement_cycles >= 1,
        t >= s.measurement_cycles,
        ({
            let tp = t - s.measurement_cycles;
            if s.exists_at(tp, i, j) && is_measurement_spec(s.get(tp, i, j).gate_type) {
                prev_meas_layer(s, t, i, j) == tp
            } else {
                measurement_found(s, tp, i, j) && prev_meas_layer(s, t, i, j) == prev_meas_layer(
                    s,
                    tp,
                    i,
                    j,
                )
            }
        }),
{
    reveal(measurement_found);
    reveal(prev_meas_layer);
}

/// The definition of a defect, for pointwise use.
pub proof fn lemma_defect_at_unfold(s: Simulator, t: int, i: int, j: int)
    ensures
        defect_at(s, t, i, j) == ({
            let pm = prev_meas_layer(s, t, i, j);
            &&& s.exists_at(t, i, j)
            &&& is_measurement_spec(s.get(t, i, j).gate_type)
            &&& measurement_found(s, t, i, j)
            &&& stabilizer_measurement_spec(s.get(t, i, j).gate_type, s.get(t, i, j).propagated)
                != stabilizer_measurement_spec(
                s.get(pm, i, j).gate_type,
                s.get(pm, i, j).propagated,
            )
        }),
{
    reveal(defect_at);
}

/// The membership condition of the filtered defect scan: a defect on a
/// measurement-round layer whose virtual flag matches, scanned before the
/// given limit in lexicographic order.
pub open spec fn meas_cond(
    s: Simulator,
    want_virtual: bool,
    p: Position,
    t_limit: int,
    i_limit: int,
    j_limit: int,
) -> bool {
    &&& s.measurement_cycles <= p.t < s.height
    &&& (p.t as int) % (s.measurement_cycles as int) == 0
    &&& defect_at(s, p.t as int, p.i as int, p.j as int)
    &&& s.get(p.t as int, p.i as int, p.j as int).is_virtual == want_virtual
    &&& (p.t < t_limit || (p.t == t_limit && (p.i < i_limit || (p.i == i_limit && p.j < j_limit))))
}

/// Whether `p` comes before the scan limit `(t_limit, i_limit, j_limit)` in
/// lexicographic order.
pub open spec fn scan_before(p: Position, t_limit: int, i_limit: int, j_limit: int) -> bool {
    p.t < t_limit || (p.t == t_limit && (p.i < i_limit || (p.i == i_limit && p.j < j_limit)))
}

/// The membership condition of the error-pattern scan.
pub open spec fn error_cond(s: Simulator, p: Position, tl: int, il: int, jl: int) -> bool {
    &&& s.exists_at(p.t as int, p.i as int, p.j as int)
    &&& s.get(p.t as int, p.i as int, p.j as int).error != ErrorType::I
    &&& scan_before(p, tl, il, jl)
}

/// The membership condition of the erasure scan.
pub open spec fn erasure_cond(s: Simulator, p: Position, tl: int, il: int, jl: int) -> bool {
    &&& s.exists_at(p.t as int, p.i as int, p.j as int)
    &&& !s.get(p.t as int, p.i as int, p.j as int).is_virtual
    &&& s.get(p.t as int, p.i as int, p.j as int).has_erasure
    &&& scan_before(p, tl, il, jl)
}

/// The membership condition of the top-layer correction scan.
pub open spec fn corr_cond(s: Simulator, p: Position, il: int, jl: int) -> bool {
    &&& p.t == s.height - 1
    &&& s.exists_at(p.t as int, p.i as int, p.j as int)
    &&& s.get(p.t as int, p.i as int, p.j as int).qubit_type == QubitType::Data
    &&& s.get(p.t as int, p.i as int, p.j as int).propagated != ErrorType::I
    &&& (p.i < il || (p.i == il && p.j < jl))
}

/// Whether a noise model fits a lattice: same shape, every record within
/// bounds, no noise of any kind on virtual cells, correlated tables only on
/// real cells whose gate peer exists and is real, and extra noise sources
/// only on existing real cells.
pub open spec fn noise_model_ok(s: Simulator, nm: NoiseModel) -> bool {
    &&& nm.wf()
    &&& nm.height == s.height
    &&& nm.vertical == s.vertical
    &&& nm.horizontal == s.horizontal
    &&& forall|t: int, i: int, j: int|
        s.exists_at(t, i, j) && (#[trigger] s.get(t, i, j)).is_virtual ==> nm.rates_at(
            t,
            i,
            j,
        ).is_noiseless()
    &&& forall|t: int, i: int, j: int|
        s.exists_at(t, i, j) && ((#[trigger] nm.rates_at(t, i, j)).correlated_pauli_error_rates
            is Some || nm.rates_at(t, i, j).correlated_erasure_error_rates is Some) ==> {
            &&& !s.get(t, i, j).is_virtual
            &&& s.get(t, i, j).peer() is Some
            &&& {
                let p = s.get(t, i, j).peer()->Some_0;
                s.exists_at(t, p.i as int, p.j as int) && !s.get(t, p.i as int, p.j as int).is_virtual
            }
        }
    &&& forall|k: int|
        0 <= k < nm.additional_noise@.len() ==> {
            let bundle = #[trigger] nm.additional_noise@[k];
            &&& (forall|x: int|
                0 <= x < bundle.pauli_errors@.len() ==> {
                    let q = (#[trigger] bundle.pauli_errors@[x]).0;
                    s.exists_at(q.t as int, q.i as int, q.j as int) && !s.get(
                        q.t as int,
                        q.i as int,
                        q.j as int,
                    ).is_virtual
                })
            &&& (forall|x: int|
                0 <= x < bundle.erasures@.len() ==> {
                    let q = #[trigger] bundle.erasures@[x];
                    s.exists_at(q.t as int, q.i as int, q.j as int) && !s.get(
                        q.t as int,
                        q.i as int,
                        q.j as int,
                    ).is_virtual
                })
        }
}

/// The propagated frame depends only on the lattice and the error fields,
/// not on the stored frames.
pub proof fn lemma_frame_congruence(s1: Simulator, s2: Simulator, t: int, i: int, j: int)
    requires
        s2.same_lattice(&s1),
        s2.height == s1.height,
        forall|a: int, b: int, c: int|
            s1.exists_at(a, b, c) ==> (#[trigger] s2.get(a, b, c)).error == s1.get(a, b, c).error,
    ensures
        propagated_frame(s1, t, i, j) == propagated_frame(s2, t, i, j),
    decreases t,
{
    reveal(propagated_frame);
    if t > 0 {
        let tp = t - 1;
        lemma_frame_congruence(s1, s2, tp, i, j);
        if s1.exists_at(tp, i, j) {
            let n = s1.get(tp, i, j);
            match n.peer() {
                Some(p) => {
                    lemma_frame_congruence(s1, s2, tp, p.i as int, p.j as int);
                },
                None => {},
            }
        }
    }
}

/// Frame congruence at every cell.
pub proof fn lemma_frame_congruence_all(s1: Simulator, s2: Simulator)
    requires
        s2.same_lattice(&s1),
        s2.height == s1.height,
        forall|a: int, b: int, c: int|
            s1.exists_at(a, b, c) ==> (#[trigger] s2.get(a, b, c)).error == s1.get(a, b, c).error,
    ensures
        forall|t: int, i: int, j: int|
            #[trigger] propagated_frame(s1, t, i, j) == propagated_frame(s2, t, i, j),
{
    assert forall|t: int, i: int, j: int| #[trigger] propagated_frame(s1, t, i, j)
        == propagated_frame(s2, t, i, j) by {
        lemma_frame_congruence(s1, s2, t, i, j);
    }
}

/// A single-cell update that keeps the cell's structural fields preserves
/// lattice agreement.
#[verifier::spinoff_prover]
pub proof fn lemma_same_lattice_point_update(
    prev: Simulator,
    cur: Simulator,
    base: Simulator,
    t: int,
    i: int,
    j: int,
    n_new: SimulatorNode,
)
    requires
        prev.dims_ok(),
        cur.dims_ok(),
        cur.height == prev.height,
        cur.vertical == prev.vertical,
        cur.horizontal == prev.horizontal,
        cur.code_type == prev.code_type,
        cur.measurement_cycles == prev.measurement_cycles,
        prev.same_lattice(&base),
        prev.exists_at(t, i, j),
        forall|a: int, b: int, c: int|
            prev.in_bounds(a, b, c) ==> #[trigger] cur.node_at(a, b, c) == (if a == t && b == i
                && c == j {
                Some(n_new)
            } else {
                prev.node_at(a, b, c)
            }),
        n_new.qubit_type == prev.get(t, i, j).qubit_type,
        n_new.gate_type == prev.get(t, i, j).gate_type,
        n_new.peer() == prev.get(t, i, j).peer(),
        n_new.is_virtual == prev.get(t, i, j).is_virtual,
        n_new.is_peer_virtual == prev.get(t, i, j).is_peer_virtual,
    ensures
        cur.same_lattice(&base),
        forall|a: int, b: int, c: int|
            cur.in_bounds(a, b, c) ==> #[trigger] cur.exists_at(a, b, c) == prev.exists_at(a, b, c),
{
    assert forall|a: int, b: int, c: int| cur.in_bounds(a, b, c) implies #[trigger] cur.exists_at(
        a,
        b,
        c,
    ) == prev.exists_at(a, b, c) by {
        assert(cur.node_at(a, b, c) == (if a == t && b == i && c == j {
            Some(n_new)
        } else {
            prev.node_at(a, b, c)
        }));
    }
    assert forall|a: int, b: int, c: int| cur.in_bounds(a, b, c) implies #[trigger] base.exists_at(
        a,
        b,
        c,
    ) == cur.exists_at(a, b, c) by {
        assert(base.exists_at(a, b, c) == prev.exists_at(a, b, c));
    }
    assert forall|a: int, b: int, c: int| cur.exists_at(a, b, c) implies {
        let x = cur.get(a, b, c);
        let y = #[trigger] base.get(a, b, c);
        y.qubit_type == x.qubit_type && y.gate_type == x.gate_type && y.peer() == x.peer()
            && y.is_virtual == x.is_virtual && y.is_peer_virtual == x.is_peer_virtual
    } by {
        assert(cur.node_at(a, b, c) == (if a == t && b == i && c == j {
            Some(n_new)
        } else {
            prev.node_at(a, b, c)
        }));
        assert(prev.exists_at(a, b, c));
        let x0 = prev.get(a, b, c);
        let y = base.get(a, b, c);
        assert(y.qubit_type == x0.qubit_type && y.gate_type == x0.gate_type && y.peer()
            == x0.peer() && y.is_virtual == x0.is_virtual && y.is_peer_virtual
            == x0.is_peer_virtual);
    }
}

/// Lattice agreement is transitive.
pub proof fn lemma_same_lattice_transitive(a: Simulator, b: Simulator, c: Simulator)
    requires
        b.same_lattice(&a),
        c.same_lattice(&b),
        b.height == a.height,
        c.height == b.height,
    ensures
        c.same_lattice(&a),
{
    assert forall|t: int, i: int, j: int| c.in_bounds(t, i, j) implies #[trigger] a.exists_at(
        t,
        i,
        j,
    ) == c.exists_at(t, i, j) by {
        assert(b.exists_at(t, i, j) == c.exists_at(t, i, j));
        assert(a.exists_at(t, i, j) == b.exists_at(t, i, j));
    }
    assert forall|t: int, i: int, j: int| c.exists_at(t, i, j) implies {
        let x = c.get(t, i, j);
        let y = #[trigger] a.get(t, i, j);
        y.qubit_type == x.qubit_type && y.gate_type == x.gate_type && y.peer() == x.peer()
            && y.is_virtual == x.is_virtual && y.is_peer_virtual == x.is_peer_virtual
    } by {
        assert(b.exists_at(t, i, j));
        let m = b.get(t, i, j);
        let x = c.get(t, i, j);
        assert(m.qubit_type == x.qubit_type && m.gate_type == x.gate_type && m.peer() == x.peer()
            && m.is_virtual == x.is_virtual && m.is_peer_virtual == x.is_peer_virtual);
        let y = a.get(t, i, j);
        assert(y.qubit_type == m.qubit_type && y.gate_type == m.gate_type && y.peer() == m.peer()
            && y.is_virtual == m.is_virtual && y.is_peer_virtual == m.is_peer_virtual);
    }
}

/// Push a pending Pauli fault, keeping every queued target an existing real
/// cell.
fn push_pending_pauli(
    pending: &mut Vec<(Position, ErrorType)>,
    entry: (Position, ErrorType),
    Ghost(base): Ghost<Simulator>,
    Ghost(nm): Ghost<NoiseModel>,
)
    requires
        base.exists_at(entry.0.t as int, entry.0.i as int, entry.0.j as int),
        !base.get(entry.0.t as int, entry.0.i as int, entry.0.j as int).is_virtual,
        fault_attributable(base, nm, entry.0),
        forall|k: int|
            0 <= k < old(pending)@.len() ==> {
                let q = (#[trigger] old(pending)@[k]).0;
                base.exists_at(q.t as int, q.i as int, q.j as int) && !base.get(
                    q.t as int,
                    q.i as int,
                    q.j as int,
                ).is_virtual && fault_attributable(base, nm, q)
            },
    ensures
        final(pending)@ == old(pending)@.push(entry),
        forall|k: int|
            0 <= k < final(pending)@.len() ==> {
                let q = (#[trigger] final(pending)@[k]).0;
                base.exists_at(q.t as int, q.i as int, q.j as int) && !base.get(
                    q.t as int,
                    q.i as int,
                    q.j as int,
                ).is_virtual && fault_attributable(base, nm, q)
            },
{
    pending.push(entry);
    proof {
        assert forall|k: int| 0 <= k < pending@.len() implies {
            let q = (#[trigger] pending@[k]).0;
            base.exists_at(q.t as int, q.i as int, q.j as int) && !base.get(
                q.t as int,
                q.i as int,
                q.j as int,
            ).is_virtual && fault_attributable(base, nm, q)
        } by {
            if k < old(pending)@.len() {
                assert(pending@[k] == old(pending)@[k]);
            } else {
                assert(pending@[k] == entry);
            }
        }
    }
}

/// Push a pending erasure, keeping every queued target an existing real
/// cell.
fn push_pending_erasure(
    pending: &mut Vec<Position>,
    entry: Position,
    Ghost(base): Ghost<Simulator>,
    Ghost(nm): Ghost<NoiseModel>,
)
    requires
        base.exists_at(entry.t as int, entry.i as int, entry.j as int),
        !base.get(entry.t as int, entry.i as int, entry.j as int).is_virtual,
        erasure_attributable(base, nm, entry),
        forall|k: int|
            0 <= k < old(pending)@.len() ==> {
                let q = #[trigger] old(pending)@[k];
                base.exists_at(q.t as int, q.i as int, q.j as int) && !base.get(
                    q.t as int,
                    q.i as int,
                    q.j as int,
                ).is_virtual && erasure_attributable(base, nm, q)
            },
    ensures
        final(pending)@ == old(pending)@.push(entry),
        forall|k: int|
            0 <= k < final(pending)@.len() ==> {
                let q = #[trigger] final(pending)@[k];
                base.exists_at(q.t as int, q.i as int, q.j as int) && !base.get(
                    q.t as int,
                    q.i as int,
                    q.j as int,
                ).is_virtual && erasure_attributable(base, nm, q)
            },
{
    pending.push(entry);
    proof {
        assert forall|k: int| 0 <= k < pending@.len() implies {
            let q = #[trigger] pending@[k];
            base.exists_at(q.t as int, q.i as int, q.j as int) && !base.get(
                q.t as int,
                q.i as int,
                q.j as int,
            ).is_virtual && erasure_attributable(base, nm, q)
        } by {
            if k < old(pending)@.len() {
                assert(pending@[k] == old(pending)@[k]);
            } else {
                assert(pending@[k] == entry);
            }
        }
    }
}

/// Whether a walk back to a previous measurement succeeds depends only on
/// the lattice, not on the per-trial state.
pub proof fn lemma_measurement_found_congruence(s1: Simulator, s2: Simulator, t: int, i: int, j: int)
    requires
        s2.same_lattice(&s1),
        s2.height == s1.height,
        s2.measurement_cycles == s1.measurement_cycles,
        measurement_found(s1, t, i, j),
    ensures
        measurement_found(s2, t, i, j),
    decreases t,
{
    reveal(measurement_found);
    let tp = t - s1.measurement_cycles;
    if s1.exists_at(tp, i, j) && is_measurement_spec(s1.get(tp, i, j).gate_type) {
        assert(s2.exists_at(tp, i, j));
        assert(s2.get(tp, i, j).gate_type == s1.get(tp, i, j).gate_type);
    } else {
        lemma_measurement_found_congruence(s1, s2, tp, i, j);
        if s1.exists_at(tp, i, j) {
            assert(s2.get(tp, i, j).gate_type == s1.get(tp, i, j).gate_type);
        } else {
            assert(!s2.exists_at(tp, i, j));
        }
    }
}

/// Virtual isolation: a frame never propagates from a virtual cell to a
/// real peer. When the source cell below a target is real but its gate peer
/// is virtual, the target's frame carries no peer contribution at all.
pub proof fn lemma_virtual_isolation(s: Simulator, t: int, i: int, j: int)
    requires
        s.lattice_wf(),
        t >= 1,
        s.exists_at(t - 1, i, j),
        s.get(t - 1, i, j).peer() is Some,
        ({
            let p = s.get(t - 1, i, j).peer()->Some_0;
            s.get(t - 1, p.i as int, p.j as int).is_virtual
        }),
        !s.get(t - 1, i, j).is_virtual,
    ensures
        propagated_frame(s, t, i, j) == (if is_initialization_spec(s.get(t - 1, i, j).gate_type) {
            ErrorType::I
        } else {
            pauli_mul(s.get(t - 1, i, j).error, propagated_frame(s, t - 1, i, j))
        }),
{
    reveal(propagated_frame);
    let p = s.get(t - 1, i, j).peer()->Some_0;
    lemma_wf_cell(s, t - 1, i, j);
    let q = s.get(t - 1, p.i as int, p.j as int);
    lemma_wf_cell(s, t - 1, p.i as int, p.j as int);
    assert(q.peer() == Some(Position { t: (t - 1) as usize, i: i as usize, j: j as usize }));
    assert(q.is_peer_virtual == s.get(t - 1, i, j).is_virtual);
    assert(q.is_virtual && !q.is_peer_virtual);
    crate::pauli::lemma_pauli_mul_identity(
        if is_initialization_spec(s.get(t - 1, i, j).gate_type) {
            ErrorType::I
        } else {
            pauli_mul(s.get(t - 1, i, j).error, propagated_frame(s, t - 1, i, j))
        },
    );
}

/// Idempotent clear: from a fully clean state, a propagation sweep computes
/// the identity frame at every cell, so clearing and re-propagating leaves
/// every cell clean.
pub proof fn lemma_idempotent_clear(s: Simulator)
    requires
        s.all_clean(),
    ensures
        forall|t: int, i: int, j: int| #[trigger] propagated_frame(s, t, i, j) == ErrorType::I,
{
    assert forall|t: int, i: int, j: int| #[trigger] propagated_frame(s, t, i, j)
        == ErrorType::I by {
        lemma_frame_identity_when_clean(s, t, i, j);
    }
}

/// Two strictly ascending position sequences with the same members have the
/// same length (indeed they are equal): the counts reported for a trial are
/// therefore those of any extraction of the same state.
pub proof fn lemma_sorted_positions_unique(s1: Seq<Position>, s2: Seq<Position>)
    requires
        positions_sorted(s1),
        positions_sorted(s2),
        forall|p: Position| s1.contains(p) == s2.contains(p),
    ensures
        s1 =~= s2,
    decreases s1.len(),
{
    if s1.len() == 0 {
        if s2.len() > 0 {
            assert(s2.contains(s2[0]));
        }
        assert(s1 =~= s2);
    } else {
        assert(s1.contains(s1[0]));
        assert(s2.contains(s1[0]));
        if s2.len() == 0 {
            assert(false);
        }
        let k = choose|k: int| 0 <= k < s2.len() && s2[k] == s1[0];
        let m = choose|m: int| 0 <= m < s1.len() && s1[m] == s2[0];
        assert(s2.contains(s2[0]));
        assert(s1.contains(s2[0]));
        if s1[0] != s2[0] {
            assert(k > 0 || m > 0);
            if k > 0 {
                assert(pos_lt(s2[0], s2[k]));
                assert(m > 0);
                assert(pos_lt(s1[0], s1[m]));
                assert(false);
            } else {
                assert(s2[0] == s1[0]);
            }
        }
        let t1 = s1.drop_first();
        let t2 = s2.drop_first();
        assert forall|p: Position| t1.contains(p) == t2.contains(p) by {
            if t1.contains(p) {
                let x = choose|x: int| 0 <= x < t1.len() && t1[x] == p;
                assert(s1[x + 1] == p);
                assert(pos_lt(s1[0], p));
                assert(s2.contains(p));
                let y = choose|y: int| 0 <= y < s2.len() && s2[y] == p;
                assert(y != 0);
                assert(t2[y - 1] == p);
            }
            if t2.contains(p) {
                let x = choose|x: int| 0 <= x < t2.len() && t2[x] == p;
                assert(s2[x + 1] == p);
                assert(pos_lt(s2[0], p));
                assert(s1.contains(p));
                let y = choose|y: int| 0 <= y < s1.len() && s1[y] == p;
                assert(y != 0);
                assert(t1[y - 1] == p);
            }
        }
        lemma_sorted_positions_unique(t1, t2);
        assert forall|x: int| 0 <= x < s1.len() implies s1[x] == s2[x] by {
            if x > 0 {
                assert(t1[x - 1] == t2[x - 1]);
            }
        }
        assert(s1 =~= s2);
    }
}

/// Two sorted key-value sequences with the same keys and values are equal:
/// an error pattern extracted from a state is unique.
pub proof fn lemma_sorted_entries_unique(
    s1: Seq<(Position, ErrorType)>,
    s2: Seq<(Position, ErrorType)>,
)
    requires
        entries_sorted(s1),
        entries_sorted(s2),
        forall|p: Position| has_key(s1, p) == has_key(s2, p),
        forall|p: Position| has_key(s1, p) ==> value_of_key(s1, p) == value_of_key(s2, p),
    ensures
        s1 =~= s2,
    decreases s1.len(),
{
    if s1.len() == 0 {
        if s2.len() == 0 {
            assert(s1 =~= s2);
        }
        if s2.len() > 0 {
            assert(has_key(s2, s2[0].0)) by {
                assert(0 <= 0 < s2.len() && s2[0].0 == s2[0].0);
            }
            assert(has_key(s1, s2[0].0));
            assert(false);
        }
    } else {
        assert(has_key(s1, s1[0].0)) by {
            assert(0 <= 0 < s1.len() && s1[0].0 == s1[0].0);
        }
        assert(has_key(s2, s1[0].0));
        if s2.len() == 0 {
            assert(false);
        }
        assert(has_key(s2, s2[0].0)) by {
            assert(0 <= 0 < s2.len() && s2[0].0 == s2[0].0);
        }
        assert(has_key(s1, s2[0].0));
        let k = choose|k: int| 0 <= k < s2.len() && s2[k].0 == s1[0].0;
        let m = choose|m: int| 0 <= m < s1.len() && s1[m].0 == s2[0].0;
        if s1[0].0 != s2[0].0 {
            if k > 0 {
                assert(pos_lt(s2[0].0, s2[k].0));
                assert(m > 0);
                assert(pos_lt(s1[0].0, s1[m].0));
                assert(false);
            } else {
                assert(false);
            }
        }
        let t1 = s1.drop_first();
        let t2 = s2.drop_first();
        assert forall|p: Position| has_key(t1, p) == has_key(t2, p) by {
            if has_key(t1, p) {
                let x = choose|x: int| 0 <= x < t1.len() && t1[x].0 == p;
                assert(s1[x + 1].0 == p);
                assert(pos_lt(s1[0].0, p));
                assert(has_key(s1, p)) by {
                    assert(0 <= x + 1 < s1.len() && s1[x + 1].0 == p);
                }
                assert(has_key(s2, p));
                let y = choose|y: int| 0 <= y < s2.len() && s2[y].0 == p;
                assert(y != 0);
                assert(t2[y - 1].0 == p);
                assert(has_key(t2, p)) by {
                    assert(0 <= y - 1 < t2.len() && t2[y - 1].0 == p);
                }
            }
            if has_key(t2, p) {
                let x = choose|x: int| 0 <= x < t2.len() && t2[x].0 == p;
                assert(s2[x + 1].0 == p);
                assert(pos_lt(s2[0].0, p));
                assert(has_key(s2, p)) by {
                    assert(0 <= x + 1 < s2.len() && s2[x + 1].0 == p);
                }
                assert(has_key(s1, p));
                let y = choose|y: int| 0 <= y < s1.len() && s1[y].0 == p;
                assert(y != 0);
                assert(t1[y - 1].0 == p);
                assert(has_key(t1, p)) by {
                    assert(0 <= y - 1 < t1.len() && t1[y - 1].0 == p);
                }
            }
        }
        assert forall|p: Position| has_key(t1, p) implies value_of_key(t1, p) == value_of_key(
            t2,
            p,
        ) by {
            let x = choose|x: int| 0 <= x < t1.len() && t1[x].0 == p;
            assert(s1[x + 1].0 == p);
            crate::sparse::lemma_entries_key_at(s1, x + 1);
            crate::sparse::lemma_entries_key_at(t1, x);
            assert(has_key(t2, p));
            let y = choose|y: int| 0 <= y < t2.len() && t2[y].0 == p;
            assert(s2[y + 1].0 == p);
            crate::sparse::lemma_entries_key_at(s2, y + 1);
            crate::sparse::lemma_entries_key_at(t2, y);
            assert(has_key(s1, p)) by {
                assert(0 <= x + 1 < s1.len() && s1[x + 1].0 == p);
            }
        }
        lemma_sorted_entries_unique(t1, t2);
        assert(s1[0].0 == s2[0].0);
        lemma_entries_key_at(s1, 0);
        lemma_entries_key_at(s2, 0);
        assert(s1[0].1 == value_of_key(s1, s1[0].0));
        assert(s2[0].1 == value_of_key(s2, s1[0].0));
        assert(s1[0] == s2[0]);
        assert forall|x: int| 0 <= x < s1.len() implies s1[x] == s2[x] by {
            if x > 0 {
                assert(t1[x - 1] == t2[x - 1]);
            }
        }
        assert(s1 =~= s2);
    }
}

/// Whether the noise model gives cell `position` any way to acquire the
/// non-trivial fault `error`.
pub open spec fn error_possible_spec(
    s: Simulator,
    nm: NoiseModel,
    position: Position,
    error: ErrorType,
) -> bool {
    let rates = nm.rates_at(position.t as int, position.i as int, position.j as int);
    let marginal = match error {
        ErrorType::X => rates.pauli_error_rates.error_rate_X > 0,
        ErrorType::Y => rates.pauli_error_rates.error_rate_Y > 0,
        ErrorType::Z => rates.pauli_error_rates.error_rate_Z > 0,
        ErrorType::I => false,
    };
    marginal || rates.erasure_error_rate > 0 || rates.correlated_pauli_error_rates is Some
        || rates.correlated_erasure_error_rates is Some || peer_correlated_spec(s, nm, position)
}

/// Whether the noise model gives cell `position` any way to be erased.
pub open spec fn erasure_possible_spec(s: Simulator, nm: NoiseModel, position: Position) -> bool {
    let rates = nm.rates_at(position.t as int, position.i as int, position.j as int);
    rates.erasure_error_rate > 0 || rates.correlated_erasure_error_rates is Some
        || peer_erasure_correlated_spec(s, nm, position)
}

/// Whether the coupled peer of `position` carries a correlated table of any
/// kind, within bounds.
pub open spec fn peer_correlated_spec(s: Simulator, nm: NoiseModel, position: Position) -> bool {
    match s.get(position.t as int, position.i as int, position.j as int).peer() {
        Some(p) => 0 <= p.t < s.height && 0 <= p.i < s.vertical && 0 <= p.j < s.horizontal && (
        nm.rates_at(p.t as int, p.i as int, p.j as int).correlated_pauli_error_rates is Some
            || nm.rates_at(p.t as int, p.i as int, p.j as int).correlated_erasure_error_rates
            is Some),
        None => false,
    }
}

/// Whether the coupled peer of `position` carries a correlated erasure
/// table, within bounds.
pub open spec fn peer_erasure_correlated_spec(
    s: Simulator,
    nm: NoiseModel,
    position: Position,
) -> bool {
    match s.get(position.t as int, position.i as int, position.j as int).peer() {
        Some(p) => 0 <= p.t < s.height && 0 <= p.i < s.vertical && 0 <= p.j < s.horizontal
            && nm.rates_at(p.t as int, p.i as int, p.j as int).correlated_erasure_error_rates
            is Some,
        None => false,
    }
}

/// Under an admissible noise model, a cell where a fault is possible is
/// never virtual.
proof fn lemma_error_possible_not_virtual(
    s: Simulator,
    nm: NoiseModel,
    position: Position,
    error: ErrorType,
)
    requires
        s.lattice_wf(),
        noise_model_ok(s, nm),
        s.exists_at(position.t as int, position.i as int, position.j as int),
        error_possible_spec(s, nm, position, error),
    ensures
        !s.get(position.t as int, position.i as int, position.j as int).is_virtual,
{
    lemma_wf_dims(s);
    let t = position.t as int;
    let i = position.i as int;
    let j = position.j as int;
    if s.get(t, i, j).is_virtual {
        assert(nm.rates_at(t, i, j).is_noiseless());
        assert(peer_correlated_spec(s, nm, position));
        let p = s.get(t, i, j).peer()->Some_0;
        lemma_wf_cell(s, t, i, j);
        assert(s.exists_at(t, p.i as int, p.j as int));
        assert(nm.rates_at(p.t as int, p.i as int, p.j as int).correlated_pauli_error_rates
            is Some || nm.rates_at(
            p.t as int,
            p.i as int,
            p.j as int,
        ).correlated_erasure_error_rates is Some);
        assert(s.get(t, p.i as int, p.j as int).peer() == Some(position));
        assert(!s.get(
            p.t as int,
            p.i as int,
            p.j as int,
        ).is_virtual ==> false) by {
            if !s.get(p.t as int, p.i as int, p.j as int).is_virtual {
                let pp = s.get(p.t as int, p.i as int, p.j as int).peer()->Some_0;
                assert(pp == position);
                assert(s.exists_at(p.t as int, pp.i as int, pp.j as int) && !s.get(
                    p.t as int,
                    pp.i as int,
                    pp.j as int,
                ).is_virtual);
            }
        }
        assert(s.get(p.t as int, p.i as int, p.j as int).is_virtual);
        assert(nm.rates_at(p.t as int, p.i as int, p.j as int).is_noiseless());
        assert(false);
    }
}

/// Below one round there is nothing to walk back to.
pub proof fn lemma_found_below(s: Simulator, t: int, i: int, j: int)
    requires
        t < s.measurement_cycles || s.measurement_cycles < 1,
    ensures
        !measurement_found(s, t, i, j),
{
    reveal(measurement_found);
}

/// One unfolding of the walk for deciding it: when the cell one round below
/// is not a measurement, the walk from `t` succeeds exactly when the walk
/// from one round below does.
pub proof fn lemma_found_unfold(s: Simulator, t: int, i: int, j: int)
    requires
        s.measurement_cycles >= 1,
        t >= s.measurement_cycles,
    ensures
        (s.exists_at(t - s.measurement_cycles, i, j) && is_measurement_spec(
            s.get(t - s.measurement_cycles, i, j).gate_type,
        )) ==> measurement_found(s, t, i, j),
        !(s.exists_at(t - s.measurement_cycles, i, j) && is_measurement_spec(
            s.get(t - s.measurement_cycles, i, j).gate_type,
        )) ==> measurement_found(s, t, i, j) == measurement_found(
            s,
            t - s.measurement_cycles,
            i,
            j,
        ),
{
    reveal(measurement_found);
}

/// Whether no data qubit carries an initialization or measurement.
pub open spec fn data_gates_ok(s: Simulator) -> bool {
    forall|t: int, i: int, j: int|
        s.exists_at(t, i, j) && (#[trigger] s.get(t, i, j)).qubit_type == QubitType::Data
            ==> !is_initialization_spec(s.get(t, i, j).gate_type) && !is_measurement_spec(
            s.get(t, i, j).gate_type,
        )
}

/// The latest initialization kind in the column of `(i, j)` at a layer of
/// `1..=t`; `Idle` when there is none.
pub open spec fn last_init_upto(s: Simulator, t: int, i: int, j: int) -> GateType
    decreases t,
{
    if t < 1 {
        GateType::Idle
    } else if s.exists_at(t, i, j) && is_initialization_spec(s.get(t, i, j).gate_type) {
        s.get(t, i, j).gate_type
    } else {
        last_init_upto(s, t - 1, i, j)
    }
}

/// Whether a measurement kind matches an initialization kind's basis.
pub open spec fn basis_matches(m: GateType, init: GateType) -> bool {
    (m == GateType::MeasureX && init == GateType::InitializeX) || (m == GateType::MeasureZ && init
        == GateType::InitializeZ)
}

/// Whether every measurement above the first layer is preceded in its
/// column by an initialization of the same basis.
pub open spec fn basis_ok(s: Simulator) -> bool {
    forall|t: int, i: int, j: int|
        1 <= t && s.exists_at(t, i, j) && is_measurement_spec(
            (#[trigger] s.get(t, i, j)).gate_type,
        ) ==> basis_matches(s.get(t, i, j).gate_type, last_init_upto(s, t - 1, i, j))
}

/// Whether a walk back to a previous measurement succeeds depends only on
/// existence and gate kinds, not on the virtual flags or per-trial state.
pub proof fn lemma_found_gate_congruence(s1: Simulator, s2: Simulator, t: int, i: int, j: int)
    requires
        s2.height == s1.height,
        s2.vertical == s1.vertical,
        s2.horizontal == s1.horizontal,
        s2.measurement_cycles == s1.measurement_cycles,
        forall|a: int, b: int, c: int|
            s1.in_bounds(a, b, c) ==> #[trigger] s2.exists_at(a, b, c) == s1.exists_at(a, b, c),
        forall|a: int, b: int, c: int|
            s1.exists_at(a, b, c) ==> (#[trigger] s2.get(a, b, c)).gate_type == s1.get(
                a,
                b,
                c,
            ).gate_type,
        measurement_found(s1, t, i, j),
        0 <= i < s1.vertical,
        0 <= j < s1.horizontal,
        t < s1.height,
    ensures
        measurement_found(s2, t, i, j),
    decreases t,
{
    reveal(measurement_found);
    let tp = t - s1.measurement_cycles;
    if s1.exists_at(tp, i, j) && is_measurement_spec(s1.get(tp, i, j).gate_type) {
        assert(s2.exists_at(tp, i, j));
        assert(s2.get(tp, i, j).gate_type == s1.get(tp, i, j).gate_type);
    } else {
        lemma_found_gate_congruence(s1, s2, tp, i, j);
        if s1.exists_at(tp, i, j) {
            assert(s2.get(tp, i, j).gate_type == s1.get(tp, i, j).gate_type);
        } else {
            assert(!s2.exists_at(tp, i, j));
        }
    }
}

/// The latest initialization of a column depends only on existence and gate
/// kinds.
pub proof fn lemma_last_init_congruence(s1: Simulator, s2: Simulator, t: int, i: int, j: int)
    requires
        s2.height == s1.height,
        s2.vertical == s1.vertical,
        s2.horizontal == s1.horizontal,
        forall|a: int, b: int, c: int|
            s1.in_bounds(a, b, c) ==> #[trigger] s2.exists_at(a, b, c) == s1.exists_at(a, b, c),
        forall|a: int, b: int, c: int|
            s1.exists_at(a, b, c) ==> (#[trigger] s2.get(a, b, c)).gate_type == s1.get(
                a,
                b,
                c,
            ).gate_type,
        0 <= i < s1.vertical,
        0 <= j < s1.horizontal,
        t < s1.height,
    ensures
        last_init_upto(s2, t, i, j) == last_init_upto(s1, t, i, j),
    decreases t,
{
    if t >= 1 {
        if 0 <= t < s1.height {
            assert(s2.exists_at(t, i, j) == s1.exists_at(t, i, j));
            if s1.exists_at(t, i, j) {
                assert(s2.get(t, i, j).gate_type == s1.get(t, i, j).gate_type);
            }
        }
        lemma_last_init_congruence(s1, s2, t - 1, i, j);
    }
}

/// The number of existing cells of row `(t, i)` at columns below `jl`.
pub open spec fn row_node_count(s: Simulator, t: int, i: int, jl: int) -> nat
    decreases jl,
{
    if jl <= 0 {
        0
    } else {
        row_node_count(s, t, i, jl - 1) + (if s.exists_at(t, i, jl - 1) {
            1nat
        } else {
            0nat
        })
    }
}

/// The number of existing cells of layer `t` at rows below `il`.
pub open spec fn layer_node_count(s: Simulator, t: int, il: int) -> nat
    decreases il,
{
    if il <= 0 {
        0
    } else {
        layer_node_count(s, t, il - 1) + row_node_count(s, t, il - 1, s.horizontal as int)
    }
}

/// The number of existing cells at layers below `tl`.
pub open spec fn node_count_upto(s: Simulator, tl: int) -> nat
    decreases tl,
{
    if tl <= 0 {
        0
    } else {
        node_count_upto(s, tl - 1) + layer_node_count(s, tl - 1, s.vertical as int)
    }
}

/// The number of existing cells of the lattice.
pub open spec fn node_count(s: Simulator) -> nat {
    node_count_upto(s, s.height as int)
}

/// Whether some all-or-nothing extra noise source lists a Pauli override at
/// `p`.
pub open spec fn bundle_lists_fault(nm: NoiseModel, p: Position) -> bool {
    exists|k: int, x: int|
        0 <= k < nm.additional_noise@.len() && 0 <= x
            < nm.additional_noise@[k].pauli_errors@.len() && (#[trigger] nm.additional_noise@[k].pauli_errors@[x]).0
            == p
}

/// Whether some all-or-nothing extra noise source lists an erasure at `p`.
pub open spec fn bundle_lists_erasure(nm: NoiseModel, p: Position) -> bool {
    exists|k: int, x: int|
        0 <= k < nm.additional_noise@.len() && 0 <= x < nm.additional_noise@[k].erasures@.len()
            && #[trigger] nm.additional_noise@[k].erasures@[x] == p
}

/// Whether the noise model gives cell `p` any way at all to end a trial with
/// a fault: a positive marginal or erasure rate, a correlated table on the
/// cell or its coupled peer, or an extra noise source listing it.
pub open spec fn fault_attributable(s: Simulator, nm: NoiseModel, p: Position) -> bool {
    let rates = nm.rates_at(p.t as int, p.i as int, p.j as int);
    ||| rates.pauli_error_rates.error_rate_X > 0
    ||| rates.pauli_error_rates.error_rate_Y > 0
    ||| rates.pauli_error_rates.error_rate_Z > 0
    ||| rates.erasure_error_rate > 0
    ||| rates.correlated_pauli_error_rates is Some
    ||| rates.correlated_erasure_error_rates is Some
    ||| peer_correlated_spec(s, nm, p)
    ||| bundle_lists_fault(nm, p)
    ||| bundle_lists_erasure(nm, p)
}

/// Whether the noise model gives cell `p` any way at all to end a trial
/// erased.
pub open spec fn erasure_attributable(s: Simulator, nm: NoiseModel, p: Position) -> bool {
    erasure_possible_spec(s, nm, p) || bundle_lists_erasure(nm, p)
}

/// One more draw advances the iterated state by one.
pub proof fn lemma_rng_one_more(start: (u64, u64), k: nat, pre: (u64, u64), post: (u64, u64))
    requires
        pre == crate::rng::rng_skip(start, k),
        post == crate::rng::xoroshiro_next_state(pre.0, pre.1),
    ensures
        post == crate::rng::rng_skip(start, k + 1),
{
}

/// Virtual noninterference: two states with the same lattice that agree on
/// every real cell's fault — and may differ arbitrarily in the faults
/// recorded on virtual cells — propagate identical frames along every
/// column that is real. An error placed solely on a virtual cell never
/// influences any real cell.
pub proof fn lemma_virtual_noninterference(s1: Simulator, s2: Simulator, t: int, i: int, j: int)
    requires
        s1.lattice_wf(),
        s2.same_lattice(&s1),
        s2.height == s1.height,
        forall|a: int, b: int, c: int|
            s1.exists_at(a, b, c) ==> (#[trigger] s1.get(a, b, c)).is_virtual == s1.get(
                0,
                b,
                c,
            ).is_virtual,
        forall|a: int, b: int, c: int|
            s1.exists_at(a, b, c) && !(#[trigger] s1.get(a, b, c)).is_virtual ==> s2.get(
                a,
                b,
                c,
            ).error == s1.get(a, b, c).error,
        s1.in_bounds(0, i, j),
        s1.exists_at(0, i, j) ==> !s1.get(0, i, j).is_virtual,
    ensures
        propagated_frame(s1, t, i, j) == propagated_frame(s2, t, i, j),
    decreases t,
{
    reveal(propagated_frame);
    lemma_wf_dims(s1);
    if t > 0 {
        let tp = t - 1;
        if 0 <= tp < s1.height {
            lemma_wf_column(s1, tp, i, j);
        }
        if s1.exists_at(tp, i, j) {
            assert(s1.exists_at(0, i, j));
            let n1 = s1.get(tp, i, j);
            let n2 = s2.get(tp, i, j);
            assert(n1.is_virtual == s1.get(0, i, j).is_virtual);
            assert(!n1.is_virtual);
            assert(n2.error == n1.error);
            assert(n2.gate_type == n1.gate_type && n2.peer() == n1.peer());
            lemma_virtual_noninterference(s1, s2, tp, i, j);
            lemma_wf_cell(s1, tp, i, j);
            match n1.peer() {
                Some(p) => {
                    assert(s1.exists_at(tp, p.i as int, p.j as int));
                    let q1 = s1.get(tp, p.i as int, p.j as int);
                    let q2 = s2.get(tp, p.i as int, p.j as int);
                    assert(q2.gate_type == q1.gate_type && q2.is_virtual == q1.is_virtual
                        && q2.is_peer_virtual == q1.is_peer_virtual);
                    lemma_wf_cell(s1, tp, p.i as int, p.j as int);
                    assert(q1.peer() == Some(
                        Position { t: tp as usize, i: i as usize, j: j as usize },
                    ));
                    assert(q1.is_peer_virtual == n1.is_virtual);
                    if !q1.is_virtual {
                        assert(s1.in_bounds(0, p.i as int, p.j as int));
                        lemma_wf_column(s1, tp, p.i as int, p.j as int);
                        assert(s1.exists_at(0, p.i as int, p.j as int));
                        assert(q1.is_virtual == s1.get(0, p.i as int, p.j as int).is_virtual);
                        lemma_virtual_noninterference(s1, s2, tp, p.i as int, p.j as int);
                    } else {
                        assert(q1.is_virtual && !q1.is_peer_virtual);
                    }
                },
                None => {},
            }
        } else {
            assert(!s2.exists_at(tp, i, j));
        }
    }
}

/// Propagation equivalence: for one propagated state, the real and virtual
/// defect sets and the top-layer correction are each determined by the
/// state, so any two extractions — the direct sweep's and the
/// few-error path's — are identical.
pub proof fn lemma_propagation_equivalence(
    work: Simulator,
    real_a: Seq<Position>,
    real_b: Seq<Position>,
    virt_a: Seq<Position>,
    virt_b: Seq<Position>,
    corr_a: Seq<(Position, ErrorType)>,
    corr_b: Seq<(Position, ErrorType)>,
)
    requires
        positions_sorted(real_a),
        positions_sorted(real_b),
        positions_sorted(virt_a),
        positions_sorted(virt_b),
        entries_sorted(corr_a),
        entries_sorted(corr_b),
        forall|p: Position|
            #[trigger] real_a.contains(p) <==> (work.measurement_cycles <= p.t < work.height && (
            p.t as int) % (work.measurement_cycles as int) == 0 && defect_at(
                work,
                p.t as int,
                p.i as int,
                p.j as int,
            ) && !work.get(p.t as int, p.i as int, p.j as int).is_virtual),
        forall|p: Position|
            #[trigger] real_b.contains(p) <==> (work.measurement_cycles <= p.t < work.height && (
            p.t as int) % (work.measurement_cycles as int) == 0 && defect_at(
                work,
                p.t as int,
                p.i as int,
                p.j as int,
            ) && !work.get(p.t as int, p.i as int, p.j as int).is_virtual),
        forall|p: Position|
            #[trigger] virt_a.contains(p) <==> (work.measurement_cycles <= p.t < work.height && (
            p.t as int) % (work.measurement_cycles as int) == 0 && defect_at(
                work,
                p.t as int,
                p.i as int,
                p.j as int,
            ) && work.get(p.t as int, p.i as int, p.j as int).is_virtual),
        forall|p: Position|
            #[trigger] virt_b.contains(p) <==> (work.measurement_cycles <= p.t < work.height && (
            p.t as int) % (work.measurement_cycles as int) == 0 && defect_at(
                work,
                p.t as int,
                p.i as int,
                p.j as int,
            ) && work.get(p.t as int, p.i as int, p.j as int).is_virtual),
        forall|p: Position|
            #[trigger] has_key(corr_a, p) <==> (p.t == work.height - 1 && work.exists_at(
                p.t as int,
                p.i as int,
                p.j as int,
            ) && work.get(p.t as int, p.i as int, p.j as int).qubit_type == QubitType::Data
                && work.get(p.t as int, p.i as int, p.j as int).propagated != ErrorType::I),
        forall|p: Position|
            #[trigger] has_key(corr_b, p) <==> (p.t == work.height - 1 && work.exists_at(
                p.t as int,
                p.i as int,
                p.j as int,
            ) && work.get(p.t as int, p.i as int, p.j as int).qubit_type == QubitType::Data
                && work.get(p.t as int, p.i as int, p.j as int).propagated != ErrorType::I),
        forall|p: Position|
            #[trigger] has_key(corr_a, p) ==> value_of_key(corr_a, p) == work.get(
                p.t as int,
                p.i as int,
                p.j as int,
            ).propagated,
        forall|p: Position|
            #[trigger] has_key(corr_b, p) ==> value_of_key(corr_b, p) == work.get(
                p.t as int,
                p.i as int,
                p.j as int,
            ).propagated,
    ensures
        real_a =~= real_b,
        virt_a =~= virt_b,
        corr_a =~= corr_b,
{
    assert forall|p: Position| real_a.contains(p) == real_b.contains(p) by {}
    lemma_sorted_positions_unique(real_a, real_b);
    assert forall|p: Position| virt_a.contains(p) == virt_b.contains(p) by {}
    lemma_sorted_positions_unique(virt_a, virt_b);
    assert forall|p: Position| has_key(corr_a, p) == has_key(corr_b, p) by {}
    assert forall|p: Position| has_key(corr_a, p) implies value_of_key(corr_a, p) == value_of_key(
        corr_b,
        p,
    ) by {}
    lemma_sorted_entries_unique(corr_a, corr_b);
}

/// The frame at layer 0 is the identity.
pub proof fn lemma_frame_layer_zero(s: Simulator, i: int, j: int)
    ensures
        propagated_frame(s, 0, i, j) == ErrorType::I,
{
    reveal(propagated_frame);
}

/// A simulator that agrees with a well-formed one on the whole lattice is
/// itself well-formed.
#[verifier::spinoff_prover]
pub proof fn lemma_same_lattice_preserves_wf(a: Simulator, b: Simulator)
    requires
        a.lattice_wf(),
        b.dims_ok(),
        b.same_lattice(&a),
    ensures
        b.lattice_wf(),
{
    lemma_wf_dims(a);
    assert forall|t: int, i: int, j: int| b.in_bounds(t, i, j) implies #[trigger] b.exists_at(
        t,
        i,
        j,
    ) == b.exists_at(0, i, j) by {
        assert(b.exists_at(t, i, j) == a.exists_at(t, i, j));
        assert(b.exists_at(0, i, j) == a.exists_at(0, i, j));
        lemma_wf_column(a, t, i, j);
    }
    assert forall|t: int, i: int, j: int| b.exists_at(t, i, j) implies #[trigger] cell_peer_ok(
        b,
        t,
        i,
        j,
    ) by {
        assert(a.exists_at(t, i, j));
        lemma_wf_cell(a, t, i, j);
        let m = a.get(t, i, j);
        let n = b.get(t, i, j);
        assert(n.gate_type == m.gate_type && n.peer() == m.peer() && n.is_peer_virtual
            == m.is_peer_virtual);
        match m.peer() {
            Some(p) => {
                assert(a.exists_at(t, p.i as int, p.j as int));
                assert(b.exists_at(t, p.i as int, p.j as int));
                assert(b.get(t, p.i as int, p.j as int).gate_type == a.get(
                    t,
                    p.i as int,
                    p.j as int,
                ).gate_type);
                assert(b.get(t, p.i as int, p.j as int).peer() == a.get(
                    t,
                    p.i as int,
                    p.j as int,
                ).peer());
                assert(b.get(t, p.i as int, p.j as int).is_virtual == a.get(
                    t,
                    p.i as int,
                    p.j as int,
                ).is_virtual);
            },
            None => {},
        }
        reveal(cell_peer_ok);
    }
    reveal(Simulator::lattice_wf);
}

/// From the sweep invariants, derive the pointwise facts the per-cell
/// propagation step needs about the source cell and its peer.
#[verifier::spinoff_prover]
proof fn lemma_propagate_step_facts(cur: Simulator, base: Simulator, tgt: int, i: int, j: int)
    requires
        base.lattice_wf(),
        cur.dims_ok(),
        cur.same_lattice(&base),
        1 <= tgt < cur.height,
        cur.exists_at(tgt, i, j),
        forall|a: int, b: int, c: int|
            base.exists_at(a, b, c) ==> {
                let x = base.get(a, b, c);
                let y = #[trigger] cur.get(a, b, c);
                y.error == x.error && y.has_erasure == x.has_erasure
            },
        forall|a: int, b: int, c: int|
            cur.exists_at(a, b, c) && (a < tgt || (a == tgt && b < i) || (a == tgt && b == i && c
                < j)) ==> (#[trigger] cur.get(a, b, c)).propagated == propagated_frame(
                base,
                a,
                b,
                c,
            ),
    ensures
        cur.exists_at(tgt - 1, i, j),
        base.exists_at(tgt - 1, i, j),
        ({
            let n_old = cur.get(tgt - 1, i, j);
            let n_base = base.get(tgt - 1, i, j);
            &&& n_old.gate_type == n_base.gate_type
            &&& n_old.error == n_base.error
            &&& n_old.peer() == n_base.peer()
            &&& n_old.propagated == propagated_frame(base, tgt - 1, i, j)
        }),
        match cur.get(tgt - 1, i, j).peer() {
            Some(p) => {
                &&& cur.exists_at(tgt - 1, p.i as int, p.j as int)
                &&& base.exists_at(tgt - 1, p.i as int, p.j as int)
                &&& ({
                    let q_old = cur.get(tgt - 1, p.i as int, p.j as int);
                    let q_base = base.get(tgt - 1, p.i as int, p.j as int);
                    &&& q_old.gate_type == q_base.gate_type
                    &&& q_old.is_virtual == q_base.is_virtual
                    &&& q_old.is_peer_virtual == q_base.is_peer_virtual
                    &&& q_old.propagated == propagated_frame(base, tgt - 1, p.i as int, p.j as int)
                    &&& is_two_qubit_gate_spec(q_base.gate_type)
                })
            },
            None => true,
        },
{
    lemma_wf_dims(base);
    assert(base.exists_at(tgt, i, j));
    lemma_wf_column(base, tgt, i, j);
    assert(base.exists_at(tgt - 1, i, j));
    assert(cur.exists_at(tgt - 1, i, j));
    let n_self = cur.get(tgt - 1, i, j);
    let n_base = base.get(tgt - 1, i, j);
    assert(n_self.gate_type == n_base.gate_type && n_self.peer() == n_base.peer() && n_self.error
        == n_base.error);
    assert(n_self.propagated == propagated_frame(base, tgt - 1, i, j));
    lemma_wf_cell(base, tgt - 1, i, j);
    match n_self.peer() {
        Some(p) => {
            assert(base.exists_at(tgt - 1, p.i as int, p.j as int));
            assert(cur.exists_at(tgt - 1, p.i as int, p.j as int));
            let q_self = cur.get(tgt - 1, p.i as int, p.j as int);
            let q_base = base.get(tgt - 1, p.i as int, p.j as int);
            assert(q_base.gate_type == peer_gate_spec(n_base.gate_type));
            assert(is_two_qubit_gate_spec(n_base.gate_type));
            assert(is_two_qubit_gate_spec(q_base.gate_type));
            assert(q_self.gate_type == q_base.gate_type && q_self.is_virtual == q_base.is_virtual
                && q_self.is_peer_virtual == q_base.is_peer_virtual);
            assert(q_self.propagated == propagated_frame(base, tgt - 1, p.i as int, p.j as int));
        },
        None => {},
    }
}

/// After one per-cell propagation step, the sweep invariants hold with the
/// column index advanced by one.
#[verifier::spinoff_prover]
proof fn lemma_propagate_step_update(
    prev: Simulator,
    cur: Simulator,
    base: Simulator,
    tgt: int,
    i: int,
    j: int,
)
    requires
        prev.dims_ok(),
        cur.dims_ok(),
        cur.height == prev.height,
        cur.vertical == prev.vertical,
        cur.horizontal == prev.horizontal,
        cur.code_type == prev.code_type,
        cur.measurement_cycles == prev.measurement_cycles,
        1 <= tgt < prev.height,
        0 <= i < prev.vertical,
        0 <= j < prev.horizontal,
        prev.exists_at(tgt, i, j),
        prev.same_lattice(&base),
        forall|a: int, b: int, c: int|
            base.exists_at(a, b, c) ==> {
                let x = base.get(a, b, c);
                let y = #[trigger] prev.get(a, b, c);
                y.error == x.error && y.has_erasure == x.has_erasure
            },
        forall|a: int, b: int, c: int|
            prev.exists_at(a, b, c) && (a < tgt || (a == tgt && b < i) || (a == tgt && b == i && c
                < j)) ==> (#[trigger] prev.get(a, b, c)).propagated == propagated_frame(
                base,
                a,
                b,
                c,
            ),
        forall|a: int, b: int, c: int|
            prev.exists_at(a, b, c) && (a > tgt || (a == tgt && b > i) || (a == tgt && b == i && c
                >= j)) ==> (#[trigger] prev.get(a, b, c)).propagated == ErrorType::I,
        forall|t2: int, i2: int, j2: int|
            prev.in_bounds(t2, i2, j2) ==> #[trigger] cur.node_at(t2, i2, j2) == (if t2 == tgt && i2
                == i && j2 == j {
                Some(
                    SimulatorNode { propagated: propagated_frame(base, t2, i2, j2), ..prev.get(t2, i2, j2) },
                )
            } else {
                prev.node_at(t2, i2, j2)
            }),
    ensures
        cur.same_lattice(&base),
        forall|a: int, b: int, c: int|
            base.exists_at(a, b, c) ==> {
                let x = base.get(a, b, c);
                let y = #[trigger] cur.get(a, b, c);
                y.error == x.error && y.has_erasure == x.has_erasure
            },
        forall|a: int, b: int, c: int|
            cur.exists_at(a, b, c) && (a < tgt || (a == tgt && b < i) || (a == tgt && b == i && c
                < j + 1)) ==> (#[trigger] cur.get(a, b, c)).propagated == propagated_frame(
                base,
                a,
                b,
                c,
            ),
        forall|a: int, b: int, c: int|
            cur.exists_at(a, b, c) && (a > tgt || (a == tgt && b > i) || (a == tgt && b == i && c
                >= j + 1)) ==> (#[trigger] cur.get(a, b, c)).propagated == ErrorType::I,
{
    assert forall|a: int, b: int, c: int| prev.in_bounds(a, b, c) implies #[trigger] cur.exists_at(
        a,
        b,
        c,
    ) == prev.exists_at(a, b, c) by {
        assert(cur.node_at(a, b, c) == (if a == tgt && b == i && c == j {
            Some(SimulatorNode { propagated: propagated_frame(base, a, b, c), ..prev.get(a, b, c) })
        } else {
            prev.node_at(a, b, c)
        }));
    }
    assert forall|a: int, b: int, c: int| base.exists_at(a, b, c) implies {
        let x = base.get(a, b, c);
        let y = #[trigger] cur.get(a, b, c);
        y.error == x.error && y.has_erasure == x.has_erasure
    } by {
        assert(cur.node_at(a, b, c) == (if a == tgt && b == i && c == j {
            Some(SimulatorNode { propagated: propagated_frame(base, a, b, c), ..prev.get(a, b, c) })
        } else {
            prev.node_at(a, b, c)
        }));
        assert(prev.get(a, b, c).error == base.get(a, b, c).error && prev.get(a, b, c).has_erasure
            == base.get(a, b, c).has_erasure);
    }
    assert forall|a: int, b: int, c: int|
        cur.exists_at(a, b, c) && (a < tgt || (a == tgt && b < i) || (a == tgt && b == i && c < j
            + 1)) implies (#[trigger] cur.get(a, b, c)).propagated == propagated_frame(
        base,
        a,
        b,
        c,
    ) by {
        assert(cur.node_at(a, b, c) == (if a == tgt && b == i && c == j {
            Some(SimulatorNode { propagated: propagated_frame(base, a, b, c), ..prev.get(a, b, c) })
        } else {
            prev.node_at(a, b, c)
        }));
        if !(a == tgt && b == i && c == j) {
            assert(prev.get(a, b, c).propagated == propagated_frame(base, a, b, c));
        }
    }
    assert forall|a: int, b: int, c: int|
        cur.exists_at(a, b, c) && (a > tgt || (a == tgt && b > i) || (a == tgt && b == i && c >= j
            + 1)) implies (#[trigger] cur.get(a, b, c)).propagated == ErrorType::I by {
        assert(cur.node_at(a, b, c) == prev.node_at(a, b, c));
        assert(prev.get(a, b, c).propagated == ErrorType::I);
    }
    assert forall|a: int, b: int, c: int| cur.exists_at(a, b, c) implies {
        let x = base.get(a, b, c);
        let y = #[trigger] cur.get(a, b, c);
        y.qubit_type == x.qubit_type && y.gate_type == x.gate_type && y.peer() == x.peer()
            && y.is_virtual == x.is_virtual && y.is_peer_virtual == x.is_peer_virtual
    } by {
        assert(cur.node_at(a, b, c) == (if a == tgt && b == i && c == j {
            Some(SimulatorNode { propagated: propagated_frame(base, a, b, c), ..prev.get(a, b, c) })
        } else {
            prev.node_at(a, b, c)
        }));
        assert(prev.exists_at(a, b, c));
        let x = base.get(a, b, c);
        let y = prev.get(a, b, c);
        assert(y.qubit_type == x.qubit_type && y.gate_type == x.gate_type && y.peer() == x.peer()
            && y.is_virtual == x.is_virtual && y.is_peer_virtual == x.is_peer_virtual);
    }
}

} // verus!
