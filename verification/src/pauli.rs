//! Pauli algebra and gate taxonomy: the single-qubit Pauli group modulo phase,
//! each kind acting in one stabilizer-measurement cycle, and the rules by which a
//! Pauli frame propagates through each gate.

use vstd::prelude::*;

verus! {

/// A single-qubit Pauli operator with the global phase discarded.
#[derive(Debug, Clone, Copy, PartialEq, Eq, Structural, Hash)]
pub enum ErrorType {
    I,
    X,
    Y,
    Z,
}

/// Multiplication in the Pauli group modulo phase (the Klein four-group).
pub open spec fn pauli_mul(a: ErrorType, b: ErrorType) -> ErrorType {
    match (a, b) {
        (ErrorType::I, _) => b,
        (_, ErrorType::I) => a,
        (ErrorType::X, ErrorType::X) => ErrorType::I,
        (ErrorType::Y, ErrorType::Y) => ErrorType::I,
        (ErrorType::Z, ErrorType::Z) => ErrorType::I,
        (ErrorType::X, ErrorType::Y) => ErrorType::Z,
        (ErrorType::Y, ErrorType::X) => ErrorType::Z,
        (ErrorType::X, ErrorType::Z) => ErrorType::Y,
        (ErrorType::Z, ErrorType::X) => ErrorType::Y,
        (ErrorType::Y, ErrorType::Z) => ErrorType::X,
        (ErrorType::Z, ErrorType::Y) => ErrorType::X,
    }
}

impl ErrorType {
    /// Multiply two Pauli operators, discarding phase.
    pub fn multiply(&self, other: &ErrorType) -> (r: ErrorType)
        ensures
            r == pauli_mul(*self, *other),
    {
        match (self, other) {
            (ErrorType::I, _) => *other,
            (_, ErrorType::I) => *self,
            (ErrorType::X, ErrorType::X) => ErrorType::I,
            (ErrorType::Y, ErrorType::Y) => ErrorType::I,
            (ErrorType::Z, ErrorType::Z) => ErrorType::I,
            (ErrorType::X, ErrorType::Y) => ErrorType::Z,
            (ErrorType::Y, ErrorType::X) => ErrorType::Z,
            (ErrorType::X, ErrorType::Z) => ErrorType::Y,
            (ErrorType::Z, ErrorType::X) => ErrorType::Y,
            (ErrorType::Y, ErrorType::Z) => ErrorType::X,
            (ErrorType::Z, ErrorType::Y) => ErrorType::X,
        }
    }

    /// Canonical one-letter name of this Pauli operator.
    pub fn name(&self) -> (r: &'static str)
        ensures
            r@ == pauli_name(*self),
    {
        proof {
            reveal_strlit("I");
            reveal_strlit("X");
            reveal_strlit("Y");
            reveal_strlit("Z");
        }
        match self {
            ErrorType::I => "I",
            ErrorType::X => "X",
            ErrorType::Y => "Y",
            ErrorType::Z => "Z",
        }
    }
}

/// The canonical one-letter text form of a Pauli operator.
pub open spec fn pauli_name(a: ErrorType) -> Seq<char> {
    match a {
        ErrorType::I => "I"@,
        ErrorType::X => "X"@,
        ErrorType::Y => "Y"@,
        ErrorType::Z => "Z"@,
    }
}

/// The Pauli group is commutative once phase is discarded.
pub proof fn lemma_pauli_mul_commutative(a: ErrorType, b: ErrorType)
    ensures
        pauli_mul(a, b) == pauli_mul(b, a),
{
}

/// Every Pauli operator is its own inverse.
pub proof fn lemma_pauli_mul_self_inverse(a: ErrorType)
    ensures
        pauli_mul(a, a) == ErrorType::I,
{
}

/// The identity is neutral on either side.
pub proof fn lemma_pauli_mul_identity(a: ErrorType)
    ensures
        pauli_mul(a, ErrorType::I) == a,
        pauli_mul(ErrorType::I, a) == a,
{
}

/// Pauli multiplication is associative.
pub proof fn lemma_pauli_mul_associative(a: ErrorType, b: ErrorType, c: ErrorType)
    ensures
        pauli_mul(pauli_mul(a, b), c) == pauli_mul(a, pauli_mul(b, c)),
{
}

/// The role a lattice site plays in the code.
#[derive(Debug, Clone, Copy, PartialEq, Eq, Structural, Hash)]
pub enum QubitType {
    Data,
    StabZ,
    StabX,
    StabY,
}

/// What acts at one cell of the space-time circuit lattice.
#[derive(Debug, Clone, Copy, PartialEq, Eq, Structural, Hash)]
pub enum GateType {
    /// Initialize in the +1 eigenstate of Z.
    InitializeZ,
    /// Initialize in the +1 eigenstate of X.
    InitializeX,
    /// Control side of a CX (CNOT) gate.
    CXGateControl,
    /// Target side of a CX (CNOT) gate.
    CXGateTarget,
    /// Control side of a CY gate.
    CYGateControl,
    /// Target side of a CY gate.
    CYGateTarget,
    /// CZ gate; symmetric, so one kind serves both sides.
    CZGate,
    /// Measurement in the Z basis, sensitive to X and Y frames.
    MeasureZ,
    /// Measurement in the X basis, sensitive to Z and Y frames.
    MeasureX,
    /// No gate at this cell in this layer.
    Idle,
}

pub open spec fn is_initialization_spec(g: GateType) -> bool {
    g == GateType::InitializeZ || g == GateType::InitializeX
}

pub open spec fn is_measurement_spec(g: GateType) -> bool {
    g == GateType::MeasureZ || g == GateType::MeasureX
}

pub open spec fn is_single_qubit_gate_spec(g: GateType) -> bool {
    is_initialization_spec(g) || is_measurement_spec(g) || g == GateType::Idle
}

pub open spec fn is_two_qubit_gate_spec(g: GateType) -> bool {
    !is_single_qubit_gate_spec(g)
}

/// Whether a stabilizer measurement of kind `g` reports a flipped outcome under
/// the propagated frame `propagated`. Only measurement gates measure; all other
/// kinds report no flip.
pub open spec fn stabilizer_measurement_spec(g: GateType, propagated: ErrorType) -> bool {
    match g {
        GateType::MeasureZ => propagated == ErrorType::X || propagated == ErrorType::Y,
        GateType::MeasureX => propagated == ErrorType::Z || propagated == ErrorType::Y,
        _ => false,
    }
}

/// The Pauli that a two-qubit gate of kind `g` adds to its peer wire at the
/// next layer when the frame on this wire is `propagated`. Single-qubit kinds
/// add nothing.
pub open spec fn propagate_peer_spec(g: GateType, propagated: ErrorType) -> ErrorType {
    match g {
        GateType::CXGateControl => if propagated == ErrorType::X || propagated == ErrorType::Y {
            ErrorType::X
        } else {
            ErrorType::I
        },
        GateType::CXGateTarget => if propagated == ErrorType::Z || propagated == ErrorType::Y {
            ErrorType::Z
        } else {
            ErrorType::I
        },
        GateType::CYGateControl => if propagated == ErrorType::X || propagated == ErrorType::Y {
            ErrorType::Y
        } else {
            ErrorType::I
        },
        GateType::CYGateTarget => if propagated == ErrorType::Z || propagated == ErrorType::X {
            ErrorType::Z
        } else {
            ErrorType::I
        },
        GateType::CZGate => if propagated == ErrorType::X || propagated == ErrorType::Y {
            ErrorType::Z
        } else {
            ErrorType::I
        },
        _ => ErrorType::I,
    }
}

/// Which kind is expected on the peer side of a two-qubit coupling;
/// `GateType::Idle` for single-qubit kinds.
pub open spec fn peer_gate_spec(g: GateType) -> GateType {
    match g {
        GateType::CXGateControl => GateType::CXGateTarget,
        GateType::CXGateTarget => GateType::CXGateControl,
        GateType::CYGateControl => GateType::CYGateTarget,
        GateType::CYGateTarget => GateType::CYGateControl,
        GateType::CZGate => GateType::CZGate,
        _ => GateType::Idle,
    }
}

impl GateType {
    /// Whether this kind prepares a fresh qubit state.
    pub fn is_initialization(&self) -> (r: bool)
        ensures
            r == is_initialization_spec(*self),
    {
        *self == GateType::InitializeZ || *self == GateType::InitializeX
    }

    /// Whether this kind measures a stabilizer.
    pub fn is_measurement(&self) -> (r: bool)
        ensures
            r == is_measurement_spec(*self),
    {
        *self == GateType::MeasureZ || *self == GateType::MeasureX
    }

    /// Whether a measurement of this kind reports a flipped outcome under the
    /// propagated frame. Callers must only consult measurement gates.
    pub fn stabilizer_measurement(&self, propagated: &ErrorType) -> (r: bool)
        requires
            is_measurement_spec(*self),
        ensures
            r == stabilizer_measurement_spec(*self, *propagated),
    {
        match self {
            GateType::MeasureZ => matches!(propagated, ErrorType::X | ErrorType::Y),
            GateType::MeasureX => matches!(propagated, ErrorType::Z | ErrorType::Y),
            _ => false,
        }
    }

    /// Whether this kind acts on one wire only (initialization, measurement or
    /// idle).
    pub fn is_single_qubit_gate(&self) -> (r: bool)
        ensures
            r == is_single_qubit_gate_spec(*self),
    {
        self.is_initialization() || self.is_measurement() || *self == GateType::Idle
    }

    /// Whether this kind couples two wires.
    pub fn is_two_qubit_gate(&self) -> (r: bool)
        ensures
            r == is_two_qubit_gate_spec(*self),
    {
        !self.is_single_qubit_gate()
    }

    /// The Pauli this gate adds to its peer wire at the next layer, given the
    /// frame on this wire. Callers must only consult two-qubit gates.
    pub fn propagate_peer(&self, propagated: &ErrorType) -> (r: ErrorType)
        requires
            is_two_qubit_gate_spec(*self),
        ensures
            r == propagate_peer_spec(*self, *propagated),
    {
        match self {
            GateType::CXGateControl => if matches!(propagated, ErrorType::X | ErrorType::Y) {
                ErrorType::X
            } else {
                ErrorType::I
            },
            GateType::CXGateTarget => if matches!(propagated, ErrorType::Z | ErrorType::Y) {
                ErrorType::Z
            } else {
                ErrorType::I
            },
            GateType::CYGateControl => if matches!(propagated, ErrorType::X | ErrorType::Y) {
                ErrorType::Y
            } else {
                ErrorType::I
            },
            GateType::CYGateTarget => if matches!(propagated, ErrorType::Z | ErrorType::X) {
                ErrorType::Z
            } else {
                ErrorType::I
            },
            GateType::CZGate => if matches!(propagated, ErrorType::X | ErrorType::Y) {
                ErrorType::Z
            } else {
                ErrorType::I
            },
            _ => ErrorType::I,
        }
    }

    /// Whether a measurement of this kind matches the basis prepared by the
    /// initialization kind `other`.
    pub fn is_corresponding_initialization(&self, other: &GateType) -> (r: bool)
        ensures
            r == ((*self == GateType::MeasureX && *other == GateType::InitializeX) || (*self
                == GateType::MeasureZ && *other == GateType::InitializeZ)),
    {
        if *self == GateType::MeasureX && *other == GateType::InitializeX {
            return true;
        }
        if *self == GateType::MeasureZ && *other == GateType::InitializeZ {
            return true;
        }
        false
    }

    /// Which kind is expected on the other side of this two-qubit coupling, or
    /// `GateType::Idle` for single-qubit kinds.
    pub fn peer_gate(&self) -> (r: GateType)
        ensures
            r == peer_gate_spec(*self),
    {
        match self {
            GateType::CXGateControl => GateType::CXGateTarget,
            GateType::CXGateTarget => GateType::CXGateControl,
            GateType::CYGateControl => GateType::CYGateTarget,
            GateType::CYGateTarget => GateType::CYGateControl,
            GateType::CZGate => GateType::CZGate,
            _ => GateType::Idle,
        }
    }
}

/// Two-qubit peer kinds pair up symmetrically: the peer of the peer kind is
/// the kind itself.
pub proof fn lemma_peer_gate_involution(g: GateType)
    requires
        is_two_qubit_gate_spec(g),
    ensures
        peer_gate_spec(peer_gate_spec(g)) == g,
        is_two_qubit_gate_spec(peer_gate_spec(g)),
{
}

/// Peer propagation is a homomorphism of the Pauli group: propagating a
/// product adds the product of what each factor would add.
pub proof fn lemma_propagate_peer_distributive(g: GateType, a: ErrorType, b: ErrorType)
    ensures
        propagate_peer_spec(g, pauli_mul(a, b)) == pauli_mul(
            propagate_peer_spec(g, a),
            propagate_peer_spec(g, b),
        ),
{
}

/// Measurement flips distribute over Pauli products: the flip under a product
/// frame is the exclusive-or of the flips under each factor.
pub proof fn lemma_stabilizer_measurement_distributive(g: GateType, a: ErrorType, b: ErrorType)
    ensures
        stabilizer_measurement_spec(g, pauli_mul(a, b)) == (stabilizer_measurement_spec(g, a)
            != stabilizer_measurement_spec(g, b)),
{
}

} // verus!
