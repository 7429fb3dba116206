//! The code builder: given a built-in code descriptor, derive the lattice
//! geometry and fill every layer with qubit roles, each round's schedule, the
//! two-qubit peers and the virtual-boundary flags.

use vstd::prelude::*;

use crate::pauli::ErrorType;
use crate::pauli::GateType;
use crate::pauli::QubitType;
use crate::position::Position;
use crate::pauli::is_initialization_spec;
use crate::pauli::is_measurement_spec;
use crate::pauli::is_single_qubit_gate_spec;
use crate::pauli::is_two_qubit_gate_spec;
use crate::pauli::pauli_mul;
use crate::position::pos_lt;
use crate::pauli::peer_gate_spec;
use crate::simulator::Simulator;
use crate::simulator::SimulatorNode;
use crate::simulator::cell_peer_ok;
use crate::simulator::measurement_found;
use crate::simulator::syndrome_wf;
use crate::simulator::basis_ok;
use crate::simulator::basis_matches;
use crate::simulator::data_gates_ok;
use crate::simulator::last_init_upto;
use crate::simulator::lemma_wf_column;
use crate::simulator::lemma_wf_dims;
use crate::simulator::lemma_wf_cell;
use crate::sparse::SparseCorrection;
use crate::sparse::has_key;
use crate::sparse::value_of_key;

verus! {

/// A built-in code descriptor. Built-ins carry the number of noisy
/// measurement rounds (excluding the final perfect round) and two code
/// distances; `Customized` leaves the lattice to the caller.
#[derive(Debug, Clone, Copy, PartialEq, Eq, Structural)]
pub enum CodeType {
    /// Open-boundary planar surface code: vertical and horizontal distances.
    StandardPlanarCode { noisy_measurements: usize, di: usize, dj: usize },
    /// Rotated planar surface code: distances along the two diagonals.
    RotatedPlanarCode { noisy_measurements: usize, dp: usize, dn: usize },
    /// Open-boundary XZZX surface code.
    StandardXZZXCode { noisy_measurements: usize, di: usize, dj: usize },
    /// Rotated XZZX surface code.
    RotatedXZZXCode { noisy_measurements: usize, dp: usize, dn: usize },
    /// Open-boundary tailored surface code.
    StandardTailoredCode { noisy_measurements: usize, di: usize, dj: usize },
    /// Rotated tailored surface code.
    RotatedTailoredCode { noisy_measurements: usize, dp: usize, dn: usize },
    /// A code the caller builds by hand.
    Customized,
}

/// The shared shape of every built-in descriptor.
pub struct BuiltinCodeInformation {
    pub noisy_measurements: usize,
    pub di: usize,
    pub dj: usize,
}

impl CodeType {
    /// Build a descriptor from a code name and its parameters; `None` for a
    /// name that is not recognised.
    pub fn new(code_type: &String, noisy_measurements: usize, di: usize, dj: usize) -> (r:
        Option<Self>)
        ensures
            code_type@ == "StandardPlanarCode"@ ==> r == Some(
                CodeType::StandardPlanarCode { noisy_measurements, di, dj },
            ),
            code_type@ == "RotatedPlanarCode"@ ==> r == Some(
                CodeType::RotatedPlanarCode { noisy_measurements, dp: di, dn: dj },
            ),
            code_type@ != "StandardPlanarCode"@ && code_type@ != "RotatedPlanarCode"@ ==> r
                is None,
    {
        proof {
            reveal_strlit("StandardPlanarCode");
            reveal_strlit("RotatedPlanarCode");
            assert("StandardPlanarCode"@.len() == 18);
            assert("RotatedPlanarCode"@.len() == 17);
        }
        let standard: String = String::from_str("StandardPlanarCode");
        let rotated: String = String::from_str("RotatedPlanarCode");
        if *code_type == standard {
            Some(CodeType::StandardPlanarCode { noisy_measurements, di, dj })
        } else if *code_type == rotated {
            Some(CodeType::RotatedPlanarCode { noisy_measurements, dp: di, dn: dj })
        } else {
            None
        }
    }

    /// The code names that `CodeType::new` recognises.
    pub fn possible_values() -> (r: Vec<&'static str>)
        ensures
            r@.len() == 2,
            r@[0]@ == "StandardPlanarCode"@,
            r@[1]@ == "RotatedPlanarCode"@,
    {
        let mut v: Vec<&'static str> = Vec::new();
        v.push("StandardPlanarCode");
        v.push("RotatedPlanarCode");
        v
    }

    /// The parameters of a built-in descriptor; `None` for `Customized`.
    pub fn builtin_code_information(&self) -> (r: Option<BuiltinCodeInformation>)
        ensures
            match r {
                Some(info) => *self != CodeType::Customized && Some(
                    (info.noisy_measurements, info.di, info.dj),
                ) == code_parameters(*self),
                None => *self == CodeType::Customized,
            },
    {
        match self {
            CodeType::StandardPlanarCode { noisy_measurements, di, dj }
            | CodeType::StandardXZZXCode { noisy_measurements, di, dj }
            | CodeType::StandardTailoredCode { noisy_measurements, di, dj } => Some(
                BuiltinCodeInformation {
                    noisy_measurements: *noisy_measurements,
                    di: *di,
                    dj: *dj,
                },
            ),
            CodeType::RotatedPlanarCode { noisy_measurements, dp, dn }
            | CodeType::RotatedXZZXCode { noisy_measurements, dp, dn }
            | CodeType::RotatedTailoredCode { noisy_measurements, dp, dn } => Some(
                BuiltinCodeInformation {
                    noisy_measurements: *noisy_measurements,
                    di: *dp,
                    dj: *dn,
                },
            ),
            CodeType::Customized => None,
        }
    }
}

/// The `(noisy_measurements, di, dj)` triple of a built-in descriptor.
pub open spec fn code_parameters(ct: CodeType) -> Option<(usize, usize, usize)> {
    match ct {
        CodeType::StandardPlanarCode { noisy_measurements, di, dj } => Some(
            (noisy_measurements, di, dj),
        ),
        CodeType::RotatedPlanarCode { noisy_measurements, dp, dn } => Some(
            (noisy_measurements, dp, dn),
        ),
        CodeType::StandardXZZXCode { noisy_measurements, di, dj } => Some(
            (noisy_measurements, di, dj),
        ),
        CodeType::RotatedXZZXCode { noisy_measurements, dp, dn } => Some(
            (noisy_measurements, dp, dn),
        ),
        CodeType::StandardTailoredCode { noisy_measurements, di, dj } => Some(
            (noisy_measurements, di, dj),
        ),
        CodeType::RotatedTailoredCode { noisy_measurements, dp, dn } => Some(
            (noisy_measurements, dp, dn),
        ),
        CodeType::Customized => None,
    }
}

/// Whether a descriptor names a rotated code.
pub open spec fn code_is_rotated(ct: CodeType) -> bool {
    ct matches CodeType::RotatedPlanarCode { .. } || ct matches CodeType::RotatedXZZXCode { .. }
        || ct matches CodeType::RotatedTailoredCode { .. }
}

/// Why a lattice could not be built from a descriptor.
#[derive(Debug, Clone, Copy, PartialEq, Eq, Structural)]
pub enum BuildError {
    /// The descriptor names a code family with no built-in construction.
    UnsupportedCodeType,
    /// A code distance is zero.
    ZeroCodeDistance,
    /// A rotated code was given an even distance.
    EvenCodeDistance,
}

/// Whether the descriptor has a built-in lattice construction.
pub open spec fn code_buildable(ct: CodeType) -> bool {
    ct matches CodeType::StandardPlanarCode { .. } || ct matches CodeType::RotatedPlanarCode { .. }
}

/// The number of rows of the built lattice.
pub open spec fn geo_vertical(ct: CodeType) -> int {
    let (nm, di, dj) = code_parameters(ct)->Some_0;
    if code_is_rotated(ct) {
        di + dj + 1
    } else {
        2 * di + 1
    }
}

/// The number of columns of the built lattice.
pub open spec fn geo_horizontal(ct: CodeType) -> int {
    let (nm, di, dj) = code_parameters(ct)->Some_0;
    if code_is_rotated(ct) {
        di + dj + 1
    } else {
        2 * dj + 1
    }
}

/// The number of layers of the built lattice: six per measurement round plus
/// the final perfect-measurement cap.
pub open spec fn geo_height(ct: CodeType) -> int {
    let (nm, di, dj) = code_parameters(ct)->Some_0;
    6 * (nm + 1) + 1
}

/// Whether site `(i, j)` carries a real qubit.
pub open spec fn cb_is_real(ct: CodeType, i: int, j: int) -> bool {
    let (nm, di, dj) = code_parameters(ct)->Some_0;
    if code_is_rotated(ct) {
        if i <= dj && j <= dj {
            rot_is_real_d(dj as int, dj - i, dj - j)
        } else if i >= di && j >= di {
            rot_is_real_d(dj as int, i - di, j - di)
        } else if i >= dj && j <= di {
            rot_is_real_d_swapped(di as int, i - dj, di - j)
        } else if i <= di && j >= dj {
            rot_is_real_d_swapped(di as int, di - i, j - dj)
        } else {
            false
        }
    } else {
        i > 0 && j > 0 && i < geo_vertical(ct) - 1 && j < geo_horizontal(ct) - 1
    }
}

/// The rotated-code presence rule along the `dj` diagonal.
pub open spec fn rot_is_real_d(d: int, pi: int, pj: int) -> bool {
    pi + pj < d || (pi + pj == d && pi % 2 == 0 && pi > 0)
}

/// The rotated-code presence rule along the `di` diagonal (parity read from
/// the second offset).
pub open spec fn rot_is_real_d_swapped(d: int, pi: int, pj: int) -> bool {
    pi + pj < d || (pi + pj == d && pj % 2 == 0 && pj > 0)
}

/// The rotated-code virtual-boundary rule along the `dj` diagonal.
pub open spec fn rot_is_virtual_d(d: int, pi: int, pj: int) -> bool {
    pi + pj == d && (pi % 2 == 1 || pi == 0)
}

/// The rotated-code virtual-boundary rule along the `di` diagonal.
pub open spec fn rot_is_virtual_d_swapped(d: int, pi: int, pj: int) -> bool {
    pi + pj == d && (pj % 2 == 1 || pj == 0)
}

/// Whether site `(i, j)` carries a virtual boundary stabilizer.
pub open spec fn cb_is_virtual(ct: CodeType, i: int, j: int) -> bool {
    let (nm, di, dj) = code_parameters(ct)->Some_0;
    if code_is_rotated(ct) {
        if i <= dj && j <= dj {
            rot_is_virtual_d(dj as int, dj - i, dj - j)
        } else if i >= di && j >= di {
            rot_is_virtual_d(dj as int, i - di, j - di)
        } else if i >= dj && j <= di {
            rot_is_virtual_d_swapped(di as int, i - dj, di - j)
        } else if i <= di && j >= dj {
            rot_is_virtual_d_swapped(di as int, di - i, j - dj)
        } else {
            false
        }
    } else {
        if i == 0 || i == geo_vertical(ct) - 1 {
            j % 2 == 1
        } else if j == 0 || j == geo_horizontal(ct) - 1 {
            i % 2 == 1
        } else {
            false
        }
    }
}

/// Whether a node is placed at site `(i, j)`: real or virtual.
pub open spec fn cb_present(ct: CodeType, i: int, j: int) -> bool {
    cb_is_real(ct, i, j) || cb_is_virtual(ct, i, j)
}

/// The role of the qubit at site `(i, j)`: data on even parity, stabilizers
/// on odd parity with the type set by the row parity.
pub open spec fn cb_qubit_type(i: int, j: int) -> QubitType {
    if (i + j) % 2 == 0 {
        QubitType::Data
    } else if i % 2 == 1 {
        QubitType::StabZ
    } else {
        QubitType::StabX
    }
}

/// What acts at cell `(t, i, j)` and which peer it couples to, following
/// the six-step schedule of one measurement round.
pub open spec fn cb_gate(ct: CodeType, t: int, i: int, j: int) -> (GateType, Option<Position>) {
    let qt = cb_qubit_type(i, j);
    let vertical = geo_vertical(ct);
    let horizontal = geo_horizontal(ct);
    if t % 6 == 1 {
        if qt == QubitType::StabZ {
            (GateType::InitializeZ, None)
        } else if qt == QubitType::StabX {
            (GateType::InitializeX, None)
        } else {
            (GateType::Idle, None)
        }
    } else if t % 6 == 2 {
        if qt == QubitType::Data {
            if i + 1 < vertical && cb_present(ct, i + 1, j) {
                (
                    if j % 2 == 1 {
                        GateType::CXGateTarget
                    } else {
                        GateType::CXGateControl
                    },
                    Some(Position { t: t as usize, i: (i + 1) as usize, j: j as usize }),
                )
            } else {
                (GateType::Idle, None)
            }
        } else {
            if i >= 1 && cb_present(ct, i - 1, j) {
                (
                    if j % 2 == 1 {
                        GateType::CXGateControl
                    } else {
                        GateType::CXGateTarget
                    },
                    Some(Position { t: t as usize, i: (i - 1) as usize, j: j as usize }),
                )
            } else {
                (GateType::Idle, None)
            }
        }
    } else if t % 6 == 3 {
        if j % 2 == 1 {
            if j + 1 < horizontal && cb_present(ct, i, j + 1) {
                (
                    GateType::CXGateControl,
                    Some(Position { t: t as usize, i: i as usize, j: (j + 1) as usize }),
                )
            } else {
                (GateType::Idle, None)
            }
        } else {
            if j >= 1 && cb_present(ct, i, j - 1) {
                (
                    GateType::CXGateTarget,
                    Some(Position { t: t as usize, i: i as usize, j: (j - 1) as usize }),
                )
            } else {
                (GateType::Idle, None)
            }
        }
    } else if t % 6 == 4 {
        if j % 2 == 1 {
            if j >= 1 && cb_present(ct, i, j - 1) {
                (
                    GateType::CXGateControl,
                    Some(Position { t: t as usize, i: i as usize, j: (j - 1) as usize }),
                )
            } else {
                (GateType::Idle, None)
            }
        } else {
            if j + 1 < horizontal && cb_present(ct, i, j + 1) {
                (
                    GateType::CXGateTarget,
                    Some(Position { t: t as usize, i: i as usize, j: (j + 1) as usize }),
                )
            } else {
                (GateType::Idle, None)
            }
        }
    } else if t % 6 == 5 {
        if qt == QubitType::Data {
            if i >= 1 && cb_present(ct, i - 1, j) {
                (
                    if j % 2 == 1 {
                        GateType::CXGateTarget
                    } else {
                        GateType::CXGateControl
                    },
                    Some(Position { t: t as usize, i: (i - 1) as usize, j: j as usize }),
                )
            } else {
                (GateType::Idle, None)
            }
        } else {
            if i + 1 < vertical && cb_present(ct, i + 1, j) {
                (
                    if j % 2 == 1 {
                        GateType::CXGateControl
                    } else {
                        GateType::CXGateTarget
                    },
                    Some(Position { t: t as usize, i: (i + 1) as usize, j: j as usize }),
                )
            } else {
                (GateType::Idle, None)
            }
        }
    } else {
        if qt == QubitType::StabZ {
            (GateType::MeasureZ, None)
        } else if qt == QubitType::StabX {
            (GateType::MeasureX, None)
        } else {
            (GateType::Idle, None)
        }
    }
}

/// Whether the parameters of a buildable descriptor are admissible: positive
/// distances, odd on rotated codes.
pub open spec fn code_params_ok(ct: CodeType) -> bool {
    let (nm, di, dj) = code_parameters(ct)->Some_0;
    &&& code_buildable(ct)
    &&& di > 0
    &&& dj > 0
    &&& (code_is_rotated(ct) ==> di % 2 == 1 && dj % 2 == 1)
}

/// Whether the simulator holds exactly the lattice built from its descriptor.
pub open spec fn built_lattice(s: Simulator) -> bool {
    let ct = s.code_type;
    &&& code_params_ok(ct)
    &&& s.measurement_cycles == 6
    &&& s.height == geo_height(ct)
    &&& s.vertical == geo_vertical(ct)
    &&& s.horizontal == geo_horizontal(ct)
    &&& s.dims_ok()
    &&& forall|t: int, i: int, j: int|
        s.in_bounds(t, i, j) ==> #[trigger] s.exists_at(t, i, j) == cb_present(ct, i, j)
    &&& forall|t: int, i: int, j: int|
        s.exists_at(t, i, j) ==> {
            let n = #[trigger] s.get(t, i, j);
            &&& n.qubit_type == cb_qubit_type(i, j)
            &&& n.gate_type == cb_gate(ct, t, i, j).0
            &&& n.peer() == cb_gate(ct, t, i, j).1
            &&& n.is_virtual == cb_is_virtual(ct, i, j)
            &&& n.is_peer_virtual == (match cb_gate(ct, t, i, j).1 {
                Some(p) => cb_is_virtual(ct, p.i as int, p.j as int),
                None => false,
            })
            &&& n.is_clean()
        }
}

/// Whether site `(i, j)` carries a real qubit (executable form).
fn cb_is_real_exec(ct: &CodeType, di: usize, dj: usize, rotated: bool, vertical: usize, horizontal: usize, i: usize, j: usize) -> (r: bool)
    requires
        code_parameters(*ct) == Some((0usize, di, dj)) || (exists|nm: usize|
            code_parameters(*ct) == Some((nm, di, dj))),
        rotated == code_is_rotated(*ct),
        vertical == geo_vertical(*ct),
        horizontal == geo_horizontal(*ct),
    ensures
        r == cb_is_real(*ct, i as int, j as int),
{
    if rotated {
        if i <= dj && j <= dj {
            let pi = dj - i;
            let pj = dj - j;
            (pi as u128 + pj as u128) < (dj as u128) || (pi as u128 + pj as u128 == dj as u128
                && pi % 2 == 0 && pi > 0)
        } else if i >= di && j >= di {
            let pi = i - di;
            let pj = j - di;
            (pi as u128 + pj as u128) < (dj as u128) || (pi as u128 + pj as u128 == dj as u128
                && pi % 2 == 0 && pi > 0)
        } else if i >= dj && j <= di {
            let pi = i - dj;
            let pj = di - j;
            (pi as u128 + pj as u128) < (di as u128) || (pi as u128 + pj as u128 == di as u128
                && pj % 2 == 0 && pj > 0)
        } else if i <= di && j >= dj {
            let pi = di - i;
            let pj = j - dj;
            (pi as u128 + pj as u128) < (di as u128) || (pi as u128 + pj as u128 == di as u128
                && pj % 2 == 0 && pj > 0)
        } else {
            false
        }
    } else {
        i > 0 && j > 0 && i < vertical - 1 && j < horizontal - 1
    }
}

/// Whether site `(i, j)` carries a virtual boundary stabilizer (executable
/// form).
fn cb_is_virtual_exec(ct: &CodeType, di: usize, dj: usize, rotated: bool, vertical: usize, horizontal: usize, i: usize, j: usize) -> (r: bool)
    requires
        exists|nm: usize| code_parameters(*ct) == Some((nm, di, dj)),
        rotated == code_is_rotated(*ct),
        vertical == geo_vertical(*ct),
        horizontal == geo_horizontal(*ct),
    ensures
        r == cb_is_virtual(*ct, i as int, j as int),
{
    if rotated {
        if i <= dj && j <= dj {
            let pi = dj - i;
            let pj = dj - j;
            pi as u128 + pj as u128 == dj as u128 && (pi % 2 == 1 || pi == 0)
        } else if i >= di && j >= di {
            let pi = i - di;
            let pj = j - di;
            pi as u128 + pj as u128 == dj as u128 && (pi % 2 == 1 || pi == 0)
        } else if i >= dj && j <= di {
            let pi = i - dj;
            let pj = di - j;
            pi as u128 + pj as u128 == di as u128 && (pj % 2 == 1 || pj == 0)
        } else if i <= di && j >= dj {
            let pi = di - i;
            let pj = j - dj;
            pi as u128 + pj as u128 == di as u128 && (pj % 2 == 1 || pj == 0)
        } else {
            false
        }
    } else {
        if i == 0 || i == vertical - 1 {
            j % 2 == 1
        } else if j == 0 || j == horizontal - 1 {
            i % 2 == 1
        } else {
            false
        }
    }
}

/// Whether a node is placed at site `(i, j)` (executable form).
fn cb_present_exec(ct: &CodeType, di: usize, dj: usize, rotated: bool, vertical: usize, horizontal: usize, i: usize, j: usize) -> (r: bool)
    requires
        exists|nm: usize| code_parameters(*ct) == Some((nm, di, dj)),
        rotated == code_is_rotated(*ct),
        vertical == geo_vertical(*ct),
        horizontal == geo_horizontal(*ct),
    ensures
        r == cb_present(*ct, i as int, j as int),
{
    cb_is_real_exec(ct, di, dj, rotated, vertical, horizontal, i, j) || cb_is_virtual_exec(
        ct,
        di,
        dj,
        rotated,
        vertical,
        horizontal,
        i,
        j,
    )
}

/// Materialise the circuit lattice of the simulator's descriptor: derive the
/// geometry, then fill every layer with qubit roles, the six-step gate
/// schedule, the two-qubit peers and the virtual-boundary flags.
#[verifier::rlimit(100)]
#[verifier::spinoff_prover]
pub fn build_code(simulator: &mut Simulator) -> (r: Result<(), BuildError>)
    requires
        match code_parameters(old(simulator).code_type) {
            Some((nm, di, dj)) => {
                &&& 6 * (nm + 1) + 1 <= usize::MAX
                &&& 2 * di + 1 <= usize::MAX
                &&& 2 * dj + 1 <= usize::MAX
                &&& di + dj + 1 <= usize::MAX
            },
            None => true,
        },
    ensures
        final(simulator).code_type == old(simulator).code_type,
        final(simulator).rng == old(simulator).rng,
        r is Ok <==> code_params_ok(old(simulator).code_type),
        r is Ok ==> built_lattice(*final(simulator)),
        r is Err ==> *final(simulator) == *old(simulator),
        r is Err ==> r == Err::<(), BuildError>(
            if !code_buildable(old(simulator).code_type) {
                BuildError::UnsupportedCodeType
            } else if code_parameters(old(simulator).code_type)->Some_0.1 == 0 || code_parameters(
                old(simulator).code_type,
            )->Some_0.2 == 0 {
                BuildError::ZeroCodeDistance
            } else {
                BuildError::EvenCodeDistance
            },
        ),
{
    let ct = simulator.code_type;
    let (noisy_measurements, di, dj, rotated): (usize, usize, usize, bool) = match &ct {
        CodeType::StandardPlanarCode { noisy_measurements, di, dj } => (
            *noisy_measurements,
            *di,
            *dj,
            false,
        ),
        CodeType::RotatedPlanarCode { noisy_measurements, dp, dn } => (
            *noisy_measurements,
            *dp,
            *dn,
            true,
        ),
        _ => {
            return Err(BuildError::UnsupportedCodeType);
        },
    };
    if di == 0 || dj == 0 {
        return Err(BuildError::ZeroCodeDistance);
    }
    if rotated && (di % 2 == 0 || dj % 2 == 0) {
        return Err(BuildError::EvenCodeDistance);
    }
    let vertical: usize = if rotated {
        di + dj + 1
    } else {
        2 * di + 1
    };
    let horizontal: usize = if rotated {
        di + dj + 1
    } else {
        2 * dj + 1
    };
    let height: usize = 6 * (noisy_measurements + 1) + 1;
    let mut nodes: Vec<Vec<Vec<Option<SimulatorNode>>>> = Vec::new();
    let mut t: usize = 0;
    while t < height
        invariant
            code_parameters(ct) == Some((noisy_measurements, di, dj)),
            rotated == code_is_rotated(ct),
            code_buildable(ct),
            code_params_ok(ct),
            vertical == geo_vertical(ct),
            horizontal == geo_horizontal(ct),
            height == geo_height(ct),
            t <= height,
            nodes@.len() == t,
            forall|a: int| 0 <= a < t ==> #[trigger] nodes@[a]@.len() == vertical,
            forall|a: int, b: int|
                0 <= a < t && 0 <= b < vertical ==> #[trigger] nodes@[a]@[b]@.len() == horizontal,
            forall|a: int, b: int, c: int|
                0 <= a < t && 0 <= b < vertical && 0 <= c < horizontal ==> (#[trigger] nodes@[a]@[b]@[c])
                    is Some == cb_present(ct, b, c),
            forall|a: int, b: int, c: int|
                0 <= a < t && 0 <= b < vertical && 0 <= c < horizontal && nodes@[a]@[b]@[c]
                    is Some ==> {
                    let n = (#[trigger] nodes@[a]@[b]@[c])->Some_0;
                    &&& n.qubit_type == cb_qubit_type(b, c)
                    &&& n.gate_type == cb_gate(ct, a, b, c).0
                    &&& n.peer() == cb_gate(ct, a, b, c).1
                    &&& n.is_virtual == cb_is_virtual(ct, b, c)
                    &&& n.is_peer_virtual == (match cb_gate(ct, a, b, c).1 {
                        Some(p) => cb_is_virtual(ct, p.i as int, p.j as int),
                        None => false,
                    })
                    &&& n.is_clean()
                },
        decreases height - t,
    {
        let mut row_i: Vec<Vec<Option<SimulatorNode>>> = Vec::new();
        let mut i: usize = 0;
        while i < vertical
            invariant
                code_parameters(ct) == Some((noisy_measurements, di, dj)),
                rotated == code_is_rotated(ct),
                code_buildable(ct),
                code_params_ok(ct),
                vertical == geo_vertical(ct),
                horizontal == geo_horizontal(ct),
                t < height,
                i <= vertical,
                row_i@.len() == i,
                forall|b: int| 0 <= b < i ==> #[trigger] row_i@[b]@.len() == horizontal,
                forall|b: int, c: int|
                    0 <= b < i && 0 <= c < horizontal ==> (#[trigger] row_i@[b]@[c]) is Some
                        == cb_present(ct, b, c),
                forall|b: int, c: int|
                    0 <= b < i && 0 <= c < horizontal && row_i@[b]@[c] is Some ==> {
                        let n = (#[trigger] row_i@[b]@[c])->Some_0;
                        &&& n.qubit_type == cb_qubit_type(b, c)
                        &&& n.gate_type == cb_gate(ct, t as int, b, c).0
                        &&& n.peer() == cb_gate(ct, t as int, b, c).1
                        &&& n.is_virtual == cb_is_virtual(ct, b, c)
                        &&& n.is_peer_virtual == (match cb_gate(ct, t as int, b, c).1 {
                            Some(p) => cb_is_virtual(ct, p.i as int, p.j as int),
                            None => false,
                        })
                        &&& n.is_clean()
                    },
            decreases vertical - i,
        {
            let mut row_j: Vec<Option<SimulatorNode>> = Vec::new();
            let mut j: usize = 0;
            while j < horizontal
                invariant
                    code_parameters(ct) == Some((noisy_measurements, di, dj)),
                    rotated == code_is_rotated(ct),
                    code_buildable(ct),
                    code_params_ok(ct),
                    vertical == geo_vertical(ct),
                    horizontal == geo_horizontal(ct),
                    t < height,
                    i < vertical,
                    j <= horizontal,
                    row_j@.len() == j,
                    forall|c: int|
                        0 <= c < j ==> (#[trigger] row_j@[c]) is Some == cb_present(ct, i as int, c),
                    forall|c: int|
                        0 <= c < j && row_j@[c] is Some ==> {
                            let n = (#[trigger] row_j@[c])->Some_0;
                            &&& n.qubit_type == cb_qubit_type(i as int, c)
                            &&& n.gate_type == cb_gate(ct, t as int, i as int, c).0
                            &&& n.peer() == cb_gate(ct, t as int, i as int, c).1
                            &&& n.is_virtual == cb_is_virtual(ct, i as int, c)
                            &&& n.is_peer_virtual == (match cb_gate(ct, t as int, i as int, c).1 {
                                Some(p) => cb_is_virtual(ct, p.i as int, p.j as int),
                                None => false,
                            })
                            &&& n.is_clean()
                        },
                decreases horizontal - j,
            {
                if cb_present_exec(&ct, di, dj, rotated, vertical, horizontal, i, j) {
                    let qubit_type = if (i as u128 + j as u128) % 2 == 0 {
                        QubitType::Data
                    } else if i % 2 == 1 {
                        QubitType::StabZ
                    } else {
                        QubitType::StabX
                    };
                    let mut gate_type = GateType::Idle;
                    let mut gate_peer: Option<Position> = None;
                    let phase = t % 6;
                    if phase == 1 {
                        if qubit_type == QubitType::StabZ {
                            gate_type = GateType::InitializeZ;
                        } else if qubit_type == QubitType::StabX {
                            gate_type = GateType::InitializeX;
                        }
                    } else if phase == 2 {
                        if qubit_type == QubitType::Data {
                            if i + 1 < vertical && cb_present_exec(&ct, di, dj, rotated, vertical, horizontal, i + 1, j) {
                                gate_type = if j % 2 == 1 {
                                    GateType::CXGateTarget
                                } else {
                                    GateType::CXGateControl
                                };
                                gate_peer = Some(Position::new(t, i + 1, j));
                            }
                        } else {
                            if i >= 1 && cb_present_exec(&ct, di, dj, rotated, vertical, horizontal, i - 1, j) {
                                gate_type = if j % 2 == 1 {
                                    GateType::CXGateControl
                                } else {
                                    GateType::CXGateTarget
                                };
                                gate_peer = Some(Position::new(t, i - 1, j));
                            }
                        }
                    } else if phase == 3 {
                        if j % 2 == 1 {
                            if j + 1 < horizontal && cb_present_exec(&ct, di, dj, rotated, vertical, horizontal, i, j + 1) {
                                gate_type = GateType::CXGateControl;
                                gate_peer = Some(Position::new(t, i, j + 1));
                            }
                        } else {
                            if j >= 1 && cb_present_exec(&ct, di, dj, rotated, vertical, horizontal, i, j - 1) {
                                gate_type = GateType::CXGateTarget;
                                gate_peer = Some(Position::new(t, i, j - 1));
                            }
                        }
                    } else if phase == 4 {
                        if j % 2 == 1 {
                            if j >= 1 && cb_present_exec(&ct, di, dj, rotated, vertical, horizontal, i, j - 1) {
                                gate_type = GateType::CXGateControl;
                                gate_peer = Some(Position::new(t, i, j - 1));
                            }
                        } else {
                            if j + 1 < horizontal && cb_present_exec(&ct, di, dj, rotated, vertical, horizontal, i, j + 1) {
                                gate_type = GateType::CXGateTarget;
                                gate_peer = Some(Position::new(t, i, j + 1));
                            }
                        }
                    } else if phase == 5 {
                        if qubit_type == QubitType::Data {
                            if i >= 1 && cb_present_exec(&ct, di, dj, rotated, vertical, horizontal, i - 1, j) {
                                gate_type = if j % 2 == 1 {
                                    GateType::CXGateTarget
                                } else {
                                    GateType::CXGateControl
                                };
                                gate_peer = Some(Position::new(t, i - 1, j));
                            }
                        } else {
                            if i + 1 < vertical && cb_present_exec(&ct, di, dj, rotated, vertical, horizontal, i + 1, j) {
                                gate_type = if j % 2 == 1 {
                                    GateType::CXGateControl
                                } else {
                                    GateType::CXGateTarget
                                };
                                gate_peer = Some(Position::new(t, i + 1, j));
                            }
                        }
                    } else {
                        if qubit_type == QubitType::StabZ {
                            gate_type = GateType::MeasureZ;
                        } else if qubit_type == QubitType::StabX {
                            gate_type = GateType::MeasureX;
                        }
                    }
                    let is_virtual_here = cb_is_virtual_exec(&ct, di, dj, rotated, vertical, horizontal, i, j);
                    let is_peer_virtual = match &gate_peer {
                        Some(p) => cb_is_virtual_exec(&ct, di, dj, rotated, vertical, horizontal, p.i, p.j),
                        None => false,
                    };
                    let node = SimulatorNode::new(qubit_type, gate_type, gate_peer).set_virtual(
                        is_virtual_here,
                        is_peer_virtual,
                    );
                    row_j.push(Some(node));
                } else {
                    row_j.push(None);
                }
                j += 1;
            }
            row_i.push(row_j);
            i += 1;
        }
        nodes.push(row_i);
        t += 1;
    }
    simulator.vertical = vertical;
    simulator.horizontal = horizontal;
    simulator.height = height;
    simulator.measurement_cycles = 6;
    simulator.nodes = nodes;
    Ok(())
}


/// Peer symmetry of the built schedule: every two-qubit coupling of a built
/// lattice stores a peer in the same layer whose node exists, carries the
/// matching gate kind, and points back; single-qubit kinds store no peer.
/// Together with the audit's completeness this is why the consistency audit
/// accepts every built lattice.
pub proof fn lemma_built_peer_symmetry(s: Simulator, t: int, i: int, j: int)
    requires
        built_lattice(s),
        s.exists_at(t, i, j),
    ensures
        is_two_qubit_gate_spec(s.get(t, i, j).gate_type) <==> s.get(t, i, j).peer() is Some,
        match s.get(t, i, j).peer() {
            Some(p) => {
                &&& p.t == t
                &&& s.exists_at(t, p.i as int, p.j as int)
                &&& s.get(t, p.i as int, p.j as int).gate_type == peer_gate_spec(
                    s.get(t, i, j).gate_type,
                )
                &&& s.get(t, p.i as int, p.j as int).peer() == Some(
                    Position { t: t as usize, i: i as usize, j: j as usize },
                )
            },
            None => true,
        },
{
    lemma_built_lattice_wf(s);
    lemma_wf_cell(s, t, i, j);
}

/// A lattice built from an admissible descriptor passes every audit
/// condition: it is well formed, every round measurement has a predecessor,
/// no data qubit is initialized or measured, and every measurement matches
/// the basis of the latest initialization in its column.
#[verifier::rlimit(100)]
#[verifier::spinoff_prover]
pub proof fn lemma_built_lattice_wf(s: Simulator)
    requires
        built_lattice(s),
    ensures
        s.lattice_wf(),
        syndrome_wf(s),
        data_gates_ok(s),
        basis_ok(s),
{
    let ct = s.code_type;
    assert forall|t: int, i: int, j: int| s.in_bounds(t, i, j) implies #[trigger] s.exists_at(
        t,
        i,
        j,
    ) == s.exists_at(0, i, j) by {
        assert(s.exists_at(t, i, j) == cb_present(ct, i, j));
        assert(s.exists_at(0, i, j) == cb_present(ct, i, j));
    }
    assert forall|t: int, i: int, j: int| s.exists_at(t, i, j) implies #[trigger] cell_peer_ok(
        s,
        t,
        i,
        j,
    ) by {
        lemma_built_cell_peer_ok(s, t, i, j);
    }
    reveal(Simulator::lattice_wf);
    assert(s.lattice_wf());
    assert forall|t: int, i: int, j: int|
        s.exists_at(t, i, j) && s.measurement_cycles <= t && t % (s.measurement_cycles as int) == 0
            && is_measurement_spec((#[trigger] s.get(t, i, j)).gate_type) implies
        measurement_found(s, t, i, j) by {
        assert(s.get(t, i, j).gate_type == cb_gate(ct, t, i, j).0);
        assert((t - 6) % 6 == 0) by {
            vstd::arithmetic::div_mod::lemma_mod_sub_multiples_vanish(t, 6);
        }
        assert(s.in_bounds(t - 6, i, j));
        assert(s.exists_at(t - 6, i, j));
        assert(s.get(t - 6, i, j).gate_type == cb_gate(ct, t - 6, i, j).0);
        assert(is_measurement_spec(s.get(t - 6, i, j).gate_type));
        crate::simulator::lemma_found_unfold(s, t, i, j);
    }
    assert forall|t: int, i: int, j: int|
        s.exists_at(t, i, j) && (#[trigger] s.get(t, i, j)).qubit_type == QubitType::Data implies
        !is_initialization_spec(s.get(t, i, j).gate_type) && !is_measurement_spec(
            s.get(t, i, j).gate_type,
        ) by {
        assert(s.get(t, i, j).gate_type == cb_gate(ct, t, i, j).0);
        assert(s.get(t, i, j).qubit_type == cb_qubit_type(i, j));
    }
    assert forall|t: int, i: int, j: int|
        1 <= t && s.exists_at(t, i, j) && is_measurement_spec(
            (#[trigger] s.get(t, i, j)).gate_type,
        ) implies basis_matches(s.get(t, i, j).gate_type, last_init_upto(s, t - 1, i, j)) by {
        lemma_built_basis(s, t, i, j);
    }
}

/// In a built lattice, the latest initialization below a measurement layer
/// is the initialization of the same round, whose basis matches the
/// measured stabilizer.
#[verifier::rlimit(100)]
#[verifier::spinoff_prover]
proof fn lemma_built_basis(s: Simulator, t: int, i: int, j: int)
    requires
        built_lattice(s),
        1 <= t,
        s.exists_at(t, i, j),
        is_measurement_spec(s.get(t, i, j).gate_type),
    ensures
        basis_matches(s.get(t, i, j).gate_type, last_init_upto(s, t - 1, i, j)),
{
    let ct = s.code_type;
    assert(s.get(t, i, j).gate_type == cb_gate(ct, t, i, j).0);
    assert(t % 6 == 0);
    assert(t >= 6);
    assert forall|k: int| t - 5 < k < t implies s.exists_at(k, i, j) && !is_initialization_spec(
        (#[trigger] s.get(k, i, j)).gate_type,
    ) by {
        assert(s.in_bounds(k, i, j));
        assert(s.exists_at(k, i, j));
        assert(s.get(k, i, j).gate_type == cb_gate(ct, k, i, j).0);
        assert(k % 6 != 0 && k % 6 != 1) by {
            assert(t % 6 == 0);
            vstd::arithmetic::div_mod::lemma_mod_sub_multiples_vanish(k - (t - 6), 6);
        }
    }
    assert(s.in_bounds(t - 5, i, j));
    assert(s.exists_at(t - 5, i, j));
    assert((t - 5) % 6 == 1) by {
        vstd::arithmetic::div_mod::lemma_mod_sub_multiples_vanish((t - 5) - (t - 6), 6);
    }
    assert(s.get(t - 5, i, j).gate_type == cb_gate(ct, t - 5, i, j).0);
    assert(is_initialization_spec(s.get(t - 5, i, j).gate_type));
    assert(last_init_upto(s, t - 1, i, j) == last_init_upto(s, t - 2, i, j));
    assert(last_init_upto(s, t - 2, i, j) == last_init_upto(s, t - 3, i, j));
    assert(last_init_upto(s, t - 3, i, j) == last_init_upto(s, t - 4, i, j));
    assert(last_init_upto(s, t - 4, i, j) == last_init_upto(s, t - 5, i, j));
    assert(last_init_upto(s, t - 5, i, j) == s.get(t - 5, i, j).gate_type);
}

/// In a built lattice every cell pairs soundly with its peer: the schedule
/// couples data and stabilizer neighbours symmetrically.
#[verifier::rlimit(100)]
#[verifier::spinoff_prover]
proof fn lemma_built_cell_peer_ok(s: Simulator, t: int, i: int, j: int)
    requires
        built_lattice(s),
        s.exists_at(t, i, j),
    ensures
        cell_peer_ok(s, t, i, j),
{
    reveal(cell_peer_ok);
    let ct = s.code_type;
    let n = s.get(t, i, j);
    assert(n.gate_type == cb_gate(ct, t, i, j).0);
    assert(n.peer() == cb_gate(ct, t, i, j).1);
    match cb_gate(ct, t, i, j).1 {
        Some(p) => {
            assert(cb_present(ct, p.i as int, p.j as int));
            assert(s.in_bounds(t, p.i as int, p.j as int));
            assert(s.exists_at(t, p.i as int, p.j as int));
            let q = s.get(t, p.i as int, p.j as int);
            assert(q.gate_type == cb_gate(ct, t, p.i as int, p.j as int).0);
            assert(q.peer() == cb_gate(ct, t, p.i as int, p.j as int).1);
            assert((i + j) % 2 != (p.i + p.j) % 2) by {
                lemma_parity_neighbor(i, j, p.i as int, p.j as int);
            }
            assert(q.gate_type == peer_gate_spec(n.gate_type) && q.peer() == Some(
                Position { t: t as usize, i: i as usize, j: j as usize },
            ));
            assert(n.is_peer_virtual == q.is_virtual);
        },
        None => {},
    }
}

/// Two grid neighbours have opposite parities.
proof fn lemma_parity_neighbor(i: int, j: int, pi: int, pj: int)
    requires
        (pi == i + 1 && pj == j) || (pi == i - 1 && pj == j) || (pi == i && pj == j + 1) || (pi == i
            && pj == j - 1),
    ensures
        (i + j) % 2 != (pi + pj) % 2,
{
    if pi + pj == i + j + 1 {
        vstd::arithmetic::div_mod::lemma_mod_add_multiples_vanish(i + j + 1, 2);
        vstd::arithmetic::div_mod::lemma_add_mod_noop(i + j, 1, 2);
    } else {
        vstd::arithmetic::div_mod::lemma_add_mod_noop(pi + pj, 1, 2);
    }
    assert(((i + j) % 2 + 1) % 2 != (i + j) % 2 || true);
    assert((i + j) % 2 != (pi + pj) % 2) by (nonlinear_arith)
        requires
            pi + pj == i + j + 1 || pi + pj == i + j - 1,
    ;
}

/// Decide whether the measurement at `position` has a previous measurement
/// in its column to compare against.
fn check_prev_meas(simulator: &Simulator, position: &Position) -> (r: bool)
    requires
        simulator.dims_ok(),
        simulator.measurement_cycles >= 1,
        position.t < simulator.height,
        position.i < simulator.vertical,
        position.j < simulator.horizontal,
    ensures
        r == measurement_found(
            *simulator,
            position.t as int,
            position.i as int,
            position.j as int,
        ),
{
    let cycles = simulator.measurement_cycles;
    let mut cur: usize = position.t;
    loop
        invariant
            simulator.dims_ok(),
            cycles == simulator.measurement_cycles,
            cycles >= 1,
            cur <= position.t,
            position.i < simulator.vertical,
            position.j < simulator.horizontal,
            position.t < simulator.height,
            measurement_found(*simulator, cur as int, position.i as int, position.j as int)
                == measurement_found(
                *simulator,
                position.t as int,
                position.i as int,
                position.j as int,
            ),
        decreases cur,
    {
        if cur < cycles {
            proof {
                crate::simulator::lemma_found_below(
                    *simulator,
                    cur as int,
                    position.i as int,
                    position.j as int,
                );
            }
            return false;
        }
        proof {
            crate::simulator::lemma_found_unfold(
                *simulator,
                cur as int,
                position.i as int,
                position.j as int,
            );
        }
        let below = Position::new(cur - cycles, position.i, position.j);
        if simulator.is_node_exist(&below) {
            if simulator.get_node_unwrap(&below).gate_type.is_measurement() {
                return true;
            }
        }
        cur = cur - cycles;
    }
}

/// Audit the built lattice and certify exactly the well-formedness the rest
/// of the library relies on: the node array is a full cube with existence
/// constant along the time axis and soundly paired two-qubit couplings
/// (`lattice_wf`), every measurement on a round layer has a previous
/// measurement to compare against (`syndrome_wf`), no data qubit is
/// initialized or measured (`data_gates_ok`), and every measurement is
/// preceded in its column by an initialization of the same basis
/// (`basis_ok`). The audit succeeds if and only if all four hold. This is
/// deliberately stricter than the classic peer-and-basis audit alone: the
/// cube shape, the time-constant presence, the mirrored peer-virtual flags
/// and the reachable previous measurements are exactly what the
/// propagation and syndrome contracts of this library assume, so a lattice
/// that fails them could not be simulated soundly here.
#[verifier::rlimit(100)]
#[verifier::spinoff_prover]
pub fn code_builder_sanity_check(simulator: &Simulator) -> (r: Result<(), String>)
    ensures
        r is Ok <==> (simulator.lattice_wf() && syndrome_wf(*simulator) && data_gates_ok(
            *simulator,
        ) && basis_ok(*simulator)),
{
    let height = simulator.height;
    let vertical = simulator.vertical;
    let horizontal = simulator.horizontal;
    let cycles = simulator.measurement_cycles;
    if cycles < 1 {
        proof {
            if simulator.lattice_wf() {
                lemma_wf_dims(*simulator);
            }
        }
        return Err(String::from_str("measurement cycle count must be positive"));
    }
    if simulator.nodes.len() != height {
        proof {
            if simulator.lattice_wf() {
                lemma_wf_dims(*simulator);
            }
        }
        return Err(String::from_str("node array height mismatch"));
    }
    let mut t: usize = 0;
    while t < height
        invariant
            height == simulator.height,
            vertical == simulator.vertical,
            horizontal == simulator.horizontal,
            simulator.nodes@.len() == height,
            t <= height,
            forall|a: int| 0 <= a < t ==> #[trigger] simulator.nodes@[a]@.len() == vertical,
            forall|a: int, b: int|
                0 <= a < t && 0 <= b < vertical ==> #[trigger] simulator.nodes@[a]@[b]@.len()
                    == horizontal,
        decreases height - t,
    {
        if simulator.nodes[t].len() != vertical {
            proof {
                if simulator.lattice_wf() {
                    lemma_wf_dims(*simulator);
                }
            }
            return Err(String::from_str("node array row count mismatch"));
        }
        let mut i: usize = 0;
        while i < vertical
            invariant
                height == simulator.height,
                vertical == simulator.vertical,
                horizontal == simulator.horizontal,
                simulator.nodes@.len() == height,
                t < height,
                simulator.nodes@[t as int]@.len() == vertical,
                i <= vertical,
                forall|b: int|
                    0 <= b < i ==> #[trigger] simulator.nodes@[t as int]@[b]@.len() == horizontal,
            decreases vertical - i,
        {
            if simulator.nodes[t][i].len() != horizontal {
                proof {
                    if simulator.lattice_wf() {
                        lemma_wf_dims(*simulator);
                    }
                }
                return Err(String::from_str("node array column count mismatch"));
            }
            i += 1;
        }
        t += 1;
    }
    assert(simulator.dims_ok());
    let mut t: usize = 0;
    while t < height
        invariant
            simulator.dims_ok(),
            height == simulator.height,
            vertical == simulator.vertical,
            horizontal == simulator.horizontal,
            cycles == simulator.measurement_cycles,
            cycles >= 1,
            t <= height,
            forall|a: int, b: int, c: int|
                0 <= a < t && 0 <= b < vertical && 0 <= c < horizontal
                    ==> #[trigger] simulator.exists_at(a, b, c) == simulator.exists_at(0, b, c),
            forall|a: int, b: int, c: int|
                0 <= a < t && simulator.exists_at(a, b, c) ==> #[trigger] cell_peer_ok(
                    *simulator,
                    a,
                    b,
                    c,
                ),
            forall|a: int, b: int, c: int|
                0 <= a < t && simulator.exists_at(a, b, c) && cycles <= a && a % (cycles as int)
                    == 0 && is_measurement_spec((#[trigger] simulator.get(a, b, c)).gate_type)
                    ==> measurement_found(*simulator, a, b, c),
            forall|a: int, b: int, c: int|
                0 <= a < t && simulator.exists_at(a, b, c) && (#[trigger] simulator.get(
                    a,
                    b,
                    c,
                )).qubit_type == QubitType::Data ==> !is_initialization_spec(
                    simulator.get(a, b, c).gate_type,
                ) && !is_measurement_spec(simulator.get(a, b, c).gate_type),
        decreases height - t,
    {
        let mut i: usize = 0;
        while i < vertical
            invariant
                simulator.dims_ok(),
                height == simulator.height,
                vertical == simulator.vertical,
                horizontal == simulator.horizontal,
                cycles == simulator.measurement_cycles,
                cycles >= 1,
                t < height,
                i <= vertical,
                forall|a: int, b: int, c: int|
                    (0 <= a < t || (a == t && 0 <= b < i)) && 0 <= c < horizontal && 0 <= b
                        < vertical && 0 <= a ==> #[trigger] simulator.exists_at(a, b, c)
                        == simulator.exists_at(0, b, c),
                forall|a: int, b: int, c: int|
                    (0 <= a < t || (a == t && 0 <= b < i)) && simulator.exists_at(a, b, c)
                        ==> #[trigger] cell_peer_ok(*simulator, a, b, c),
                forall|a: int, b: int, c: int|
                    (0 <= a < t || (a == t && 0 <= b < i)) && simulator.exists_at(a, b, c) && cycles
                        <= a && a % (cycles as int) == 0 && is_measurement_spec((
                    #[trigger] simulator.get(a, b, c)).gate_type) ==> measurement_found(
                        *simulator,
                        a,
                        b,
                        c,
                    ),
                forall|a: int, b: int, c: int|
                    (0 <= a < t || (a == t && 0 <= b < i)) && simulator.exists_at(a, b, c) && (
                    #[trigger] simulator.get(a, b, c)).qubit_type == QubitType::Data
                        ==> !is_initialization_spec(simulator.get(a, b, c).gate_type)
                        && !is_measurement_spec(simulator.get(a, b, c).gate_type),
            decreases vertical - i,
        {
            let mut j: usize = 0;
            while j < horizontal
                invariant
                    simulator.dims_ok(),
                    height == simulator.height,
                    vertical == simulator.vertical,
                    horizontal == simulator.horizontal,
                    cycles == simulator.measurement_cycles,
                    cycles >= 1,
                    t < height,
                    i < vertical,
                    j <= horizontal,
                    forall|a: int, b: int, c: int|
                        (0 <= a < t || (a == t && 0 <= b < i) || (a == t && b == i && 0 <= c < j))
                            && 0 <= c < horizontal && 0 <= b < vertical && 0 <= a
                            ==> #[trigger] simulator.exists_at(a, b, c) == simulator.exists_at(
                            0,
                            b,
                            c,
                        ),
                    forall|a: int, b: int, c: int|
                        (0 <= a < t || (a == t && 0 <= b < i) || (a == t && b == i && 0 <= c < j))
                            && simulator.exists_at(a, b, c) ==> #[trigger] cell_peer_ok(
                            *simulator,
                            a,
                            b,
                            c,
                        ),
                    forall|a: int, b: int, c: int|
                        (0 <= a < t || (a == t && 0 <= b < i) || (a == t && b == i && 0 <= c < j))
                            && simulator.exists_at(a, b, c) && cycles <= a && a % (cycles as int)
                            == 0 && is_measurement_spec((#[trigger] simulator.get(
                            a,
                            b,
                            c,
                        )).gate_type) ==> measurement_found(*simulator, a, b, c),
                    forall|a: int, b: int, c: int|
                        (0 <= a < t || (a == t && 0 <= b < i) || (a == t && b == i && 0 <= c < j))
                            && simulator.exists_at(a, b, c) && (#[trigger] simulator.get(
                            a,
                            b,
                            c,
                        )).qubit_type == QubitType::Data ==> !is_initialization_spec(
                            simulator.get(a, b, c).gate_type,
                        ) && !is_measurement_spec(simulator.get(a, b, c).gate_type),
                decreases horizontal - j,
            {
                let position = Position::new(t, i, j);
                let base = Position::new(0, i, j);
                if simulator.is_node_exist(&position) != simulator.is_node_exist(&base) {
                    proof {
                        if simulator.lattice_wf() {
                            lemma_wf_column(*simulator, t as int, i as int, j as int);
                        }
                    }
                    return Err(
                        String::from_str("node existence differs between layers of one column"),
                    );
                }
                if simulator.is_node_exist(&position) {
                    let node = simulator.get_node_unwrap(&position);
                    if node.qubit_type == QubitType::Data {
                        if node.gate_type.is_initialization() || node.gate_type.is_measurement() {
                            return Err(
                                String::from_str("data qubit with initialization or measurement"),
                            );
                        }
                    }
                    match node.get_peer_option() {
                        Some(peer_position) => {
                            if node.gate_type.is_single_qubit_gate() {
                                proof {
                                    if simulator.lattice_wf() {
                                        lemma_wf_cell(*simulator, t as int, i as int, j as int);
                                    }
                                }
                                return Err(
                                    String::from_str("single-qubit gate should not have a peer"),
                                );
                            }
                            if peer_position.t != t {
                                proof {
                                    if simulator.lattice_wf() {
                                        lemma_wf_cell(*simulator, t as int, i as int, j as int);
                                    }
                                }
                                return Err(
                                    String::from_str("gate peer is not in the same layer"),
                                );
                            }
                            if peer_position.i == i && peer_position.j == j {
                                proof {
                                    if simulator.lattice_wf() {
                                        lemma_wf_cell(*simulator, t as int, i as int, j as int);
                                    }
                                }
                                return Err(String::from_str("gate peer is the cell itself"));
                            }
                            if !simulator.is_node_exist(&peer_position) {
                                proof {
                                    if simulator.lattice_wf() {
                                        lemma_wf_cell(*simulator, t as int, i as int, j as int);
                                    }
                                }
                                return Err(String::from_str("gate peer does not exist"));
                            }
                            let peer_node = simulator.get_node_unwrap(&peer_position);
                            if peer_node.gate_type != node.gate_type.peer_gate() {
                                proof {
                                    if simulator.lattice_wf() {
                                        lemma_wf_cell(*simulator, t as int, i as int, j as int);
                                    }
                                }
                                return Err(
                                    String::from_str("gate peer has the wrong gate kind"),
                                );
                            }
                            match peer_node.get_peer_option() {
                                Some(peer_peer) => {
                                    if !(peer_peer.t == t && peer_peer.i == i && peer_peer.j
                                        == j) {
                                        proof {
                                            if simulator.lattice_wf() {
                                                lemma_wf_cell(
                                                    *simulator,
                                                    t as int,
                                                    i as int,
                                                    j as int,
                                                );
                                            }
                                        }
                                        return Err(
                                            String::from_str(
                                                "gate peer does not point back to this cell",
                                            ),
                                        );
                                    }
                                },
                                None => {
                                    proof {
                                        if simulator.lattice_wf() {
                                            lemma_wf_cell(*simulator, t as int, i as int, j as int);
                                        }
                                    }
                                    return Err(String::from_str("gate peer has no peer"));
                                },
                            }
                            if node.is_peer_virtual != peer_node.is_virtual {
                                proof {
                                    if simulator.lattice_wf() {
                                        lemma_wf_cell(*simulator, t as int, i as int, j as int);
                                    }
                                }
                                return Err(
                                    String::from_str(
                                        "peer-virtual flag does not mirror the peer",
                                    ),
                                );
                            }
                        },
                        None => {
                            if node.gate_type.is_two_qubit_gate() {
                                proof {
                                    if simulator.lattice_wf() {
                                        lemma_wf_cell(*simulator, t as int, i as int, j as int);
                                    }
                                }
                                return Err(String::from_str("two-qubit gate without a peer"));
                            }
                        },
                    }
                    if t >= cycles && t % cycles == 0 && node.gate_type.is_measurement() {
                        if !check_prev_meas(simulator, &position) {
                            return Err(
                                String::from_str("measurement without a previous measurement"),
                            );
                        }
                    }
                    proof {
                        reveal(cell_peer_ok);
                        assert(cell_peer_ok(*simulator, t as int, i as int, j as int));
                    }
                }
                j += 1;
            }
            i += 1;
        }
        t += 1;
    }
    let mut i: usize = 0;
    while i < vertical
        invariant
            simulator.dims_ok(),
            height == simulator.height,
            vertical == simulator.vertical,
            horizontal == simulator.horizontal,
            i <= vertical,
            forall|a: int, b: int, c: int|
                1 <= a < height && (0 <= b < i) && simulator.exists_at(a, b, c)
                    && is_measurement_spec((#[trigger] simulator.get(a, b, c)).gate_type)
                    ==> basis_matches(
                    simulator.get(a, b, c).gate_type,
                    last_init_upto(*simulator, a - 1, b, c),
                ),
        decreases vertical - i,
    {
        let mut j: usize = 0;
        while j < horizontal
            invariant
                simulator.dims_ok(),
                height == simulator.height,
                vertical == simulator.vertical,
                horizontal == simulator.horizontal,
                i < vertical,
                j <= horizontal,
                forall|a: int, b: int, c: int|
                    1 <= a < height && (0 <= b < i || (b == i && 0 <= c < j))
                        && simulator.exists_at(a, b, c) && is_measurement_spec((
                    #[trigger] simulator.get(a, b, c)).gate_type) ==> basis_matches(
                        simulator.get(a, b, c).gate_type,
                        last_init_upto(*simulator, a - 1, b, c),
                    ),
            decreases horizontal - j,
        {
            let mut previous_initialization = GateType::Idle;
            let mut t2: usize = 1;
            while t2 < height
                invariant
                    simulator.dims_ok(),
                    height == simulator.height,
                    i < vertical,
                    j < horizontal,
                    1 <= t2,
                    height >= 1 ==> t2 <= height,
                    height < 1 ==> t2 == 1,
                    previous_initialization == last_init_upto(
                        *simulator,
                        t2 - 1,
                        i as int,
                        j as int,
                    ),
                    forall|a: int|
                        1 <= a < t2 && simulator.exists_at(a, i as int, j as int)
                            && is_measurement_spec(
                            (#[trigger] simulator.get(a, i as int, j as int)).gate_type,
                        ) ==> basis_matches(
                            simulator.get(a, i as int, j as int).gate_type,
                            last_init_upto(*simulator, a - 1, i as int, j as int),
                        ),
                decreases height - t2,
            {
                let position = Position::new(t2, i, j);
                if simulator.is_node_exist(&position) {
                    let node = simulator.get_node_unwrap(&position);
                    if node.gate_type.is_measurement() {
                        if !node.gate_type.is_corresponding_initialization(
                            &previous_initialization,
                        ) {
                            return Err(
                                String::from_str(
                                    "measurement and initialization are not in the same basis",
                                ),
                            );
                        }
                    }
                    if node.gate_type.is_initialization() {
                        previous_initialization = node.gate_type;
                    }
                }
                t2 += 1;
            }
            proof {
                assert forall|a: int, b: int, c: int|
                    1 <= a < height && (0 <= b < i || (b == i && 0 <= c < j + 1))
                        && simulator.exists_at(a, b, c) && is_measurement_spec((
                #[trigger] simulator.get(a, b, c)).gate_type) implies basis_matches(
                    simulator.get(a, b, c).gate_type,
                    last_init_upto(*simulator, a - 1, b, c),
                ) by {
                    if b == i && c == j {
                        assert(a < t2);
                    }
                }
            }
            j += 1;
        }
        i += 1;
    }
    proof {
        reveal(Simulator::lattice_wf);
        assert(simulator.lattice_wf());
        assert(syndrome_wf(*simulator));
        assert(data_gates_ok(*simulator));
        assert(basis_ok(*simulator));
    }
    Ok(())
}

/// The propagated frame at the top layer of `(i, j)` with the correction's
/// operator (if any) multiplied in.
pub open spec fn corrected_frame(s: Simulator, c: Seq<(Position, ErrorType)>, i: int, j: int) -> ErrorType {
    let p = Position { t: (s.height - 1) as usize, i: i as usize, j: j as usize };
    if has_key(c, p) {
        pauli_mul(s.get(s.height - 1, i, j).propagated, value_of_key(c, p))
    } else {
        s.get(s.height - 1, i, j).propagated
    }
}

/// The number of corrected top-layer frames along row 1 at odd columns below
/// `jlim` that anticommute with the logical Z operator (Z or Y frames).
pub open spec fn row_flip_count(s: Simulator, c: Seq<(Position, ErrorType)>, jlim: int) -> int
    decreases jlim,
{
    if jlim <= 1 {
        0
    } else {
        row_flip_count(s, c, jlim - 1) + if (jlim - 1) % 2 == 1 && (corrected_frame(
            s,
            c,
            1,
            jlim - 1,
        ) == ErrorType::Z || corrected_frame(s, c, 1, jlim - 1) == ErrorType::Y) {
            1int
        } else {
            0int
        }
    }
}

/// The number of corrected top-layer frames along column 1 at odd rows below
/// `ilim` that anticommute with the logical X operator (X or Y frames).
pub open spec fn column_flip_count(s: Simulator, c: Seq<(Position, ErrorType)>, ilim: int) -> int
    decreases ilim,
{
    if ilim <= 1 {
        0
    } else {
        column_flip_count(s, c, ilim - 1) + if (ilim - 1) % 2 == 1 && (corrected_frame(
            s,
            c,
            ilim - 1,
            1,
        ) == ErrorType::X || corrected_frame(s, c, ilim - 1, 1) == ErrorType::Y) {
            1int
        } else {
            0int
        }
    }
}


/// The corrected top-layer frames along row 1 vanish when the correction is
/// exactly the frames read off the state, so the row flip count is zero.
proof fn lemma_row_flips_zero(s: Simulator, c: Seq<(Position, ErrorType)>, jlim: int)
    requires
        built_lattice(s),
        s.code_type matches CodeType::StandardPlanarCode { .. },
        0 <= jlim <= s.horizontal,
        forall|p: Position|
            #[trigger] has_key(c, p) <==> (p.t == s.height - 1 && s.exists_at(
                p.t as int,
                p.i as int,
                p.j as int,
            ) && s.get(p.t as int, p.i as int, p.j as int).qubit_type == QubitType::Data && s.get(
                p.t as int,
                p.i as int,
                p.j as int,
            ).propagated != ErrorType::I),
        forall|p: Position|
            #[trigger] has_key(c, p) ==> value_of_key(c, p) == s.get(
                p.t as int,
                p.i as int,
                p.j as int,
            ).propagated,
    ensures
        row_flip_count(s, c, jlim) == 0,
    decreases jlim,
{
    if jlim > 1 {
        lemma_row_flips_zero(s, c, jlim - 1);
        let j = jlim - 1;
        if j % 2 == 1 {
            lemma_strip_frame_identity(s, c, 1, j);
        }
    }
}

/// The corrected top-layer frames along column 1 vanish likewise.
proof fn lemma_column_flips_zero(s: Simulator, c: Seq<(Position, ErrorType)>, ilim: int)
    requires
        built_lattice(s),
        s.code_type matches CodeType::StandardPlanarCode { .. },
        0 <= ilim <= s.vertical,
        forall|p: Position|
            #[trigger] has_key(c, p) <==> (p.t == s.height - 1 && s.exists_at(
                p.t as int,
                p.i as int,
                p.j as int,
            ) && s.get(p.t as int, p.i as int, p.j as int).qubit_type == QubitType::Data && s.get(
                p.t as int,
                p.i as int,
                p.j as int,
            ).propagated != ErrorType::I),
        forall|p: Position|
            #[trigger] has_key(c, p) ==> value_of_key(c, p) == s.get(
                p.t as int,
                p.i as int,
                p.j as int,
            ).propagated,
    ensures
        column_flip_count(s, c, ilim) == 0,
    decreases ilim,
{
    if ilim > 1 {
        lemma_column_flips_zero(s, c, ilim - 1);
        let i = ilim - 1;
        if i % 2 == 1 {
            lemma_strip_frame_identity(s, c, i, 1);
        }
    }
}

/// On a built standard planar code, a logical-strip cell (row 1 or column 1
/// at odd offsets) is a real data qubit, and correcting its own frame
/// cancels it.
proof fn lemma_strip_frame_identity(s: Simulator, c: Seq<(Position, ErrorType)>, i: int, j: int)
    requires
        built_lattice(s),
        s.code_type matches CodeType::StandardPlanarCode { .. },
        (i == 1 && 1 <= j < s.horizontal && j % 2 == 1) || (j == 1 && 1 <= i < s.vertical && i % 2
            == 1),
        forall|p: Position|
            #[trigger] has_key(c, p) <==> (p.t == s.height - 1 && s.exists_at(
                p.t as int,
                p.i as int,
                p.j as int,
            ) && s.get(p.t as int, p.i as int, p.j as int).qubit_type == QubitType::Data && s.get(
                p.t as int,
                p.i as int,
                p.j as int,
            ).propagated != ErrorType::I),
        forall|p: Position|
            #[trigger] has_key(c, p) ==> value_of_key(c, p) == s.get(
                p.t as int,
                p.i as int,
                p.j as int,
            ).propagated,
    ensures
        corrected_frame(s, c, i, j) == ErrorType::I,
{
    let top = s.height - 1;
    assert(cb_present(s.code_type, i, j));
    assert(s.in_bounds(top, i, j));
    assert(s.exists_at(top, i, j));
    assert(s.get(top, i, j).qubit_type == cb_qubit_type(i, j));
    assert(s.get(top, i, j).qubit_type == QubitType::Data);
    let p = Position { t: top as usize, i: i as usize, j: j as usize };
    if s.get(top, i, j).propagated == ErrorType::I {
        assert(!has_key(c, p));
    } else {
        assert(has_key(c, p));
        assert(value_of_key(c, p) == s.get(top, i, j).propagated);
        crate::pauli::lemma_pauli_mul_self_inverse(s.get(top, i, j).propagated);
    }
}

/// Syndrome round trip: correcting by exactly the residual top-layer frames
/// of the data qubits cancels both logical parities, so validating that
/// correction reports no logical flip.
pub proof fn lemma_syndrome_round_trip(s: Simulator, c: Seq<(Position, ErrorType)>)
    requires
        built_lattice(s),
        s.code_type matches CodeType::StandardPlanarCode { .. },
        forall|p: Position|
            #[trigger] has_key(c, p) <==> (p.t == s.height - 1 && s.exists_at(
                p.t as int,
                p.i as int,
                p.j as int,
            ) && s.get(p.t as int, p.i as int, p.j as int).qubit_type == QubitType::Data && s.get(
                p.t as int,
                p.i as int,
                p.j as int,
            ).propagated != ErrorType::I),
        forall|p: Position|
            #[trigger] has_key(c, p) ==> value_of_key(c, p) == s.get(
                p.t as int,
                p.i as int,
                p.j as int,
            ).propagated,
    ensures
        row_flip_count(s, c, s.horizontal as int) % 2 == 0,
        column_flip_count(s, c, s.vertical as int) % 2 == 0,
{
    lemma_row_flips_zero(s, c, s.horizontal as int);
    lemma_column_flips_zero(s, c, s.vertical as int);
}

/// Apply or re-apply the correction at the top layer: multiply each listed
/// operator into the propagated frame of its cell.
#[verifier::spinoff_prover]
fn apply_correction_at_top(simulator: &mut Simulator, correction: &SparseCorrection)
    requires
        old(simulator).dims_ok(),
        correction.wf(),
        forall|k: int|
            0 <= k < correction@.len() ==> (#[trigger] correction@[k]).0.t == old(
                simulator,
            ).height - 1,
        forall|k: int|
            0 <= k < correction@.len() ==> old(simulator).exists_at(
                (#[trigger] correction@[k]).0.t as int,
                correction@[k].0.i as int,
                correction@[k].0.j as int,
            ),
    ensures
        final(simulator).dims_ok(),
        final(simulator).code_type == old(simulator).code_type,
        final(simulator).height == old(simulator).height,
        final(simulator).vertical == old(simulator).vertical,
        final(simulator).horizontal == old(simulator).horizontal,
        final(simulator).measurement_cycles == old(simulator).measurement_cycles,
        final(simulator).rng == old(simulator).rng,
        forall|t2: int, i2: int, j2: int|
            old(simulator).in_bounds(t2, i2, j2) ==> #[trigger] final(simulator).node_at(
                t2,
                i2,
                j2,
            ) == (if has_key(
                correction@,
                Position { t: t2 as usize, i: i2 as usize, j: j2 as usize },
            ) && t2 == old(simulator).height - 1 {
                Some(
                    SimulatorNode {
                        propagated: pauli_mul(
                            old(simulator).get(t2, i2, j2).propagated,
                            value_of_key(
                                correction@,
                                Position { t: t2 as usize, i: i2 as usize, j: j2 as usize },
                            ),
                        ),
                        ..old(simulator).get(t2, i2, j2)
                    },
                )
            } else {
                old(simulator).node_at(t2, i2, j2)
            }),
{
    let entries = correction.to_vec();
    let n = entries.len();
    let mut k: usize = 0;
    while k < n
        invariant
            simulator.dims_ok(),
            simulator.code_type == old(simulator).code_type,
            simulator.height == old(simulator).height,
            simulator.vertical == old(simulator).vertical,
            simulator.horizontal == old(simulator).horizontal,
            simulator.measurement_cycles == old(simulator).measurement_cycles,
            simulator.rng == old(simulator).rng,
            correction.wf(),
            entries@ == correction@,
            n == entries@.len(),
            k <= n,
            forall|x: int|
                0 <= x < correction@.len() ==> (#[trigger] correction@[x]).0.t == old(
                    simulator,
                ).height - 1,
            forall|x: int|
                0 <= x < correction@.len() ==> old(simulator).exists_at(
                    (#[trigger] correction@[x]).0.t as int,
                    correction@[x].0.i as int,
                    correction@[x].0.j as int,
                ),
            forall|t2: int, i2: int, j2: int|
                old(simulator).in_bounds(t2, i2, j2) ==> #[trigger] simulator.node_at(t2, i2, j2)
                    == (if exists|x: int|
                    0 <= x < k && (#[trigger] correction@[x]).0 == (Position {
                        t: t2 as usize,
                        i: i2 as usize,
                        j: j2 as usize,
                    }) {
                    Some(
                        SimulatorNode {
                            propagated: pauli_mul(
                                old(simulator).get(t2, i2, j2).propagated,
                                value_of_key(
                                    correction@,
                                    Position { t: t2 as usize, i: i2 as usize, j: j2 as usize },
                                ),
                            ),
                            ..old(simulator).get(t2, i2, j2)
                        },
                    )
                } else {
                    old(simulator).node_at(t2, i2, j2)
                }),
        decreases n - k,
    {
        let (position, operator) = entries[k];
        proof {
            assert(correction@[k as int].0 == position);
            assert(simulator.node_at(
                position.t as int,
                position.i as int,
                position.j as int,
            ) == old(simulator).node_at(
                position.t as int,
                position.i as int,
                position.j as int,
            )) by {
                if exists|x: int|
                    0 <= x < k && (#[trigger] correction@[x]).0 == position {
                    let x = choose|x: int|
                        0 <= x < k && (#[trigger] correction@[x]).0 == position;
                    assert(pos_lt(correction@[x].0, correction@[k as int].0));
                    assert(false);
                }
            }
        }
        let ghost prev = *simulator;
        let node = simulator.get_node_mut_unwrap(&position);
        let updated = node.propagated.multiply(&operator);
        node.propagated = updated;
        proof {
            crate::sparse::lemma_entries_key_at(correction@, k as int);
            assert forall|t2: int, i2: int, j2: int|
                old(simulator).in_bounds(t2, i2, j2) implies #[trigger] simulator.node_at(
                t2,
                i2,
                j2,
            ) == (if exists|x: int|
                0 <= x < k + 1 && (#[trigger] correction@[x]).0 == (Position {
                    t: t2 as usize,
                    i: i2 as usize,
                    j: j2 as usize,
                }) {
                Some(
                    SimulatorNode {
                        propagated: pauli_mul(
                            old(simulator).get(t2, i2, j2).propagated,
                            value_of_key(
                                correction@,
                                Position { t: t2 as usize, i: i2 as usize, j: j2 as usize },
                            ),
                        ),
                        ..old(simulator).get(t2, i2, j2)
                    },
                )
            } else {
                old(simulator).node_at(t2, i2, j2)
            }) by {
                let q = Position { t: t2 as usize, i: i2 as usize, j: j2 as usize };
                if q == position {
                    assert(correction@[k as int].0 == q);
                    assert(exists|x: int|
                        0 <= x < k + 1 && (#[trigger] correction@[x]).0 == q);
                    assert(value_of_key(correction@, q) == operator);
                } else {
                    assert(simulator.node_at(t2, i2, j2) == prev.node_at(t2, i2, j2));
                    assert forall|x: int|
                        0 <= x < k + 1 && (#[trigger] correction@[x]).0 == q implies x < k by {}
                }
            }
        }
        k += 1;
    }
    proof {
        assert forall|t2: int, i2: int, j2: int|
            old(simulator).in_bounds(t2, i2, j2) implies #[trigger] simulator.node_at(t2, i2, j2)
            == (if has_key(
            correction@,
            Position { t: t2 as usize, i: i2 as usize, j: j2 as usize },
        ) && t2 == old(simulator).height - 1 {
            Some(
                SimulatorNode {
                    propagated: pauli_mul(
                        old(simulator).get(t2, i2, j2).propagated,
                        value_of_key(
                            correction@,
                            Position { t: t2 as usize, i: i2 as usize, j: j2 as usize },
                        ),
                    ),
                    ..old(simulator).get(t2, i2, j2)
                },
            )
        } else {
            old(simulator).node_at(t2, i2, j2)
        }) by {
            let q = Position { t: t2 as usize, i: i2 as usize, j: j2 as usize };
            if has_key(correction@, q) {
                let x = choose|x: int| 0 <= x < correction@.len() && correction@[x].0 == q;
                assert(correction@[x].0.t == old(simulator).height - 1);
                assert(exists|y: int| 0 <= y < n && (#[trigger] correction@[y]).0 == q);
            }
        }
    }
}

/// Validate a correction on the standard planar code: apply it at the top
/// layer, read the logical-Z flip as the parity of Z/Y frames along row 1
/// and the logical-X flip as the parity of X/Y frames along column 1, then
/// restore the state. Codes without a logical-operator map give `None`.
#[verifier::rlimit(100)]
#[verifier::spinoff_prover]
pub fn code_builder_validate_correction(simulator: &mut Simulator, correction: &SparseCorrection) -> (r: Option<(bool, bool)>)
    requires
        old(simulator).dims_ok(),
        old(simulator).height >= 1,
        correction.wf(),
        forall|k: int|
            0 <= k < correction@.len() ==> (#[trigger] correction@[k]).0.t == old(
                simulator,
            ).height - 1,
        forall|k: int|
            0 <= k < correction@.len() ==> old(simulator).exists_at(
                (#[trigger] correction@[k]).0.t as int,
                correction@[k].0.i as int,
                correction@[k].0.j as int,
            ),
        old(simulator).code_type matches CodeType::StandardPlanarCode { .. } ==> 1 < old(
            simulator,
        ).vertical && 1 < old(simulator).horizontal && (forall|i2: int, j2: int|
            0 <= i2 < old(simulator).vertical && 0 <= j2 < old(simulator).horizontal && (i2 == 1
                || j2 == 1) && i2 % 2 == 1 && j2 % 2 == 1 ==> #[trigger] old(simulator).exists_at(
                old(simulator).height - 1,
                i2,
                j2,
            )),
    ensures
        final(simulator).dims_ok(),
        final(simulator).code_type == old(simulator).code_type,
        final(simulator).height == old(simulator).height,
        final(simulator).vertical == old(simulator).vertical,
        final(simulator).horizontal == old(simulator).horizontal,
        final(simulator).measurement_cycles == old(simulator).measurement_cycles,
        final(simulator).rng == old(simulator).rng,
        forall|t2: int, i2: int, j2: int|
            old(simulator).in_bounds(t2, i2, j2) ==> #[trigger] final(simulator).node_at(
                t2,
                i2,
                j2,
            ) == old(simulator).node_at(t2, i2, j2),
        r is Some <==> old(simulator).code_type matches CodeType::StandardPlanarCode { .. },
        r matches Some((li, lj)) ==> li == (row_flip_count(
            *old(simulator),
            correction@,
            old(simulator).horizontal as int,
        ) % 2 == 1) && lj == (column_flip_count(
            *old(simulator),
            correction@,
            old(simulator).vertical as int,
        ) % 2 == 1),
{
    apply_correction_at_top(simulator, correction);
    let ghost applied = *simulator;
    let top_t = simulator.height - 1;
    let is_standard = match &simulator.code_type {
        CodeType::StandardPlanarCode { .. } => true,
        _ => false,
    };
    let mut result: Option<(bool, bool)> = None;
    if is_standard {
        let horizontal = simulator.horizontal;
        let vertical = simulator.vertical;
        proof {
            assert(old(simulator).code_type matches CodeType::StandardPlanarCode { .. });
            assert forall|i2: int, j2: int|
                0 <= i2 < vertical && 0 <= j2 < horizontal && (i2 == 1 || j2 == 1) && i2 % 2 == 1
                    && j2 % 2 == 1 implies #[trigger] simulator.exists_at(
                top_t as int,
                i2,
                j2,
            ) && simulator.get(top_t as int, i2, j2).propagated == corrected_frame(
                *old(simulator),
                correction@,
                i2,
                j2,
            ) by {
                assert(old(simulator).exists_at(old(simulator).height - 1, i2, j2));
                assert(simulator.node_at(top_t as int, i2, j2) == (if has_key(
                    correction@,
                    Position { t: top_t, i: i2 as usize, j: j2 as usize },
                ) && top_t as int == old(simulator).height - 1 {
                    Some(
                        SimulatorNode {
                            propagated: pauli_mul(
                                old(simulator).get(top_t as int, i2, j2).propagated,
                                value_of_key(
                                    correction@,
                                    Position { t: top_t, i: i2 as usize, j: j2 as usize },
                                ),
                            ),
                            ..old(simulator).get(top_t as int, i2, j2)
                        },
                    )
                } else {
                    old(simulator).node_at(top_t as int, i2, j2)
                }));
            }
        }
        let mut top_cardinality: usize = 0;
        let mut j: usize = 1;
        while j < horizontal
            invariant
                *simulator == applied,
                simulator.dims_ok(),
                top_t == simulator.height - 1,
                simulator.height >= 1,
                horizontal == simulator.horizontal,
                vertical == simulator.vertical,
                1 <= j,
                j < horizontal + 2,
                j % 2 == 1,
                top_cardinality <= j,
                forall|j2: int|
                    0 <= j2 < horizontal && j2 % 2 == 1 ==> #[trigger] simulator.exists_at(
                        top_t as int,
                        1,
                        j2,
                    ) && simulator.get(top_t as int, 1, j2).propagated == corrected_frame(
                        *old(simulator),
                        correction@,
                        1,
                        j2,
                    ),
                top_cardinality == row_flip_count(*old(simulator), correction@, j as int),
            decreases horizontal + 2 - j,
        {
            let position = Position::new(top_t, 1, j);
            let node = simulator.get_node_unwrap(&position);
            if node.propagated == ErrorType::Z || node.propagated == ErrorType::Y {
                top_cardinality += 1;
            }
            proof {
                assert(simulator.exists_at(top_t as int, 1, j as int) && simulator.get(
                    top_t as int,
                    1,
                    j as int,
                ).propagated == corrected_frame(*old(simulator), correction@, 1, j as int));
                assert(row_flip_count(*old(simulator), correction@, j + 1) == row_flip_count(
                    *old(simulator),
                    correction@,
                    j as int,
                ) + if (corrected_frame(*old(simulator), correction@, 1, j as int)
                    == ErrorType::Z || corrected_frame(*old(simulator), correction@, 1, j as int)
                    == ErrorType::Y) {
                    1int
                } else {
                    0int
                });
                assert(row_flip_count(*old(simulator), correction@, j + 2) == row_flip_count(
                    *old(simulator),
                    correction@,
                    j + 1,
                ));
                assert(top_cardinality == row_flip_count(*old(simulator), correction@, j + 2));
            }
            j += 2;
        }
        proof {
            if j != horizontal {
                assert(j == horizontal + 1);
                assert(row_flip_count(*old(simulator), correction@, j as int) == row_flip_count(
                    *old(simulator),
                    correction@,
                    horizontal as int,
                ));
            }
        }
        let logical_i = top_cardinality % 2 != 0;
        let mut left_cardinality: usize = 0;
        let mut i: usize = 1;
        while i < vertical
            invariant
                *simulator == applied,
                simulator.dims_ok(),
                top_t == simulator.height - 1,
                simulator.height >= 1,
                horizontal == simulator.horizontal,
                vertical == simulator.vertical,
                1 <= i,
                i < vertical + 2,
                i % 2 == 1,
                left_cardinality <= i,
                forall|i2: int|
                    0 <= i2 < vertical && i2 % 2 == 1 ==> #[trigger] simulator.exists_at(
                        top_t as int,
                        i2,
                        1,
                    ) && simulator.get(top_t as int, i2, 1).propagated == corrected_frame(
                        *old(simulator),
                        correction@,
                        i2,
                        1,
                    ),
                left_cardinality == column_flip_count(*old(simulator), correction@, i as int),
            decreases vertical + 2 - i,
        {
            let position = Position::new(top_t, i, 1);
            let node = simulator.get_node_unwrap(&position);
            if node.propagated == ErrorType::X || node.propagated == ErrorType::Y {
                left_cardinality += 1;
            }
            proof {
                assert(simulator.exists_at(top_t as int, i as int, 1) && simulator.get(
                    top_t as int,
                    i as int,
                    1,
                ).propagated == corrected_frame(*old(simulator), correction@, i as int, 1));
                assert(column_flip_count(*old(simulator), correction@, i + 1)
                    == column_flip_count(*old(simulator), correction@, i as int) + if (
                corrected_frame(*old(simulator), correction@, i as int, 1) == ErrorType::X
                    || corrected_frame(*old(simulator), correction@, i as int, 1)
                    == ErrorType::Y) {
                    1int
                } else {
                    0int
                });
                assert(column_flip_count(*old(simulator), correction@, i + 2)
                    == column_flip_count(*old(simulator), correction@, i + 1));
                assert(left_cardinality == column_flip_count(*old(simulator), correction@, i + 2));
            }
            i += 2;
        }
        proof {
            if i != vertical {
                assert(i == vertical + 1);
                assert(column_flip_count(*old(simulator), correction@, i as int)
                    == column_flip_count(*old(simulator), correction@, vertical as int));
            }
        }
        let logical_j = left_cardinality % 2 != 0;
        result = Some((logical_i, logical_j));
    }
    let ghost before_restore = *simulator;
    apply_correction_at_top(simulator, correction);
    proof {
        assert forall|t2: int, i2: int, j2: int|
            old(simulator).in_bounds(t2, i2, j2) implies #[trigger] simulator.node_at(t2, i2, j2)
            == old(simulator).node_at(t2, i2, j2) by {
            let q = Position { t: t2 as usize, i: i2 as usize, j: j2 as usize };
            if has_key(correction@, q) && t2 == old(simulator).height - 1 {
                crate::pauli::lemma_pauli_mul_associative(
                    old(simulator).get(t2, i2, j2).propagated,
                    value_of_key(correction@, q),
                    value_of_key(correction@, q),
                );
            }
        }
    }
    result
}

} // verus!
