//! Named noise-model builders: populate a noise model for a handful of
//! physics scenarios from the overall rate `p`, the bias `eta`, and the
//! erasure rate `pe`, all as fixed-point rates over `PROB_ONE`. Each builder
//! states, cell by cell, which record every lattice site ends with, and
//! succeeds exactly when the requested rates form valid distributions.

use vstd::prelude::*;

use crate::noise::CorrelatedErasureErrorRates;
use crate::noise::CorrelatedPauliErrorRates;
use crate::noise::NoiseModel;
use crate::noise::NoiseModelNode;
use crate::noise::PauliErrorRates;
use crate::noise::correlated_pauli_total;
use crate::pauli::GateType;
use crate::pauli::QubitType;
use crate::pauli::is_two_qubit_gate_spec;
use crate::position::Position;
use crate::rng::PROB_ONE;
use crate::simulator::Simulator;
use crate::simulator::SimulatorNode;
use crate::simulator::lemma_wf_cell;
use crate::simulator::lemma_wf_dims;
use crate::simulator::noise_model_ok;
use crate::simulator::syndrome_wf;
use crate::simulator::measurement_found;
use crate::simulator::lemma_wf_column;
use crate::pauli::is_measurement_spec;
use crate::code_builder::CodeType;

verus! {

/// The named noise scenarios a model can be built for.
#[derive(Debug, Clone, Copy, PartialEq, Eq, Structural)]
pub enum ErrorModelBuilder {
    /// Data-qubit Pauli errors at every cycle start and a pure measurement
    /// error on each ancilla just before its measurement.
    Phenomenological,
    /// Tailored code with Bell-state initialization, phenomenological noise.
    TailoredScBellInitPhenomenological,
    /// Tailored code with Bell-state initialization, circuit-level noise.
    TailoredScBellInitCircuit,
    /// Biased noise with bias-preserving CX gates.
    GenericBiasedWithBiasedCX,
    /// Biased noise with standard CX gates.
    GenericBiasedWithStandardCX,
    /// Erasures only, on data qubits at cycle start and ancillas before
    /// measurement.
    ErasureOnlyPhenomenological,
    /// Depolarising errors on the wires of every two-qubit coupling.
    OnlyGateErrorCircuitLevel,
}

/// Why a noise model could not be built.
#[derive(Debug, Clone, Copy, PartialEq, Eq, Structural)]
pub enum NoiseConfigError {
    /// A configuration key was given that this scenario does not read.
    UnknownConfigKey,
    /// A rate fell outside `[0, PROB_ONE]`, or rates summed past one.
    RateOutOfRange,
    /// The scenario is not available for this code.
    UnsupportedScenario,
    /// The bias ratio is malformed or not the one this scenario supports.
    BadBias,
    /// A modifier document does not match the lattice it is applied to.
    LatticeMismatch,
}

/// The configuration keys a scenario may read; a key the scenario does not
/// read must be absent.
#[derive(Debug, Clone, Copy, PartialEq, Eq, Structural)]
pub struct NoiseBuilderConfig {
    pub measurement_error_rate: Option<u64>,
    pub initialization_error_rate: Option<u64>,
    pub use_correlated_erasure: Option<bool>,
    pub use_correlated_pauli: Option<bool>,
    pub before_pauli_bug_fix: Option<bool>,
}

impl NoiseBuilderConfig {
    /// A configuration with no keys set.
    pub fn new() -> (r: Self)
        ensures
            r == (NoiseBuilderConfig {
                measurement_error_rate: None::<u64>,
                initialization_error_rate: None::<u64>,
                use_correlated_erasure: None::<bool>,
                use_correlated_pauli: None::<bool>,
                before_pauli_bug_fix: None::<bool>,
            }),
    {
        NoiseBuilderConfig {
            measurement_error_rate: None,
            initialization_error_rate: None,
            use_correlated_erasure: None,
            use_correlated_pauli: None,
            before_pauli_bug_fix: None,
        }
    }
}

/// The noise bias `eta` as an exact ratio `num / den`.
#[derive(Debug, Clone, Copy, PartialEq, Eq, Structural)]
pub struct BiasEta {
    pub num: u64,
    pub den: u64,
}

/// `a * b / c` computed exactly in 128 bits; `None` when the quotient does
/// not fit in 64 bits.
fn mul_div_u64(a: u64, b: u64, c: u64) -> (r: Option<u64>)
    requires
        c > 0,
    ensures
        match r {
            Some(v) => v == (a as int) * (b as int) / (c as int),
            None => (a as int) * (b as int) / (c as int) > u64::MAX,
        },
{
    proof {
        vstd::arithmetic::mul::lemma_mul_upper_bound(
            a as int,
            u64::MAX as int,
            b as int,
            u64::MAX as int,
        );
    }
    let prod: u128 = (a as u128) * (b as u128);
    let q: u128 = prod / (c as u128);
    if q > u64::MAX as u128 {
        None
    } else {
        Some(q as u64)
    }
}

/// A rate with zero replaced by the smallest positive rate, applied when
/// erasures are in play so that downstream decoders see no impossible Pauli.
pub open spec fn floored(v: int, pe: int) -> int {
    if pe > 0 && v == 0 {
        1
    } else {
        v
    }
}

/// The X marginal of composing two independent Pauli channels: the second
/// channel's operator multiplies the first's, so X results from I·X, X·I,
/// Y·Z and Z·Y (each product over `PROB_ONE`, truncated).
pub open spec fn combine_x(x1: int, y1: int, z1: int, x2: int, y2: int, z2: int) -> int {
    let i1 = PROB_ONE - x1 - y1 - z1;
    let i2 = PROB_ONE - x2 - y2 - z2;
    (i1 * x2 + x1 * i2 + y1 * z2 + z1 * y2) / (PROB_ONE as int)
}

/// The Y marginal of composing two independent Pauli channels.
pub open spec fn combine_y(x1: int, y1: int, z1: int, x2: int, y2: int, z2: int) -> int {
    let i1 = PROB_ONE - x1 - y1 - z1;
    let i2 = PROB_ONE - x2 - y2 - z2;
    (i1 * y2 + y1 * i2 + x1 * z2 + z1 * x2) / (PROB_ONE as int)
}

/// The Z marginal of composing two independent Pauli channels.
pub open spec fn combine_z(x1: int, y1: int, z1: int, x2: int, y2: int, z2: int) -> int {
    let i1 = PROB_ONE - x1 - y1 - z1;
    let i2 = PROB_ONE - x2 - y2 - z2;
    (i1 * z2 + z1 * i2 + x1 * y2 + y1 * x2) / (PROB_ONE as int)
}

/// Compose two independent Pauli channels given by their marginals: the
/// probability of each resulting operator sums the products of the operator
/// pairs that multiply to it.
fn combine_probability(a: &PauliErrorRates, b: &PauliErrorRates) -> (r: PauliErrorRates)
    requires
        a.wf(),
        b.wf(),
    ensures
        r == combined_rates(*a, *b),
        r.wf(),
{
    let i1: u128 = (PROB_ONE - a.error_rate_X - a.error_rate_Y - a.error_rate_Z) as u128;
    let i2: u128 = (PROB_ONE - b.error_rate_X - b.error_rate_Y - b.error_rate_Z) as u128;
    let x1: u128 = a.error_rate_X as u128;
    let y1: u128 = a.error_rate_Y as u128;
    let z1: u128 = a.error_rate_Z as u128;
    let x2: u128 = b.error_rate_X as u128;
    let y2: u128 = b.error_rate_Y as u128;
    let z2: u128 = b.error_rate_Z as u128;
    let one: u128 = PROB_ONE as u128;
    proof {
        lemma_combine_bounded(
            x1 as int,
            y1 as int,
            z1 as int,
            x2 as int,
            y2 as int,
            z2 as int,
        );
    }
    let x: u128 = (i1 * x2 + x1 * i2 + y1 * z2 + z1 * y2) / one;
    let y: u128 = (i1 * y2 + y1 * i2 + x1 * z2 + z1 * x2) / one;
    let z: u128 = (i1 * z2 + z1 * i2 + x1 * y2 + y1 * x2) / one;
    PauliErrorRates { error_rate_X: x as u64, error_rate_Y: y as u64, error_rate_Z: z as u64 }
}

/// The composition of two Pauli channels as a marginal record.
pub open spec fn combined_rates(a: PauliErrorRates, b: PauliErrorRates) -> PauliErrorRates {
    PauliErrorRates {
        error_rate_X: combine_x(
            a.error_rate_X as int,
            a.error_rate_Y as int,
            a.error_rate_Z as int,
            b.error_rate_X as int,
            b.error_rate_Y as int,
            b.error_rate_Z as int,
        ) as u64,
        error_rate_Y: combine_y(
            a.error_rate_X as int,
            a.error_rate_Y as int,
            a.error_rate_Z as int,
            b.error_rate_X as int,
            b.error_rate_Y as int,
            b.error_rate_Z as int,
        ) as u64,
        error_rate_Z: combine_z(
            a.error_rate_X as int,
            a.error_rate_Y as int,
            a.error_rate_Z as int,
            b.error_rate_X as int,
            b.error_rate_Y as int,
            b.error_rate_Z as int,
        ) as u64,
    }
}

/// The three composed marginals of two sub-one Pauli channels stay within
/// bounds, and their sum stays below one.
#[verifier::spinoff_prover]
proof fn lemma_combine_bounded(x1: int, y1: int, z1: int, x2: int, y2: int, z2: int)
    requires
        0 <= x1,
        0 <= y1,
        0 <= z1,
        0 <= x2,
        0 <= y2,
        0 <= z2,
        x1 + y1 + z1 <= PROB_ONE,
        x2 + y2 + z2 <= PROB_ONE,
    ensures
        0 <= combine_x(x1, y1, z1, x2, y2, z2),
        0 <= combine_y(x1, y1, z1, x2, y2, z2),
        0 <= combine_z(x1, y1, z1, x2, y2, z2),
        combine_x(x1, y1, z1, x2, y2, z2) <= PROB_ONE,
        combine_y(x1, y1, z1, x2, y2, z2) <= PROB_ONE,
        combine_z(x1, y1, z1, x2, y2, z2) <= PROB_ONE,
        combine_x(x1, y1, z1, x2, y2, z2) + combine_y(x1, y1, z1, x2, y2, z2) + combine_z(
            x1,
            y1,
            z1,
            x2,
            y2,
            z2,
        ) <= PROB_ONE,
{
    let i1 = PROB_ONE - x1 - y1 - z1;
    let i2 = PROB_ONE - x2 - y2 - z2;
    let p = PROB_ONE as int;
    let sx = i1 * x2 + x1 * i2 + y1 * z2 + z1 * y2;
    let sy = i1 * y2 + y1 * i2 + x1 * z2 + z1 * x2;
    let sz = i1 * z2 + z1 * i2 + x1 * y2 + y1 * x2;
    assert(sx >= 0) by (nonlinear_arith)
        requires
            0 <= x1 && 0 <= y1 && 0 <= z1 && 0 <= x2 && 0 <= y2 && 0 <= z2 && 0 <= i1 && 0 <= i2
                && sx == i1 * x2 + x1 * i2 + y1 * z2 + z1 * y2,
    ;
    assert(sy >= 0) by (nonlinear_arith)
        requires
            0 <= x1 && 0 <= y1 && 0 <= z1 && 0 <= x2 && 0 <= y2 && 0 <= z2 && 0 <= i1 && 0 <= i2
                && sy == i1 * y2 + y1 * i2 + x1 * z2 + z1 * x2,
    ;
    assert(sz >= 0) by (nonlinear_arith)
        requires
            0 <= x1 && 0 <= y1 && 0 <= z1 && 0 <= x2 && 0 <= y2 && 0 <= z2 && 0 <= i1 && 0 <= i2
                && sz == i1 * z2 + z1 * i2 + x1 * y2 + y1 * x2,
    ;
    let gi = x2 + y2 + z2;
    let gx = i2 + z2 + y2;
    let gy = z2 + i2 + x2;
    let gz = y2 + x2 + i2;
    vstd::arithmetic::mul::lemma_mul_is_distributive_add(i1, x2 + y2, z2);
    vstd::arithmetic::mul::lemma_mul_is_distributive_add(i1, x2, y2);
    vstd::arithmetic::mul::lemma_mul_is_distributive_add(x1, i2 + z2, y2);
    vstd::arithmetic::mul::lemma_mul_is_distributive_add(x1, i2, z2);
    vstd::arithmetic::mul::lemma_mul_is_distributive_add(y1, z2 + i2, x2);
    vstd::arithmetic::mul::lemma_mul_is_distributive_add(y1, z2, i2);
    vstd::arithmetic::mul::lemma_mul_is_distributive_add(z1, y2 + x2, i2);
    vstd::arithmetic::mul::lemma_mul_is_distributive_add(z1, y2, x2);
    assert(sx + sy + sz == i1 * gi + x1 * gx + y1 * gy + z1 * gz);
    assert(i1 * gi <= i1 * p) by (nonlinear_arith)
        requires
            0 <= i1 && gi <= p,
    ;
    assert(x1 * gx <= x1 * p) by (nonlinear_arith)
        requires
            0 <= x1 && gx <= p,
    ;
    assert(y1 * gy <= y1 * p) by (nonlinear_arith)
        requires
            0 <= y1 && gy <= p,
    ;
    assert(z1 * gz <= z1 * p) by (nonlinear_arith)
        requires
            0 <= z1 && gz <= p,
    ;
    assert(i1 * p + x1 * p + y1 * p + z1 * p == p * p) by (nonlinear_arith)
        requires
            i1 + x1 + y1 + z1 == p,
    ;
    vstd::arithmetic::div_mod::lemma_div_pos_is_pos(sx, p);
    vstd::arithmetic::div_mod::lemma_div_pos_is_pos(sy, p);
    vstd::arithmetic::div_mod::lemma_div_pos_is_pos(sz, p);
    lemma_div_sum_le(sx, sy, sz, p);
    vstd::arithmetic::div_mod::lemma_div_is_ordered(sx + sy + sz, p * p, p);
    assert(p * p / p == p) by (nonlinear_arith)
        requires
            p > 0,
    ;
}

/// Truncating division distributes sub-additively over a three-way sum.
proof fn lemma_div_sum_le(a: int, b: int, c: int, d: int)
    requires
        a >= 0,
        b >= 0,
        c >= 0,
        d > 0,
    ensures
        a / d + b / d + c / d <= (a + b + c) / d,
{
    vstd::arithmetic::div_mod::lemma_fundamental_div_mod(a, d);
    vstd::arithmetic::div_mod::lemma_fundamental_div_mod(b, d);
    vstd::arithmetic::div_mod::lemma_fundamental_div_mod(c, d);
    vstd::arithmetic::div_mod::lemma_mod_bound(a, d);
    vstd::arithmetic::div_mod::lemma_mod_bound(b, d);
    vstd::arithmetic::div_mod::lemma_mod_bound(c, d);
    let q = a / d + b / d + c / d;
    assert(a + b + c == d * q + (a % d + b % d + c % d)) by (nonlinear_arith)
        requires
            a == d * (a / d) + a % d && b == d * (b / d) + b % d && c == d * (c / d) + c % d && q
                == a / d + b / d + c / d,
    ;
    vstd::arithmetic::div_mod::lemma_div_multiples_vanish_quotient(d, q, d);
    vstd::arithmetic::div_mod::lemma_div_is_ordered(d * q, a + b + c, d);
    assert(d * q / d == q) by (nonlinear_arith)
        requires
            d > 0,
    ;
}

/// Whether every stored rate of a record is within bounds (executable form
/// of the record's well-formedness).
fn node_wf_check(node: &NoiseModelNode) -> (r: bool)
    ensures
        r == node.wf(),
{
    let a = node.pauli_error_rates.error_rate_X as u128;
    let b = node.pauli_error_rates.error_rate_Y as u128;
    let c = node.pauli_error_rates.error_rate_Z as u128;
    if a + b + c > PROB_ONE as u128 {
        return false;
    }
    if node.erasure_error_rate > PROB_ONE {
        return false;
    }
    match &node.correlated_pauli_error_rates {
        Some(table) => {
            if !table.sanity_check() {
                return false;
            }
        },
        None => {},
    }
    match &node.correlated_erasure_error_rates {
        Some(table) => {
            if !table.sanity_check() {
                return false;
            }
        },
        None => {},
    }
    true
}

/// A record of three marginals and an erasure rate, with no correlated
/// tables.
pub open spec fn marginal_rec(x: u64, y: u64, z: u64, e: u64) -> NoiseModelNode {
    NoiseModelNode {
        pauli_error_rates: PauliErrorRates { error_rate_X: x, error_rate_Y: y, error_rate_Z: z },
        erasure_error_rate: e,
        correlated_pauli_error_rates: None,
        correlated_erasure_error_rates: None,
    }
}

/// The noiseless record.
pub open spec fn noiseless_record() -> NoiseModelNode {
    NoiseModelNode::noiseless_spec()
}


/// The biased X (and Y) marginal of the phenomenological scenario:
/// `p / (2 (1 + eta))` as an exact integer quotient.
pub open spec fn phenom_px(p: u64, bias: BiasEta) -> int {
    (p as int) * (bias.den as int) / (2 * ((bias.den as int) + (bias.num as int)))
}

/// The measurement-flip rate of the phenomenological scenario: the
/// configured rate, defaulting to `p`.
pub open spec fn phenom_pm(config: NoiseBuilderConfig, p: u64) -> u64 {
    match config.measurement_error_rate {
        Some(v) => v,
        None => p,
    }
}

/// The data-qubit record of the phenomenological scenario: marginals
/// `(px, px, p - 2 px)`.
pub open spec fn phenom_data_rec(p: u64, bias: BiasEta) -> NoiseModelNode {
    marginal_rec(
        phenom_px(p, bias) as u64,
        phenom_px(p, bias) as u64,
        (p - 2 * phenom_px(p, bias)) as u64,
        0,
    )
}

/// The ancilla record of the phenomenological scenario: a pure Y rate,
/// which flips a measurement in either basis.
pub open spec fn phenom_anc_rec(pm: u64) -> NoiseModelNode {
    marginal_rec(0, pm, 0, 0)
}

/// When the phenomenological scenario succeeds: only its one key given, no
/// erasures, rates within bounds, and the biased marginals well defined.
pub open spec fn phenom_ok(config: NoiseBuilderConfig, p: u64, bias: BiasEta, pe: u64) -> bool {
    &&& bias.den > 0
    &&& p <= PROB_ONE
    &&& pe <= PROB_ONE
    &&& config.initialization_error_rate is None
    &&& config.use_correlated_erasure is None
    &&& config.use_correlated_pauli is None
    &&& config.before_pauli_bug_fix is None
    &&& pe == 0
    &&& bias.den <= u64::MAX / 4
    &&& bias.num <= u64::MAX / 4
    &&& phenom_px(p, bias) <= u64::MAX
    &&& 2 * phenom_px(p, bias) <= p
    &&& phenom_pm(config, p) <= PROB_ONE
}

/// The shared record of the erasure-only scenario: erasure at rate `pe`
/// with each Pauli marginal floored at the smallest positive rate.
pub open spec fn erasure_rec(pe: u64) -> NoiseModelNode {
    marginal_rec(1, 1, 1, pe)
}

/// When the erasure-only scenario succeeds: no keys, no Pauli rate, and the
/// erasure rate within bounds.
pub open spec fn erasure_only_ok(config: NoiseBuilderConfig, p: u64, bias: BiasEta, pe: u64) -> bool {
    &&& bias.den > 0
    &&& p <= PROB_ONE
    &&& pe <= PROB_ONE
    &&& config.measurement_error_rate is None
    &&& config.initialization_error_rate is None
    &&& config.use_correlated_erasure is None
    &&& config.use_correlated_pauli is None
    &&& config.before_pauli_bug_fix is None
    &&& p == 0
}

/// The initialization-and-measurement marginal rate of the biased
/// scenarios: the configured rate, defaulting to `p`.
pub open spec fn gb_r0(config: NoiseBuilderConfig, p: u64) -> u64 {
    match config.initialization_error_rate {
        Some(v) => v,
        None => p,
    }
}

/// A rate divided by the bias: `v / eta` as an exact integer quotient.
pub open spec fn over_eta(v: u64, bias: BiasEta) -> int {
    (v as int) * (bias.den as int) / (bias.num as int)
}

/// The biased marginal record of the initialization and measurement stages.
pub open spec fn gb_normal_rec(config: NoiseBuilderConfig, p: u64, bias: BiasEta) -> NoiseModelNode {
    marginal_rec(
        over_eta(gb_r0(config, p), bias) as u64,
        over_eta(gb_r0(config, p), bias) as u64,
        gb_r0(config, p),
        0,
    )
}

/// The correlated table of a CZ ancilla: every entry `p / eta`, with
/// `ZI = IZ = p`.
pub open spec fn gb_cz_table(p: u64, bias: BiasEta) -> CorrelatedPauliErrorRates {
    let poe = over_eta(p, bias) as u64;
    CorrelatedPauliErrorRates {
        error_rate_IX: poe,
        error_rate_IY: poe,
        error_rate_IZ: p,
        error_rate_XI: poe,
        error_rate_XX: poe,
        error_rate_XY: poe,
        error_rate_XZ: poe,
        error_rate_YI: poe,
        error_rate_YX: poe,
        error_rate_YY: poe,
        error_rate_YZ: poe,
        error_rate_ZI: p,
        error_rate_ZX: poe,
        error_rate_ZY: poe,
        error_rate_ZZ: poe,
    }
}

/// The correlated table of a CX control wire: every entry `p / eta`,
/// `ZI = p`, and the Z leakage split per CX flavour: the bias-preserving
/// flavour puts `p/2` on IZ and ZZ, the standard flavour `3p/8` on IZ and
/// ZZ and `p/8` on IY and ZY.
pub open spec fn gb_cx_table(p: u64, bias: BiasEta, standard: bool) -> CorrelatedPauliErrorRates {
    let poe = over_eta(p, bias) as u64;
    if standard {
        CorrelatedPauliErrorRates {
            error_rate_IX: poe,
            error_rate_IY: ((p as int) / 8) as u64,
            error_rate_IZ: ((p as int) * 3 / 8) as u64,
            error_rate_XI: poe,
            error_rate_XX: poe,
            error_rate_XY: poe,
            error_rate_XZ: poe,
            error_rate_YI: poe,
            error_rate_YX: poe,
            error_rate_YY: poe,
            error_rate_YZ: poe,
            error_rate_ZI: p,
            error_rate_ZX: poe,
            error_rate_ZY: ((p as int) / 8) as u64,
            error_rate_ZZ: ((p as int) * 3 / 8) as u64,
        }
    } else {
        CorrelatedPauliErrorRates {
            error_rate_IX: poe,
            error_rate_IY: poe,
            error_rate_IZ: p / 2,
            error_rate_XI: poe,
            error_rate_XX: poe,
            error_rate_XY: poe,
            error_rate_XZ: poe,
            error_rate_YI: poe,
            error_rate_YX: poe,
            error_rate_YY: poe,
            error_rate_YZ: poe,
            error_rate_ZI: p,
            error_rate_ZX: poe,
            error_rate_ZY: poe,
            error_rate_ZZ: p / 2,
        }
    }
}

/// A record holding only a correlated Pauli table.
pub open spec fn table_rec(table: CorrelatedPauliErrorRates) -> NoiseModelNode {
    NoiseModelNode {
        pauli_error_rates: PauliErrorRates { error_rate_X: 0, error_rate_Y: 0, error_rate_Z: 0 },
        erasure_error_rate: 0,
        correlated_pauli_error_rates: Some(table),
        correlated_erasure_error_rates: None,
    }
}

/// A record holding a correlated Pauli table together with the biased
/// marginals of the measurement stage.
pub open spec fn gb_meas_rec(
    config: NoiseBuilderConfig,
    p: u64,
    bias: BiasEta,
    table: CorrelatedPauliErrorRates,
) -> NoiseModelNode {
    NoiseModelNode {
        pauli_error_rates: gb_normal_rec(config, p, bias).pauli_error_rates,
        erasure_error_rate: 0,
        correlated_pauli_error_rates: Some(table),
        correlated_erasure_error_rates: None,
    }
}

/// When the biased scenarios succeed: only the two rate keys given, a
/// positive bias, every quotient within 64 bits, and every record a valid
/// distribution.
pub open spec fn gb_ok(
    config: NoiseBuilderConfig,
    p: u64,
    bias: BiasEta,
    pe: u64,
    standard: bool,
) -> bool {
    &&& bias.den > 0
    &&& p <= PROB_ONE
    &&& pe <= PROB_ONE
    &&& config.use_correlated_erasure is None
    &&& config.use_correlated_pauli is None
    &&& config.before_pauli_bug_fix is None
    &&& bias.num > 0
    &&& gb_r0(config, p) <= PROB_ONE
    &&& over_eta(gb_r0(config, p), bias) <= u64::MAX
    &&& over_eta(p, bias) <= u64::MAX
    &&& over_eta(gb_r0(config, p), bias) <= PROB_ONE
    &&& over_eta(p, bias) <= PROB_ONE
    &&& gb_normal_rec(config, p, bias).wf()
    &&& table_rec(gb_cz_table(p, bias)).wf()
    &&& gb_meas_rec(config, p, bias, gb_cz_table(p, bias)).wf()
    &&& table_rec(gb_cx_table(p, bias, standard)).wf()
    &&& gb_meas_rec(config, p, bias, gb_cx_table(p, bias, standard)).wf()
}

/// The correlated-erasure flag of the circuit-level scenario.
pub open spec fn gl_ce(config: NoiseBuilderConfig) -> bool {
    match config.use_correlated_erasure {
        Some(v) => v,
        None => false,
    }
}

/// The correlated-Pauli flag of the circuit-level scenario.
pub open spec fn gl_cp(config: NoiseBuilderConfig) -> bool {
    match config.use_correlated_pauli {
        Some(v) => v,
        None => false,
    }
}

/// The legacy-reproduction flag of the circuit-level scenario.
pub open spec fn gl_bf(config: NoiseBuilderConfig) -> bool {
    match config.before_pauli_bug_fix {
        Some(v) => v,
        None => false,
    }
}

/// The initialization rate of the circuit-level scenario (defaults to 0).
pub open spec fn gl_r0(config: NoiseBuilderConfig) -> u64 {
    match config.initialization_error_rate {
        Some(v) => v,
        None => 0,
    }
}

/// The measurement rate of the circuit-level scenario (defaults to 0).
pub open spec fn gl_m(config: NoiseBuilderConfig) -> u64 {
    match config.measurement_error_rate {
        Some(v) => v,
        None => 0,
    }
}

/// The depolarising base rate of a non-correlated cell: `p/3`, or zero when
/// correlated Pauli is on and the legacy toggle is off.
pub open spec fn gl_base_plain(config: NoiseBuilderConfig, p: u64) -> int {
    if gl_bf(config) {
        (p as int) / 3
    } else if gl_cp(config) {
        0
    } else {
        (p as int) / 3
    }
}

/// The depolarising base rate of a correlated ancilla cell: zero when
/// correlated Pauli is on, else `p/3`.
pub open spec fn gl_base_corr(config: NoiseBuilderConfig, p: u64) -> int {
    if gl_cp(config) {
        0
    } else {
        (p as int) / 3
    }
}

/// A floored symmetric marginal record at rate `v`, with the given erasure
/// marginal.
pub open spec fn gl_marg(v: int, pe: u64, e: u64) -> PauliErrorRates {
    PauliErrorRates {
        error_rate_X: floored(v, pe as int) as u64,
        error_rate_Y: floored(v, pe as int) as u64,
        error_rate_Z: floored(v, pe as int) as u64,
    }
}

/// The symmetric marginals of a measurement-stage cell: the base channel
/// composed with the half-rate measurement channel, floored.
pub open spec fn gl_meas_marg(v: int, m: u64, pe: u64) -> PauliErrorRates {
    let h = (m as int) / 2;
    PauliErrorRates {
        error_rate_X: floored(combine_x(v, v, v, h, h, h), pe as int) as u64,
        error_rate_Y: floored(combine_y(v, v, v, h, h, h), pe as int) as u64,
        error_rate_Z: floored(combine_z(v, v, v, h, h, h), pe as int) as u64,
    }
}

/// The initialization record of the circuit-level scenario: `r0/3` on each
/// Pauli.
pub open spec fn gl_init_rec(config: NoiseBuilderConfig) -> NoiseModelNode {
    marginal_rec(gl_r0(config) / 3, gl_r0(config) / 3, gl_r0(config) / 3, 0)
}

/// The plain two-qubit-stage record: depolarising marginals, erasure on the
/// cell itself unless erasures are correlated.
pub open spec fn gl_plain_rec(config: NoiseBuilderConfig, p: u64, pe: u64) -> NoiseModelNode {
    NoiseModelNode {
        pauli_error_rates: gl_marg(gl_base_plain(config, p), pe, 0),
        erasure_error_rate: if gl_ce(config) {
            0
        } else {
            pe
        },
        correlated_pauli_error_rates: None,
        correlated_erasure_error_rates: None,
    }
}

/// The plain record with the measurement extra composed in.
pub open spec fn gl_plain_meas_rec(config: NoiseBuilderConfig, p: u64, pe: u64) -> NoiseModelNode {
    NoiseModelNode {
        pauli_error_rates: gl_meas_marg(gl_base_plain(config, p), gl_m(config), pe),
        erasure_error_rate: if gl_ce(config) {
            0
        } else {
            pe
        },
        correlated_pauli_error_rates: None,
        correlated_erasure_error_rates: None,
    }
}

/// The correlated-ancilla record: an EE erasure table at rate `pe`, a
/// uniform `p/15` correlated Pauli table when that flag is on, and the
/// correlated base marginals.
pub open spec fn gl_corr_rec(config: NoiseBuilderConfig, p: u64, pe: u64) -> NoiseModelNode {
    NoiseModelNode {
        pauli_error_rates: gl_marg(gl_base_corr(config, p), pe, 0),
        erasure_error_rate: 0,
        correlated_pauli_error_rates: if gl_cp(config) {
            Some(uniform_table(((p as int) / 15) as u64))
        } else {
            None
        },
        correlated_erasure_error_rates: Some(
            CorrelatedErasureErrorRates { error_rate_IE: 0, error_rate_EI: 0, error_rate_EE: pe },
        ),
    }
}

/// The correlated-ancilla record with the measurement extra composed in.
pub open spec fn gl_corr_meas_rec(config: NoiseBuilderConfig, p: u64, pe: u64) -> NoiseModelNode {
    NoiseModelNode {
        pauli_error_rates: gl_meas_marg(gl_base_corr(config, p), gl_m(config), pe),
        erasure_error_rate: 0,
        correlated_pauli_error_rates: if gl_cp(config) {
            Some(uniform_table(((p as int) / 15) as u64))
        } else {
            None
        },
        correlated_erasure_error_rates: Some(
            CorrelatedErasureErrorRates { error_rate_IE: 0, error_rate_EI: 0, error_rate_EE: pe },
        ),
    }
}

/// A correlated Pauli table with every non-trivial entry at the same rate.
pub open spec fn uniform_table(v: u64) -> CorrelatedPauliErrorRates {
    CorrelatedPauliErrorRates {
        error_rate_IX: v,
        error_rate_IY: v,
        error_rate_IZ: v,
        error_rate_XI: v,
        error_rate_XX: v,
        error_rate_XY: v,
        error_rate_XZ: v,
        error_rate_YI: v,
        error_rate_YX: v,
        error_rate_YY: v,
        error_rate_YZ: v,
        error_rate_ZI: v,
        error_rate_ZX: v,
        error_rate_ZY: v,
        error_rate_ZZ: v,
    }
}

/// When the circuit-level scenario succeeds: the bias at its one supported
/// value of one half, rates within bounds, the composed measurement channel
/// a valid distribution, and every record well formed.
pub open spec fn gl_ok(config: NoiseBuilderConfig, p: u64, bias: BiasEta, pe: u64) -> bool {
    &&& bias.den > 0
    &&& p <= PROB_ONE
    &&& pe <= PROB_ONE
    &&& 2 * bias.num == bias.den
    &&& gl_r0(config) <= PROB_ONE
    &&& gl_m(config) <= PROB_ONE
    &&& 3 * ((gl_m(config) as int) / 2) <= PROB_ONE
    &&& 3 * gl_base_plain(config, p) <= PROB_ONE
    &&& 3 * gl_base_corr(config, p) <= PROB_ONE
    &&& gl_init_rec(config).wf()
    &&& gl_plain_rec(config, p, pe).wf()
    &&& gl_plain_meas_rec(config, p, pe).wf()
    &&& gl_corr_rec(config, p, pe).wf()
    &&& gl_corr_meas_rec(config, p, pe).wf()
}


/// The record every cell of the staged scenarios ends with: below the
/// perfect-measurement cap, real data qubits at a cycle start carry
/// `data_rec`, real ancillas the cell before a measurement round carry
/// `anc_rec`; every other cell (the cap, the other stages, every virtual
/// cell) is noiseless.
pub open spec fn staged_record(
    s: Simulator,
    data_rec: NoiseModelNode,
    anc_rec: NoiseModelNode,
    t: int,
    i: int,
    j: int,
) -> NoiseModelNode {
    let n = s.get(t, i, j);
    let cycles = s.measurement_cycles as int;
    if n.is_virtual {
        noiseless_record()
    } else if s.height - t > cycles {
        if t % cycles == 0 && n.qubit_type == QubitType::Data {
            data_rec
        } else if (t + 1) % cycles == 0 && n.qubit_type != QubitType::Data {
            anc_rec
        } else {
            noiseless_record()
        }
    } else {
        noiseless_record()
    }
}

/// The record every cell of the biased scenarios ends with: initialization
/// layers carry the biased marginals; at the two-qubit stages a CZ ancilla
/// or any CX-control wire whose peer is real carries the correlated table
/// of its kind, with the biased marginals added on the layer before a
/// measurement; everything else (measurement layers, the cap, virtual
/// cells) is noiseless.
pub open spec fn generic_biased_record(
    s: Simulator,
    normal: NoiseModelNode,
    cz: NoiseModelNode,
    cz_meas: NoiseModelNode,
    cx: NoiseModelNode,
    cx_meas: NoiseModelNode,
    t: int,
    i: int,
    j: int,
) -> NoiseModelNode {
    let n = s.get(t, i, j);
    let cycles = s.measurement_cycles as int;
    if n.is_virtual {
        noiseless_record()
    } else if s.height - t > cycles {
        if t % cycles == 1 {
            normal
        } else if t % cycles == 0 {
            noiseless_record()
        } else {
            let has_meas = (t + 1) % cycles == 0 && n.qubit_type != QubitType::Data;
            if n.gate_type == GateType::CZGate && n.qubit_type != QubitType::Data
                && !n.is_peer_virtual {
                if has_meas {
                    cz_meas
                } else {
                    cz
                }
            } else if n.gate_type == GateType::CXGateControl && !n.is_peer_virtual {
                if has_meas {
                    cx_meas
                } else {
                    cx
                }
            } else {
                noiseless_record()
            }
        }
    } else {
        noiseless_record()
    }
}

/// The record every cell of the circuit-level scenario ends with:
/// initialization layers give ancillas `init_rec`; every real cell of the
/// two-qubit stages carries the depolarising record, in the correlated
/// flavour on two-qubit ancilla wires with real peers when correlated
/// erasures are on, and with the measurement extra on ancillas the layer
/// before a measurement round; measurement layers, the cap and virtual
/// cells are noiseless.
pub open spec fn gate_level_record(
    s: Simulator,
    use_ce: bool,
    init_rec: NoiseModelNode,
    plain: NoiseModelNode,
    plain_meas: NoiseModelNode,
    corr: NoiseModelNode,
    corr_meas: NoiseModelNode,
    t: int,
    i: int,
    j: int,
) -> NoiseModelNode {
    let n = s.get(t, i, j);
    let cycles = s.measurement_cycles as int;
    if n.is_virtual {
        noiseless_record()
    } else if s.height - t > cycles {
        if t % cycles == 1 {
            if n.qubit_type != QubitType::Data {
                init_rec
            } else {
                noiseless_record()
            }
        } else if t % cycles == 0 {
            noiseless_record()
        } else {
            let is_corr = use_ce && is_two_qubit_gate_spec(n.gate_type) && n.qubit_type
                != QubitType::Data && !n.is_peer_virtual;
            let has_meas = (t + 1) % cycles == 0 && n.qubit_type != QubitType::Data;
            if is_corr {
                if has_meas {
                    corr_meas
                } else {
                    corr
                }
            } else {
                if has_meas {
                    plain_meas
                } else {
                    plain
                }
            }
        }
    } else {
        noiseless_record()
    }
}

/// Install `idx` at cell `(t, i, j)` of the model, keeping the model
/// admissible for the lattice: only noiseless records on virtual cells, and
/// correlated tables only where the cell and its coupled peer are real.
#[verifier::spinoff_prover]
fn assign_cell(
    noise_model: &mut NoiseModel,
    simulator: &Simulator,
    position: &Position,
    idx: usize,
)
    requires
        simulator.lattice_wf(),
        noise_model_ok(*simulator, *old(noise_model)),
        old(noise_model).height == simulator.height,
        position.t < simulator.height,
        position.i < simulator.vertical,
        position.j < simulator.horizontal,
        idx < old(noise_model).arena_len(),
        simulator.exists_at(position.t as int, position.i as int, position.j as int),
        simulator.get(position.t as int, position.i as int, position.j as int).is_virtual ==> old(
            noise_model,
        ).arena_at(idx as int).is_noiseless(),
        (old(noise_model).arena_at(idx as int).correlated_pauli_error_rates is Some || old(
            noise_model,
        ).arena_at(idx as int).correlated_erasure_error_rates is Some) ==> {
            let n = simulator.get(position.t as int, position.i as int, position.j as int);
            &&& !n.is_virtual
            &&& n.peer() is Some
            &&& !n.is_peer_virtual
        },
    ensures
        noise_model_ok(*simulator, *final(noise_model)),
        final(noise_model).height == old(noise_model).height,
        final(noise_model).vertical == old(noise_model).vertical,
        final(noise_model).horizontal == old(noise_model).horizontal,
        final(noise_model).arena_len() == old(noise_model).arena_len(),
        forall|k: int|
            0 <= k < old(noise_model).arena_len() ==> #[trigger] final(noise_model).arena_at(k)
                == old(noise_model).arena_at(k),
        final(noise_model).additional_noise == old(noise_model).additional_noise,
        final(noise_model).rates_at(position.t as int, position.i as int, position.j as int) == old(
            noise_model,
        ).arena_at(idx as int),
        forall|t: int, i: int, j: int|
            0 <= t < old(noise_model).height && 0 <= i < old(noise_model).vertical && 0 <= j < old(
                noise_model,
            ).horizontal && !(t == position.t && i == position.i && j == position.j)
                ==> #[trigger] final(noise_model).rates_at(t, i, j) == old(noise_model).rates_at(
                t,
                i,
                j,
            ),
{
    proof {
        lemma_wf_dims(*simulator);
    }
    noise_model.set_node(position, idx);
    proof {
        let t0 = position.t as int;
        let i0 = position.i as int;
        let j0 = position.j as int;
        assert forall|t: int, i: int, j: int|
            simulator.exists_at(t, i, j) && (#[trigger] simulator.get(t, i, j)).is_virtual implies
            noise_model.rates_at(t, i, j).is_noiseless() by {
            if !(t == t0 && i == i0 && j == j0) {
                assert(noise_model.rates_at(t, i, j) == old(noise_model).rates_at(t, i, j));
            }
        }
        assert forall|t: int, i: int, j: int|
            simulator.exists_at(t, i, j) && ((#[trigger] noise_model.rates_at(
                t,
                i,
                j,
            )).correlated_pauli_error_rates is Some || noise_model.rates_at(
                t,
                i,
                j,
            ).correlated_erasure_error_rates is Some) implies {
            &&& !simulator.get(t, i, j).is_virtual
            &&& simulator.get(t, i, j).peer() is Some
            &&& {
                let p = simulator.get(t, i, j).peer()->Some_0;
                simulator.exists_at(t, p.i as int, p.j as int) && !simulator.get(
                    t,
                    p.i as int,
                    p.j as int,
                ).is_virtual
            }
        } by {
            if t == t0 && i == i0 && j == j0 {
                let n = simulator.get(t, i, j);
                lemma_wf_cell(*simulator, t, i, j);
                match n.peer() {
                    Some(p) => {
                        assert(n.is_peer_virtual == simulator.get(
                            t,
                            p.i as int,
                            p.j as int,
                        ).is_virtual);
                    },
                    None => {},
                }
            } else {
                assert(noise_model.rates_at(t, i, j) == old(noise_model).rates_at(t, i, j));
            }
        }
    }
}

/// Which record of the staged scenarios cell `(t, i, j)` selects: `0`
/// noiseless, `1` the data record, `2` the ancilla record.
fn staged_choice(simulator: &Simulator, t: usize, i: usize, j: usize) -> (r: u8)
    requires
        simulator.lattice_wf(),
        simulator.exists_at(t as int, i as int, j as int),
    ensures
        forall|data_rec: NoiseModelNode, anc_rec: NoiseModelNode|
            #[trigger] staged_record(*simulator, data_rec, anc_rec, t as int, i as int, j as int)
                == (if r == 1 {
                data_rec
            } else if r == 2 {
                anc_rec
            } else {
                noiseless_record()
            }),
        r != 0 ==> !simulator.get(t as int, i as int, j as int).is_virtual,
{
    proof {
        lemma_wf_dims(*simulator);
    }
    let cycles = simulator.measurement_cycles;
    let position = Position::new(t, i, j);
    let node = simulator.get_node_unwrap(&position);
    if node.is_virtual {
        return 0;
    }
    if simulator.height - t > cycles {
        if t % cycles == 0 && node.qubit_type == QubitType::Data {
            return 1;
        }
        if (t + 1) % cycles == 0 && node.qubit_type != QubitType::Data {
            return 2;
        }
    }
    0
}

/// Which record of the biased scenarios cell `(t, i, j)` selects: `0`
/// noiseless, `1` the biased marginals, `2`/`3` the CZ table (plain and
/// measurement), `4`/`5` the CX table (plain and measurement).
fn biased_choice(simulator: &Simulator, t: usize, i: usize, j: usize) -> (r: u8)
    requires
        simulator.lattice_wf(),
        simulator.exists_at(t as int, i as int, j as int),
    ensures
        forall|n1: NoiseModelNode, n2: NoiseModelNode, n3: NoiseModelNode, n4: NoiseModelNode, n5: NoiseModelNode|
            #[trigger] generic_biased_record(
                *simulator,
                n1,
                n2,
                n3,
                n4,
                n5,
                t as int,
                i as int,
                j as int,
            ) == (if r == 1 {
                n1
            } else if r == 2 {
                n2
            } else if r == 3 {
                n3
            } else if r == 4 {
                n4
            } else if r == 5 {
                n5
            } else {
                noiseless_record()
            }),
        r != 0 ==> !simulator.get(t as int, i as int, j as int).is_virtual,
        r >= 2 ==> {
            let n = simulator.get(t as int, i as int, j as int);
            n.peer() is Some && !n.is_peer_virtual
        },
{
    proof {
        lemma_wf_dims(*simulator);
        lemma_wf_cell(*simulator, t as int, i as int, j as int);
    }
    let cycles = simulator.measurement_cycles;
    let position = Position::new(t, i, j);
    let node = simulator.get_node_unwrap(&position);
    if node.is_virtual {
        return 0;
    }
    if simulator.height - t > cycles {
        if t % cycles == 1 {
            return 1;
        }
        if t % cycles == 0 {
            return 0;
        }
        let has_meas = (t + 1) % cycles == 0 && node.qubit_type != QubitType::Data;
        if node.gate_type == GateType::CZGate && node.qubit_type != QubitType::Data
            && !node.is_peer_virtual {
            if has_meas {
                return 3;
            }
            return 2;
        }
        if node.gate_type == GateType::CXGateControl && !node.is_peer_virtual {
            if has_meas {
                return 5;
            }
            return 4;
        }
    }
    0
}

/// Which record of the circuit-level scenario cell `(t, i, j)` selects:
/// `0` noiseless, `1` initialization, `2`/`3` the plain depolarising record
/// (plain and measurement), `4`/`5` the correlated-ancilla record (plain
/// and measurement).
fn gate_choice(simulator: &Simulator, use_ce: bool, t: usize, i: usize, j: usize) -> (r: u8)
    requires
        simulator.lattice_wf(),
        simulator.exists_at(t as int, i as int, j as int),
    ensures
        forall|n1: NoiseModelNode, n2: NoiseModelNode, n3: NoiseModelNode, n4: NoiseModelNode, n5: NoiseModelNode|
            #[trigger] gate_level_record(
                *simulator,
                use_ce,
                n1,
                n2,
                n3,
                n4,
                n5,
                t as int,
                i as int,
                j as int,
            ) == (if r == 1 {
                n1
            } else if r == 2 {
                n2
            } else if r == 3 {
                n3
            } else if r == 4 {
                n4
            } else if r == 5 {
                n5
            } else {
                noiseless_record()
            }),
        r != 0 ==> !simulator.get(t as int, i as int, j as int).is_virtual,
        r >= 4 ==> {
            let n = simulator.get(t as int, i as int, j as int);
            n.peer() is Some && !n.is_peer_virtual
        },
{
    proof {
        lemma_wf_dims(*simulator);
        lemma_wf_cell(*simulator, t as int, i as int, j as int);
    }
    let cycles = simulator.measurement_cycles;
    let position = Position::new(t, i, j);
    let node = simulator.get_node_unwrap(&position);
    if node.is_virtual {
        return 0;
    }
    if simulator.height - t > cycles {
        if t % cycles == 1 {
            if node.qubit_type != QubitType::Data {
                return 1;
            }
            return 0;
        }
        if t % cycles == 0 {
            return 0;
        }
        let is_corr = use_ce && node.gate_type.is_two_qubit_gate() && node.qubit_type
            != QubitType::Data && !node.is_peer_virtual;
        let has_meas = (t + 1) % cycles == 0 && node.qubit_type != QubitType::Data;
        if is_corr {
            if has_meas {
                return 5;
            }
            return 4;
        }
        if has_meas {
            return 3;
        }
        return 2;
    }
    0
}

/// A rate with zero replaced by the smallest positive rate when erasures
/// are in play.
fn floor_rate(v: u64, pe: u64) -> (r: u64)
    ensures
        r == floored(v as int, pe as int),
{
    if pe > 0 && v == 0 {
        1
    } else {
        v
    }
}

/// Point every existing cell at the record this scenario calls for.
#[verifier::rlimit(100)]
#[verifier::spinoff_prover]
fn apply_staged(
    simulator: &Simulator,
    noise_model: &mut NoiseModel,
    noiseless_idx: usize,
    data_idx: usize,
    anc_idx: usize,
)
    requires
        simulator.lattice_wf(),
        noise_model_ok(*simulator, *old(noise_model)),
        old(noise_model).height == simulator.height,
        old(noise_model).vertical == simulator.vertical,
        old(noise_model).horizontal == simulator.horizontal,
        noiseless_idx < old(noise_model).arena_len(),
        data_idx < old(noise_model).arena_len(),
        anc_idx < old(noise_model).arena_len(),
        old(noise_model).arena_at(noiseless_idx as int) == noiseless_record(),
        old(noise_model).arena_at(data_idx as int).correlated_pauli_error_rates is None,
        old(noise_model).arena_at(data_idx as int).correlated_erasure_error_rates is None,
        old(noise_model).arena_at(anc_idx as int).correlated_pauli_error_rates is None,
        old(noise_model).arena_at(anc_idx as int).correlated_erasure_error_rates is None,

    ensures
        noise_model_ok(*simulator, *final(noise_model)),
        final(noise_model).height == old(noise_model).height,
        final(noise_model).vertical == old(noise_model).vertical,
        final(noise_model).horizontal == old(noise_model).horizontal,
        final(noise_model).additional_noise == old(noise_model).additional_noise,
        forall|t: int, i: int, j: int|
            simulator.exists_at(t, i, j) ==> #[trigger] final(noise_model).rates_at(t, i, j)
                == staged_record(
                *simulator,
                old(noise_model).arena_at(data_idx as int),
                old(noise_model).arena_at(anc_idx as int),
                t,
                i,
                j,
            ),
{
    proof {
        lemma_wf_dims(*simulator);
    }
    let ghost data_rec = old(noise_model).arena_at(data_idx as int);
    let ghost anc_rec = old(noise_model).arena_at(anc_idx as int);
    let height = simulator.height;
    let vertical = simulator.vertical;
    let horizontal = simulator.horizontal;
    let mut t: usize = 0;
    while t < height
        invariant
            simulator.lattice_wf(),
            simulator.dims_ok(),
            noise_model_ok(*simulator, *noise_model),
            noise_model.height == simulator.height,
            noise_model.vertical == simulator.vertical,
            noise_model.horizontal == simulator.horizontal,
            noise_model.additional_noise == old(noise_model).additional_noise,
            height == simulator.height,
            vertical == simulator.vertical,
            horizontal == simulator.horizontal,
            noiseless_idx < noise_model.arena_len(),
            data_idx < noise_model.arena_len(),
            anc_idx < noise_model.arena_len(),
            noiseless_idx < noise_model.arena_len(),
            noise_model.arena_at(noiseless_idx as int) == noiseless_record(),
            noise_model.arena_at(data_idx as int) == data_rec,
            noise_model.arena_at(anc_idx as int) == anc_rec,
            data_rec.correlated_pauli_error_rates is None,
            data_rec.correlated_erasure_error_rates is None,
            anc_rec.correlated_pauli_error_rates is None,
            anc_rec.correlated_erasure_error_rates is None,
            t <= height,
            forall|a: int, b: int, c: int|
                simulator.exists_at(a, b, c) && a < t ==> #[trigger] noise_model.rates_at(a, b, c)
                    == staged_record(*simulator, data_rec, anc_rec, a, b, c),
        decreases height - t,
    {
        let mut i: usize = 0;
        while i < vertical
            invariant
            simulator.lattice_wf(),
            simulator.dims_ok(),
            noise_model_ok(*simulator, *noise_model),
            noise_model.height == simulator.height,
            noise_model.vertical == simulator.vertical,
            noise_model.horizontal == simulator.horizontal,
            noise_model.additional_noise == old(noise_model).additional_noise,
            height == simulator.height,
            vertical == simulator.vertical,
            horizontal == simulator.horizontal,
            noiseless_idx < noise_model.arena_len(),
            data_idx < noise_model.arena_len(),
            anc_idx < noise_model.arena_len(),
            noiseless_idx < noise_model.arena_len(),
            noise_model.arena_at(noiseless_idx as int) == noiseless_record(),
            noise_model.arena_at(data_idx as int) == data_rec,
            noise_model.arena_at(anc_idx as int) == anc_rec,
            data_rec.correlated_pauli_error_rates is None,
            data_rec.correlated_erasure_error_rates is None,
            anc_rec.correlated_pauli_error_rates is None,
            anc_rec.correlated_erasure_error_rates is None,
            t < height,
            i <= vertical,
            forall|a: int, b: int, c: int|
                simulator.exists_at(a, b, c) && (a < t || (a == t && b < i))
                    ==> #[trigger] noise_model.rates_at(a, b, c)
                    == staged_record(*simulator, data_rec, anc_rec, a, b, c),
            decreases vertical - i,
        {
            let mut j: usize = 0;
            while j < horizontal
                invariant
            simulator.lattice_wf(),
            simulator.dims_ok(),
            noise_model_ok(*simulator, *noise_model),
            noise_model.height == simulator.height,
            noise_model.vertical == simulator.vertical,
            noise_model.horizontal == simulator.horizontal,
            noise_model.additional_noise == old(noise_model).additional_noise,
            height == simulator.height,
            vertical == simulator.vertical,
            horizontal == simulator.horizontal,
            noiseless_idx < noise_model.arena_len(),
            data_idx < noise_model.arena_len(),
            anc_idx < noise_model.arena_len(),
            noiseless_idx < noise_model.arena_len(),
            noise_model.arena_at(noiseless_idx as int) == noiseless_record(),
            noise_model.arena_at(data_idx as int) == data_rec,
            noise_model.arena_at(anc_idx as int) == anc_rec,
            data_rec.correlated_pauli_error_rates is None,
            data_rec.correlated_erasure_error_rates is None,
            anc_rec.correlated_pauli_error_rates is None,
            anc_rec.correlated_erasure_error_rates is None,
            t < height,
            i < vertical,
            j <= horizontal,
            forall|a: int, b: int, c: int|
                simulator.exists_at(a, b, c) && (a < t || (a == t && b < i) || (a == t && b == i
                    && c < j)) ==> #[trigger] noise_model.rates_at(a, b, c)
                    == staged_record(*simulator, data_rec, anc_rec, a, b, c),
                decreases horizontal - j,
            {
                let position = Position::new(t, i, j);
                if simulator.is_node_exist(&position) {
                    let choice = staged_choice(simulator, t, i, j);
                    let idx = if choice == 1 {
                        data_idx
                    }                     else if choice == 2 {
                        anc_idx
                    } else {
                        noiseless_idx
                    };

                    let ghost prev_nm = *noise_model;
                    assign_cell(noise_model, simulator, &position, idx);
                    proof {
                        assert forall|a: int, b: int, c: int|
                            simulator.exists_at(a, b, c) && (a < t || (a == t && b < i) || (a == t
                                && b == i && c < j + 1)) implies #[trigger] noise_model.rates_at(
                            a,
                            b,
                            c,
                        ) == staged_record(*simulator, data_rec, anc_rec, a, b, c) by {
                            if a == t && b == i && c == j {
                            } else {
                                assert(noise_model.rates_at(a, b, c) == prev_nm.rates_at(a, b, c));
                            }
                        }
                    }
                }
                j += 1;
            }
            i += 1;
        }
        t += 1;
    }
}

/// Point every existing cell at the record this scenario calls for.
#[verifier::rlimit(100)]
#[verifier::spinoff_prover]
fn apply_generic_biased(
    simulator: &Simulator,
    noise_model: &mut NoiseModel,
    noiseless_idx: usize,
    normal_idx: usize,
    cz_idx: usize,
    cz_meas_idx: usize,
    cx_idx: usize,
    cx_meas_idx: usize,
)
    requires
        simulator.lattice_wf(),
        noise_model_ok(*simulator, *old(noise_model)),
        old(noise_model).height == simulator.height,
        old(noise_model).vertical == simulator.vertical,
        old(noise_model).horizontal == simulator.horizontal,
        noiseless_idx < old(noise_model).arena_len(),
        normal_idx < old(noise_model).arena_len(),
        cz_idx < old(noise_model).arena_len(),
        cz_meas_idx < old(noise_model).arena_len(),
        cx_idx < old(noise_model).arena_len(),
        cx_meas_idx < old(noise_model).arena_len(),
        old(noise_model).arena_at(noiseless_idx as int) == noiseless_record(),
        old(noise_model).arena_at(normal_idx as int).correlated_pauli_error_rates is None,
        old(noise_model).arena_at(normal_idx as int).correlated_erasure_error_rates is None,

    ensures
        noise_model_ok(*simulator, *final(noise_model)),
        final(noise_model).height == old(noise_model).height,
        final(noise_model).vertical == old(noise_model).vertical,
        final(noise_model).horizontal == old(noise_model).horizontal,
        final(noise_model).additional_noise == old(noise_model).additional_noise,
        forall|t: int, i: int, j: int|
            simulator.exists_at(t, i, j) ==> #[trigger] final(noise_model).rates_at(t, i, j)
                == generic_biased_record(
                *simulator,
                old(noise_model).arena_at(normal_idx as int),
                old(noise_model).arena_at(cz_idx as int),
                old(noise_model).arena_at(cz_meas_idx as int),
                old(noise_model).arena_at(cx_idx as int),
                old(noise_model).arena_at(cx_meas_idx as int),
                t,
                i,
                j,
            ),
{
    proof {
        lemma_wf_dims(*simulator);
    }
    let ghost normal_rec = old(noise_model).arena_at(normal_idx as int);
    let ghost cz_rec = old(noise_model).arena_at(cz_idx as int);
    let ghost cz_meas_rec = old(noise_model).arena_at(cz_meas_idx as int);
    let ghost cx_rec = old(noise_model).arena_at(cx_idx as int);
    let ghost cx_meas_rec = old(noise_model).arena_at(cx_meas_idx as int);
    let height = simulator.height;
    let vertical = simulator.vertical;
    let horizontal = simulator.horizontal;
    let mut t: usize = 0;
    while t < height
        invariant
            simulator.lattice_wf(),
            simulator.dims_ok(),
            noise_model_ok(*simulator, *noise_model),
            noise_model.height == simulator.height,
            noise_model.vertical == simulator.vertical,
            noise_model.horizontal == simulator.horizontal,
            noise_model.additional_noise == old(noise_model).additional_noise,
            height == simulator.height,
            vertical == simulator.vertical,
            horizontal == simulator.horizontal,
            noiseless_idx < noise_model.arena_len(),
            normal_idx < noise_model.arena_len(),
            cz_idx < noise_model.arena_len(),
            cz_meas_idx < noise_model.arena_len(),
            cx_idx < noise_model.arena_len(),
            cx_meas_idx < noise_model.arena_len(),
            noiseless_idx < noise_model.arena_len(),
            noise_model.arena_at(noiseless_idx as int) == noiseless_record(),
            noise_model.arena_at(normal_idx as int) == normal_rec,
            noise_model.arena_at(cz_idx as int) == cz_rec,
            noise_model.arena_at(cz_meas_idx as int) == cz_meas_rec,
            noise_model.arena_at(cx_idx as int) == cx_rec,
            noise_model.arena_at(cx_meas_idx as int) == cx_meas_rec,
            normal_rec.correlated_pauli_error_rates is None,
            normal_rec.correlated_erasure_error_rates is None,
            t <= height,
            forall|a: int, b: int, c: int|
                simulator.exists_at(a, b, c) && a < t ==> #[trigger] noise_model.rates_at(a, b, c)
                    == generic_biased_record(*simulator, normal_rec, cz_rec, cz_meas_rec, cx_rec, cx_meas_rec, a, b, c),
        decreases height - t,
    {
        let mut i: usize = 0;
        while i < vertical
            invariant
            simulator.lattice_wf(),
            simulator.dims_ok(),
            noise_model_ok(*simulator, *noise_model),
            noise_model.height == simulator.height,
            noise_model.vertical == simulator.vertical,
            noise_model.horizontal == simulator.horizontal,
            noise_model.additional_noise == old(noise_model).additional_noise,
            height == simulator.height,
            vertical == simulator.vertical,
            horizontal == simulator.horizontal,
            noiseless_idx < noise_model.arena_len(),
            normal_idx < noise_model.arena_len(),
            cz_idx < noise_model.arena_len(),
            cz_meas_idx < noise_model.arena_len(),
            cx_idx < noise_model.arena_len(),
            cx_meas_idx < noise_model.arena_len(),
            noiseless_idx < noise_model.arena_len(),
            noise_model.arena_at(noiseless_idx as int) == noiseless_record(),
            noise_model.arena_at(normal_idx as int) == normal_rec,
            noise_model.arena_at(cz_idx as int) == cz_rec,
            noise_model.arena_at(cz_meas_idx as int) == cz_meas_rec,
            noise_model.arena_at(cx_idx as int) == cx_rec,
            noise_model.arena_at(cx_meas_idx as int) == cx_meas_rec,
            normal_rec.correlated_pauli_error_rates is None,
            normal_rec.correlated_erasure_error_rates is None,
            t < height,
            i <= vertical,
            forall|a: int, b: int, c: int|
                simulator.exists_at(a, b, c) && (a < t || (a == t && b < i))
                    ==> #[trigger] noise_model.rates_at(a, b, c)
                    == generic_biased_record(*simulator, normal_rec, cz_rec, cz_meas_rec, cx_rec, cx_meas_rec, a, b, c),
            decreases vertical - i,
        {
            let mut j: usize = 0;
            while j < horizontal
                invariant
            simulator.lattice_wf(),
            simulator.dims_ok(),
            noise_model_ok(*simulator, *noise_model),
            noise_model.height == simulator.height,
            noise_model.vertical == simulator.vertical,
            noise_model.horizontal == simulator.horizontal,
            noise_model.additional_noise == old(noise_model).additional_noise,
            height == simulator.height,
            vertical == simulator.vertical,
            horizontal == simulator.horizontal,
            noiseless_idx < noise_model.arena_len(),
            normal_idx < noise_model.arena_len(),
            cz_idx < noise_model.arena_len(),
            cz_meas_idx < noise_model.arena_len(),
            cx_idx < noise_model.arena_len(),
            cx_meas_idx < noise_model.arena_len(),
            noiseless_idx < noise_model.arena_len(),
            noise_model.arena_at(noiseless_idx as int) == noiseless_record(),
            noise_model.arena_at(normal_idx as int) == normal_rec,
            noise_model.arena_at(cz_idx as int) == cz_rec,
            noise_model.arena_at(cz_meas_idx as int) == cz_meas_rec,
            noise_model.arena_at(cx_idx as int) == cx_rec,
            noise_model.arena_at(cx_meas_idx as int) == cx_meas_rec,
            normal_rec.correlated_pauli_error_rates is None,
            normal_rec.correlated_erasure_error_rates is None,
            t < height,
            i < vertical,
            j <= horizontal,
            forall|a: int, b: int, c: int|
                simulator.exists_at(a, b, c) && (a < t || (a == t && b < i) || (a == t && b == i
                    && c < j)) ==> #[trigger] noise_model.rates_at(a, b, c)
                    == generic_biased_record(*simulator, normal_rec, cz_rec, cz_meas_rec, cx_rec, cx_meas_rec, a, b, c),
                decreases horizontal - j,
            {
                let position = Position::new(t, i, j);
                if simulator.is_node_exist(&position) {
                    let choice = biased_choice(simulator, t, i, j);
                    let idx = if choice == 1 {
                        normal_idx
                    }                     else if choice == 2 {
                        cz_idx
                    }                     else if choice == 3 {
                        cz_meas_idx
                    }                     else if choice == 4 {
                        cx_idx
                    }                     else if choice == 5 {
                        cx_meas_idx
                    } else {
                        noiseless_idx
                    };

                    let ghost prev_nm = *noise_model;
                    assign_cell(noise_model, simulator, &position, idx);
                    proof {
                        assert forall|a: int, b: int, c: int|
                            simulator.exists_at(a, b, c) && (a < t || (a == t && b < i) || (a == t
                                && b == i && c < j + 1)) implies #[trigger] noise_model.rates_at(
                            a,
                            b,
                            c,
                        ) == generic_biased_record(*simulator, normal_rec, cz_rec, cz_meas_rec, cx_rec, cx_meas_rec, a, b, c) by {
                            if a == t && b == i && c == j {
                            } else {
                                assert(noise_model.rates_at(a, b, c) == prev_nm.rates_at(a, b, c));
                            }
                        }
                    }
                }
                j += 1;
            }
            i += 1;
        }
        t += 1;
    }
}

/// Point every existing cell at the record this scenario calls for.
#[verifier::rlimit(100)]
#[verifier::spinoff_prover]
fn apply_gate_level(
    simulator: &Simulator,
    noise_model: &mut NoiseModel,
    use_ce: bool,
    noiseless_idx: usize,
    init_idx: usize,
    plain_idx: usize,
    plain_meas_idx: usize,
    corr_idx: usize,
    corr_meas_idx: usize,
)
    requires
        simulator.lattice_wf(),
        noise_model_ok(*simulator, *old(noise_model)),
        old(noise_model).height == simulator.height,
        old(noise_model).vertical == simulator.vertical,
        old(noise_model).horizontal == simulator.horizontal,
        noiseless_idx < old(noise_model).arena_len(),
        init_idx < old(noise_model).arena_len(),
        plain_idx < old(noise_model).arena_len(),
        plain_meas_idx < old(noise_model).arena_len(),
        corr_idx < old(noise_model).arena_len(),
        corr_meas_idx < old(noise_model).arena_len(),
        old(noise_model).arena_at(noiseless_idx as int) == noiseless_record(),
        old(noise_model).arena_at(init_idx as int).correlated_pauli_error_rates is None,
        old(noise_model).arena_at(init_idx as int).correlated_erasure_error_rates is None,
        old(noise_model).arena_at(plain_idx as int).correlated_pauli_error_rates is None,
        old(noise_model).arena_at(plain_idx as int).correlated_erasure_error_rates is None,
        old(noise_model).arena_at(plain_meas_idx as int).correlated_pauli_error_rates is None,
        old(noise_model).arena_at(plain_meas_idx as int).correlated_erasure_error_rates is None,

    ensures
        noise_model_ok(*simulator, *final(noise_model)),
        final(noise_model).height == old(noise_model).height,
        final(noise_model).vertical == old(noise_model).vertical,
        final(noise_model).horizontal == old(noise_model).horizontal,
        final(noise_model).additional_noise == old(noise_model).additional_noise,
        forall|t: int, i: int, j: int|
            simulator.exists_at(t, i, j) ==> #[trigger] final(noise_model).rates_at(t, i, j)
                == gate_level_record(
                *simulator,
                use_ce,
                old(noise_model).arena_at(init_idx as int),
                old(noise_model).arena_at(plain_idx as int),
                old(noise_model).arena_at(plain_meas_idx as int),
                old(noise_model).arena_at(corr_idx as int),
                old(noise_model).arena_at(corr_meas_idx as int),
                t,
                i,
                j,
            ),
{
    proof {
        lemma_wf_dims(*simulator);
    }
    let ghost init_rec = old(noise_model).arena_at(init_idx as int);
    let ghost plain_rec = old(noise_model).arena_at(plain_idx as int);
    let ghost plain_meas_rec = old(noise_model).arena_at(plain_meas_idx as int);
    let ghost corr_rec = old(noise_model).arena_at(corr_idx as int);
    let ghost corr_meas_rec = old(noise_model).arena_at(corr_meas_idx as int);
    let height = simulator.height;
    let vertical = simulator.vertical;
    let horizontal = simulator.horizontal;
    let mut t: usize = 0;
    while t < height
        invariant
            simulator.lattice_wf(),
            simulator.dims_ok(),
            noise_model_ok(*simulator, *noise_model),
            noise_model.height == simulator.height,
            noise_model.vertical == simulator.vertical,
            noise_model.horizontal == simulator.horizontal,
            noise_model.additional_noise == old(noise_model).additional_noise,
            height == simulator.height,
            vertical == simulator.vertical,
            horizontal == simulator.horizontal,
            noiseless_idx < noise_model.arena_len(),
            init_idx < noise_model.arena_len(),
            plain_idx < noise_model.arena_len(),
            plain_meas_idx < noise_model.arena_len(),
            corr_idx < noise_model.arena_len(),
            corr_meas_idx < noise_model.arena_len(),
            noiseless_idx < noise_model.arena_len(),
            noise_model.arena_at(noiseless_idx as int) == noiseless_record(),
            noise_model.arena_at(init_idx as int) == init_rec,
            noise_model.arena_at(plain_idx as int) == plain_rec,
            noise_model.arena_at(plain_meas_idx as int) == plain_meas_rec,
            noise_model.arena_at(corr_idx as int) == corr_rec,
            noise_model.arena_at(corr_meas_idx as int) == corr_meas_rec,
            init_rec.correlated_pauli_error_rates is None,
            init_rec.correlated_erasure_error_rates is None,
            plain_rec.correlated_pauli_error_rates is None,
            plain_rec.correlated_erasure_error_rates is None,
            plain_meas_rec.correlated_pauli_error_rates is None,
            plain_meas_rec.correlated_erasure_error_rates is None,
            t <= height,
            forall|a: int, b: int, c: int|
                simulator.exists_at(a, b, c) && a < t ==> #[trigger] noise_model.rates_at(a, b, c)
                    == gate_level_record(*simulator, use_ce, init_rec, plain_rec, plain_meas_rec, corr_rec, corr_meas_rec, a, b, c),
        decreases height - t,
    {
        let mut i: usize = 0;
        while i < vertical
            invariant
            simulator.lattice_wf(),
            simulator.dims_ok(),
            noise_model_ok(*simulator, *noise_model),
            noise_model.height == simulator.height,
            noise_model.vertical == simulator.vertical,
            noise_model.horizontal == simulator.horizontal,
            noise_model.additional_noise == old(noise_model).additional_noise,
            height == simulator.height,
            vertical == simulator.vertical,
            horizontal == simulator.horizontal,
            noiseless_idx < noise_model.arena_len(),
            init_idx < noise_model.arena_len(),
            plain_idx < noise_model.arena_len(),
            plain_meas_idx < noise_model.arena_len(),
            corr_idx < noise_model.arena_len(),
            corr_meas_idx < noise_model.arena_len(),
            noiseless_idx < noise_model.arena_len(),
            noise_model.arena_at(noiseless_idx as int) == noiseless_record(),
            noise_model.arena_at(init_idx as int) == init_rec,
            noise_model.arena_at(plain_idx as int) == plain_rec,
            noise_model.arena_at(plain_meas_idx as int) == plain_meas_rec,
            noise_model.arena_at(corr_idx as int) == corr_rec,
            noise_model.arena_at(corr_meas_idx as int) == corr_meas_rec,
            init_rec.correlated_pauli_error_rates is None,
            init_rec.correlated_erasure_error_rates is None,
            plain_rec.correlated_pauli_error_rates is None,
            plain_rec.correlated_erasure_error_rates is None,
            plain_meas_rec.correlated_pauli_error_rates is None,
            plain_meas_rec.correlated_erasure_error_rates is None,
            t < height,
            i <= vertical,
            forall|a: int, b: int, c: int|
                simulator.exists_at(a, b, c) && (a < t || (a == t && b < i))
                    ==> #[trigger] noise_model.rates_at(a, b, c)
                    == gate_level_record(*simulator, use_ce, init_rec, plain_rec, plain_meas_rec, corr_rec, corr_meas_rec, a, b, c),
            decreases vertical - i,
        {
            let mut j: usize = 0;
            while j < horizontal
                invariant
            simulator.lattice_wf(),
            simulator.dims_ok(),
            noise_model_ok(*simulator, *noise_model),
            noise_model.height == simulator.height,
            noise_model.vertical == simulator.vertical,
            noise_model.horizontal == simulator.horizontal,
            noise_model.additional_noise == old(noise_model).additional_noise,
            height == simulator.height,
            vertical == simulator.vertical,
            horizontal == simulator.horizontal,
            noiseless_idx < noise_model.arena_len(),
            init_idx < noise_model.arena_len(),
            plain_idx < noise_model.arena_len(),
            plain_meas_idx < noise_model.arena_len(),
            corr_idx < noise_model.arena_len(),
            corr_meas_idx < noise_model.arena_len(),
            noiseless_idx < noise_model.arena_len(),
            noise_model.arena_at(noiseless_idx as int) == noiseless_record(),
            noise_model.arena_at(init_idx as int) == init_rec,
            noise_model.arena_at(plain_idx as int) == plain_rec,
            noise_model.arena_at(plain_meas_idx as int) == plain_meas_rec,
            noise_model.arena_at(corr_idx as int) == corr_rec,
            noise_model.arena_at(corr_meas_idx as int) == corr_meas_rec,
            init_rec.correlated_pauli_error_rates is None,
            init_rec.correlated_erasure_error_rates is None,
            plain_rec.correlated_pauli_error_rates is None,
            plain_rec.correlated_erasure_error_rates is None,
            plain_meas_rec.correlated_pauli_error_rates is None,
            plain_meas_rec.correlated_erasure_error_rates is None,
            t < height,
            i < vertical,
            j <= horizontal,
            forall|a: int, b: int, c: int|
                simulator.exists_at(a, b, c) && (a < t || (a == t && b < i) || (a == t && b == i
                    && c < j)) ==> #[trigger] noise_model.rates_at(a, b, c)
                    == gate_level_record(*simulator, use_ce, init_rec, plain_rec, plain_meas_rec, corr_rec, corr_meas_rec, a, b, c),
                decreases horizontal - j,
            {
                let position = Position::new(t, i, j);
                if simulator.is_node_exist(&position) {
                    let choice = gate_choice(simulator, use_ce, t, i, j);
                    let idx = if choice == 1 {
                        init_idx
                    }                     else if choice == 2 {
                        plain_idx
                    }                     else if choice == 3 {
                        plain_meas_idx
                    }                     else if choice == 4 {
                        corr_idx
                    }                     else if choice == 5 {
                        corr_meas_idx
                    } else {
                        noiseless_idx
                    };

                    let ghost prev_nm = *noise_model;
                    assign_cell(noise_model, simulator, &position, idx);
                    proof {
                        assert forall|a: int, b: int, c: int|
                            simulator.exists_at(a, b, c) && (a < t || (a == t && b < i) || (a == t
                                && b == i && c < j + 1)) implies #[trigger] noise_model.rates_at(
                            a,
                            b,
                            c,
                        ) == gate_level_record(*simulator, use_ce, init_rec, plain_rec, plain_meas_rec, corr_rec, corr_meas_rec, a, b, c) by {
                            if a == t && b == i && c == j {
                            } else {
                                assert(noise_model.rates_at(a, b, c) == prev_nm.rates_at(a, b, c));
                            }
                        }
                    }
                }
                j += 1;
            }
            i += 1;
        }
        t += 1;
    }
}



/// The Bell-preparation ancilla footprint whose stabilizers are not fixed by
/// the initialization: the sites `(3 + 2a + 2b, dn - 1 - 2a + 2b)` for
/// `a < (dn+1)/2 - 1` and `b < (dp+1)/2`, written in closed form.
pub open spec fn bell_footprint(dp: int, dn: int, i: int, j: int) -> bool {
    &&& i + j >= dn + 2
    &&& (i + j - dn - 2) % 4 == 0
    &&& (i + j - dn - 2) / 4 < (dp + 1) / 2
    &&& i + dn >= j + 4
    &&& (i + dn - j - 4) % 4 == 0
    &&& (i + dn - j - 4) / 4 < (dn + 1) / 2 - 1
}

/// Whether cell `(i, j)` lies on the Bell footprint (executable form).
fn bell_footprint_exec(dp: usize, dn: usize, i: usize, j: usize) -> (r: bool)
    ensures
        r == bell_footprint(dp as int, dn as int, i as int, j as int),
{
    let s1: u128 = i as u128 + j as u128;
    let t1: u128 = dn as u128 + 2;
    if s1 < t1 {
        return false;
    }
    let d1: u128 = s1 - t1;
    if d1 % 4 != 0 {
        return false;
    }
    if d1 / 4 >= ((dp as u128) + 1) / 2 {
        return false;
    }
    let s2: u128 = i as u128 + dn as u128;
    let t2: u128 = j as u128 + 4;
    if s2 < t2 {
        return false;
    }
    let d2: u128 = s2 - t2;
    if d2 % 4 != 0 {
        return false;
    }
    let lim: u128 = ((dn as u128) + 1) / 2;
    if d2 / 4 + 1 >= lim {
        return false;
    }
    true
}

/// Whether every non-data cell of the first measurement-round layer carries
/// a measurement, so that marking it virtual cannot break a coupling.
pub open spec fn ancillas_measure(s: Simulator) -> bool {
    forall|i: int, j: int|
        s.exists_at(s.measurement_cycles as int, i, j) && (#[trigger] s.get(
            s.measurement_cycles as int,
            i,
            j,
        )).qubit_type != QubitType::Data ==> is_measurement_spec(
            s.get(s.measurement_cycles as int, i, j).gate_type,
        )
}

/// Decide `ancillas_measure`.
fn ancillas_measure_exec(simulator: &Simulator) -> (r: bool)
    requires
        simulator.dims_ok(),
        simulator.measurement_cycles < simulator.height,
    ensures
        r == ancillas_measure(*simulator),
{
    let cy = simulator.measurement_cycles;
    let vertical = simulator.vertical;
    let horizontal = simulator.horizontal;
    let mut i: usize = 0;
    while i < vertical
        invariant
            simulator.dims_ok(),
            cy == simulator.measurement_cycles,
            cy < simulator.height,
            vertical == simulator.vertical,
            horizontal == simulator.horizontal,
            i <= vertical,
            forall|b: int, c: int|
                0 <= b < i && simulator.exists_at(cy as int, b, c) && (#[trigger] simulator.get(
                    cy as int,
                    b,
                    c,
                )).qubit_type != QubitType::Data ==> is_measurement_spec(
                    simulator.get(cy as int, b, c).gate_type,
                ),
        decreases vertical - i,
    {
        let mut j: usize = 0;
        while j < horizontal
            invariant
                simulator.dims_ok(),
                cy == simulator.measurement_cycles,
                cy < simulator.height,
                vertical == simulator.vertical,
                horizontal == simulator.horizontal,
                i < vertical,
                j <= horizontal,
                forall|b: int, c: int|
                    (0 <= b < i || (b == i && 0 <= c < j)) && simulator.exists_at(cy as int, b, c)
                        && (#[trigger] simulator.get(cy as int, b, c)).qubit_type
                        != QubitType::Data ==> is_measurement_spec(
                        simulator.get(cy as int, b, c).gate_type,
                    ),
            decreases horizontal - j,
        {
            let position = Position::new(cy, i, j);
            if simulator.is_node_exist(&position) {
                let node = simulator.get_node_unwrap(&position);
                if node.qubit_type != QubitType::Data && !node.gate_type.is_measurement() {
                    return false;
                }
            }
            j += 1;
        }
        i += 1;
    }
    true
}

/// Whether `s_new` is `s_old` with every non-data cell of the first
/// measurement-round layer marked virtual, and nothing else changed.
pub open spec fn bell_marked(s_old: Simulator, s_new: Simulator) -> bool {
    &&& s_new.code_type == s_old.code_type
    &&& s_new.height == s_old.height
    &&& s_new.vertical == s_old.vertical
    &&& s_new.horizontal == s_old.horizontal
    &&& s_new.measurement_cycles == s_old.measurement_cycles
    &&& s_new.rng == s_old.rng
    &&& forall|t: int, i: int, j: int|
        s_old.in_bounds(t, i, j) ==> #[trigger] s_new.node_at(t, i, j) == (if t
            == s_old.measurement_cycles && s_old.exists_at(t, i, j) && s_old.get(
            t,
            i,
            j,
        ).qubit_type != QubitType::Data {
            Some(SimulatorNode { is_virtual: true, ..s_old.get(t, i, j) })
        } else {
            s_old.node_at(t, i, j)
        })
}

/// Mark every non-data cell of the first measurement-round layer virtual:
/// Bell-state preparation fixes three quarters of the stabilizers, so their
/// first measurements carry no information. The marked cells carry
/// measurements, so no coupling's mirror flag is disturbed and the lattice
/// stays well formed.
#[verifier::rlimit(100)]
#[verifier::spinoff_prover]
fn mark_bell_ancillas(simulator: &mut Simulator)
    requires
        old(simulator).lattice_wf(),
        ancillas_measure(*old(simulator)),
        old(simulator).measurement_cycles < old(simulator).height,
    ensures
        bell_marked(*old(simulator), *final(simulator)),
        final(simulator).lattice_wf(),
        final(simulator).dims_ok(),
        syndrome_wf(*old(simulator)) ==> syndrome_wf(*final(simulator)),
        forall|t: int, i: int, j: int|
            old(simulator).in_bounds(t, i, j) ==> #[trigger] final(simulator).exists_at(t, i, j)
                == old(simulator).exists_at(t, i, j),
{
    proof {
        lemma_wf_dims(*old(simulator));
    }
    let cy = simulator.measurement_cycles;
    let vertical = simulator.vertical;
    let horizontal = simulator.horizontal;
    let mut i: usize = 0;
    while i < vertical
        invariant
            old(simulator).lattice_wf(),
            ancillas_measure(*old(simulator)),
            simulator.dims_ok(),
            simulator.code_type == old(simulator).code_type,
            simulator.height == old(simulator).height,
            simulator.vertical == old(simulator).vertical,
            simulator.horizontal == old(simulator).horizontal,
            simulator.measurement_cycles == old(simulator).measurement_cycles,
            simulator.rng == old(simulator).rng,
            cy == old(simulator).measurement_cycles,
            cy < old(simulator).height,
            vertical == old(simulator).vertical,
            horizontal == old(simulator).horizontal,
            i <= vertical,
            forall|t2: int, i2: int, j2: int|
                old(simulator).in_bounds(t2, i2, j2) ==> #[trigger] simulator.node_at(t2, i2, j2)
                    == (if t2 == cy && i2 < i && old(simulator).exists_at(t2, i2, j2) && old(
                    simulator,
                ).get(t2, i2, j2).qubit_type != QubitType::Data {
                    Some(SimulatorNode { is_virtual: true, ..old(simulator).get(t2, i2, j2) })
                } else {
                    old(simulator).node_at(t2, i2, j2)
                }),
        decreases vertical - i,
    {
        let mut j: usize = 0;
        while j < horizontal
            invariant
                old(simulator).lattice_wf(),
                ancillas_measure(*old(simulator)),
                simulator.dims_ok(),
                simulator.code_type == old(simulator).code_type,
                simulator.height == old(simulator).height,
                simulator.vertical == old(simulator).vertical,
                simulator.horizontal == old(simulator).horizontal,
                simulator.measurement_cycles == old(simulator).measurement_cycles,
                simulator.rng == old(simulator).rng,
                cy == old(simulator).measurement_cycles,
                cy < old(simulator).height,
                vertical == old(simulator).vertical,
                horizontal == old(simulator).horizontal,
                i < vertical,
                j <= horizontal,
                forall|t2: int, i2: int, j2: int|
                    old(simulator).in_bounds(t2, i2, j2) ==> #[trigger] simulator.node_at(
                        t2,
                        i2,
                        j2,
                    ) == (if t2 == cy && (i2 < i || (i2 == i && j2 < j)) && old(
                        simulator,
                    ).exists_at(t2, i2, j2) && old(simulator).get(t2, i2, j2).qubit_type
                        != QubitType::Data {
                        Some(SimulatorNode { is_virtual: true, ..old(simulator).get(t2, i2, j2) })
                    } else {
                        old(simulator).node_at(t2, i2, j2)
                    }),
            decreases horizontal - j,
        {
            let position = Position::new(cy, i, j);
            proof {
                assert(simulator.node_at(cy as int, i as int, j as int) == old(
                    simulator,
                ).node_at(cy as int, i as int, j as int));
            }
            if simulator.is_node_exist(&position) {
                if simulator.get_node_unwrap(&position).qubit_type != QubitType::Data {
                    let ghost prev = *simulator;
                    simulator.set_virtual_field(&position, true);
                    proof {
                        assert forall|t2: int, i2: int, j2: int|
                            old(simulator).in_bounds(t2, i2, j2) implies
                            #[trigger] simulator.node_at(t2, i2, j2) == (if t2 == cy && (i2 < i || (
                            i2 == i && j2 < j + 1)) && old(simulator).exists_at(t2, i2, j2) && old(
                            simulator,
                        ).get(t2, i2, j2).qubit_type != QubitType::Data {
                            Some(
                                SimulatorNode {
                                    is_virtual: true,
                                    ..old(simulator).get(t2, i2, j2)
                                },
                            )
                        } else {
                            old(simulator).node_at(t2, i2, j2)
                        }) by {
                            if t2 == cy as int && i2 == i as int && j2 == j as int {
                            } else {
                                assert(simulator.node_at(t2, i2, j2) == prev.node_at(t2, i2, j2));
                            }
                        }
                    }
                }
            }
            j += 1;
        }
        i += 1;
    }
    proof {
        let so = *old(simulator);
        let sn = *simulator;
        assert(bell_marked(so, sn));
        assert forall|t2: int, i2: int, j2: int|
            so.in_bounds(t2, i2, j2) implies #[trigger] sn.exists_at(t2, i2, j2) == so.exists_at(
            t2,
            i2,
            j2,
        ) by {
            assert(sn.node_at(t2, i2, j2) == (if t2 == so.measurement_cycles && so.exists_at(
                t2,
                i2,
                j2,
            ) && so.get(t2, i2, j2).qubit_type != QubitType::Data {
                Some(SimulatorNode { is_virtual: true, ..so.get(t2, i2, j2) })
            } else {
                so.node_at(t2, i2, j2)
            }));
        }
        assert forall|t2: int, i2: int, j2: int|
            so.exists_at(t2, i2, j2) implies (#[trigger] sn.get(t2, i2, j2)).gate_type == so.get(
            t2,
            i2,
            j2,
        ).gate_type && sn.get(t2, i2, j2).peer() == so.get(t2, i2, j2).peer() && sn.get(
            t2,
            i2,
            j2,
        ).qubit_type == so.get(t2, i2, j2).qubit_type && sn.get(t2, i2, j2).is_peer_virtual
            == so.get(t2, i2, j2).is_peer_virtual by {
            assert(sn.node_at(t2, i2, j2) == (if t2 == so.measurement_cycles && so.exists_at(
                t2,
                i2,
                j2,
            ) && so.get(t2, i2, j2).qubit_type != QubitType::Data {
                Some(SimulatorNode { is_virtual: true, ..so.get(t2, i2, j2) })
            } else {
                so.node_at(t2, i2, j2)
            }));
        }
        assert forall|t2: int, i2: int, j2: int|
            sn.in_bounds(t2, i2, j2) implies #[trigger] sn.exists_at(t2, i2, j2) == sn.exists_at(
            0,
            i2,
            j2,
        ) by {
            lemma_wf_column(so, t2, i2, j2);
            assert(so.measurement_cycles >= 1) by {
                lemma_wf_dims(so);
            }
        }
        assert forall|t2: int, i2: int, j2: int| sn.exists_at(t2, i2, j2) implies
            #[trigger] crate::simulator::cell_peer_ok(sn, t2, i2, j2) by {
            assert(so.exists_at(t2, i2, j2));
            lemma_wf_cell(so, t2, i2, j2);
            let n_old = so.get(t2, i2, j2);
            let n_new = sn.get(t2, i2, j2);
            match n_old.peer() {
                Some(p) => {
                    assert(so.exists_at(t2, p.i as int, p.j as int));
                    assert(sn.exists_at(t2, p.i as int, p.j as int));
                    let q_old = so.get(t2, p.i as int, p.j as int);
                    let q_new = sn.get(t2, p.i as int, p.j as int);
                    assert(q_new.gate_type == q_old.gate_type && q_new.peer() == q_old.peer());
                    assert(q_new.is_virtual == q_old.is_virtual) by {
                        if t2 == so.measurement_cycles && q_old.qubit_type != QubitType::Data {
                            assert(is_measurement_spec(q_old.gate_type));
                            lemma_wf_cell(so, t2, p.i as int, p.j as int);
                            assert(q_old.peer() == Some(
                                Position { t: t2 as usize, i: i2 as usize, j: j2 as usize },
                            ));
                            assert(crate::pauli::is_two_qubit_gate_spec(q_old.gate_type));
                            assert(false);
                        }
                        assert(sn.node_at(t2, p.i as int, p.j as int) == so.node_at(
                            t2,
                            p.i as int,
                            p.j as int,
                        ));
                    }
                },
                None => {},
            }
            reveal(crate::simulator::cell_peer_ok);
        }
        reveal(Simulator::lattice_wf);
        assert(sn.lattice_wf());
        if syndrome_wf(so) {
            assert forall|t2: int, i2: int, j2: int|
                sn.exists_at(t2, i2, j2) && sn.measurement_cycles <= t2 && t2 % (
            sn.measurement_cycles as int) == 0 && is_measurement_spec((#[trigger] sn.get(
                t2,
                i2,
                j2,
            )).gate_type) implies measurement_found(sn, t2, i2, j2) by {
                assert(so.exists_at(t2, i2, j2));
                assert(so.get(t2, i2, j2).gate_type == sn.get(t2, i2, j2).gate_type);
                assert(measurement_found(so, t2, i2, j2));
                crate::simulator::lemma_found_gate_congruence(so, sn, t2, i2, j2);
            }
        }
    }
}

/// A fully noiseless model with no extra noise sources is admissible for any
/// lattice of its shape.
proof fn lemma_noiseless_model_ok(s: Simulator, nm: NoiseModel)
    requires
        nm.wf(),
        nm.height == s.height,
        nm.vertical == s.vertical,
        nm.horizontal == s.horizontal,
        nm.additional_noise@.len() == 0,
        forall|t: int, i: int, j: int|
            s.exists_at(t, i, j) ==> (#[trigger] nm.rates_at(t, i, j)).is_noiseless(),
    ensures
        noise_model_ok(s, nm),
{
}

/// The record every cell of the Bell-initialization phenomenological
/// scenario ends with: the unfixed footprint carries the half-rate
/// measurement flip for the cycle before the first round; from the first
/// round up to the perfect cap, data qubits at a cycle start carry the
/// biased marginals and ancillas the cell before a measurement the pure
/// measurement flip; everything else is noiseless.
pub open spec fn bell_phenom_record(
    s: Simulator,
    dp: int,
    dn: int,
    data_rec: NoiseModelNode,
    anc_rec: NoiseModelNode,
    messed_rec: NoiseModelNode,
    t: int,
    i: int,
    j: int,
) -> NoiseModelNode {
    let n = s.get(t, i, j);
    let cycles = s.measurement_cycles as int;
    if n.is_virtual {
        noiseless_record()
    } else if t == cycles - 1 && bell_footprint(dp, dn, i, j) {
        messed_rec
    } else if t >= cycles && s.height - t > cycles {
        if t % cycles == 0 && n.qubit_type == QubitType::Data {
            data_rec
        } else if (t + 1) % cycles == 0 && n.qubit_type != QubitType::Data {
            anc_rec
        } else {
            noiseless_record()
        }
    } else {
        noiseless_record()
    }
}

/// The record every cell of the Bell-initialization circuit scenario ends
/// with: the first noisy round is silent; afterwards, below the cap,
/// initialization layers carry the biased marginals and CX/CY control wires
/// of ancillas with real peers the bias-preserving table, with the biased
/// marginals added before a measurement.
pub open spec fn bell_circuit_record(
    s: Simulator,
    normal: NoiseModelNode,
    cx: NoiseModelNode,
    cx_meas: NoiseModelNode,
    t: int,
    i: int,
    j: int,
) -> NoiseModelNode {
    let n = s.get(t, i, j);
    let cycles = s.measurement_cycles as int;
    if n.is_virtual {
        noiseless_record()
    } else if t >= cycles && t < 2 * cycles {
        noiseless_record()
    } else if s.height - t > cycles {
        if t % cycles == 1 {
            normal
        } else if t % cycles == 0 {
            noiseless_record()
        } else {
            let has_meas = (t + 1) % cycles == 0 && n.qubit_type != QubitType::Data;
            if (n.gate_type == GateType::CXGateControl || n.gate_type == GateType::CYGateControl)
                && n.qubit_type != QubitType::Data && !n.is_peer_virtual {
                if has_meas {
                    cx_meas
                } else {
                    cx
                }
            } else {
                noiseless_record()
            }
        }
    } else {
        noiseless_record()
    }
}

/// Which record of the Bell phenomenological scenario cell `(t, i, j)`
/// selects: `0` noiseless, `1` data, `2` ancilla, `3` the half-rate
/// footprint record.
fn bell_phenom_choice(simulator: &Simulator, dp: usize, dn: usize, t: usize, i: usize, j: usize) -> (r: u8)
    requires
        simulator.lattice_wf(),
        simulator.exists_at(t as int, i as int, j as int),
    ensures
        forall|n1: NoiseModelNode, n2: NoiseModelNode, n3: NoiseModelNode|
            #[trigger] bell_phenom_record(
                *simulator,
                dp as int,
                dn as int,
                n1,
                n2,
                n3,
                t as int,
                i as int,
                j as int,
            ) == (if r == 1 {
                n1
            } else if r == 2 {
                n2
            } else if r == 3 {
                n3
            } else {
                noiseless_record()
            }),
        r != 0 ==> !simulator.get(t as int, i as int, j as int).is_virtual,
{
    proof {
        lemma_wf_dims(*simulator);
    }
    let cycles = simulator.measurement_cycles;
    let position = Position::new(t, i, j);
    let node = simulator.get_node_unwrap(&position);
    if node.is_virtual {
        return 0;
    }
    if t + 1 == cycles && bell_footprint_exec(dp, dn, i, j) {
        return 3;
    }
    if t >= cycles && simulator.height - t > cycles {
        if t % cycles == 0 && node.qubit_type == QubitType::Data {
            return 1;
        }
        if (t + 1) % cycles == 0 && node.qubit_type != QubitType::Data {
            return 2;
        }
    }
    0
}

/// Which record of the Bell circuit scenario cell `(t, i, j)` selects: `0`
/// noiseless, `1` the biased marginals, `2`/`3` the CX table (plain and
/// measurement).
fn bell_circuit_choice(simulator: &Simulator, t: usize, i: usize, j: usize) -> (r: u8)
    requires
        simulator.lattice_wf(),
        simulator.exists_at(t as int, i as int, j as int),
    ensures
        forall|n1: NoiseModelNode, n2: NoiseModelNode, n3: NoiseModelNode|
            #[trigger] bell_circuit_record(
                *simulator,
                n1,
                n2,
                n3,
                t as int,
                i as int,
                j as int,
            ) == (if r == 1 {
                n1
            } else if r == 2 {
                n2
            } else if r == 3 {
                n3
            } else {
                noiseless_record()
            }),
        r != 0 ==> !simulator.get(t as int, i as int, j as int).is_virtual,
        r >= 2 ==> {
            let n = simulator.get(t as int, i as int, j as int);
            n.peer() is Some && !n.is_peer_virtual
        },
{
    proof {
        lemma_wf_dims(*simulator);
        lemma_wf_cell(*simulator, t as int, i as int, j as int);
    }
    let cycles = simulator.measurement_cycles;
    let position = Position::new(t, i, j);
    let node = simulator.get_node_unwrap(&position);
    if node.is_virtual {
        return 0;
    }
    if t >= cycles && (t as u128) < 2 * (cycles as u128) {
        return 0;
    }
    if simulator.height - t > cycles {
        if t % cycles == 1 {
            return 1;
        }
        if t % cycles == 0 {
            return 0;
        }
        let has_meas = (t + 1) % cycles == 0 && node.qubit_type != QubitType::Data;
        if (node.gate_type == GateType::CXGateControl || node.gate_type == GateType::CYGateControl)
            && node.qubit_type != QubitType::Data && !node.is_peer_virtual {
            if has_meas {
                return 3;
            }
            return 2;
        }
    }
    0
}

/// When the Bell phenomenological scenario succeeds: a rotated tailored
/// descriptor with noisy rounds, only the measurement key given, no
/// erasures, a markable first round, an empty extra-noise list, and the
/// biased marginals well defined.
pub open spec fn bell_phenom_ok(
    s: Simulator,
    nm: NoiseModel,
    config: NoiseBuilderConfig,
    p: u64,
    bias: BiasEta,
    pe: u64,
) -> bool {
    &&& bias.den > 0
    &&& p <= PROB_ONE
    &&& pe <= PROB_ONE
    &&& s.code_type matches CodeType::RotatedTailoredCode { .. }
    &&& crate::code_builder::code_parameters(s.code_type)->Some_0.0 > 0
    &&& config.initialization_error_rate is None
    &&& config.use_correlated_erasure is None
    &&& config.use_correlated_pauli is None
    &&& config.before_pauli_bug_fix is None
    &&& pe == 0
    &&& s.measurement_cycles >= 2
    &&& s.measurement_cycles < s.height
    &&& nm.additional_noise@.len() == 0
    &&& ancillas_measure(s)
    &&& bias.den <= u64::MAX / 4
    &&& bias.num <= u64::MAX / 4
    &&& phenom_px(p, bias) <= u64::MAX
    &&& 2 * phenom_px(p, bias) <= p
    &&& phenom_pm(config, p) <= PROB_ONE
}

/// When the Bell circuit scenario succeeds: a rotated tailored descriptor
/// with noisy rounds, no erasures, a markable first round, an empty
/// extra-noise list, and the biased records well defined (the configuration
/// is not read).
pub open spec fn bell_circuit_ok(
    s: Simulator,
    nm: NoiseModel,
    p: u64,
    bias: BiasEta,
    pe: u64,
) -> bool {
    &&& bias.den > 0
    &&& p <= PROB_ONE
    &&& pe <= PROB_ONE
    &&& s.code_type matches CodeType::RotatedTailoredCode { .. }
    &&& crate::code_builder::code_parameters(s.code_type)->Some_0.0 > 0
    &&& pe == 0
    &&& s.measurement_cycles >= 2
    &&& s.measurement_cycles < s.height
    &&& nm.additional_noise@.len() == 0
    &&& ancillas_measure(s)
    &&& bias.num > 0
    &&& over_eta(p, bias) <= u64::MAX
    &&& over_eta(p, bias) <= PROB_ONE
    &&& bc_normal_rec(p, bias).wf()
    &&& table_rec(gb_cx_table(p, bias, false)).wf()
    &&& bc_meas_rec(p, bias).wf()
}

/// The biased marginal record of the Bell circuit scenario (rate `p` on Z).
pub open spec fn bc_normal_rec(p: u64, bias: BiasEta) -> NoiseModelNode {
    marginal_rec(over_eta(p, bias) as u64, over_eta(p, bias) as u64, p, 0)
}

/// The Bell circuit CX table with the biased marginals of the measurement
/// stage added.
pub open spec fn bc_meas_rec(p: u64, bias: BiasEta) -> NoiseModelNode {
    NoiseModelNode {
        pauli_error_rates: bc_normal_rec(p, bias).pauli_error_rates,
        erasure_error_rate: 0,
        correlated_pauli_error_rates: Some(gb_cx_table(p, bias, false)),
        correlated_erasure_error_rates: None,
    }
}

/// Point every existing cell at the record this scenario calls for.
#[verifier::rlimit(100)]
#[verifier::spinoff_prover]
fn apply_bell_phenom(
    simulator: &Simulator,
    noise_model: &mut NoiseModel,
    dp: usize,
    dn: usize,
    noiseless_idx: usize,
    data_idx: usize,
    anc_idx: usize,
    messed_idx: usize,
)
    requires
        simulator.lattice_wf(),
        noise_model_ok(*simulator, *old(noise_model)),
        old(noise_model).height == simulator.height,
        old(noise_model).vertical == simulator.vertical,
        old(noise_model).horizontal == simulator.horizontal,
        noiseless_idx < old(noise_model).arena_len(),
        data_idx < old(noise_model).arena_len(),
        anc_idx < old(noise_model).arena_len(),
        messed_idx < old(noise_model).arena_len(),
        old(noise_model).arena_at(noiseless_idx as int) == noiseless_record(),
        old(noise_model).arena_at(data_idx as int).correlated_pauli_error_rates is None,
        old(noise_model).arena_at(data_idx as int).correlated_erasure_error_rates is None,
        old(noise_model).arena_at(anc_idx as int).correlated_pauli_error_rates is None,
        old(noise_model).arena_at(anc_idx as int).correlated_erasure_error_rates is None,
        old(noise_model).arena_at(messed_idx as int).correlated_pauli_error_rates is None,
        old(noise_model).arena_at(messed_idx as int).correlated_erasure_error_rates is None,

    ensures
        noise_model_ok(*simulator, *final(noise_model)),
        final(noise_model).height == old(noise_model).height,
        final(noise_model).vertical == old(noise_model).vertical,
        final(noise_model).horizontal == old(noise_model).horizontal,
        final(noise_model).additional_noise == old(noise_model).additional_noise,
        forall|t: int, i: int, j: int|
            simulator.exists_at(t, i, j) ==> #[trigger] final(noise_model).rates_at(t, i, j)
                == bell_phenom_record(
                *simulator,
                dp as int, dn as int,
                old(noise_model).arena_at(data_idx as int),
                old(noise_model).arena_at(anc_idx as int),
                old(noise_model).arena_at(messed_idx as int),
                t,
                i,
                j,
            ),
{
    proof {
        lemma_wf_dims(*simulator);
    }
    let ghost data_rec = old(noise_model).arena_at(data_idx as int);
    let ghost anc_rec = old(noise_model).arena_at(anc_idx as int);
    let ghost messed_rec = old(noise_model).arena_at(messed_idx as int);
    let height = simulator.height;
    let vertical = simulator.vertical;
    let horizontal = simulator.horizontal;
    let mut t: usize = 0;
    while t < height
        invariant
            simulator.lattice_wf(),
            simulator.dims_ok(),
            noise_model_ok(*simulator, *noise_model),
            noise_model.height == simulator.height,
            noise_model.vertical == simulator.vertical,
            noise_model.horizontal == simulator.horizontal,
            noise_model.additional_noise == old(noise_model).additional_noise,
            height == simulator.height,
            vertical == simulator.vertical,
            horizontal == simulator.horizontal,
            data_idx < noise_model.arena_len(),
            anc_idx < noise_model.arena_len(),
            messed_idx < noise_model.arena_len(),
            noiseless_idx < noise_model.arena_len(),
            noise_model.arena_at(noiseless_idx as int) == noiseless_record(),
            noise_model.arena_at(data_idx as int) == data_rec,
            noise_model.arena_at(anc_idx as int) == anc_rec,
            noise_model.arena_at(messed_idx as int) == messed_rec,
            data_rec.correlated_pauli_error_rates is None,
            data_rec.correlated_erasure_error_rates is None,
            anc_rec.correlated_pauli_error_rates is None,
            anc_rec.correlated_erasure_error_rates is None,
            messed_rec.correlated_pauli_error_rates is None,
            messed_rec.correlated_erasure_error_rates is None,
            t <= height,
            forall|a: int, b: int, c: int|
                simulator.exists_at(a, b, c) && a < t ==> #[trigger] noise_model.rates_at(a, b, c)
                    == bell_phenom_record(*simulator, dp as int, dn as int, data_rec, anc_rec, messed_rec, a, b, c),
        decreases height - t,
    {
        let mut i: usize = 0;
        while i < vertical
            invariant
            simulator.lattice_wf(),
            simulator.dims_ok(),
            noise_model_ok(*simulator, *noise_model),
            noise_model.height == simulator.height,
            noise_model.vertical == simulator.vertical,
            noise_model.horizontal == simulator.horizontal,
            noise_model.additional_noise == old(noise_model).additional_noise,
            height == simulator.height,
            vertical == simulator.vertical,
            horizontal == simulator.horizontal,
            data_idx < noise_model.arena_len(),
            anc_idx < noise_model.arena_len(),
            messed_idx < noise_model.arena_len(),
            noiseless_idx < noise_model.arena_len(),
            noise_model.arena_at(noiseless_idx as int) == noiseless_record(),
            noise_model.arena_at(data_idx as int) == data_rec,
            noise_model.arena_at(anc_idx as int) == anc_rec,
            noise_model.arena_at(messed_idx as int) == messed_rec,
            data_rec.correlated_pauli_error_rates is None,
            data_rec.correlated_erasure_error_rates is None,
            anc_rec.correlated_pauli_error_rates is None,
            anc_rec.correlated_erasure_error_rates is None,
            messed_rec.correlated_pauli_error_rates is None,
            messed_rec.correlated_erasure_error_rates is None,
            t < height,
            i <= vertical,
            forall|a: int, b: int, c: int|
                simulator.exists_at(a, b, c) && (a < t || (a == t && b < i))
                    ==> #[trigger] noise_model.rates_at(a, b, c)
                    == bell_phenom_record(*simulator, dp as int, dn as int, data_rec, anc_rec, messed_rec, a, b, c),
            decreases vertical - i,
        {
            let mut j: usize = 0;
            while j < horizontal
                invariant
            simulator.lattice_wf(),
            simulator.dims_ok(),
            noise_model_ok(*simulator, *noise_model),
            noise_model.height == simulator.height,
            noise_model.vertical == simulator.vertical,
            noise_model.horizontal == simulator.horizontal,
            noise_model.additional_noise == old(noise_model).additional_noise,
            height == simulator.height,
            vertical == simulator.vertical,
            horizontal == simulator.horizontal,
            data_idx < noise_model.arena_len(),
            anc_idx < noise_model.arena_len(),
            messed_idx < noise_model.arena_len(),
            noiseless_idx < noise_model.arena_len(),
            noise_model.arena_at(noiseless_idx as int) == noiseless_record(),
            noise_model.arena_at(data_idx as int) == data_rec,
            noise_model.arena_at(anc_idx as int) == anc_rec,
            noise_model.arena_at(messed_idx as int) == messed_rec,
            data_rec.correlated_pauli_error_rates is None,
            data_rec.correlated_erasure_error_rates is None,
            anc_rec.correlated_pauli_error_rates is None,
            anc_rec.correlated_erasure_error_rates is None,
            messed_rec.correlated_pauli_error_rates is None,
            messed_rec.correlated_erasure_error_rates is None,
            t < height,
            i < vertical,
            j <= horizontal,
            forall|a: int, b: int, c: int|
                simulator.exists_at(a, b, c) && (a < t || (a == t && b < i) || (a == t && b == i
                    && c < j)) ==> #[trigger] noise_model.rates_at(a, b, c)
                    == bell_phenom_record(*simulator, dp as int, dn as int, data_rec, anc_rec, messed_rec, a, b, c),
                decreases horizontal - j,
            {
                let position = Position::new(t, i, j);
                if simulator.is_node_exist(&position) {
                    let choice = bell_phenom_choice(simulator, dp, dn, t, i, j);
                    let idx = if choice == 1 {
                        data_idx
                    }                     else if choice == 2 {
                        anc_idx
                    }                     else if choice == 3 {
                        messed_idx
                    } else {
                        noiseless_idx
                    };

                    let ghost prev_nm = *noise_model;
                    assign_cell(noise_model, simulator, &position, idx);
                    proof {
                        assert forall|a: int, b: int, c: int|
                            simulator.exists_at(a, b, c) && (a < t || (a == t && b < i) || (a == t
                                && b == i && c < j + 1)) implies #[trigger] noise_model.rates_at(
                            a,
                            b,
                            c,
                        ) == bell_phenom_record(*simulator, dp as int, dn as int, data_rec, anc_rec, messed_rec, a, b, c) by {
                            if a == t && b == i && c == j {
                            } else {
                                assert(noise_model.rates_at(a, b, c) == prev_nm.rates_at(a, b, c));
                            }
                        }
                    }
                }
                j += 1;
            }
            i += 1;
        }
        t += 1;
    }
}

/// Point every existing cell at the record this scenario calls for.
#[verifier::rlimit(100)]
#[verifier::spinoff_prover]
fn apply_bell_circuit(
    simulator: &Simulator,
    noise_model: &mut NoiseModel,
    noiseless_idx: usize,
    normal_idx: usize,
    cx_idx: usize,
    cx_meas_idx: usize,
)
    requires
        simulator.lattice_wf(),
        noise_model_ok(*simulator, *old(noise_model)),
        old(noise_model).height == simulator.height,
        old(noise_model).vertical == simulator.vertical,
        old(noise_model).horizontal == simulator.horizontal,
        noiseless_idx < old(noise_model).arena_len(),
        normal_idx < old(noise_model).arena_len(),
        cx_idx < old(noise_model).arena_len(),
        cx_meas_idx < old(noise_model).arena_len(),
        old(noise_model).arena_at(noiseless_idx as int) == noiseless_record(),
        old(noise_model).arena_at(normal_idx as int).correlated_pauli_error_rates is None,
        old(noise_model).arena_at(normal_idx as int).correlated_erasure_error_rates is None,

    ensures
        noise_model_ok(*simulator, *final(noise_model)),
        final(noise_model).height == old(noise_model).height,
        final(noise_model).vertical == old(noise_model).vertical,
        final(noise_model).horizontal == old(noise_model).horizontal,
        final(noise_model).additional_noise == old(noise_model).additional_noise,
        forall|t: int, i: int, j: int|
            simulator.exists_at(t, i, j) ==> #[trigger] final(noise_model).rates_at(t, i, j)
                == bell_circuit_record(
                *simulator,
                old(noise_model).arena_at(normal_idx as int),
                old(noise_model).arena_at(cx_idx as int),
                old(noise_model).arena_at(cx_meas_idx as int),
                t,
                i,
                j,
            ),
{
    proof {
        lemma_wf_dims(*simulator);
    }
    let ghost normal_rec = old(noise_model).arena_at(normal_idx as int);
    let ghost cx_rec = old(noise_model).arena_at(cx_idx as int);
    let ghost cx_meas_rec = old(noise_model).arena_at(cx_meas_idx as int);
    let height = simulator.height;
    let vertical = simulator.vertical;
    let horizontal = simulator.horizontal;
    let mut t: usize = 0;
    while t < height
        invariant
            simulator.lattice_wf(),
            simulator.dims_ok(),
            noise_model_ok(*simulator, *noise_model),
            noise_model.height == simulator.height,
            noise_model.vertical == simulator.vertical,
            noise_model.horizontal == simulator.horizontal,
            noise_model.additional_noise == old(noise_model).additional_noise,
            height == simulator.height,
            vertical == simulator.vertical,
            horizontal == simulator.horizontal,
            normal_idx < noise_model.arena_len(),
            cx_idx < noise_model.arena_len(),
            cx_meas_idx < noise_model.arena_len(),
            noiseless_idx < noise_model.arena_len(),
            noise_model.arena_at(noiseless_idx as int) == noiseless_record(),
            noise_model.arena_at(normal_idx as int) == normal_rec,
            noise_model.arena_at(cx_idx as int) == cx_rec,
            noise_model.arena_at(cx_meas_idx as int) == cx_meas_rec,
            normal_rec.correlated_pauli_error_rates is None,
            normal_rec.correlated_erasure_error_rates is None,
            t <= height,
            forall|a: int, b: int, c: int|
                simulator.exists_at(a, b, c) && a < t ==> #[trigger] noise_model.rates_at(a, b, c)
                    == bell_circuit_record(*simulator, normal_rec, cx_rec, cx_meas_rec, a, b, c),
        decreases height - t,
    {
        let mut i: usize = 0;
        while i < vertical
            invariant
            simulator.lattice_wf(),
            simulator.dims_ok(),
            noise_model_ok(*simulator, *noise_model),
            noise_model.height == simulator.height,
            noise_model.vertical == simulator.vertical,
            noise_model.horizontal == simulator.horizontal,
            noise_model.additional_noise == old(noise_model).additional_noise,
            height == simulator.height,
            vertical == simulator.vertical,
            horizontal == simulator.horizontal,
            normal_idx < noise_model.arena_len(),
            cx_idx < noise_model.arena_len(),
            cx_meas_idx < noise_model.arena_len(),
            noiseless_idx < noise_model.arena_len(),
            noise_model.arena_at(noiseless_idx as int) == noiseless_record(),
            noise_model.arena_at(normal_idx as int) == normal_rec,
            noise_model.arena_at(cx_idx as int) == cx_rec,
            noise_model.arena_at(cx_meas_idx as int) == cx_meas_rec,
            normal_rec.correlated_pauli_error_rates is None,
            normal_rec.correlated_erasure_error_rates is None,
            t < height,
            i <= vertical,
            forall|a: int, b: int, c: int|
                simulator.exists_at(a, b, c) && (a < t || (a == t && b < i))
                    ==> #[trigger] noise_model.rates_at(a, b, c)
                    == bell_circuit_record(*simulator, normal_rec, cx_rec, cx_meas_rec, a, b, c),
            decreases vertical - i,
        {
            let mut j: usize = 0;
            while j < horizontal
                invariant
            simulator.lattice_wf(),
            simulator.dims_ok(),
            noise_model_ok(*simulator, *noise_model),
            noise_model.height == simulator.height,
            noise_model.vertical == simulator.vertical,
            noise_model.horizontal == simulator.horizontal,
            noise_model.additional_noise == old(noise_model).additional_noise,
            height == simulator.height,
            vertical == simulator.vertical,
            horizontal == simulator.horizontal,
            normal_idx < noise_model.arena_len(),
            cx_idx < noise_model.arena_len(),
            cx_meas_idx < noise_model.arena_len(),
            noiseless_idx < noise_model.arena_len(),
            noise_model.arena_at(noiseless_idx as int) == noiseless_record(),
            noise_model.arena_at(normal_idx as int) == normal_rec,
            noise_model.arena_at(cx_idx as int) == cx_rec,
            noise_model.arena_at(cx_meas_idx as int) == cx_meas_rec,
            normal_rec.correlated_pauli_error_rates is None,
            normal_rec.correlated_erasure_error_rates is None,
            t < height,
            i < vertical,
            j <= horizontal,
            forall|a: int, b: int, c: int|
                simulator.exists_at(a, b, c) && (a < t || (a == t && b < i) || (a == t && b == i
                    && c < j)) ==> #[trigger] noise_model.rates_at(a, b, c)
                    == bell_circuit_record(*simulator, normal_rec, cx_rec, cx_meas_rec, a, b, c),
                decreases horizontal - j,
            {
                let position = Position::new(t, i, j);
                if simulator.is_node_exist(&position) {
                    let choice = bell_circuit_choice(simulator, t, i, j);
                    let idx = if choice == 1 {
                        normal_idx
                    }                     else if choice == 2 {
                        cx_idx
                    }                     else if choice == 3 {
                        cx_meas_idx
                    } else {
                        noiseless_idx
                    };

                    let ghost prev_nm = *noise_model;
                    assign_cell(noise_model, simulator, &position, idx);
                    proof {
                        assert forall|a: int, b: int, c: int|
                            simulator.exists_at(a, b, c) && (a < t || (a == t && b < i) || (a == t
                                && b == i && c < j + 1)) implies #[trigger] noise_model.rates_at(
                            a,
                            b,
                            c,
                        ) == bell_circuit_record(*simulator, normal_rec, cx_rec, cx_meas_rec, a, b, c) by {
                            if a == t && b == i && c == j {
                            } else {
                                assert(noise_model.rates_at(a, b, c) == prev_nm.rates_at(a, b, c));
                            }
                        }
                    }
                }
                j += 1;
            }
            i += 1;
        }
        t += 1;
    }
}

impl ErrorModelBuilder {
    /// The scenario names the library offers, one per variant in
    /// declaration order.
    pub fn possible_values() -> (r: Vec<&'static str>)
        ensures
            r@.len() == 7,
            r@[0]@ == "Phenomenological"@,
            r@[1]@ == "TailoredScBellInitPhenomenological"@,
            r@[2]@ == "TailoredScBellInitCircuit"@,
            r@[3]@ == "GenericBiasedWithBiasedCX"@,
            r@[4]@ == "GenericBiasedWithStandardCX"@,
            r@[5]@ == "ErasureOnlyPhenomenological"@,
            r@[6]@ == "OnlyGateErrorCircuitLevel"@,
    {
        let mut v: Vec<&'static str> = Vec::new();
        v.push("Phenomenological");
        v.push("TailoredScBellInitPhenomenological");
        v.push("TailoredScBellInitCircuit");
        v.push("GenericBiasedWithBiasedCX");
        v.push("GenericBiasedWithStandardCX");
        v.push("ErasureOnlyPhenomenological");
        v.push("OnlyGateErrorCircuitLevel");
        v
    }

    /// Populate the noise model for this scenario: point every existing
    /// cell of the lattice at exactly the record its stage calls for, and
    /// succeed exactly when the requested rates form valid distributions.
    /// `p` is the overall Pauli rate, `bias_eta` the Z bias, `pe` the
    /// erasure rate, all over `PROB_ONE`. On failure the model is left
    /// untouched.
    #[verifier::rlimit(100)]
    #[verifier::spinoff_prover]
    pub fn apply(
        &self,
        simulator: &mut Simulator,
        noise_model: &mut NoiseModel,
        config: &NoiseBuilderConfig,
        p: u64,
        bias_eta: BiasEta,
        pe: u64,
    ) -> (r: Result<(), NoiseConfigError>)
        requires
            old(simulator).lattice_wf(),
            noise_model_ok(*old(simulator), *old(noise_model)),
            old(noise_model).height == old(simulator).height,
            old(noise_model).vertical == old(simulator).vertical,
            old(noise_model).horizontal == old(simulator).horizontal,
        ensures
            final(simulator).lattice_wf(),
            noise_model_ok(*final(simulator), *final(noise_model)),
            final(noise_model).height == old(noise_model).height,
            final(noise_model).vertical == old(noise_model).vertical,
            final(noise_model).horizontal == old(noise_model).horizontal,
            final(noise_model).additional_noise == old(noise_model).additional_noise,
            r is Err ==> *final(noise_model) == *old(noise_model),
            r is Err ==> *final(simulator) == *old(simulator),
            match *self {
                ErrorModelBuilder::Phenomenological => {
                    &&& (*final(simulator) == *old(simulator))
                    &&& (r is Ok <==> phenom_ok(*config, p, bias_eta, pe))
                    &&& (r is Ok ==> forall|t: int, i: int, j: int|
                        final(simulator).exists_at(t, i, j) ==> #[trigger] final(noise_model).rates_at(
                            t,
                            i,
                            j,
                        ) == staged_record(
                            *final(simulator),
                            phenom_data_rec(p, bias_eta),
                            phenom_anc_rec(phenom_pm(*config, p)),
                            t,
                            i,
                            j,
                        ))
                },
                ErrorModelBuilder::ErasureOnlyPhenomenological => {
                    &&& (*final(simulator) == *old(simulator))
                    &&& (r is Ok <==> erasure_only_ok(*config, p, bias_eta, pe))
                    &&& (r is Ok ==> forall|t: int, i: int, j: int|
                        final(simulator).exists_at(t, i, j) ==> #[trigger] final(noise_model).rates_at(
                            t,
                            i,
                            j,
                        ) == staged_record(
                            *final(simulator),
                            erasure_rec(pe),
                            erasure_rec(pe),
                            t,
                            i,
                            j,
                        ))
                },
                ErrorModelBuilder::GenericBiasedWithBiasedCX => {
                    &&& (*final(simulator) == *old(simulator))
                    &&& (r is Ok <==> gb_ok(*config, p, bias_eta, pe, false))
                    &&& (r is Ok ==> forall|t: int, i: int, j: int|
                        final(simulator).exists_at(t, i, j) ==> #[trigger] final(noise_model).rates_at(
                            t,
                            i,
                            j,
                        ) == generic_biased_record(
                            *final(simulator),
                            gb_normal_rec(*config, p, bias_eta),
                            table_rec(gb_cz_table(p, bias_eta)),
                            gb_meas_rec(*config, p, bias_eta, gb_cz_table(p, bias_eta)),
                            table_rec(gb_cx_table(p, bias_eta, false)),
                            gb_meas_rec(*config, p, bias_eta, gb_cx_table(p, bias_eta, false)),
                            t,
                            i,
                            j,
                        ))
                },
                ErrorModelBuilder::GenericBiasedWithStandardCX => {
                    &&& (*final(simulator) == *old(simulator))
                    &&& (r is Ok <==> gb_ok(*config, p, bias_eta, pe, true))
                    &&& (r is Ok ==> forall|t: int, i: int, j: int|
                        final(simulator).exists_at(t, i, j) ==> #[trigger] final(noise_model).rates_at(
                            t,
                            i,
                            j,
                        ) == generic_biased_record(
                            *final(simulator),
                            gb_normal_rec(*config, p, bias_eta),
                            table_rec(gb_cz_table(p, bias_eta)),
                            gb_meas_rec(*config, p, bias_eta, gb_cz_table(p, bias_eta)),
                            table_rec(gb_cx_table(p, bias_eta, true)),
                            gb_meas_rec(*config, p, bias_eta, gb_cx_table(p, bias_eta, true)),
                            t,
                            i,
                            j,
                        ))
                },
                ErrorModelBuilder::OnlyGateErrorCircuitLevel => {
                    &&& (*final(simulator) == *old(simulator))
                    &&& (r is Ok <==> gl_ok(*config, p, bias_eta, pe))
                    &&& (r is Ok ==> forall|t: int, i: int, j: int|
                        final(simulator).exists_at(t, i, j) ==> #[trigger] final(noise_model).rates_at(
                            t,
                            i,
                            j,
                        ) == gate_level_record(
                            *final(simulator),
                            gl_ce(*config),
                            gl_init_rec(*config),
                            gl_plain_rec(*config, p, pe),
                            gl_plain_meas_rec(*config, p, pe),
                            gl_corr_rec(*config, p, pe),
                            gl_corr_meas_rec(*config, p, pe),
                            t,
                            i,
                            j,
                        ))
                },
                ErrorModelBuilder::TailoredScBellInitPhenomenological => {
                    &&& (r is Ok <==> bell_phenom_ok(
                        *old(simulator),
                        *old(noise_model),
                        *config,
                        p,
                        bias_eta,
                        pe,
                    ))
                    &&& (r is Ok ==> bell_marked(*old(simulator), *final(simulator)))
                    &&& (r is Ok ==> (syndrome_wf(*old(simulator)) ==> syndrome_wf(
                        *final(simulator),
                    )))
                    &&& (r is Ok ==> forall|t: int, i: int, j: int|
                        final(simulator).exists_at(t, i, j) ==> #[trigger] final(noise_model).rates_at(t, i, j) == bell_phenom_record(
                            *final(simulator),
                            crate::code_builder::code_parameters(
                                old(simulator).code_type,
                            )->Some_0.1 as int,
                            crate::code_builder::code_parameters(
                                old(simulator).code_type,
                            )->Some_0.2 as int,
                            phenom_data_rec(p, bias_eta),
                            phenom_anc_rec(phenom_pm(*config, p)),
                            marginal_rec(0, PROB_ONE / 2, 0, 0),
                            t,
                            i,
                            j,
                        ))
                },
                ErrorModelBuilder::TailoredScBellInitCircuit => {
                    &&& (r is Ok <==> bell_circuit_ok(
                        *old(simulator),
                        *old(noise_model),
                        p,
                        bias_eta,
                        pe,
                    ))
                    &&& (r is Ok ==> bell_marked(*old(simulator), *final(simulator)))
                    &&& (r is Ok ==> (syndrome_wf(*old(simulator)) ==> syndrome_wf(
                        *final(simulator),
                    )))
                    &&& (r is Ok ==> forall|t: int, i: int, j: int|
                        final(simulator).exists_at(t, i, j) ==> #[trigger] final(noise_model).rates_at(t, i, j) == bell_circuit_record(
                            *final(simulator),
                            bc_normal_rec(p, bias_eta),
                            table_rec(gb_cx_table(p, bias_eta, false)),
                            bc_meas_rec(p, bias_eta),
                            t,
                            i,
                            j,
                        ))
                },
            },
    {
        if bias_eta.den == 0 {
            return Err(NoiseConfigError::BadBias);
        }
        if p > PROB_ONE || pe > PROB_ONE {
            return Err(NoiseConfigError::RateOutOfRange);
        }
        match self {
            ErrorModelBuilder::Phenomenological => {
                if config.initialization_error_rate.is_some()
                    || config.use_correlated_erasure.is_some()
                    || config.use_correlated_pauli.is_some()
                    || config.before_pauli_bug_fix.is_some() {
                    return Err(NoiseConfigError::UnknownConfigKey);
                }
                if pe != 0 {
                    return Err(NoiseConfigError::RateOutOfRange);
                }
                if bias_eta.den > u64::MAX / 4 || bias_eta.num > u64::MAX / 4 {
                    return Err(NoiseConfigError::RateOutOfRange);
                }
                let denom: u64 = 2 * (bias_eta.den + bias_eta.num);
                let px: u64 = match mul_div_u64(p, bias_eta.den, denom) {
                    Some(v) => v,
                    None => {
                        return Err(NoiseConfigError::RateOutOfRange);
                    },
                };
                if 2 * (px as u128) > p as u128 {
                    return Err(NoiseConfigError::RateOutOfRange);
                }
                let pm: u64 = match config.measurement_error_rate {
                    Some(v) => v,
                    None => p,
                };
                if pm > PROB_ONE {
                    return Err(NoiseConfigError::RateOutOfRange);
                }
                let data_node = NoiseModelNode {
                    pauli_error_rates: PauliErrorRates {
                        error_rate_X: px,
                        error_rate_Y: px,
                        error_rate_Z: p - 2 * px,
                    },
                    erasure_error_rate: 0,
                    correlated_pauli_error_rates: None,
                    correlated_erasure_error_rates: None,
                };
                let anc_node = NoiseModelNode {
                    pauli_error_rates: PauliErrorRates {
                        error_rate_X: 0,
                        error_rate_Y: pm,
                        error_rate_Z: 0,
                    },
                    erasure_error_rate: 0,
                    correlated_pauli_error_rates: None,
                    correlated_erasure_error_rates: None,
                };
                proof {
                    assert(data_node == phenom_data_rec(p, bias_eta));
                    assert(anc_node == phenom_anc_rec(pm));
                    assert(phenom_ok(*config, p, bias_eta, pe));
                }
                let nl = noise_model.add_node(NoiseModelNode::new());
                let di = noise_model.add_node(data_node);
                let ai = noise_model.add_node(anc_node);
                apply_staged(&*simulator, noise_model, nl, di, ai);
                Ok(())
            },
            ErrorModelBuilder::ErasureOnlyPhenomenological => {
                if config.measurement_error_rate.is_some()
                    || config.initialization_error_rate.is_some()
                    || config.use_correlated_erasure.is_some()
                    || config.use_correlated_pauli.is_some()
                    || config.before_pauli_bug_fix.is_some() {
                    return Err(NoiseConfigError::UnknownConfigKey);
                }
                if p != 0 {
                    return Err(NoiseConfigError::RateOutOfRange);
                }
                let erasure_node = NoiseModelNode {
                    pauli_error_rates: PauliErrorRates {
                        error_rate_X: 1,
                        error_rate_Y: 1,
                        error_rate_Z: 1,
                    },
                    erasure_error_rate: pe,
                    correlated_pauli_error_rates: None,
                    correlated_erasure_error_rates: None,
                };
                proof {
                    assert(erasure_node == erasure_rec(pe));
                    assert(erasure_only_ok(*config, p, bias_eta, pe));
                }
                let nl = noise_model.add_node(NoiseModelNode::new());
                let ei = noise_model.add_node(erasure_node);
                apply_staged(&*simulator, noise_model, nl, ei, ei);
                Ok(())
            },
            ErrorModelBuilder::GenericBiasedWithBiasedCX
            | ErrorModelBuilder::GenericBiasedWithStandardCX => {
                let standard = match self {
                    ErrorModelBuilder::GenericBiasedWithStandardCX => true,
                    _ => false,
                };
                if config.use_correlated_erasure.is_some()
                    || config.use_correlated_pauli.is_some()
                    || config.before_pauli_bug_fix.is_some() {
                    return Err(NoiseConfigError::UnknownConfigKey);
                }
                if bias_eta.num == 0 {
                    return Err(NoiseConfigError::BadBias);
                }
                let r0: u64 = match config.initialization_error_rate {
                    Some(v) => v,
                    None => p,
                };
                if r0 > PROB_ONE {
                    return Err(NoiseConfigError::RateOutOfRange);
                }
                let roe: u64 = match mul_div_u64(r0, bias_eta.den, bias_eta.num) {
                    Some(v) => v,
                    None => {
                        return Err(NoiseConfigError::RateOutOfRange);
                    },
                };
                let poe: u64 = match mul_div_u64(p, bias_eta.den, bias_eta.num) {
                    Some(v) => v,
                    None => {
                        return Err(NoiseConfigError::RateOutOfRange);
                    },
                };
                if roe > PROB_ONE || poe > PROB_ONE {
                    return Err(NoiseConfigError::RateOutOfRange);
                }
                let normal_node = NoiseModelNode {
                    pauli_error_rates: PauliErrorRates {
                        error_rate_X: roe,
                        error_rate_Y: roe,
                        error_rate_Z: r0,
                    },
                    erasure_error_rate: 0,
                    correlated_pauli_error_rates: None,
                    correlated_erasure_error_rates: None,
                };
                proof {
                    assert(normal_node == gb_normal_rec(*config, p, bias_eta));
                }
                if !node_wf_check(&normal_node) {
                    return Err(NoiseConfigError::RateOutOfRange);
                }
                let cz_tab = CorrelatedPauliErrorRates {
                    error_rate_IX: poe,
                    error_rate_IY: poe,
                    error_rate_IZ: p,
                    error_rate_XI: poe,
                    error_rate_XX: poe,
                    error_rate_XY: poe,
                    error_rate_XZ: poe,
                    error_rate_YI: poe,
                    error_rate_YX: poe,
                    error_rate_YY: poe,
                    error_rate_YZ: poe,
                    error_rate_ZI: p,
                    error_rate_ZX: poe,
                    error_rate_ZY: poe,
                    error_rate_ZZ: poe,
                };
                let cx_tab = if standard {
                    let q1: u64 = match mul_div_u64(p, 3, 8) {
                        Some(v) => v,
                        None => vstd::pervasive::unreached(),
                    };
                    let q2: u64 = p / 8;
                    CorrelatedPauliErrorRates {
                        error_rate_IX: poe,
                        error_rate_IY: q2,
                        error_rate_IZ: q1,
                        error_rate_XI: poe,
                        error_rate_XX: poe,
                        error_rate_XY: poe,
                        error_rate_XZ: poe,
                        error_rate_YI: poe,
                        error_rate_YX: poe,
                        error_rate_YY: poe,
                        error_rate_YZ: poe,
                        error_rate_ZI: p,
                        error_rate_ZX: poe,
                        error_rate_ZY: q2,
                        error_rate_ZZ: q1,
                    }
                } else {
                    let h: u64 = p / 2;
                    CorrelatedPauliErrorRates {
                        error_rate_IX: poe,
                        error_rate_IY: poe,
                        error_rate_IZ: h,
                        error_rate_XI: poe,
                        error_rate_XX: poe,
                        error_rate_XY: poe,
                        error_rate_XZ: poe,
                        error_rate_YI: poe,
                        error_rate_YX: poe,
                        error_rate_YY: poe,
                        error_rate_YZ: poe,
                        error_rate_ZI: p,
                        error_rate_ZX: poe,
                        error_rate_ZY: poe,
                        error_rate_ZZ: h,
                    }
                };
                proof {
                    assert(cz_tab == gb_cz_table(p, bias_eta));
                    assert(cx_tab == gb_cx_table(p, bias_eta, standard));
                }
                let cz_node = NoiseModelNode {
                    pauli_error_rates: PauliErrorRates {
                        error_rate_X: 0,
                        error_rate_Y: 0,
                        error_rate_Z: 0,
                    },
                    erasure_error_rate: 0,
                    correlated_pauli_error_rates: Some(cz_tab),
                    correlated_erasure_error_rates: None,
                };
                if !node_wf_check(&cz_node) {
                    return Err(NoiseConfigError::RateOutOfRange);
                }
                let cz_meas_node = NoiseModelNode {
                    pauli_error_rates: normal_node.pauli_error_rates,
                    erasure_error_rate: 0,
                    correlated_pauli_error_rates: Some(cz_tab),
                    correlated_erasure_error_rates: None,
                };
                if !node_wf_check(&cz_meas_node) {
                    return Err(NoiseConfigError::RateOutOfRange);
                }
                let cx_node = NoiseModelNode {
                    pauli_error_rates: PauliErrorRates {
                        error_rate_X: 0,
                        error_rate_Y: 0,
                        error_rate_Z: 0,
                    },
                    erasure_error_rate: 0,
                    correlated_pauli_error_rates: Some(cx_tab),
                    correlated_erasure_error_rates: None,
                };
                if !node_wf_check(&cx_node) {
                    return Err(NoiseConfigError::RateOutOfRange);
                }
                let cx_meas_node = NoiseModelNode {
                    pauli_error_rates: normal_node.pauli_error_rates,
                    erasure_error_rate: 0,
                    correlated_pauli_error_rates: Some(cx_tab),
                    correlated_erasure_error_rates: None,
                };
                if !node_wf_check(&cx_meas_node) {
                    return Err(NoiseConfigError::RateOutOfRange);
                }
                proof {
                    assert(cz_node == table_rec(gb_cz_table(p, bias_eta)));
                    assert(cz_meas_node == gb_meas_rec(*config, p, bias_eta, gb_cz_table(p, bias_eta)));
                    assert(cx_node == table_rec(gb_cx_table(p, bias_eta, standard)));
                    assert(cx_meas_node == gb_meas_rec(
                        *config,
                        p,
                        bias_eta,
                        gb_cx_table(p, bias_eta, standard),
                    ));
                    assert(gb_ok(*config, p, bias_eta, pe, standard));
                }
                let nl = noise_model.add_node(NoiseModelNode::new());
                let ni = noise_model.add_node(normal_node);
                let czi = noise_model.add_node(cz_node);
                let czmi = noise_model.add_node(cz_meas_node);
                let cxi = noise_model.add_node(cx_node);
                let cxmi = noise_model.add_node(cx_meas_node);
                apply_generic_biased(&*simulator, noise_model, nl, ni, czi, czmi, cxi, cxmi);
                Ok(())
            },
            ErrorModelBuilder::OnlyGateErrorCircuitLevel => {
                if 2 * (bias_eta.num as u128) != bias_eta.den as u128 {
                    return Err(NoiseConfigError::BadBias);
                }
                let r0: u64 = match config.initialization_error_rate {
                    Some(v) => v,
                    None => 0,
                };
                if r0 > PROB_ONE {
                    return Err(NoiseConfigError::RateOutOfRange);
                }
                let m: u64 = match config.measurement_error_rate {
                    Some(v) => v,
                    None => 0,
                };
                if m > PROB_ONE {
                    return Err(NoiseConfigError::RateOutOfRange);
                }
                let h: u64 = m / 2;
                if 3 * (h as u128) > PROB_ONE as u128 {
                    return Err(NoiseConfigError::RateOutOfRange);
                }
                let use_ce: bool = match config.use_correlated_erasure {
                    Some(v) => v,
                    None => false,
                };
                let use_cp: bool = match config.use_correlated_pauli {
                    Some(v) => v,
                    None => false,
                };
                let bug: bool = match config.before_pauli_bug_fix {
                    Some(v) => v,
                    None => false,
                };
                let base_plain: u64 = if bug {
                    p / 3
                } else if use_cp {
                    0
                } else {
                    p / 3
                };
                let base_corr: u64 = if use_cp {
                    0
                } else {
                    p / 3
                };
                if 3 * (base_plain as u128) > PROB_ONE as u128 {
                    return Err(NoiseConfigError::RateOutOfRange);
                }
                if 3 * (base_corr as u128) > PROB_ONE as u128 {
                    return Err(NoiseConfigError::RateOutOfRange);
                }
                let init_node = NoiseModelNode {
                    pauli_error_rates: PauliErrorRates {
                        error_rate_X: r0 / 3,
                        error_rate_Y: r0 / 3,
                        error_rate_Z: r0 / 3,
                    },
                    erasure_error_rate: 0,
                    correlated_pauli_error_rates: None,
                    correlated_erasure_error_rates: None,
                };
                if !node_wf_check(&init_node) {
                    return Err(NoiseConfigError::RateOutOfRange);
                }
                let plain_marg = PauliErrorRates {
                    error_rate_X: base_plain,
                    error_rate_Y: base_plain,
                    error_rate_Z: base_plain,
                };
                let corr_marg = PauliErrorRates {
                    error_rate_X: base_corr,
                    error_rate_Y: base_corr,
                    error_rate_Z: base_corr,
                };
                let meas_marg = PauliErrorRates {
                    error_rate_X: h,
                    error_rate_Y: h,
                    error_rate_Z: h,
                };
                let plain_meas_marg = combine_probability(&plain_marg, &meas_marg);
                let corr_meas_marg = combine_probability(&corr_marg, &meas_marg);
                let cell_erasure: u64 = if use_ce {
                    0
                } else {
                    pe
                };
                let plain_node = NoiseModelNode {
                    pauli_error_rates: PauliErrorRates {
                        error_rate_X: floor_rate(plain_marg.error_rate_X, pe),
                        error_rate_Y: floor_rate(plain_marg.error_rate_Y, pe),
                        error_rate_Z: floor_rate(plain_marg.error_rate_Z, pe),
                    },
                    erasure_error_rate: cell_erasure,
                    correlated_pauli_error_rates: None,
                    correlated_erasure_error_rates: None,
                };
                if !node_wf_check(&plain_node) {
                    return Err(NoiseConfigError::RateOutOfRange);
                }
                let plain_meas_node = NoiseModelNode {
                    pauli_error_rates: PauliErrorRates {
                        error_rate_X: floor_rate(plain_meas_marg.error_rate_X, pe),
                        error_rate_Y: floor_rate(plain_meas_marg.error_rate_Y, pe),
                        error_rate_Z: floor_rate(plain_meas_marg.error_rate_Z, pe),
                    },
                    erasure_error_rate: cell_erasure,
                    correlated_pauli_error_rates: None,
                    correlated_erasure_error_rates: None,
                };
                if !node_wf_check(&plain_meas_node) {
                    return Err(NoiseConfigError::RateOutOfRange);
                }
                let pauli_table: Option<CorrelatedPauliErrorRates> = if use_cp {
                    Some(CorrelatedPauliErrorRates::default_with_probability(p / 15))
                } else {
                    None
                };
                let erasure_table = CorrelatedErasureErrorRates {
                    error_rate_IE: 0,
                    error_rate_EI: 0,
                    error_rate_EE: pe,
                };
                let corr_node = NoiseModelNode {
                    pauli_error_rates: PauliErrorRates {
                        error_rate_X: floor_rate(corr_marg.error_rate_X, pe),
                        error_rate_Y: floor_rate(corr_marg.error_rate_Y, pe),
                        error_rate_Z: floor_rate(corr_marg.error_rate_Z, pe),
                    },
                    erasure_error_rate: 0,
                    correlated_pauli_error_rates: pauli_table,
                    correlated_erasure_error_rates: Some(erasure_table),
                };
                if !node_wf_check(&corr_node) {
                    return Err(NoiseConfigError::RateOutOfRange);
                }
                let corr_meas_node = NoiseModelNode {
                    pauli_error_rates: PauliErrorRates {
                        error_rate_X: floor_rate(corr_meas_marg.error_rate_X, pe),
                        error_rate_Y: floor_rate(corr_meas_marg.error_rate_Y, pe),
                        error_rate_Z: floor_rate(corr_meas_marg.error_rate_Z, pe),
                    },
                    erasure_error_rate: 0,
                    correlated_pauli_error_rates: pauli_table,
                    correlated_erasure_error_rates: Some(erasure_table),
                };
                if !node_wf_check(&corr_meas_node) {
                    return Err(NoiseConfigError::RateOutOfRange);
                }
                proof {
                    lemma_combine_bounded(
                        base_plain as int,
                        base_plain as int,
                        base_plain as int,
                        h as int,
                        h as int,
                        h as int,
                    );
                    lemma_combine_bounded(
                        base_corr as int,
                        base_corr as int,
                        base_corr as int,
                        h as int,
                        h as int,
                        h as int,
                    );
                    assert(init_node == gl_init_rec(*config));
                    assert(plain_node == gl_plain_rec(*config, p, pe));
                    assert(plain_meas_node == gl_plain_meas_rec(*config, p, pe));
                    assert(corr_node == gl_corr_rec(*config, p, pe));
                    assert(corr_meas_node == gl_corr_meas_rec(*config, p, pe));
                    assert(gl_ok(*config, p, bias_eta, pe));
                }
                let nl = noise_model.add_node(NoiseModelNode::new());
                let ii = noise_model.add_node(init_node);
                let pi = noise_model.add_node(plain_node);
                let pmi = noise_model.add_node(plain_meas_node);
                let ci = noise_model.add_node(corr_node);
                let cmi = noise_model.add_node(corr_meas_node);
                apply_gate_level(&*simulator, noise_model, use_ce, nl, ii, pi, pmi, ci, cmi);
                Ok(())
            },
            ErrorModelBuilder::TailoredScBellInitPhenomenological => {
                let (noisy_measurements, dp, dn): (usize, usize, usize) = match simulator.code_type {
                    CodeType::RotatedTailoredCode { noisy_measurements, dp, dn } => (
                        noisy_measurements,
                        dp,
                        dn,
                    ),
                    _ => {
                        return Err(NoiseConfigError::UnsupportedScenario);
                    },
                };
                if noisy_measurements == 0 {
                    return Err(NoiseConfigError::UnsupportedScenario);
                }
                if config.initialization_error_rate.is_some()
                    || config.use_correlated_erasure.is_some()
                    || config.use_correlated_pauli.is_some()
                    || config.before_pauli_bug_fix.is_some() {
                    return Err(NoiseConfigError::UnknownConfigKey);
                }
                if pe != 0 {
                    return Err(NoiseConfigError::RateOutOfRange);
                }
                if simulator.measurement_cycles < 2 || simulator.measurement_cycles
                    >= simulator.height {
                    return Err(NoiseConfigError::UnsupportedScenario);
                }
                if noise_model.additional_noise.len() != 0 {
                    return Err(NoiseConfigError::UnsupportedScenario);
                }
                proof {
                    lemma_wf_dims(*old(simulator));
                }
                if !ancillas_measure_exec(&*simulator) {
                    return Err(NoiseConfigError::UnsupportedScenario);
                }
                if bias_eta.den > u64::MAX / 4 || bias_eta.num > u64::MAX / 4 {
                    return Err(NoiseConfigError::RateOutOfRange);
                }
                let denom: u64 = 2 * (bias_eta.den + bias_eta.num);
                let px: u64 = match mul_div_u64(p, bias_eta.den, denom) {
                    Some(v) => v,
                    None => {
                        return Err(NoiseConfigError::RateOutOfRange);
                    },
                };
                if 2 * (px as u128) > p as u128 {
                    return Err(NoiseConfigError::RateOutOfRange);
                }
                let pm: u64 = match config.measurement_error_rate {
                    Some(v) => v,
                    None => p,
                };
                if pm > PROB_ONE {
                    return Err(NoiseConfigError::RateOutOfRange);
                }
                proof {
                    assert(bell_phenom_ok(
                        *old(simulator),
                        *old(noise_model),
                        *config,
                        p,
                        bias_eta,
                        pe,
                    ));
                }
                let nl0 = noise_model.add_node(NoiseModelNode::new());
                apply_staged(&*simulator, noise_model, nl0, nl0, nl0);
                proof {
                    assert forall|t: int, i: int, j: int|
                        simulator.exists_at(t, i, j) implies (#[trigger] noise_model.rates_at(
                        t,
                        i,
                        j,
                    )).is_noiseless() by {
                        assert(noise_model.rates_at(t, i, j) == staged_record(
                            *simulator,
                            noiseless_record(),
                            noiseless_record(),
                            t,
                            i,
                            j,
                        ));
                    }
                }
                let ghost before_mark = *simulator;
                mark_bell_ancillas(simulator);
                proof {
                    assert forall|t: int, i: int, j: int|
                        simulator.exists_at(t, i, j) implies (#[trigger] noise_model.rates_at(
                        t,
                        i,
                        j,
                    )).is_noiseless() by {
                        assert(before_mark.exists_at(t, i, j));
                    }
                    lemma_noiseless_model_ok(*simulator, *noise_model);
                }
                let data_node = NoiseModelNode {
                    pauli_error_rates: PauliErrorRates {
                        error_rate_X: px,
                        error_rate_Y: px,
                        error_rate_Z: p - 2 * px,
                    },
                    erasure_error_rate: 0,
                    correlated_pauli_error_rates: None,
                    correlated_erasure_error_rates: None,
                };
                let anc_node = NoiseModelNode {
                    pauli_error_rates: PauliErrorRates {
                        error_rate_X: 0,
                        error_rate_Y: pm,
                        error_rate_Z: 0,
                    },
                    erasure_error_rate: 0,
                    correlated_pauli_error_rates: None,
                    correlated_erasure_error_rates: None,
                };
                let messed_node = NoiseModelNode {
                    pauli_error_rates: PauliErrorRates {
                        error_rate_X: 0,
                        error_rate_Y: PROB_ONE / 2,
                        error_rate_Z: 0,
                    },
                    erasure_error_rate: 0,
                    correlated_pauli_error_rates: None,
                    correlated_erasure_error_rates: None,
                };
                proof {
                    assert(data_node == phenom_data_rec(p, bias_eta));
                    assert(anc_node == phenom_anc_rec(pm));
                    assert(messed_node == marginal_rec(0, PROB_ONE / 2, 0, 0));
                }
                let nl = noise_model.add_node(NoiseModelNode::new());
                let di = noise_model.add_node(data_node);
                let ai = noise_model.add_node(anc_node);
                let mi = noise_model.add_node(messed_node);
                apply_bell_phenom(&*simulator, noise_model, dp, dn, nl, di, ai, mi);
                Ok(())
            },
            ErrorModelBuilder::TailoredScBellInitCircuit => {
                let noisy_measurements: usize = match simulator.code_type {
                    CodeType::RotatedTailoredCode { noisy_measurements, dp, dn } => noisy_measurements,
                    _ => {
                        return Err(NoiseConfigError::UnsupportedScenario);
                    },
                };
                if noisy_measurements == 0 {
                    return Err(NoiseConfigError::UnsupportedScenario);
                }
                if pe != 0 {
                    return Err(NoiseConfigError::RateOutOfRange);
                }
                if simulator.measurement_cycles < 2 || simulator.measurement_cycles
                    >= simulator.height {
                    return Err(NoiseConfigError::UnsupportedScenario);
                }
                if noise_model.additional_noise.len() != 0 {
                    return Err(NoiseConfigError::UnsupportedScenario);
                }
                proof {
                    lemma_wf_dims(*old(simulator));
                }
                if !ancillas_measure_exec(&*simulator) {
                    return Err(NoiseConfigError::UnsupportedScenario);
                }
                if bias_eta.num == 0 {
                    return Err(NoiseConfigError::BadBias);
                }
                let poe: u64 = match mul_div_u64(p, bias_eta.den, bias_eta.num) {
                    Some(v) => v,
                    None => {
                        return Err(NoiseConfigError::RateOutOfRange);
                    },
                };
                if poe > PROB_ONE {
                    return Err(NoiseConfigError::RateOutOfRange);
                }
                let normal_node = NoiseModelNode {
                    pauli_error_rates: PauliErrorRates {
                        error_rate_X: poe,
                        error_rate_Y: poe,
                        error_rate_Z: p,
                    },
                    erasure_error_rate: 0,
                    correlated_pauli_error_rates: None,
                    correlated_erasure_error_rates: None,
                };
                if !node_wf_check(&normal_node) {
                    return Err(NoiseConfigError::RateOutOfRange);
                }
                let h: u64 = p / 2;
                let cx_tab = CorrelatedPauliErrorRates {
                    error_rate_IX: poe,
                    error_rate_IY: poe,
                    error_rate_IZ: h,
                    error_rate_XI: poe,
                    error_rate_XX: poe,
                    error_rate_XY: poe,
                    error_rate_XZ: poe,
                    error_rate_YI: poe,
                    error_rate_YX: poe,
                    error_rate_YY: poe,
                    error_rate_YZ: poe,
                    error_rate_ZI: p,
                    error_rate_ZX: poe,
                    error_rate_ZY: poe,
                    error_rate_ZZ: h,
                };
                let cx_node = NoiseModelNode {
                    pauli_error_rates: PauliErrorRates {
                        error_rate_X: 0,
                        error_rate_Y: 0,
                        error_rate_Z: 0,
                    },
                    erasure_error_rate: 0,
                    correlated_pauli_error_rates: Some(cx_tab),
                    correlated_erasure_error_rates: None,
                };
                if !node_wf_check(&cx_node) {
                    return Err(NoiseConfigError::RateOutOfRange);
                }
                let cx_meas_node = NoiseModelNode {
                    pauli_error_rates: normal_node.pauli_error_rates,
                    erasure_error_rate: 0,
                    correlated_pauli_error_rates: Some(cx_tab),
                    correlated_erasure_error_rates: None,
                };
                if !node_wf_check(&cx_meas_node) {
                    return Err(NoiseConfigError::RateOutOfRange);
                }
                proof {
                    assert(cx_tab == gb_cx_table(p, bias_eta, false));
                    assert(normal_node == bc_normal_rec(p, bias_eta));
                    assert(cx_node == table_rec(gb_cx_table(p, bias_eta, false)));
                    assert(cx_meas_node == bc_meas_rec(p, bias_eta));
                    assert(bell_circuit_ok(*old(simulator), *old(noise_model), p, bias_eta, pe));
                }
                let nl0 = noise_model.add_node(NoiseModelNode::new());
                apply_staged(&*simulator, noise_model, nl0, nl0, nl0);
                proof {
                    assert forall|t: int, i: int, j: int|
                        simulator.exists_at(t, i, j) implies (#[trigger] noise_model.rates_at(
                        t,
                        i,
                        j,
                    )).is_noiseless() by {
                        assert(noise_model.rates_at(t, i, j) == staged_record(
                            *simulator,
                            noiseless_record(),
                            noiseless_record(),
                            t,
                            i,
                            j,
                        ));
                    }
                }
                let ghost before_mark = *simulator;
                mark_bell_ancillas(simulator);
                proof {
                    assert forall|t: int, i: int, j: int|
                        simulator.exists_at(t, i, j) implies (#[trigger] noise_model.rates_at(
                        t,
                        i,
                        j,
                    )).is_noiseless() by {
                        assert(before_mark.exists_at(t, i, j));
                    }
                    lemma_noiseless_model_ok(*simulator, *noise_model);
                }
                let ni = noise_model.add_node(normal_node);
                let ci = noise_model.add_node(cx_node);
                let cmi = noise_model.add_node(cx_meas_node);
                let nl = noise_model.add_node(NoiseModelNode::new());
                apply_bell_circuit(&*simulator, noise_model, nl, ni, ci, cmi);
                Ok(())
            },
        }
    }
}

/// One cell of a noise-modifier document: the lattice facts the document
/// claims about the cell, and the record to install there.
#[derive(Debug, Clone, Copy)]
pub struct CellDescriptor {
    pub gate_type: GateType,
    pub gate_peer: Option<Position>,
    pub is_virtual: bool,
    pub noise: NoiseModelNode,
}

/// Whether a modifier document matches the lattice: entries in ascending
/// position order, each naming an existing cell whose gate kind, peer and
/// virtual flag it states correctly, each record within bounds, noiseless on
/// virtual cells, and correlated only where the cell and its peer are real.
pub open spec fn modifier_ok(s: Simulator, cells: Seq<(Position, CellDescriptor)>) -> bool {
    &&& forall|k: int, l: int|
        0 <= k < l < cells.len() ==> crate::position::pos_lt(
            (#[trigger] cells[k]).0,
            (#[trigger] cells[l]).0,
        )
    &&& forall|k: int|
        0 <= k < cells.len() ==> {
            let p = (#[trigger] cells[k]).0;
            let d = cells[k].1;
            &&& s.exists_at(p.t as int, p.i as int, p.j as int)
            &&& s.get(p.t as int, p.i as int, p.j as int).gate_type == d.gate_type
            &&& s.get(p.t as int, p.i as int, p.j as int).peer() == d.gate_peer
            &&& s.get(p.t as int, p.i as int, p.j as int).is_virtual == d.is_virtual
            &&& d.noise.wf()
            &&& (d.is_virtual ==> d.noise.is_noiseless())
            &&& ((d.noise.correlated_pauli_error_rates is Some
                || d.noise.correlated_erasure_error_rates is Some) ==> !d.is_virtual && s.get(
                p.t as int,
                p.i as int,
                p.j as int,
            ).peer() is Some && !s.get(p.t as int, p.i as int, p.j as int).is_peer_virtual)
        }
}

impl ErrorModelBuilder {
    /// Overwrite the noise of the listed cells from a modifier document,
    /// after checking that every entry matches the lattice cell it names:
    /// its gate kind, its coupled peer and its virtual flag must agree with
    /// the lattice, and each record must be one the cell may carry. On any
    /// mismatch nothing is changed.
    #[verifier::rlimit(100)]
    #[verifier::spinoff_prover]
    pub fn apply_error_model_modifier(
        simulator: &Simulator,
        noise_model: &mut NoiseModel,
        cells: &Vec<(Position, CellDescriptor)>,
    ) -> (r: Result<(), NoiseConfigError>)
        requires
            simulator.lattice_wf(),
            noise_model_ok(*simulator, *old(noise_model)),
            old(noise_model).height == simulator.height,
            old(noise_model).vertical == simulator.vertical,
            old(noise_model).horizontal == simulator.horizontal,
        ensures
            noise_model_ok(*simulator, *final(noise_model)),
            final(noise_model).height == old(noise_model).height,
            final(noise_model).vertical == old(noise_model).vertical,
            final(noise_model).horizontal == old(noise_model).horizontal,
            final(noise_model).additional_noise == old(noise_model).additional_noise,
            r is Ok <==> modifier_ok(*simulator, cells@),
            r is Err ==> *final(noise_model) == *old(noise_model),
            r is Ok ==> forall|t: int, i: int, j: int|
                simulator.exists_at(t, i, j) ==> #[trigger] final(noise_model).rates_at(t, i, j)
                    == (if exists|k: int|
                    0 <= k < cells@.len() && (#[trigger] cells@[k]).0 == (Position {
                        t: t as usize,
                        i: i as usize,
                        j: j as usize,
                    }) {
                    {
                        let k = choose|k: int|
                            0 <= k < cells@.len() && (#[trigger] cells@[k]).0 == (Position {
                                t: t as usize,
                                i: i as usize,
                                j: j as usize,
                            });
                        cells@[k].1.noise
                    }
                } else {
                    old(noise_model).rates_at(t, i, j)
                }),
    {
        proof {
            lemma_wf_dims(*simulator);
        }
        let n = cells.len();
        let mut k: usize = 0;
        while k < n
            invariant
                simulator.lattice_wf(),
                simulator.dims_ok(),
                *noise_model == *old(noise_model),
                noise_model_ok(*simulator, *old(noise_model)),
                n == cells@.len(),
                k <= n,
                forall|x: int, y: int|
                    0 <= x < y < k ==> crate::position::pos_lt(
                        (#[trigger] cells@[x]).0,
                        (#[trigger] cells@[y]).0,
                    ),
                forall|x: int|
                    0 <= x < k ==> {
                        let p = (#[trigger] cells@[x]).0;
                        let d = cells@[x].1;
                        &&& simulator.exists_at(p.t as int, p.i as int, p.j as int)
                        &&& simulator.get(p.t as int, p.i as int, p.j as int).gate_type
                            == d.gate_type
                        &&& simulator.get(p.t as int, p.i as int, p.j as int).peer() == d.gate_peer
                        &&& simulator.get(p.t as int, p.i as int, p.j as int).is_virtual
                            == d.is_virtual
                        &&& d.noise.wf()
                        &&& (d.is_virtual ==> d.noise.is_noiseless())
                        &&& ((d.noise.correlated_pauli_error_rates is Some
                            || d.noise.correlated_erasure_error_rates is Some) ==> !d.is_virtual
                            && simulator.get(p.t as int, p.i as int, p.j as int).peer() is Some
                            && !simulator.get(
                            p.t as int,
                            p.i as int,
                            p.j as int,
                        ).is_peer_virtual)
                    },
            decreases n - k,
        {
            let (position, descriptor) = cells[k];
            if k > 0 {
                let (prev_position, _) = cells[k - 1];
                if !prev_position.lt(&position) {
                    return Err(NoiseConfigError::LatticeMismatch);
                }
            }
            if !simulator.is_node_exist(&position) {
                return Err(NoiseConfigError::LatticeMismatch);
            }
            let node = simulator.get_node_unwrap(&position);
            if node.gate_type != descriptor.gate_type {
                return Err(NoiseConfigError::LatticeMismatch);
            }
            let peer_matches = match (node.get_peer_option(), descriptor.gate_peer) {
                (Some(a), Some(b)) => a.t == b.t && a.i == b.i && a.j == b.j,
                (None, None) => true,
                _ => false,
            };
            if !peer_matches {
                return Err(NoiseConfigError::LatticeMismatch);
            }
            if node.is_virtual != descriptor.is_virtual {
                return Err(NoiseConfigError::LatticeMismatch);
            }
            if !node_wf_check(&descriptor.noise) {
                return Err(NoiseConfigError::LatticeMismatch);
            }
            if descriptor.is_virtual && !(descriptor.noise == NoiseModelNode::new()) {
                return Err(NoiseConfigError::LatticeMismatch);
            }
            if descriptor.noise.correlated_pauli_error_rates.is_some()
                || descriptor.noise.correlated_erasure_error_rates.is_some() {
                if descriptor.is_virtual || node.get_peer_option().is_none()
                    || node.is_peer_virtual {
                    return Err(NoiseConfigError::LatticeMismatch);
                }
            }
            proof {
                assert forall|x: int, y: int|
                    0 <= x < y < k + 1 implies crate::position::pos_lt(
                    (#[trigger] cells@[x]).0,
                    (#[trigger] cells@[y]).0,
                ) by {
                    if y == k as int && x < k as int - 1 {
                        assert(crate::position::pos_lt(cells@[x].0, cells@[k - 1].0));
                        assert(crate::position::pos_lt(cells@[k - 1].0, cells@[k as int].0));
                    }
                }
            }
            k += 1;
        }
        proof {
            assert forall|x: int, y: int|
                0 <= x < y < cells@.len() implies crate::position::pos_lt(
                (#[trigger] cells@[x]).0,
                (#[trigger] cells@[y]).0,
            ) by {
                if y == x + 1 {
                } else {
                }
            }
            assert(modifier_ok(*simulator, cells@));
        }
        let mut k: usize = 0;
        while k < n
            invariant
                simulator.lattice_wf(),
                simulator.dims_ok(),
                noise_model_ok(*simulator, *noise_model),
                noise_model.height == simulator.height,
                noise_model.vertical == simulator.vertical,
                noise_model.horizontal == simulator.horizontal,
                noise_model.additional_noise == old(noise_model).additional_noise,
                n == cells@.len(),
                k <= n,
                modifier_ok(*simulator, cells@),
                forall|t: int, i: int, j: int|
                    simulator.exists_at(t, i, j) ==> #[trigger] noise_model.rates_at(t, i, j) == (
                    if exists|x: int|
                        0 <= x < k && (#[trigger] cells@[x]).0 == (Position {
                            t: t as usize,
                            i: i as usize,
                            j: j as usize,
                        }) {
                        {
                            let x = choose|x: int|
                                0 <= x < k && (#[trigger] cells@[x]).0 == (Position {
                                    t: t as usize,
                                    i: i as usize,
                                    j: j as usize,
                                });
                            cells@[x].1.noise
                        }
                    } else {
                        old(noise_model).rates_at(t, i, j)
                    }),
            decreases n - k,
        {
            let (position, descriptor) = cells[k];
            let idx = noise_model.add_node(descriptor.noise);
            let ghost prev_nm = *noise_model;
            assign_cell(noise_model, simulator, &position, idx);
            proof {
                assert forall|t: int, i: int, j: int|
                    simulator.exists_at(t, i, j) implies #[trigger] noise_model.rates_at(t, i, j)
                    == (if exists|x: int|
                        0 <= x < k + 1 && (#[trigger] cells@[x]).0 == (Position {
                            t: t as usize,
                            i: i as usize,
                            j: j as usize,
                        }) {
                    {
                        let x = choose|x: int|
                            0 <= x < k + 1 && (#[trigger] cells@[x]).0 == (Position {
                                t: t as usize,
                                i: i as usize,
                                j: j as usize,
                            });
                        cells@[x].1.noise
                    }
                } else {
                    old(noise_model).rates_at(t, i, j)
                }) by {
                    let q = Position { t: t as usize, i: i as usize, j: j as usize };
                    if q == position {
                        assert(cells@[k as int].0 == q);
                        assert(exists|x: int|
                            0 <= x < k + 1 && (#[trigger] cells@[x]).0 == q);
                        let x = choose|x: int|
                            0 <= x < k + 1 && (#[trigger] cells@[x]).0 == q;
                        if x != k as int {
                            assert(crate::position::pos_lt(cells@[x].0, cells@[k as int].0));
                            assert(false);
                        }
                    } else {
                        assert(noise_model.rates_at(t, i, j) == prev_nm.rates_at(t, i, j));
                        if exists|x: int| 0 <= x < k && (#[trigger] cells@[x]).0 == q {
                            let x = choose|x: int|
                                0 <= x < k && (#[trigger] cells@[x]).0 == q;
                            assert(exists|x2: int|
                                0 <= x2 < k + 1 && (#[trigger] cells@[x2]).0 == q);
                            let x2 = choose|x2: int|
                                0 <= x2 < k + 1 && (#[trigger] cells@[x2]).0 == q;
                            if x2 != x {
                                assert(crate::position::pos_lt(cells@[x].0, cells@[x2].0)
                                    || crate::position::pos_lt(cells@[x2].0, cells@[x].0));
                                assert(false);
                            }
                        } else {
                            if exists|x2: int|
                                0 <= x2 < k + 1 && (#[trigger] cells@[x2]).0 == q {
                                let x2 = choose|x2: int|
                                    0 <= x2 < k + 1 && (#[trigger] cells@[x2]).0 == q;
                                assert(x2 == k as int);
                                assert(false);
                            }
                        }
                    }
                }
            }
            k += 1;
        }
        Ok(())
    }
}

} // verus!
