use qecsim::code_builder::CodeType;
use qecsim::noise::NoiseModel;
use qecsim::noise::NoiseModelNode;
use qecsim::noise::PauliErrorRates;
use qecsim::noise_builder::CellDescriptor;
use qecsim::noise_builder::BiasEta;
use qecsim::noise_builder::ErrorModelBuilder;
use qecsim::noise_builder::NoiseBuilderConfig;
use qecsim::noise_builder::NoiseConfigError;
use qecsim::pauli::ErrorType;
use qecsim::pauli::GateType;
use qecsim::position::Position;
use qecsim::rng::PROB_ONE;
use qecsim::rng::Xoroshiro128StarStar;
use qecsim::simulator::Simulator;
use qecsim::simulator::SimulatorNode;
use qecsim::sparse::SparseErrorPattern;

#[test]
fn simulator_basics() {
    let di = 5;
    let dj = 5;
    let noisy_measurements = 5;
    let simulator =
        Simulator::new(CodeType::StandardPlanarCode { noisy_measurements, di, dj }).unwrap();
    let invalid_position = Position::new(100, 100, 100);
    assert!(!simulator.is_valid_position(&invalid_position), "invalid position");
    let nonexisting_position = Position::new(0, 0, 0);
    assert!(simulator.is_valid_position(&nonexisting_position), "valid position");
    assert!(!simulator.is_node_exist(&nonexisting_position), "nonexisting position");
    println!("std::mem::size_of::<SimulatorNode>() = {}", std::mem::size_of::<SimulatorNode>());
    println!(
        "std::mem::size_of::<NoiseModelNode>() = {}",
        std::mem::size_of::<qecsim::noise::NoiseModelNode>()
    );
    if std::mem::size_of::<SimulatorNode>() > 32 {
        // ArmV8 data cache line is 64 bytes
        panic!("SimulatorNode which is unexpectedly large, check if anything wrong");
    }
}

#[test]
fn pauli_algebra_table() {
    let (i, x, y, z) = (ErrorType::I, ErrorType::X, ErrorType::Y, ErrorType::Z);
    let all = [i, x, y, z];
    for a in all.iter() {
        // every operator is its own inverse
        assert_eq!(a.multiply(a), i);
        // identity is neutral
        assert_eq!(a.multiply(&i), *a);
        assert_eq!(i.multiply(a), *a);
        for b in all.iter() {
            // commutative modulo phase
            assert_eq!(a.multiply(b), b.multiply(a));
        }
    }
    assert_eq!(x.multiply(&y), z);
    assert_eq!(y.multiply(&z), x);
    assert_eq!(z.multiply(&x), y);
}

#[test]
fn rng_reproducible_from_seed() {
    let mut a = Xoroshiro128StarStar::from_seed(12345);
    let mut b = Xoroshiro128StarStar::from_seed(12345);
    for _ in 0..100 {
        let x = a.next_unit();
        let y = b.next_unit();
        assert_eq!(x, y);
        assert!(x < PROB_ONE);
    }
    let mut c = Xoroshiro128StarStar::from_seed(54321);
    let mut differs = false;
    let mut a2 = Xoroshiro128StarStar::from_seed(12345);
    for _ in 0..10 {
        if a2.next_u64() != c.next_u64() {
            differs = true;
        }
    }
    assert!(differs);
}

#[test]
fn idempotent_clear() {
    let mut simulator =
        Simulator::new(CodeType::StandardPlanarCode { noisy_measurements: 1, di: 3, dj: 3 })
            .unwrap();
    simulator.set_nodes(Position::new(0, 1, 1), ErrorType::Y);
    simulator.propagate_errors();
    simulator.clear_all_errors();
    simulator.propagate_errors();
    for t in 0..simulator.height {
        for i in 0..simulator.vertical {
            for j in 0..simulator.horizontal {
                let position = Position::new(t, i, j);
                if simulator.is_node_exist(&position) {
                    let node = simulator.get_node_unwrap(&position);
                    assert_eq!(node.error, ErrorType::I);
                    assert_eq!(node.has_erasure, false);
                    assert_eq!(node.propagated, ErrorType::I);
                }
            }
        }
    }
}

#[test]
fn count_agreement_random_trials() {
    let mut simulator =
        Simulator::new(CodeType::StandardPlanarCode { noisy_measurements: 2, di: 5, dj: 5 })
            .unwrap();
    let mut noise_model =
        NoiseModel::new(simulator.height, simulator.vertical, simulator.horizontal);
    let builder = ErrorModelBuilder::Phenomenological;
    let config = NoiseBuilderConfig::new();
    let p = PROB_ONE / 20;
    builder
        .apply(&mut simulator, &mut noise_model, &config, p, BiasEta { num: 1, den: 2 }, 0)
        .unwrap();
    for _ in 0..10 {
        let (error_count, erasure_count) = simulator.generate_random_errors(&noise_model);
        assert_eq!(error_count, simulator.generate_sparse_error_pattern().len());
        assert_eq!(erasure_count, simulator.generate_sparse_detected_erasures().len());
        // the phenomenological scenario carries no erasures
        assert_eq!(erasure_count, 0);
        // virtual cells never carry a fault
        for t in 0..simulator.height {
            for i in 0..simulator.vertical {
                for j in 0..simulator.horizontal {
                    let position = Position::new(t, i, j);
                    if simulator.is_node_virtual(&position) {
                        assert_eq!(
                            simulator.get_node_unwrap(&position).error,
                            ErrorType::I
                        );
                    }
                }
            }
        }
        simulator.clear_all_errors();
    }
}

#[test]
fn propagation_equivalence_fast_and_full() {
    let mut simulator =
        Simulator::new(CodeType::StandardPlanarCode { noisy_measurements: 3, di: 7, dj: 5 })
            .unwrap();
    let scenarios: Vec<Vec<(Position, ErrorType)>> = vec![
        vec![(Position::new(0, 1, 1), ErrorType::X)],
        vec![(Position::new(0, 1, 1), ErrorType::Z)],
        vec![(Position::new(0, 1, 1), ErrorType::Y)],
        vec![(Position::new(0, 2, 2), ErrorType::X)],
        vec![(Position::new(5, 1, 2), ErrorType::X)],
        vec![(Position::new(5, 2, 1), ErrorType::Z)],
        vec![
            (Position::new(0, 1, 1), ErrorType::X),
            (Position::new(7, 3, 3), ErrorType::Z),
            (Position::new(13, 5, 5), ErrorType::Y),
        ],
    ];
    for scenario in scenarios.iter() {
        simulator.clear_all_errors();
        let mut pattern = SparseErrorPattern::new();
        for (position, error) in scenario.iter() {
            pattern.add(*position, *error);
        }
        let (fast_correction, fast_real, fast_virtual) =
            simulator.fast_measurement_given_few_errors(&pattern);
        // the fast path must leave the state clean
        for t in 0..simulator.height {
            for i in 0..simulator.vertical {
                for j in 0..simulator.horizontal {
                    let position = Position::new(t, i, j);
                    if simulator.is_node_exist(&position) {
                        let node = simulator.get_node_unwrap(&position);
                        assert_eq!(node.error, ErrorType::I);
                        assert_eq!(node.propagated, ErrorType::I);
                    }
                }
            }
        }
        // and agree with the full sweep
        for (position, error) in scenario.iter() {
            simulator.set_nodes(*position, *error);
        }
        simulator.propagate_errors();
        let full_real = simulator.generate_sparse_measurement();
        let full_virtual = simulator.generate_sparse_measurement_virtual();
        let full_correction = simulator.generate_sparse_correction();
        assert_eq!(fast_real.to_vec(), full_real.to_vec());
        assert_eq!(fast_virtual.to_vec(), full_virtual.to_vec());
        assert_eq!(fast_correction.to_vec(), full_correction.to_vec());
        simulator.clear_all_errors();
    }
}

#[test]
fn syndrome_round_trip_validates_clean() {
    let mut simulator =
        Simulator::new(CodeType::StandardPlanarCode { noisy_measurements: 3, di: 7, dj: 5 })
            .unwrap();
    // produce some residual frames, read them off as a correction
    simulator.clear_all_errors();
    simulator.set_nodes(Position::new(0, 1, 1), ErrorType::Y);
    simulator.set_nodes(Position::new(6, 3, 3), ErrorType::X);
    simulator.propagate_errors();
    let correction = simulator.generate_sparse_correction();
    // applying that exact correction cancels every logical flip
    let (li, lj) = simulator.validate_correction(&correction);
    assert_eq!((li, lj), (false, false));
    simulator.clear_all_errors();
}

#[test]
fn noise_builder_rejections() {
    let mut simulator =
        Simulator::new(CodeType::StandardPlanarCode { noisy_measurements: 1, di: 3, dj: 3 })
            .unwrap();
    let mut noise_model =
        NoiseModel::new(simulator.height, simulator.vertical, simulator.horizontal);
    let mut config = NoiseBuilderConfig::new();
    config.use_correlated_pauli = Some(true);
    let r = ErrorModelBuilder::Phenomenological.apply(
        &mut simulator,
        &mut noise_model,
        &config,
        0,
        BiasEta { num: 1, den: 2 },
        0,
    );
    assert_eq!(r, Err(NoiseConfigError::UnknownConfigKey));
    let mut noise_model =
        NoiseModel::new(simulator.height, simulator.vertical, simulator.horizontal);
    let r = ErrorModelBuilder::Phenomenological.apply(
        &mut simulator,
        &mut noise_model,
        &NoiseBuilderConfig::new(),
        PROB_ONE + 1,
        BiasEta { num: 1, den: 2 },
        0,
    );
    assert_eq!(r, Err(NoiseConfigError::RateOutOfRange));
    let mut noise_model =
        NoiseModel::new(simulator.height, simulator.vertical, simulator.horizontal);
    let r = ErrorModelBuilder::Phenomenological.apply(
        &mut simulator,
        &mut noise_model,
        &NoiseBuilderConfig::new(),
        0,
        BiasEta { num: 1, den: 0 },
        0,
    );
    assert_eq!(r, Err(NoiseConfigError::BadBias));
    let mut noise_model =
        NoiseModel::new(simulator.height, simulator.vertical, simulator.horizontal);
    let r = ErrorModelBuilder::TailoredScBellInitCircuit.apply(
        &mut simulator,
        &mut noise_model,
        &NoiseBuilderConfig::new(),
        0,
        BiasEta { num: 1, den: 2 },
        0,
    );
    assert_eq!(r, Err(NoiseConfigError::UnsupportedScenario));
    let names = ErrorModelBuilder::possible_values();
    assert_eq!(names.len(), 7);
    assert_eq!(names[0], "Phenomenological");
}

#[test]
fn erasure_only_trials_mark_erasures() {
    let mut simulator =
        Simulator::new(CodeType::StandardPlanarCode { noisy_measurements: 2, di: 5, dj: 5 })
            .unwrap();
    let mut noise_model =
        NoiseModel::new(simulator.height, simulator.vertical, simulator.horizontal);
    ErrorModelBuilder::ErasureOnlyPhenomenological
        .apply(
            &mut simulator,
            &mut noise_model,
            &NoiseBuilderConfig::new(),
            0,
            BiasEta { num: 1, den: 2 },
            PROB_ONE / 2,
        )
        .unwrap();
    let (_error_count, erasure_count) = simulator.generate_random_errors(&noise_model);
    assert_eq!(erasure_count, simulator.generate_sparse_detected_erasures().len());
    // with a 50% erasure rate on every data qubit, some erasures appear
    assert!(erasure_count > 0);
    simulator.clear_all_errors();
}

#[test]
fn clone_shares_lattice_but_not_rng() {
    let simulator =
        Simulator::new(CodeType::StandardPlanarCode { noisy_measurements: 1, di: 3, dj: 3 })
            .unwrap();
    let copy = simulator.clone();
    assert_eq!(copy.height, simulator.height);
    assert_eq!(copy.vertical, simulator.vertical);
    assert_eq!(copy.horizontal, simulator.horizontal);
    assert_eq!(copy.measurement_cycles, simulator.measurement_cycles);
    for t in 0..simulator.height {
        for i in 0..simulator.vertical {
            for j in 0..simulator.horizontal {
                let position = Position::new(t, i, j);
                assert_eq!(copy.is_node_exist(&position), simulator.is_node_exist(&position));
            }
        }
    }
}

#[test]
fn checked_setters_respect_noise_model() {
    let mut simulator =
        Simulator::new(CodeType::StandardPlanarCode { noisy_measurements: 2, di: 5, dj: 5 })
            .unwrap();
    let noiseless = NoiseModel::new(simulator.height, simulator.vertical, simulator.horizontal);
    // with a noiseless model, any non-trivial fault is refused
    let r = simulator.set_error_check_result(
        &noiseless,
        &Position::new(0, 1, 1),
        &ErrorType::X,
    );
    assert!(r.is_err());
    let r = simulator.set_erasure_check_result(&noiseless, &Position::new(0, 1, 1), true);
    assert!(r.is_err());
    // clearing is always allowed
    simulator
        .set_error_check_result(&noiseless, &Position::new(0, 1, 1), &ErrorType::I)
        .unwrap();
    simulator
        .set_erasure_check_result(&noiseless, &Position::new(0, 1, 1), false)
        .unwrap();
    // a phenomenological model admits data-qubit faults at a cycle start
    let mut noise_model =
        NoiseModel::new(simulator.height, simulator.vertical, simulator.horizontal);
    ErrorModelBuilder::Phenomenological
        .apply(
            &mut simulator,
            &mut noise_model,
            &NoiseBuilderConfig::new(),
            PROB_ONE / 100,
            BiasEta { num: 1, den: 2 },
            0,
        )
        .unwrap();
    simulator
        .set_error_check_result(&noise_model, &Position::new(0, 1, 1), &ErrorType::Z)
        .unwrap();
    assert_eq!(
        simulator.get_node_unwrap(&Position::new(0, 1, 1)).error,
        ErrorType::Z
    );
    // a measurement-layer ancilla cell of this scenario carries no noise
    let r = simulator.set_error_check_result(
        &noise_model,
        &Position::new(6, 1, 2),
        &ErrorType::X,
    );
    assert!(r.is_err());
    simulator.clear_all_errors();
}

#[test]
fn correlated_gate_level_trials() {
    let mut simulator =
        Simulator::new(CodeType::StandardPlanarCode { noisy_measurements: 2, di: 5, dj: 5 })
            .unwrap();
    let mut noise_model =
        NoiseModel::new(simulator.height, simulator.vertical, simulator.horizontal);
    let mut config = NoiseBuilderConfig::new();
    config.use_correlated_erasure = Some(true);
    config.use_correlated_pauli = Some(true);
    ErrorModelBuilder::OnlyGateErrorCircuitLevel
        .apply(
            &mut simulator,
            &mut noise_model,
            &config,
            PROB_ONE / 50,
            BiasEta { num: 1, den: 2 },
            PROB_ONE / 4,
        )
        .unwrap();
    let mut saw_erasure = false;
    for _ in 0..5 {
        let (error_count, erasure_count) = simulator.generate_random_errors(&noise_model);
        assert_eq!(error_count, simulator.generate_sparse_error_pattern().len());
        assert_eq!(erasure_count, simulator.generate_sparse_detected_erasures().len());
        if erasure_count > 0 {
            saw_erasure = true;
        }
        simulator.clear_all_errors();
    }
    // the EE table erases both wires of some coupling at this rate
    assert!(saw_erasure);
    // the legacy toggle is accepted and changes only the marginals
    let mut noise_model =
        NoiseModel::new(simulator.height, simulator.vertical, simulator.horizontal);
    config.before_pauli_bug_fix = Some(true);
    ErrorModelBuilder::OnlyGateErrorCircuitLevel
        .apply(
            &mut simulator,
            &mut noise_model,
            &config,
            PROB_ONE / 50,
            BiasEta { num: 1, den: 2 },
            PROB_ONE / 4,
        )
        .unwrap();
    let (_e, _k) = simulator.generate_random_errors(&noise_model);
    simulator.clear_all_errors();
}

#[test]
fn generic_biased_tables_cover_cx_data_side() {
    // the biased scenarios place the correlated table on every CX-control
    // wire with a real peer, the data side included
    let mut simulator =
        Simulator::new(CodeType::StandardPlanarCode { noisy_measurements: 1, di: 3, dj: 3 })
            .unwrap();
    let mut noise_model =
        NoiseModel::new(simulator.height, simulator.vertical, simulator.horizontal);
    ErrorModelBuilder::GenericBiasedWithStandardCX
        .apply(
            &mut simulator,
            &mut noise_model,
            &NoiseBuilderConfig::new(),
            PROB_ONE / 1000,
            BiasEta { num: 100, den: 1 },
            0,
        )
        .unwrap();
    let mut data_side_tables = 0;
    for t in 0..simulator.height {
        for i in 0..simulator.vertical {
            for j in 0..simulator.horizontal {
                let position = Position::new(t, i, j);
                if simulator.is_node_real(&position) {
                    let node = simulator.get_node_unwrap(&position);
                    let rates = noise_model.get_node(&position);
                    if node.qubit_type == qecsim::pauli::QubitType::Data
                        && rates.correlated_pauli_error_rates.is_some() {
                        data_side_tables += 1;
                    }
                }
            }
        }
    }
    assert!(data_side_tables > 0);
}

#[test]
fn bell_initialization_marks_first_round_ancillas() {
    // a rotated tailored descriptor over a rotated lattice: the builder
    // accepts it, marks every first-round ancilla virtual, and installs the
    // half-rate measurement record on the unfixed footprint
    let mut simulator =
        Simulator::new(CodeType::RotatedPlanarCode { noisy_measurements: 2, dp: 3, dn: 3 })
            .unwrap();
    simulator.code_type =
        CodeType::RotatedTailoredCode { noisy_measurements: 2, dp: 3, dn: 3 };
    let mut noise_model =
        NoiseModel::new(simulator.height, simulator.vertical, simulator.horizontal);
    ErrorModelBuilder::TailoredScBellInitPhenomenological
        .apply(
            &mut simulator,
            &mut noise_model,
            &NoiseBuilderConfig::new(),
            PROB_ONE / 100,
            BiasEta { num: 1, den: 2 },
            0,
        )
        .unwrap();
    let cy = simulator.measurement_cycles;
    let mut marked = 0;
    for i in 0..simulator.vertical {
        for j in 0..simulator.horizontal {
            let position = Position::new(cy, i, j);
            if simulator.is_node_exist(&position) {
                let node = simulator.get_node_unwrap(&position);
                if node.qubit_type != qecsim::pauli::QubitType::Data {
                    assert!(node.is_virtual, "first-round ancilla must be virtual");
                    marked += 1;
                }
            }
        }
    }
    assert!(marked > 0);
    // dp = dn = 3: the unfixed footprint is (3 + 2b, 2 + 2b) for b < 2
    let mut messed = 0;
    for &(i, j) in [(3usize, 2usize), (5, 4)].iter() {
        let position = Position::new(cy - 1, i, j);
        if simulator.is_node_real(&position) {
            let rates = noise_model.get_node(&position);
            assert_eq!(rates.pauli_error_rates.error_rate_Y, PROB_ONE / 2);
            messed += 1;
        }
    }
    assert!(messed > 0);
    // the circuit flavour also succeeds and installs the biased CX tables
    let mut simulator2 =
        Simulator::new(CodeType::RotatedPlanarCode { noisy_measurements: 2, dp: 3, dn: 3 })
            .unwrap();
    simulator2.code_type =
        CodeType::RotatedTailoredCode { noisy_measurements: 2, dp: 3, dn: 3 };
    let mut noise_model2 =
        NoiseModel::new(simulator2.height, simulator2.vertical, simulator2.horizontal);
    ErrorModelBuilder::TailoredScBellInitCircuit
        .apply(
            &mut simulator2,
            &mut noise_model2,
            &NoiseBuilderConfig::new(),
            PROB_ONE / 100,
            BiasEta { num: 1, den: 2 },
            0,
        )
        .unwrap();
    let position = Position::new(cy, 0, 0);
    let _ = position;
    // the first noisy round is silent; the initialization layer before it
    // carries the biased marginals
    let mut saw_normal = false;
    for i in 0..simulator2.vertical {
        for j in 0..simulator2.horizontal {
            let position = Position::new(1, i, j);
            if simulator2.is_node_real(&position) {
                let rates = noise_model2.get_node(&position);
                if rates.pauli_error_rates.error_rate_Z == PROB_ONE / 100 {
                    saw_normal = true;
                }
            }
        }
    }
    assert!(saw_normal);
}

#[test]
fn error_model_modifier_checks_and_installs() {
    let simulator =
        Simulator::new(CodeType::StandardPlanarCode { noisy_measurements: 1, di: 3, dj: 3 })
            .unwrap();
    let mut noise_model =
        NoiseModel::new(simulator.height, simulator.vertical, simulator.horizontal);
    let position = Position::new(0, 1, 1);
    let node = simulator.get_node_unwrap(&position);
    let mut record = NoiseModelNode::new();
    record.pauli_error_rates =
        PauliErrorRates { error_rate_X: 7, error_rate_Y: 7, error_rate_Z: 7 };
    let good = vec![(
        position,
        CellDescriptor {
            gate_type: node.gate_type,
            gate_peer: node.get_peer_option(),
            is_virtual: node.is_virtual,
            noise: record,
        },
    )];
    ErrorModelBuilder::apply_error_model_modifier(&simulator, &mut noise_model, &good).unwrap();
    assert_eq!(noise_model.get_node(&position).pauli_error_rates.error_rate_X, 7);
    // a descriptor contradicting the lattice is refused and changes nothing
    let bad = vec![(
        position,
        CellDescriptor {
            gate_type: GateType::MeasureZ,
            gate_peer: node.get_peer_option(),
            is_virtual: node.is_virtual,
            noise: record,
        },
    )];
    let r = ErrorModelBuilder::apply_error_model_modifier(&simulator, &mut noise_model, &bad);
    assert_eq!(r, Err(qecsim::noise_builder::NoiseConfigError::LatticeMismatch));
    assert_eq!(noise_model.get_node(&position).pauli_error_rates.error_rate_X, 7);
}
