use qecsim::code_builder::BuildError;
use qecsim::code_builder::CodeType;
use qecsim::code_builder::code_builder_sanity_check;
use qecsim::pauli::ErrorType;
use qecsim::pauli::GateType;
use qecsim::pauli::QubitType;
use qecsim::position::Position;
use qecsim::simulator::Simulator;

fn measure(simulator: &mut Simulator, errors: &[(Position, ErrorType)]) -> Vec<Position> {
    simulator.clear_all_errors();
    for (position, error) in errors.iter() {
        let node = simulator.get_node_unwrap(position);
        assert_eq!(node.error, ErrorType::I, "do not set the error at a same position twice");
        simulator.set_nodes(*position, *error);
    }
    simulator.propagate_errors();
    simulator.generate_sparse_measurement().to_vec()
}

#[test]
fn code_builder_standard_planar_code() {
    let di = 7;
    let dj = 5;
    let noisy_measurements = 3;
    let mut simulator =
        Simulator::new(CodeType::StandardPlanarCode { noisy_measurements, di, dj }).unwrap();
    code_builder_sanity_check(&simulator).unwrap();
    {
        // count how many nodes
        let mut nodes_count = 0;
        let mut virtual_nodes_count = 0;
        for t in 0..simulator.height {
            for i in 0..simulator.vertical {
                for j in 0..simulator.horizontal {
                    let position = Position::new(t, i, j);
                    if simulator.is_node_exist(&position) {
                        nodes_count += 1;
                        if simulator.get_node_unwrap(&position).is_virtual {
                            virtual_nodes_count += 1;
                        }
                    }
                }
            }
        }
        let each_layer_real_node_count = (2 * di - 1) * (2 * dj - 1);
        let each_layer_virtual_node_count = 2 * (di + dj);
        let layer_count = 6 * (noisy_measurements + 1) + 1;
        assert_eq!(
            nodes_count,
            layer_count * (each_layer_real_node_count + each_layer_virtual_node_count)
        );
        assert_eq!(virtual_nodes_count, layer_count * each_layer_virtual_node_count);
    }
    {
        // check individual qubit type
        {
            let node = simulator.get_node_unwrap(&Position::new(0, 0, 1));
            assert_eq!(node.qubit_type, QubitType::StabX);
            assert_eq!(node.gate_type, GateType::MeasureX);
            assert_eq!(node.is_virtual, true);
        }
        {
            let node = simulator.get_node_unwrap(&Position::new(0, 0, 2 * dj - 1));
            assert_eq!(node.qubit_type, QubitType::StabX);
            assert_eq!(node.gate_type, GateType::MeasureX);
            assert_eq!(node.is_virtual, true);
        }
        {
            let node = simulator.get_node_unwrap(&Position::new(0, 1, 0));
            assert_eq!(node.qubit_type, QubitType::StabZ);
            assert_eq!(node.gate_type, GateType::MeasureZ);
            assert_eq!(node.is_virtual, true);
        }
        {
            let node = simulator.get_node_unwrap(&Position::new(0, 2 * di - 1, 0));
            assert_eq!(node.qubit_type, QubitType::StabZ);
            assert_eq!(node.gate_type, GateType::MeasureZ);
            assert_eq!(node.is_virtual, true);
        }
        {
            let node = simulator.get_node_unwrap(&Position::new(0, 1, 1));
            assert_eq!(node.qubit_type, QubitType::Data);
            assert_eq!(node.gate_type, GateType::Idle);
            assert_eq!(node.is_virtual, false);
        }
        {
            let node = simulator.get_node_unwrap(&Position::new(0, 1, 2));
            assert_eq!(node.qubit_type, QubitType::StabZ);
            assert_eq!(node.gate_type, GateType::MeasureZ);
            assert_eq!(node.is_virtual, false);
        }
        {
            let node = simulator.get_node_unwrap(&Position::new(0, 2, 1));
            assert_eq!(node.qubit_type, QubitType::StabX);
            assert_eq!(node.gate_type, GateType::MeasureX);
            assert_eq!(node.is_virtual, false);
        }
    }
    {
        // check gate sequence of a data qubit
        let node = simulator.get_node_unwrap(&Position::new(1, 1, 1));
        assert_eq!(node.is_peer_virtual, false);
        assert_eq!(node.gate_type, GateType::Idle);
        let node = simulator.get_node_unwrap(&Position::new(2, 1, 1));
        assert_eq!(node.is_peer_virtual, false);
        assert_eq!(node.gate_type, GateType::CXGateTarget);
        assert_eq!(node.get_peer_option(), Some(Position::new(2, 2, 1)));
        let node = simulator.get_node_unwrap(&Position::new(3, 1, 1));
        assert_eq!(node.is_peer_virtual, false);
        assert_eq!(node.gate_type, GateType::CXGateControl);
        assert_eq!(node.get_peer_option(), Some(Position::new(3, 1, 2)));
        let node = simulator.get_node_unwrap(&Position::new(4, 1, 1));
        assert_eq!(node.is_peer_virtual, true);
        assert_eq!(node.gate_type, GateType::CXGateControl);
        assert_eq!(node.get_peer_option(), Some(Position::new(4, 1, 0)));
        let node = simulator.get_node_unwrap(&Position::new(5, 1, 1));
        assert_eq!(node.is_peer_virtual, true);
        assert_eq!(node.gate_type, GateType::CXGateTarget);
        assert_eq!(node.get_peer_option(), Some(Position::new(5, 0, 1)));
    }
    {
        // check stabilizer measurements
        // data qubit at corner
        assert_eq!(
            measure(&mut simulator, &[(Position::new(0, 1, 1), ErrorType::X)]),
            vec![Position::new(6, 1, 2)]
        );
        assert_eq!(
            measure(&mut simulator, &[(Position::new(0, 1, 1), ErrorType::Z)]),
            vec![Position::new(6, 2, 1)]
        );
        assert_eq!(
            measure(&mut simulator, &[(Position::new(0, 1, 1), ErrorType::Y)]),
            vec![Position::new(6, 1, 2), Position::new(6, 2, 1)]
        );
        // data qubit at center
        assert_eq!(
            measure(&mut simulator, &[(Position::new(0, 2, 2), ErrorType::X)]),
            vec![Position::new(6, 1, 2), Position::new(6, 3, 2)]
        );
        assert_eq!(
            measure(&mut simulator, &[(Position::new(0, 2, 2), ErrorType::Z)]),
            vec![Position::new(6, 2, 1), Position::new(6, 2, 3)]
        );
        assert_eq!(
            measure(&mut simulator, &[(Position::new(0, 2, 2), ErrorType::Y)]),
            vec![
                Position::new(6, 1, 2),
                Position::new(6, 2, 1),
                Position::new(6, 2, 3),
                Position::new(6, 3, 2)
            ]
        );
        // Z stabilizer measurement error
        assert_eq!(
            measure(&mut simulator, &[(Position::new(5, 1, 2), ErrorType::X)]),
            vec![Position::new(6, 1, 2), Position::new(12, 1, 2)]
        );
        assert_eq!(
            measure(&mut simulator, &[(Position::new(5, 1, 2), ErrorType::Z)]),
            Vec::<Position>::new()
        );
        assert_eq!(
            measure(&mut simulator, &[(Position::new(5, 1, 2), ErrorType::Y)]),
            vec![Position::new(6, 1, 2), Position::new(12, 1, 2)]
        );
        // X stabilizer measurement error
        assert_eq!(
            measure(&mut simulator, &[(Position::new(5, 2, 1), ErrorType::X)]),
            Vec::<Position>::new()
        );
        assert_eq!(
            measure(&mut simulator, &[(Position::new(5, 2, 1), ErrorType::Z)]),
            vec![Position::new(6, 2, 1), Position::new(12, 2, 1)]
        );
        assert_eq!(
            measure(&mut simulator, &[(Position::new(5, 2, 1), ErrorType::Y)]),
            vec![Position::new(6, 2, 1), Position::new(12, 2, 1)]
        );
    }
}

#[test]
fn build_errors_reported() {
    let r = Simulator::new(CodeType::StandardPlanarCode { noisy_measurements: 0, di: 0, dj: 3 });
    assert!(matches!(r, Err(BuildError::ZeroCodeDistance)));
    let r = Simulator::new(CodeType::RotatedPlanarCode { noisy_measurements: 0, dp: 4, dn: 3 });
    assert!(matches!(r, Err(BuildError::EvenCodeDistance)));
    let r = Simulator::new(CodeType::Customized);
    assert!(matches!(r, Err(BuildError::UnsupportedCodeType)));
    let r = Simulator::new(CodeType::StandardXZZXCode { noisy_measurements: 0, di: 3, dj: 3 });
    assert!(matches!(r, Err(BuildError::UnsupportedCodeType)));
}

#[test]
fn code_type_names() {
    let names = CodeType::possible_values();
    assert_eq!(names, vec!["StandardPlanarCode", "RotatedPlanarCode"]);
    let ct = CodeType::new(&String::from("StandardPlanarCode"), 2, 3, 5);
    assert_eq!(ct, Some(CodeType::StandardPlanarCode { noisy_measurements: 2, di: 3, dj: 5 }));
    let ct = CodeType::new(&String::from("RotatedPlanarCode"), 2, 3, 5);
    assert_eq!(ct, Some(CodeType::RotatedPlanarCode { noisy_measurements: 2, dp: 3, dn: 5 }));
    let ct = CodeType::new(&String::from("SomethingElse"), 2, 3, 5);
    assert_eq!(ct, None);
    let info = CodeType::StandardPlanarCode { noisy_measurements: 2, di: 3, dj: 5 }
        .builtin_code_information()
        .unwrap();
    assert_eq!((info.noisy_measurements, info.di, info.dj), (2, 3, 5));
    assert!(CodeType::Customized.builtin_code_information().is_none());
}

#[test]
fn rotated_planar_code_builds() {
    let simulator =
        Simulator::new(CodeType::RotatedPlanarCode { noisy_measurements: 1, dp: 3, dn: 3 })
            .unwrap();
    code_builder_sanity_check(&simulator).unwrap();
    assert_eq!(simulator.vertical, 7);
    assert_eq!(simulator.horizontal, 7);
    assert_eq!(simulator.height, 13);
}

#[test]
fn validation_self_inverse_and_round_trip() {
    let di = 5;
    let dj = 5;
    let noisy_measurements = 2;
    let mut simulator =
        Simulator::new(CodeType::StandardPlanarCode { noisy_measurements, di, dj }).unwrap();
    // inject a single data error, propagate, and read the correction
    simulator.clear_all_errors();
    simulator.set_nodes(Position::new(0, 1, 1), ErrorType::X);
    simulator.propagate_errors();
    let correction = simulator.generate_sparse_correction();
    assert!(correction.len() > 0);
    // validation must not change the observable state
    let pattern_before = simulator.generate_sparse_error_pattern().to_vec();
    let (li, lj) = simulator.validate_correction(&correction);
    let pattern_after = simulator.generate_sparse_error_pattern().to_vec();
    assert_eq!(pattern_before, pattern_after);
    let (li2, lj2) = simulator.validate_correction(&correction);
    assert_eq!((li, lj), (li2, lj2));
    // correcting by exactly the residual frame leaves no logical flip
    assert_eq!((li, lj), (false, false));
}
