use qecsim::pauli::ErrorType;
use qecsim::position::Position;
use qecsim::sparse::SparseCorrection;
use qecsim::sparse::SparseErasures;
use qecsim::sparse::SparseErrorPattern;
use qecsim::sparse::SparseMeasurement;

#[test]
fn sparse_measurement_orders_and_dedups() {
    let mut m = SparseMeasurement::new();
    assert_eq!(m.len(), 0);
    assert!(m.insert_defect_measurement(&Position::new(6, 2, 1)));
    assert!(m.insert_defect_measurement(&Position::new(6, 1, 2)));
    assert!(!m.insert_defect_measurement(&Position::new(6, 2, 1)));
    assert_eq!(m.len(), 2);
    assert_eq!(m.to_vec(), vec![Position::new(6, 1, 2), Position::new(6, 2, 1)]);
    assert!(m.contains(&Position::new(6, 1, 2)));
    assert!(!m.contains(&Position::new(6, 1, 3)));
    let rebuilt = SparseMeasurement::from_vec(&vec![
        Position::new(6, 2, 1),
        Position::new(6, 1, 2),
    ]);
    assert_eq!(rebuilt.to_vec(), m.to_vec());
}

#[test]
fn sparse_error_pattern_multiplies_on_add() {
    let mut p = SparseErrorPattern::new();
    p.add(Position::new(0, 1, 1), ErrorType::X);
    p.add(Position::new(0, 1, 1), ErrorType::Z);
    assert_eq!(p.len(), 1);
    assert_eq!(p.get(&Position::new(0, 1, 1)), Some(&ErrorType::Y));
    p.add(Position::new(0, 1, 1), ErrorType::Y);
    assert_eq!(p.get(&Position::new(0, 1, 1)), Some(&ErrorType::I));
    p.add(Position::new(0, 0, 1), ErrorType::Z);
    assert_eq!(
        p.to_vec(),
        vec![
            (Position::new(0, 0, 1), ErrorType::Z),
            (Position::new(0, 1, 1), ErrorType::I)
        ]
    );
    assert_eq!(p.get(&Position::new(5, 5, 5)), None);
}

#[test]
fn sparse_erasures_basics() {
    let mut e = SparseErasures::new();
    assert!(e.insert_erasure(&Position::new(1, 2, 3)));
    assert!(!e.insert_erasure(&Position::new(1, 2, 3)));
    assert!(e.insert_erasure(&Position::new(0, 2, 3)));
    assert_eq!(e.len(), 2);
    assert!(e.contains(&Position::new(1, 2, 3)));
    assert_eq!(e.to_vec(), vec![Position::new(0, 2, 3), Position::new(1, 2, 3)]);
}

#[test]
fn sparse_correction_shares_layer() {
    let mut c = SparseCorrection::new();
    c.add(Position::new(24, 1, 1), ErrorType::X);
    c.add(Position::new(24, 3, 3), ErrorType::Z);
    c.add(Position::new(24, 1, 1), ErrorType::Y);
    assert_eq!(c.len(), 2);
    assert_eq!(c.get(&Position::new(24, 1, 1)), Some(&ErrorType::Z));
    let entries = c.to_vec();
    assert!(entries.iter().all(|(p, _)| p.t == 24));
}

#[test]
fn position_order_and_distance() {
    let a = Position::new(1, 2, 3);
    let b = Position::new(1, 2, 4);
    let c = Position::new(2, 0, 0);
    assert!(a.lt(&b));
    assert!(b.lt(&c));
    assert!(a.lt(&c));
    assert!(!b.lt(&a));
    assert_eq!(a.distance(&c), 1 + 2 + 3);
    assert_eq!(a.distance(&a), 0);
}
