use bra_ket::density_matrix::DensityMatrix;
use bra_ket::state_vector::StateVector;
use bra_ket::types::{DensityMatrixPointer, QuantumError, StateVectorPointer};

fn amplitudes(s: &StateVector<i64>) -> Vec<i64> {
    (0..s.state_vector.size()).map(|i| s.state_vector.read(i)).collect()
}

fn entries(d: &DensityMatrix<i64>) -> Vec<Vec<i64>> {
    let n = d.density_matrix.shape().0;
    (0..n).map(|r| (0..n).map(|c| d.density_matrix.read((r, c))).collect()).collect()
}

#[test]
fn new_state_is_ground() {
    let s = StateVector::new(3, 0i64, 1i64);
    assert_eq!(s.number_of_qubits, 3);
    assert_eq!(amplitudes(&s), vec![1, 0, 0, 0, 0, 0, 0, 0]);
    assert_eq!(s.classical_register, vec![None, None, None]);
}

#[test]
fn from_vector_needs_power_of_two() {
    let s = StateVector::from_vector(vec![1i64, 2, 3, 4]).unwrap();
    assert_eq!(s.number_of_qubits, 2);
    assert_eq!(amplitudes(&s), vec![1, 2, 3, 4]);
    assert!(matches!(
        StateVector::from_vector(vec![1i64, 2, 3]),
        Err(QuantumError::DimensionMismatch { rows: 3, columns: 1 })
    ));
    assert!(matches!(
        StateVector::from_vector(Vec::<i64>::new()),
        Err(QuantumError::DimensionMismatch { rows: 0, columns: 1 })
    ));
}

#[test]
fn single_qubit_gate_pairs_by_target_bit() {
    let mut s = StateVector::from_vector(vec![10i64, 11, 12, 13, 14, 15, 16, 17]).unwrap();
    // exchange the two members of each pair (a Pauli X on qubit 1)
    s.single_qubit_gate(1, |a: [i64; 2]| [a[1], a[0]]);
    assert_eq!(amplitudes(&s), vec![12, 13, 10, 11, 16, 17, 14, 15]);
    // (a, b) -> (a + b, a - b) on qubit 2
    s.single_qubit_gate(2, |a: [i64; 2]| [a[0] + a[1], a[0] - a[1]]);
    assert_eq!(amplitudes(&s), vec![28, 30, 24, 26, -4, -4, -4, -4]);
}

#[test]
fn two_qubit_gate_orders_control_high_target_low() {
    // basis |q2 q1 q0>; a CNOT with control 2 and target 0 exchanges
    // the |1x0> and |1x1> amplitudes
    let mut s = StateVector::from_vector(vec![0i64, 1, 2, 3, 4, 5, 6, 7]).unwrap();
    s.two_qubit_gate(0, 2, |a: [i64; 4]| [a[0], a[1], a[3], a[2]]);
    assert_eq!(amplitudes(&s), vec![0, 1, 2, 3, 5, 4, 7, 6]);
    // the group order is |control target>: record each member's position
    let mut s = StateVector::from_vector(vec![0i64; 8]).unwrap();
    s.two_qubit_gate(2, 1, |_a: [i64; 4]| [1, 2, 3, 4]);
    // index bits (q2, q1): target q2 is the low bit of the position
    assert_eq!(amplitudes(&s), vec![1, 1, 3, 3, 2, 2, 4, 4]);
}

#[test]
fn collapse_keeps_the_measured_half() {
    let mut s = StateVector::from_vector(vec![1i64, 2, 3, 4]).unwrap();
    s.collapse(0, true, |x: i64| 10 * x, 0);
    assert_eq!(amplitudes(&s), vec![0, 20, 0, 40]);
    assert_eq!(s.classical_register, vec![Some(true), None]);
    assert!(s.get_measured_qubit_state(0));

    let mut s = StateVector::from_vector(vec![1i64, 2, 3, 4]).unwrap();
    s.collapse(1, false, |x: i64| -x, 0);
    assert_eq!(amplitudes(&s), vec![-1, -2, 0, 0]);
    assert_eq!(s.classical_register, vec![None, Some(false)]);
}

#[test]
fn collapse_all_records_every_bit() {
    let mut s = StateVector::from_vector(vec![3i64; 8]).unwrap();
    s.collapse_all(5, 0, 1);
    assert_eq!(amplitudes(&s), vec![0, 0, 0, 0, 0, 1, 0, 0]);
    assert_eq!(s.classical_register, vec![Some(true), Some(false), Some(true)]);
    assert_eq!(s.get_measured_overall_state(), 5);
    s.reset_classical_register();
    assert_eq!(s.classical_register, vec![None, None, None]);
}

#[test]
fn reinitialise_restores_ground_state() {
    let mut s = StateVector::from_vector(vec![7i64, 8, 9, 10]).unwrap();
    s.collapse(1, true, |x: i64| x, 0);
    s.reinitialise_all(0, 1);
    assert_eq!(amplitudes(&s), vec![1, 0, 0, 0]);
    assert_eq!(s.classical_register, vec![None, None]);
    s.zero(0);
    assert_eq!(amplitudes(&s), vec![0, 0, 0, 0]);
}

#[test]
fn zero_half_lists_bit_zero_amplitudes() {
    let s = StateVector::from_vector(vec![0i64, 1, 2, 3, 4, 5, 6, 7]).unwrap();
    assert_eq!(s.zero_half(0), vec![0, 2, 4, 6]);
    assert_eq!(s.zero_half(1), vec![0, 1, 4, 5]);
    // sweep order on qubit 2: pairs (0, 4), (2, 6), (1, 5), (3, 7)
    assert_eq!(s.zero_half(2), vec![0, 2, 1, 3]);
}

#[test]
fn kraus_is_refused() {
    let mut s = StateVector::new(1, 0i64, 1);
    assert_eq!(s.single_qubit_kraus(0, ()), Err(QuantumError::UnsupportedOnPure));
    let mut d = DensityMatrix::new(1, 0i64, 1);
    assert_eq!(d.single_qubit_kraus(0, ()), Err(QuantumError::UnsupportedOperation));
}

#[test]
fn state_vector_checks_qubits() {
    let s = StateVector::new(2, 0i64, 1);
    assert_eq!(s.check_qubit_number(&vec![]), Ok(()));
    assert_eq!(s.check_qubit_number(&vec![0, 1]), Ok(()));
    assert_eq!(
        s.check_qubit_number(&vec![1, 2, 5]),
        Err(QuantumError::QubitOutOfRange { qubit: 2, number_of_qubits: 2 })
    );
}

#[test]
fn buffers_read_and_write() {
    let mut p = StateVectorPointer::new(vec![1i64, 2, 3]);
    assert_eq!(p.size(), 3);
    p.write(1, 9);
    assert_eq!(p.read(1), 9);
    let mut m = DensityMatrixPointer::new(vec![0i64; 6], (2, 3));
    assert_eq!(m.flatten_index((1, 2)), 5);
    assert_eq!(m.flatten_index((0, 1)), 2);
    m.write((1, 2), 4);
    assert_eq!(m.read((1, 2)), 4);
    assert_eq!(m.shape(), (2, 3));
}

#[test]
fn density_new_and_reset() {
    let mut d = DensityMatrix::new(2, 0i64, 1);
    assert_eq!(entries(&d)[0], vec![1, 0, 0, 0]);
    d.zero(0);
    assert!(entries(&d).iter().all(|row| row.iter().all(|x| *x == 0)));
    d.reinitialise_all(0, 1);
    assert_eq!(entries(&d), vec![vec![1, 0, 0, 0], vec![0, 0, 0, 0], vec![0, 0, 0, 0], vec![0, 0, 0, 0]]);
}

#[test]
fn density_from_matrix_checks_shape() {
    let d = DensityMatrix::new_from_density_matrix(vec![1i64, 2, 3, 4], (2, 2)).unwrap();
    assert_eq!(d.number_of_qubits, 1);
    // stored column after column
    assert_eq!(entries(&d), vec![vec![1, 3], vec![2, 4]]);
    assert!(matches!(
        DensityMatrix::new_from_density_matrix(vec![1i64; 6], (2, 3)),
        Err(QuantumError::DimensionMismatch { rows: 2, columns: 3 })
    ));
    assert!(matches!(
        DensityMatrix::new_from_density_matrix(vec![1i64; 9], (3, 3)),
        Err(QuantumError::DimensionMismatch { rows: 3, columns: 3 })
    ));
    assert!(matches!(
        DensityMatrix::new_from_density_matrix(vec![1i64; 3], (2, 2)),
        Err(QuantumError::DimensionMismatch { rows: 2, columns: 2 })
    ));
}

fn counting(n: usize) -> DensityMatrix<i64> {
    let dim = 1usize << n;
    let data: Vec<i64> = (0..dim * dim).map(|k| (10 * (k % dim) + k / dim) as i64).collect();
    DensityMatrix::new_from_density_matrix(data, (dim, dim)).unwrap()
}

#[test]
fn density_measure_clears_links_between_halves() {
    // entry (r, c) holds 10 r + c
    let mut d = counting(2);
    d.measure(1, 0);
    assert_eq!(
        entries(&d),
        vec![vec![0, 1, 0, 0], vec![10, 11, 0, 0], vec![0, 0, 22, 23], vec![0, 0, 32, 33]]
    );
    let mut d = counting(2);
    d.measure_all(-1);
    assert_eq!(
        entries(&d),
        vec![vec![0, -1, -1, -1], vec![-1, 11, -1, -1], vec![-1, -1, 22, -1], vec![-1, -1, -1, 33]]
    );
}

#[test]
fn density_gate_replaces_blocks() {
    // a block map that swaps the two rows of each 2 by 2 block (X rho)
    let mut d = counting(2);
    d.single_qubit_gate(0, |b: Vec<i64>| vec![b[2], b[3], b[0], b[1]]);
    assert_eq!(
        entries(&d),
        vec![vec![10, 11, 12, 13], vec![0, 1, 2, 3], vec![30, 31, 32, 33], vec![20, 21, 22, 23]]
    );
    // a block map on 4 by 4 blocks that keeps only the diagonal
    let mut d = counting(2);
    d.two_qubit_gate(0, 1, |b: Vec<i64>| {
        (0..16).map(|x| if x / 4 == x % 4 { b[x] } else { 0 }).collect()
    });
    assert_eq!(
        entries(&d),
        vec![vec![0, 0, 0, 0], vec![0, 11, 0, 0], vec![0, 0, 22, 0], vec![0, 0, 0, 33]]
    );
}

#[test]
fn density_from_state_vector_is_outer_product() {
    let s = StateVector::from_vector(vec![1i64, 2]).unwrap();
    let d = DensityMatrix::from_state_vector(&s, |a: i64, b: i64| a * b, 0, 1);
    assert_eq!(entries(&d), vec![vec![1, 2], vec![2, 4]]);
}

#[test]
fn density_zero_half_diagonal() {
    let d = counting(2);
    assert_eq!(d.zero_half_diagonal(0), vec![0, 22]);
    assert_eq!(d.zero_half_diagonal(1), vec![0, 11]);
}
