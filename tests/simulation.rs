// Numerical scenarios: complex arithmetic and gate matrices written here,
// amplitude routing done by the library's verified sweeps.

use bra_ket::density_matrix::DensityMatrix;
use bra_ket::operations::{SingleQubitGate, Step, TwoQubitGate};
use bra_ket::program::Program;
use bra_ket::state_vector::StateVector;
use nalgebra::{Complex, SMatrix};
use rand::distributions::{Distribution, WeightedIndex};
use rand::rngs::StdRng;
use rand::{Rng, SeedableRng};

type C = Complex<f32>;
type M2 = SMatrix<C, 2, 2>;
type M4 = SMatrix<C, 4, 4>;
type Prog = Program<f32, M2, M4>;

const PRECISION: f32 = 1e-6;
const PI: f32 = std::f32::consts::PI;
const SQRT_HALF: f32 = std::f32::consts::FRAC_1_SQRT_2;

fn modulus(x: C) -> f32 {
    x.norm_sqr().sqrt()
}

fn c(re: f32, im: f32) -> C {
    C::new(re, im)
}

fn m2(a: [[C; 2]; 2]) -> M2 {
    M2::new(a[0][0], a[0][1], a[1][0], a[1][1])
}

fn identity() -> M2 {
    m2([[c(1., 0.), c(0., 0.)], [c(0., 0.), c(1., 0.)]])
}

fn x_gate() -> M2 {
    m2([[c(0., 0.), c(1., 0.)], [c(1., 0.), c(0., 0.)]])
}

fn y_gate() -> M2 {
    m2([[c(0., 0.), c(0., -1.)], [c(0., 1.), c(0., 0.)]])
}

fn z_gate() -> M2 {
    m2([[c(1., 0.), c(0., 0.)], [c(0., 0.), c(-1., 0.)]])
}

fn s_gate() -> M2 {
    m2([[c(1., 0.), c(0., 0.)], [c(0., 0.), c(0., 1.)]])
}

fn h_gate() -> M2 {
    m2([[c(SQRT_HALF, 0.), c(SQRT_HALF, 0.)], [c(SQRT_HALF, 0.), c(-SQRT_HALF, 0.)]])
}

fn rotation(p: M2, angle: f32) -> M2 {
    identity() * c((angle / 2.).cos(), 0.) - p * c(0., (angle / 2.).sin())
}

fn euler(phi: f32, theta: f32, omega: f32) -> M2 {
    let (ct, st) = ((theta / 2.).cos(), (theta / 2.).sin());
    let (cp, sp) = (((phi + omega) / 2.).cos(), ((phi + omega) / 2.).sin());
    let (cm, sm) = (((phi - omega) / 2.).cos(), ((phi - omega) / 2.).sin());
    m2([[c(cp, -sp) * ct, -c(cm, sm) * st], [c(cm, -sm) * st, c(cp, sp) * ct]])
}

fn m4(d: [[f32; 8]; 4]) -> M4 {
    M4::from_fn(|i, j| c(d[i][2 * j], d[i][2 * j + 1]))
}

fn cnot() -> M4 {
    M4::from_fn(|i, j| if [0, 1, 3, 2][i] == j { c(1., 0.) } else { c(0., 0.) })
}

fn swap_gate() -> M4 {
    M4::from_fn(|i, j| if [0, 2, 1, 3][i] == j { c(1., 0.) } else { c(0., 0.) })
}

fn diag4(d: [C; 4]) -> M4 {
    M4::from_fn(|i, j| if i == j { d[i] } else { c(0., 0.) })
}

fn iswap() -> M4 {
    m4([
        [1., 0., 0., 0., 0., 0., 0., 0.],
        [0., 0., 0., 0., 0., 1., 0., 0.],
        [0., 0., 0., 1., 0., 0., 0., 0.],
        [0., 0., 0., 0., 0., 0., 1., 0.],
    ])
}

fn siswap() -> M4 {
    let h = SQRT_HALF;
    m4([
        [1., 0., 0., 0., 0., 0., 0., 0.],
        [0., 0., h, 0., 0., h, 0., 0.],
        [0., 0., 0., h, h, 0., 0., 0.],
        [0., 0., 0., 0., 0., 0., 1., 0.],
    ])
}

enum Gate {
    One(usize, M2),
    Two(usize, usize, M4),
    Measure(usize),
    MeasureAll,
    Reset,
    Nothing,
}

fn lower(step: &Step<f32, M2, M4>) -> Gate {
    match step {
        Step::Nothing => Gate::Nothing,
        Step::Measure(q) => Gate::Measure(*q),
        Step::MeasureAll => Gate::MeasureAll,
        Step::ResetAll => Gate::Reset,
        Step::Single(q, g) => Gate::One(
            *q,
            match g {
                SingleQubitGate::X => x_gate(),
                SingleQubitGate::Y => y_gate(),
                SingleQubitGate::Z => z_gate(),
                SingleQubitGate::H => h_gate(),
                SingleQubitGate::S => s_gate(),
                SingleQubitGate::RX(a) => rotation(x_gate(), *a),
                SingleQubitGate::RY(a) => rotation(y_gate(), *a),
                SingleQubitGate::RZ(a) => rotation(z_gate(), *a),
                SingleQubitGate::R(p, t, o) => euler(*p, *t, *o),
                SingleQubitGate::Arbitrary(u) => *u,
            },
        ),
        Step::Two(t, ct, g) => Gate::Two(
            *t,
            *ct,
            match g {
                TwoQubitGate::CNOT => cnot(),
                TwoQubitGate::CZ => diag4([c(1., 0.), c(1., 0.), c(1., 0.), c(-1., 0.)]),
                TwoQubitGate::CRZ(a) => diag4([c(1., 0.), c(1., 0.), c(1., 0.), c(a.cos(), a.sin())]),
                TwoQubitGate::SWAP => swap_gate(),
                TwoQubitGate::ISWAP => iswap(),
                TwoQubitGate::SISWAP => siswap(),
                TwoQubitGate::Arbitrary(u) => *u,
            },
        ),
    }
}

fn sample(weights: &[f32], rng: &mut StdRng) -> usize {
    WeightedIndex::new(weights).unwrap().sample(rng)
}

fn seeded() -> StdRng {
    StdRng::seed_from_u64(20240917)
}

fn run_sv_with(program: &Prog, s: &mut StateVector<C>, rng: &mut StdRng) {
    for step in &program.steps(s.number_of_qubits).unwrap() {
        match lower(step) {
            Gate::One(q, u) => s.single_qubit_gate(q, move |a: [C; 2]| {
                [u[(0, 0)] * a[0] + u[(0, 1)] * a[1], u[(1, 0)] * a[0] + u[(1, 1)] * a[1]]
            }),
            Gate::Two(t, ct, u) => s.two_qubit_gate(t, ct, move |a: [C; 4]| {
                let mut o = [c(0., 0.); 4];
                for i in 0..4 {
                    o[i] = u[(i, 0)] * a[0] + u[(i, 1)] * a[1] + u[(i, 2)] * a[2] + u[(i, 3)] * a[3];
                }
                o
            }),
            Gate::Measure(q) => {
                let p0: f32 = s.zero_half(q).iter().map(|a| a.norm_sqr()).sum();
                let p = [p0, 1. - p0];
                let outcome = sample(&p, rng);
                let r = p[outcome].sqrt();
                s.collapse(q, outcome == 1, move |a: C| a / r, c(0., 0.));
            }
            Gate::MeasureAll => {
                let p: Vec<f32> = (0..s.state_vector.size()).map(|i| s.state_vector.read(i).norm_sqr()).collect();
                s.collapse_all(sample(&p, rng), c(0., 0.), c(1., 0.));
            }
            Gate::Reset => s.reinitialise_all(c(0., 0.), c(1., 0.)),
            Gate::Nothing => {}
        }
    }
}

fn run_sv(program: &Prog, s: &mut StateVector<C>) {
    run_sv_with(program, s, &mut seeded());
}

fn conjugate<const N: usize>(u: SMatrix<C, N, N>, b: Vec<C>) -> Vec<C> {
    let mut out = vec![c(0., 0.); N * N];
    for i in 0..N {
        for j in 0..N {
            let mut acc = c(0., 0.);
            for k in 0..N {
                for l in 0..N {
                    acc += u[(i, k)] * b[k * N + l] * u[(j, l)].conj();
                }
            }
            out[i * N + j] = acc;
        }
    }
    out
}

fn run_dm(program: &Prog, d: &mut DensityMatrix<C>) {
    for step in &program.steps(d.number_of_qubits).unwrap() {
        match lower(step) {
            Gate::One(q, u) => d.single_qubit_gate(q, move |b: Vec<C>| conjugate(u, b)),
            Gate::Two(t, ct, u) => d.two_qubit_gate(t, ct, move |b: Vec<C>| conjugate(u, b)),
            Gate::Measure(q) => d.measure(q, c(0., 0.)),
            Gate::MeasureAll => d.measure_all(c(0., 0.)),
            Gate::Reset => d.reinitialise_all(c(0., 0.), c(1., 0.)),
            Gate::Nothing => {}
        }
    }
}

fn amps(s: &StateVector<C>) -> Vec<C> {
    (0..s.state_vector.size()).map(|i| s.state_vector.read(i)).collect()
}

fn entry(d: &DensityMatrix<C>, r: usize, col: usize) -> C {
    d.density_matrix.read((r, col))
}

fn assert_state(s: &StateVector<C>, expected: &[C]) {
    let a = amps(s);
    assert_eq!(a.len(), expected.len());
    for (x, y) in a.iter().zip(expected) {
        assert!(modulus(x - y) < PRECISION, "state {:?} differs from {:?}", a, expected);
    }
}

fn assert_density(d: &DensityMatrix<C>, expected: &dyn Fn(usize, usize) -> C) {
    let n = d.density_matrix.shape().0;
    for r in 0..n {
        for col in 0..n {
            let v = entry(d, r, col);
            assert!(modulus(v - expected(r, col)) < PRECISION, "entry ({}, {}) is {}", r, col, v);
        }
    }
}

fn assert_same_density(a: &DensityMatrix<C>, b: &DensityMatrix<C>) {
    assert_density(a, &|r, col| entry(b, r, col));
}

fn outer(s: &StateVector<C>) -> DensityMatrix<C> {
    DensityMatrix::from_state_vector(s, |a: C, b: C| a * b.conj(), c(0., 0.), c(1., 0.))
}

fn compare_backends(program: &Prog, n: usize) {
    let mut s = StateVector::new(n, c(0., 0.), c(1., 0.));
    let mut d = DensityMatrix::new(n, c(0., 0.), c(1., 0.));
    run_sv(program, &mut s);
    run_dm(program, &mut d);
    assert_same_density(&d, &outer(&s));
    let trace: f32 = (0..1 << n).map(|i| entry(&d, i, i).re).sum();
    assert!((trace - 1.).abs() < PRECISION);
    let norm: f32 = amps(&s).iter().map(|a| a.norm_sqr()).sum();
    assert!((norm - 1.).abs() < PRECISION);
    for r in 0..1 << n {
        for col in 0..1 << n {
            assert!(modulus(entry(&d, r, col) - entry(&d, col, r).conj()) < PRECISION);
        }
    }
}

fn z() -> C {
    c(0., 0.)
}

fn h() -> C {
    c(SQRT_HALF, 0.)
}

#[test]
fn comparison_state_vector_to_density_matrix_2_qubit_h0_cnot01() {
    let mut program = Prog::new();
    program.h(0);
    program.cnot(0, 1);
    compare_backends(&program, 2);
    let mut s = StateVector::new(2, z(), c(1., 0.));
    run_sv(&program, &mut s);
    assert_state(&s, &[h(), z(), z(), h()]);
    let mut d = DensityMatrix::new(2, z(), c(1., 0.));
    run_dm(&program, &mut d);
    assert_density(&d, &|r, col| if (r == 0 || r == 3) && (col == 0 || col == 3) { c(0.5, 0.) } else { z() });
}

#[test]
fn comparison_state_vector_to_density_matrix_2_qubit_h0_cnot10() {
    let mut program = Prog::new();
    program.h(0);
    program.cnot(1, 0);
    compare_backends(&program, 2);
}

#[test]
fn comparison_state_vector_to_density_matrix_2_qubit_y1() {
    let mut program = Prog::new();
    program.y(1);
    compare_backends(&program, 2);
}

#[test]
fn comparison_state_vector_to_density_matrix_2_qubit_h0_z1() {
    let mut program = Prog::new();
    program.h(0);
    program.z(1);
    compare_backends(&program, 2);
}

#[test]
fn comparison_state_vector_to_density_matrix_3_qubit_h2_cnot20() {
    let mut program = Prog::new();
    program.h(2);
    program.cnot(2, 0);
    compare_backends(&program, 3);
}

#[test]
fn comparison_state_vector_to_density_matrix_3_qubit_ghz_1() {
    let mut program = Prog::new();
    program.h(1);
    program.cnot(1, 0);
    program.cnot(1, 2);
    compare_backends(&program, 3);
}

#[test]
fn mixed_program_agrees_on_both_backends() {
    let mut program = Prog::new();
    program.rx(0, 0.3);
    program.ry(1, 1.1);
    program.r(2, 0.4, 0.9, -0.7);
    program.crz(0, 2, 0.8);
    program.siswap(1, 2);
    program.s(0);
    program.swap(0, 2);
    program.cz(2, 1);
    program.iswap(1, 0);
    compare_backends(&program, 3);
}

#[test]
fn hadamard_spreading() {
    let mut program = Prog::new();
    program.h(0);
    let mut s = StateVector::new(1, z(), c(1., 0.));
    run_sv(&program, &mut s);
    assert_state(&s, &[h(), h()]);
    let mut d = DensityMatrix::new(1, z(), c(1., 0.));
    run_dm(&program, &mut d);
    assert_density(&d, &|_, _| c(0.5, 0.));
}

#[test]
fn measurement_orthogonality() {
    let mut program = Prog::new();
    program.rx(0, PI / 2.);
    program.rx(1, PI / 2.);
    program.measure(0);
    program.measure(1);
    let mut d = DensityMatrix::new(2, z(), c(1., 0.));
    run_dm(&program, &mut d);
    assert_density(&d, &|r, col| if r == col { c(0.25, 0.) } else { z() });
    // the state vector stays normalised through both collapses
    let mut s = StateVector::new(2, z(), c(1., 0.));
    run_sv(&program, &mut s);
    let norm: f32 = amps(&s).iter().map(|a| a.norm_sqr()).sum();
    assert!((norm - 1.).abs() < PRECISION);
}

#[test]
fn state_vector_3_qubit_ghz_0() {
    let mut program = Prog::new();
    program.h(0);
    program.cnot(0, 1);
    program.cnot(0, 2);
    let mut s = StateVector::new(3, z(), c(1., 0.));
    run_sv(&program, &mut s);
    assert_state(&s, &[h(), z(), z(), z(), z(), z(), z(), h()]);
}

#[test]
fn state_vector_3_qubit_ghz_2() {
    let mut program = Prog::new();
    program.h(2);
    program.cnot(2, 0);
    program.cnot(2, 1);
    let mut s = StateVector::new(3, z(), c(1., 0.));
    run_sv(&program, &mut s);
    assert_state(&s, &[h(), z(), z(), z(), z(), z(), z(), h()]);
}

fn deutsch_jozsa() -> Prog {
    let mut program = Prog::new();
    program.x(2);
    program.h(0);
    program.h(1);
    program.h(2);
    program.cnot(0, 2);
    program.cnot(1, 2);
    program.h(0);
    program.h(1);
    program
}

#[test]
fn state_vector_3_qubit_deutsch_jozsa_balanced() {
    let mut s = StateVector::new(3, z(), c(1., 0.));
    run_sv(&deutsch_jozsa(), &mut s);
    assert_state(&s, &[z(), z(), z(), h(), z(), z(), z(), -h()]);
    // both query qubits read 1 with certainty
    let mut rng = seeded();
    for _ in 0..20 {
        let mut s = StateVector::new(3, z(), c(1., 0.));
        let mut program = deutsch_jozsa();
        program.measure(0);
        program.measure(1);
        run_sv_with(&program, &mut s, &mut rng);
        assert!(s.get_measured_qubit_state(0));
        assert!(s.get_measured_qubit_state(1));
    }
}

#[test]
fn density_matrix_3_qubit_deutsch_jozsa_balanced() {
    let mut program = deutsch_jozsa();
    program.measure(0);
    program.measure(1);
    let mut d = DensityMatrix::new(3, z(), c(1., 0.));
    run_dm(&program, &mut d);
    assert_density(&d, &|r, col| match (r, col) {
        (3, 3) | (7, 7) => c(0.5, 0.),
        (3, 7) | (7, 3) => c(-0.5, 0.),
        _ => z(),
    });
}

#[test]
fn density_matrix_3_qubit_hhh_measure() {
    let mut program = Prog::new();
    program.h(0);
    program.h(1);
    program.h(2);
    program.measure(0);
    program.measure(1);
    program.measure(2);
    let mut d = DensityMatrix::new(3, z(), c(1., 0.));
    run_dm(&program, &mut d);
    assert_density(&d, &|r, col| if r == col { c(0.125, 0.) } else { z() });
}

#[test]
fn two_qubit_root_iswap01() {
    let mut a = Prog::new();
    a.h(0);
    a.siswap(0, 1);
    a.siswap(0, 1);
    let mut b = Prog::new();
    b.h(0);
    b.iswap(0, 1);
    let (mut sa, mut sb) = (StateVector::new(2, z(), c(1., 0.)), StateVector::new(2, z(), c(1., 0.)));
    run_sv(&a, &mut sa);
    run_sv(&b, &mut sb);
    assert_state(&sa, &amps(&sb));
    let (mut da, mut db) = (DensityMatrix::new(2, z(), c(1., 0.)), DensityMatrix::new(2, z(), c(1., 0.)));
    run_dm(&a, &mut da);
    run_dm(&b, &mut db);
    assert_same_density(&da, &db);
}

#[test]
fn siswap_composition() {
    let mut a = Prog::new();
    a.siswap(0, 1);
    a.siswap(0, 1);
    let mut b = Prog::new();
    b.iswap(0, 1);
    let (mut sa, mut sb) = (StateVector::new(2, z(), c(1., 0.)), StateVector::new(2, z(), c(1., 0.)));
    run_sv(&a, &mut sa);
    run_sv(&b, &mut sb);
    assert_state(&sa, &amps(&sb));
    let (mut da, mut db) = (DensityMatrix::new(2, z(), c(1., 0.)), DensityMatrix::new(2, z(), c(1., 0.)));
    run_dm(&a, &mut da);
    run_dm(&b, &mut db);
    assert_same_density(&da, &db);
    // from |01> the two programs give i|10>
    let mut x = Prog::new();
    x.x(0);
    let mut sx = StateVector::new(2, z(), c(1., 0.));
    run_sv(&x.clone().concat(a), &mut sx);
    assert_state(&sx, &[z(), z(), c(0., 1.), z()]);
}

#[test]
fn two_qubit_iswap01() {
    let mut program = Prog::new();
    program.h(0);
    program.iswap(0, 1);
    let mut other = Prog::new();
    other.h(0);
    other.s(0);
    other.s(1);
    other.h(0);
    other.cnot(0, 1);
    other.cnot(1, 0);
    other.h(1);
    let (mut a, mut b) = (DensityMatrix::new(2, z(), c(1., 0.)), DensityMatrix::new(2, z(), c(1., 0.)));
    run_dm(&program, &mut a);
    run_dm(&other, &mut b);
    assert_same_density(&a, &b);
}

#[test]
fn state_vector_1_qubit_x0() {
    let mut rng = seeded();
    for _ in 1..10 {
        let angle = 2. * PI * rng.gen::<f32>();
        let mut program = Prog::new();
        program.rx(0, angle);
        let mut s = StateVector::new(1, z(), c(1., 0.));
        run_sv(&program, &mut s);
        let (co, si) = ((angle / 2.).cos(), (angle / 2.).sin());
        assert_state(&s, &[c(co, 0.), c(0., -si)]);
    }
}

#[test]
fn state_vector_1_qubit_y0() {
    let mut rng = seeded();
    for _ in 1..10 {
        let angle = 2. * PI * rng.gen::<f32>();
        let mut program = Prog::new();
        program.ry(0, angle);
        let mut s = StateVector::new(1, z(), c(1., 0.));
        run_sv(&program, &mut s);
        let (co, si) = ((angle / 2.).cos(), (angle / 2.).sin());
        assert_state(&s, &[c(co, 0.), c(si, 0.)]);
    }
}

#[test]
fn state_vector_1_qubit_measure() {
    let mut program = Prog::new();
    program.reset_all();
    program.h(0);
    program.measure(0);
    let mut s = StateVector::new(1, z(), c(1., 0.));
    let mut rng = seeded();
    let n = 100;
    let mut ones = 0.;
    for _ in 0..n {
        run_sv_with(&program, &mut s, &mut rng);
        let norm: f32 = amps(&s).iter().map(|a| a.norm_sqr()).sum();
        assert!((norm - 1.).abs() < PRECISION);
        if s.get_measured_qubit_state(0) {
            ones += 1.;
        }
    }
    let p = ones / n as f32;
    let sigma = (0.25f32 / n as f32).sqrt();
    assert!((p - 0.5).abs() < 3. * sigma + 1e-3, "estimated probability {} not consistent with 0.5", p);
}

#[test]
fn state_vector_2_qubit_h0_cnot_measure_all() {
    let mut program = Prog::new();
    program.reset_all();
    program.h(0);
    program.cnot(0, 1);
    program.measure_all();
    let mut s = StateVector::new(2, z(), c(1., 0.));
    let mut rng = seeded();
    let n = 100;
    let mut threes = 0.;
    for _ in 0..n {
        run_sv_with(&program, &mut s, &mut rng);
        let v = s.get_measured_overall_state();
        assert!(v == 0 || v == 3);
        if v == 3 {
            threes += 1.;
        }
    }
    let p = threes / n as f32;
    let sigma = (0.25f32 / n as f32).sqrt();
    assert!((p - 0.5).abs() < 3. * sigma + 1e-3, "estimated probability {} not consistent with 0.5", p);
}

#[test]
fn pure_state() {
    let purity = |d: &DensityMatrix<C>| -> f32 {
        let n = d.density_matrix.shape().0;
        let mut t = 0.;
        for i in 0..n {
            for k in 0..n {
                t += (entry(d, i, k) * entry(d, k, i)).re;
            }
        }
        t
    };
    let mut program = Prog::new();
    program.rx(0, PI / 3.);
    let mut d = DensityMatrix::new(1, z(), c(1., 0.));
    run_dm(&program, &mut d);
    assert!(purity(&d) >= 1. - PRECISION);
    program.measure(0);
    let mut d = DensityMatrix::new(1, z(), c(1., 0.));
    run_dm(&program, &mut d);
    assert!(purity(&d) < 1. - PRECISION);
}

#[test]
fn gate_identities() {
    let close2 = |a: M2, b: M2| (a - b).iter().all(|x| modulus(*x) < PRECISION);
    let close4 = |a: M4, b: M4| (a - b).iter().all(|x| modulus(*x) < PRECISION);
    assert!(close2(x_gate() * x_gate(), identity()));
    assert!(close2(h_gate() * h_gate(), identity()));
    assert!(close2(s_gate() * s_gate() * s_gate() * s_gate(), identity()));
    assert!(close2(s_gate() * s_gate(), z_gate()));
    assert!(close4(swap_gate() * swap_gate(), M4::identity()));
    assert!(close4(siswap() * siswap(), iswap()));
}

#[test]
fn euler_identity() {
    // R(phi, theta, omega) acts as RZ(phi), then RY(theta), then RZ(omega)
    for &(phi, theta, omega) in &[(0.3f32, 1.2f32, -0.4f32), (2.0, 0.5, 1.5), (-1.0, 3.0, 0.25)] {
        let lhs = euler(phi, theta, omega);
        let rhs = rotation(z_gate(), omega) * rotation(y_gate(), theta) * rotation(z_gate(), phi);
        assert!((lhs - rhs).iter().all(|x| modulus(*x) < 1e-5));
        let mut a = Prog::new();
        a.h(0);
        a.r(0, phi, theta, omega);
        let mut b = Prog::new();
        b.h(0);
        b.rz(0, phi);
        b.ry(0, theta);
        b.rz(0, omega);
        let (mut sa, mut sb) = (StateVector::new(1, z(), c(1., 0.)), StateVector::new(1, z(), c(1., 0.)));
        run_sv(&a, &mut sa);
        run_sv(&b, &mut sb);
        for (x, y) in amps(&sa).iter().zip(amps(&sb).iter()) {
            assert!(modulus(x - y) < 1e-5);
        }
    }
}

#[test]
fn probability_of_zero_on_both_backends() {
    let mut program = Prog::new();
    program.rx(0, PI / 3.);
    program.h(1);
    let mut s = StateVector::new(2, z(), c(1., 0.));
    run_sv(&program, &mut s);
    let mut d = DensityMatrix::new(2, z(), c(1., 0.));
    run_dm(&program, &mut d);
    let p_sv: f32 = s.zero_half(0).iter().map(|a| a.norm_sqr()).sum();
    let p_dm: f32 = d.zero_half_diagonal(0).iter().map(|a| a.re).sum();
    assert!((p_sv - 0.75).abs() < 1e-5);
    assert!((p_dm - 0.75).abs() < 1e-5);
    let q_sv: f32 = s.zero_half(1).iter().map(|a| a.norm_sqr()).sum();
    assert!((q_sv - 0.5).abs() < 1e-5);
    // expectation of Z is 2 p - 1
    assert!((2. * p_sv - 1. - 0.5).abs() < 1e-5);
}
