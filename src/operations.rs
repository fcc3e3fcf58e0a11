use vstd::prelude::*;

use crate::program::{qubits_of, touches, Operations, Program};
use crate::types::QuantumError;

verus! {

/// The one-qubit unitaries a program can name.
#[derive(Clone, Copy, Debug, PartialEq)]
pub enum SingleQubitGate<A, U2> {
    X,
    Y,
    Z,
    H,
    S,
    RX(A),
    RY(A),
    RZ(A),
    /// Z-Y-Z Euler angles `(phi, theta, omega)`.
    R(A, A, A),
    Arbitrary(U2),
}

/// The two-qubit unitaries a program can name.
#[derive(Clone, Copy, Debug, PartialEq)]
pub enum TwoQubitGate<A, U4> {
    CNOT,
    CZ,
    CRZ(A),
    SWAP,
    ISWAP,
    SISWAP,
    Arbitrary(U4),
}

/// One call on a quantum state. Two-qubit gates are addressed as
/// `(target, control)`: the target is the low bit of the unitary's basis
/// ordering, the control the high bit.
#[derive(Clone, Copy, Debug, PartialEq)]
pub enum Step<A, U2, U4> {
    Nothing,
    Measure(usize),
    MeasureAll,
    ResetAll,
    Single(usize, SingleQubitGate<A, U2>),
    Two(usize, usize, TwoQubitGate<A, U4>),
}

/// The call that performs `gate`. Operations name two-qubit gates as
/// `(control, target)`; the call takes them as `(target, control)`.
pub open spec fn step_of<A, U2, U4>(gate: Operations<A, U2, U4>) -> Step<A, U2, U4> {
    match gate {
        Operations::Barrier => Step::Nothing,
        Operations::Measure(q) => Step::Measure(q),
        Operations::MeasureAll => Step::MeasureAll,
        Operations::ResetAll => Step::ResetAll,
        Operations::X(q) => Step::Single(q, SingleQubitGate::X),
        Operations::Y(q) => Step::Single(q, SingleQubitGate::Y),
        Operations::Z(q) => Step::Single(q, SingleQubitGate::Z),
        Operations::H(q) => Step::Single(q, SingleQubitGate::H),
        Operations::S(q) => Step::Single(q, SingleQubitGate::S),
        Operations::ArbitrarySingle(q, u) => Step::Single(q, SingleQubitGate::Arbitrary(u)),
        Operations::RX(q, a) => Step::Single(q, SingleQubitGate::RX(a)),
        Operations::RY(q, a) => Step::Single(q, SingleQubitGate::RY(a)),
        Operations::RZ(q, a) => Step::Single(q, SingleQubitGate::RZ(a)),
        Operations::R(q, phi, theta, omega) => Step::Single(q, SingleQubitGate::R(phi, theta, omega)),
        Operations::CNOT(c, t) => Step::Two(t, c, TwoQubitGate::CNOT),
        Operations::CZ(c, t) => Step::Two(t, c, TwoQubitGate::CZ),
        Operations::CRZ(c, t, a) => Step::Two(t, c, TwoQubitGate::CRZ(a)),
        Operations::SISWAP(c, t) => Step::Two(t, c, TwoQubitGate::SISWAP),
        Operations::ArbitraryTwo(c, t, u) => Step::Two(t, c, TwoQubitGate::Arbitrary(u)),
        Operations::ISWAP(c, t) => Step::Two(t, c, TwoQubitGate::ISWAP),
        Operations::SWAP(c, t) => Step::Two(t, c, TwoQubitGate::SWAP),
    }
}

/// Every qubit that `step` addresses is below `n`.
pub open spec fn step_in_range<A, U2, U4>(step: Step<A, U2, U4>, n: usize) -> bool {
    match step {
        Step::Measure(q) => q < n,
        Step::Single(q, _) => q < n,
        Step::Two(t, c, _) => t < n && c < n,
        _ => true,
    }
}

/// The call that performs `gate` on a state.
pub fn implement_gate<A: Copy, U2: Copy, U4: Copy>(gate: &Operations<A, U2, U4>) -> (r: Step<A, U2, U4>)
    ensures
        r == step_of(*gate),
{
    match gate {
        Operations::Barrier => Step::Nothing,
        Operations::Measure(q) => Step::Measure(*q),
        Operations::MeasureAll => Step::MeasureAll,
        Operations::ResetAll => Step::ResetAll,
        Operations::X(q) => Step::Single(*q, SingleQubitGate::X),
        Operations::Y(q) => Step::Single(*q, SingleQubitGate::Y),
        Operations::Z(q) => Step::Single(*q, SingleQubitGate::Z),
        Operations::H(q) => Step::Single(*q, SingleQubitGate::H),
        Operations::S(q) => Step::Single(*q, SingleQubitGate::S),
        Operations::ArbitrarySingle(q, u) => Step::Single(*q, SingleQubitGate::Arbitrary(*u)),
        Operations::RX(q, a) => Step::Single(*q, SingleQubitGate::RX(*a)),
        Operations::RY(q, a) => Step::Single(*q, SingleQubitGate::RY(*a)),
        Operations::RZ(q, a) => Step::Single(*q, SingleQubitGate::RZ(*a)),
        Operations::R(q, phi, theta, omega) => Step::Single(*q, SingleQubitGate::R(*phi, *theta, *omega)),
        Operations::CNOT(c, t) => Step::Two(*t, *c, TwoQubitGate::CNOT),
        Operations::CZ(c, t) => Step::Two(*t, *c, TwoQubitGate::CZ),
        Operations::CRZ(c, t, a) => Step::Two(*t, *c, TwoQubitGate::CRZ(*a)),
        Operations::SISWAP(c, t) => Step::Two(*t, *c, TwoQubitGate::SISWAP),
        Operations::ArbitraryTwo(c, t, u) => Step::Two(*t, *c, TwoQubitGate::Arbitrary(*u)),
        Operations::ISWAP(c, t) => Step::Two(*t, *c, TwoQubitGate::ISWAP),
        Operations::SWAP(c, t) => Step::Two(*t, *c, TwoQubitGate::SWAP),
    }
}

/// A step addresses exactly the qubits its operation acts on.
pub proof fn lemma_step_qubits<A, U2, U4>(gate: Operations<A, U2, U4>, n: usize)
    ensures
        step_in_range(step_of(gate), n) <==> forall|i: int|
            0 <= i < qubits_of(gate).len() ==> qubits_of(gate)[i] < n,
{
    let qs = qubits_of(gate);
    match gate {
        Operations::Measure(q) => {
            assert(qs.len() == 1 && qs[0] == q);
        },
        Operations::X(q) => {
            assert(qs.len() == 1 && qs[0] == q);
        },
        Operations::Y(q) => {
            assert(qs.len() == 1 && qs[0] == q);
        },
        Operations::Z(q) => {
            assert(qs.len() == 1 && qs[0] == q);
        },
        Operations::H(q) => {
            assert(qs.len() == 1 && qs[0] == q);
        },
        Operations::S(q) => {
            assert(qs.len() == 1 && qs[0] == q);
        },
        Operations::ArbitrarySingle(q, _) => {
            assert(qs.len() == 1 && qs[0] == q);
        },
        Operations::RX(q, _) => {
            assert(qs.len() == 1 && qs[0] == q);
        },
        Operations::RY(q, _) => {
            assert(qs.len() == 1 && qs[0] == q);
        },
        Operations::RZ(q, _) => {
            assert(qs.len() == 1 && qs[0] == q);
        },
        Operations::R(q, _, _, _) => {
            assert(qs.len() == 1 && qs[0] == q);
        },
        Operations::CNOT(c, t) => {
            assert(qs.len() == 2 && qs[0] == c && qs[1] == t);
        },
        Operations::CZ(c, t) => {
            assert(qs.len() == 2 && qs[0] == c && qs[1] == t);
        },
        Operations::CRZ(c, t, _) => {
            assert(qs.len() == 2 && qs[0] == c && qs[1] == t);
        },
        Operations::SISWAP(c, t) => {
            assert(qs.len() == 2 && qs[0] == c && qs[1] == t);
        },
        Operations::ArbitraryTwo(c, t, _) => {
            assert(qs.len() == 2 && qs[0] == c && qs[1] == t);
        },
        Operations::ISWAP(c, t) => {
            assert(qs.len() == 2 && qs[0] == c && qs[1] == t);
        },
        Operations::SWAP(c, t) => {
            assert(qs.len() == 2 && qs[0] == c && qs[1] == t);
        },
        _ => {
            assert(qs.len() == 0);
        },
    }
}

impl<A: Copy, U2: Copy, U4: Copy> Program<A, U2, U4> {
    /// The calls that run the program on a state of `number_of_qubits`
    /// qubits, in order; refused, before any call, when the program acts
    /// on a qubit the state lacks.
    pub fn steps(&self, number_of_qubits: usize) -> (r: Result<Vec<Step<A, U2, U4>>, QuantumError>)
        ensures
            r is Ok <==> forall|q: usize| touches(self.gates@, q) ==> q < number_of_qubits,
            r matches Ok(steps) ==> {
                &&& steps@.len() == self.gates@.len()
                &&& forall|i: int|
                    0 <= i < steps@.len() ==> #[trigger] steps@[i] == step_of(self.gates@[i])
                        && step_in_range(steps@[i], number_of_qubits)
            },
            r matches Err(e) ==> exists|q: usize|
                touches(self.gates@, q) && q >= number_of_qubits && (forall|p: usize|
                    touches(self.gates@, p) && p < q ==> p < number_of_qubits) && e
                    == (QuantumError::QubitOutOfRange { qubit: q, number_of_qubits }),
    {
        match self.check_qubit_number(number_of_qubits) {
            Err(e) => Err(e),
            Ok(()) => {
                let mut steps: Vec<Step<A, U2, U4>> = Vec::new();
                let mut i: usize = 0;
                while i < self.gates.len()
                    invariant
                        i <= self.gates@.len(),
                        forall|q: usize| touches(self.gates@, q) ==> q < number_of_qubits,
                        steps@.len() == i,
                        forall|k: int|
                            0 <= k < i ==> #[trigger] steps@[k] == step_of(self.gates@[k])
                                && step_in_range(steps@[k], number_of_qubits),
                    decreases self.gates@.len() - i,
                {
                    let step = implement_gate(&self.gates[i]);
                    proof {
                        let g = self.gates@[i as int];
                        lemma_step_qubits(g, number_of_qubits);
                        assert forall|j: int| 0 <= j < qubits_of(g).len() implies qubits_of(g)[j]
                            < number_of_qubits by {
                            assert(qubits_of(g).contains(qubits_of(g)[j]));
                            assert(touches(self.gates@, qubits_of(g)[j]));
                        }
                    }
                    steps.push(step);
                    i = i + 1;
                }
                Ok(steps)
            },
        }
    }
}

} // verus!
