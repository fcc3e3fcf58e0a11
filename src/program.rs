use vstd::prelude::*;

use crate::types::QuantumError;
use crate::state_vector::check_qubits;

verus! {

/// The operations a quantum program can perform on a state vector or a
/// density matrix. `A` is the type of angles, `U2` and `U4` those of
/// arbitrary one- and two-qubit unitaries. Two-qubit operations take
/// `(control, target)`.
#[derive(Clone, Debug, PartialEq)]
pub enum Operations<A, U2, U4> {
    /// No effect; separates parts of a circuit.
    Barrier,
    /// Measure a qubit.
    Measure(usize),
    /// Measure all qubits.
    MeasureAll,
    /// Return all qubits to their ground state.
    ResetAll,
    X(usize),
    Y(usize),
    Z(usize),
    H(usize),
    S(usize),
    ArbitrarySingle(usize, U2),
    RX(usize, A),
    RY(usize, A),
    RZ(usize, A),
    /// Rotation by the Z-Y-Z Euler angles `(phi, theta, omega)`.
    R(usize, A, A, A),
    CNOT(usize, usize),
    CZ(usize, usize),
    CRZ(usize, usize, A),
    SISWAP(usize, usize),
    ArbitraryTwo(usize, usize, U4),
    ISWAP(usize, usize),
    SWAP(usize, usize),
}

/// The qubits an operation acts on, control first for two-qubit ones.
pub open spec fn qubits_of<A, U2, U4>(gate: Operations<A, U2, U4>) -> Seq<usize> {
    match gate {
        Operations::Barrier => seq![],
        Operations::MeasureAll => seq![],
        Operations::ResetAll => seq![],
        Operations::Measure(q) => seq![q],
        Operations::X(q) => seq![q],
        Operations::Y(q) => seq![q],
        Operations::Z(q) => seq![q],
        Operations::H(q) => seq![q],
        Operations::S(q) => seq![q],
        Operations::ArbitrarySingle(q, _) => seq![q],
        Operations::RX(q, _) => seq![q],
        Operations::RY(q, _) => seq![q],
        Operations::RZ(q, _) => seq![q],
        Operations::R(q, _, _, _) => seq![q],
        Operations::CNOT(c, t) => seq![c, t],
        Operations::CZ(c, t) => seq![c, t],
        Operations::CRZ(c, t, _) => seq![c, t],
        Operations::SISWAP(c, t) => seq![c, t],
        Operations::ArbitraryTwo(c, t, _) => seq![c, t],
        Operations::ISWAP(c, t) => seq![c, t],
        Operations::SWAP(c, t) => seq![c, t],
    }
}

/// The qubits an operation acts on, control first for two-qubit ones.
pub fn which_qubits<A, U2, U4>(gate: &Operations<A, U2, U4>) -> (r: Vec<usize>)
    ensures
        r@ == qubits_of(*gate),
{
    let r = match gate {
        Operations::Barrier => vec![],
        Operations::MeasureAll => vec![],
        Operations::ResetAll => vec![],
        Operations::Measure(q) => vec![*q],
        Operations::X(q) => vec![*q],
        Operations::Y(q) => vec![*q],
        Operations::Z(q) => vec![*q],
        Operations::H(q) => vec![*q],
        Operations::S(q) => vec![*q],
        Operations::ArbitrarySingle(q, _) => vec![*q],
        Operations::RX(q, _) => vec![*q],
        Operations::RY(q, _) => vec![*q],
        Operations::RZ(q, _) => vec![*q],
        Operations::R(q, _, _, _) => vec![*q],
        Operations::CNOT(c, t) => vec![*c, *t],
        Operations::CZ(c, t) => vec![*c, *t],
        Operations::CRZ(c, t, _) => vec![*c, *t],
        Operations::SISWAP(c, t) => vec![*c, *t],
        Operations::ArbitraryTwo(c, t, _) => vec![*c, *t],
        Operations::ISWAP(c, t) => vec![*c, *t],
        Operations::SWAP(c, t) => vec![*c, *t],
    };
    proof {
        assert(r@ =~= qubits_of(*gate));
    }
    r
}

/// One of the first `n` operations of `gates` acts on qubit `q`.
pub open spec fn touches_before<A, U2, U4>(gates: Seq<Operations<A, U2, U4>>, n: int, q: usize) -> bool {
    exists|i: int| 0 <= i < n && #[trigger] qubits_of(gates[i]).contains(q)
}

/// Some operation of `gates` acts on qubit `q`.
pub open spec fn touches<A, U2, U4>(gates: Seq<Operations<A, U2, U4>>, q: usize) -> bool {
    touches_before(gates, gates.len() as int, q)
}

/// `s` is strictly increasing.
pub open spec fn strictly_increasing(s: Seq<usize>) -> bool {
    forall|i: int, j: int| 0 <= i < j < s.len() ==> s[i] < s[j]
}

/// Inserts `q` into the strictly increasing `sorted`, unless already there.
fn insert_sorted(sorted: &mut Vec<usize>, q: usize)
    requires
        strictly_increasing(old(sorted)@),
    ensures
        strictly_increasing(final(sorted)@),
        forall|x: usize|
            #![trigger final(sorted)@.contains(x)]
            #![trigger old(sorted)@.contains(x)]
            final(sorted)@.contains(x) <==> (old(sorted)@.contains(x) || x == q),
{
    let mut p: usize = 0;
    while p < sorted.len() && sorted[p] < q
        invariant
            p <= sorted@.len(),
            sorted@ == old(sorted)@,
            forall|i: int| 0 <= i < p ==> sorted@[i] < q,
        decreases sorted@.len() - p,
    {
        p = p + 1;
    }
    let ghost before = sorted@;
    if p < sorted.len() && sorted[p] == q {
        return;
    }
    sorted.insert(p, q);
    proof {
        let after = sorted@;
        assert(after =~= before.subrange(0, p as int).push(q) + before.subrange(p as int, before.len() as int));
        assert forall|x: usize| after.contains(x) <==> (before.contains(x) || x == q) by {
            if before.contains(x) {
                let i = choose|i: int| 0 <= i < before.len() && #[trigger] before[i] == x;
                if i < p {
                    assert(after[i] == x);
                } else {
                    assert(after[i + 1] == x);
                }
            }
            if x == q {
                assert(after[p as int] == q);
            }
            if after.contains(x) {
                let i = choose|i: int| 0 <= i < after.len() && #[trigger] after[i] == x;
                if i < p {
                    assert(before[i] == x);
                } else if i > p {
                    assert(before[i - 1] == x);
                }
            }
        }
    }
}

/// A quantum program: the sequence of operations to perform, in order.
#[derive(Clone, Debug, PartialEq)]
pub struct Program<A, U2, U4> {
    pub gates: Vec<Operations<A, U2, U4>>,
}

impl<A, U2, U4> Program<A, U2, U4> {
    /// The empty program.
    pub fn new() -> (r: Self)
        ensures
            r.gates@ == Seq::<Operations<A, U2, U4>>::empty(),
    {
        Program { gates: Vec::new() }
    }

    /// The qubits that the program's operations act on, sorted and without
    /// repeats.
    pub fn which_qubits(&self) -> (r: Vec<usize>)
        ensures
            strictly_increasing(r@),
            forall|q: usize| r@.contains(q) <==> touches(self.gates@, q),
    {
        let mut qubits: Vec<usize> = Vec::new();
        let mut i: usize = 0;
        while i < self.gates.len()
            invariant
                i <= self.gates@.len(),
                strictly_increasing(qubits@),
                forall|q: usize|
                    #![trigger qubits@.contains(q)]
                    #![trigger touches_before(self.gates@, i as int, q)]
                    qubits@.contains(q) <==> touches_before(self.gates@, i as int, q),
            decreases self.gates@.len() - i,
        {
            let gate_qubits = which_qubits(&self.gates[i]);
            let ghost before = qubits@;
            let mut j: usize = 0;
            while j < gate_qubits.len()
                invariant
                    i < self.gates@.len(),
                    j <= gate_qubits@.len(),
                    gate_qubits@ == qubits_of(self.gates@[i as int]),
                    strictly_increasing(qubits@),
                    forall|q: usize|
                        #![trigger qubits@.contains(q)]
                        #![trigger before.contains(q)]
                        qubits@.contains(q) <==> (before.contains(q) || exists|k: int|
                            0 <= k < j && #[trigger] gate_qubits@[k] == q),
                decreases gate_qubits@.len() - j,
            {
                let ghost prev = qubits@;
                insert_sorted(&mut qubits, gate_qubits[j]);
                proof {
                    assert forall|q: usize|
                        #![trigger qubits@.contains(q)]
                        #![trigger before.contains(q)]
                        qubits@.contains(q) <==> (before.contains(q) || exists|k: int|
                            0 <= k < j + 1 && #[trigger] gate_qubits@[k] == q) by {
                        assert(qubits@.contains(q) <==> (prev.contains(q) || q == gate_qubits@[j as int]));
                        assert(prev.contains(q) <==> (before.contains(q) || exists|k: int|
                            0 <= k < j && #[trigger] gate_qubits@[k] == q));
                        if q == gate_qubits@[j as int] {
                            assert(gate_qubits@[j as int] == q);
                        }
                        if exists|k: int| 0 <= k < j + 1 && #[trigger] gate_qubits@[k] == q {
                            let k = choose|k: int| 0 <= k < j + 1 && #[trigger] gate_qubits@[k] == q;
                            if k < j {
                                assert(prev.contains(q));
                            }
                        }
                    }
                }
                j = j + 1;
            }
            proof {
                let gs = self.gates@;
                assert forall|q: usize|
                    #![trigger qubits@.contains(q)]
                    #![trigger touches_before(gs, i + 1, q)]
                    qubits@.contains(q) <==> touches_before(gs, i + 1, q) by {
                    assert(qubits@.contains(q) <==> (before.contains(q) || exists|k: int|
                        0 <= k < j && #[trigger] gate_qubits@[k] == q));
                    assert(before.contains(q) <==> touches_before(gs, i as int, q));
                    if qubits_of(gs[i as int]).contains(q) {
                        let k = choose|k: int| 0 <= k < gate_qubits@.len() && gate_qubits@[k] == q;
                        assert(gate_qubits@[k] == q);
                    }
                    if exists|k: int| 0 <= k < j && #[trigger] gate_qubits@[k] == q {
                        let k = choose|k: int| 0 <= k < j && #[trigger] gate_qubits@[k] == q;
                        assert(qubits_of(gs[i as int]).contains(q));
                    }
                    if touches_before(gs, i + 1, q) {
                        let k = choose|k: int| 0 <= k < i + 1 && #[trigger] qubits_of(gs[k]).contains(q);
                        if k < i {
                            assert(touches_before(gs, i as int, q));
                        }
                    }
                    if touches_before(gs, i as int, q) {
                        let k = choose|k: int| 0 <= k < i && #[trigger] qubits_of(gs[k]).contains(q);
                        assert(qubits_of(gs[k]).contains(q));
                    }
                }
            }
            i = i + 1;
        }
        qubits
    }

    /// Accepts when every qubit the program acts on exists in a state of
    /// `number_of_qubits` qubits; otherwise names the lowest one that does not.
    pub fn check_qubit_number(&self, number_of_qubits: usize) -> (r: Result<(), QuantumError>)
        ensures
            r is Ok <==> forall|q: usize| touches(self.gates@, q) ==> q < number_of_qubits,
            r is Err ==> exists|q: usize|
                touches(self.gates@, q) && q >= number_of_qubits && (forall|p: usize|
                    touches(self.gates@, p) && p < q ==> p < number_of_qubits) && r == Err::<
                    (),
                    QuantumError,
                >(QuantumError::QubitOutOfRange { qubit: q, number_of_qubits }),
    {
        let qubits = self.which_qubits();
        let r = check_qubits(&qubits, number_of_qubits);
        proof {
            if r is Ok {
                assert forall|q: usize| touches(self.gates@, q) implies q < number_of_qubits by {
                    assert(qubits@.contains(q));
                }
            } else {
                let i = choose|i: int|
                    0 <= i < qubits@.len() && qubits@[i] >= number_of_qubits && (forall|j: int|
                        0 <= j < i ==> qubits@[j] < number_of_qubits) && r == Err::<(), QuantumError>(
                        QuantumError::QubitOutOfRange { qubit: qubits@[i], number_of_qubits },
                    );
                let q = qubits@[i];
                assert(qubits@.contains(q));
                assert forall|p: usize| touches(self.gates@, p) && p < q implies p < number_of_qubits by {
                    assert(qubits@.contains(p));
                    let j = choose|j: int| 0 <= j < qubits@.len() && #[trigger] qubits@[j] == p;
                    if j >= i {
                        if j > i {
                            assert(qubits@[i] < qubits@[j]);
                        }
                    }
                }
            }
        }
        r
    }

    /// Appends one operation.
    pub fn add_gate(&mut self, gate: Operations<A, U2, U4>)
        ensures
            final(self).gates@ == old(self).gates@.push(gate),
    {
        self.gates.push(gate);
    }

    /// Appends the operations of `gates`, in order.
    pub fn add_gates(&mut self, gates: Vec<Operations<A, U2, U4>>)
        ensures
            final(self).gates@ == old(self).gates@ + gates@,
    {
        let mut gates = gates;
        self.gates.append(&mut gates);
    }

    /// The program that runs `self`, then `other`.
    pub fn concat(self, other: Self) -> (r: Self)
        ensures
            r.gates@ == self.gates@ + other.gates@,
    {
        let mut program = Program::new();
        program.add_gates(self.gates);
        program.add_gates(other.gates);
        proof {
            assert(program.gates@ =~= self.gates@ + other.gates@);
        }
        program
    }

    pub fn measure(&mut self, qubit: usize)
        ensures
            final(self).gates@ == old(self).gates@.push(Operations::Measure(qubit)),
    {
        self.add_gate(Operations::Measure(qubit))
    }

    pub fn measure_all(&mut self)
        ensures
            final(self).gates@ == old(self).gates@.push(Operations::MeasureAll),
    {
        self.add_gate(Operations::MeasureAll)
    }

    pub fn reset_all(&mut self)
        ensures
            final(self).gates@ == old(self).gates@.push(Operations::ResetAll),
    {
        self.add_gate(Operations::ResetAll)
    }

    pub fn x(&mut self, qubit: usize)
        ensures
            final(self).gates@ == old(self).gates@.push(Operations::X(qubit)),
    {
        self.add_gate(Operations::X(qubit))
    }

    pub fn rx(&mut self, qubit: usize, angle: A)
        ensures
            final(self).gates@ == old(self).gates@.push(Operations::RX(qubit, angle)),
    {
        self.add_gate(Operations::RX(qubit, angle))
    }

    pub fn y(&mut self, qubit: usize)
        ensures
            final(self).gates@ == old(self).gates@.push(Operations::Y(qubit)),
    {
        self.add_gate(Operations::Y(qubit))
    }

    pub fn ry(&mut self, qubit: usize, angle: A)
        ensures
            final(self).gates@ == old(self).gates@.push(Operations::RY(qubit, angle)),
    {
        self.add_gate(Operations::RY(qubit, angle))
    }

    pub fn z(&mut self, qubit: usize)
        ensures
            final(self).gates@ == old(self).gates@.push(Operations::Z(qubit)),
    {
        self.add_gate(Operations::Z(qubit))
    }

    pub fn rz(&mut self, qubit: usize, angle: A)
        ensures
            final(self).gates@ == old(self).gates@.push(Operations::RZ(qubit, angle)),
    {
        self.add_gate(Operations::RZ(qubit, angle))
    }

    pub fn r(&mut self, qubit: usize, phi: A, theta: A, omega: A)
        ensures
            final(self).gates@ == old(self).gates@.push(Operations::R(qubit, phi, theta, omega)),
    {
        self.add_gate(Operations::R(qubit, phi, theta, omega))
    }

    pub fn h(&mut self, qubit: usize)
        ensures
            final(self).gates@ == old(self).gates@.push(Operations::H(qubit)),
    {
        self.add_gate(Operations::H(qubit))
    }

    pub fn s(&mut self, qubit: usize)
        ensures
            final(self).gates@ == old(self).gates@.push(Operations::S(qubit)),
    {
        self.add_gate(Operations::S(qubit))
    }

    pub fn cz(&mut self, control: usize, target: usize)
        ensures
            final(self).gates@ == old(self).gates@.push(Operations::CZ(control, target)),
    {
        self.add_gate(Operations::CZ(control, target))
    }

    pub fn crz(&mut self, control: usize, target: usize, angle: A)
        ensures
            final(self).gates@ == old(self).gates@.push(Operations::CRZ(control, target, angle)),
    {
        self.add_gate(Operations::CRZ(control, target, angle))
    }

    pub fn cnot(&mut self, control: usize, target: usize)
        ensures
            final(self).gates@ == old(self).gates@.push(Operations::CNOT(control, target)),
    {
        self.add_gate(Operations::CNOT(control, target))
    }

    pub fn siswap(&mut self, control: usize, target: usize)
        ensures
            final(self).gates@ == old(self).gates@.push(Operations::SISWAP(control, target)),
    {
        self.add_gate(Operations::SISWAP(control, target))
    }

    pub fn iswap(&mut self, control: usize, target: usize)
        ensures
            final(self).gates@ == old(self).gates@.push(Operations::ISWAP(control, target)),
    {
        self.add_gate(Operations::ISWAP(control, target))
    }

    pub fn swap(&mut self, control: usize, target: usize)
        ensures
            final(self).gates@ == old(self).gates@.push(Operations::SWAP(control, target)),
    {
        self.add_gate(Operations::SWAP(control, target))
    }
}

/// `a + b` runs `a`, then `b`.
impl<A, U2, U4> std::ops::Add for Program<A, U2, U4> {
    type Output = Program<A, U2, U4>;

    fn add(self, other: Self) -> (r: Self)
        ensures
            r.gates@ == self.gates@ + other.gates@,
    {
        self.concat(other)
    }
}

// `+` on programs is described by the postcondition of `add` above; no
// spec function of the operator is claimed.
impl<A, U2, U4> vstd::std_specs::ops::AddSpecImpl for Program<A, U2, U4> {
    open spec fn obeys_add_spec() -> bool {
        false
    }

    open spec fn add_req(self, rhs: Self) -> bool {
        true
    }

    open spec fn add_spec(self, rhs: Self) -> Self {
        self
    }
}

/// Concatenation of programs is associative, and the empty program is its
/// identity on either side.
pub proof fn lemma_concat_monoid<A, U2, U4>(
    p: Seq<Operations<A, U2, U4>>,
    q: Seq<Operations<A, U2, U4>>,
    r: Seq<Operations<A, U2, U4>>,
)
    ensures
        (p + q) + r == p + (q + r),
        Seq::<Operations<A, U2, U4>>::empty() + p == p,
        p + Seq::<Operations<A, U2, U4>>::empty() == p,
{
    assert((p + q) + r =~= p + (q + r));
    assert(Seq::<Operations<A, U2, U4>>::empty() + p =~= p);
    assert(p + Seq::<Operations<A, U2, U4>>::empty() =~= p);
}

} // verus!
