use vstd::prelude::*;
use vstd::arithmetic::power2::pow2;

use crate::index_swapping::{
    bit, in_space, lemma_pair_bit, lemma_pair_member, lemma_pairs_partition, lemma_quad_member,
    lemma_quads_partition, lemma_swapped_involution, log2, pair_member, quad_member, swap_pair,
    swap_two_pairs, swapped, two_pairs_unswapped, valid_pair,
};
use crate::types::{QuantumError, StateVectorPointer};

verus! {

/// A one-qubit gate maps the amplitude pair `before` to `after`.
pub open spec fn maps_pair<T, F: Fn([T; 2]) -> [T; 2]>(u: F, before: Seq<T>, after: Seq<T>) -> bool {
    exists|a: [T; 2], b: [T; 2]| a@ == before && b@ == after && #[trigger] u.ensures((a,), b)
}

/// A two-qubit gate maps the amplitude quadruple `before` to `after`.
pub open spec fn maps_quad<T, F: Fn([T; 4]) -> [T; 4]>(u: F, before: Seq<T>, after: Seq<T>) -> bool {
    exists|a: [T; 4], b: [T; 4]| a@ == before && b@ == after && #[trigger] u.ensures((a,), b)
}

/// The amplitudes of pair `k` of the sweep on qubit `q`.
pub open spec fn pair_of<T>(amps: Seq<T>, k: usize, q: usize) -> Seq<T> {
    seq![amps[pair_member(k, 0, q) as int], amps[pair_member(k, 1, q) as int]]
}

/// The amplitudes of group `k` of the sweep on target `t` and control `c`.
pub open spec fn quad_of<T>(amps: Seq<T>, k: usize, t: usize, c: usize) -> Seq<T> {
    seq![
        amps[quad_member(k, 0, t, c) as int],
        amps[quad_member(k, 1, t, c) as int],
        amps[quad_member(k, 2, t, c) as int],
        amps[quad_member(k, 3, t, c) as int],
    ]
}

/// The number encoded by a fully measured classical register, qubit 0
/// being the lowest bit.
pub open spec fn register_value(reg: Seq<Option<bool>>) -> nat
    decreases reg.len(),
{
    if reg.len() == 0 {
        0
    } else {
        register_value(reg.drop_last()) + if reg.last() == Some(true) {
            pow2((reg.len() - 1) as nat)
        } else {
            0
        }
    }
}

/// Every qubit of the register has been measured.
pub open spec fn fully_measured(reg: Seq<Option<bool>>) -> bool {
    forall|k: int| 0 <= k < reg.len() ==> reg[k] is Some
}

/// `amps` is the ground state |0...0>: `one` first, `zero` everywhere else.
pub open spec fn is_ground<T>(amps: Seq<T>, zero: T, one: T) -> bool {
    amps.len() >= 1 && amps[0] == one && forall|i: int| 1 <= i < amps.len() ==> amps[i] == zero
}

/// A vector of `len` copies of `value`.
pub fn filled<T: Copy>(value: T, len: usize) -> (r: Vec<T>)
    ensures
        r@.len() == len,
        forall|i: int| 0 <= i < len ==> r@[i] == value,
{
    let mut r: Vec<T> = Vec::new();
    let mut i: usize = 0;
    while i < len
        invariant
            i <= len,
            r@.len() == i,
            forall|j: int| 0 <= j < i ==> r@[j] == value,
        decreases len - i,
    {
        r.push(value);
        i = i + 1;
    }
    r
}

/// A state vector describing a pure quantum state of `number_of_qubits`
/// qubits, with amplitudes of type `T`.
pub struct StateVector<T> {
    /// The number of qubits in the quantum state.
    pub number_of_qubits: usize,
    /// The `2^n` amplitudes, indexed by the bitstring of the basis state.
    pub state_vector: StateVectorPointer<T>,
    /// Where the outcomes of measurements are stored.
    pub classical_register: Vec<Option<bool>>,
}

impl<T: Copy> StateVector<T> {
    pub open spec fn wf(&self) -> bool {
        &&& self.number_of_qubits < usize::BITS
        &&& self.state_vector@.len() == pow2(self.number_of_qubits as nat)
        &&& self.classical_register@.len() == self.number_of_qubits
    }

    pub open spec fn amplitudes(&self) -> Seq<T> {
        self.state_vector@
    }

    /// The state |0...0> of `number_of_qubits` qubits, with no measurement recorded.
    pub fn new(number_of_qubits: usize, zero: T, one: T) -> (r: Self)
        requires
            number_of_qubits < usize::BITS,
        ensures
            r.wf(),
            r.number_of_qubits == number_of_qubits,
            is_ground(r.amplitudes(), zero, one),
            forall|k: int| 0 <= k < number_of_qubits ==> r.classical_register@[k] is None,
    {
        proof {
            vstd::bits::lemma_usize_pow2_no_overflow(number_of_qubits as nat);
            vstd::bits::lemma_usize_shl_is_mul(1, number_of_qubits);
        }
        let hilbert_dim = 1usize << number_of_qubits;
        let mut amps = filled(zero, hilbert_dim);
        amps.set(0, one);
        StateVector {
            number_of_qubits,
            state_vector: StateVectorPointer::new(amps),
            classical_register: filled(None, number_of_qubits),
        }
    }

    /// A state vector holding the given amplitudes; their number must be a
    /// power of two.
    pub fn from_vector(state_vector: Vec<T>) -> (r: Result<Self, QuantumError>)
        ensures
            match r {
                Ok(s) => {
                    &&& s.wf()
                    &&& s.amplitudes() == state_vector@
                    &&& pow2(s.number_of_qubits as nat) == state_vector@.len()
                    &&& forall|k: int|
                        0 <= k < s.number_of_qubits ==> s.classical_register@[k] is None
                },
                Err(e) => {
                    &&& e == QuantumError::DimensionMismatch {
                        rows: state_vector@.len() as usize,
                        columns: 1,
                    }
                    &&& forall|n: nat| pow2(n) != state_vector@.len()
                },
            },
            r is Ok <==> exists|n: nat| pow2(n) == state_vector@.len(),
    {
        let len = state_vector.len();
        let number_of_qubits = log2(len);
        proof {
            vstd::bits::lemma_usize_pow2_no_overflow(number_of_qubits as nat);
            vstd::bits::lemma_usize_shl_is_mul(1, number_of_qubits);
        }
        if len == 0 || (1usize << number_of_qubits) != len {
            proof {
                assert forall|n: nat| pow2(n) != len by {
                    vstd::arithmetic::power2::lemma_pow2_pos(n);
                    if pow2(n) == len {
                        if n < number_of_qubits {
                            vstd::arithmetic::power2::lemma_pow2_strictly_increases(
                                n,
                                number_of_qubits as nat,
                            );
                        } else if n > number_of_qubits {
                            vstd::arithmetic::power2::lemma_pow2_strictly_increases(
                                number_of_qubits as nat,
                                n,
                            );
                            if n > number_of_qubits + 1 {
                                vstd::arithmetic::power2::lemma_pow2_strictly_increases(
                                    (number_of_qubits + 1) as nat,
                                    n,
                                );
                            }
                        }
                    }
                }
            }
            return Err(QuantumError::DimensionMismatch { rows: len, columns: 1 });
        }
        Ok(
            StateVector {
                number_of_qubits,
                state_vector: StateVectorPointer::new(state_vector),
                classical_register: filled(None, number_of_qubits),
            },
        )
    }

    /// Sets every amplitude to `zero`.
    pub fn zero(&mut self, zero: T)
        requires
            old(self).wf(),
        ensures
            final(self).wf(),
            final(self).number_of_qubits == old(self).number_of_qubits,
            final(self).classical_register == old(self).classical_register,
            final(self).amplitudes().len() == old(self).amplitudes().len(),
            forall|i: int| 0 <= i < final(self).amplitudes().len() ==> final(self).amplitudes()[i] == zero,
    {
        let len = self.state_vector.size();
        let mut i: usize = 0;
        while i < len
            invariant
                self.wf(),
                self.number_of_qubits == old(self).number_of_qubits,
                self.classical_register == old(self).classical_register,
                len == self.amplitudes().len(),
                i <= len,
                forall|j: int| 0 <= j < i ==> self.amplitudes()[j] == zero,
            decreases len - i,
        {
            self.state_vector.write(i, zero);
            i = i + 1;
        }
    }

    /// Clears the record of measurements.
    pub fn reset_classical_register(&mut self)
        requires
            old(self).wf(),
        ensures
            final(self).wf(),
            final(self).number_of_qubits == old(self).number_of_qubits,
            final(self).amplitudes() == old(self).amplitudes(),
            forall|k: int| 0 <= k < final(self).number_of_qubits ==> final(self).classical_register@[k] is None,
    {
        self.classical_register = filled(None, self.number_of_qubits);
    }

    /// Returns every qubit to |0> and clears the record of measurements.
    pub fn reinitialise_all(&mut self, zero: T, one: T)
        requires
            old(self).wf(),
        ensures
            final(self).wf(),
            final(self).number_of_qubits == old(self).number_of_qubits,
            is_ground(final(self).amplitudes(), zero, one),
            forall|k: int| 0 <= k < final(self).number_of_qubits ==> final(self).classical_register@[k] is None,
    {
        self.zero(zero);
        proof {
            vstd::arithmetic::power2::lemma_pow2_pos(self.number_of_qubits as nat);
        }
        self.state_vector.write(0, one);
        self.reset_classical_register();
    }

    /// Applies a one-qubit gate to qubit `target`: every pair of amplitudes
    /// whose indices differ only in bit `target` (bit 0 first) is replaced by
    /// what `u` makes of it.
    pub fn single_qubit_gate<F: Fn([T; 2]) -> [T; 2]>(&mut self, target: usize, u: F)
        requires
            old(self).wf(),
            target < old(self).number_of_qubits,
            forall|a: [T; 2]| u.requires((a,)),
        ensures
            final(self).wf(),
            final(self).number_of_qubits == old(self).number_of_qubits,
            final(self).classical_register == old(self).classical_register,
            forall|k: usize|
                (k as nat) < pow2(old(self).number_of_qubits as nat) / 2 ==> #[trigger] maps_pair(
                    u,
                    pair_of(old(self).amplitudes(), k, target),
                    pair_of(final(self).amplitudes(), k, target),
                ),
    {
        let ghost n = self.number_of_qubits;
        let ghost old_amps = self.amplitudes();
        let half = self.state_vector.size() / 2;
        proof {
            vstd::arithmetic::power2::lemma_pow2_unfold(n as nat);
            lemma_pairs_partition(target, n);
        }
        let mut k: usize = 0;
        while k < half
            invariant
                self.wf(),
                self.number_of_qubits == n,
                self.classical_register == old(self).classical_register,
                old_amps == old(self).amplitudes(),
                old_amps.len() == pow2(n as nat),
                half == pow2(n as nat) / 2,
                pow2(n as nat) == 2 * half,
                2 * half <= usize::MAX,
                target < n,
                k <= half,
                forall|a: [T; 2]| u.requires((a,)),
                forall|i: usize|
                    in_space(i, n) && swapped(i, 0, target) / 2 >= k ==> self.amplitudes()[i as int]
                        == old_amps[i as int],
                forall|k2: usize|
                    k2 < k ==> #[trigger] maps_pair(
                        u,
                        pair_of(old_amps, k2, target),
                        pair_of(self.amplitudes(), k2, target),
                    ),
            decreases half - k,
        {
            let i0 = swap_pair(2 * k, target);
            let i1 = swap_pair(2 * k + 1, target);
            proof {
                lemma_pair_member(k, 0, target, n);
                lemma_pair_member(k, 1, target, n);
            }
            let s0 = self.state_vector.read(i0);
            let s1 = self.state_vector.read(i1);
            let a = [s0, s1];
            let b = u(a);
            let ghost mid = self.amplitudes();
            self.state_vector.write(i0, b[0]);
            self.state_vector.write(i1, b[1]);
            proof {
                let cur = self.amplitudes();
                assert(a@ == pair_of(old_amps, k, target));
                assert(b@ == pair_of(cur, k, target));
                assert(maps_pair(u, pair_of(old_amps, k, target), pair_of(cur, k, target)));
                assert forall|k2: usize| k2 < k + 1 implies #[trigger] maps_pair(
                    u,
                    pair_of(old_amps, k2, target),
                    pair_of(cur, k2, target),
                ) by {
                    if k2 < k {
                        lemma_pair_member(k2, 0, target, n);
                        lemma_pair_member(k2, 1, target, n);
                        assert(pair_of(cur, k2, target) =~= pair_of(mid, k2, target));
                    }
                }
                assert forall|i: usize|
                    in_space(i, n) && swapped(i, 0, target) / 2 >= k + 1 implies cur[i as int]
                    == old_amps[i as int] by {
                    assert(i != i0 && i != i1);
                }
            }
            k = k + 1;
        }
    }

    /// Applies a two-qubit gate to `target` and `control`: every group of four
    /// amplitudes whose indices differ only in those two bits, ordered as
    /// |control target> = |00>, |01>, |10>, |11>, is replaced by what `u`
    /// makes of it.
    pub fn two_qubit_gate<F: Fn([T; 4]) -> [T; 4]>(&mut self, target: usize, control: usize, u: F)
        requires
            old(self).wf(),
            valid_pair(old(self).number_of_qubits, target, control),
            forall|a: [T; 4]| u.requires((a,)),
        ensures
            final(self).wf(),
            final(self).number_of_qubits == old(self).number_of_qubits,
            final(self).classical_register == old(self).classical_register,
            forall|k: usize|
                (k as nat) < pow2(old(self).number_of_qubits as nat) / 4 ==> #[trigger] maps_quad(
                    u,
                    quad_of(old(self).amplitudes(), k, target, control),
                    quad_of(final(self).amplitudes(), k, target, control),
                ),
    {
        let ghost n = self.number_of_qubits;
        let ghost old_amps = self.amplitudes();
        let quarter = self.state_vector.size() / 4;
        proof {
            vstd::arithmetic::power2::lemma_pow2_unfold(n as nat);
            vstd::arithmetic::power2::lemma_pow2_unfold((n - 1) as nat);
            lemma_quads_partition(target, control, n);
        }
        let mut k: usize = 0;
        while k < quarter
            invariant
                self.wf(),
                self.number_of_qubits == n,
                self.classical_register == old(self).classical_register,
                old_amps == old(self).amplitudes(),
                old_amps.len() == pow2(n as nat),
                quarter == pow2(n as nat) / 4,
                pow2(n as nat) == 4 * quarter,
                4 * quarter <= usize::MAX,
                valid_pair(n, target, control),
                k <= quarter,
                forall|a: [T; 4]| u.requires((a,)),
                forall|i: usize|
                    in_space(i, n) && two_pairs_unswapped(i, target, control) / 4 >= k
                        ==> self.amplitudes()[i as int] == old_amps[i as int],
                forall|k2: usize|
                    k2 < k ==> #[trigger] maps_quad(
                        u,
                        quad_of(old_amps, k2, target, control),
                        quad_of(self.amplitudes(), k2, target, control),
                    ),
            decreases quarter - k,
        {
            let i0 = swap_two_pairs(4 * k, target, control);
            let i1 = swap_two_pairs(4 * k + 1, target, control);
            let i2 = swap_two_pairs(4 * k + 2, target, control);
            let i3 = swap_two_pairs(4 * k + 3, target, control);
            proof {
                lemma_quad_member(k, 0, target, control, n);
                lemma_quad_member(k, 1, target, control, n);
                lemma_quad_member(k, 2, target, control, n);
                lemma_quad_member(k, 3, target, control, n);
            }
            let a = [
                self.state_vector.read(i0),
                self.state_vector.read(i1),
                self.state_vector.read(i2),
                self.state_vector.read(i3),
            ];
            let b = u(a);
            let ghost mid = self.amplitudes();
            self.state_vector.write(i0, b[0]);
            self.state_vector.write(i1, b[1]);
            self.state_vector.write(i2, b[2]);
            self.state_vector.write(i3, b[3]);
            proof {
                let cur = self.amplitudes();
                assert(a@ =~= quad_of(old_amps, k, target, control));
                assert(b@ =~= quad_of(cur, k, target, control));
                assert(maps_quad(u, quad_of(old_amps, k, target, control), quad_of(cur, k, target, control)));
                assert forall|k2: usize| k2 < k + 1 implies #[trigger] maps_quad(
                    u,
                    quad_of(old_amps, k2, target, control),
                    quad_of(cur, k2, target, control),
                ) by {
                    if k2 < k {
                        lemma_quad_member(k2, 0, target, control, n);
                        lemma_quad_member(k2, 1, target, control, n);
                        lemma_quad_member(k2, 2, target, control, n);
                        lemma_quad_member(k2, 3, target, control, n);
                        assert(quad_of(cur, k2, target, control) =~= quad_of(mid, k2, target, control));
                    }
                }
                assert forall|i: usize|
                    in_space(i, n) && two_pairs_unswapped(i, target, control) / 4 >= k + 1 implies cur[i as int]
                    == old_amps[i as int] by {
                    assert(i != i0 && i != i1 && i != i2 && i != i3);
                }
            }
            k = k + 1;
        }
    }

    /// The amplitudes whose basis state has bit `target` equal to 0, in the
    /// order of the sweep on `target`.
    pub fn zero_half(&self, target: usize) -> (r: Vec<T>)
        requires
            self.wf(),
            target < self.number_of_qubits,
        ensures
            r@.len() == pow2(self.number_of_qubits as nat) / 2,
            forall|k: usize|
                (k as nat) < pow2(self.number_of_qubits as nat) / 2 ==> r@[k as int]
                    == self.amplitudes()[#[trigger] pair_member(k, 0, target) as int]
                    && !bit(pair_member(k, 0, target), target),
    {
        let ghost n = self.number_of_qubits;
        let half = self.state_vector.size() / 2;
        proof {
            vstd::arithmetic::power2::lemma_pow2_unfold(n as nat);
        }
        let mut r: Vec<T> = Vec::new();
        let mut k: usize = 0;
        while k < half
            invariant
                self.wf(),
                n == self.number_of_qubits,
                target < n,
                half == pow2(n as nat) / 2,
                pow2(n as nat) == 2 * half,
                2 * half <= usize::MAX,
                k <= half,
                r@.len() == k,
                forall|k2: usize|
                    k2 < k ==> r@[k2 as int] == self.amplitudes()[#[trigger] pair_member(k2, 0, target) as int]
                        && !bit(pair_member(k2, 0, target), target),
            decreases half - k,
        {
            let i0 = swap_pair(2 * k, target);
            proof {
                lemma_pair_member(k, 0, target, n);
                lemma_pair_bit(i0, target);
            }
            r.push(self.state_vector.read(i0));
            k = k + 1;
        }
        r
    }

    /// Collapses the state after qubit `target` was measured with `outcome`:
    /// the amplitudes whose bit `target` agrees with the outcome are rescaled
    /// by `scale`, the others become `zero`, and the outcome is recorded.
    pub fn collapse<F: Fn(T) -> T>(&mut self, target: usize, outcome: bool, scale: F, zero: T)
        requires
            old(self).wf(),
            target < old(self).number_of_qubits,
            forall|a: T| scale.requires((a,)),
        ensures
            final(self).wf(),
            final(self).number_of_qubits == old(self).number_of_qubits,
            final(self).classical_register@ == old(self).classical_register@.update(
                target as int,
                Some(outcome),
            ),
            forall|i: usize|
                #![trigger final(self).amplitudes()[i as int]]
                in_space(i, old(self).number_of_qubits) ==> if bit(i, target) == outcome {
                    scale.ensures((old(self).amplitudes()[i as int],), final(self).amplitudes()[i as int])
                } else {
                    final(self).amplitudes()[i as int] == zero
                },
    {
        let ghost n = self.number_of_qubits;
        let ghost old_amps = self.amplitudes();
        self.classical_register.set(target, Some(outcome));
        let half = self.state_vector.size() / 2;
        proof {
            vstd::arithmetic::power2::lemma_pow2_unfold(n as nat);
            lemma_pairs_partition(target, n);
        }
        let mut k: usize = 0;
        while k < half
            invariant
                self.wf(),
                self.number_of_qubits == n,
                self.classical_register@ == old(self).classical_register@.update(
                    target as int,
                    Some(outcome),
                ),
                old_amps == old(self).amplitudes(),
                old_amps.len() == pow2(n as nat),
                half == pow2(n as nat) / 2,
                pow2(n as nat) == 2 * half,
                2 * half <= usize::MAX,
                target < n,
                k <= half,
                forall|a: T| scale.requires((a,)),
                forall|i: usize|
                    in_space(i, n) && swapped(i, 0, target) / 2 >= k ==> self.amplitudes()[i as int]
                        == old_amps[i as int],
                forall|i: usize|
                    #![trigger self.amplitudes()[i as int]]
                    in_space(i, n) && swapped(i, 0, target) / 2 < k ==> if bit(i, target) == outcome {
                        scale.ensures((old_amps[i as int],), self.amplitudes()[i as int])
                    } else {
                        self.amplitudes()[i as int] == zero
                    },
            decreases half - k,
        {
            let i0 = swap_pair(2 * k, target);
            let i1 = swap_pair(2 * k + 1, target);
            proof {
                lemma_pair_member(k, 0, target, n);
                lemma_pair_member(k, 1, target, n);
                lemma_pair_bit(i0, target);
                lemma_pair_bit(i1, target);
            }
            let ghost mid = self.amplitudes();
            if outcome {
                let s1 = self.state_vector.read(i1);
                self.state_vector.write(i0, zero);
                self.state_vector.write(i1, scale(s1));
            } else {
                let s0 = self.state_vector.read(i0);
                self.state_vector.write(i0, scale(s0));
                self.state_vector.write(i1, zero);
            }
            proof {
                let cur = self.amplitudes();
                assert forall|i: usize|
                    #![trigger cur[i as int]]
                    in_space(i, n) && swapped(i, 0, target) / 2 < k + 1 implies if bit(i, target) == outcome {
                        scale.ensures((old_amps[i as int],), cur[i as int])
                    } else {
                        cur[i as int] == zero
                    } by {
                    lemma_pair_bit(i, target);
                    if swapped(i, 0, target) / 2 < k {
                        assert(i != i0 && i != i1);
                        assert(mid[i as int] == cur[i as int]);
                    } else {
                        lemma_swapped_involution(i, 0, target);
                        assert(i == i0 || i == i1);
                    }
                }
                assert forall|i: usize|
                    in_space(i, n) && swapped(i, 0, target) / 2 >= k + 1 implies cur[i as int]
                    == old_amps[i as int] by {
                    assert(i != i0 && i != i1);
                }
            }
            k = k + 1;
        }
        proof {
            assert forall|i: usize|
                #![trigger self.amplitudes()[i as int]]
                in_space(i, n) implies if bit(i, target) == outcome {
                    scale.ensures((old_amps[i as int],), self.amplitudes()[i as int])
                } else {
                    self.amplitudes()[i as int] == zero
                } by {
                assert(in_space(i, n));
            }
        }
    }

    /// Collapses the state onto basis state `outcome` after all qubits were
    /// measured, and records each qubit's bit of `outcome`.
    pub fn collapse_all(&mut self, outcome: usize, zero: T, one: T)
        requires
            old(self).wf(),
            in_space(outcome, old(self).number_of_qubits),
        ensures
            final(self).wf(),
            final(self).number_of_qubits == old(self).number_of_qubits,
            forall|i: int|
                0 <= i < final(self).amplitudes().len() ==> final(self).amplitudes()[i] == if i
                    == outcome {
                    one
                } else {
                    zero
                },
            forall|k: int|
                0 <= k < final(self).number_of_qubits ==> final(self).classical_register@[k] == Some(
                    bit(outcome, k as usize),
                ),
            fully_measured(final(self).classical_register@),
            register_value(final(self).classical_register@) == outcome,
    {
        let n = self.number_of_qubits;
        let mut q: usize = 0;
        proof {
            vstd::arithmetic::power2::lemma2_to64();
            assert(self.classical_register@.subrange(0, 0) =~= Seq::<Option<bool>>::empty());
        }
        while q < n
            invariant
                self.wf(),
                n == self.number_of_qubits,
                self.amplitudes() == old(self).amplitudes(),
                q <= n,
                forall|k: int| 0 <= k < q ==> self.classical_register@[k] == Some(bit(outcome, k as usize)),
                register_value(self.classical_register@.subrange(0, q as int)) == outcome as nat % pow2(
                    q as nat,
                ),
            decreases n - q,
        {
            let b = (outcome >> q) & 1usize == 1usize;
            let ghost prev = self.classical_register@;
            self.classical_register.set(q, Some(b));
            proof {
                let reg = self.classical_register@;
                let p = pow2(q as nat);
                vstd::arithmetic::power2::lemma_pow2_pos(q as nat);
                vstd::arithmetic::power2::lemma_pow2_unfold((q + 1) as nat);
                assert(reg.subrange(0, q as int) =~= prev.subrange(0, q as int));
                assert(reg.subrange(0, q + 1).drop_last() =~= reg.subrange(0, q as int));
                vstd::bits::lemma_usize_shr_is_div(outcome, q);
                let y = outcome >> q;
                assert((y & 1usize == 1usize) == (y % 2 == 1)) by (bit_vector);
                vstd::arithmetic::div_mod::lemma_mod_breakdown(outcome as int, p as int, 2);
                vstd::arithmetic::div_mod::lemma_mod_bound((outcome as int) / (p as int), 2);
                assert(p * 2 == pow2((q + 1) as nat));
                assert(b == (y % 2 == 1));
                if b {
                    assert(p * ((outcome as int / p as int) % 2) == p);
                } else {
                    assert(p * ((outcome as int / p as int) % 2) == 0);
                }
            }
            q = q + 1;
        }
        proof {
            assert(self.classical_register@.subrange(0, n as int) =~= self.classical_register@);
            vstd::arithmetic::div_mod::lemma_small_mod(outcome as nat, pow2(n as nat));
        }
        self.zero(zero);
        self.state_vector.write(outcome, one);
    }

    /// Kraus operators do not act on a pure state: always refused, and the
    /// state is left as it was.
    pub fn single_qubit_kraus<U>(&mut self, target: usize, u: U) -> (r: Result<(), QuantumError>)
        ensures
            r == Err::<(), QuantumError>(QuantumError::UnsupportedOnPure),
            *final(self) == *old(self),
    {
        Err(QuantumError::UnsupportedOnPure)
    }

    /// The recorded outcome of qubit `target`, which must have been measured.
    pub fn get_measured_qubit_state(&self, target: usize) -> (r: bool)
        requires
            self.wf(),
            target < self.number_of_qubits,
            self.classical_register@[target as int] is Some,
        ensures
            Some(r) == self.classical_register@[target as int],
    {
        match self.classical_register[target] {
            Some(qubit_state) => qubit_state,
            None => false,
        }
    }

    /// The basis state spelled by the recorded outcomes, qubit 0 being the
    /// lowest bit; every qubit must have been measured.
    pub fn get_measured_overall_state(&self) -> (r: usize)
        requires
            self.wf(),
            fully_measured(self.classical_register@),
        ensures
            r == register_value(self.classical_register@),
    {
        let n = self.number_of_qubits;
        let ghost reg = self.classical_register@;
        let mut overall_state: usize = 0;
        let mut qubit: usize = 0;
        proof {
            vstd::arithmetic::power2::lemma2_to64();
            assert(reg.subrange(0, 0) =~= Seq::<Option<bool>>::empty());
        }
        while qubit < n
            invariant
                self.wf(),
                n == self.number_of_qubits,
                reg == self.classical_register@,
                fully_measured(reg),
                qubit <= n,
                overall_state == register_value(reg.subrange(0, qubit as int)),
                (overall_state as nat) < pow2(qubit as nat),
            decreases n - qubit,
        {
            let qubit_state = self.get_measured_qubit_state(qubit);
            proof {
                vstd::bits::lemma_usize_pow2_no_overflow(qubit as nat);
                vstd::bits::lemma_usize_pow2_no_overflow((qubit + 1) as nat);
                vstd::bits::lemma_usize_shl_is_mul(1, qubit);
                vstd::arithmetic::power2::lemma_pow2_unfold((qubit + 1) as nat);
                assert(reg.subrange(0, qubit + 1).drop_last() =~= reg.subrange(0, qubit as int));
            }
            if qubit_state {
                overall_state = overall_state + (1usize << qubit);
            }
            qubit = qubit + 1;
        }
        proof {
            assert(reg.subrange(0, n as int) =~= reg);
        }
        overall_state
    }

    /// Accepts when every qubit in `qubits` exists in this state; otherwise
    /// names the first one that does not.
    pub fn check_qubit_number(&self, qubits: &Vec<usize>) -> (r: Result<(), QuantumError>)
        ensures
            r is Ok <==> forall|i: int| 0 <= i < qubits@.len() ==> qubits@[i] < self.number_of_qubits,
            r is Err ==> exists|i: int|
                0 <= i < qubits@.len() && qubits@[i] >= self.number_of_qubits && (forall|j: int|
                    0 <= j < i ==> qubits@[j] < self.number_of_qubits) && r == Err::<(), QuantumError>(
                    QuantumError::QubitOutOfRange {
                        qubit: qubits@[i],
                        number_of_qubits: self.number_of_qubits,
                    },
                ),
    {
        check_qubits(qubits, self.number_of_qubits)
    }
}

/// Accepts when every qubit in `qubits` is below `number_of_qubits`;
/// otherwise names the first one that is not.
pub fn check_qubits(qubits: &Vec<usize>, number_of_qubits: usize) -> (r: Result<(), QuantumError>)
    ensures
        r is Ok <==> forall|i: int| 0 <= i < qubits@.len() ==> qubits@[i] < number_of_qubits,
        r is Err ==> exists|i: int|
            0 <= i < qubits@.len() && qubits@[i] >= number_of_qubits && (forall|j: int|
                0 <= j < i ==> qubits@[j] < number_of_qubits) && r == Err::<(), QuantumError>(
                QuantumError::QubitOutOfRange { qubit: qubits@[i], number_of_qubits },
            ),
{
    let mut i: usize = 0;
    while i < qubits.len()
        invariant
            i <= qubits@.len(),
            forall|j: int| 0 <= j < i ==> qubits@[j] < number_of_qubits,
        decreases qubits@.len() - i,
    {
        if qubits[i] >= number_of_qubits {
            return Err(QuantumError::QubitOutOfRange { qubit: qubits[i], number_of_qubits });
        }
        i = i + 1;
    }
    Ok(())
}

} // verus!
