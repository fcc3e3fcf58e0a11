use vstd::prelude::*;
use vstd::arithmetic::power2::pow2;

use crate::index_swapping::{
    bit, lemma_pair_member, lemma_pairs_partition, lemma_quad_member, lemma_quads_partition,
    pair_member, quad_member, swap_pair, swap_two_pairs, valid_pair,
};
use crate::state_vector::{filled, StateVector};
use crate::types::{
    block_of, keeps_len, lemma_cells, maps_block, DensityMatrixPointer, QuantumError,
};

verus! {

/// The indices of pair `k` in the sweep on qubit `q`.
pub open spec fn pair_rows(k: usize, q: usize) -> Seq<usize> {
    seq![pair_member(k, 0, q), pair_member(k, 1, q)]
}

/// The indices of group `k` in the sweep on target `t` and control `c`.
pub open spec fn quad_rows(k: usize, t: usize, c: usize) -> Seq<usize> {
    seq![quad_member(k, 0, t, c), quad_member(k, 1, t, c), quad_member(k, 2, t, c), quad_member(k, 3, t, c)]
}

/// Groups of indices that split `[0, dim)`: each of size `m`, each free of
/// repeats, and no index in two groups.
pub open spec fn is_partition(groups: Seq<Vec<usize>>, m: nat, dim: nat) -> bool {
    &&& forall|k: int| 0 <= k < groups.len() ==> (#[trigger] groups[k])@.len() == m
    &&& forall|k: int, i: int|
        0 <= k < groups.len() && 0 <= i < m ==> (#[trigger] groups[k]@[i] as nat) < dim
    &&& forall|k: int, i1: int, i2: int|
        0 <= k < groups.len() && 0 <= i1 < i2 < m ==> #[trigger] groups[k]@[i1] != #[trigger] groups[k]@[i2]
    &&& forall|k1: int, k2: int, i1: int, i2: int|
        0 <= k1 < groups.len() && 0 <= k2 < groups.len() && 0 <= i1 < m && 0 <= i2 < m && #[trigger] groups[k1]@[i1]
            == #[trigger] groups[k2]@[i2] ==> k1 == k2
}

/// The pairs of the sweep on qubit `target` for `n` qubits.
pub fn pair_groups(n: usize, target: usize) -> (r: Vec<Vec<usize>>)
    requires
        n < usize::BITS,
        target < n,
    ensures
        r@.len() == pow2(n as nat) / 2,
        forall|k: int| 0 <= k < r@.len() ==> (#[trigger] r@[k])@ == pair_rows(k as usize, target),
        is_partition(r@, 2, pow2(n as nat)),
{
    proof {
        vstd::bits::lemma_usize_pow2_no_overflow(n as nat);
        vstd::bits::lemma_usize_shl_is_mul(1, n);
        vstd::arithmetic::power2::lemma_pow2_unfold(n as nat);
        lemma_pairs_partition(target, n);
    }
    let half = (1usize << n) / 2;
    let mut r: Vec<Vec<usize>> = Vec::new();
    let mut k: usize = 0;
    while k < half
        invariant
            n < usize::BITS,
            target < n,
            half == pow2(n as nat) / 2,
            2 * half == pow2(n as nat),
            2 * half <= usize::MAX,
            k <= half,
            r@.len() == k,
            forall|k2: int| 0 <= k2 < k ==> (#[trigger] r@[k2])@ == pair_rows(k2 as usize, target),
        decreases half - k,
    {
        let mut g: Vec<usize> = Vec::new();
        g.push(swap_pair(2 * k, target));
        g.push(swap_pair(2 * k + 1, target));
        proof {
            assert(g@ =~= pair_rows(k, target));
        }
        r.push(g);
        k = k + 1;
    }
    proof {
        assert forall|k: int, i: int| 0 <= k < r@.len() && 0 <= i < 2 implies (#[trigger] r@[k]@[i] as nat)
            < pow2(n as nat) by {
            lemma_pair_member(k as usize, i as usize, target, n);
        }
        assert forall|k: int, i1: int, i2: int| 0 <= k < r@.len() && 0 <= i1 < i2 < 2 implies #[trigger] r@[k]@[i1]
            != #[trigger] r@[k]@[i2] by {
            lemma_pair_member(k as usize, i1 as usize, target, n);
            lemma_pair_member(k as usize, i2 as usize, target, n);
        }
        assert forall|k1: int, k2: int, i1: int, i2: int|
            0 <= k1 < r@.len() && 0 <= k2 < r@.len() && 0 <= i1 < 2 && 0 <= i2 < 2 && #[trigger] r@[k1]@[i1]
                == #[trigger] r@[k2]@[i2] implies k1 == k2 by {
            assert(pair_member(k1 as usize, i1 as usize, target) == pair_member(k2 as usize, i2 as usize, target));
        }
    }
    r
}

/// The groups of four of the sweep on `target` and `control` for `n` qubits.
pub fn quad_groups(n: usize, target: usize, control: usize) -> (r: Vec<Vec<usize>>)
    requires
        n < usize::BITS,
        valid_pair(n, target, control),
    ensures
        r@.len() == pow2(n as nat) / 4,
        forall|k: int| 0 <= k < r@.len() ==> (#[trigger] r@[k])@ == quad_rows(k as usize, target, control),
        is_partition(r@, 4, pow2(n as nat)),
{
    proof {
        vstd::bits::lemma_usize_pow2_no_overflow(n as nat);
        vstd::bits::lemma_usize_shl_is_mul(1, n);
        vstd::arithmetic::power2::lemma_pow2_unfold(n as nat);
        vstd::arithmetic::power2::lemma_pow2_unfold((n - 1) as nat);
        lemma_quads_partition(target, control, n);
    }
    let quarter = (1usize << n) / 4;
    let mut r: Vec<Vec<usize>> = Vec::new();
    let mut k: usize = 0;
    while k < quarter
        invariant
            n < usize::BITS,
            valid_pair(n, target, control),
            quarter == pow2(n as nat) / 4,
            4 * quarter == pow2(n as nat),
            4 * quarter <= usize::MAX,
            k <= quarter,
            r@.len() == k,
            forall|k2: int| 0 <= k2 < k ==> (#[trigger] r@[k2])@ == quad_rows(k2 as usize, target, control),
        decreases quarter - k,
    {
        let mut g: Vec<usize> = Vec::new();
        g.push(swap_two_pairs(4 * k, target, control));
        g.push(swap_two_pairs(4 * k + 1, target, control));
        g.push(swap_two_pairs(4 * k + 2, target, control));
        g.push(swap_two_pairs(4 * k + 3, target, control));
        proof {
            assert(g@ =~= quad_rows(k, target, control));
        }
        r.push(g);
        k = k + 1;
    }
    proof {
        assert forall|k: int, i: int| 0 <= k < r@.len() && 0 <= i < 4 implies (#[trigger] r@[k]@[i] as nat)
            < pow2(n as nat) by {
            lemma_quad_member(k as usize, i as usize, target, control, n);
        }
        assert forall|k: int, i1: int, i2: int| 0 <= k < r@.len() && 0 <= i1 < i2 < 4 implies #[trigger] r@[k]@[i1]
            != #[trigger] r@[k]@[i2] by {
            lemma_quad_member(k as usize, i1 as usize, target, control, n);
            lemma_quad_member(k as usize, i2 as usize, target, control, n);
        }
        assert forall|k1: int, k2: int, i1: int, i2: int|
            0 <= k1 < r@.len() && 0 <= k2 < r@.len() && 0 <= i1 < 4 && 0 <= i2 < 4 && #[trigger] r@[k1]@[i1]
                == #[trigger] r@[k2]@[i2] implies k1 == k2 by {
            assert(quad_member(k1 as usize, i1 as usize, target, control) == quad_member(
                k2 as usize,
                i2 as usize,
                target,
                control,
            ));
        }
    }
    r
}

/// A density matrix describing a (possibly mixed) quantum state of
/// `number_of_qubits` qubits, with entries of type `T`.
pub struct DensityMatrix<T> {
    /// The number of qubits in the quantum state.
    pub number_of_qubits: usize,
    /// The `2^n` by `2^n` entries.
    pub density_matrix: DensityMatrixPointer<T>,
}

impl<T: Copy> DensityMatrix<T> {
    pub open spec fn dim(&self) -> nat {
        pow2(self.number_of_qubits as nat)
    }

    pub open spec fn wf(&self) -> bool {
        &&& self.number_of_qubits < usize::BITS
        &&& self.dim() * self.dim() <= usize::MAX
        &&& self.density_matrix.wf()
        &&& self.density_matrix.spec_shape().0 == self.dim()
        &&& self.density_matrix.spec_shape().1 == self.dim()
    }

    /// The entry at row `r` and column `c`.
    pub open spec fn entry(&self, r: int, c: int) -> T {
        self.density_matrix.entry(r, c)
    }

    pub open spec fn entries(&self) -> Seq<T> {
        self.density_matrix@
    }

    /// The state |0...0><0...0| of `number_of_qubits` qubits.
    pub fn new(number_of_qubits: usize, zero: T, one: T) -> (r: Self)
        requires
            number_of_qubits < usize::BITS,
            pow2(number_of_qubits as nat) * pow2(number_of_qubits as nat) <= usize::MAX,
        ensures
            r.wf(),
            r.number_of_qubits == number_of_qubits,
            forall|i: int, j: int|
                0 <= i < r.dim() && 0 <= j < r.dim() ==> #[trigger] r.entry(i, j) == if i == 0 && j == 0 {
                    one
                } else {
                    zero
                },
    {
        proof {
            vstd::bits::lemma_usize_pow2_no_overflow(number_of_qubits as nat);
            vstd::bits::lemma_usize_shl_is_mul(1, number_of_qubits);
            vstd::arithmetic::power2::lemma_pow2_pos(number_of_qubits as nat);
        }
        let hilbert_dim = 1usize << number_of_qubits;
        let mut entries = filled(zero, hilbert_dim * hilbert_dim);
        proof {
            assert(0 < hilbert_dim * hilbert_dim) by (nonlinear_arith)
                requires
                    hilbert_dim > 0,
            ;
        }
        entries.set(0, one);
        let r = DensityMatrix {
            number_of_qubits,
            density_matrix: DensityMatrixPointer::new(entries, (hilbert_dim, hilbert_dim)),
        };
        proof {
            crate::types::lemma_flat_bounds(hilbert_dim as int);
            assert forall|i: int, j: int| 0 <= i < r.dim() && 0 <= j < r.dim() implies #[trigger] r.entry(i, j)
                == if i == 0 && j == 0 {
                one
            } else {
                zero
            } by {
                assert(crate::types::flat_at(hilbert_dim as int, 0, 0) == 0);
                if !(i == 0 && j == 0) {
                    assert(crate::types::flat_at(hilbert_dim as int, i, j) != 0);
                }
            }
        }
        r
    }

    /// Replaces every block made of the rows of one group and the columns of
    /// another by what `u` makes of it.
    fn sweep_blocks<F: Fn(Vec<T>) -> Vec<T>>(&mut self, groups: &Vec<Vec<usize>>, m: usize, u: &F)
        requires
            old(self).wf(),
            is_partition(groups@, m as nat, old(self).dim()),
            m > 0,
            m * m <= usize::MAX,
            keeps_len(*u),
        ensures
            final(self).wf(),
            final(self).number_of_qubits == old(self).number_of_qubits,
            forall|kr: int, kc: int|
                0 <= kr < groups@.len() && 0 <= kc < groups@.len() ==> #[trigger] maps_block(
                    *u,
                    block_of(old(self).entries(), old(self).dim(), groups@[kr]@, groups@[kc]@),
                    block_of(final(self).entries(), old(self).dim(), groups@[kr]@, groups@[kc]@),
                ),
    {
        let ghost dim = self.dim();
        let ghost old_entries = self.entries();
        let ghost gs = groups@;
        let len = groups.len();
        proof {
            lemma_cells(m as int, m as int);
        }
        let mut kr: usize = 0;
        while kr < len
            invariant
                self.wf(),
                self.number_of_qubits == old(self).number_of_qubits,
                dim == self.dim(),
                gs == groups@,
                len == gs.len(),
                is_partition(gs, m as nat, dim),
                m > 0,
                m * m <= usize::MAX,
                keeps_len(*u),
                kr <= len,
                forall|x: int, y: int|
                    0 <= x < m && 0 <= y < m ==> {
                        &&& 0 <= #[trigger] crate::types::cell(x, y, m as int) < m * m
                        &&& crate::types::cell(x, y, m as int) / (m as int) == x
                        &&& crate::types::cell(x, y, m as int) % (m as int) == y
                    },
                forall|x: int| 0 <= x < m * m ==> 0 <= #[trigger] (x / (m as int)) < m && 0 <= x % (m as int) < m,
                forall|k1: int, k2: int|
                    0 <= k1 < kr && 0 <= k2 < len ==> #[trigger] maps_block(
                        *u,
                        block_of(old_entries, dim, gs[k1]@, gs[k2]@),
                        block_of(self.entries(), dim, gs[k1]@, gs[k2]@),
                    ),
                forall|k1: int, k2: int|
                    kr <= k1 < len && 0 <= k2 < len ==> #[trigger] block_of(self.entries(), dim, gs[k1]@, gs[k2]@)
                        == block_of(old_entries, dim, gs[k1]@, gs[k2]@),
            decreases len - kr,
        {
            let mut kc: usize = 0;
            while kc < len
                invariant
                    self.wf(),
                    self.number_of_qubits == old(self).number_of_qubits,
                    dim == self.dim(),
                    gs == groups@,
                    len == gs.len(),
                    is_partition(gs, m as nat, dim),
                    m > 0,
                    m * m <= usize::MAX,
                    keeps_len(*u),
                    kr < len,
                    kc <= len,
                    forall|x: int, y: int|
                        0 <= x < m && 0 <= y < m ==> {
                            &&& 0 <= #[trigger] crate::types::cell(x, y, m as int) < m * m
                            &&& crate::types::cell(x, y, m as int) / (m as int) == x
                            &&& crate::types::cell(x, y, m as int) % (m as int) == y
                        },
                    forall|x: int| 0 <= x < m * m ==> 0 <= #[trigger] (x / (m as int)) < m && 0 <= x % (m as int) < m,
                    forall|k1: int, k2: int|
                        (0 <= k1 < kr && 0 <= k2 < len) || (k1 == kr && 0 <= k2 < kc) ==> #[trigger] maps_block(
                            *u,
                            block_of(old_entries, dim, gs[k1]@, gs[k2]@),
                            block_of(self.entries(), dim, gs[k1]@, gs[k2]@),
                        ),
                    forall|k1: int, k2: int|
                        (kr < k1 < len && 0 <= k2 < len) || (k1 == kr && kc <= k2 < len) ==> #[trigger] block_of(
                            self.entries(),
                            dim,
                            gs[k1]@,
                            gs[k2]@,
                        ) == block_of(old_entries, dim, gs[k1]@, gs[k2]@),
                decreases len - kc,
            {
                let ghost mid = self.entries();
                proof {
                    assert(gs[kr as int]@.len() == m && gs[kc as int]@.len() == m);
                }
                self.density_matrix.update_block(&groups[kr], &groups[kc], u);
                proof {
                    let cur = self.entries();
                    let rs = gs[kr as int]@;
                    let cs = gs[kc as int]@;
                    assert(block_of(mid, dim, rs, cs) == block_of(old_entries, dim, rs, cs));
                    assert forall|k1: int, k2: int|
                        0 <= k1 < len && 0 <= k2 < len && !(k1 == kr && k2 == kc) implies #[trigger] block_of(
                        cur,
                        dim,
                        gs[k1]@,
                        gs[k2]@,
                    ) == block_of(mid, dim, gs[k1]@, gs[k2]@) by {
                        assert forall|x: int| 0 <= x < m * m implies block_of(cur, dim, gs[k1]@, gs[k2]@)[x]
                            == block_of(mid, dim, gs[k1]@, gs[k2]@)[x] by {
                            let i = x / (m as int);
                            let j = x % (m as int);
                            let r = gs[k1]@[i];
                            let c = gs[k2]@[j];
                            if rs.contains(r) && cs.contains(c) {
                                let i2 = choose|i2: int| 0 <= i2 < rs.len() && rs[i2] == r;
                                let j2 = choose|j2: int| 0 <= j2 < cs.len() && cs[j2] == c;
                                assert(gs[kr as int]@[i2] == gs[k1]@[i]);
                                assert(gs[kc as int]@[j2] == gs[k2]@[j]);
                            }
                            assert(self.entry(r as int, c as int) == mid[crate::types::flat_at(dim as int, r as int, c as int)]);
                        }
                        assert(block_of(cur, dim, gs[k1]@, gs[k2]@) =~= block_of(mid, dim, gs[k1]@, gs[k2]@));
                    }
                }
                kc = kc + 1;
            }
            kr = kr + 1;
        }
    }

    /// Applies a one-qubit gate to qubit `target`: each 2 by 2 block whose
    /// rows, and whose columns, differ only in bit `target` is replaced by
    /// what `u` makes of it (U rho U^dagger, for the caller's U).
    pub fn single_qubit_gate<F: Fn(Vec<T>) -> Vec<T>>(&mut self, target: usize, u: F)
        requires
            old(self).wf(),
            target < old(self).number_of_qubits,
            keeps_len(u),
        ensures
            final(self).wf(),
            final(self).number_of_qubits == old(self).number_of_qubits,
            forall|kr: usize, kc: usize|
                (kr as nat) < old(self).dim() / 2 && (kc as nat) < old(self).dim() / 2 ==> #[trigger] maps_block(
                    u,
                    block_of(old(self).entries(), old(self).dim(), pair_rows(kr, target), pair_rows(kc, target)),
                    block_of(final(self).entries(), old(self).dim(), pair_rows(kr, target), pair_rows(kc, target)),
                ),
    {
        let groups = pair_groups(self.number_of_qubits, target);
        self.sweep_blocks(&groups, 2, &u);
        proof {
            assert forall|kr: usize, kc: usize|
                (kr as nat) < old(self).dim() / 2 && (kc as nat) < old(self).dim() / 2 implies #[trigger] maps_block(
                u,
                block_of(old(self).entries(), old(self).dim(), pair_rows(kr, target), pair_rows(kc, target)),
                block_of(self.entries(), old(self).dim(), pair_rows(kr, target), pair_rows(kc, target)),
            ) by {
                assert(groups@[kr as int]@ == pair_rows(kr, target));
                assert(groups@[kc as int]@ == pair_rows(kc, target));
            }
        }
    }

    /// Applies a two-qubit gate to `target` and `control`: each 4 by 4 block
    /// whose rows, and whose columns, differ only in those two bits (ordered
    /// |control target> = |00>, |01>, |10>, |11>) is replaced by what `u`
    /// makes of it.
    pub fn two_qubit_gate<F: Fn(Vec<T>) -> Vec<T>>(&mut self, target: usize, control: usize, u: F)
        requires
            old(self).wf(),
            valid_pair(old(self).number_of_qubits, target, control),
            keeps_len(u),
        ensures
            final(self).wf(),
            final(self).number_of_qubits == old(self).number_of_qubits,
            forall|kr: usize, kc: usize|
                (kr as nat) < old(self).dim() / 4 && (kc as nat) < old(self).dim() / 4 ==> #[trigger] maps_block(
                    u,
                    block_of(
                        old(self).entries(),
                        old(self).dim(),
                        quad_rows(kr, target, control),
                        quad_rows(kc, target, control),
                    ),
                    block_of(
                        final(self).entries(),
                        old(self).dim(),
                        quad_rows(kr, target, control),
                        quad_rows(kc, target, control),
                    ),
                ),
    {
        let groups = quad_groups(self.number_of_qubits, target, control);
        self.sweep_blocks(&groups, 4, &u);
        proof {
            assert forall|kr: usize, kc: usize|
                (kr as nat) < old(self).dim() / 4 && (kc as nat) < old(self).dim() / 4 implies #[trigger] maps_block(
                u,
                block_of(
                    old(self).entries(),
                    old(self).dim(),
                    quad_rows(kr, target, control),
                    quad_rows(kc, target, control),
                ),
                block_of(
                    self.entries(),
                    old(self).dim(),
                    quad_rows(kr, target, control),
                    quad_rows(kc, target, control),
                ),
            ) by {
                assert(groups@[kr as int]@ == quad_rows(kr, target, control));
                assert(groups@[kc as int]@ == quad_rows(kc, target, control));
            }
        }
    }

    /// Sets to `zero` every entry off the diagonal when `all` holds, and
    /// otherwise every entry whose row and column differ in bit `target`.
    fn clear_entries(&mut self, target: usize, all: bool, zero: T)
        requires
            old(self).wf(),
            all || target < old(self).number_of_qubits,
        ensures
            final(self).wf(),
            final(self).number_of_qubits == old(self).number_of_qubits,
            forall|r: int, c: int|
                0 <= r < old(self).dim() && 0 <= c < old(self).dim() ==> #[trigger] final(self).entry(r, c) == if (
                all && r != c) || (!all && bit(r as usize, target) != bit(c as usize, target)) {
                    zero
                } else {
                    old(self).entry(r, c)
                },
    {
        let ghost dim = self.dim();
        let ghost old_self = *self;
        let d = self.density_matrix.shape().0;
        proof {
            crate::types::lemma_flat_bounds(dim as int);
        }
        let mut r: usize = 0;
        while r < d
            invariant
                self.wf(),
                self.number_of_qubits == old_self.number_of_qubits,
                old_self.wf(),
                d == dim,
                dim == self.dim(),
                all || target < self.number_of_qubits,
                r <= d,
                forall|r1: int, c1: int|
                    0 <= r1 < dim && 0 <= c1 < dim ==> 0 <= #[trigger] crate::types::flat_at(dim as int, r1, c1)
                        < dim * dim,
                forall|r1: int, c1: int, r2: int, c2: int|
                    0 <= r1 < dim && 0 <= r2 < dim && 0 <= c1 && 0 <= c2 && #[trigger] crate::types::flat_at(
                        dim as int,
                        r1,
                        c1,
                    ) == #[trigger] crate::types::flat_at(dim as int, r2, c2) ==> r1 == r2 && c1 == c2,
                forall|r1: int, c1: int|
                    0 <= r1 < dim && 0 <= c1 < dim ==> #[trigger] self.entry(r1, c1) == if r1 < r && ((all && r1
                        != c1) || (!all && bit(r1 as usize, target) != bit(c1 as usize, target))) {
                        zero
                    } else {
                        old_self.entry(r1, c1)
                    },
            decreases d - r,
        {
            let mut c: usize = 0;
            while c < d
                invariant
                    self.wf(),
                    self.number_of_qubits == old_self.number_of_qubits,
                    old_self.wf(),
                    d == dim,
                    dim == self.dim(),
                    all || target < self.number_of_qubits,
                    r < d,
                    c <= d,
                    forall|r1: int, c1: int|
                        0 <= r1 < dim && 0 <= c1 < dim ==> 0 <= #[trigger] crate::types::flat_at(dim as int, r1, c1)
                            < dim * dim,
                    forall|r1: int, c1: int, r2: int, c2: int|
                        0 <= r1 < dim && 0 <= r2 < dim && 0 <= c1 && 0 <= c2 && #[trigger] crate::types::flat_at(
                            dim as int,
                            r1,
                            c1,
                        ) == #[trigger] crate::types::flat_at(dim as int, r2, c2) ==> r1 == r2 && c1 == c2,
                    forall|r1: int, c1: int|
                        0 <= r1 < dim && 0 <= c1 < dim ==> #[trigger] self.entry(r1, c1) == if (r1 < r || (r1 == r
                            && c1 < c)) && ((all && r1 != c1) || (!all && bit(r1 as usize, target) != bit(
                            c1 as usize,
                            target,
                        ))) {
                            zero
                        } else {
                            old_self.entry(r1, c1)
                        },
                decreases d - c,
            {
                let clear = if all {
                    r != c
                } else {
                    let br = (r >> target) & 1usize;
                    let bc = (c >> target) & 1usize;
                    proof {
                        assert((br != bc) == (bit(r, target) != bit(c, target))) by (bit_vector)
                            requires
                                br == (r >> target) & 1usize,
                                bc == (c >> target) & 1usize,
                        ;
                    }
                    br != bc
                };
                if clear {
                    let ghost prev = *self;
                    self.density_matrix.write((r, c), zero);
                    proof {
                        assert forall|r1: int, c1: int| 0 <= r1 < dim && 0 <= c1 < dim implies #[trigger] self.entry(
                            r1,
                            c1,
                        ) == prev.entry(r1, c1) || (r1 == r && c1 == c) by {
                            if crate::types::flat_at(dim as int, r1, c1) == crate::types::flat_at(dim as int, r as int, c as int) {
                            }
                        }
                    }
                }
                c = c + 1;
            }
            r = r + 1;
        }
    }

    /// Measures qubit `target` without reading the outcome: every entry that
    /// links a basis state with bit `target` at 0 to one with it at 1 becomes
    /// `zero`; the others, the diagonal among them, stay.
    pub fn measure(&mut self, target: usize, zero: T)
        requires
            old(self).wf(),
            target < old(self).number_of_qubits,
        ensures
            final(self).wf(),
            final(self).number_of_qubits == old(self).number_of_qubits,
            forall|r: int, c: int|
                0 <= r < old(self).dim() && 0 <= c < old(self).dim() ==> #[trigger] final(self).entry(r, c) == if bit(
                    r as usize,
                    target,
                ) != bit(c as usize, target) {
                    zero
                } else {
                    old(self).entry(r, c)
                },
    {
        self.clear_entries(target, false, zero);
    }

    /// Measures every qubit: every entry off the diagonal becomes `zero`.
    pub fn measure_all(&mut self, zero: T)
        requires
            old(self).wf(),
        ensures
            final(self).wf(),
            final(self).number_of_qubits == old(self).number_of_qubits,
            forall|r: int, c: int|
                0 <= r < old(self).dim() && 0 <= c < old(self).dim() ==> #[trigger] final(self).entry(r, c) == if r
                    != c {
                    zero
                } else {
                    old(self).entry(r, c)
                },
    {
        self.clear_entries(0, true, zero);
    }

    /// Sets every entry to `zero`.
    pub fn zero(&mut self, zero: T)
        requires
            old(self).wf(),
        ensures
            final(self).wf(),
            final(self).number_of_qubits == old(self).number_of_qubits,
            forall|r: int, c: int|
                0 <= r < old(self).dim() && 0 <= c < old(self).dim() ==> #[trigger] final(self).entry(r, c) == zero,
    {
        let ghost dim = self.dim();
        let d = self.density_matrix.shape().0;
        let mut r: usize = 0;
        while r < d
            invariant
                self.wf(),
                self.number_of_qubits == old(self).number_of_qubits,
                d == dim,
                dim == self.dim(),
                r <= d,
                forall|r1: int, c1: int| 0 <= r1 < r && 0 <= c1 < dim ==> #[trigger] self.entry(r1, c1) == zero,
            decreases d - r,
        {
            let mut c: usize = 0;
            while c < d
                invariant
                    self.wf(),
                    self.number_of_qubits == old(self).number_of_qubits,
                    d == dim,
                    dim == self.dim(),
                    r < d,
                    c <= d,
                    forall|r1: int, c1: int|
                        (0 <= r1 < r && 0 <= c1 < dim) || (r1 == r && 0 <= c1 < c) ==> #[trigger] self.entry(r1, c1)
                            == zero,
                decreases d - c,
            {
                let ghost prev = *self;
                self.density_matrix.write((r, c), zero);
                proof {
                    crate::types::lemma_flat_bounds(dim as int);
                    assert forall|r1: int, c1: int|
                        (0 <= r1 < r && 0 <= c1 < dim) || (r1 == r && 0 <= c1 < c + 1) implies #[trigger] self.entry(
                        r1,
                        c1,
                    ) == zero by {
                        if !(r1 == r && c1 == c) {
                            assert(prev.entry(r1, c1) == zero);
                            assert(crate::types::flat_at(dim as int, r1, c1) != crate::types::flat_at(
                                dim as int,
                                r as int,
                                c as int,
                            ));
                        }
                    }
                }
                c = c + 1;
            }
            r = r + 1;
        }
    }

    /// Returns to |0...0><0...0|.
    pub fn reinitialise_all(&mut self, zero: T, one: T)
        requires
            old(self).wf(),
        ensures
            final(self).wf(),
            final(self).number_of_qubits == old(self).number_of_qubits,
            forall|r: int, c: int|
                0 <= r < old(self).dim() && 0 <= c < old(self).dim() ==> #[trigger] final(self).entry(r, c) == if r
                    == 0 && c == 0 {
                    one
                } else {
                    zero
                },
    {
        self.zero(zero);
        let ghost prev = *self;
        proof {
            vstd::arithmetic::power2::lemma_pow2_pos(self.number_of_qubits as nat);
        }
        self.density_matrix.write((0, 0), one);
        proof {
            crate::types::lemma_flat_bounds(self.dim() as int);
            assert forall|r: int, c: int| 0 <= r < self.dim() && 0 <= c < self.dim() implies #[trigger] self.entry(
                r,
                c,
            ) == if r == 0 && c == 0 {
                one
            } else {
                zero
            } by {
                if !(r == 0 && c == 0) {
                    assert(prev.entry(r, c) == zero);
                    assert(crate::types::flat_at(self.dim() as int, r, c) != crate::types::flat_at(
                        self.dim() as int,
                        0,
                        0,
                    ));
                }
            }
        }
    }

    /// Kraus operators on a density matrix are not available yet: always
    /// refused, and the state is left as it was.
    pub fn single_qubit_kraus<U>(&mut self, target: usize, u: U) -> (r: Result<(), QuantumError>)
        ensures
            r == Err::<(), QuantumError>(QuantumError::UnsupportedOperation),
            *final(self) == *old(self),
    {
        Err(QuantumError::UnsupportedOperation)
    }

    /// A density matrix holding `density_matrix`, stored column after column
    /// with `shape.0` rows and `shape.1` columns; the matrix must be square,
    /// its side a power of two, and the entries as many as the shape says.
    pub fn new_from_density_matrix(density_matrix: Vec<T>, shape: (usize, usize)) -> (r: Result<
        Self,
        QuantumError,
    >)
        ensures
            r is Ok <==> (shape.0 == shape.1 && density_matrix@.len() == shape.0 * shape.1 && exists|n: nat|
                pow2(n) == shape.0),
            r matches Ok(s) ==> {
                &&& s.wf()
                &&& s.entries() == density_matrix@
                &&& s.dim() == shape.0
            },
            r is Err ==> r == Err::<Self, QuantumError>(
                QuantumError::DimensionMismatch { rows: shape.0, columns: shape.1 },
            ),
    {
        let (rows, columns) = shape;
        let len = density_matrix.len();
        let number_of_qubits = crate::index_swapping::log2(rows);
        proof {
            vstd::bits::lemma_usize_pow2_no_overflow(number_of_qubits as nat);
            vstd::bits::lemma_usize_shl_is_mul(1, number_of_qubits);
        }
        let fits = rows == columns && rows > 0 && (1usize << number_of_qubits) == rows && (columns == 0
            || len / columns == rows) && len % columns == 0;
        if !fits {
            proof {
                if rows == columns && len == rows * columns && rows > 0 && (1usize << number_of_qubits) == rows {
                    vstd::arithmetic::div_mod::lemma_div_multiples_vanish(rows as int, columns as int);
                    vstd::arithmetic::div_mod::lemma_mod_multiples_basic(rows as int, columns as int);
                    assert(false);
                }
                assert forall|n: nat| rows == columns && len == rows * columns implies pow2(n) != rows by {
                    vstd::arithmetic::power2::lemma_pow2_pos(n);
                    if pow2(n) == rows {
                        if n < number_of_qubits {
                            vstd::arithmetic::power2::lemma_pow2_strictly_increases(n, number_of_qubits as nat);
                        } else if n > number_of_qubits {
                            vstd::arithmetic::power2::lemma_pow2_strictly_increases(number_of_qubits as nat, n);
                            if n > number_of_qubits + 1 {
                                vstd::arithmetic::power2::lemma_pow2_strictly_increases(
                                    (number_of_qubits + 1) as nat,
                                    n,
                                );
                            }
                        }
                    }
                }
            }
            return Err(QuantumError::DimensionMismatch { rows, columns });
        }
        proof {
            vstd::arithmetic::div_mod::lemma_fundamental_div_mod(len as int, columns as int);
            assert(len == rows * columns);
        }
        Ok(
            DensityMatrix {
                number_of_qubits,
                density_matrix: DensityMatrixPointer::new(density_matrix, (rows, columns)),
            },
        )
    }

    /// The pure state of `state_vector` as a density matrix: entry `(r, c)`
    /// is what `outer` makes of amplitudes `r` and `c` (psi_r times the
    /// conjugate of psi_c, for the caller's arithmetic).
    pub fn from_state_vector<F: Fn(T, T) -> T>(state_vector: &StateVector<T>, outer: F, zero: T, one: T) -> (r: Self)
        requires
            state_vector.wf(),
            pow2(state_vector.number_of_qubits as nat) * pow2(state_vector.number_of_qubits as nat) <= usize::MAX,
            forall|a: T, b: T| outer.requires((a, b)),
        ensures
            r.wf(),
            r.number_of_qubits == state_vector.number_of_qubits,
            forall|i: int, j: int|
                0 <= i < r.dim() && 0 <= j < r.dim() ==> outer.ensures(
                    (state_vector.amplitudes()[i], state_vector.amplitudes()[j]),
                    #[trigger] r.entry(i, j),
                ),
    {
        let mut r = DensityMatrix::new(state_vector.number_of_qubits, zero, one);
        let ghost dim = r.dim();
        let d = r.density_matrix.shape().0;
        let mut i: usize = 0;
        while i < d
            invariant
                r.wf(),
                state_vector.wf(),
                r.number_of_qubits == state_vector.number_of_qubits,
                d == dim,
                dim == r.dim(),
                state_vector.amplitudes().len() == dim,
                forall|a: T, b: T| outer.requires((a, b)),
                i <= d,
                forall|i1: int, j1: int|
                    0 <= i1 < i && 0 <= j1 < dim ==> outer.ensures(
                        (state_vector.amplitudes()[i1], state_vector.amplitudes()[j1]),
                        #[trigger] r.entry(i1, j1),
                    ),
            decreases d - i,
        {
            let mut j: usize = 0;
            while j < d
                invariant
                    r.wf(),
                    state_vector.wf(),
                    r.number_of_qubits == state_vector.number_of_qubits,
                    d == dim,
                    dim == r.dim(),
                    state_vector.amplitudes().len() == dim,
                    forall|a: T, b: T| outer.requires((a, b)),
                    i < d,
                    j <= d,
                    forall|i1: int, j1: int|
                        (0 <= i1 < i && 0 <= j1 < dim) || (i1 == i && 0 <= j1 < j) ==> outer.ensures(
                            (state_vector.amplitudes()[i1], state_vector.amplitudes()[j1]),
                            #[trigger] r.entry(i1, j1),
                        ),
                decreases d - j,
            {
                let s_i = state_vector.state_vector.read(i);
                let s_j = state_vector.state_vector.read(j);
                let v = outer(s_i, s_j);
                let ghost prev = r;
                r.density_matrix.write((i, j), v);
                proof {
                    crate::types::lemma_flat_bounds(dim as int);
                    assert forall|i1: int, j1: int|
                        (0 <= i1 < i && 0 <= j1 < dim) || (i1 == i && 0 <= j1 < j + 1) implies outer.ensures(
                        (state_vector.amplitudes()[i1], state_vector.amplitudes()[j1]),
                        #[trigger] r.entry(i1, j1),
                    ) by {
                        if !(i1 == i && j1 == j) {
                            assert(crate::types::flat_at(dim as int, i1, j1) != crate::types::flat_at(
                                dim as int,
                                i as int,
                                j as int,
                            ));
                            assert(r.entry(i1, j1) == prev.entry(i1, j1));
                        }
                    }
                }
                j = j + 1;
            }
            i = i + 1;
        }
        r
    }

    /// The diagonal entries whose basis state has bit `target` equal to 0,
    /// in the order of the sweep on `target`.
    pub fn zero_half_diagonal(&self, target: usize) -> (r: Vec<T>)
        requires
            self.wf(),
            target < self.number_of_qubits,
        ensures
            r@.len() == self.dim() / 2,
            forall|k: usize|
                (k as nat) < self.dim() / 2 ==> r@[k as int] == self.entry(
                    #[trigger] pair_member(k, 0, target) as int,
                    pair_member(k, 0, target) as int,
                ) && !bit(pair_member(k, 0, target), target),
    {
        let ghost n = self.number_of_qubits;
        let half = self.density_matrix.shape().0 / 2;
        proof {
            vstd::arithmetic::power2::lemma_pow2_unfold(n as nat);
            vstd::bits::lemma_usize_pow2_no_overflow(n as nat);
        }
        let mut r: Vec<T> = Vec::new();
        let mut k: usize = 0;
        while k < half
            invariant
                self.wf(),
                n == self.number_of_qubits,
                target < n,
                half == self.dim() / 2,
                self.dim() == 2 * half,
                2 * half <= usize::MAX,
                k <= half,
                r@.len() == k,
                forall|k2: usize|
                    k2 < k ==> r@[k2 as int] == self.entry(
                        #[trigger] pair_member(k2, 0, target) as int,
                        pair_member(k2, 0, target) as int,
                    ) && !bit(pair_member(k2, 0, target), target),
            decreases half - k,
        {
            let i0 = swap_pair(2 * k, target);
            proof {
                lemma_pair_member(k, 0, target, n);
                crate::index_swapping::lemma_pair_bit(i0, target);
            }
            r.push(self.density_matrix.read((i0, i0)));
            k = k + 1;
        }
        r
    }
}

} // verus!
