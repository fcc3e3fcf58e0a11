use vstd::prelude::*;
use vstd::arithmetic::power2::pow2;
use vstd::bits::lemma_usize_shr_is_div;

verus! {

/// Whether bit `k` of `x` is set.
pub open spec fn bit(x: usize, k: usize) -> bool {
    (x >> k) & 1usize == 1usize
}

/// The integer `x` with its bits at positions `a` and `b` exchanged.
pub open spec fn swapped(x: usize, a: usize, b: usize) -> usize {
    let d = ((x >> a) ^ (x >> b)) & 1usize;
    x ^ ((d << a) | (d << b))
}

/// The bit position that `swapped(_, a, b)` reads to produce bit `k`.
pub open spec fn swap_source(k: usize, a: usize, b: usize) -> usize {
    if k == a {
        b
    } else if k == b {
        a
    } else {
        k
    }
}

/// The permutation of `swap_two_pairs`: it sends bit 0 of `x` to position
/// `t` and bit 1 to position `c`, by the fewest exchanges for each case.
pub open spec fn two_pairs_swapped(x: usize, t: usize, c: usize) -> usize {
    if t == 0 && c == 1 {
        x
    } else if t == 1 && c == 0 {
        swapped(x, 0, 1)
    } else if t == 0 {
        swapped(x, 1, c)
    } else if c == 1 {
        swapped(x, 0, t)
    } else if t == 1 {
        swapped(swapped(x, 0, 1), 0, c)
    } else if c == 0 {
        swapped(swapped(x, 0, 1), 1, t)
    } else {
        swapped(swapped(x, 0, t), 1, c)
    }
}

/// The inverse of `two_pairs_swapped`: the same exchanges in reverse order.
pub open spec fn two_pairs_unswapped(y: usize, t: usize, c: usize) -> usize {
    if t == 0 && c == 1 {
        y
    } else if t == 1 && c == 0 {
        swapped(y, 0, 1)
    } else if t == 0 {
        swapped(y, 1, c)
    } else if c == 1 {
        swapped(y, 0, t)
    } else if t == 1 {
        swapped(swapped(y, 0, c), 0, 1)
    } else if c == 0 {
        swapped(swapped(y, 1, t), 0, 1)
    } else {
        swapped(swapped(y, 1, c), 0, t)
    }
}

/// `x` lies in the index space of `n` qubits.
pub open spec fn in_space(x: usize, n: usize) -> bool {
    (x as nat) < pow2(n as nat)
}

/// Exchanging two bits twice gives the integer back.
pub proof fn lemma_swapped_involution(x: usize, a: usize, b: usize)
    requires
        a < usize::BITS,
        b < usize::BITS,
    ensures
        swapped(swapped(x, a, b), a, b) == x,
{
    assert(swapped(swapped(x, a, b), a, b) == x) by (bit_vector)
        requires
            a < usize::BITS,
            b < usize::BITS,
    ;
}

/// Bit `k` of `swapped(x, a, b)` is bit `swap_source(k, a, b)` of `x`.
pub proof fn lemma_swapped_bit(x: usize, a: usize, b: usize, k: usize)
    requires
        a < usize::BITS,
        b < usize::BITS,
        k < usize::BITS,
    ensures
        bit(swapped(x, a, b), k) == bit(x, swap_source(k, a, b)),
{
    let s = swap_source(k, a, b);
    assert(bit(swapped(x, a, b), k) == bit(x, s)) by (bit_vector)
        requires
            a < usize::BITS,
            b < usize::BITS,
            k < usize::BITS,
            s == (if k == a {
                b
            } else if k == b {
                a
            } else {
                k
            }),
    ;
}

proof fn lemma_in_space_shr(x: usize, n: usize)
    requires
        n < usize::BITS,
    ensures
        in_space(x, n) <==> x >> n == 0,
{
    lemma_usize_shr_is_div(x, n);
    vstd::arithmetic::power2::lemma_pow2_pos(n as nat);
    let p = pow2(n as nat) as int;
    if (x as int) < p {
        vstd::arithmetic::div_mod::lemma_basic_div(x as int, p);
    } else {
        vstd::arithmetic::div_mod::lemma_fundamental_div_mod(x as int, p);
        vstd::arithmetic::div_mod::lemma_mod_bound(x as int, p);
    }
}

/// Exchanging two bits below position `n` stays in the index space of `n` qubits.
pub proof fn lemma_swapped_in_space(x: usize, a: usize, b: usize, n: usize)
    requires
        n < usize::BITS,
        a < n,
        b < n,
        in_space(x, n),
    ensures
        in_space(swapped(x, a, b), n),
{
    lemma_in_space_shr(x, n);
    lemma_in_space_shr(swapped(x, a, b), n);
    assert(swapped(x, a, b) >> n == 0) by (bit_vector)
        requires
            n < usize::BITS,
            a < n,
            b < n,
            x >> n == 0,
    ;
}

/// Two distinct qubit positions below `n`.
pub open spec fn valid_pair(n: usize, t: usize, c: usize) -> bool {
    t < n && c < n && t != c
}

/// `two_pairs_unswapped` undoes `two_pairs_swapped`, and the other way round.
pub proof fn lemma_two_pairs_inverse(x: usize, t: usize, c: usize)
    requires
        t < usize::BITS,
        c < usize::BITS,
        t != c,
    ensures
        two_pairs_unswapped(two_pairs_swapped(x, t, c), t, c) == x,
        two_pairs_swapped(two_pairs_unswapped(x, t, c), t, c) == x,
{
    let y0 = swapped(x, 0, 1);
    let y1 = swapped(x, 1, c);
    let y2 = swapped(x, 0, t);
    let y3 = swapped(x, 0, c);
    let y4 = swapped(x, 1, t);
    lemma_swapped_involution(x, 0, 1);
    lemma_swapped_involution(x, 1, c);
    lemma_swapped_involution(x, 0, t);
    lemma_swapped_involution(x, 0, c);
    lemma_swapped_involution(x, 1, t);
    lemma_swapped_involution(y0, 0, c);
    lemma_swapped_involution(y0, 1, t);
    lemma_swapped_involution(y2, 1, c);
    lemma_swapped_involution(y3, 0, 1);
    lemma_swapped_involution(y4, 0, 1);
    lemma_swapped_involution(y1, 0, t);
    lemma_swapped_involution(swapped(y0, 0, c), 0, c);
    lemma_swapped_involution(swapped(y0, 1, t), 1, t);
    lemma_swapped_involution(swapped(y2, 1, c), 1, c);
    lemma_swapped_involution(swapped(y3, 0, 1), 0, 1);
    lemma_swapped_involution(swapped(y4, 0, 1), 0, 1);
    lemma_swapped_involution(swapped(y1, 0, t), 0, t);
}

/// Both `two_pairs_swapped` and its inverse stay in the index space of `n` qubits.
pub proof fn lemma_two_pairs_in_space(x: usize, t: usize, c: usize, n: usize)
    requires
        n < usize::BITS,
        valid_pair(n, t, c),
        in_space(x, n),
    ensures
        in_space(two_pairs_swapped(x, t, c), n),
        in_space(two_pairs_unswapped(x, t, c), n),
{
    assert(n >= 2);
    lemma_swapped_in_space(x, 0, 1, n);
    lemma_swapped_in_space(x, 1, c, n);
    lemma_swapped_in_space(x, 0, t, n);
    lemma_swapped_in_space(x, 0, c, n);
    lemma_swapped_in_space(x, 1, t, n);
    lemma_swapped_in_space(swapped(x, 0, 1), 0, c, n);
    lemma_swapped_in_space(swapped(x, 0, 1), 1, t, n);
    lemma_swapped_in_space(swapped(x, 0, t), 1, c, n);
    lemma_swapped_in_space(swapped(x, 0, c), 0, 1, n);
    lemma_swapped_in_space(swapped(x, 1, t), 0, 1, n);
    lemma_swapped_in_space(swapped(x, 1, c), 0, t, n);
}

/// Index permutation law: for distinct qubits `t` and `c` below `n`,
/// `swap_two_pairs(_, t, c)` is a bijection of `[0, 2^n)` onto itself.
pub proof fn lemma_swap_two_pairs_bijection(n: usize, t: usize, c: usize)
    requires
        n < usize::BITS,
        valid_pair(n, t, c),
    ensures
        forall|x: usize| in_space(x, n) ==> #[trigger] in_space(two_pairs_swapped(x, t, c), n),
        forall|x1: usize, x2: usize|
            in_space(x1, n) && in_space(x2, n) && #[trigger] two_pairs_swapped(x1, t, c)
                == #[trigger] two_pairs_swapped(x2, t, c) ==> x1 == x2,
        forall|y: usize|
            in_space(y, n) ==> exists|x: usize|
                in_space(x, n) && #[trigger] two_pairs_swapped(x, t, c) == y,
{
    assert forall|x: usize| in_space(x, n) implies #[trigger] in_space(two_pairs_swapped(x, t, c), n) by {
        lemma_two_pairs_in_space(x, t, c, n);
    }
    assert forall|x1: usize, x2: usize|
        in_space(x1, n) && in_space(x2, n) && #[trigger] two_pairs_swapped(x1, t, c)
            == #[trigger] two_pairs_swapped(x2, t, c) implies x1 == x2 by {
        lemma_two_pairs_inverse(x1, t, c);
        lemma_two_pairs_inverse(x2, t, c);
    }
    assert forall|y: usize| in_space(y, n) implies exists|x: usize|
        in_space(x, n) && #[trigger] two_pairs_swapped(x, t, c) == y by {
        lemma_two_pairs_in_space(y, t, c, n);
        lemma_two_pairs_inverse(y, t, c);
        let x = two_pairs_unswapped(y, t, c);
        assert(in_space(x, n) && two_pairs_swapped(x, t, c) == y);
    }
}

/// Member `j` (0 or 1) of pair `k` in the sweep of a one-qubit gate on
/// qubit `q`: the index whose bit `q` is `j` and whose other bits spell `k`.
pub open spec fn pair_member(k: usize, j: usize, q: usize) -> usize {
    swapped((2 * k + j) as usize, 0, q)
}

/// Member `j` (0 to 3) of group `k` in the sweep of a two-qubit gate on
/// target `t` and control `c`.
pub open spec fn quad_member(k: usize, j: usize, t: usize, c: usize) -> usize {
    two_pairs_swapped((4 * k + j) as usize, t, c)
}

pub proof fn lemma_pair_member(k: usize, j: usize, q: usize, n: usize)
    requires
        n < usize::BITS,
        q < n,
        (k as nat) < pow2(n as nat) / 2,
        j < 2,
    ensures
        in_space(pair_member(k, j, q), n),
        swapped(pair_member(k, j, q), 0, q) == 2 * k + j,
{
    let p = pow2(n as nat);
    vstd::bits::lemma_usize_pow2_no_overflow(n as nat);
    assert(2 * k + j < p) by (nonlinear_arith)
        requires
            k < p / 2,
            j < 2,
    ;
    let x = (2 * k + j) as usize;
    lemma_swapped_involution(x, 0, q);
    lemma_swapped_in_space(x, 0, q, n);
}

pub proof fn lemma_quad_member(k: usize, j: usize, t: usize, c: usize, n: usize)
    requires
        n < usize::BITS,
        valid_pair(n, t, c),
        (k as nat) < pow2(n as nat) / 4,
        j < 4,
    ensures
        in_space(quad_member(k, j, t, c), n),
        two_pairs_unswapped(quad_member(k, j, t, c), t, c) == 4 * k + j,
{
    let p = pow2(n as nat);
    vstd::bits::lemma_usize_pow2_no_overflow(n as nat);
    assert(4 * k + j < p) by (nonlinear_arith)
        requires
            k < p / 4,
            j < 4,
    ;
    let x = (4 * k + j) as usize;
    lemma_two_pairs_inverse(x, t, c);
    lemma_two_pairs_in_space(x, t, c, n);
}

/// Partition law of the one-qubit sweep: the pairs `k < 2^(n-1)` cover every
/// index of `[0, 2^n)`, each exactly once.
pub proof fn lemma_pairs_partition(q: usize, n: usize)
    requires
        n < usize::BITS,
        q < n,
    ensures
        forall|i: usize|
            #![trigger in_space(i, n)]
            in_space(i, n) ==> {
                let s = swapped(i, 0, q);
                &&& (s / 2) < pow2(n as nat) / 2
                &&& pair_member((s / 2) as usize, (s % 2) as usize, q) == i
            },
        forall|k1: usize, j1: usize, k2: usize, j2: usize|
            (k1 as nat) < pow2(n as nat) / 2 && (k2 as nat) < pow2(n as nat) / 2 && j1 < 2 && j2
                < 2 && #[trigger] pair_member(k1, j1, q) == #[trigger] pair_member(k2, j2, q) ==> k1
                == k2 && j1 == j2,
{
    vstd::arithmetic::power2::lemma_pow2_unfold(n as nat);
    assert forall|i: usize| #![trigger in_space(i, n)] in_space(i, n) implies {
        let s = swapped(i, 0, q);
        &&& (s / 2) < pow2(n as nat) / 2
        &&& pair_member((s / 2) as usize, (s % 2) as usize, q) == i
    } by {
        lemma_swapped_in_space(i, 0, q, n);
        lemma_swapped_involution(i, 0, q);
    }
    assert forall|k1: usize, j1: usize, k2: usize, j2: usize|
        (k1 as nat) < pow2(n as nat) / 2 && (k2 as nat) < pow2(n as nat) / 2 && j1 < 2 && j2 < 2
            && #[trigger] pair_member(k1, j1, q) == #[trigger] pair_member(k2, j2, q) implies k1
        == k2 && j1 == j2 by {
        lemma_pair_member(k1, j1, q, n);
        lemma_pair_member(k2, j2, q, n);
    }
}

/// Partition law of the two-qubit sweep: the groups `k < 2^(n-2)` cover
/// every index of `[0, 2^n)`, each exactly once.
pub proof fn lemma_quads_partition(t: usize, c: usize, n: usize)
    requires
        n < usize::BITS,
        valid_pair(n, t, c),
    ensures
        forall|i: usize|
            #![trigger in_space(i, n)]
            in_space(i, n) ==> {
                let s = two_pairs_unswapped(i, t, c);
                &&& (s / 4) < pow2(n as nat) / 4
                &&& quad_member((s / 4) as usize, (s % 4) as usize, t, c) == i
            },
        forall|k1: usize, j1: usize, k2: usize, j2: usize|
            (k1 as nat) < pow2(n as nat) / 4 && (k2 as nat) < pow2(n as nat) / 4 && j1 < 4 && j2
                < 4 && #[trigger] quad_member(k1, j1, t, c) == #[trigger] quad_member(k2, j2, t, c)
                ==> k1 == k2 && j1 == j2,
{
    assert(n >= 2);
    vstd::arithmetic::power2::lemma_pow2_unfold(n as nat);
    vstd::arithmetic::power2::lemma_pow2_unfold((n - 1) as nat);
    assert forall|i: usize| #![trigger in_space(i, n)] in_space(i, n) implies {
        let s = two_pairs_unswapped(i, t, c);
        &&& (s / 4) < pow2(n as nat) / 4
        &&& quad_member((s / 4) as usize, (s % 4) as usize, t, c) == i
    } by {
        lemma_two_pairs_in_space(i, t, c, n);
        lemma_two_pairs_inverse(i, t, c);
    }
    assert forall|k1: usize, j1: usize, k2: usize, j2: usize|
        (k1 as nat) < pow2(n as nat) / 4 && (k2 as nat) < pow2(n as nat) / 4 && j1 < 4 && j2 < 4
            && #[trigger] quad_member(k1, j1, t, c) == #[trigger] quad_member(k2, j2, t, c) implies k1
        == k2 && j1 == j2 by {
        lemma_quad_member(k1, j1, t, c, n);
        lemma_quad_member(k2, j2, t, c, n);
    }
}

/// `two_pairs_swapped` puts bit 0 of `x` at position `t` and bit 1 at
/// position `c`, and leaves every bit outside positions 0, 1, `t`, `c`.
pub proof fn lemma_two_pairs_bits(x: usize, t: usize, c: usize, k: usize)
    requires
        t < usize::BITS,
        c < usize::BITS,
        k < usize::BITS,
        t != c,
    ensures
        bit(two_pairs_swapped(x, t, c), t) == bit(x, 0),
        bit(two_pairs_swapped(x, t, c), c) == bit(x, 1),
        k != 0 && k != 1 && k != t && k != c ==> bit(two_pairs_swapped(x, t, c), k) == bit(x, k),
{
    let y0 = swapped(x, 0, 1);
    let y2 = swapped(x, 0, t);
    lemma_swapped_bit(x, 0, 1, t);
    lemma_swapped_bit(x, 0, 1, c);
    lemma_swapped_bit(x, 0, 1, k);
    lemma_swapped_bit(x, 1, c, t);
    lemma_swapped_bit(x, 1, c, c);
    lemma_swapped_bit(x, 1, c, k);
    lemma_swapped_bit(x, 0, t, t);
    lemma_swapped_bit(x, 0, t, c);
    lemma_swapped_bit(x, 0, t, k);
    lemma_swapped_bit(y0, 0, c, t);
    lemma_swapped_bit(y0, 0, c, c);
    lemma_swapped_bit(y0, 0, c, k);
    lemma_swapped_bit(y0, 1, t, t);
    lemma_swapped_bit(y0, 1, t, c);
    lemma_swapped_bit(y0, 1, t, k);
    lemma_swapped_bit(y2, 1, c, t);
    lemma_swapped_bit(y2, 1, c, c);
    lemma_swapped_bit(y2, 1, c, k);
    lemma_swapped_bit(x, 0, 1, 0);
    lemma_swapped_bit(x, 0, 1, 1);
    lemma_swapped_bit(x, 0, t, 1);
    lemma_swapped_bit(x, 0, t, 0);
}

/// Member `j` of a group in the two-qubit sweep has bit `j % 2` on the
/// target and bit `j / 2` on the control: the order |control target> =
/// |00>, |01>, |10>, |11>.
pub proof fn lemma_quad_member_bits(k: usize, j: usize, t: usize, c: usize, n: usize)
    requires
        n < usize::BITS,
        valid_pair(n, t, c),
        (k as nat) < pow2(n as nat) / 4,
        j < 4,
    ensures
        bit(quad_member(k, j, t, c), t) == (j % 2 == 1),
        bit(quad_member(k, j, t, c), c) == (j / 2 == 1),
{
    let p = pow2(n as nat);
    vstd::bits::lemma_usize_pow2_no_overflow(n as nat);
    assert(4 * k + j < p) by (nonlinear_arith)
        requires
            k < p / 4,
            j < 4,
    ;
    let x = (4 * k + j) as usize;
    lemma_two_pairs_bits(x, t, c, 0);
    assert(bit(x, 0) == (j % 2 == 1) && bit(x, 1) == (j / 2 == 1)) by (bit_vector)
        requires
            x == 4 * k + j,
            j < 4,
            4 * k + j < 0x1_0000_0000_0000_0000,
    ;
}

/// Bit `q` of an index tells which member of its pair in the sweep on
/// qubit `q` it is.
pub proof fn lemma_pair_bit(i: usize, q: usize)
    requires
        q < usize::BITS,
    ensures
        bit(i, q) == (swapped(i, 0, q) % 2 == 1),
{
    lemma_swapped_bit(i, 0, q, 0);
    let s = swapped(i, 0, q);
    assert(bit(s, 0) == (s % 2 == 1)) by (bit_vector);
}

/// The base-two logarithm of `x`, rounded down; 0 for 0.
pub fn log2(x: usize) -> (r: usize)
    ensures
        x >= 1 ==> pow2(r as nat) <= x < pow2((r + 1) as nat),
        x == 0 ==> r == 0,
        r < usize::BITS,
{
    let mut y = x;
    let mut r: usize = 0;
    proof {
        vstd::arithmetic::power2::lemma2_to64();
    }
    while y > 1
        invariant
            x >= 1 ==> y >= 1,
            x == 0 ==> y == 0 && r == 0,
            pow2(r as nat) * y <= x < pow2(r as nat) * (y + 1),
            r < usize::BITS,
        decreases y,
    {
        let ghost p = pow2(r as nat);
        proof {
            vstd::arithmetic::power2::lemma_pow2_pos(r as nat);
            vstd::arithmetic::power2::lemma_pow2_unfold((r + 1) as nat);
            assert(2 * p * (y / 2) <= p * y && p * (y + 1) <= 2 * p * (y / 2 + 1)) by (nonlinear_arith)
                requires
                    p > 0,
                    y > 1,
            ;
            assert(p * 2 <= p * y) by (nonlinear_arith)
                requires
                    p > 0,
                    y > 1,
            ;
            assert(2 * p == pow2((r + 1) as nat));
            if r + 1 >= usize::BITS {
                vstd::arithmetic::power2::lemma2_to64();
                if r + 1 > usize::BITS {
                    vstd::arithmetic::power2::lemma_pow2_strictly_increases(
                        usize::BITS as nat,
                        (r + 1) as nat,
                    );
                }
                assert(false);
            }
        }
        y = y / 2;
        r = r + 1;
    }
    proof {
        vstd::arithmetic::power2::lemma_pow2_unfold((r + 1) as nat);
        if x >= 1 {
            assert(y == 1);
            let p = pow2(r as nat);
            assert(p * y == p && p * (y + 1) == 2 * p) by (nonlinear_arith)
                requires
                    y == 1,
            ;
        }
    }
    r
}

/// Exchanges the bits of `x` at positions `bits.0` and `bits.1`, by xoring
/// their difference into both positions.
pub fn swap(x: usize, bits: (usize, usize)) -> (r: usize)
    requires
        bits.0 < usize::BITS,
        bits.1 < usize::BITS,
    ensures
        r == swapped(x, bits.0, bits.1),
{
    let a = bits.0;
    let b = bits.1;
    let bit_value_0 = (x & (1usize << a)) >> a;
    let bit_value_1 = (x & (1usize << b)) >> b;
    let difference = bit_value_0 ^ bit_value_1;
    let r = x ^ ((difference << a) | (difference << b));
    assert(r == swapped(x, a, b)) by (bit_vector)
        requires
            a < usize::BITS,
            b < usize::BITS,
            r == x ^ (((((x & (1usize << a)) >> a) ^ ((x & (1usize << b)) >> b)) << a) | (((
            (x & (1usize << a)) >> a) ^ ((x & (1usize << b)) >> b)) << b)),
    ;
    r
}

/// Brings bit `target` of `x` to bit 0 (and bit 0 to `target`).
pub fn swap_pair(x: usize, target: usize) -> (r: usize)
    requires
        target < usize::BITS,
    ensures
        r == swapped(x, 0, target),
{
    swap(x, (0, target))
}

/// Sends bit 0 of `x` to position `target` and bit 1 to position `control`,
/// choosing for each placement of the two qubits the fewest exchanges.
pub fn swap_two_pairs(x: usize, target: usize, control: usize) -> (r: usize)
    requires
        target < usize::BITS,
        control < usize::BITS,
        target != control,
    ensures
        r == two_pairs_swapped(x, target, control),
{
    if target == 0 && control == 1 {
        // already in place
        x
    } else if target == 1 && control == 0 {
        swap(x, (0, 1))
    } else if target == 0 {
        swap(x, (1, control))
    } else if control == 1 {
        swap(x, (0, target))
    } else if target == 1 {
        swap(swap(x, (0, 1)), (0, control))
    } else if control == 0 {
        swap(swap(x, (0, 1)), (1, target))
    } else {
        swap(swap(x, (0, target)), (1, control))
    }
}

} // verus!
