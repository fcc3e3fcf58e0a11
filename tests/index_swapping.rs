use bra_ket::index_swapping::{log2, swap, swap_pair, swap_two_pairs};

#[test]
fn swap_exchanges_two_bits() {
    assert_eq!(swap(0b0001, (0, 3)), 0b1000);
    assert_eq!(swap(0b1000, (0, 3)), 0b0001);
    assert_eq!(swap(0b1001, (0, 3)), 0b1001);
    assert_eq!(swap(0b0110, (1, 2)), 0b0110);
    assert_eq!(swap(0b0100, (1, 2)), 0b0010);
    assert_eq!(swap(0b1011, (2, 2)), 0b1011);
}

#[test]
fn swap_pair_moves_target_to_bit_zero() {
    assert_eq!(swap_pair(0b100, 2), 0b001);
    assert_eq!(swap_pair(0b001, 2), 0b100);
    assert_eq!(swap_pair(0b110, 0), 0b110);
    assert_eq!(swap_pair(0b010, 1), 0b001);
}

#[test]
fn swap_two_pairs_table() {
    // (0, 1): identity
    assert_eq!(swap_two_pairs(0b10, 0, 1), 0b10);
    // (1, 0): bits 0 and 1 exchanged
    assert_eq!(swap_two_pairs(0b01, 1, 0), 0b10);
    // (0, c): bits 1 and c exchanged
    assert_eq!(swap_two_pairs(0b0010, 0, 3), 0b1000);
    // (t, 1): bits 0 and t exchanged
    assert_eq!(swap_two_pairs(0b0001, 3, 1), 0b1000);
    // (1, c): bit 0 goes to 1, bit 1 to c
    assert_eq!(swap_two_pairs(0b0001, 1, 3), 0b0010);
    assert_eq!(swap_two_pairs(0b0010, 1, 3), 0b1000);
    // (t, 0): bit 0 goes to t, bit 1 to 0
    assert_eq!(swap_two_pairs(0b0001, 3, 0), 0b1000);
    assert_eq!(swap_two_pairs(0b0010, 3, 0), 0b0001);
    // (t, c): bit 0 to t, bit 1 to c
    assert_eq!(swap_two_pairs(0b00001, 3, 4), 0b01000);
    assert_eq!(swap_two_pairs(0b00010, 3, 4), 0b10000);
}

#[test]
fn swap_two_pairs_is_a_bijection_on_small_spaces() {
    for n in 2..=8usize {
        let dim = 1usize << n;
        for t in 0..n {
            for c in 0..n {
                if t == c {
                    continue;
                }
                let mut seen = vec![false; dim];
                for x in 0..dim {
                    let y = swap_two_pairs(x, t, c);
                    assert!(y < dim);
                    assert!(!seen[y]);
                    seen[y] = true;
                    assert_eq!((y >> t) & 1, x & 1);
                    assert_eq!((y >> c) & 1, (x >> 1) & 1);
                }
            }
        }
    }
}

#[test]
fn swap_two_pairs_is_a_bijection_for_sixteen_qubits() {
    let n = 16usize;
    let dim = 1usize << n;
    for &(t, c) in &[(0usize, 1usize), (1, 0), (0, 15), (15, 1), (1, 9), (12, 0), (3, 14), (15, 2)] {
        let mut seen = vec![false; dim];
        for x in 0..dim {
            let y = swap_two_pairs(x, t, c);
            assert!(y < dim);
            assert!(!seen[y]);
            seen[y] = true;
        }
    }
}

#[test]
fn pair_sweep_partitions_the_index_space() {
    let n = 4usize;
    let dim = 1usize << n;
    for q in 0..n {
        let mut seen = vec![false; dim];
        for k in 0..dim / 2 {
            let i0 = swap_pair(2 * k, q);
            let i1 = swap_pair(2 * k + 1, q);
            assert_eq!((i0 >> q) & 1, 0);
            assert_eq!((i1 >> q) & 1, 1);
            assert!(!seen[i0] && !seen[i1]);
            seen[i0] = true;
            seen[i1] = true;
        }
        assert!(seen.iter().all(|s| *s));
    }
}

#[test]
fn log2_rounds_down() {
    assert_eq!(log2(0), 0);
    assert_eq!(log2(1), 0);
    assert_eq!(log2(2), 1);
    assert_eq!(log2(3), 1);
    assert_eq!(log2(8), 3);
    assert_eq!(log2(1023), 9);
    assert_eq!(log2(1024), 10);
}
