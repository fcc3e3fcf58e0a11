use vstd::prelude::*;

verus! {

/// Why an operation on a quantum state was refused.
#[derive(Clone, Copy, Debug, PartialEq, Eq, Structural)]
pub enum QuantumError {
    /// A program names a qubit at or above the state's number of qubits.
    QubitOutOfRange { qubit: usize, number_of_qubits: usize },
    /// The amplitudes handed to a constructor do not have a power-of-two
    /// length, or a density matrix is not square.
    DimensionMismatch { rows: usize, columns: usize },
    /// Kraus operators cannot act on a pure state.
    UnsupportedOnPure,
    /// The operation is declared but not available on this backend.
    UnsupportedOperation,
}

/// A flat buffer of amplitudes, read and written by index.
pub struct StateVectorPointer<T> {
    data: Vec<T>,
}

impl<T> View for StateVectorPointer<T> {
    type V = Seq<T>;

    closed spec fn view(&self) -> Seq<T> {
        self.data@
    }
}

impl<T: Copy> StateVectorPointer<T> {
    pub fn new(data: Vec<T>) -> (r: Self)
        ensures
            r@ == data@,
    {
        StateVectorPointer { data }
    }

    /// The number of amplitudes held.
    pub fn size(&self) -> (r: usize)
        ensures
            r == self@.len(),
    {
        self.data.len()
    }

    pub fn read(&self, index: usize) -> (r: T)
        requires
            index < self@.len(),
        ensures
            r == self@[index as int],
    {
        self.data[index]
    }

    pub fn write(&mut self, index: usize, value: T)
        requires
            index < old(self)@.len(),
        ensures
            final(self)@ == old(self)@.update(index as int, value),
    {
        self.data.set(index, value);
    }
}

/// Position of entry `(r, c)` in a matrix stored column after column with
/// `dim` rows.
pub open spec fn flat_at(dim: int, r: int, c: int) -> int {
    r + dim * c
}

/// Position of cell `(i, j)` in a block of width `w` read row after row.
pub open spec fn cell(i: int, j: int, w: int) -> int {
    i * w + j
}

/// The block of a matrix stored column after column with `dim` rows, made
/// of rows `rs` and columns `cs`, read row after row.
pub open spec fn block_of<T>(amps: Seq<T>, dim: nat, rs: Seq<usize>, cs: Seq<usize>) -> Seq<T> {
    Seq::new(
        (rs.len() * cs.len()) as nat,
        |x: int| amps[flat_at(dim as int, rs[x / cs.len() as int] as int, cs[x % cs.len() as int] as int)],
    )
}

/// A block update maps the entries `before` to `after`.
pub open spec fn maps_block<T, F: Fn(Vec<T>) -> Vec<T>>(u: F, before: Seq<T>, after: Seq<T>) -> bool {
    exists|a: Vec<T>, b: Vec<T>| a@ == before && b@ == after && #[trigger] u.ensures((a,), b)
}

/// The update accepts any block and keeps its number of entries.
pub open spec fn keeps_len<T, F: Fn(Vec<T>) -> Vec<T>>(u: F) -> bool {
    &&& forall|a: Vec<T>| #[trigger] u.requires((a,))
    &&& forall|a: Vec<T>, b: Vec<T>| #[trigger] u.ensures((a,), b) ==> b@.len() == a@.len()
}

/// Entries of a square matrix of side `dim` sit at distinct positions inside
/// the buffer.
pub proof fn lemma_flat_bounds(dim: int)
    requires
        dim >= 0,
    ensures
        forall|r: int, c: int|
            0 <= r < dim && 0 <= c < dim ==> 0 <= #[trigger] flat_at(dim, r, c) < dim * dim,
        forall|r1: int, c1: int, r2: int, c2: int|
            0 <= r1 < dim && 0 <= r2 < dim && 0 <= c1 && 0 <= c2 && #[trigger] flat_at(dim, r1, c1)
                == #[trigger] flat_at(dim, r2, c2) ==> r1 == r2 && c1 == c2,
{
    assert forall|r: int, c: int| 0 <= r < dim && 0 <= c < dim implies 0 <= #[trigger] flat_at(
        dim,
        r,
        c,
    ) < dim * dim by {
        assert(0 <= r + dim * c < dim * dim) by (nonlinear_arith)
            requires
                0 <= r < dim,
                0 <= c < dim,
        ;
    }
    assert forall|r1: int, c1: int, r2: int, c2: int|
        0 <= r1 < dim && 0 <= r2 < dim && 0 <= c1 && 0 <= c2 && #[trigger] flat_at(dim, r1, c1)
            == #[trigger] flat_at(dim, r2, c2) implies r1 == r2 && c1 == c2 by {
        if c1 < c2 {
            assert(r1 + dim * c1 < r2 + dim * c2) by (nonlinear_arith)
                requires
                    0 <= r1 < dim,
                    0 <= r2,
                    c1 < c2,
            ;
        } else if c2 < c1 {
            assert(r2 + dim * c2 < r1 + dim * c1) by (nonlinear_arith)
                requires
                    0 <= r2 < dim,
                    0 <= r1,
                    c2 < c1,
            ;
        }
    }
}

/// Cells of an `h` by `w` block read row after row.
pub proof fn lemma_cells(h: int, w: int)
    requires
        h >= 0,
        w > 0,
    ensures
        forall|i: int, j: int|
            0 <= i < h && 0 <= j < w ==> {
                &&& 0 <= #[trigger] cell(i, j, w) < h * w
                &&& cell(i, j, w) / w == i
                &&& cell(i, j, w) % w == j
            },
        forall|x: int|
            0 <= x < h * w ==> 0 <= #[trigger] (x / w) < h && 0 <= x % w < w && cell(x / w, x % w, w) == x,
{
    assert forall|i: int, j: int| 0 <= i < h && 0 <= j < w implies {
        &&& 0 <= #[trigger] cell(i, j, w) < h * w
        &&& cell(i, j, w) / w == i
        &&& cell(i, j, w) % w == j
    } by {
        vstd::arithmetic::div_mod::lemma_fundamental_div_mod_converse(i * w + j, w, i, j);
        assert(0 <= i * w + j < h * w) by (nonlinear_arith)
            requires
                0 <= i < h,
                0 <= j < w,
        ;
    }
    assert forall|x: int| 0 <= x < h * w implies 0 <= #[trigger] (x / w) < h && 0 <= x % w < w && cell(
        x / w,
        x % w,
        w,
    ) == x by {
        vstd::arithmetic::div_mod::lemma_fundamental_div_mod(x, w);
        vstd::arithmetic::div_mod::lemma_mod_bound(x, w);
        let q = x / w;
        let m = x % w;
        assert(0 <= q < h) by (nonlinear_arith)
            requires
                x == w * q + m,
                0 <= m < w,
                0 <= x < h * w,
        ;
        assert(q * w + m == x) by (nonlinear_arith)
            requires
                x == w * q + m,
        ;
    }
}

/// A two-dimensional buffer of amplitudes stored column after column:
/// entry `(r, c)` sits at `r + rows * c`.
pub struct DensityMatrixPointer<T> {
    data: Vec<T>,
    shape: (usize, usize),
}

impl<T> View for DensityMatrixPointer<T> {
    type V = Seq<T>;

    closed spec fn view(&self) -> Seq<T> {
        self.data@
    }
}

impl<T: Copy> DensityMatrixPointer<T> {
    /// Number of rows and of columns.
    pub closed spec fn spec_shape(&self) -> (usize, usize) {
        self.shape
    }

    pub open spec fn wf(&self) -> bool {
        self@.len() == self.spec_shape().0 * self.spec_shape().1
    }

    /// Position in the flat buffer of entry `(r, c)`.
    pub open spec fn flat(&self, r: int, c: int) -> int {
        flat_at(self.spec_shape().0 as int, r, c)
    }

    /// The entry at row `r` and column `c`.
    pub open spec fn entry(&self, r: int, c: int) -> T {
        self@[self.flat(r, c)]
    }

    pub fn new(data: Vec<T>, shape: (usize, usize)) -> (r: Self)
        requires
            data@.len() == shape.0 * shape.1,
        ensures
            r@ == data@,
            r.spec_shape() == shape,
            r.wf(),
    {
        DensityMatrixPointer { data, shape }
    }

    pub fn shape(&self) -> (r: (usize, usize))
        ensures
            r == self.spec_shape(),
    {
        self.shape
    }

    /// Position in the flat buffer of the entry at row `indices.0` and
    /// column `indices.1`.
    pub fn flatten_index(&self, indices: (usize, usize)) -> (r: usize)
        requires
            self.wf(),
            indices.0 < self.spec_shape().0,
            indices.1 < self.spec_shape().1,
        ensures
            r == self.flat(indices.0 as int, indices.1 as int),
            r < self@.len(),
    {
        let rows = self.shape.0;
        let cols = self.shape.1;
        let (i, j) = indices;
        let len = self.data.len();
        proof {
            assert(i + rows * j < rows * cols) by (nonlinear_arith)
                requires
                    i < rows,
                    j < cols,
            ;
        }
        i + rows * j
    }

    pub fn read(&self, indices: (usize, usize)) -> (r: T)
        requires
            self.wf(),
            indices.0 < self.spec_shape().0,
            indices.1 < self.spec_shape().1,
        ensures
            r == self.entry(indices.0 as int, indices.1 as int),
    {
        let k = self.flatten_index(indices);
        self.data[k]
    }

    pub fn write(&mut self, indices: (usize, usize), value: T)
        requires
            old(self).wf(),
            indices.0 < old(self).spec_shape().0,
            indices.1 < old(self).spec_shape().1,
        ensures
            final(self).spec_shape() == old(self).spec_shape(),
            final(self)@ == old(self)@.update(
                old(self).flat(indices.0 as int, indices.1 as int),
                value,
            ),
            final(self).wf(),
    {
        let k = self.flatten_index(indices);
        self.data.set(k, value);
    }

    /// Replaces the block made of rows `rs` and columns `cs` (distinct, in a
    /// square matrix) by what `u` makes of it, read and written row after row.
    pub fn update_block<F: Fn(Vec<T>) -> Vec<T>>(&mut self, rs: &Vec<usize>, cs: &Vec<usize>, u: &F)
        requires
            old(self).wf(),
            old(self).spec_shape().0 == old(self).spec_shape().1,
            forall|i: int| 0 <= i < rs@.len() ==> rs@[i] < old(self).spec_shape().0,
            forall|j: int| 0 <= j < cs@.len() ==> cs@[j] < old(self).spec_shape().1,
            forall|i1: int, i2: int| 0 <= i1 < i2 < rs@.len() ==> rs@[i1] != rs@[i2],
            forall|j1: int, j2: int| 0 <= j1 < j2 < cs@.len() ==> cs@[j1] != cs@[j2],
            rs@.len() * cs@.len() <= usize::MAX,
            cs@.len() > 0,
            keeps_len(*u),
        ensures
            final(self).wf(),
            final(self).spec_shape() == old(self).spec_shape(),
            maps_block(
                *u,
                block_of(old(self)@, old(self).spec_shape().0 as nat, rs@, cs@),
                block_of(final(self)@, old(self).spec_shape().0 as nat, rs@, cs@),
            ),
            forall|r: int, c: int|
                #![trigger final(self).entry(r, c)]
                0 <= r < old(self).spec_shape().0 && 0 <= c < old(self).spec_shape().1 && !(
                rs@.contains(r as usize) && cs@.contains(c as usize)) ==> final(self).entry(r, c)
                    == old(self).entry(r, c),
    {
        let ghost dim = self.shape.0 as int;
        let ghost old_data = self@;
        let h = rs.len();
        let w = cs.len();
        proof {
            lemma_flat_bounds(dim);
            lemma_cells(h as int, w as int);
        }
        let ghost blk = block_of(old_data, dim as nat, rs@, cs@);
        let mut a: Vec<T> = Vec::new();
        let mut i: usize = 0;
        while i < h
            invariant
                self@ == old_data,
                self.wf(),
                dim == self.shape.0,
                self.shape.0 == self.shape.1,
                h == rs@.len(),
                w == cs@.len(),
                w > 0,
                h * w <= usize::MAX,
                i <= h,
                blk == block_of(old_data, dim as nat, rs@, cs@),
                blk.len() == h * w,
                forall|i1: int| 0 <= i1 < rs@.len() ==> rs@[i1] < dim,
                forall|j1: int| 0 <= j1 < cs@.len() ==> cs@[j1] < dim,
                forall|i1: int, j1: int|
                    0 <= i1 < h && 0 <= j1 < w ==> {
                        &&& 0 <= #[trigger] cell(i1, j1, w as int) < h * w
                        &&& cell(i1, j1, w as int) / (w as int) == i1
                        &&& cell(i1, j1, w as int) % (w as int) == j1
                    },
                a@.len() == i * w,
                forall|x: int| 0 <= x < a@.len() ==> a@[x] == blk[x],
            decreases h - i,
        {
            let mut j: usize = 0;
            proof {
                assert(cell(i as int, 0, w as int) == i * w);
            }
            while j < w
                invariant
                    self@ == old_data,
                    self.wf(),
                    dim == self.shape.0,
                    self.shape.0 == self.shape.1,
                    h == rs@.len(),
                    w == cs@.len(),
                    w > 0,
                    i < h,
                    j <= w,
                    h * w <= usize::MAX,
                    blk == block_of(old_data, dim as nat, rs@, cs@),
                    blk.len() == h * w,
                    forall|i1: int| 0 <= i1 < rs@.len() ==> rs@[i1] < dim,
                    forall|j1: int| 0 <= j1 < cs@.len() ==> cs@[j1] < dim,
                    forall|i1: int, j1: int|
                        0 <= i1 < h && 0 <= j1 < w ==> {
                            &&& 0 <= #[trigger] cell(i1, j1, w as int) < h * w
                            &&& cell(i1, j1, w as int) / (w as int) == i1
                            &&& cell(i1, j1, w as int) % (w as int) == j1
                        },
                    a@.len() == i * w + j,
                    forall|x: int| 0 <= x < a@.len() ==> a@[x] == blk[x],
                decreases w - j,
            {
                let v = self.read((rs[i], cs[j]));
                proof {
                    let x = cell(i as int, j as int, w as int);
                    assert(x == i * w + j);
                    assert(blk[x] == v);
                }
                a.push(v);
                j = j + 1;
            }
            proof {
                assert(cell(i as int, (w - 1) as int, w as int) + 1 == (i + 1) * w) by (nonlinear_arith)
                    requires
                        w > 0,
                ;
            }
            i = i + 1;
        }
        proof {
            assert(a@ =~= blk) by {
                if h == 0 {
                } else {
                    assert(cell((h - 1) as int, (w - 1) as int, w as int) + 1 == h * w) by (nonlinear_arith)
                        requires
                            w > 0,
                    ;
                }
            }
        }
        let b = u(a);
        let ghost after = b@;
        i = 0;
        while i < h
            invariant
                self.wf(),
                dim == self.shape.0,
                self.shape.0 == self.shape.1,
                old_data.len() == self@.len(),
                old_data.len() == dim * dim,
                h == rs@.len(),
                w == cs@.len(),
                w > 0,
                h * w <= usize::MAX,
                b@ == after,
                after.len() == h * w,
                i <= h,
                forall|i1: int| 0 <= i1 < rs@.len() ==> rs@[i1] < dim,
                forall|j1: int| 0 <= j1 < cs@.len() ==> cs@[j1] < dim,
                forall|i1: int, i2: int| 0 <= i1 < i2 < rs@.len() ==> rs@[i1] != rs@[i2],
                forall|j1: int, j2: int| 0 <= j1 < j2 < cs@.len() ==> cs@[j1] != cs@[j2],
                forall|i1: int, j1: int|
                    0 <= i1 < h && 0 <= j1 < w ==> {
                        &&& 0 <= #[trigger] cell(i1, j1, w as int) < h * w
                        &&& cell(i1, j1, w as int) / (w as int) == i1
                        &&& cell(i1, j1, w as int) % (w as int) == j1
                    },
                forall|r: int, c: int|
                    0 <= r < dim && 0 <= c < dim ==> 0 <= #[trigger] flat_at(dim, r, c) < dim * dim,
                forall|r1: int, c1: int, r2: int, c2: int|
                    0 <= r1 < dim && 0 <= r2 < dim && 0 <= c1 && 0 <= c2 && #[trigger] flat_at(dim, r1, c1)
                        == #[trigger] flat_at(dim, r2, c2) ==> r1 == r2 && c1 == c2,
                forall|i1: int, j1: int|
                    0 <= i1 < i && 0 <= j1 < w ==> self@[flat_at(dim, rs@[i1] as int, cs@[j1] as int)]
                        == after[#[trigger] cell(i1, j1, w as int)],
                forall|r: int, c: int|
                    0 <= r < dim && 0 <= c < dim && ((forall|i1: int| 0 <= i1 < i ==> rs@[i1] != r) || (
                    forall|j1: int| 0 <= j1 < w ==> cs@[j1] != c)) ==> self@[#[trigger] flat_at(dim, r, c)]
                        == old_data[flat_at(dim, r, c)],
            decreases h - i,
        {
            let mut j: usize = 0;
            while j < w
                invariant
                    self.wf(),
                    dim == self.shape.0,
                    self.shape.0 == self.shape.1,
                    old_data.len() == self@.len(),
                    old_data.len() == dim * dim,
                    h == rs@.len(),
                    w == cs@.len(),
                    w > 0,
                    h * w <= usize::MAX,
                    b@ == after,
                    after.len() == h * w,
                    i < h,
                    j <= w,
                    forall|i1: int| 0 <= i1 < rs@.len() ==> rs@[i1] < dim,
                    forall|j1: int| 0 <= j1 < cs@.len() ==> cs@[j1] < dim,
                    forall|i1: int, i2: int| 0 <= i1 < i2 < rs@.len() ==> rs@[i1] != rs@[i2],
                    forall|j1: int, j2: int| 0 <= j1 < j2 < cs@.len() ==> cs@[j1] != cs@[j2],
                    forall|i1: int, j1: int|
                        0 <= i1 < h && 0 <= j1 < w ==> {
                            &&& 0 <= #[trigger] cell(i1, j1, w as int) < h * w
                            &&& cell(i1, j1, w as int) / (w as int) == i1
                            &&& cell(i1, j1, w as int) % (w as int) == j1
                        },
                    forall|r: int, c: int|
                        0 <= r < dim && 0 <= c < dim ==> 0 <= #[trigger] flat_at(dim, r, c) < dim * dim,
                    forall|r1: int, c1: int, r2: int, c2: int|
                        0 <= r1 < dim && 0 <= r2 < dim && 0 <= c1 && 0 <= c2 && #[trigger] flat_at(
                            dim,
                            r1,
                            c1,
                        ) == #[trigger] flat_at(dim, r2, c2) ==> r1 == r2 && c1 == c2,
                    forall|i1: int, j1: int|
                        (0 <= i1 < i && 0 <= j1 < w) || (i1 == i && 0 <= j1 < j) ==> self@[flat_at(
                            dim,
                            rs@[i1] as int,
                            cs@[j1] as int,
                        )] == after[#[trigger] cell(i1, j1, w as int)],
                    forall|r: int, c: int|
                        0 <= r < dim && 0 <= c < dim && ((forall|i1: int| 0 <= i1 < i ==> rs@[i1] != r) || (
                        forall|j1: int| 0 <= j1 < w ==> cs@[j1] != c)) && (r != rs@[i as int] || (forall|
                            j1: int,
                        | 0 <= j1 < j ==> cs@[j1] != c)) ==> self@[#[trigger] flat_at(dim, r, c)]
                            == old_data[flat_at(dim, r, c)],
                decreases w - j,
            {
                proof {
                    assert(cell(i as int, j as int, w as int) == i * w + j);
                }
                let ghost prev = self@;
                let ri = rs[i];
                let cj = cs[j];
                self.write((ri, cj), b[i * w + j]);
                proof {
                    let p = flat_at(dim, ri as int, cj as int);
                    assert(self@ == prev.update(p, after[cell(i as int, j as int, w as int)]));
                    assert forall|i1: int, j1: int|
                        (0 <= i1 < i && 0 <= j1 < w) || (i1 == i && 0 <= j1 < j + 1) implies self@[flat_at(
                        dim,
                        rs@[i1] as int,
                        cs@[j1] as int,
                    )] == after[#[trigger] cell(i1, j1, w as int)] by {
                        let q = flat_at(dim, rs@[i1] as int, cs@[j1] as int);
                        if i1 != i || j1 != j {
                            assert(q != p);
                        }
                    }
                    assert forall|r: int, c: int|
                        0 <= r < dim && 0 <= c < dim && ((forall|i1: int| 0 <= i1 < i ==> rs@[i1] != r) || (
                        forall|j1: int| 0 <= j1 < w ==> cs@[j1] != c)) && (r != rs@[i as int] || (forall|
                            j1: int,
                        | 0 <= j1 < j + 1 ==> cs@[j1] != c)) implies self@[#[trigger] flat_at(dim, r, c)]
                        == old_data[flat_at(dim, r, c)] by {
                        assert(flat_at(dim, r, c) != p);
                        assert(prev[flat_at(dim, r, c)] == old_data[flat_at(dim, r, c)]);
                    }
                }
                j = j + 1;
            }
            i = i + 1;
        }
        proof {
            let fin = self@;
            assert forall|x: int| 0 <= x < h * w implies #[trigger] block_of(fin, dim as nat, rs@, cs@)[x]
                == after[x] by {
                let i1 = x / (w as int);
                let j1 = x % (w as int);
                assert(0 <= i1 < h && 0 <= j1 < w && cell(i1, j1, w as int) == x);
            }
            assert(block_of(fin, dim as nat, rs@, cs@) =~= after);
            assert(u.ensures((a,), b));
            assert forall|r: int, c: int|
                #![trigger self.entry(r, c)]
                0 <= r < dim && 0 <= c < dim && !(rs@.contains(r as usize) && cs@.contains(c as usize))
                    implies self.entry(r, c) == old_data[flat_at(dim, r, c)] by {
                if exists|i1: int| 0 <= i1 < h && rs@[i1] == r {
                    let i1 = choose|i1: int| 0 <= i1 < h && rs@[i1] == r;
                    assert(rs@.contains(r as usize));
                    assert(!cs@.contains(c as usize));
                    assert forall|j1: int| 0 <= j1 < w implies cs@[j1] != c by {
                        if cs@[j1] == c {
                            assert(cs@.contains(c as usize));
                        }
                    }
                    assert(self@[flat_at(dim, r, c)] == old_data[flat_at(dim, r, c)]);
                } else {
                    assert(forall|i1: int| 0 <= i1 < h ==> rs@[i1] != r);
                    assert(self@[flat_at(dim, r, c)] == old_data[flat_at(dim, r, c)]);
                }
            }
        }
    }
}

} // verus!
