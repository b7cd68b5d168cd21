use vstd::prelude::*;

verus! {

/// Pixel dimensions of a rendered frame: `x` columns by `y` rows.
pub struct Resolution {
    pub x: usize,
    pub y: usize,
}

/// A `width` by `height` grid of pixels, stored row by row; row 0 is the top
/// of the image.
pub struct Pixvec<T> {
    data: Vec<T>,
    width: usize,
    height: usize,
}

/// Where the cell of row `row` and column `col` of a grid `width` cells wide
/// sits in row-major storage.
spec fn cell_index(width: nat, row: nat, col: nat) -> nat {
    row * width + col
}

/// A grid of `height` rows of `width` copies of `v`.
pub open spec fn uniform_grid<T>(width: nat, height: nat, v: T) -> Seq<Seq<T>> {
    Seq::new(height, |r: int| Seq::new(width, |c: int| v))
}

/// The rows of a nested vector, as sequences.
pub open spec fn rows_view<T>(rows: Seq<Vec<T>>) -> Seq<Seq<T>> {
    rows.map_values(|v: Vec<T>| v@)
}

/// The cell of row `r` and column `c` of `rows` where `rows` has one, else `fill`.
pub open spec fn padded_cell<T>(rows: Seq<Seq<T>>, r: int, c: int, fill: T) -> T {
    if 0 <= r < rows.len() && 0 <= c < rows[r].len() {
        rows[r][c]
    } else {
        fill
    }
}

/// `rows` cut or padded with `fill` to `height` rows of `width` cells.
pub open spec fn padded_grid<T>(rows: Seq<Seq<T>>, width: nat, height: nat, fill: T) -> Seq<Seq<T>> {
    Seq::new(height, |r: int| Seq::new(width, |c: int| padded_cell(rows, r, c, fill)))
}

/// `i` where it is below `len`, else the last index below `len`.
pub open spec fn clamp_index(i: nat, len: nat) -> nat {
    if i < len {
        i
    } else {
        (len - 1) as nat
    }
}

proof fn lemma_cell_in_bounds(width: nat, height: nat, row: nat, col: nat)
    requires
        row < height,
        col < width,
    ensures
        cell_index(width, row, col) < width * height,
{
    assert(row * width + col < width * height) by (nonlinear_arith)
        requires
            row < height,
            col < width,
    ;
}

proof fn lemma_cell_of_index(width: nat, height: nat, k: nat)
    requires
        k < width * height,
    ensures
        width > 0,
        k / width < height,
        k % width < width,
        cell_index(width, k / width, k % width) == k,
{
    if width == 0 {
        assert(width * height == 0) by (nonlinear_arith)
            requires
                width == 0,
        ;
    }
    let q = k / width;
    vstd::arithmetic::div_mod::lemma_fundamental_div_mod(k as int, width as int);
    vstd::arithmetic::div_mod::lemma_mod_pos_bound(k as int, width as int);
    assert(q * width == width * q) by (nonlinear_arith);
    if q >= height {
        assert(q * width >= width * height) by (nonlinear_arith)
            requires
                q >= height,
        ;
    }
}

proof fn lemma_cell_index_injective(width: nat, r1: nat, c1: nat, r2: nat, c2: nat)
    requires
        c1 < width,
        c2 < width,
        cell_index(width, r1, c1) == cell_index(width, r2, c2),
    ensures
        r1 == r2,
        c1 == c2,
{
    if r1 < r2 {
        assert(r1 * width + c1 < r2 * width) by (nonlinear_arith)
            requires
                r1 < r2,
                c1 < width,
        ;
    } else if r2 < r1 {
        assert(r2 * width + c2 < r1 * width) by (nonlinear_arith)
            requires
                r2 < r1,
                c2 < width,
        ;
    }
}

impl<T> View for Pixvec<T> {
    type V = Seq<Seq<T>>;

    /// The rows of the grid, top to bottom, each `width` cells long.
    closed spec fn view(&self) -> Seq<Seq<T>> {
        Seq::new(
            self.height as nat,
            |r: int|
                Seq::new(
                    self.width as nat,
                    |c: int| self.data@[cell_index(self.width as nat, r as nat, c as nat) as int],
                ),
        )
    }
}

impl<T: Copy> Pixvec<T> {
    /// The storage holds exactly `width * height` cells.
    pub closed spec fn wf(&self) -> bool {
        self.data@.len() == self.width * self.height
    }

    pub closed spec fn spec_width(&self) -> nat {
        self.width as nat
    }

    pub closed spec fn spec_height(&self) -> nat {
        self.height as nat
    }

    /// The view has `height` rows of `width` cells each.
    pub proof fn lemma_shape(&self)
        ensures
            self@.len() == self.spec_height(),
            forall|r: int| 0 <= r < self.spec_height() ==> (#[trigger] self@[r]).len() == self.spec_width(),
    {
    }

    /// A `width` by `height` grid with every cell set to `fill`.
    pub fn new(width: usize, height: usize, fill: T) -> (r: Pixvec<T>)
        requires
            width * height <= usize::MAX,
        ensures
            r.wf(),
            r.spec_width() == width,
            r.spec_height() == height,
            r@ == uniform_grid(width as nat, height as nat, fill),
    {
        let n: usize = width * height;
        let mut data: Vec<T> = Vec::with_capacity(n);
        let mut k: usize = 0;
        while k < n
            invariant
                k <= n,
                data@.len() == k,
                forall|i: int| 0 <= i < k ==> data@[i] == fill,
            decreases n - k,
        {
            data.push(fill);
            k = k + 1;
        }
        let r = Pixvec { data, width, height };
        assert(r@ =~~= uniform_grid(width as nat, height as nat, fill)) by {
            assert forall|row: int, col: int| 0 <= row < height && 0 <= col < width implies
                r.data@[#[trigger] cell_index(width as nat, row as nat, col as nat) as int] == fill by {
                lemma_cell_in_bounds(width as nat, height as nat, row as nat, col as nat);
            }
        }
        r
    }

    pub fn width(&self) -> (r: usize)
        ensures
            r == self.spec_width(),
    {
        self.width
    }

    pub fn height(&self) -> (r: usize)
        ensures
            r == self.spec_height(),
    {
        self.height
    }

    /// The cell of row `row` and column `col`.
    pub fn get(&self, row: usize, col: usize) -> (r: T)
        requires
            self.wf(),
            row < self.spec_height(),
            col < self.spec_width(),
        ensures
            r == self@[row as int][col as int],
    {
        let n = self.data.len();
        proof {
            lemma_cell_in_bounds(self.width as nat, self.height as nat, row as nat, col as nat);
        }
        assert(row * self.width + col < n);
        self.data[row * self.width + col]
    }

    /// Overwrites the cell of row `row` and column `col` with `v`.
    pub fn set(&mut self, row: usize, col: usize, v: T)
        requires
            old(self).wf(),
            row < old(self).spec_height(),
            col < old(self).spec_width(),
        ensures
            final(self).wf(),
            final(self).spec_width() == old(self).spec_width(),
            final(self).spec_height() == old(self).spec_height(),
            final(self)@ == old(self)@.update(
                row as int,
                old(self)@[row as int].update(col as int, v),
            ),
    {
        let n = self.data.len();
        proof {
            lemma_cell_in_bounds(self.width as nat, self.height as nat, row as nat, col as nat);
        }
        assert(row * self.width + col < n);
        let ghost before = self@;
        let k = row * self.width + col;
        self.data.set(k, v);
        proof {
            let w = self.width as nat;
            let h = self.height as nat;
            assert forall|r: int, c: int| 0 <= r < h && 0 <= c < w implies
                #[trigger] self@[r][c] == (if r == row && c == col { v } else { before[r][c] }) by {
                lemma_cell_in_bounds(w, h, r as nat, c as nat);
                if cell_index(w, r as nat, c as nat) == k {
                    lemma_cell_index_injective(w, r as nat, c as nat, row as nat, col as nat);
                }
            }
            assert(self@ =~~= before.update(row as int, before[row as int].update(col as int, v)));
        }
    }

    /// A `width` by `height` grid taken from `rows`: the cell of row `r` and
    /// column `c` is `rows[r][c]` where `rows` has it, and `fill` elsewhere.
    /// Rows past `height` and cells past `width` are left out.
    pub fn new_from_vec(rows: Vec<Vec<T>>, width: usize, height: usize, fill: T) -> (r: Pixvec<T>)
        requires
            width * height <= usize::MAX,
        ensures
            r.wf(),
            r.spec_width() == width,
            r.spec_height() == height,
            r@ == padded_grid(rows_view(rows@), width as nat, height as nat, fill),
    {
        let n: usize = width * height;
        let mut data: Vec<T> = Vec::with_capacity(n);
        let mut row: usize = 0;
        while row < height
            invariant
                width * height == n,
                n <= usize::MAX,
                row <= height,
                data@.len() == row * width,
                forall|r: int, c: int|
                    0 <= r < row && 0 <= c < width ==> data@[#[trigger] cell_index(
                        width as nat,
                        r as nat,
                        c as nat,
                    ) as int] == padded_cell(rows_view(rows@), r, c, fill),
            decreases height - row,
        {
            proof {
                assert(row * width + width <= n) by (nonlinear_arith)
                    requires
                        row < height,
                        n == width * height,
                ;
            }
            let mut col: usize = 0;
            while col < width
                invariant
                    width * height == n,
                    n <= usize::MAX,
                    row < height,
                    row * width + width <= n,
                    col <= width,
                    data@.len() == row * width + col,
                    forall|r: int, c: int|
                        (0 <= r < row && 0 <= c < width) || (r == row && 0 <= c < col)
                            ==> data@[#[trigger] cell_index(
                            width as nat,
                            r as nat,
                            c as nat,
                        ) as int] == padded_cell(rows_view(rows@), r, c, fill),
                decreases width - col,
            {
                let v = if row < rows.len() && col < rows[row].len() {
                    rows[row][col]
                } else {
                    fill
                };
                let ghost before = data@;
                data.push(v);
                proof {
                    assert forall|r: int, c: int|
                        (0 <= r < row && 0 <= c < width) || (r == row && 0 <= c < col + 1)
                            implies data@[#[trigger] cell_index(
                            width as nat,
                            r as nat,
                            c as nat,
                        ) as int] == padded_cell(rows_view(rows@), r, c, fill) by {
                        if r < row {
                            assert(r * width + c < row * width) by (nonlinear_arith)
                                requires
                                    r < row,
                                    c < width,
                            ;
                        }
                    }
                }
                col = col + 1;
            }
            proof {
                assert((row + 1) * width == row * width + width) by (nonlinear_arith);
            }
            row = row + 1;
        }
        assert(height * width == width * height) by (nonlinear_arith);
        let r = Pixvec { data, width, height };
        assert(r@ =~~= padded_grid(rows_view(rows@), width as nat, height as nat, fill));
        r
    }

    /// A second grid with the same size and cells.
    pub fn copy(&self) -> (r: Pixvec<T>)
        requires
            self.wf(),
        ensures
            r.wf(),
            r.spec_width() == self.spec_width(),
            r.spec_height() == self.spec_height(),
            r@ == self@,
    {
        let n = self.data.len();
        let mut data: Vec<T> = Vec::with_capacity(n);
        let mut k: usize = 0;
        while k < n
            invariant
                n == self.data@.len(),
                k <= n,
                data@ == self.data@.subrange(0, k as int),
            decreases n - k,
        {
            data.push(self.data[k]);
            k = k + 1;
            assert(data@ =~= self.data@.subrange(0, k as int));
        }
        assert(data@ =~= self.data@);
        Pixvec { data, width: self.width, height: self.height }
    }

    /// The cell nearest to row `row` and column `col`: an index past the last
    /// row or column reads the last one.
    pub fn sample(&self, row: usize, col: usize) -> (r: T)
        requires
            self.wf(),
            self.spec_height() > 0,
            self.spec_width() > 0,
        ensures
            r == self@[clamp_index(row as nat, self.spec_height()) as int][clamp_index(
                col as nat,
                self.spec_width(),
            ) as int],
    {
        let r = if row < self.height {
            row
        } else {
            self.height - 1
        };
        let c = if col < self.width {
            col
        } else {
            self.width - 1
        };
        self.get(r, c)
    }

    /// A grid of the same size whose every cell is `f` applied to the cell at
    /// the same place in this one.
    pub fn map<U: Copy, F: Fn(T) -> U>(&self, f: F) -> (r: Pixvec<U>)
        requires
            self.wf(),
            forall|row: int, col: int|
                0 <= row < self.spec_height() && 0 <= col < self.spec_width() ==> call_requires(
                    f,
                    (#[trigger] self@[row][col],),
                ),
        ensures
            r.wf(),
            r.spec_width() == self.spec_width(),
            r.spec_height() == self.spec_height(),
            forall|row: int, col: int|
                0 <= row < self.spec_height() && 0 <= col < self.spec_width() ==> call_ensures(
                    f,
                    (self@[row][col],),
                    #[trigger] r@[row][col],
                ),
    {
        let n = self.data.len();
        let ghost w = self.width as nat;
        let ghost h = self.height as nat;
        proof {
            assert forall|k: int| 0 <= k < n implies call_requires(f, (#[trigger] self.data@[k],)) by {
                lemma_cell_of_index(w, h, k as nat);
                let row = k / (w as int);
                let col = k % (w as int);
                assert(self@[row][col] == self.data@[k]);
            }
        }
        let mut data: Vec<U> = Vec::with_capacity(n);
        let mut k: usize = 0;
        while k < n
            invariant
                n == self.data@.len(),
                k <= n,
                data@.len() == k,
                forall|i: int| 0 <= i < n ==> call_requires(f, (#[trigger] self.data@[i],)),
                forall|i: int| 0 <= i < k ==> call_ensures(f, (self.data@[i],), #[trigger] data@[i]),
            decreases n - k,
        {
            data.push(f(self.data[k]));
            k = k + 1;
        }
        let r = Pixvec { data, width: self.width, height: self.height };
        proof {
            assert forall|row: int, col: int| 0 <= row < h && 0 <= col < w implies call_ensures(
                f,
                (self@[row][col],),
                #[trigger] r@[row][col],
            ) by {
                lemma_cell_in_bounds(w, h, row as nat, col as nat);
            }
        }
        r
    }
}

} // verus!
