//! Layout work of the tile kernels' fused-op interpreters: moving a tile between its
//! register-like form (`rows` vectors of `cols` cells) and flat strided buffers, the
//! operand reshapes that feed the matmul primitives, and cell-wise updates whose
//! arithmetic the caller supplies.
use vstd::prelude::*;

use crate::strided::{lemma_product_fits_i128, spec_addr, spec_spans};

verus! {

/// Tile size of the bf16 tile kernels.
pub const TILE: usize = 16;

/// Where a tile lives in a flat buffer: cell `(i, j)` sits at
/// `offset + i * row_stride + j * col_stride` (strides count elements).
#[derive(Clone, Copy, Debug, PartialEq, Eq)]
pub struct OutputStoreKer {
    pub offset: usize,
    pub row_stride: isize,
    pub col_stride: isize,
}

impl OutputStoreKer {
    /// Buffer position of cell `(i, j)`.
    pub open spec fn spec_cell(&self, i: int, j: int) -> int {
        spec_addr(self.offset as int, self.row_stride as int, self.col_stride as int, i, j)
    }

    /// Every cell of a `rows` x `cols` tile lies in a buffer of `len` elements.
    pub open spec fn spec_fits(&self, rows: nat, cols: nat, len: nat) -> bool {
        spec_spans(
            self.offset as int,
            self.row_stride as int,
            self.col_stride as int,
            rows,
            cols,
            len,
        )
    }

    /// No two cells of a `rows` x `cols` tile share a buffer position.
    pub open spec fn spec_distinct_cells(&self, rows: nat, cols: nat) -> bool {
        forall|i1: int, j1: int, i2: int, j2: int|
            0 <= i1 < rows && 0 <= j1 < cols && 0 <= i2 < rows && 0 <= j2 < cols && (i1 != i2
                || j1 != j2) ==> #[trigger] self.spec_cell(i1, j1) != #[trigger] self.spec_cell(
                i2,
                j2,
            )
    }

    /// Buffer position of cell `(i, j)`.
    fn cell(&self, i: usize, j: usize, rows: usize, cols: usize, len: usize) -> (x: usize)
        requires
            self.spec_fits(rows as nat, cols as nat, len as nat),
            i < rows,
            j < cols,
        ensures
            x == self.spec_cell(i as int, j as int),
            x < len,
    {
        let ghost (o, rs, cs) = (self.offset as int, self.row_stride as int, self.col_stride as int);
        proof {
            assert(0 <= spec_addr(o, rs, cs, i as int, 0) < len);
            assert(0 <= spec_addr(o, rs, cs, 0, j as int) < len);
            assert(0 <= spec_addr(o, rs, cs, i as int, j as int) < len);
            lemma_product_fits_i128(i as int, rs);
            lemma_product_fits_i128(j as int, cs);
        }
        let down: i128 = (i as i128) * (self.row_stride as i128);
        let across: i128 = (j as i128) * (self.col_stride as i128);
        let x: i128 = (self.offset as i128) + down + across;
        x as usize
    }
}

/// The cells of a tile held as row vectors.
pub open spec fn tile_view<T>(tile: &Vec<Vec<T>>) -> Seq<Seq<T>> {
    tile@.map_values(|row: Vec<T>| row@)
}

/// `t` has `rows` rows of `cols` cells each.
pub open spec fn spec_is_tile<T>(t: Seq<Seq<T>>, rows: nat, cols: nat) -> bool {
    &&& t.len() == rows
    &&& forall|i: int| 0 <= i < rows ==> #[trigger] t[i].len() == cols
}

/// The tile whose cell `(i, j)` is `src` at the buffer position of `(i, j)`.
pub open spec fn spec_gather<T>(src: Seq<T>, at: OutputStoreKer, rows: nat, cols: nat) -> Seq<
    Seq<T>,
> {
    Seq::new(rows, |i: int| Seq::new(cols, |j: int| src[at.spec_cell(i, j)]))
}

/// Reads a `rows` x `cols` tile out of a strided buffer.
pub fn gather_tile<T: Copy>(src: &[T], at: &OutputStoreKer, rows: usize, cols: usize) -> (tile:
    Vec<Vec<T>>)
    requires
        at.spec_fits(rows as nat, cols as nat, src@.len()),
    ensures
        tile_view(&tile) == spec_gather(src@, *at, rows as nat, cols as nat),
{
    let len = src.len();
    let mut tile: Vec<Vec<T>> = Vec::with_capacity(rows);
    for i in 0..rows
        invariant
            len == src@.len(),
            at.spec_fits(rows as nat, cols as nat, src@.len()),
            tile@.len() == i,
            forall|i2: int|
                0 <= i2 < i ==> #[trigger] tile@[i2]@ == spec_gather(
                    src@,
                    *at,
                    rows as nat,
                    cols as nat,
                )[i2],
    {
        let mut row: Vec<T> = Vec::with_capacity(cols);
        for j in 0..cols
            invariant
                len == src@.len(),
                at.spec_fits(rows as nat, cols as nat, src@.len()),
                i < rows,
                row@.len() == j,
                forall|j2: int| 0 <= j2 < j ==> #[trigger] row@[j2] == src@[at.spec_cell(i as int, j2)],
        {
            let x = at.cell(i, j, rows, cols, len);
            row.push(src[x]);
        }
        assert(row@ =~= spec_gather(src@, *at, rows as nat, cols as nat)[i as int]);
        tile.push(row);
    }
    assert(tile_view(&tile) =~= spec_gather(src@, *at, rows as nat, cols as nat));
    tile
}

/// The tile whose cell `(row, col)` is `col_major[col * rows + row]`.
pub open spec fn spec_load<T>(col_major: Seq<T>, rows: nat, cols: nat) -> Seq<Seq<T>> {
    Seq::new(rows, |i: int| Seq::new(cols, |j: int| col_major[j * rows + i]))
}

/// Loads a `rows` x `cols` tile stored column-major.
pub fn load_tile<T: Copy>(col_major: &[T], rows: usize, cols: usize) -> (tile: Vec<Vec<T>>)
    requires
        rows * cols <= col_major@.len(),
    ensures
        tile_view(&tile) == spec_load(col_major@, rows as nat, cols as nat),
{
    let len = col_major.len();
    let mut tile: Vec<Vec<T>> = Vec::with_capacity(rows);
    for i in 0..rows
        invariant
            len == col_major@.len(),
            rows * cols <= col_major@.len(),
            tile@.len() == i,
            forall|i2: int|
                0 <= i2 < i ==> #[trigger] tile@[i2]@ == spec_load(
                    col_major@,
                    rows as nat,
                    cols as nat,
                )[i2],
    {
        let mut row: Vec<T> = Vec::with_capacity(cols);
        for j in 0..cols
            invariant
                len == col_major@.len(),
                rows * cols <= col_major@.len(),
                i < rows,
                row@.len() == j,
                forall|j2: int|
                    0 <= j2 < j ==> #[trigger] row@[j2] == col_major@[j2 * rows + i],
        {
            proof {
                assert(j * rows + i < rows * cols) by (nonlinear_arith)
                    requires
                        j < cols,
                        i < rows,
                ;
            }
            row.push(col_major[j * rows + i]);
        }
        assert(row@ =~= spec_load(col_major@, rows as nat, cols as nat)[i as int]);
        tile.push(row);
    }
    assert(tile_view(&tile) =~= spec_load(col_major@, rows as nat, cols as nat));
    tile
}

/// The buffer after writing the first `j` cells of `row` as row `i` of a tile, in order.
pub open spec fn spec_store_row<T>(buf: Seq<T>, at: OutputStoreKer, row: Seq<T>, i: int, j: nat) -> Seq<
    T,
>
    decreases j,
{
    if j == 0 {
        buf
    } else {
        spec_store_row(buf, at, row, i, (j - 1) as nat).update(at.spec_cell(i, j - 1), row[j - 1])
    }
}

/// The buffer after writing the first `i` rows of `tile`, row by row and cell by cell.
pub open spec fn spec_store<T>(buf: Seq<T>, at: OutputStoreKer, tile: Seq<Seq<T>>, i: nat) -> Seq<T>
    decreases i,
{
    if i == 0 {
        buf
    } else {
        spec_store_row(
            spec_store(buf, at, tile, (i - 1) as nat),
            at,
            tile[i - 1],
            i - 1,
            tile[i - 1].len(),
        )
    }
}

proof fn lemma_store_row_len<T>(
    buf: Seq<T>,
    at: OutputStoreKer,
    row: Seq<T>,
    i: int,
    j: nat,
    rows: nat,
    cols: nat,
)
    requires
        0 <= i < rows,
        j <= cols,
        at.spec_fits(rows, cols, buf.len()),
    ensures
        spec_store_row(buf, at, row, i, j).len() == buf.len(),
    decreases j,
{
    if j > 0 {
        lemma_store_row_len(buf, at, row, i, (j - 1) as nat, rows, cols);
        assert(0 <= at.spec_cell(i, j - 1) < buf.len());
    }
}

proof fn lemma_store_len<T>(buf: Seq<T>, at: OutputStoreKer, tile: Seq<Seq<T>>, i: nat, rows: nat, cols: nat)
    requires
        i <= rows,
        spec_is_tile(tile, rows, cols),
        at.spec_fits(rows, cols, buf.len()),
    ensures
        spec_store(buf, at, tile, i).len() == buf.len(),
    decreases i,
{
    if i > 0 {
        lemma_store_len(buf, at, tile, (i - 1) as nat, rows, cols);
        lemma_store_row_len(
            spec_store(buf, at, tile, (i - 1) as nat),
            at,
            tile[i - 1],
            i - 1,
            tile[i - 1].len(),
            rows,
            cols,
        );
    }
}

/// Writes a `rows` x `cols` tile into a strided buffer, row by row and cell by cell
/// (where two cells share a position, the later one stays).
pub fn store_tile<T: Copy>(dst: &mut Vec<T>, at: &OutputStoreKer, tile: &Vec<Vec<T>>, rows: usize, cols: usize)
    requires
        spec_is_tile(tile_view(tile), rows as nat, cols as nat),
        at.spec_fits(rows as nat, cols as nat, old(dst)@.len()),
    ensures
        final(dst)@ == spec_store(old(dst)@, *at, tile_view(tile), rows as nat),
{
    let len = dst.len();
    let ghost start = dst@;
    for i in 0..rows
        invariant
            len == dst@.len(),
            len == start.len(),
            spec_is_tile(tile_view(tile), rows as nat, cols as nat),
            at.spec_fits(rows as nat, cols as nat, len as nat),
            dst@ == spec_store(start, *at, tile_view(tile), i as nat),
    {
        let ghost before = dst@;
        assert(tile_view(tile)[i as int].len() == cols);
        for j in 0..cols
            invariant
                len == dst@.len(),
                i < rows,
                spec_is_tile(tile_view(tile), rows as nat, cols as nat),
                at.spec_fits(rows as nat, cols as nat, len as nat),
                before.len() == len,
                dst@ == spec_store_row(before, *at, tile_view(tile)[i as int], i as int, j as nat),
        {
            let x = at.cell(i, j, rows, cols, len);
            proof {
                lemma_store_row_len(before, *at, tile_view(tile)[i as int], i as int, j as nat, rows as nat, cols as nat);
            }
            dst.set(x, tile[i][j]);
        }
        proof {
            lemma_store_len(start, *at, tile_view(tile), i as nat, rows as nat, cols as nat);
        }
    }
}

/// Row step of `lemma_store_writes_tile`.
proof fn lemma_store_row_writes<T>(buf: Seq<T>, at: OutputStoreKer, row: Seq<T>, i: int, j: nat, rows: nat, cols: nat)
    requires
        0 <= i < rows,
        j <= cols,
        at.spec_fits(rows, cols, buf.len()),
        at.spec_distinct_cells(rows, cols),
    ensures
        forall|j2: int| 0 <= j2 < j ==> #[trigger] spec_store_row(buf, at, row, i, j)[at.spec_cell(i, j2)] == row[j2],
        forall|x: int|
            0 <= x < buf.len() && (forall|j2: int| 0 <= j2 < j ==> x != #[trigger] at.spec_cell(i, j2))
                ==> #[trigger] spec_store_row(buf, at, row, i, j)[x] == buf[x],
    decreases j,
{
    lemma_store_row_len(buf, at, row, i, j, rows, cols);
    if j > 0 {
        lemma_store_row_writes(buf, at, row, i, (j - 1) as nat, rows, cols);
        lemma_store_row_len(buf, at, row, i, (j - 1) as nat, rows, cols);
        assert(0 <= at.spec_cell(i, j - 1) < buf.len());
        let prev = spec_store_row(buf, at, row, i, (j - 1) as nat);
        assert forall|j2: int| 0 <= j2 < j implies #[trigger] spec_store_row(buf, at, row, i, j)[at.spec_cell(i, j2)] == row[j2] by {
            if j2 < j - 1 {
                assert(at.spec_cell(i, j2) != at.spec_cell(i, j - 1));
            }
        }
        assert forall|x: int|
            0 <= x < buf.len() && (forall|j2: int| 0 <= j2 < j ==> x != #[trigger] at.spec_cell(i, j2)) implies #[trigger] spec_store_row(
            buf,
            at,
            row,
            i,
            j,
        )[x] == buf[x] by {
            assert(x != at.spec_cell(i, j - 1));
            assert(forall|j2: int| 0 <= j2 < j - 1 ==> x != #[trigger] at.spec_cell(i, j2));
            assert(prev[x] == buf[x]);
        }
    }
}

/// Storing a tile whose cells have distinct buffer positions writes every cell to its
/// position and leaves every other element of the buffer as it was.
pub proof fn lemma_store_writes_tile<T>(
    buf: Seq<T>,
    at: OutputStoreKer,
    tile: Seq<Seq<T>>,
    rows: nat,
    cols: nat,
)
    requires
        spec_is_tile(tile, rows, cols),
        at.spec_fits(rows, cols, buf.len()),
        at.spec_distinct_cells(rows, cols),
    ensures
        spec_store(buf, at, tile, rows).len() == buf.len(),
        forall|i: int, j: int|
            0 <= i < rows && 0 <= j < cols ==> #[trigger] spec_store(buf, at, tile, rows)[at.spec_cell(
                i,
                j,
            )] == tile[i][j],
        forall|x: int|
            0 <= x < buf.len() && (forall|i: int, j: int|
                0 <= i < rows && 0 <= j < cols ==> x != #[trigger] at.spec_cell(i, j))
                ==> #[trigger] spec_store(buf, at, tile, rows)[x] == buf[x],
{
    lemma_store_prefix(buf, at, tile, rows, rows, cols);
}

proof fn lemma_store_prefix<T>(
    buf: Seq<T>,
    at: OutputStoreKer,
    tile: Seq<Seq<T>>,
    n: nat,
    rows: nat,
    cols: nat,
)
    requires
        n <= rows,
        spec_is_tile(tile, rows, cols),
        at.spec_fits(rows, cols, buf.len()),
        at.spec_distinct_cells(rows, cols),
    ensures
        spec_store(buf, at, tile, n).len() == buf.len(),
        forall|i: int, j: int|
            0 <= i < n && 0 <= j < cols ==> #[trigger] spec_store(buf, at, tile, n)[at.spec_cell(
                i,
                j,
            )] == tile[i][j],
        forall|x: int|
            0 <= x < buf.len() && (forall|i: int, j: int|
                0 <= i < n && 0 <= j < cols ==> x != #[trigger] at.spec_cell(i, j))
                ==> #[trigger] spec_store(buf, at, tile, n)[x] == buf[x],
    decreases n,
{
    lemma_store_len(buf, at, tile, n, rows, cols);
    if n > 0 {
        let m = (n - 1) as nat;
        lemma_store_prefix(buf, at, tile, m, rows, cols);
        let prev = spec_store(buf, at, tile, m);
        lemma_store_len(buf, at, tile, m, rows, cols);
        assert(tile[m as int].len() == cols);
        lemma_store_row_writes(prev, at, tile[m as int], m as int, cols, rows, cols);
        assert forall|i: int, j: int| 0 <= i < n && 0 <= j < cols implies #[trigger] spec_store(
            buf,
            at,
            tile,
            n,
        )[at.spec_cell(i, j)] == tile[i][j] by {
            if i < m {
                assert(0 <= at.spec_cell(i, j) < buf.len());
                assert forall|j2: int| 0 <= j2 < cols implies at.spec_cell(i, j) != #[trigger] at.spec_cell(
                    m as int,
                    j2,
                ) by {}
                assert(prev[at.spec_cell(i, j)] == tile[i][j]);
            }
        }
        assert forall|x: int|
            0 <= x < buf.len() && (forall|i: int, j: int|
                0 <= i < n && 0 <= j < cols ==> x != #[trigger] at.spec_cell(i, j)) implies #[trigger] spec_store(
            buf,
            at,
            tile,
            n,
        )[x] == buf[x] by {
            assert(forall|j2: int| 0 <= j2 < cols ==> x != #[trigger] at.spec_cell(m as int, j2));
            assert(forall|i: int, j: int|
                0 <= i < m && 0 <= j < cols ==> x != #[trigger] at.spec_cell(i, j));
            assert(prev[x] == buf[x]);
        }
    }
}

/// Reading a tile back from where it was stored gives the tile, when its cells have
/// distinct buffer positions.
pub proof fn lemma_gather_after_store<T>(
    buf: Seq<T>,
    at: OutputStoreKer,
    tile: Seq<Seq<T>>,
    rows: nat,
    cols: nat,
)
    requires
        spec_is_tile(tile, rows, cols),
        at.spec_fits(rows, cols, buf.len()),
        at.spec_distinct_cells(rows, cols),
    ensures
        spec_gather(spec_store(buf, at, tile, rows), at, rows, cols) == tile,
{
    lemma_store_writes_tile(buf, at, tile, rows, cols);
    let g = spec_gather(spec_store(buf, at, tile, rows), at, rows, cols);
    assert forall|i: int| 0 <= i < rows implies #[trigger] g[i] == tile[i] by {
        assert(g[i] =~= tile[i]);
    }
    assert(g =~= tile);
}

/// `pa` holds a `k` x `rows` panel row-major (`pa[ik * rows + i]`); the result holds
/// its transpose, `rows` x `k` row-major.
pub open spec fn spec_transpose<T>(pa: Seq<T>, rows: nat, k: nat) -> Seq<T> {
    Seq::new(rows * k, |x: int| pa[(x % (k as int)) * rows + x / (k as int)])
}

/// Transposes a k-major packed panel into a row-major `rows` x `k` buffer:
/// `out[i * k + ik] = pa[ik * rows + i]`.
pub fn transpose_panel<T: Copy>(pa: &[T], rows: usize, k: usize) -> (out: Vec<T>)
    requires
        rows * k <= pa@.len(),
    ensures
        out@ == spec_transpose(pa@, rows as nat, k as nat),
        forall|i: int, ik: int|
            0 <= i < rows && 0 <= ik < k ==> #[trigger] out@[i * k + ik] == pa@[ik * rows + i],
{
    let len = pa.len();
    let ghost ki = k as int;
    let mut out: Vec<T> = Vec::with_capacity(rows * k);
    assert(0 * ki == 0);
    for i in 0..rows
        invariant
            len == pa@.len(),
            rows * k <= pa@.len(),
            ki == k,
            out@.len() == i * ki,
            forall|x: int|
                0 <= x < out@.len() ==> #[trigger] out@[x] == pa@[(x % ki) * rows + x / ki],
    {
        for ik in 0..k
            invariant
                len == pa@.len(),
                rows * k <= pa@.len(),
                ki == k,
                i < rows,
                out@.len() == i * ki + ik,
                forall|x: int|
                    0 <= x < out@.len() ==> #[trigger] out@[x] == pa@[(x % ki) * rows + x / ki],
        {
            proof {
                crate::geometry::lemma_split_index(i as int, ik as int, ki);
                assert(ik * rows + i < rows * k) by (nonlinear_arith)
                    requires
                        ik < k,
                        i < rows,
                ;
            }
            out.push(pa[ik * rows + i]);
        }
        proof {
            assert(i * ki + ki == (i + 1) * ki) by (nonlinear_arith);
        }
    }
    assert(out@ =~= spec_transpose(pa@, rows as nat, k as nat));
    assert forall|i: int, ik: int| 0 <= i < rows && 0 <= ik < k implies #[trigger] out@[i * k + ik]
        == pa@[ik * rows + i] by {
        crate::geometry::lemma_split_index(i, ik, ki);
        crate::geometry::lemma_index_below(i, ik, rows as int, ki);
    }
    out
}

/// `src` holds `n_rows` rows of `k` cells; the result holds the same rows widened to
/// `kp` cells, the extra cells set to `zero`.
pub open spec fn spec_pad_rows<T>(src: Seq<T>, n_rows: nat, k: nat, kp: nat, zero: T) -> Seq<T> {
    Seq::new(
        n_rows * kp,
        |x: int|
            if x % (kp as int) < k {
                src[(x / (kp as int)) * k + x % (kp as int)]
            } else {
                zero
            },
    )
}

/// Widens each of `n_rows` rows of `k` cells to `kp` cells, padding with `zero`:
/// `out[i * kp + kk]` is `src[i * k + kk]` for `kk < k`, else `zero`.
pub fn pad_rows<T: Copy>(src: &[T], n_rows: usize, k: usize, kp: usize, zero: T) -> (out: Vec<T>)
    requires
        k <= kp,
        n_rows * k <= src@.len(),
        n_rows * kp <= usize::MAX,
    ensures
        out@ == spec_pad_rows(src@, n_rows as nat, k as nat, kp as nat, zero),
        forall|i: int, kk: int|
            0 <= i < n_rows && 0 <= kk < kp ==> #[trigger] out@[i * kp + kk] == if kk < k {
                src@[i * k + kk]
            } else {
                zero
            },
{
    let len = src.len();
    let ghost kpi = kp as int;
    let mut out: Vec<T> = Vec::with_capacity(n_rows * kp);
    assert(0 * kpi == 0);
    for i in 0..n_rows
        invariant
            len == src@.len(),
            k <= kp,
            n_rows * k <= src@.len(),
            n_rows * kp <= usize::MAX,
            kpi == kp,
            out@.len() == i * kpi,
            forall|x: int|
                0 <= x < out@.len() ==> #[trigger] out@[x] == if x % kpi < k {
                    src@[(x / kpi) * k + x % kpi]
                } else {
                    zero
                },
    {
        for kk in 0..kp
            invariant
                len == src@.len(),
                k <= kp,
                n_rows * k <= src@.len(),
                n_rows * kp <= usize::MAX,
                kpi == kp,
                i < n_rows,
                out@.len() == i * kpi + kk,
                forall|x: int|
                    0 <= x < out@.len() ==> #[trigger] out@[x] == if x % kpi < k {
                        src@[(x / kpi) * k + x % kpi]
                    } else {
                        zero
                    },
        {
            proof {
                crate::geometry::lemma_split_index(i as int, kk as int, kpi);
                crate::geometry::lemma_index_below(i as int, kk as int, n_rows as int, kpi);
            }
            let v = if kk < k {
                proof {
                    crate::geometry::lemma_index_below(i as int, kk as int, n_rows as int, k as int);
                }
                src[i * k + kk]
            } else {
                zero
            };
            out.push(v);
        }
        proof {
            assert(i * kpi + kpi == (i + 1) * kpi) by (nonlinear_arith);
        }
    }
    assert(out@ =~= spec_pad_rows(src@, n_rows as nat, k as nat, kp as nat, zero));
    assert forall|i: int, kk: int| 0 <= i < n_rows && 0 <= kk < kp implies #[trigger] out@[i * kp
        + kk] == if kk < k {
        src@[i * k + kk]
    } else {
        zero
    } by {
        crate::geometry::lemma_split_index(i, kk, kpi);
        crate::geometry::lemma_index_below(i, kk, n_rows as int, kpi);
    }
    out
}

/// Replaces every cell `c` of the tile with `f(m, c)`.
pub fn map_scalar<T: Copy, F: Fn(T, T) -> T>(tile: &Vec<Vec<T>>, m: T, f: F) -> (out: Vec<Vec<T>>)
    requires
        forall|a: T, b: T| call_requires(f, (a, b)),
    ensures
        out@.len() == tile@.len(),
        forall|i: int| 0 <= i < tile@.len() ==> #[trigger] out@[i]@.len() == tile@[i]@.len(),
        forall|i: int, j: int|
            0 <= i < tile@.len() && 0 <= j < tile@[i]@.len() ==> call_ensures(f, (m, tile@[i]@[j]), #[trigger] out@[i]@[j]),
{
    let mut out: Vec<Vec<T>> = Vec::with_capacity(tile.len());
    for i in 0..tile.len()
        invariant
            forall|a: T, b: T| call_requires(f, (a, b)),
            out@.len() == i,
            forall|i2: int| 0 <= i2 < i ==> #[trigger] out@[i2]@.len() == tile@[i2]@.len(),
            forall|i2: int, j: int|
                0 <= i2 < i && 0 <= j < tile@[i2]@.len() ==> call_ensures(f, (m, tile@[i2]@[j]), #[trigger] out@[i2]@[j]),
    {
        let src = &tile[i];
        let mut row: Vec<T> = Vec::with_capacity(src.len());
        for j in 0..src.len()
            invariant
                forall|a: T, b: T| call_requires(f, (a, b)),
                i < tile@.len(),
                src@ == tile@[i as int]@,
                row@.len() == j,
                forall|j2: int| 0 <= j2 < j ==> call_ensures(f, (m, tile@[i as int]@[j2]), #[trigger] row@[j2]),
        {
            let v = f(m, src[j]);
            row.push(v);
        }
        out.push(row);
    }
    out
}

/// Replaces cell `c` of row `i` with `f(m[i], c)`.
pub fn map_per_row<T: Copy, F: Fn(T, T) -> T>(tile: &Vec<Vec<T>>, m: &[T], f: F) -> (out: Vec<Vec<T>>)
    requires
        forall|a: T, b: T| call_requires(f, (a, b)),
        tile@.len() <= m@.len(),
    ensures
        out@.len() == tile@.len(),
        forall|i: int| 0 <= i < tile@.len() ==> #[trigger] out@[i]@.len() == tile@[i]@.len(),
        forall|i: int, j: int|
            0 <= i < tile@.len() && 0 <= j < tile@[i]@.len() ==> call_ensures(f, (m@[i], tile@[i]@[j]), #[trigger] out@[i]@[j]),
{
    let mut out: Vec<Vec<T>> = Vec::with_capacity(tile.len());
    for i in 0..tile.len()
        invariant
            forall|a: T, b: T| call_requires(f, (a, b)),
            tile@.len() <= m@.len(),
            out@.len() == i,
            forall|i2: int| 0 <= i2 < i ==> #[trigger] out@[i2]@.len() == tile@[i2]@.len(),
            forall|i2: int, j: int|
                0 <= i2 < i && 0 <= j < tile@[i2]@.len() ==> call_ensures(f, (m@[i2], tile@[i2]@[j]), #[trigger] out@[i2]@[j]),
    {
        let src = &tile[i];
        let mut row: Vec<T> = Vec::with_capacity(src.len());
        for j in 0..src.len()
            invariant
                forall|a: T, b: T| call_requires(f, (a, b)),
                tile@.len() <= m@.len(),
                i < tile@.len(),
                src@ == tile@[i as int]@,
                row@.len() == j,
                forall|j2: int| 0 <= j2 < j ==> call_ensures(f, (m@[i as int], tile@[i as int]@[j2]), #[trigger] row@[j2]),
        {
            let v = f(m[i], src[j]);
            row.push(v);
        }
        out.push(row);
    }
    out
}

/// Replaces cell `c` of column `j` with `f(m[j], c)`.
pub fn map_per_col<T: Copy, F: Fn(T, T) -> T>(tile: &Vec<Vec<T>>, m: &[T], f: F) -> (out: Vec<Vec<T>>)
    requires
        forall|a: T, b: T| call_requires(f, (a, b)),
        forall|i: int| 0 <= i < tile@.len() ==> #[trigger] tile@[i]@.len() <= m@.len(),
    ensures
        out@.len() == tile@.len(),
        forall|i: int| 0 <= i < tile@.len() ==> #[trigger] out@[i]@.len() == tile@[i]@.len(),
        forall|i: int, j: int|
            0 <= i < tile@.len() && 0 <= j < tile@[i]@.len() ==> call_ensures(f, (m@[j], tile@[i]@[j]), #[trigger] out@[i]@[j]),
{
    let mut out: Vec<Vec<T>> = Vec::with_capacity(tile.len());
    for i in 0..tile.len()
        invariant
            forall|a: T, b: T| call_requires(f, (a, b)),
            forall|i: int| 0 <= i < tile@.len() ==> #[trigger] tile@[i]@.len() <= m@.len(),
            out@.len() == i,
            forall|i2: int| 0 <= i2 < i ==> #[trigger] out@[i2]@.len() == tile@[i2]@.len(),
            forall|i2: int, j: int|
                0 <= i2 < i && 0 <= j < tile@[i2]@.len() ==> call_ensures(f, (m@[j], tile@[i2]@[j]), #[trigger] out@[i2]@[j]),
    {
        let src = &tile[i];
        let mut row: Vec<T> = Vec::with_capacity(src.len());
        for j in 0..src.len()
            invariant
                forall|a: T, b: T| call_requires(f, (a, b)),
                forall|i: int| 0 <= i < tile@.len() ==> #[trigger] tile@[i]@.len() <= m@.len(),
                i < tile@.len(),
                src@ == tile@[i as int]@,
                row@.len() == j,
                forall|j2: int| 0 <= j2 < j ==> call_ensures(f, (m@[j2], tile@[i as int]@[j2]), #[trigger] row@[j2]),
        {
            let v = f(m[j], src[j]);
            row.push(v);
        }
        out.push(row);
    }
    out
}

/// Replaces cell `c` at `(i, j)` with `f(c, other[i][j])`.
pub fn zip_tiles<T: Copy, F: Fn(T, T) -> T>(tile: &Vec<Vec<T>>, other: &Vec<Vec<T>>, f: F) -> (out: Vec<Vec<T>>)
    requires
        forall|a: T, b: T| call_requires(f, (a, b)),
        other@.len() == tile@.len(),
        forall|i: int| 0 <= i < tile@.len() ==> #[trigger] other@[i]@.len() == tile@[i]@.len(),
    ensures
        out@.len() == tile@.len(),
        forall|i: int| 0 <= i < tile@.len() ==> #[trigger] out@[i]@.len() == tile@[i]@.len(),
        forall|i: int, j: int|
            0 <= i < tile@.len() && 0 <= j < tile@[i]@.len() ==> call_ensures(f, (tile@[i]@[j], other@[i]@[j]), #[trigger] out@[i]@[j]),
{
    let mut out: Vec<Vec<T>> = Vec::with_capacity(tile.len());
    for i in 0..tile.len()
        invariant
            forall|a: T, b: T| call_requires(f, (a, b)),
            other@.len() == tile@.len(),
            forall|i: int| 0 <= i < tile@.len() ==> #[trigger] other@[i]@.len() == tile@[i]@.len(),
            out@.len() == i,
            forall|i2: int| 0 <= i2 < i ==> #[trigger] out@[i2]@.len() == tile@[i2]@.len(),
            forall|i2: int, j: int|
                0 <= i2 < i && 0 <= j < tile@[i2]@.len() ==> call_ensures(f, (tile@[i2]@[j], other@[i2]@[j]), #[trigger] out@[i2]@[j]),
    {
        let src = &tile[i];
        let mut row: Vec<T> = Vec::with_capacity(src.len());
        for j in 0..src.len()
            invariant
                forall|a: T, b: T| call_requires(f, (a, b)),
                other@.len() == tile@.len(),
                forall|i: int| 0 <= i < tile@.len() ==> #[trigger] other@[i]@.len() == tile@[i]@.len(),
                i < tile@.len(),
                src@ == tile@[i as int]@,
                row@.len() == j,
                forall|j2: int| 0 <= j2 < j ==> call_ensures(f, (tile@[i as int]@[j2], other@[i as int]@[j2]), #[trigger] row@[j2]),
        {
            let v = f(src[j], other[i][j]);
            row.push(v);
        }
        out.push(row);
    }
    out
}

/// Replaces cell `c` at `(i, j)` with `f(c, rows[i], cols[j])`.
pub fn map_row_col<T: Copy, F: Fn(T, T, T) -> T>(tile: &Vec<Vec<T>>, row_factors: &[T], col_factors: &[T], f: F) -> (out: Vec<Vec<T>>)
    requires
        forall|a: T, b: T, c: T| call_requires(f, (a, b, c)),
        tile@.len() <= row_factors@.len(),
        forall|i: int| 0 <= i < tile@.len() ==> #[trigger] tile@[i]@.len() <= col_factors@.len(),
    ensures
        out@.len() == tile@.len(),
        forall|i: int| 0 <= i < tile@.len() ==> #[trigger] out@[i]@.len() == tile@[i]@.len(),
        forall|i: int, j: int|
            0 <= i < tile@.len() && 0 <= j < tile@[i]@.len() ==> call_ensures(f, (tile@[i]@[j], row_factors@[i], col_factors@[j]), #[trigger] out@[i]@[j]),
{
    let mut out: Vec<Vec<T>> = Vec::with_capacity(tile.len());
    for i in 0..tile.len()
        invariant
            forall|a: T, b: T, c: T| call_requires(f, (a, b, c)),
            tile@.len() <= row_factors@.len(),
            forall|i: int| 0 <= i < tile@.len() ==> #[trigger] tile@[i]@.len() <= col_factors@.len(),
            out@.len() == i,
            forall|i2: int| 0 <= i2 < i ==> #[trigger] out@[i2]@.len() == tile@[i2]@.len(),
            forall|i2: int, j: int|
                0 <= i2 < i && 0 <= j < tile@[i2]@.len() ==> call_ensures(f, (tile@[i2]@[j], row_factors@[i2], col_factors@[j]), #[trigger] out@[i2]@[j]),
    {
        let src = &tile[i];
        let mut row: Vec<T> = Vec::with_capacity(src.len());
        for j in 0..src.len()
            invariant
                forall|a: T, b: T, c: T| call_requires(f, (a, b, c)),
                tile@.len() <= row_factors@.len(),
                forall|i: int| 0 <= i < tile@.len() ==> #[trigger] tile@[i]@.len() <= col_factors@.len(),
                i < tile@.len(),
                src@ == tile@[i as int]@,
                row@.len() == j,
                forall|j2: int| 0 <= j2 < j ==> call_ensures(f, (tile@[i as int]@[j2], row_factors@[i as int], col_factors@[j2]), #[trigger] row@[j2]),
        {
            let v = f(src[j], row_factors[i], col_factors[j]);
            row.push(v);
        }
        out.push(row);
    }
    out
}

fn zip_row_strided<T: Copy, F: Fn(T, T) -> T>(
    row: &mut Vec<T>,
    src: &[T],
    at: &OutputStoreKer,
    i: usize,
    rows: usize,
    cols: usize,
    f: &F,
)
    requires
        forall|a: T, b: T| call_requires(*f, (a, b)),
        old(row)@.len() == cols,
        i < rows,
        at.spec_fits(rows as nat, cols as nat, src@.len()),
    ensures
        final(row)@.len() == cols,
        forall|j: int|
            0 <= j < cols ==> call_ensures(
                *f,
                (old(row)@[j], src@[at.spec_cell(i as int, j)]),
                #[trigger] final(row)@[j],
            ),
{
    let len = src.len();
    let ghost start = row@;
    for j in 0..cols
        invariant
            forall|a: T, b: T| call_requires(*f, (a, b)),
            len == src@.len(),
            i < rows,
            at.spec_fits(rows as nat, cols as nat, src@.len()),
            row@.len() == cols,
            start.len() == cols,
            forall|j2: int| j <= j2 < cols ==> #[trigger] row@[j2] == start[j2],
            forall|j2: int|
                0 <= j2 < j ==> call_ensures(
                    *f,
                    (start[j2], src@[at.spec_cell(i as int, j2)]),
                    #[trigger] row@[j2],
                ),
    {
        let x = at.cell(i, j, rows, cols, len);
        let v = f(row[j], src[x]);
        row.set(j, v);
    }
}

/// Replaces cell `c` at `(i, j)` of the tile with `f(c, src[position of (i, j)])`, in
/// place: the tile's own storage is updated and nothing is allocated.
pub fn zip_strided<T: Copy, F: Fn(T, T) -> T>(
    tile: &mut Vec<Vec<T>>,
    src: &[T],
    at: &OutputStoreKer,
    rows: usize,
    cols: usize,
    f: F,
)
    requires
        forall|a: T, b: T| call_requires(f, (a, b)),
        spec_is_tile(tile_view(old(tile)), rows as nat, cols as nat),
        at.spec_fits(rows as nat, cols as nat, src@.len()),
    ensures
        spec_is_tile(tile_view(final(tile)), rows as nat, cols as nat),
        forall|i: int, j: int|
            0 <= i < rows && 0 <= j < cols ==> call_ensures(
                f,
                (old(tile)@[i]@[j], src@[at.spec_cell(i, j)]),
                #[trigger] final(tile)@[i]@[j],
            ),
{
    let ghost start = tile@;
    assert forall|i2: int| 0 <= i2 < rows implies #[trigger] start[i2]@.len() == cols by {
        assert(tile_view(tile)[i2] == start[i2]@);
    }
    for i in 0..rows
        invariant
            forall|a: T, b: T| call_requires(f, (a, b)),
            at.spec_fits(rows as nat, cols as nat, src@.len()),
            start.len() == rows,
            forall|i2: int| 0 <= i2 < rows ==> #[trigger] start[i2]@.len() == cols,
            tile@.len() == rows,
            forall|i2: int| 0 <= i2 < rows ==> #[trigger] tile@[i2]@.len() == cols,
            forall|i2: int| i <= i2 < rows ==> #[trigger] tile@[i2] == start[i2],
            forall|i2: int, j: int|
                0 <= i2 < i && 0 <= j < cols ==> call_ensures(
                    f,
                    (start[i2]@[j], src@[at.spec_cell(i2, j)]),
                    #[trigger] tile@[i2]@[j],
                ),
    {
        zip_row_strided(&mut tile[i], src, at, i, rows, cols, &f);
    }
    assert forall|i2: int| 0 <= i2 < rows implies #[trigger] tile_view(tile)[i2].len() == cols by {
        assert(tile_view(tile)[i2] == tile@[i2]@);
    }
}

} // verus!
