use vstd::prelude::*;
use vstd::arithmetic::div_mod::{lemma_fundamental_div_mod, lemma_fundamental_div_mod_converse};

verus! {

/// Whether cell (row, col) of a grid of `unit`-byte cells (one or two bytes,
/// `cols` cells per row) differs between frames `a` and `b`.
pub open spec fn cell_changed(a: Seq<u8>, b: Seq<u8>, cols: int, unit: int, row: int, col: int) -> bool {
    let i = (row * cols + col) * unit;
    a[i] != b[i] || (unit == 2 && a[i + 1] != b[i + 1])
}

/// Whether any cell of the grid differs.
pub open spec fn any_cell_changed(a: Seq<u8>, b: Seq<u8>, rows: int, cols: int, unit: int) -> bool {
    exists|r: int, c: int| 0 <= r < rows && 0 <= c < cols && #[trigger] cell_changed(a, b, cols, unit, r, c)
}

/// Whether `bounds` = (first column, last column, first row, last row) is the
/// smallest cell rectangle that holds every changed cell: it holds them all,
/// and each of its four edges holds one. No bounds means no change.
pub open spec fn is_change_bounds(
    a: Seq<u8>,
    b: Seq<u8>,
    rows: int,
    cols: int,
    unit: int,
    bounds: Option<(usize, usize, usize, usize)>,
) -> bool {
    match bounds {
        None => !any_cell_changed(a, b, rows, cols, unit),
        Some((c0, c1, r0, r1)) => {
            &&& c0 <= c1 < cols
            &&& r0 <= r1 < rows
            &&& forall|r: int, c: int|
                0 <= r < rows && 0 <= c < cols && #[trigger] cell_changed(a, b, cols, unit, r, c)
                    ==> c0 <= c <= c1 && r0 <= r <= r1
            &&& exists|r: int| 0 <= r < rows && #[trigger] cell_changed(a, b, cols, unit, r, c0 as int)
            &&& exists|r: int| 0 <= r < rows && #[trigger] cell_changed(a, b, cols, unit, r, c1 as int)
            &&& exists|c: int| 0 <= c < cols && #[trigger] cell_changed(a, b, cols, unit, r0 as int, c)
            &&& exists|c: int| 0 <= c < cols && #[trigger] cell_changed(a, b, cols, unit, r1 as int, c)
        },
    }
}

/// Whether, scanning rows in order, cell (r, c) comes before (rr, cc).
pub open spec fn scanned_before(r: int, c: int, rr: int, cc: int) -> bool {
    r < rr || (r == rr && c < cc)
}

proof fn lemma_cell_in_frame(rows: int, cols: int, unit: int, r: int, c: int)
    requires
        0 <= r < rows,
        0 <= c < cols,
        1 <= unit <= 2,
    ensures
        0 <= (r * cols + c) * unit,
        (r * cols + c) * unit + unit <= rows * cols * unit,
{
    assert(0 <= r * cols + c < rows * cols) by (nonlinear_arith)
        requires
            0 <= r < rows,
            0 <= c < cols,
    ;
    assert((r * cols + c) * unit + unit <= rows * cols * unit && 0 <= (r * cols + c) * unit)
        by (nonlinear_arith)
        requires
            0 <= r * cols + c < rows * cols,
            1 <= unit,
    ;
}

/// Frames without a changed cell are equal.
pub proof fn lemma_unchanged_frames_equal(a: Seq<u8>, b: Seq<u8>, rows: int, cols: int, unit: int)
    requires
        0 < cols,
        1 <= unit <= 2,
        a.len() == rows * cols * unit,
        b.len() == a.len(),
        !any_cell_changed(a, b, rows, cols, unit),
    ensures
        a == b,
{
    assert forall|i: int| 0 <= i < a.len() implies a[i] == b[i] by {
        let p = i / unit;
        let k = i % unit;
        lemma_fundamental_div_mod(i, unit);
        let r = p / cols;
        let c = p % cols;
        lemma_fundamental_div_mod(p, cols);
        assert(0 <= p) by (nonlinear_arith)
            requires
                0 <= i,
                1 <= unit,
                p == i / unit,
        ;
        assert(0 <= r) by (nonlinear_arith)
            requires
                0 <= p,
                0 < cols,
                r == p / cols,
        ;
        assert(p * unit <= i) by (nonlinear_arith)
            requires
                i == unit * p + k,
                0 <= k,
                1 <= unit,
        ;
        assert(p < rows * cols) by (nonlinear_arith)
            requires
                p * unit <= i,
                i < rows * cols * unit,
                1 <= unit,
        ;
        assert(r < rows) by (nonlinear_arith)
            requires
                p == cols * r + c,
                0 <= c,
                p < rows * cols,
                0 < cols,
        ;
        assert(p == r * cols + c) by (nonlinear_arith)
            requires
                p == cols * r + c,
        ;
        assert(i == p * unit + k) by (nonlinear_arith)
            requires
                i == unit * p + k,
        ;
        assert(!cell_changed(a, b, cols, unit, r, c));
        if unit == 1 {
            assert(k == 0);
        } else {
            assert(k == 0 || k == 1);
        }
    }
    assert(a =~= b);
}

/// Scans two frames, laid out as `rows` x `cols` cells of `unit` bytes, for
/// the smallest rectangle of cells that holds every difference.
pub fn change_bounds(a: &[u8], b: &[u8], rows: usize, cols: usize, unit: usize) -> (r: Option<
    (usize, usize, usize, usize),
>)
    requires
        1 <= unit <= 2,
        0 < rows,
        0 < cols,
        a@.len() == rows * cols * unit,
        b@.len() == a@.len(),
    ensures
        is_change_bounds(a@, b@, rows as int, cols as int, unit as int, r),
{
    let len = a.len();
    let mut found = false;
    let mut c0: usize = 0;
    let mut c1: usize = 0;
    let mut r0: usize = 0;
    let mut r1: usize = 0;
    let ghost mut w0: int = 0;
    let ghost mut w1: int = 0;
    let ghost mut v0: int = 0;
    let ghost mut v1: int = 0;
    let mut row: usize = 0;
    while row < rows
        invariant
            row <= rows,
            1 <= unit <= 2,
            0 < rows,
            0 < cols,
            a@.len() == len,
            a@.len() == rows * cols * unit,
            b@.len() == a@.len(),
            !found ==> forall|r: int, c: int|
                0 <= r < row && 0 <= c < cols ==> !#[trigger] cell_changed(
                    a@,
                    b@,
                    cols as int,
                    unit as int,
                    r,
                    c,
                ),
            found ==> {
                &&& c0 <= c1 < cols
                &&& r0 <= r1 < row
                &&& forall|r: int, c: int|
                    0 <= r < row && 0 <= c < cols && #[trigger] cell_changed(
                        a@,
                        b@,
                        cols as int,
                        unit as int,
                        r,
                        c,
                    ) ==> c0 <= c <= c1 && r0 <= r <= r1
                &&& 0 <= w0 < row && cell_changed(a@, b@, cols as int, unit as int, w0, c0 as int)
                &&& 0 <= w1 < row && cell_changed(a@, b@, cols as int, unit as int, w1, c1 as int)
                &&& 0 <= v0 < cols && cell_changed(a@, b@, cols as int, unit as int, r0 as int, v0)
                &&& 0 <= v1 < cols && cell_changed(a@, b@, cols as int, unit as int, r1 as int, v1)
            },
        decreases rows - row,
    {
        for col in 0..cols
            invariant
                1 <= unit <= 2,
                0 < rows,
                0 < cols,
                a@.len() == len,
                row < rows,
                a@.len() == rows * cols * unit,
                b@.len() == a@.len(),
                !found ==> forall|r: int, c: int|
                    0 <= r < rows && 0 <= c < cols && scanned_before(r, c, row as int, col as int)
                        ==> !#[trigger] cell_changed(a@, b@, cols as int, unit as int, r, c),
                found ==> {
                    &&& c0 <= c1 < cols
                    &&& r0 <= r1 <= row
                    &&& forall|r: int, c: int|
                        0 <= r < rows && 0 <= c < cols && scanned_before(
                            r,
                            c,
                            row as int,
                            col as int,
                        ) && #[trigger] cell_changed(a@, b@, cols as int, unit as int, r, c) ==> c0
                            <= c <= c1 && r0 <= r <= r1
                    &&& 0 <= w0 <= row && cell_changed(
                        a@,
                        b@,
                        cols as int,
                        unit as int,
                        w0,
                        c0 as int,
                    )
                    &&& 0 <= w1 <= row && cell_changed(
                        a@,
                        b@,
                        cols as int,
                        unit as int,
                        w1,
                        c1 as int,
                    )
                    &&& 0 <= v0 < cols && cell_changed(
                        a@,
                        b@,
                        cols as int,
                        unit as int,
                        r0 as int,
                        v0,
                    )
                    &&& 0 <= v1 < cols && cell_changed(
                        a@,
                        b@,
                        cols as int,
                        unit as int,
                        r1 as int,
                        v1,
                    )
                    &&& scanned_before(w0, c0 as int, row as int, col as int)
                    &&& scanned_before(w1, c1 as int, row as int, col as int)
                    &&& scanned_before(r1 as int, v1, row as int, col as int)
                },
        {
            proof {
                lemma_cell_in_frame(rows as int, cols as int, unit as int, row as int, col as int);
                assert(0 <= row * cols <= row * cols + col <= (row * cols + col) * unit)
                    by (nonlinear_arith)
                    requires
                        0 <= row,
                        0 <= col,
                        0 < cols,
                        1 <= unit,
                ;
            }
            let i = (row * cols + col) * unit;
            let changed = a[i] != b[i] || (unit == 2 && a[i + 1] != b[i + 1]);
            if changed {
                if !found {
                    found = true;
                    c0 = col;
                    c1 = col;
                    r0 = row;
                    r1 = row;
                    proof {
                        w0 = row as int;
                        w1 = row as int;
                        v0 = col as int;
                        v1 = col as int;
                    }
                } else {
                    if col < c0 {
                        c0 = col;
                        proof {
                            w0 = row as int;
                        }
                    }
                    if col > c1 {
                        c1 = col;
                        proof {
                            w1 = row as int;
                        }
                    }
                    if row > r1 {
                        r1 = row;
                        proof {
                            v1 = col as int;
                        }
                    }
                }
            }
        }
        row = row + 1;
    }
    if found {
        proof {
            assert(cell_changed(a@, b@, cols as int, unit as int, w0, c0 as int));
            assert(cell_changed(a@, b@, cols as int, unit as int, w1, c1 as int));
            assert(cell_changed(a@, b@, cols as int, unit as int, r0 as int, v0));
            assert(cell_changed(a@, b@, cols as int, unit as int, r1 as int, v1));
        }
        Some((c0, c1, r0, r1))
    } else {
        proof {
            if any_cell_changed(a@, b@, rows as int, cols as int, unit as int) {
                let (r, c) = choose|r: int, c: int|
                    0 <= r < rows && 0 <= c < cols && #[trigger] cell_changed(
                        a@,
                        b@,
                        cols as int,
                        unit as int,
                        r,
                        c,
                    );
                assert(!cell_changed(a@, b@, cols as int, unit as int, r, c));
            }
        }
        None
    }
}

} // verus!
