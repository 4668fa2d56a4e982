use vstd::prelude::*;

verus! {

/// A coverage value meaning "the whole square": coverages are counted in
/// ten-thousandths of the square's area.
pub const COVERAGE_FULL: u32 = 10000;

/// Number of sample points along each side of the sampling grid; the grid has
/// exactly `COVERAGE_FULL` points.
pub const SAMPLES_PER_DIM: i64 = 100;

/// Sub-units in one pixel (image space) or one point (screen space).
pub const SUB: i64 = 256;

/// Largest magnitude of a coordinate, radius or side length handed to the
/// intersection functions.
pub const GEOMETRY_LIMIT: i64 = 268435456;

/// Rational approximation of pi used for a circle lying inside the square.
pub const PI_NUM: i128 = 355;

pub const PI_DEN: i128 = 113;

/// `v` held to `[lo, hi]`.
pub open spec fn clamp_spec(v: int, lo: int, hi: int) -> int {
    if v < lo {
        lo
    } else if v > hi {
        hi
    } else {
        v
    }
}

pub open spec fn in_limit(v: int) -> bool {
    -GEOMETRY_LIMIT <= v <= GEOMETRY_LIMIT
}

/// Linear interpolation from `a` (fraction 0) to `b` (fraction `COVERAGE_FULL`),
/// rounded to the nearest integer, halves upwards.
pub open spec fn lerp_spec(fraction: int, a: int, b: int) -> int {
    ((COVERAGE_FULL - fraction) * a + fraction * b + COVERAGE_FULL / 2) / (COVERAGE_FULL as int)
}

pub open spec fn dist_sq_spec(x1: int, y1: int, x2: int, y2: int) -> int {
    (x1 - x2) * (x1 - x2) + (y1 - y2) * (y1 - y2)
}

/// `a = 2r² + s² − 2d²`, the quantity on which the two distance tests turn.
pub open spec fn distance_slack(d2: int, r: int, s: int) -> int {
    2 * (r * r) + s * s - 2 * d2
}

/// `d² ≤ (r − s·√2/2)²`, written without the square root: with
/// `a = 2r² + s² − 2d²` it is `2√2·r·s ≤ a`, which for `r, s ≥ 0` is
/// `a ≥ 0 ∧ 8r²s² ≤ a²`. When it holds the square lies inside the circle.
pub open spec fn square_inside_circle(d2: int, r: int, s: int) -> bool {
    let a = distance_slack(d2, r, s);
    a >= 0 && 8 * (r * r) * (s * s) <= a * a
}

/// `d² ≥ (r + s·√2/2)²`, that is `a ≤ −2√2·r·s`, or `a ≤ 0 ∧ 8r²s² ≤ a²`.
/// When it holds the circle and the square do not meet.
pub open spec fn circle_apart_from_square(d2: int, r: int, s: int) -> bool {
    let a = distance_slack(d2, r, s);
    a <= 0 && 8 * (r * r) * (s * s) <= a * a
}

/// The circle's bounding box lies inside the square (all sides doubled so
/// that the half side stays an integer).
pub open spec fn circle_inside_square(cx: int, cy: int, r: int, sx: int, sy: int, s: int) -> bool {
    &&& 2 * (cx - r) >= 2 * sx - s
    &&& 2 * (cx + r) <= 2 * sx + s
    &&& 2 * (cy - r) >= 2 * sy - s
    &&& 2 * (cy + r) <= 2 * sy + s
}

/// `π·r² / s²` in ten-thousandths, rounded to the nearest.
pub open spec fn circle_coverage(r: int, s: int) -> int {
    (2 * (COVERAGE_FULL as int) * (PI_NUM as int) * (r * r) + (PI_DEN as int) * (s * s)) / (2
        * (PI_DEN as int) * (s * s))
}

/// Sample `(i, j)` of the grid spread evenly, both ends included, over the
/// rectangle `[x1, x2] × [y1, y2]` lies in the circle. The sample sits at
/// `x1 + i·(x2 − x1)/99`; the test is multiplied through by `99²`.
pub open spec fn sample_inside(
    cx: int,
    cy: int,
    r: int,
    x1: int,
    y1: int,
    x2: int,
    y2: int,
    i: int,
    j: int,
) -> bool {
    let n = SAMPLES_PER_DIM - 1;
    let px = n * (cx - x1) - i * (x2 - x1);
    let py = n * (cy - y1) - j * (y2 - y1);
    px * px + py * py <= (n * r) * (n * r)
}

/// Number of samples `(i, j)` with `i < ni` in row `j` that lie in the circle.
pub open spec fn row_count(
    cx: int,
    cy: int,
    r: int,
    x1: int,
    y1: int,
    x2: int,
    y2: int,
    j: int,
    ni: int,
) -> int
    decreases ni,
{
    if ni <= 0 {
        0
    } else {
        row_count(cx, cy, r, x1, y1, x2, y2, j, ni - 1) + if sample_inside(
            cx,
            cy,
            r,
            x1,
            y1,
            x2,
            y2,
            ni - 1,
            j,
        ) {
            1int
        } else {
            0int
        }
    }
}

/// Number of samples in the rows `j < nj` (each row complete) that lie in
/// the circle.
pub open spec fn grid_count(
    cx: int,
    cy: int,
    r: int,
    x1: int,
    y1: int,
    x2: int,
    y2: int,
    nj: int,
) -> int
    decreases nj,
{
    if nj <= 0 {
        0
    } else {
        grid_count(cx, cy, r, x1, y1, x2, y2, nj - 1) + row_count(
            cx,
            cy,
            r,
            x1,
            y1,
            x2,
            y2,
            nj - 1,
            SAMPLES_PER_DIM as int,
        )
    }
}

/// Samples of the whole grid that lie in the circle.
pub open spec fn sample_count(cx: int, cy: int, r: int, x1: int, y1: int, x2: int, y2: int) -> int {
    grid_count(cx, cy, r, x1, y1, x2, y2, SAMPLES_PER_DIM as int)
}

/// The area shared by the circle and the square, in ten-thousandths of the
/// square's area, by the first test that applies: square in circle, apart,
/// circle in square, else the sampled estimate over the square's bounds.
pub open spec fn coverage(cx: int, cy: int, r: int, sx: int, sy: int, s: int) -> int {
    let d2 = dist_sq_spec(cx, cy, sx, sy);
    if square_inside_circle(d2, r, s) {
        COVERAGE_FULL as int
    } else if circle_apart_from_square(d2, r, s) {
        0
    } else if circle_inside_square(cx, cy, r, sx, sy, s) {
        circle_coverage(r, s)
    } else {
        sample_count(2 * cx, 2 * cy, 2 * r, 2 * sx - s, 2 * sy - s, 2 * sx + s, 2 * sy + s)
    }
}

proof fn lemma_row_count_bounds(
    cx: int,
    cy: int,
    r: int,
    x1: int,
    y1: int,
    x2: int,
    y2: int,
    j: int,
    ni: int,
)
    requires
        ni >= 0,
    ensures
        0 <= row_count(cx, cy, r, x1, y1, x2, y2, j, ni) <= ni,
    decreases ni,
{
    if ni > 0 {
        lemma_row_count_bounds(cx, cy, r, x1, y1, x2, y2, j, ni - 1);
    }
}

proof fn lemma_grid_count_bounds(
    cx: int,
    cy: int,
    r: int,
    x1: int,
    y1: int,
    x2: int,
    y2: int,
    nj: int,
)
    requires
        nj >= 0,
    ensures
        0 <= grid_count(cx, cy, r, x1, y1, x2, y2, nj) <= nj * SAMPLES_PER_DIM,
    decreases nj,
{
    if nj > 0 {
        lemma_grid_count_bounds(cx, cy, r, x1, y1, x2, y2, nj - 1);
        lemma_row_count_bounds(cx, cy, r, x1, y1, x2, y2, nj - 1, SAMPLES_PER_DIM as int);
    }
}

/// `f(0) + f(1) + … + f(n − 1)`.
pub open spec fn sum_to(f: spec_fn(int) -> int, n: int) -> int
    decreases n,
{
    if n <= 0 {
        0
    } else {
        sum_to(f, n - 1) + f(n - 1)
    }
}

proof fn lemma_sum_ext(f: spec_fn(int) -> int, g: spec_fn(int) -> int, n: int)
    requires
        forall|i: int| 0 <= i < n ==> #[trigger] f(i) == g(i),
    ensures
        sum_to(f, n) == sum_to(g, n),
    decreases n,
{
    if n > 0 {
        lemma_sum_ext(f, g, n - 1);
    }
}

proof fn lemma_sum_front(f: spec_fn(int) -> int, n: int)
    requires
        n >= 1,
    ensures
        sum_to(f, n) == f(0) + sum_to(|i: int| f(i + 1), n - 1),
    decreases n,
{
    let g = |i: int| f(i + 1);
    if n > 1 {
        lemma_sum_front(f, n - 1);
        assert(sum_to(g, n - 1) == sum_to(g, n - 2) + g(n - 2));
        assert(g(n - 2) == f(n - 1));
    } else {
        assert(sum_to(f, 1) == sum_to(f, 0) + f(0));
        assert(sum_to(g, 0) == 0);
    }
}

proof fn lemma_sum_reverse(f: spec_fn(int) -> int, n: int)
    ensures
        sum_to(|i: int| f(n - 1 - i), n) == sum_to(f, n),
    decreases n,
{
    if n > 0 {
        let g = |i: int| f(i + 1);
        lemma_sum_reverse(g, n - 1);
        lemma_sum_ext(|i: int| f(n - 1 - i), |i: int| g(n - 1 - 1 - i), n - 1);
        lemma_sum_front(f, n);
    }
}

proof fn lemma_row_count_is_sum(
    cx: int,
    cy: int,
    r: int,
    x1: int,
    y1: int,
    x2: int,
    y2: int,
    j: int,
    ni: int,
)
    ensures
        row_count(cx, cy, r, x1, y1, x2, y2, j, ni) == sum_to(
            |i: int|
                if sample_inside(cx, cy, r, x1, y1, x2, y2, i, j) {
                    1int
                } else {
                    0int
                },
            ni,
        ),
    decreases ni,
{
    if ni > 0 {
        lemma_row_count_is_sum(cx, cy, r, x1, y1, x2, y2, j, ni - 1);
    }
}

proof fn lemma_grid_count_is_sum(
    cx: int,
    cy: int,
    r: int,
    x1: int,
    y1: int,
    x2: int,
    y2: int,
    nj: int,
)
    ensures
        grid_count(cx, cy, r, x1, y1, x2, y2, nj) == sum_to(
            |j: int| row_count(cx, cy, r, x1, y1, x2, y2, j, SAMPLES_PER_DIM as int),
            nj,
        ),
    decreases nj,
{
    if nj > 0 {
        lemma_grid_count_is_sum(cx, cy, r, x1, y1, x2, y2, nj - 1);
    }
}

/// Sample counts of two circles agree when each sample of one answers as
/// the other's sample mirrored left to right (`i ↦ 99 − i`), or as the same
/// sample (`flip == false`).
proof fn lemma_count_mirror_x(
    a: (int, int, int, int, int, int, int),
    b: (int, int, int, int, int, int, int),
    flip: bool,
)
    requires
        forall|i: int, j: int|
            0 <= i < SAMPLES_PER_DIM && 0 <= j < SAMPLES_PER_DIM ==> sample_inside(
                a.0,
                a.1,
                a.2,
                a.3,
                a.4,
                a.5,
                a.6,
                i,
                j,
            ) == sample_inside(
                b.0,
                b.1,
                b.2,
                b.3,
                b.4,
                b.5,
                b.6,
                if flip {
                    SAMPLES_PER_DIM - 1 - i
                } else {
                    i
                },
                j,
            ),
    ensures
        sample_count(a.0, a.1, a.2, a.3, a.4, a.5, a.6) == sample_count(
            b.0,
            b.1,
            b.2,
            b.3,
            b.4,
            b.5,
            b.6,
        ),
{
    let n = SAMPLES_PER_DIM as int;
    let ra = |j: int| row_count(a.0, a.1, a.2, a.3, a.4, a.5, a.6, j, n);
    let rb = |j: int| row_count(b.0, b.1, b.2, b.3, b.4, b.5, b.6, j, n);
    assert forall|j: int| 0 <= j < n implies #[trigger] ra(j) == rb(j) by {
        let fa = |i: int|
            if sample_inside(a.0, a.1, a.2, a.3, a.4, a.5, a.6, i, j) {
                1int
            } else {
                0int
            };
        let fb = |i: int|
            if sample_inside(b.0, b.1, b.2, b.3, b.4, b.5, b.6, i, j) {
                1int
            } else {
                0int
            };
        lemma_row_count_is_sum(a.0, a.1, a.2, a.3, a.4, a.5, a.6, j, n);
        lemma_row_count_is_sum(b.0, b.1, b.2, b.3, b.4, b.5, b.6, j, n);
        if flip {
            lemma_sum_ext(fa, |i: int| fb(n - 1 - i), n);
            lemma_sum_reverse(fb, n);
        } else {
            lemma_sum_ext(fa, fb, n);
        }
    }
    lemma_grid_count_is_sum(a.0, a.1, a.2, a.3, a.4, a.5, a.6, n);
    lemma_grid_count_is_sum(b.0, b.1, b.2, b.3, b.4, b.5, b.6, n);
    lemma_sum_ext(ra, rb, n);
}

/// Sample counts of two circles agree when each sample of one answers as
/// the other's sample mirrored top to bottom (`j ↦ 99 − j`).
proof fn lemma_count_mirror_y(
    a: (int, int, int, int, int, int, int),
    b: (int, int, int, int, int, int, int),
)
    requires
        forall|i: int, j: int|
            0 <= i < SAMPLES_PER_DIM && 0 <= j < SAMPLES_PER_DIM ==> sample_inside(
                a.0,
                a.1,
                a.2,
                a.3,
                a.4,
                a.5,
                a.6,
                i,
                j,
            ) == sample_inside(b.0, b.1, b.2, b.3, b.4, b.5, b.6, i, SAMPLES_PER_DIM - 1 - j),
    ensures
        sample_count(a.0, a.1, a.2, a.3, a.4, a.5, a.6) == sample_count(
            b.0,
            b.1,
            b.2,
            b.3,
            b.4,
            b.5,
            b.6,
        ),
{
    let n = SAMPLES_PER_DIM as int;
    let ra = |j: int| row_count(a.0, a.1, a.2, a.3, a.4, a.5, a.6, j, n);
    let rb = |j: int| row_count(b.0, b.1, b.2, b.3, b.4, b.5, b.6, j, n);
    assert forall|j: int| 0 <= j < n implies #[trigger] ra(j) == rb(n - 1 - j) by {
        let fa = |i: int|
            if sample_inside(a.0, a.1, a.2, a.3, a.4, a.5, a.6, i, j) {
                1int
            } else {
                0int
            };
        let fb = |i: int|
            if sample_inside(b.0, b.1, b.2, b.3, b.4, b.5, b.6, i, n - 1 - j) {
                1int
            } else {
                0int
            };
        lemma_row_count_is_sum(a.0, a.1, a.2, a.3, a.4, a.5, a.6, j, n);
        lemma_row_count_is_sum(b.0, b.1, b.2, b.3, b.4, b.5, b.6, n - 1 - j, n);
        lemma_sum_ext(fa, fb, n);
    }
    lemma_grid_count_is_sum(a.0, a.1, a.2, a.3, a.4, a.5, a.6, n);
    lemma_grid_count_is_sum(b.0, b.1, b.2, b.3, b.4, b.5, b.6, n);
    lemma_sum_ext(ra, |j: int| rb(n - 1 - j), n);
    lemma_sum_reverse(rb, n);
}

/// Mirror symmetry: the shared area does not change when the circle's
/// centre is mirrored across the square's vertical or horizontal axis.
pub proof fn lemma_coverage_mirror(cx: int, cy: int, r: int, sx: int, sy: int, s: int)
    ensures
        coverage(2 * sx - cx, cy, r, sx, sy, s) == coverage(cx, cy, r, sx, sy, s),
        coverage(cx, 2 * sy - cy, r, sx, sy, s) == coverage(cx, cy, r, sx, sy, s),
{
    let (x1, y1, x2, y2) = (2 * sx - s, 2 * sy - s, 2 * sx + s, 2 * sy + s);
    let n = SAMPLES_PER_DIM - 1;
    let mx = 2 * sx - cx;
    let my = 2 * sy - cy;
    assert(dist_sq_spec(mx, cy, sx, sy) == dist_sq_spec(cx, cy, sx, sy)) by (nonlinear_arith)
        requires
            mx == 2 * sx - cx,
    ;
    assert(dist_sq_spec(cx, my, sx, sy) == dist_sq_spec(cx, cy, sx, sy)) by (nonlinear_arith)
        requires
            my == 2 * sy - cy,
    ;
    assert forall|i: int, j: int|
        0 <= i < SAMPLES_PER_DIM && 0 <= j < SAMPLES_PER_DIM implies #[trigger] sample_inside(
        2 * mx,
        2 * cy,
        2 * r,
        x1,
        y1,
        x2,
        y2,
        i,
        j,
    ) == sample_inside(2 * cx, 2 * cy, 2 * r, x1, y1, x2, y2, n - i, j) by {
        let pa = n * (2 * mx - x1) - i * (x2 - x1);
        let pb = n * (2 * cx - x1) - (n - i) * (x2 - x1);
        assert(pa == -pb) by (nonlinear_arith)
            requires
                pa == n * (2 * mx - x1) - i * (x2 - x1),
                pb == n * (2 * cx - x1) - (n - i) * (x2 - x1),
                mx == 2 * sx - cx,
                x1 == 2 * sx - s,
                x2 == 2 * sx + s,
        ;
        assert(pa * pa == pb * pb) by (nonlinear_arith)
            requires
                pa == -pb,
        ;
    }
    lemma_count_mirror_x(
        (2 * mx, 2 * cy, 2 * r, x1, y1, x2, y2),
        (2 * cx, 2 * cy, 2 * r, x1, y1, x2, y2),
        true,
    );
    assert forall|i: int, j: int|
        0 <= i < SAMPLES_PER_DIM && 0 <= j < SAMPLES_PER_DIM implies #[trigger] sample_inside(
        2 * cx,
        2 * my,
        2 * r,
        x1,
        y1,
        x2,
        y2,
        i,
        j,
    ) == sample_inside(2 * cx, 2 * cy, 2 * r, x1, y1, x2, y2, i, n - j) by {
        let qa = n * (2 * my - y1) - j * (y2 - y1);
        let qb = n * (2 * cy - y1) - (n - j) * (y2 - y1);
        assert(qa == -qb) by (nonlinear_arith)
            requires
                qa == n * (2 * my - y1) - j * (y2 - y1),
                qb == n * (2 * cy - y1) - (n - j) * (y2 - y1),
                my == 2 * sy - cy,
                y1 == 2 * sy - s,
                y2 == 2 * sy + s,
        ;
        assert(qa * qa == qb * qb) by (nonlinear_arith)
            requires
                qa == -qb,
        ;
    }
    lemma_count_mirror_y(
        (2 * cx, 2 * my, 2 * r, x1, y1, x2, y2),
        (2 * cx, 2 * cy, 2 * r, x1, y1, x2, y2),
    );
}

/// The shared area depends on where the two shapes are relative to each
/// other only: moving both by the same offset changes nothing.
pub proof fn lemma_coverage_translate(
    cx: int,
    cy: int,
    r: int,
    sx: int,
    sy: int,
    s: int,
    kx: int,
    ky: int,
)
    ensures
        coverage(cx + kx, cy + ky, r, sx + kx, sy + ky, s) == coverage(cx, cy, r, sx, sy, s),
{
    let a = (
        2 * (cx + kx),
        2 * (cy + ky),
        2 * r,
        2 * (sx + kx) - s,
        2 * (sy + ky) - s,
        2 * (sx + kx) + s,
        2 * (sy + ky) + s,
    );
    let b = (2 * cx, 2 * cy, 2 * r, 2 * sx - s, 2 * sy - s, 2 * sx + s, 2 * sy + s);
    assert(dist_sq_spec(cx + kx, cy + ky, sx + kx, sy + ky) == dist_sq_spec(cx, cy, sx, sy));
    lemma_count_mirror_x(a, b, false);
}

/// Mirror symmetry seen from the circle: the shared area does not change
/// when the square's centre is mirrored across the circle's vertical or
/// horizontal axis.
pub proof fn lemma_coverage_mirror_square(cx: int, cy: int, r: int, sx: int, sy: int, s: int)
    ensures
        coverage(cx, cy, r, 2 * cx - sx, sy, s) == coverage(cx, cy, r, sx, sy, s),
        coverage(cx, cy, r, sx, 2 * cy - sy, s) == coverage(cx, cy, r, sx, sy, s),
{
    lemma_coverage_mirror(cx, cy, r, sx, sy, s);
    lemma_coverage_translate(2 * sx - cx, cy, r, sx, sy, s, 2 * (cx - sx), 0);
    lemma_coverage_translate(cx, 2 * sy - cy, r, sx, sy, s, 0, 2 * (cy - sy));
}

/// `1` when sample `(i, j)` of the grid over `[c.3, c.5] × [c.4, c.6]` lies in
/// the circle of centre `(c.0, c.1)` and radius `c.2`.
pub open spec fn sample_bit(c: (int, int, int, int, int, int, int), i: int, j: int) -> int {
    if sample_inside(c.0, c.1, c.2, c.3, c.4, c.5, c.6, i, j) {
        1
    } else {
        0
    }
}

/// Samples `(i, j)` with `j < nj` in column `i` that lie in the circle.
pub open spec fn col_count(c: (int, int, int, int, int, int, int), i: int, nj: int) -> int
    decreases nj,
{
    if nj <= 0 {
        0
    } else {
        col_count(c, i, nj - 1) + sample_bit(c, i, nj - 1)
    }
}

/// Samples with `i < ni` and `j < nj`, added column by column.
pub open spec fn count_by_cols(c: (int, int, int, int, int, int, int), ni: int, nj: int) -> int
    decreases ni,
{
    if ni <= 0 {
        0
    } else {
        count_by_cols(c, ni - 1, nj) + col_count(c, ni - 1, nj)
    }
}

/// Samples with `i < ni` and `j < nj`, added row by row.
pub open spec fn count_by_rows(c: (int, int, int, int, int, int, int), ni: int, nj: int) -> int
    decreases nj,
{
    if nj <= 0 {
        0
    } else {
        count_by_rows(c, ni, nj - 1) + row_count(c.0, c.1, c.2, c.3, c.4, c.5, c.6, nj - 1, ni)
    }
}

proof fn lemma_cols_last_row(c: (int, int, int, int, int, int, int), ni: int, nj: int)
    requires
        nj >= 1,
    ensures
        count_by_cols(c, ni, nj) == count_by_cols(c, ni, nj - 1) + row_count(
            c.0,
            c.1,
            c.2,
            c.3,
            c.4,
            c.5,
            c.6,
            nj - 1,
            ni,
        ),
    decreases ni,
{
    if ni > 0 {
        lemma_cols_last_row(c, ni - 1, nj);
    }
}

proof fn lemma_rows_eq_cols(c: (int, int, int, int, int, int, int), ni: int, nj: int)
    ensures
        count_by_rows(c, ni, nj) == count_by_cols(c, ni, nj),
    decreases nj,
{
    if nj > 0 {
        lemma_rows_eq_cols(c, ni, nj - 1);
        lemma_cols_last_row(c, ni, nj);
    } else {
        lemma_cols_zero(c, ni, nj);
    }
}

proof fn lemma_cols_zero(c: (int, int, int, int, int, int, int), ni: int, nj: int)
    requires
        nj <= 0,
    ensures
        count_by_cols(c, ni, nj) == 0,
    decreases ni,
{
    if ni > 0 {
        lemma_cols_zero(c, ni - 1, nj);
    }
}

proof fn lemma_grid_is_rows(c: (int, int, int, int, int, int, int), nj: int)
    ensures
        grid_count(c.0, c.1, c.2, c.3, c.4, c.5, c.6, nj) == count_by_rows(
            c,
            SAMPLES_PER_DIM as int,
            nj,
        ),
    decreases nj,
{
    if nj > 0 {
        lemma_grid_is_rows(c, nj - 1);
    }
}

proof fn lemma_row_of_transpose(
    d: (int, int, int, int, int, int, int),
    c: (int, int, int, int, int, int, int),
    j: int,
    ni: int,
)
    requires
        forall|i: int, k: int| #[trigger] sample_bit(d, i, k) == sample_bit(c, k, i),
    ensures
        row_count(d.0, d.1, d.2, d.3, d.4, d.5, d.6, j, ni) == col_count(c, j, ni),
    decreases ni,
{
    if ni > 0 {
        lemma_row_of_transpose(d, c, j, ni - 1);
        assert(sample_bit(d, ni - 1, j) == sample_bit(c, j, ni - 1));
    }
}

proof fn lemma_grid_of_transpose(
    d: (int, int, int, int, int, int, int),
    c: (int, int, int, int, int, int, int),
    nj: int,
)
    requires
        forall|i: int, k: int| #[trigger] sample_bit(d, i, k) == sample_bit(c, k, i),
    ensures
        count_by_rows(d, SAMPLES_PER_DIM as int, nj) == count_by_cols(
            c,
            nj,
            SAMPLES_PER_DIM as int,
        ),
    decreases nj,
{
    if nj > 0 {
        lemma_grid_of_transpose(d, c, nj - 1);
        lemma_row_of_transpose(d, c, nj - 1, SAMPLES_PER_DIM as int);
    }
}

/// Diagonal symmetry: the shared area does not change when the circle's
/// centre is mirrored across the square's diagonal through its centre
/// (the offsets along the two axes trade places).
pub proof fn lemma_coverage_mirror_diagonal(cx: int, cy: int, r: int, sx: int, sy: int, s: int)
    ensures
        coverage(sx + (cy - sy), sy + (cx - sx), r, sx, sy, s) == coverage(cx, cy, r, sx, sy, s),
{
    let (x1, y1, x2, y2) = (2 * sx - s, 2 * sy - s, 2 * sx + s, 2 * sy + s);
    let dx = sx + (cy - sy);
    let dy = sy + (cx - sx);
    let n = SAMPLES_PER_DIM as int;
    assert(dist_sq_spec(dx, dy, sx, sy) == dist_sq_spec(cx, cy, sx, sy));
    let d = (2 * dx, 2 * dy, 2 * r, x1, y1, x2, y2);
    let c = (2 * cx, 2 * cy, 2 * r, x1, y1, x2, y2);
    assert forall|i: int, k: int| #[trigger] sample_bit(d, i, k) == sample_bit(c, k, i) by {
        assert(sample_inside(d.0, d.1, d.2, d.3, d.4, d.5, d.6, i, k) == sample_inside(
            c.0,
            c.1,
            c.2,
            c.3,
            c.4,
            c.5,
            c.6,
            k,
            i,
        ));
    }
    lemma_grid_is_rows(d, n);
    lemma_grid_is_rows(c, n);
    lemma_grid_of_transpose(d, c, n);
    lemma_rows_eq_cols(c, n, n);
}

proof fn lemma_row_empty(c: (int, int, int, int, int, int, int), j: int, ni: int)
    requires
        forall|i: int| 0 <= i < ni ==> !#[trigger] sample_inside(c.0, c.1, c.2, c.3, c.4, c.5, c.6, i, j),
    ensures
        row_count(c.0, c.1, c.2, c.3, c.4, c.5, c.6, j, ni) == 0,
    decreases ni,
{
    if ni > 0 {
        lemma_row_empty(c, j, ni - 1);
    }
}

proof fn lemma_grid_empty(c: (int, int, int, int, int, int, int), nj: int)
    requires
        forall|i: int, j: int|
            0 <= i < SAMPLES_PER_DIM && 0 <= j < nj ==> !#[trigger] sample_inside(
                c.0,
                c.1,
                c.2,
                c.3,
                c.4,
                c.5,
                c.6,
                i,
                j,
            ),
    ensures
        grid_count(c.0, c.1, c.2, c.3, c.4, c.5, c.6, nj) == 0,
    decreases nj,
{
    if nj > 0 {
        lemma_grid_empty(c, nj - 1);
        lemma_row_empty(c, nj - 1, SAMPLES_PER_DIM as int);
    }
}

/// No sample of the grid over `[x1, x2] × [y1, y2]` lies in a circle that is
/// wholly beyond one side of the rectangle.
proof fn lemma_samples_miss(c: (int, int, int, int, int, int, int))
    requires
        c.3 <= c.5,
        c.4 <= c.6,
        c.2 >= 0,
        c.0 - c.2 > c.5 || c.0 + c.2 < c.3 || c.1 - c.2 > c.6 || c.1 + c.2 < c.4,
    ensures
        sample_count(c.0, c.1, c.2, c.3, c.4, c.5, c.6) == 0,
{
    let (cx, cy, r, x1, y1, x2, y2) = c;
    let n = SAMPLES_PER_DIM - 1;
    assert forall|i: int, j: int| 0 <= i < SAMPLES_PER_DIM && 0 <= j < SAMPLES_PER_DIM implies !#[trigger] sample_inside(
        cx,
        cy,
        r,
        x1,
        y1,
        x2,
        y2,
        i,
        j,
    ) by {
        let px = n * (cx - x1) - i * (x2 - x1);
        let py = n * (cy - y1) - j * (y2 - y1);
        assert(0 <= i * (x2 - x1) <= n * (x2 - x1)) by (nonlinear_arith)
            requires
                0 <= i <= n,
                x1 <= x2,
        ;
        assert(0 <= j * (y2 - y1) <= n * (y2 - y1)) by (nonlinear_arith)
            requires
                0 <= j <= n,
                y1 <= y2,
        ;
        if cx - r > x2 || cx + r < x1 {
            assert(px > n * r || px < -(n * r)) by (nonlinear_arith)
                requires
                    px == n * (cx - x1) - i * (x2 - x1),
                    0 <= i * (x2 - x1) <= n * (x2 - x1),
                    cx - r > x2 || cx + r < x1,
                    n == 99,
            ;
            assert(px * px > (n * r) * (n * r)) by (nonlinear_arith)
                requires
                    px > n * r || px < -(n * r),
                    n * r >= 0,
            ;
            assert(py * py >= 0) by (nonlinear_arith);
        } else {
            assert(py > n * r || py < -(n * r)) by (nonlinear_arith)
                requires
                    py == n * (cy - y1) - j * (y2 - y1),
                    0 <= j * (y2 - y1) <= n * (y2 - y1),
                    cy - r > y2 || cy + r < y1,
                    n == 99,
            ;
            assert(py * py > (n * r) * (n * r)) by (nonlinear_arith)
                requires
                    py > n * r || py < -(n * r),
                    n * r >= 0,
            ;
            assert(px * px >= 0) by (nonlinear_arith);
        }
    }
    lemma_grid_empty(c, SAMPLES_PER_DIM as int);
}

/// A square lying more than `r + margin` beyond the circle's centre along
/// one axis (measured to the square's near side) shares no area with it,
/// provided the radius is at least a ninth of the side or the margin at
/// least a quarter of it. (A much smaller circle close to the square passes
/// the square-inside test, which squares `r − s·√2/2`.)
pub proof fn lemma_coverage_clear(
    cx: int,
    cy: int,
    r: int,
    sx: int,
    sy: int,
    s: int,
    margin: int,
)
    requires
        r >= 0,
        s > 0,
        margin >= 0,
        9 * r >= s || 4 * margin >= s,
        2 * (cx - sx) > 2 * r + s + 2 * margin || 2 * (sx - cx) > 2 * r + s + 2 * margin || 2 * (
        cy - sy) > 2 * r + s + 2 * margin || 2 * (sy - cy) > 2 * r + s + 2 * margin,
    ensures
        coverage(cx, cy, r, sx, sy, s) == 0,
{
    let dx = cx - sx;
    let dy = cy - sy;
    let e = if 2 * dx > 2 * r + s + 2 * margin || 2 * (-dx) > 2 * r + s + 2 * margin {
        dx
    } else {
        dy
    };
    assert(4 * (e * e) > (2 * r + s + 2 * margin) * (2 * r + s + 2 * margin)) by (nonlinear_arith)
        requires
            2 * e > 2 * r + s + 2 * margin || -2 * e > 2 * r + s + 2 * margin,
            2 * r + s + 2 * margin > 0,
    ;
    let d2 = dist_sq_spec(cx, cy, sx, sy);
    assert(d2 >= e * e) by (nonlinear_arith)
        requires
            d2 == dx * dx + dy * dy,
            e == dx || e == dy,
    ;
    let a = distance_slack(d2, r, s);
    assert((2 * r + s + 2 * margin) * (2 * r + s + 2 * margin) >= (2 * r + s) * (2 * r + s))
        by (nonlinear_arith)
        requires
            r >= 0,
            s > 0,
            margin >= 0,
    ;
    if 9 * r >= s {
        assert(!(a >= 0 && 8 * (r * r) * (s * s) <= a * a)) by (nonlinear_arith)
            requires
                4 * d2 > (2 * r + s) * (2 * r + s),
                a == 2 * (r * r) + s * s - 2 * d2,
                9 * r >= s,
                r >= 0,
                s > 0,
        ;
    } else {
        assert(a < 0) by (nonlinear_arith)
            requires
                4 * d2 > (2 * r + s + 2 * margin) * (2 * r + s + 2 * margin),
                a == 2 * (r * r) + s * s - 2 * d2,
                4 * margin >= s,
                r >= 0,
                s > 0,
        ;
    }
    assert(!circle_inside_square(cx, cy, r, sx, sy, s));
    lemma_samples_miss((2 * cx, 2 * cy, 2 * r, 2 * sx - s, 2 * sy - s, 2 * sx + s, 2 * sy + s));
}

/// Blends `a` towards `b` by `fraction` ten-thousandths and rounds to the
/// nearest integer: `fraction == 0` gives `a`, `fraction == COVERAGE_FULL`
/// gives `b`.
pub fn lerp(fraction: u32, a: u8, b: u8) -> (r: u8)
    requires
        fraction <= COVERAGE_FULL,
    ensures
        r as int == lerp_spec(fraction as int, a as int, b as int),
        a <= b ==> a <= r <= b,
        b <= a ==> b <= r <= a,
        fraction == 0 ==> r == a,
        fraction == COVERAGE_FULL ==> r == b,
{
    let f = fraction as u64;
    let full = COVERAGE_FULL as u64;
    assert((full - f) * (a as u64) <= full * 255) by (nonlinear_arith)
        requires
            f <= full,
    ;
    assert(f * (b as u64) <= full * 255) by (nonlinear_arith)
        requires
            f <= full,
    ;
    let sum = (full - f) * (a as u64) + f * (b as u64) + full / 2;
    proof {
        let fi = f as int;
        let fa = full as int;
        let ai = a as int;
        let bi = b as int;
        let lo = if ai <= bi { ai } else { bi };
        let hi = if ai <= bi { bi } else { ai };
        assert((fa - fi) * ai + fi * bi >= fa * lo) by (nonlinear_arith)
            requires
                0 <= fi <= fa,
                lo <= ai,
                lo <= bi,
        ;
        assert((fa - fi) * ai + fi * bi <= fa * hi) by (nonlinear_arith)
            requires
                0 <= fi <= fa,
                ai <= hi,
                bi <= hi,
        ;
        let s = (fa - fi) * ai + fi * bi + fa / 2;
        assert(s / fa >= lo) by (nonlinear_arith)
            requires
                s >= fa * lo,
                fa > 0,
        ;
        assert(s / fa <= hi) by (nonlinear_arith)
            requires
                s < fa * hi + fa,
                fa > 0,
        ;
        if fi == 0 {
            assert(s / fa == ai) by (nonlinear_arith)
                requires
                    s == (fa - fi) * ai + fi * bi + fa / 2,
                    fi == 0,
                    fa == 10000,
            ;
        }
        if fi == fa {
            assert(s / fa == bi) by (nonlinear_arith)
                requires
                    s == (fa - fi) * ai + fi * bi + fa / 2,
                    fi == fa,
                    fa == 10000,
            ;
        }
    }
    (sum / full) as u8
}

pub open spec fn in_sample_limit(v: int) -> bool {
    -4 * GEOMETRY_LIMIT <= v <= 4 * GEOMETRY_LIMIT
}

/// Estimates what fraction of the rectangle `[x1, x2] × [y1, y2]` the circle
/// covers: of a grid of `SAMPLES_PER_DIM × SAMPLES_PER_DIM` points spread
/// evenly over the rectangle, both ends included, counts those in the circle.
/// As the grid has `COVERAGE_FULL` points, the count is the coverage in
/// ten-thousandths.
pub fn rectangle_circle_intersection_slow(
    circle_center: (i64, i64),
    circle_radius: i64,
    rect_x1: i64,
    rect_y1: i64,
    rect_x2: i64,
    rect_y2: i64,
) -> (r: u32)
    requires
        in_sample_limit(circle_center.0 as int),
        in_sample_limit(circle_center.1 as int),
        0 <= circle_radius <= 4 * GEOMETRY_LIMIT,
        in_sample_limit(rect_x1 as int),
        in_sample_limit(rect_y1 as int),
        in_sample_limit(rect_x2 as int),
        in_sample_limit(rect_y2 as int),
    ensures
        r as int == sample_count(
            circle_center.0 as int,
            circle_center.1 as int,
            circle_radius as int,
            rect_x1 as int,
            rect_y1 as int,
            rect_x2 as int,
            rect_y2 as int,
        ),
        r <= COVERAGE_FULL,
{
    let ghost (cx, cy, rad, x1, y1, x2, y2) = (
        circle_center.0 as int,
        circle_center.1 as int,
        circle_radius as int,
        rect_x1 as int,
        rect_y1 as int,
        rect_x2 as int,
        rect_y2 as int,
    );
    let n: i128 = (SAMPLES_PER_DIM - 1) as i128;
    let ox: i128 = n * (circle_center.0 as i128 - rect_x1 as i128);
    let oy: i128 = n * (circle_center.1 as i128 - rect_y1 as i128);
    let wx: i128 = rect_x2 as i128 - rect_x1 as i128;
    let wy: i128 = rect_y2 as i128 - rect_y1 as i128;
    let nr: i128 = n * circle_radius as i128;
    assert(nr * nr <= 100 * 2147483648 * 100 * 2147483648) by (nonlinear_arith)
        requires
            0 <= nr <= 100 * 2147483648,
    ;
    let nr2: i128 = nr * nr;
    let mut count: u32 = 0;
    let mut j: i64 = 0;
    while j < SAMPLES_PER_DIM
        invariant
            0 <= j <= SAMPLES_PER_DIM,
            count as int == grid_count(cx, cy, rad, x1, y1, x2, y2, j as int),
            count <= j * SAMPLES_PER_DIM,
            n == 99,
            ox == n * (cx - x1),
            oy == n * (cy - y1),
            wx == x2 - x1,
            wy == y2 - y1,
            -100 * 2147483648 <= ox <= 100 * 2147483648,
            -100 * 2147483648 <= oy <= 100 * 2147483648,
            -2147483648 <= wx <= 2147483648,
            -2147483648 <= wy <= 2147483648,
            nr2 == (n * rad) * (n * rad),
        decreases SAMPLES_PER_DIM - j,
    {
        let mut i: i64 = 0;
        assert((j as i128) * wy <= 100 * 2147483648 && (j as i128) * wy >= -100 * 2147483648) by (nonlinear_arith)
            requires
                0 <= j <= 100,
                -2147483648 <= wy <= 2147483648,
        ;
        let py: i128 = oy - (j as i128) * wy;
        assert(py * py <= 200 * 2147483648 * 200 * 2147483648 && py * py >= 0) by (nonlinear_arith)
            requires
                -200 * 2147483648 <= py <= 200 * 2147483648,
        ;
        let py2: i128 = py * py;
        proof {
            lemma_row_count_bounds(cx, cy, rad, x1, y1, x2, y2, j as int, 0);
        }
        while i < SAMPLES_PER_DIM
            invariant
                0 <= i <= SAMPLES_PER_DIM,
                0 <= j < SAMPLES_PER_DIM,
                count as int == grid_count(cx, cy, rad, x1, y1, x2, y2, j as int) + row_count(
                    cx,
                    cy,
                    rad,
                    x1,
                    y1,
                    x2,
                    y2,
                    j as int,
                    i as int,
                ),
                count <= j * SAMPLES_PER_DIM + i,
                n == 99,
                    ox == n * (cx - x1),
                wx == x2 - x1,
                -100 * 2147483648 <= ox <= 100 * 2147483648,
                -2147483648 <= wx <= 2147483648,
                py == n * (cy - y1) - j * (y2 - y1),
                py2 == py * py,
                0 <= py2 <= 200 * 2147483648 * 200 * 2147483648,
                nr2 == (n * rad) * (n * rad),
            decreases SAMPLES_PER_DIM - i,
        {
            assert((i as i128) * wx <= 100 * 2147483648 && (i as i128) * wx >= -100 * 2147483648) by (nonlinear_arith)
                requires
                    0 <= i <= 100,
                    -2147483648 <= wx <= 2147483648,
            ;
            let px: i128 = ox - (i as i128) * wx;
            assert(px * px <= 200 * 2147483648 * 200 * 2147483648 && px * px >= 0) by (nonlinear_arith)
                requires
                    -200 * 2147483648 <= px <= 200 * 2147483648,
            ;
            let px2: i128 = px * px;
            if px2 + py2 <= nr2 {
                count = count + 1;
            }
            i = i + 1;
        }
        j = j + 1;
    }
    count
}

/// The area that a circle and an axis-aligned square share, in
/// ten-thousandths of the square's area (`COVERAGE_FULL` is the whole
/// square). The cheap cases come first: the square inside the circle, the two
/// apart, the circle inside the square (its area taken with pi as 355/113);
/// otherwise the grid estimate of `rectangle_circle_intersection_slow` over
/// the square.
pub fn square_circle_intersection(
    circle_center: (i64, i64),
    circle_radius: i64,
    square_center: (i64, i64),
    square_side_len: i64,
) -> (r: u32)
    requires
        in_limit(circle_center.0 as int),
        in_limit(circle_center.1 as int),
        0 <= circle_radius <= GEOMETRY_LIMIT,
        in_limit(square_center.0 as int),
        in_limit(square_center.1 as int),
        0 <= square_side_len <= GEOMETRY_LIMIT,
    ensures
        r as int == coverage(
            circle_center.0 as int,
            circle_center.1 as int,
            circle_radius as int,
            square_center.0 as int,
            square_center.1 as int,
            square_side_len as int,
        ),
        r <= COVERAGE_FULL,
        square_inside_circle(
            dist_sq_spec(
                circle_center.0 as int,
                circle_center.1 as int,
                square_center.0 as int,
                square_center.1 as int,
            ),
            circle_radius as int,
            square_side_len as int,
        ) ==> r == COVERAGE_FULL,
        circle_apart_from_square(
            dist_sq_spec(
                circle_center.0 as int,
                circle_center.1 as int,
                square_center.0 as int,
                square_center.1 as int,
            ),
            circle_radius as int,
            square_side_len as int,
        ) && !square_inside_circle(
            dist_sq_spec(
                circle_center.0 as int,
                circle_center.1 as int,
                square_center.0 as int,
                square_center.1 as int,
            ),
            circle_radius as int,
            square_side_len as int,
        ) ==> r == 0,
{
    let (cx, cy) = circle_center;
    let (sx, sy) = square_center;
    let d2 = dist_sq(cx, cy, sx, sy);
    let rad = circle_radius as i128;
    let s = square_side_len as i128;
    assert(rad * rad <= 268435456 * 268435456 && rad * rad >= 0) by (nonlinear_arith)
        requires
            0 <= rad <= 268435456,
    ;
    assert(s * s <= 268435456 * 268435456 && s * s >= 0) by (nonlinear_arith)
        requires
            0 <= s <= 268435456,
    ;
    let r2 = rad * rad;
    let s2 = s * s;
    let a: i128 = 2 * r2 + s2 - 2 * d2;
    assert(a * a <= 400 * 268435456 * 268435456 * 268435456 * 268435456 && a * a >= 0) by (nonlinear_arith)
        requires
            -20 * 268435456 * 268435456 <= a <= 20 * 268435456 * 268435456,
    ;
    assert(8 * r2 * s2 <= 8 * 268435456 * 268435456 * 268435456 * 268435456 && 8 * r2 * s2 >= 0) by (nonlinear_arith)
        requires
            0 <= r2 <= 268435456 * 268435456,
            0 <= s2 <= 268435456 * 268435456,
    ;
    let rs8: i128 = 8 * r2 * s2;
    let a2: i128 = a * a;
    let ghost d2s = dist_sq_spec(cx as int, cy as int, sx as int, sy as int);
    assert(a == distance_slack(d2s, rad as int, s as int));
    assert(rs8 == 8 * (rad * rad) * (s * s));
    if a >= 0 && rs8 <= a2 {
        return COVERAGE_FULL;
    }
    if a <= 0 && rs8 <= a2 {
        return 0;
    }
    if 2 * (cx as i128 - rad) >= 2 * sx as i128 - s && 2 * (cx as i128 + rad) <= 2 * sx as i128 + s
        && 2 * (cy as i128 - rad) >= 2 * sy as i128 - s && 2 * (cy as i128 + rad) <= 2 * sy as i128
        + s {
        proof {
            assert(s2 > 0) by (nonlinear_arith)
                requires
                    rs8 > a2,
                    a2 >= 0,
                    rs8 == 8 * r2 * s2,
                    r2 >= 0,
                    s2 >= 0,
            ;
            assert(4 * r2 <= s2) by (nonlinear_arith)
                requires
                    2 * rad <= s,
                    rad >= 0,
                    r2 == rad * rad,
                    s2 == s * s,
            ;
            let full = COVERAGE_FULL as int;
            let num = 2 * full * 355 * r2 + 113 * s2;
            let den = 2 * 113 * s2;
            assert(num / den <= full) by (nonlinear_arith)
                requires
                    4 * r2 <= s2,
                    s2 > 0,
                    full == 10000,
                    num == 2 * full * 355 * r2 + 113 * s2,
                    den == 2 * 113 * s2,
            ;
        }
        assert(PI_NUM == 355 && PI_DEN == 113);
        assert(0 <= r2 <= 268435456 * 268435456 && 0 < s2 <= 268435456 * 268435456);
        assert(2 * (COVERAGE_FULL as i128) * PI_NUM * r2 <= 7100000 * 268435456 * 268435456)
            by (nonlinear_arith)
            requires
                0 <= r2 <= 268435456 * 268435456,
                PI_NUM == 355,
                COVERAGE_FULL == 10000,
        ;
        let num: i128 = 2 * (COVERAGE_FULL as i128) * PI_NUM * r2 + PI_DEN * s2;
        assert(0 < 2 * PI_DEN * s2 <= 226 * 268435456 * 268435456) by (nonlinear_arith)
            requires
                0 < s2 <= 268435456 * 268435456,
                PI_DEN == 113,
        ;
        let den: i128 = 2 * PI_DEN * s2;
        return (num / den) as u32;
    }
    rectangle_circle_intersection_slow(
        (2 * cx, 2 * cy),
        2 * circle_radius,
        2 * sx - square_side_len,
        2 * sy - square_side_len,
        2 * sx + square_side_len,
        2 * sy + square_side_len,
    )
}

/// Squared distance between two points.
fn dist_sq(x1: i64, y1: i64, x2: i64, y2: i64) -> (r: i128)
    requires
        in_limit(x1 as int),
        in_limit(y1 as int),
        in_limit(x2 as int),
        in_limit(y2 as int),
    ensures
        r as int == dist_sq_spec(x1 as int, y1 as int, x2 as int, y2 as int),
        0 <= r <= 4 * GEOMETRY_LIMIT * GEOMETRY_LIMIT * 2,
{
    let dx = x1 as i128 - x2 as i128;
    let dy = y1 as i128 - y2 as i128;
    assert(dx * dx <= 4 * GEOMETRY_LIMIT * GEOMETRY_LIMIT && dx * dx >= 0) by (nonlinear_arith)
        requires
            -2 * GEOMETRY_LIMIT <= dx <= 2 * GEOMETRY_LIMIT,
    ;
    assert(dy * dy <= 4 * GEOMETRY_LIMIT * GEOMETRY_LIMIT && dy * dy >= 0) by (nonlinear_arith)
        requires
            -2 * GEOMETRY_LIMIT <= dy <= 2 * GEOMETRY_LIMIT,
    ;
    dx * dx + dy * dy
}

} // verus!
