use vstd::prelude::*;
use crate::geom::{Coord, Size};

verus! {

// Symmetric recursive shadowcasting. The plane around the viewpoint is split
// into four quadrants; each is scanned row by row outward, and a row is the
// interval of columns between a start slope and an end slope. Slopes are kept
// as fractions `n / m` with `m > 0`, so all arithmetic stays on integers.

/// Opacity at which a cell blocks sight.
pub const FULLY_OPAQUE: u8 = 255;
/// Largest scan depth accepted.
pub const MAX_RADIUS: i64 = 65535;

/// Marker for "no cell seen yet in this row".
pub const PREV_NONE: u8 = 0;
/// Marker for "the previous cell blocks sight".
pub const PREV_WALL: u8 = 1;
/// Marker for "the previous cell lets sight through".
pub const PREV_FLOOR: u8 = 2;

/// The cell at `depth` rows and `col` columns from `o` in quadrant `q`
/// (0 north, 1 east, 2 south, 3 west).
pub open spec fn transform(o: Coord, q: int, depth: int, col: int) -> (int, int) {
    if q == 0 {
        (o.x + col, o.y - depth)
    } else if q == 1 {
        (o.x + depth, o.y + col)
    } else if q == 2 {
        (o.x + col, o.y + depth)
    } else {
        (o.x - depth, o.y + col)
    }
}

pub open spec fn in_grid(size: Size, x: int, y: int) -> bool {
    0 <= x < size.width && 0 <= y < size.height
}

pub open spec fn cell_index(size: Size, x: int, y: int) -> int {
    y * size.width + x
}

/// A cell blocks sight when it is outside the grid or fully opaque.
pub open spec fn blocks(op: Seq<u8>, size: Size, x: int, y: int) -> bool {
    !in_grid(size, x, y) || op[cell_index(size, x, y)] == FULLY_OPAQUE
}

pub open spec fn mark_seen(mask: Seq<bool>, size: Size, x: int, y: int) -> Seq<bool> {
    if in_grid(size, x, y) {
        mask.update(cell_index(size, x, y), true)
    } else {
        mask
    }
}

/// Column `col` of row `d` lies between the row's start slope `sn / sd` and
/// end slope `en / ed`, rounding half-columns toward the row's inside.
pub open spec fn in_row(d: int, col: int, sn: int, sd: int, en: int, ed: int) -> bool {
    (2 * col + 1) * sd > 2 * d * sn && (2 * col - 1) * ed < 2 * d * en
}

/// The centre of the cell lies within the current slopes, which makes sight
/// symmetric: a floor cell is revealed only when it would see the viewpoint.
pub open spec fn symmetric(d: int, col: int, sn: int, sd: int, en: int, ed: int) -> bool {
    col * sd >= d * sn && col * ed <= d * en
}

/// Scans the columns `col..=d` of row `d`. `rsn / rsd` is the start slope the
/// row began with; `sn / sd` is the start slope as updated along the row.
pub open spec fn scan_cols(
    op: Seq<u8>,
    size: Size,
    o: Coord,
    radius: int,
    q: int,
    d: int,
    col: int,
    rsn: int,
    rsd: int,
    sn: int,
    sd: int,
    en: int,
    ed: int,
    prev: u8,
    mask: Seq<bool>,
) -> Seq<bool>
    decreases radius + 1 - d, 0int, d + 1 - col,
{
    if d > radius || d < 1 {
        mask
    } else if col > d {
        if prev == PREV_FLOOR {
            scan_row(op, size, o, radius, q, d + 1, sn, sd, en, ed, mask)
        } else {
            mask
        }
    } else if !in_row(d, col, rsn, rsd, en, ed) {
        scan_cols(op, size, o, radius, q, d, col + 1, rsn, rsd, sn, sd, en, ed, prev, mask)
    } else {
        let (x, y) = transform(o, q, d, col);
        let wall = blocks(op, size, x, y);
        let m1 = if wall || symmetric(d, col, sn, sd, en, ed) {
            mark_seen(mask, size, x, y)
        } else {
            mask
        };
        let sn1 = if prev == PREV_WALL && !wall {
            2 * col - 1
        } else {
            sn
        };
        let sd1 = if prev == PREV_WALL && !wall {
            2 * d
        } else {
            sd
        };
        let m2 = if prev == PREV_FLOOR && wall {
            scan_row(op, size, o, radius, q, d + 1, sn1, sd1, 2 * col - 1, 2 * d, m1)
        } else {
            m1
        };
        scan_cols(
            op,
            size,
            o,
            radius,
            q,
            d,
            col + 1,
            rsn,
            rsd,
            sn1,
            sd1,
            en,
            ed,
            if wall {
                PREV_WALL
            } else {
                PREV_FLOOR
            },
            m2,
        )
    }
}

/// Scans row `d` of quadrant `q` between the slopes `sn / sd` and `en / ed`,
/// and the rows beyond it that stay in sight.
pub open spec fn scan_row(
    op: Seq<u8>,
    size: Size,
    o: Coord,
    radius: int,
    q: int,
    d: int,
    sn: int,
    sd: int,
    en: int,
    ed: int,
    mask: Seq<bool>,
) -> Seq<bool>
    decreases radius + 1 - d, 1int, 0int,
{
    if d > radius || d < 1 {
        mask
    } else {
        scan_cols(op, size, o, radius, q, d, -d, sn, sd, sn, sd, en, ed, PREV_NONE, mask)
    }
}

/// Scans one whole quadrant.
pub open spec fn scan_quadrant(op: Seq<u8>, size: Size, o: Coord, radius: int, q: int, mask: Seq<bool>) -> Seq<bool> {
    scan_row(op, size, o, radius, q, 1, -1, 1, 1, 1, mask)
}

/// The cells in sight of `o` within `radius` rows, given the opacity of each
/// cell in row-major order: the four quadrants' scans, and `o` itself.
pub open spec fn field_of_view(op: Seq<u8>, size: Size, o: Coord, radius: int) -> Seq<bool> {
    let m0 = Seq::new(size.count(), |i: int| false);
    let m1 = scan_quadrant(op, size, o, radius, 0, m0);
    let m2 = scan_quadrant(op, size, o, radius, 1, m1);
    let m3 = scan_quadrant(op, size, o, radius, 2, m2);
    let m4 = scan_quadrant(op, size, o, radius, 3, m3);
    mark_seen(m4, size, o.x as int, o.y as int)
}

pub open spec fn slope_ok(n: int, m: int, radius: int) -> bool {
    -(2 * radius + 1) <= n <= 2 * radius + 1 && 1 <= m <= 2 * radius
}

pub open spec fn scan_ok(op: Seq<u8>, size: Size, o: Coord, radius: int, mask: Seq<bool>) -> bool {
    &&& size.wf()
    &&& op.len() == size.count()
    &&& mask.len() == size.count()
    &&& size.contains(o)
    &&& 1 <= radius <= MAX_RADIUS
}

/// The cell at row-major position `i` lies within Chebyshev distance `radius`
/// of `o`.
pub open spec fn near(size: Size, o: Coord, radius: int, i: int) -> bool {
    crate::geom::chebyshev(size.coord_of(i), o) <= radius
}

proof fn lemma_mark_near(mask: Seq<bool>, size: Size, o: Coord, radius: int, q: int, d: int, col: int)
    requires
        size.wf(),
        mask.len() == size.count(),
        1 <= d <= radius,
        -d <= col <= d,
    ensures
        ({
            let (x, y) = transform(o, q, d, col);
            let m = mark_seen(mask, size, x, y);
            &&& m.len() == mask.len()
            &&& forall|i: int| 0 <= i < m.len() && #[trigger] m[i] ==> mask[i] || near(size, o, radius, i)
        }),
{
    let (x, y) = transform(o, q, d, col);
    if in_grid(size, x, y) {
        let c = Coord { x: x as i32, y: y as i32 };
        crate::geom::lemma_index_coord(size, c);
    }
}

proof fn lemma_cols_near(
    op: Seq<u8>,
    size: Size,
    o: Coord,
    radius: int,
    q: int,
    d: int,
    col: int,
    rsn: int,
    rsd: int,
    sn: int,
    sd: int,
    en: int,
    ed: int,
    prev: u8,
    mask: Seq<bool>,
)
    requires
        size.wf(),
        mask.len() == size.count(),
        -d <= col,
    ensures
        ({
            let r = scan_cols(op, size, o, radius, q, d, col, rsn, rsd, sn, sd, en, ed, prev, mask);
            &&& r.len() == mask.len()
            &&& forall|i: int| 0 <= i < r.len() && #[trigger] r[i] ==> mask[i] || near(size, o, radius, i)
        }),
    decreases radius + 1 - d, 0int, d + 1 - col,
{
    if d > radius || d < 1 {
    } else if col > d {
        if prev == PREV_FLOOR {
            lemma_row_near(op, size, o, radius, q, d + 1, sn, sd, en, ed, mask);
        }
    } else if !in_row(d, col, rsn, rsd, en, ed) {
        lemma_cols_near(op, size, o, radius, q, d, col + 1, rsn, rsd, sn, sd, en, ed, prev, mask);
    } else {
        let (x, y) = transform(o, q, d, col);
        let wall = blocks(op, size, x, y);
        let m1 = if wall || symmetric(d, col, sn, sd, en, ed) {
            mark_seen(mask, size, x, y)
        } else {
            mask
        };
        lemma_mark_near(mask, size, o, radius, q, d, col);
        let sn1 = if prev == PREV_WALL && !wall {
            2 * col - 1
        } else {
            sn
        };
        let sd1 = if prev == PREV_WALL && !wall {
            2 * d
        } else {
            sd
        };
        let m2 = if prev == PREV_FLOOR && wall {
            scan_row(op, size, o, radius, q, d + 1, sn1, sd1, 2 * col - 1, 2 * d, m1)
        } else {
            m1
        };
        if prev == PREV_FLOOR && wall {
            lemma_row_near(op, size, o, radius, q, d + 1, sn1, sd1, 2 * col - 1, 2 * d, m1);
        }
        let p2 = if wall {
            PREV_WALL
        } else {
            PREV_FLOOR
        };
        lemma_cols_near(op, size, o, radius, q, d, col + 1, rsn, rsd, sn1, sd1, en, ed, p2, m2);
    }
}

proof fn lemma_row_near(
    op: Seq<u8>,
    size: Size,
    o: Coord,
    radius: int,
    q: int,
    d: int,
    sn: int,
    sd: int,
    en: int,
    ed: int,
    mask: Seq<bool>,
)
    requires
        size.wf(),
        mask.len() == size.count(),
    ensures
        ({
            let r = scan_row(op, size, o, radius, q, d, sn, sd, en, ed, mask);
            &&& r.len() == mask.len()
            &&& forall|i: int| 0 <= i < r.len() && #[trigger] r[i] ==> mask[i] || near(size, o, radius, i)
        }),
    decreases radius + 1 - d, 1int, 0int,
{
    if d > radius || d < 1 {
    } else {
        lemma_cols_near(op, size, o, radius, q, d, -d, sn, sd, sn, sd, en, ed, PREV_NONE, mask);
    }
}

proof fn lemma_mark_keeps(mask: Seq<bool>, size: Size, x: int, y: int)
    requires
        size.wf(),
        mask.len() == size.count(),
    ensures
        mark_seen(mask, size, x, y).len() == mask.len(),
        forall|i: int| 0 <= i < mask.len() && mask[i] ==> #[trigger] mark_seen(mask, size, x, y)[i],
        in_grid(size, x, y) ==> mark_seen(mask, size, x, y)[cell_index(size, x, y)],
{
    if in_grid(size, x, y) {
        crate::geom::lemma_index_coord(size, Coord { x: x as i32, y: y as i32 });
    }
}

proof fn lemma_cols_keeps(
    op: Seq<u8>,
    size: Size,
    o: Coord,
    radius: int,
    q: int,
    d: int,
    col: int,
    rsn: int,
    rsd: int,
    sn: int,
    sd: int,
    en: int,
    ed: int,
    prev: u8,
    mask: Seq<bool>,
)
    requires
        size.wf(),
        mask.len() == size.count(),
    ensures
        ({
            let r = scan_cols(op, size, o, radius, q, d, col, rsn, rsd, sn, sd, en, ed, prev, mask);
            &&& r.len() == mask.len()
            &&& forall|i: int| 0 <= i < r.len() && mask[i] ==> #[trigger] r[i]
        }),
    decreases radius + 1 - d, 0int, d + 1 - col,
{
    if d > radius || d < 1 {
    } else if col > d {
        if prev == PREV_FLOOR {
            lemma_row_keeps(op, size, o, radius, q, d + 1, sn, sd, en, ed, mask);
        }
    } else if !in_row(d, col, rsn, rsd, en, ed) {
        lemma_cols_keeps(op, size, o, radius, q, d, col + 1, rsn, rsd, sn, sd, en, ed, prev, mask);
    } else {
        let (x, y) = transform(o, q, d, col);
        let wall = blocks(op, size, x, y);
        let m1 = if wall || symmetric(d, col, sn, sd, en, ed) {
            mark_seen(mask, size, x, y)
        } else {
            mask
        };
        lemma_mark_keeps(mask, size, x, y);
        let sn1 = if prev == PREV_WALL && !wall {
            2 * col - 1
        } else {
            sn
        };
        let sd1 = if prev == PREV_WALL && !wall {
            2 * d
        } else {
            sd
        };
        let m2 = if prev == PREV_FLOOR && wall {
            scan_row(op, size, o, radius, q, d + 1, sn1, sd1, 2 * col - 1, 2 * d, m1)
        } else {
            m1
        };
        if prev == PREV_FLOOR && wall {
            lemma_row_keeps(op, size, o, radius, q, d + 1, sn1, sd1, 2 * col - 1, 2 * d, m1);
        }
        let p2 = if wall {
            PREV_WALL
        } else {
            PREV_FLOOR
        };
        lemma_cols_keeps(op, size, o, radius, q, d, col + 1, rsn, rsd, sn1, sd1, en, ed, p2, m2);
    }
}

proof fn lemma_row_keeps(
    op: Seq<u8>,
    size: Size,
    o: Coord,
    radius: int,
    q: int,
    d: int,
    sn: int,
    sd: int,
    en: int,
    ed: int,
    mask: Seq<bool>,
)
    requires
        size.wf(),
        mask.len() == size.count(),
    ensures
        ({
            let r = scan_row(op, size, o, radius, q, d, sn, sd, en, ed, mask);
            &&& r.len() == mask.len()
            &&& forall|i: int| 0 <= i < r.len() && mask[i] ==> #[trigger] r[i]
        }),
    decreases radius + 1 - d, 1int, 0int,
{
    if d > radius || d < 1 {
    } else {
        lemma_cols_keeps(op, size, o, radius, q, d, -d, sn, sd, sn, sd, en, ed, PREV_NONE, mask);
    }
}

proof fn lemma_first_row_cols(
    op: Seq<u8>,
    size: Size,
    o: Coord,
    radius: int,
    q: int,
    col: int,
    sn: int,
    sd: int,
    prev: u8,
    mask: Seq<bool>,
)
    requires
        size.wf(),
        mask.len() == size.count(),
        radius >= 1,
        -1 <= col <= 2,
        sd >= 1,
        col <= 1 ==> sn <= col * sd,
    ensures
        forall|c2: int|
            col <= c2 <= 1 && in_grid(size, transform(o, q, 1, c2).0, transform(o, q, 1, c2).1) ==> #[trigger] scan_cols(
                op,
                size,
                o,
                radius,
                q,
                1,
                col,
                -1,
                1,
                sn,
                sd,
                1,
                1,
                prev,
                mask,
            )[cell_index(size, transform(o, q, 1, c2).0, transform(o, q, 1, c2).1)],
    decreases 2 - col,
{
    if col <= 1 {
        let (x, y) = transform(o, q, 1, col);
        let wall = blocks(op, size, x, y);
        assert(in_row(1, col, -1, 1, 1, 1));
        assert(symmetric(1, col, sn, sd, 1, 1)) by (nonlinear_arith)
            requires
                -1 <= col <= 1,
                sn <= col * sd,
        ;
        let m1 = mark_seen(mask, size, x, y);
        lemma_mark_keeps(mask, size, x, y);
        let sn1 = if prev == PREV_WALL && !wall {
            2 * col - 1
        } else {
            sn
        };
        let sd1 = if prev == PREV_WALL && !wall {
            2
        } else {
            sd
        };
        let m2 = if prev == PREV_FLOOR && wall {
            scan_row(op, size, o, radius, q, 2, sn1, sd1, 2 * col - 1, 2, m1)
        } else {
            m1
        };
        if prev == PREV_FLOOR && wall {
            lemma_row_keeps(op, size, o, radius, q, 2, sn1, sd1, 2 * col - 1, 2, m1);
        }
        let p2 = if wall {
            PREV_WALL
        } else {
            PREV_FLOOR
        };
        assert(col + 1 <= 1 ==> sn1 <= (col + 1) * sd1) by (nonlinear_arith)
            requires
                -1 <= col <= 1,
                sn <= col * sd,
                sd >= 1,
                sn1 == sn && sd1 == sd || sn1 == 2 * col - 1 && sd1 == 2,
        ;
        lemma_first_row_cols(op, size, o, radius, q, col + 1, sn1, sd1, p2, m2);
        lemma_cols_keeps(op, size, o, radius, q, 1, col + 1, -1, 1, sn1, sd1, 1, 1, p2, m2);
        let ghost r = scan_cols(op, size, o, radius, q, 1, col, -1, 1, sn, sd, 1, 1, prev, mask);
        assert(r == scan_cols(op, size, o, radius, q, 1, col + 1, -1, 1, sn1, sd1, 1, 1, p2, m2));
        if in_grid(size, x, y) {
            lemma_cell_index_in_range(size, x, y);
            assert(m1[cell_index(size, x, y)]);
            assert(m2[cell_index(size, x, y)]);
        }
    }
}

proof fn lemma_cell_index_in_range(size: Size, x: int, y: int)
    requires
        size.wf(),
        in_grid(size, x, y),
    ensures
        0 <= cell_index(size, x, y) < size.count(),
{
    crate::geom::lemma_index_coord(size, Coord { x: x as i32, y: y as i32 });
}

/// The viewpoint's in-grid neighbours, diagonal ones included, are always in
/// sight, whatever blocks sight around them.
pub proof fn lemma_neighbours_seen(op: Seq<u8>, size: Size, o: Coord, radius: int, n: Coord)
    requires
        size.wf(),
        size.contains(o),
        size.contains(n),
        radius >= 1,
        crate::geom::chebyshev(n, o) <= 1,
    ensures
        field_of_view(op, size, o, radius)[size.index_of(n)],
{
    let m0 = Seq::new(size.count(), |k: int| false);
    let m1 = scan_quadrant(op, size, o, radius, 0, m0);
    let m2 = scan_quadrant(op, size, o, radius, 1, m1);
    let m3 = scan_quadrant(op, size, o, radius, 2, m2);
    let m4 = scan_quadrant(op, size, o, radius, 3, m3);
    lemma_row_near(op, size, o, radius, 0, 1, -1, 1, 1, 1, m0);
    lemma_row_near(op, size, o, radius, 1, 1, -1, 1, 1, 1, m1);
    lemma_row_near(op, size, o, radius, 2, 1, -1, 1, 1, 1, m2);
    lemma_row_near(op, size, o, radius, 3, 1, -1, 1, 1, 1, m3);
    lemma_row_keeps(op, size, o, radius, 1, 1, -1, 1, 1, 1, m1);
    lemma_row_keeps(op, size, o, radius, 2, 1, -1, 1, 1, 1, m2);
    lemma_row_keeps(op, size, o, radius, 3, 1, -1, 1, 1, 1, m3);
    lemma_first_row_cols(op, size, o, radius, 0, -1, -1, 1, PREV_NONE, m0);
    lemma_first_row_cols(op, size, o, radius, 1, -1, -1, 1, PREV_NONE, m1);
    lemma_first_row_cols(op, size, o, radius, 2, -1, -1, 1, PREV_NONE, m2);
    lemma_first_row_cols(op, size, o, radius, 3, -1, -1, 1, PREV_NONE, m3);
    crate::geom::lemma_index_coord(size, o);
    crate::geom::lemma_index_coord(size, n);
    let i = size.index_of(n);
    lemma_mark_keeps(m4, size, o.x as int, o.y as int);
    if n != o {
        let dx = n.x - o.x;
        let dy = n.y - o.y;
        if dy == -1 {
            assert(transform(o, 0, 1, dx) == (n.x as int, n.y as int));
            assert(m1 == scan_cols(op, size, o, radius, 0, 1, -1, -1, 1, -1, 1, 1, 1, PREV_NONE, m0));
            assert(scan_cols(op, size, o, radius, 0, 1, -1, -1, 1, -1, 1, 1, 1, PREV_NONE, m0)[cell_index(
                size,
                transform(o, 0, 1, dx).0,
                transform(o, 0, 1, dx).1,
            )]);
            assert(m1[i]);
        } else if dy == 1 {
            assert(transform(o, 2, 1, dx) == (n.x as int, n.y as int));
            assert(m3 == scan_cols(op, size, o, radius, 2, 1, -1, -1, 1, -1, 1, 1, 1, PREV_NONE, m2));
            assert(scan_cols(op, size, o, radius, 2, 1, -1, -1, 1, -1, 1, 1, 1, PREV_NONE, m2)[cell_index(
                size,
                transform(o, 2, 1, dx).0,
                transform(o, 2, 1, dx).1,
            )]);
            assert(m3[i]);
        } else if dx == 1 {
            assert(transform(o, 1, 1, dy) == (n.x as int, n.y as int));
            assert(m2 == scan_cols(op, size, o, radius, 1, 1, -1, -1, 1, -1, 1, 1, 1, PREV_NONE, m1));
            assert(scan_cols(op, size, o, radius, 1, 1, -1, -1, 1, -1, 1, 1, 1, PREV_NONE, m1)[cell_index(
                size,
                transform(o, 1, 1, dy).0,
                transform(o, 1, 1, dy).1,
            )]);
            assert(m2[i]);
        } else {
            assert(transform(o, 3, 1, dy) == (n.x as int, n.y as int));
            assert(m4 == scan_cols(op, size, o, radius, 3, 1, -1, -1, 1, -1, 1, 1, 1, PREV_NONE, m3));
            assert(scan_cols(op, size, o, radius, 3, 1, -1, -1, 1, -1, 1, 1, 1, PREV_NONE, m3)[cell_index(
                size,
                transform(o, 3, 1, dy).0,
                transform(o, 3, 1, dy).1,
            )]);
            assert(m4[i]);
        }
    }
}

/// Sight reaches no farther than the scan radius: every cell in the field of
/// view lies within Chebyshev distance `radius` of the viewpoint.
pub proof fn lemma_field_of_view_within_radius(op: Seq<u8>, size: Size, o: Coord, radius: int, i: int)
    requires
        size.wf(),
        size.contains(o),
        radius >= 0,
        0 <= i < size.count(),
        field_of_view(op, size, o, radius)[i],
    ensures
        crate::geom::chebyshev(size.coord_of(i), o) <= radius,
{
    let m0 = Seq::new(size.count(), |k: int| false);
    lemma_row_near(op, size, o, radius, 0, 1, -1, 1, 1, 1, m0);
    let m1 = scan_quadrant(op, size, o, radius, 0, m0);
    lemma_row_near(op, size, o, radius, 1, 1, -1, 1, 1, 1, m1);
    let m2 = scan_quadrant(op, size, o, radius, 1, m1);
    lemma_row_near(op, size, o, radius, 2, 1, -1, 1, 1, 1, m2);
    let m3 = scan_quadrant(op, size, o, radius, 2, m2);
    lemma_row_near(op, size, o, radius, 3, 1, -1, 1, 1, 1, m3);
    let m4 = scan_quadrant(op, size, o, radius, 3, m3);
    crate::geom::lemma_index_coord(size, o);
    if i != size.index_of(o) {
        assert(m4[i]);
        assert(m3[i] || near(size, o, radius, i));
        assert(m2[i] || near(size, o, radius, i));
        assert(m1[i] || near(size, o, radius, i));
        assert(m0[i] || near(size, o, radius, i));
    }
}

/// Product of two small integers.
fn product(a: i64, b: i64) -> (r: i64)
    requires
        -0x100000 <= a <= 0x100000,
        -0x100000 <= b <= 0x100000,
    ensures
        r == a * b,
{
    assert(-0x10000000000 <= a * b <= 0x10000000000) by (nonlinear_arith)
        requires
            -0x100000 <= a <= 0x100000,
            -0x100000 <= b <= 0x100000,
    ;
    a * b
}

fn cell_at(size: Size, x: i64, y: i64) -> (r: Option<usize>)
    requires
        size.wf(),
        -2 * MAX_RADIUS - 65536 <= x <= 2 * MAX_RADIUS + 65536,
        -2 * MAX_RADIUS - 65536 <= y <= 2 * MAX_RADIUS + 65536,
    ensures
        r is Some <==> in_grid(size, x as int, y as int),
        r matches Some(i) ==> i == cell_index(size, x as int, y as int) && i < size.count(),
{
    if 0 <= x && x < size.width as i64 && 0 <= y && y < size.height as i64 {
        let w = size.width as usize;
        let yu = y as usize;
        proof {
            crate::geom::lemma_count_bound(size);
            assert(yu * w + x < size.count()) by (nonlinear_arith)
                requires
                    0 <= yu < size.height,
                    0 <= x < size.width,
                    w == size.width,
                    size.count() == size.width * size.height,
            ;
        }
        Some(yu * w + x as usize)
    } else {
        None
    }
}

fn transform_exec(o: Coord, q: u8, d: i64, col: i64) -> (r: (i64, i64))
    requires
        0 <= d <= MAX_RADIUS,
        -d <= col <= d,
        -65536 <= o.x <= 65536,
        -65536 <= o.y <= 65536,
    ensures
        r.0 == transform(o, q as int, d as int, col as int).0,
        r.1 == transform(o, q as int, d as int, col as int).1,
        -2 * MAX_RADIUS - 65536 <= r.0 <= 2 * MAX_RADIUS + 65536,
        -2 * MAX_RADIUS - 65536 <= r.1 <= 2 * MAX_RADIUS + 65536,
{
    let ox = o.x as i64;
    let oy = o.y as i64;
    if q == 0 {
        (ox + col, oy - d)
    } else if q == 1 {
        (ox + d, oy + col)
    } else if q == 2 {
        (ox + col, oy + d)
    } else {
        (ox - d, oy + col)
    }
}

/// Executes `scan_row`, writing into `mask`.
fn scan_row_exec(
    op: &Vec<u8>,
    size: Size,
    o: Coord,
    radius: i64,
    q: u8,
    d: i64,
    sn: i64,
    sd: i64,
    en: i64,
    ed: i64,
    mask: &mut Vec<bool>,
)
    requires
        scan_ok(op@, size, o, radius as int, old(mask)@),
        1 <= d,
        slope_ok(sn as int, sd as int, radius as int),
        slope_ok(en as int, ed as int, radius as int),
    ensures
        final(mask)@.len() == old(mask)@.len(),
        final(mask)@ == scan_row(
            op@,
            size,
            o,
            radius as int,
            q as int,
            d as int,
            sn as int,
            sd as int,
            en as int,
            ed as int,
            old(mask)@,
        ),
    decreases radius + 1 - d,
{
    if d > radius {
        return ;
    }
    proof {
        crate::geom::lemma_count_bound(size);
    }
    let ghost m0 = mask@;
    let mut col: i64 = -d;
    let mut csn = sn;
    let mut csd = sd;
    let mut prev: u8 = PREV_NONE;
    while col <= d
        invariant
            scan_ok(op@, size, o, radius as int, mask@),
            1 <= d <= radius,
            -d <= col <= d + 1,
            slope_ok(sn as int, sd as int, radius as int),
            slope_ok(csn as int, csd as int, radius as int),
            slope_ok(en as int, ed as int, radius as int),
            scan_cols(
                op@,
                size,
                o,
                radius as int,
                q as int,
                d as int,
                col as int,
                sn as int,
                sd as int,
                csn as int,
                csd as int,
                en as int,
                ed as int,
                prev,
                mask@,
            ) == scan_row(
                op@,
                size,
                o,
                radius as int,
                q as int,
                d as int,
                sn as int,
                sd as int,
                en as int,
                ed as int,
                m0,
            ),
        decreases d + 1 - col,
    {
        let member = product(2 * col + 1, sd) > product(2 * d, sn) && product(2 * col - 1, ed)
            < product(2 * d, en);
        if member {
            let (x, y) = transform_exec(o, q, d, col);
            let cell = cell_at(size, x, y);
            let wall = match cell {
                None => true,
                Some(i) => op[i] == FULLY_OPAQUE,
            };
            let sym = product(col, csd) >= product(d, csn) && product(col, ed) <= product(d, en);
            if wall || sym {
                match cell {
                    Some(i) => {
                        mask.set(i, true);
                    },
                    None => {},
                }
            }
            if prev == PREV_WALL && !wall {
                csn = 2 * col - 1;
                csd = 2 * d;
            }
            if prev == PREV_FLOOR && wall {
                scan_row_exec(op, size, o, radius, q, d + 1, csn, csd, 2 * col - 1, 2 * d, mask);
            }
            prev = if wall {
                PREV_WALL
            } else {
                PREV_FLOOR
            };
        }
        col = col + 1;
    }
    if prev == PREV_FLOOR {
        scan_row_exec(op, size, o, radius, q, d + 1, csn, csd, en, ed, mask);
    }
}


/// Computes `field_of_view` into `mask`, reusing its storage.
pub fn compute_field_of_view(op: &Vec<u8>, size: Size, o: Coord, radius: i64, mask: &mut Vec<bool>)
    requires
        size.wf(),
        op@.len() == size.count(),
        size.contains(o),
        1 <= radius <= MAX_RADIUS,
    ensures
        final(mask)@ == field_of_view(op@, size, o, radius as int),
        final(mask)@.len() == size.count(),
        final(mask)@[size.index_of(o)],
{
    let n = size.num_cells();
    mask.clear();
    let mut i: usize = 0;
    while i < n
        invariant
            i <= n,
            n == size.count(),
            mask@.len() == i,
            forall|k: int| 0 <= k < i ==> !mask@[k],
        decreases n - i,
    {
        mask.push(false);
        i += 1;
    }
    assert(mask@ == Seq::new(size.count(), |i: int| false));
    scan_row_exec(op, size, o, radius, 0, 1, -1, 1, 1, 1, mask);
    scan_row_exec(op, size, o, radius, 1, 1, -1, 1, 1, 1, mask);
    scan_row_exec(op, size, o, radius, 2, 1, -1, 1, 1, 1, mask);
    scan_row_exec(op, size, o, radius, 3, 1, -1, 1, 1, 1, mask);
    let c = size.index(o);
    mask.set(c, true);
}
} // verus!
