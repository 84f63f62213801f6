//! Grids: where items go.
use vstd::arithmetic::div_mod::*;
use vstd::arithmetic::mul::*;
use vstd::prelude::*;

verus! {

/// What an item asks for: rows and columns are counted from 1, and spans are at
/// least 1.
#[derive(Clone, Copy, Debug, PartialEq, Eq, Structural)]
pub struct GridItem {
    pub in_flow: bool,
    pub row_start: Option<usize>,
    pub column_start: Option<usize>,
    pub row_span: Option<usize>,
    pub column_span: Option<usize>,
}

/// A rectangle of cells.
#[verifier::ext_equal]
pub struct AreaView {
    pub row: int,
    pub col: int,
    pub rows: int,
    pub cols: int,
}

/// Two rectangles have a cell in common.
pub open spec fn overlaps(a: AreaView, b: AreaView) -> bool {
    &&& a.row < b.row + b.rows
    &&& b.row < a.row + a.rows
    &&& a.col < b.col + b.cols
    &&& b.col < a.col + a.cols
}

/// How many tracks an item spans.
pub open spec fn span_of(span: Option<usize>) -> int {
    match span {
        Some(n) => if n > 1 {
            n as int
        } else {
            1
        },
        None => 1,
    }
}

/// How many columns an item spans: no more than there are.
pub open spec fn cols_of(item: GridItem, ncols: int) -> int {
    if span_of(item.column_span) < ncols {
        span_of(item.column_span)
    } else {
        ncols
    }
}

/// The line that an item asks for, counted from 0.
pub open spec fn line_of(start: Option<usize>) -> Option<int> {
    match start {
        Some(n) => if n > 0 {
            Some(n - 1)
        } else {
            None
        },
        None => None,
    }
}

/// An item that takes part in the grid and asks for a row or a column.
pub open spec fn is_fixed(item: GridItem) -> bool {
    item.in_flow && (line_of(item.row_start) is Some || line_of(item.column_start) is Some)
}

/// An item that takes part in the grid and asks for neither.
pub open spec fn is_auto(item: GridItem) -> bool {
    item.in_flow && !is_fixed(item)
}

/// Item `j` is placed before item `i`: those that ask for a row or column come
/// first, and otherwise the order is that of the document.
pub open spec fn precedes(items: Seq<GridItem>, j: int, i: int) -> bool {
    &&& 0 <= j < items.len()
    &&& is_fixed(items[j]) && (j < i || !is_fixed(items[i])) || is_auto(items[j]) && is_auto(
        items[i],
    ) && j < i
}

/// The rectangle of item `i` with its first cell at a row and column.
pub open spec fn area(items: Seq<GridItem>, ncols: int, i: int, row: int, col: int) -> AreaView {
    AreaView { row, col, rows: span_of(items[i].row_span), cols: cols_of(items[i], ncols) }
}

/// The rectangle of an item that has been placed.
pub open spec fn placed_area(
    items: Seq<GridItem>,
    ncols: int,
    pos: Seq<Option<(usize, usize)>>,
    j: int,
) -> AreaView {
    let (row, col) = pos[j]->0;
    area(items, ncols, j, row as int, col as int)
}

/// Item `i` fits at a row and column: it lies within the columns and overlaps
/// nothing placed before it.
pub open spec fn fits(
    items: Seq<GridItem>,
    ncols: int,
    pos: Seq<Option<(usize, usize)>>,
    i: int,
    row: int,
    col: int,
) -> bool {
    let a = area(items, ncols, i, row, col);
    &&& col + a.cols <= ncols
    &&& forall|j: int| #[trigger]
        precedes(items, j, i) ==> !overlaps(placed_area(items, ncols, pos, j), a)
}

/// Item `i` fits at the cell with number `cell`, counted row by row.
pub open spec fn fits_at(
    items: Seq<GridItem>,
    ncols: int,
    pos: Seq<Option<(usize, usize)>>,
    i: int,
    cell: int,
) -> bool {
    fits(items, ncols, pos, i, cell / ncols, cell % ncols)
}

/// The number of the first cell of an item that has been placed.
pub open spec fn cell_of(ncols: int, pos: Seq<Option<(usize, usize)>>, j: int) -> int {
    let (row, col) = pos[j]->0;
    row * ncols + col
}

/// A cell behind all items that were placed automatically before item `i`.
pub open spec fn behind_earlier(
    items: Seq<GridItem>,
    ncols: int,
    pos: Seq<Option<(usize, usize)>>,
    i: int,
    cell: int,
) -> bool {
    forall|j: int|
        0 <= j < i && is_auto(#[trigger] items[j]) ==> cell_of(ncols, pos, j) < cell
}

/// The place of an item. One that asks for a row and a column gets them, moved
/// left as far as it takes to lie within the columns. One that asks for a row
/// gets the first column where it fits, or the last where it lies within the
/// columns. One that asks for a column gets the first row where it fits. Any
/// other gets the first cell where it fits behind those before it.
pub open spec fn is_place_of(
    items: Seq<GridItem>,
    ncols: int,
    pos: Seq<Option<(usize, usize)>>,
    i: int,
) -> bool {
    let item = items[i];
    let (r, c) = pos[i]->0;
    let last = ncols - cols_of(item, ncols);
    match (line_of(item.row_start), line_of(item.column_start)) {
        (Some(row), Some(col)) => r == row && c == if col < last {
            col
        } else {
            last
        },
        (Some(row), None) => r == row && {
            ||| {
                &&& fits(items, ncols, pos, i, row, c as int)
                &&& forall|c2: int| 0 <= c2 < c ==> !#[trigger] fits(items, ncols, pos, i, row, c2)
            }
            ||| {
                &&& c == last
                &&& forall|c2: int|
                    0 <= c2 < ncols ==> !#[trigger] fits(items, ncols, pos, i, row, c2)
            }
        },
        (None, Some(col)) => {
            &&& c == if col < last {
                col
            } else {
                last
            }
            &&& fits(items, ncols, pos, i, r as int, c as int)
            &&& forall|r2: int| 0 <= r2 < r ==> !#[trigger] fits(items, ncols, pos, i, r2, c as int)
        },
        (None, None) => {
            let cell = r * ncols + c;
            &&& c < ncols
            &&& fits(items, ncols, pos, i, r as int, c as int)
            &&& behind_earlier(items, ncols, pos, i, cell)
            &&& forall|k: int|
                0 <= k < cell && behind_earlier(items, ncols, pos, i, k) ==> !#[trigger] fits_at(
                    items,
                    ncols,
                    pos,
                    i,
                    k,
                )
        },
    }
}

/// The places of all items. Those that take no part in the grid have none.
pub open spec fn is_placement(
    items: Seq<GridItem>,
    ncols: int,
    pos: Seq<Option<(usize, usize)>>,
) -> bool {
    &&& pos.len() == items.len()
    &&& forall|i: int|
        0 <= i < items.len() ==> (#[trigger] pos[i] is Some <==> items[i].in_flow)
    &&& forall|i: int|
        0 <= i < items.len() && items[i].in_flow ==> #[trigger] is_place_of(items, ncols, pos, i)
}

/// How many rows an item can add to a grid.
pub open spec fn row_demand(item: GridItem) -> int {
    span_of(item.row_span) + match line_of(item.row_start) {
        Some(row) => row,
        None => 0,
    }
}

/// The rows that those of the first `n` items can add that ask for a row or
/// column (`fixed`), or that do not.
pub open spec fn rows_needed(items: Seq<GridItem>, fixed: bool, n: int) -> int
    decreases n,
{
    if n <= 0 {
        0
    } else if items[n - 1].in_flow && is_fixed(items[n - 1]) == fixed {
        rows_needed(items, fixed, n - 1) + row_demand(items[n - 1])
    } else {
        rows_needed(items, fixed, n - 1)
    }
}

/// The cells that a grid can have are few enough to be counted.
pub open spec fn grid_fits(items: Seq<GridItem>, ncols: int) -> bool {
    let n = items.len() as int;
    (rows_needed(items, true, n) + rows_needed(items, false, n) + 1) * ncols <= usize::MAX
}

proof fn rows_needed_grows(items: Seq<GridItem>, fixed: bool, a: int, b: int)
    requires
        0 <= a <= b <= items.len(),
    ensures
        0 <= rows_needed(items, fixed, a) <= rows_needed(items, fixed, b),
    decreases b,
{
    if a < b {
        rows_needed_grows(items, fixed, a, b - 1);
    } else if a > 0 {
        rows_needed_grows(items, fixed, a - 1, b - 1);
    }
}

/// Everything placed so far ends above row `height`.
spec fn ends_above(
    items: Seq<GridItem>,
    ncols: int,
    pos: Seq<Option<(usize, usize)>>,
    height: int,
) -> bool {
    forall|j: int|
        0 <= j < items.len() && (#[trigger] pos[j]) is Some ==> {
            let a = placed_area(items, ncols, pos, j);
            a.row + a.rows <= height
        }
}

/// Exactly the items before `i` have been placed.
spec fn placed_before(items: Seq<GridItem>, pos: Seq<Option<(usize, usize)>>, i: int) -> bool {
    &&& pos.len() == items.len()
    &&& forall|j: int|
        0 <= j < items.len() ==> (#[trigger] pos[j] is Some <==> precedes(items, j, i))
}

fn span(s: Option<usize>) -> (r: usize)
    ensures
        r == span_of(s),
{
    match s {
        Some(n) => if n > 1 {
            n
        } else {
            1
        },
        None => 1,
    }
}

fn cols(item: &GridItem, ncols: usize) -> (r: usize)
    ensures
        r == cols_of(*item, ncols as int),
{
    let n: usize = span(item.column_span);
    if n < ncols {
        n
    } else {
        ncols
    }
}

fn line(start: Option<usize>) -> (r: Option<usize>)
    ensures
        match r {
            Some(n) => line_of(start) == Some(n as int),
            None => line_of(start) is None,
        },
{
    match start {
        Some(n) => if n > 0 {
            Some(n - 1)
        } else {
            None
        },
        None => None,
    }
}

/// Whether `a..a + n` and `b..b + m` have a number in common.
fn ranges_meet(a: usize, n: usize, b: usize, m: usize) -> (r: bool)
    ensures
        r == (a < b + m && b < a + n),
{
    if a < b {
        b - a < n
    } else {
        a - b < m && (a > b || n > 0)
    }
}

fn check_fit(
    items: &[GridItem],
    ncols: usize,
    pos: &Vec<Option<(usize, usize)>>,
    i: usize,
    row: usize,
    col: usize,
) -> (r: bool)
    requires
        i < items@.len(),
        placed_before(items@, pos@, i as int),
        ncols > 0,
    ensures
        r == fits(items@, ncols as int, pos@, i as int, row as int, col as int),
{
    let (rs, cs): (usize, usize) = (span(items[i].row_span), cols(&items[i], ncols));
    if col >= ncols || cs > ncols - col {
        return false;
    }
    let mut j: usize = 0;
    while j < items.len()
        invariant
            j <= items@.len(),
            i < items@.len(),
            placed_before(items@, pos@, i as int),
            rs == span_of(items@[i as int].row_span),
            cs == cols_of(items@[i as int], ncols as int),
            forall|k: int|
                0 <= k < j && #[trigger] precedes(items@, k, i as int) ==> !overlaps(
                    placed_area(items@, ncols as int, pos@, k),
                    area(items@, ncols as int, i as int, row as int, col as int),
                ),
        decreases items@.len() - j,
    {
        assert(pos@[j as int] is Some <==> precedes(items@, j as int, i as int));
        if let Some((r2, c2)) = pos[j] {
            let rs2: usize = span(items[j].row_span);
            let cs2: usize = cols(&items[j], ncols);
            if ranges_meet(r2, rs2, row, rs) && ranges_meet(c2, cs2, col, cs) {
                assert(overlaps(
                    placed_area(items@, ncols as int, pos@, j as int),
                    area(items@, ncols as int, i as int, row as int, col as int),
                ));
                return false;
            }
        }
        j = j + 1;
    }
    true
}

proof fn fits_agrees(
    items: Seq<GridItem>,
    ncols: int,
    p: Seq<Option<(usize, usize)>>,
    q: Seq<Option<(usize, usize)>>,
    i: int,
)
    requires
        forall|j: int| #[trigger] precedes(items, j, i) ==> p[j] == q[j],
    ensures
        forall|row: int, col: int| #[trigger]
            fits(items, ncols, p, i, row, col) == fits(items, ncols, q, i, row, col),
{
    assert forall|row: int, col: int| #[trigger]
        fits(items, ncols, p, i, row, col) == fits(items, ncols, q, i, row, col) by {
        let a = area(items, ncols, i, row, col);
        if fits(items, ncols, p, i, row, col) {
            assert forall|j: int| #[trigger] precedes(items, j, i) implies !overlaps(
                placed_area(items, ncols, q, j),
                a,
            ) by {
                assert(!overlaps(placed_area(items, ncols, p, j), a));
            }
        }
        if fits(items, ncols, q, i, row, col) {
            assert forall|j: int| #[trigger] precedes(items, j, i) implies !overlaps(
                placed_area(items, ncols, p, j),
                a,
            ) by {
                assert(!overlaps(placed_area(items, ncols, q, j), a));
            }
        }
    }
}

/// The place of an item depends on nothing placed after it.
proof fn place_agrees(
    items: Seq<GridItem>,
    ncols: int,
    p: Seq<Option<(usize, usize)>>,
    q: Seq<Option<(usize, usize)>>,
    i: int,
)
    requires
        0 <= i < items.len(),
        items[i].in_flow,
        p[i] == q[i],
        forall|j: int| #[trigger] precedes(items, j, i) ==> p[j] == q[j],
        is_place_of(items, ncols, p, i),
    ensures
        is_place_of(items, ncols, q, i),
{
    fits_agrees(items, ncols, p, q, i);
    let (r, c) = p[i]->0;
    let item = items[i];
    match (line_of(item.row_start), line_of(item.column_start)) {
        (Some(row), Some(col)) => {},
        (Some(row), None) => {
            assert forall|c2: int| !#[trigger] fits(items, ncols, q, i, row, c2) || fits(
                items,
                ncols,
                p,
                i,
                row,
                c2,
            ) by {
                assert(fits(items, ncols, p, i, row, c2) == fits(items, ncols, q, i, row, c2));
            }
            assert(fits(items, ncols, p, i, row, c as int) == fits(
                items,
                ncols,
                q,
                i,
                row,
                c as int,
            ));
        },
        (None, Some(col)) => {
            assert forall|r2: int| !#[trigger] fits(items, ncols, q, i, r2, c as int) || fits(
                items,
                ncols,
                p,
                i,
                r2,
                c as int,
            ) by {
                assert(fits(items, ncols, p, i, r2, c as int) == fits(
                    items,
                    ncols,
                    q,
                    i,
                    r2,
                    c as int,
                ));
            }
            assert(fits(items, ncols, p, i, r as int, c as int) == fits(
                items,
                ncols,
                q,
                i,
                r as int,
                c as int,
            ));
        },
        (None, None) => {
            let cell = r * ncols + c;
            assert(fits(items, ncols, p, i, r as int, c as int) == fits(
                items,
                ncols,
                q,
                i,
                r as int,
                c as int,
            ));
            assert forall|k: int| #[trigger]
                behind_earlier(items, ncols, p, i, k) == behind_earlier(items, ncols, q, i, k) by {
                if behind_earlier(items, ncols, p, i, k) {
                    assert forall|j: int|
                        0 <= j < i && is_auto(#[trigger] items[j]) implies cell_of(ncols, q, j)
                        < k by {
                        assert(precedes(items, j, i));
                        assert(cell_of(ncols, p, j) < k);
                    }
                }
                if behind_earlier(items, ncols, q, i, k) {
                    assert forall|j: int|
                        0 <= j < i && is_auto(#[trigger] items[j]) implies cell_of(ncols, p, j)
                        < k by {
                        assert(precedes(items, j, i));
                        assert(cell_of(ncols, q, j) < k);
                    }
                }
            }
            assert(behind_earlier(items, ncols, p, i, cell));
            assert forall|k: int|
                0 <= k < cell && behind_earlier(items, ncols, q, i, k) implies !#[trigger] fits_at(
                items,
                ncols,
                q,
                i,
                k,
            ) by {
                assert(behind_earlier(items, ncols, p, i, k));
                assert(!fits_at(items, ncols, p, i, k));
                assert(fits(items, ncols, p, i, k / ncols, k % ncols) == fits(
                    items,
                    ncols,
                    q,
                    i,
                    k / ncols,
                    k % ncols,
                ));
            }
        },
    }
}

/// Below everything there is room.
proof fn room_below(
    items: Seq<GridItem>,
    ncols: int,
    pos: Seq<Option<(usize, usize)>>,
    i: int,
    height: int,
    row: int,
    col: int,
)
    requires
        0 <= i < items.len(),
        placed_before(items, pos, i),
        ends_above(items, ncols, pos, height),
        row >= height,
        col + cols_of(items[i], ncols) <= ncols,
    ensures
        fits(items, ncols, pos, i, row, col),
{
    let a = area(items, ncols, i, row, col);
    assert forall|j: int| #[trigger] precedes(items, j, i) implies !overlaps(
        placed_area(items, ncols, pos, j),
        a,
    ) by {
        assert(pos[j] is Some);
    }
}

/// Records the place of item `i`.
proof fn recorded(
    items: Seq<GridItem>,
    ncols: int,
    before: Seq<Option<(usize, usize)>>,
    after: Seq<Option<(usize, usize)>>,
    i: int,
    row: usize,
    col: usize,
    height: int,
)
    requires
        0 <= i < items.len(),
        placed_before(items, before, i),
        after == before.update(i, Some((row, col))),
        ends_above(items, ncols, before, height),
        row + span_of(items[i].row_span) <= height + row_demand(items[i]),
    ensures
        ends_above(items, ncols, after, height + row_demand(items[i])),
        forall|r: int, c: int| #[trigger]
            fits(items, ncols, before, i, r, c) == fits(items, ncols, after, i, r, c),
{
    assert forall|j: int| #[trigger] precedes(items, j, i) implies before[j] == after[j] by {
        assert(j != i);
    }
    fits_agrees(items, ncols, before, after, i);
    assert forall|j: int| 0 <= j < items.len() && (#[trigger] after[j]) is Some implies {
        let a = placed_area(items, ncols, after, j);
        a.row + a.rows <= height + row_demand(items[i])
    } by {
        if j != i {
            assert(before[j] == after[j]);
            assert(placed_area(items, ncols, before, j) == placed_area(items, ncols, after, j));
        }
    }
}

fn place_fixed(
    items: &[GridItem],
    ncols: usize,
    pos: &mut Vec<Option<(usize, usize)>>,
    i: usize,
    Ghost(height): Ghost<int>,
)
    requires
        i < items@.len(),
        is_fixed(items@[i as int]),
        placed_before(items@, old(pos)@, i as int),
        ends_above(items@, ncols as int, old(pos)@, height),
        0 <= height,
        height + row_demand(items@[i as int]) <= usize::MAX,
        ncols > 0,
    ensures
        exists|p: (usize, usize)| final(pos)@ == old(pos)@.update(i as int, Some(p)),
        is_place_of(items@, ncols as int, final(pos)@, i as int),
        ends_above(items@, ncols as int, final(pos)@, height + row_demand(items@[i as int])),
{
    let ghost before = pos@;
    let ghost n = ncols as int;
    let ghost k = i as int;
    let cs: usize = cols(&items[i], ncols);
    let last: usize = ncols - cs;
    let row: Option<usize> = line(items[i].row_start);
    let col: Option<usize> = line(items[i].column_start);
    match (row, col) {
        (Some(r), Some(c)) => {
            let c: usize = if c < last {
                c
            } else {
                last
            };
            pos.set(i, Some((r, c)));
            proof {
                recorded(items@, n, before, pos@, k, r, c, height);
            }
        },
        (Some(r), None) => {
            let mut c: usize = 0;
            while c < ncols && !check_fit(items, ncols, pos, i, r, c)
                invariant
                    c <= ncols,
                    i < items@.len(),
                    ncols > 0,
                    pos@ == before,
                    n == ncols,
                    k == i,
                    placed_before(items@, before, k),
                    forall|c2: int|
                        0 <= c2 < c ==> !#[trigger] fits(items@, n, before, k, r as int, c2),
                decreases ncols - c,
            {
                c = c + 1;
            }
            let at: usize = if c < last {
                c
            } else {
                last
            };
            pos.set(i, Some((r, at)));
            proof {
                recorded(items@, n, before, pos@, k, r, at, height);
                if c < ncols {
                    assert(fits(items@, n, before, k, r as int, c as int));
                    assert(at == c);
                }
                assert forall|c2: int| 0 <= c2 < c implies !#[trigger] fits(
                    items@,
                    n,
                    pos@,
                    k,
                    r as int,
                    c2,
                ) by {
                    assert(!fits(items@, n, before, k, r as int, c2));
                }
            }
        },
        (None, Some(c)) => {
            let at: usize = if c < last {
                c
            } else {
                last
            };
            let mut r: usize = 0;
            while !check_fit(items, ncols, pos, i, r, at)
                invariant
                    r <= height <= usize::MAX,
                    i < items@.len(),
                    ncols > 0,
                    pos@ == before,
                    n == ncols,
                    k == i,
                    at + cols_of(items@[k], n) <= n,
                    placed_before(items@, before, k),
                    ends_above(items@, n, before, height),
                    forall|r2: int|
                        0 <= r2 < r ==> !#[trigger] fits(items@, n, before, k, r2, at as int),
                decreases height - r,
            {
                proof {
                    if r >= height {
                        room_below(items@, n, before, k, height, r as int, at as int);
                    }
                }
                r = r + 1;
            }
            pos.set(i, Some((r, at)));
            proof {
                assert(fits(items@, n, before, k, r as int, at as int));
                recorded(items@, n, before, pos@, k, r, at, height);
                assert forall|r2: int| 0 <= r2 < r implies !#[trigger] fits(
                    items@,
                    n,
                    pos@,
                    k,
                    r2,
                    at as int,
                ) by {
                    assert(!fits(items@, n, before, k, r2, at as int));
                }
            }
        },
        (None, None) => {},
    }
}

proof fn cell_number(row: int, col: int, ncols: int)
    requires
        0 <= col < ncols,
    ensures
        (row * ncols + col) / ncols == row,
        (row * ncols + col) % ncols == col,
{
    lemma_fundamental_div_mod_converse(row * ncols + col, ncols, row, col);
}

/// The cells behind the items placed automatically before item `i` are those
/// from `next` on.
spec fn next_is(
    items: Seq<GridItem>,
    ncols: int,
    pos: Seq<Option<(usize, usize)>>,
    i: int,
    next: int,
) -> bool {
    forall|k: int| 0 <= k ==> (#[trigger] behind_earlier(items, ncols, pos, i, k) <==> k >= next)
}

fn place_auto(
    items: &[GridItem],
    ncols: usize,
    pos: &mut Vec<Option<(usize, usize)>>,
    i: usize,
    next: usize,
    Ghost(height): Ghost<int>,
) -> (r: usize)
    requires
        i < items@.len(),
        is_auto(items@[i as int]),
        placed_before(items@, old(pos)@, i as int),
        ends_above(items@, ncols as int, old(pos)@, height),
        next_is(items@, ncols as int, old(pos)@, i as int, next as int),
        0 <= height,
        next <= height * ncols,
        (height + 1) * ncols <= usize::MAX,
        ncols > 0,
    ensures
        exists|p: (usize, usize)| final(pos)@ == old(pos)@.update(i as int, Some(p)),
        is_place_of(items@, ncols as int, final(pos)@, i as int),
        ends_above(items@, ncols as int, final(pos)@, height + row_demand(items@[i as int])),
        next_is(items@, ncols as int, final(pos)@, i + 1, r as int),
        r <= (height + 1) * ncols,
{
    let ghost before = pos@;
    let ghost n = ncols as int;
    let ghost k = i as int;
    let mut cell: usize = next;
    proof {
        assert((height + 1) * n == height * n + n) by (nonlinear_arith);
    }
    while !check_fit(items, ncols, pos, i, cell / ncols, cell % ncols)
        invariant
            next <= cell <= height * n,
            height * n + n <= usize::MAX,
            i < items@.len(),
            ncols > 0,
            0 <= height,
            pos@ == before,
            n == ncols,
            k == i,
            placed_before(items@, before, k),
            ends_above(items@, n, before, height),
            forall|c2: int|
                next <= c2 < cell ==> !#[trigger] fits_at(items@, n, before, k, c2),
        decreases height * n - cell,
    {
        proof {
            if cell >= height * n {
                assert(cell == height * n + 0);
                cell_number(height, 0, n);
                room_below(items@, n, before, k, height, height, 0);
            }
            assert(!fits_at(items@, n, before, k, cell as int));
        }
        cell = cell + 1;
    }
    let (r, c): (usize, usize) = (cell / ncols, cell % ncols);
    proof {
        lemma_fundamental_div_mod(cell as int, n);
        lemma_mul_is_commutative(n, r as int);
        lemma_div_is_ordered(cell as int, height * n, n);
        cell_number(height, 0, n);
    }
    pos.set(i, Some((r, c)));
    proof {
        assert(fits(items@, n, before, k, r as int, c as int));
        recorded(items@, n, before, pos@, k, r, c, height);
        let at = r * n + c;
        assert(at == cell);
        assert forall|c2: int| #[trigger]
            behind_earlier(items@, n, pos@, k, c2) == behind_earlier(items@, n, before, k, c2) by {
            if behind_earlier(items@, n, pos@, k, c2) {
                assert forall|j: int|
                    0 <= j < k && is_auto(#[trigger] items@[j]) implies cell_of(n, before, j)
                    < c2 by {
                    assert(cell_of(n, pos@, j) < c2);
                }
            }
            if behind_earlier(items@, n, before, k, c2) {
                assert forall|j: int|
                    0 <= j < k && is_auto(#[trigger] items@[j]) implies cell_of(n, pos@, j)
                    < c2 by {
                    assert(cell_of(n, before, j) < c2);
                }
            }
        }
        assert(behind_earlier(items@, n, before, k, at));
        assert forall|c2: int|
            0 <= c2 < at && behind_earlier(items@, n, pos@, k, c2) implies !#[trigger] fits_at(
            items@,
            n,
            pos@,
            k,
            c2,
        ) by {
            assert(behind_earlier(items@, n, before, k, c2));
            assert(!fits_at(items@, n, before, k, c2));
            assert(fits(items@, n, before, k, c2 / n, c2 % n) == fits(
                items@,
                n,
                pos@,
                k,
                c2 / n,
                c2 % n,
            ));
        }
        assert forall|c2: int| 0 <= c2 implies (#[trigger] behind_earlier(
            items@,
            n,
            pos@,
            k + 1,
            c2,
        ) <==> c2 >= at + 1) by {
            if behind_earlier(items@, n, pos@, k + 1, c2) {
                assert(is_auto(items@[k]));
                assert(cell_of(n, pos@, k) < c2);
            } else if c2 >= at + 1 {
                assert(behind_earlier(items@, n, before, k, c2));
                assert(behind_earlier(items@, n, pos@, k, c2));
                assert(cell_of(n, pos@, k) == at);
            }
        }
    }
    cell + 1
}

proof fn places_stay(
    items: Seq<GridItem>,
    ncols: int,
    before: Seq<Option<(usize, usize)>>,
    after: Seq<Option<(usize, usize)>>,
    i: int,
)
    requires
        0 <= i < items.len(),
        before.len() == items.len(),
        exists|p: (usize, usize)| after == before.update(i, Some(p)),
        is_place_of(items, ncols, after, i),
        forall|j: int|
            0 <= j < items.len() && (#[trigger] before[j]) is Some ==> {
                &&& j != i
                &&& items[j].in_flow
                &&& !precedes(items, i, j)
                &&& is_place_of(items, ncols, before, j)
            },
    ensures
        forall|j: int|
            0 <= j < items.len() && (#[trigger] after[j]) is Some ==> is_place_of(
                items,
                ncols,
                after,
                j,
            ),
{
    assert forall|j: int| 0 <= j < items.len() && (#[trigger] after[j]) is Some implies is_place_of(
        items,
        ncols,
        after,
        j,
    ) by {
        if j != i {
            assert(before[j] == after[j]);
            assert forall|m: int| #[trigger] precedes(items, m, j) implies before[m]
                == after[m] by {
                assert(m != i);
            }
            place_agrees(items, ncols, before, after, j);
        }
    }
}

fn asks_for_place(item: &GridItem) -> (r: bool)
    ensures
        r == is_fixed(*item),
{
    item.in_flow && (line(item.row_start).is_some() || line(item.column_start).is_some())
}

fn place_all_fixed(items: &[GridItem], ncols: usize) -> (pos: Vec<Option<(usize, usize)>>)
    requires
        ncols > 0,
        grid_fits(items@, ncols as int),
    ensures
        pos@.len() == items@.len(),
        forall|j: int|
            0 <= j < items@.len() ==> (#[trigger] pos@[j] is Some <==> is_fixed(items@[j])),
        forall|j: int|
            0 <= j < items@.len() && (#[trigger] pos@[j]) is Some ==> is_place_of(
                items@,
                ncols as int,
                pos@,
                j,
            ),
        ends_above(
            items@,
            ncols as int,
            pos@,
            rows_needed(items@, true, items@.len() as int),
        ),
{
    let ghost n = ncols as int;
    let ghost len = items@.len() as int;
    let mut pos: Vec<Option<(usize, usize)>> = Vec::new();
    while pos.len() < items.len()
        invariant
            pos@.len() <= items@.len(),
            forall|j: int| 0 <= j < pos@.len() ==> (#[trigger] pos@[j]) is None,
        decreases items@.len() - pos@.len(),
    {
        pos.push(None);
    }
    let mut i: usize = 0;
    while i < items.len()
        invariant
            i <= items@.len(),
            ncols > 0,
            n == ncols,
            len == items@.len(),
            grid_fits(items@, n),
            pos@.len() == items@.len(),
            forall|j: int|
                0 <= j < items@.len() ==> (#[trigger] pos@[j] is Some <==> is_fixed(items@[j]) && j
                    < i),
            forall|j: int|
                0 <= j < items@.len() && (#[trigger] pos@[j]) is Some ==> is_place_of(
                    items@,
                    n,
                    pos@,
                    j,
                ),
            ends_above(items@, n, pos@, rows_needed(items@, true, i as int)),
        decreases items@.len() - i,
    {
        if asks_for_place(&items[i]) {
            let ghost before = pos@;
            let ghost height = rows_needed(items@, true, i as int);
            proof {
                rows_needed_grows(items@, true, 0, i as int);
                rows_needed_grows(items@, true, i + 1, len);
                rows_needed_grows(items@, false, 0, len);
                height_is_counted(items@, n);
            }
            place_fixed(items, ncols, &mut pos, i, Ghost(height));
            proof {
                places_stay(items@, n, before, pos@, i as int);
            }
        }
        i = i + 1;
    }
    pos
}

proof fn height_is_counted(items: Seq<GridItem>, ncols: int)
    requires
        ncols > 0,
        grid_fits(items, ncols),
    ensures
        rows_needed(items, true, items.len() as int) + rows_needed(
            items,
            false,
            items.len() as int,
        ) + 1 <= usize::MAX,
{
    let h = rows_needed(items, true, items.len() as int) + rows_needed(
        items,
        false,
        items.len() as int,
    ) + 1;
    rows_needed_grows(items, true, 0, items.len() as int);
    rows_needed_grows(items, false, 0, items.len() as int);
    assert(h <= h * ncols) by (nonlinear_arith)
        requires
            h >= 0,
            ncols >= 1,
    ;
}

/// Places the items of a grid with the given number of columns. Items that ask
/// for a row or a column are placed first; the others follow in the cells that
/// are left, row by row.
pub fn place_items(items: &[GridItem], ncols: usize) -> (pos: Vec<Option<(usize, usize)>>)
    requires
        ncols > 0,
        grid_fits(items@, ncols as int),
    ensures
        is_placement(items@, ncols as int, pos@),
{
    let ghost n = ncols as int;
    let ghost len = items@.len() as int;
    let ghost base = rows_needed(items@, true, len);
    let mut pos: Vec<Option<(usize, usize)>> = place_all_fixed(items, ncols);
    let mut next: usize = 0;
    let mut i: usize = 0;
    proof {
        rows_needed_grows(items@, true, 0, len);
        assert(0 <= (base + 0) * n) by (nonlinear_arith)
            requires
                base >= 0,
                n > 0,
        ;
    }
    while i < items.len()
        invariant
            i <= items@.len(),
            ncols > 0,
            n == ncols,
            len == items@.len(),
            base == rows_needed(items@, true, len),
            base >= 0,
            grid_fits(items@, n),
            pos@.len() == items@.len(),
            forall|j: int|
                0 <= j < items@.len() ==> (#[trigger] pos@[j] is Some <==> is_fixed(items@[j])
                    || is_auto(items@[j]) && j < i),
            forall|j: int|
                0 <= j < items@.len() && (#[trigger] pos@[j]) is Some ==> is_place_of(
                    items@,
                    n,
                    pos@,
                    j,
                ),
            ends_above(items@, n, pos@, base + rows_needed(items@, false, i as int)),
            next_is(items@, n, pos@, i as int, next as int),
            next <= (base + rows_needed(items@, false, i as int)) * n,
        decreases items@.len() - i,
    {
        let ghost before = pos@;
        let ghost height = base + rows_needed(items@, false, i as int);
        proof {
            rows_needed_grows(items@, false, 0, i as int);
            rows_needed_grows(items@, false, i + 1, len);
        }
        if items[i].in_flow && !asks_for_place(&items[i]) {
            proof {
                let total = base + rows_needed(items@, false, len) + 1;
                assert(height + 1 <= total);
                lemma_mul_inequality(height + 1, total, n);
            }
            next = place_auto(items, ncols, &mut pos, i, next, Ghost(height));
            proof {
                places_stay(items@, n, before, pos@, i as int);
                let more = height + row_demand(items@[i as int]);
                lemma_mul_inequality(height + 1, more, n);
            }
        } else {
            assert forall|k: int| 0 <= k implies (#[trigger] behind_earlier(
                items@,
                n,
                pos@,
                i + 1,
                k,
            ) <==> k >= next) by {
                if behind_earlier(items@, n, pos@, i as int, k) {
                    assert(behind_earlier(items@, n, pos@, i + 1, k));
                } else if behind_earlier(items@, n, pos@, i + 1, k) {
                    assert(behind_earlier(items@, n, pos@, i as int, k));
                }
            }
        }
        i = i + 1;
    }
    pos
}

/// Whether the cells that a grid can have are few enough to be counted.
pub fn check_grid_size(items: &[GridItem], ncols: usize) -> (r: bool)
    requires
        ncols > 0,
    ensures
        r == grid_fits(items@, ncols as int),
{
    let ghost n = ncols as int;
    let ghost len = items@.len() as int;
    let mut total: u128 = 0;
    let mut i: usize = 0;
    while i < items.len()
        invariant
            i <= items@.len(),
            ncols > 0,
            n == ncols,
            len == items@.len(),
            total == rows_needed(items@, true, i as int) + rows_needed(items@, false, i as int),
            total <= usize::MAX,
        decreases items@.len() - i,
    {
        let item: &GridItem = &items[i];
        if item.in_flow {
            total = total + span(item.row_span) as u128;
            if let Some(row) = line(item.row_start) {
                total = total + row as u128;
            }
        }
        proof {
            assert(total == rows_needed(items@, true, i + 1) + rows_needed(items@, false, i + 1));
        }
        if total > usize::MAX as u128 {
            proof {
                rows_needed_grows(items@, true, i + 1, len);
                rows_needed_grows(items@, false, i + 1, len);
                let all = rows_needed(items@, true, len) + rows_needed(items@, false, len) + 1;
                assert(all <= all * n) by (nonlinear_arith)
                    requires
                        all >= 0,
                        n >= 1,
                ;
            }
            return false;
        }
        i = i + 1;
    }
    let (a, b): (u128, u128) = (total + 1, ncols as u128);
    assert(a * b <= 0x1_0000_0000_0000_0000 * 0xFFFF_FFFF_FFFF_FFFF) by (nonlinear_arith)
        requires
            a <= 0x1_0000_0000_0000_0000,
            b <= 0xFFFF_FFFF_FFFF_FFFF,
    ;
    a * b <= usize::MAX as u128
}

/// Every item lies within the columns.
pub proof fn items_lie_within_columns(
    items: Seq<GridItem>,
    ncols: int,
    pos: Seq<Option<(usize, usize)>>,
    i: int,
)
    requires
        ncols > 0,
        is_placement(items, ncols, pos),
        0 <= i < items.len(),
        items[i].in_flow,
    ensures
        ({
            let a = placed_area(items, ncols, pos, i);
            0 <= a.col && 0 < a.cols && a.col + a.cols <= ncols
        }),
{
    assert(is_place_of(items, ncols, pos, i));
    let (r, c) = pos[i]->0;
    assert(fits(items, ncols, pos, i, r as int, c as int) ==> c + cols_of(items[i], ncols)
        <= ncols);
}

/// An item that does not ask for a row overlaps nothing that is placed before
/// it.
pub proof fn items_without_row_overlap_nothing_before(
    items: Seq<GridItem>,
    ncols: int,
    pos: Seq<Option<(usize, usize)>>,
    j: int,
    i: int,
)
    requires
        is_placement(items, ncols, pos),
        0 <= i < items.len(),
        items[i].in_flow,
        line_of(items[i].row_start) is None,
        precedes(items, j, i),
    ensures
        !overlaps(placed_area(items, ncols, pos, j), placed_area(items, ncols, pos, i)),
{
    assert(is_place_of(items, ncols, pos, i));
    let (r, c) = pos[i]->0;
    assert(fits(items, ncols, pos, i, r as int, c as int));
}

/// Items that are placed automatically overlap nothing at all that is placed
/// automatically or asks for a place.
pub proof fn automatic_items_overlap_nothing(
    items: Seq<GridItem>,
    ncols: int,
    pos: Seq<Option<(usize, usize)>>,
    i: int,
    j: int,
)
    requires
        is_placement(items, ncols, pos),
        0 <= i < items.len(),
        is_auto(items[i]),
        0 <= j < items.len(),
        items[j].in_flow,
        i != j,
    ensures
        !overlaps(placed_area(items, ncols, pos, j), placed_area(items, ncols, pos, i)),
{
    if precedes(items, j, i) {
        items_without_row_overlap_nothing_before(items, ncols, pos, j, i);
    } else {
        assert(precedes(items, i, j));
        items_without_row_overlap_nothing_before(items, ncols, pos, i, j);
    }
}

/// Items that are placed automatically keep the order of the document, row by
/// row.
pub proof fn automatic_items_keep_their_order(
    items: Seq<GridItem>,
    ncols: int,
    pos: Seq<Option<(usize, usize)>>,
    j: int,
    i: int,
)
    requires
        is_placement(items, ncols, pos),
        0 <= j < i < items.len(),
        is_auto(items[i]),
        is_auto(items[j]),
    ensures
        cell_of(ncols, pos, j) < cell_of(ncols, pos, i),
{
    assert(is_place_of(items, ncols, pos, i));
}

proof fn same_place(
    items: Seq<GridItem>,
    ncols: int,
    p: Seq<Option<(usize, usize)>>,
    q: Seq<Option<(usize, usize)>>,
    i: int,
)
    requires
        ncols > 0,
        0 <= i < items.len(),
        items[i].in_flow,
        is_placement(items, ncols, p),
        is_placement(items, ncols, q),
        forall|j: int| #[trigger] precedes(items, j, i) ==> p[j] == q[j],
    ensures
        p[i] == q[i],
{
    assert(p[i] is Some && q[i] is Some);
    assert(is_place_of(items, ncols, p, i));
    assert(is_place_of(items, ncols, q, i));
    fits_agrees(items, ncols, p, q, i);
    items_lie_within_columns(items, ncols, p, i);
    items_lie_within_columns(items, ncols, q, i);
    let (r1, c1) = p[i]->0;
    let (r2, c2) = q[i]->0;
    assert(fits(items, ncols, p, i, r2 as int, c2 as int) == fits(
        items,
        ncols,
        q,
        i,
        r2 as int,
        c2 as int,
    ));
    assert(fits(items, ncols, p, i, r1 as int, c1 as int) == fits(
        items,
        ncols,
        q,
        i,
        r1 as int,
        c1 as int,
    ));
    if is_auto(items[i]) {
        let (k1, k2) = (cell_of(ncols, p, i), cell_of(ncols, q, i));
        cell_number(r1 as int, c1 as int, ncols);
        cell_number(r2 as int, c2 as int, ncols);
        assert forall|k: int| #[trigger]
            behind_earlier(items, ncols, p, i, k) == behind_earlier(items, ncols, q, i, k) by {
            if behind_earlier(items, ncols, p, i, k) {
                assert forall|j: int| 0 <= j < i && is_auto(#[trigger] items[j]) implies cell_of(
                    ncols,
                    q,
                    j,
                ) < k by {
                    assert(precedes(items, j, i));
                    assert(cell_of(ncols, p, j) < k);
                }
            }
            if behind_earlier(items, ncols, q, i, k) {
                assert forall|j: int| 0 <= j < i && is_auto(#[trigger] items[j]) implies cell_of(
                    ncols,
                    p,
                    j,
                ) < k by {
                    assert(precedes(items, j, i));
                    assert(cell_of(ncols, q, j) < k);
                }
            }
        }
        assert(0 <= k1 && 0 <= k2) by (nonlinear_arith)
            requires
                k1 == r1 * ncols + c1,
                k2 == r2 * ncols + c2,
                ncols > 0,
                r1 >= 0,
                r2 >= 0,
                c1 >= 0,
                c2 >= 0,
        ;
        if k1 < k2 {
            assert(behind_earlier(items, ncols, q, i, k1));
            assert(!fits_at(items, ncols, q, i, k1));
        } else if k2 < k1 {
            assert(behind_earlier(items, ncols, p, i, k2));
            assert(!fits_at(items, ncols, p, i, k2));
        }
    }
}

proof fn same_fixed_places(
    items: Seq<GridItem>,
    ncols: int,
    p: Seq<Option<(usize, usize)>>,
    q: Seq<Option<(usize, usize)>>,
    n: int,
)
    requires
        ncols > 0,
        0 <= n <= items.len(),
        is_placement(items, ncols, p),
        is_placement(items, ncols, q),
    ensures
        forall|i: int| 0 <= i < n && is_fixed(#[trigger] items[i]) ==> p[i] == q[i],
    decreases n,
{
    if n > 0 {
        same_fixed_places(items, ncols, p, q, n - 1);
        if is_fixed(items[n - 1]) {
            assert forall|j: int| #[trigger] precedes(items, j, n - 1) implies p[j] == q[j] by {
                assert(is_fixed(items[j]));
            }
            same_place(items, ncols, p, q, n - 1);
        }
    }
}

proof fn same_places_up_to(
    items: Seq<GridItem>,
    ncols: int,
    p: Seq<Option<(usize, usize)>>,
    q: Seq<Option<(usize, usize)>>,
    n: int,
)
    requires
        ncols > 0,
        0 <= n <= items.len(),
        is_placement(items, ncols, p),
        is_placement(items, ncols, q),
        forall|i: int| 0 <= i < items.len() && is_fixed(#[trigger] items[i]) ==> p[i] == q[i],
    ensures
        forall|i: int| 0 <= i < n ==> #[trigger] p[i] == q[i],
    decreases n,
{
    if n > 0 {
        same_places_up_to(items, ncols, p, q, n - 1);
        let k = n - 1;
        assert(p[k] is Some <==> q[k] is Some);
        if is_auto(items[k]) {
            assert forall|j: int| #[trigger] precedes(items, j, k) implies p[j] == q[j] by {
                if is_fixed(items[j]) {
                    assert(p[j] == q[j]);
                }
            }
            same_place(items, ncols, p, q, k);
        }
    }
}

/// What items ask for settles where they go.
pub proof fn placement_is_unique(
    items: Seq<GridItem>,
    ncols: int,
    p: Seq<Option<(usize, usize)>>,
    q: Seq<Option<(usize, usize)>>,
)
    requires
        ncols > 0,
        is_placement(items, ncols, p),
        is_placement(items, ncols, q),
    ensures
        p == q,
{
    same_fixed_places(items, ncols, p, q, items.len() as int);
    same_places_up_to(items, ncols, p, q, items.len() as int);
    assert(p =~= q);
}

/// How many tracks an item takes from `start` on where there are `limit`.
pub open spec fn clipped(span: Option<usize>, start: int, limit: int) -> int {
    if span_of(span) < limit - start {
        span_of(span)
    } else {
        limit - start
    }
}

/// How many tracks an item takes from `start` on where there are `limit`.
pub fn clipped_span(span: Option<usize>, start: usize, limit: usize) -> (r: usize)
    requires
        start < limit,
    ensures
        r == clipped(span, start as int, limit as int),
        1 <= r,
        start + r <= limit,
{
    let room: usize = limit - start;
    match span {
        Some(n) => if n > 1 {
            if n < room {
                n
            } else {
                room
            }
        } else {
            1
        },
        None => 1,
    }
}

/// How many rows the cells of items reach down: behind the last row in which an
/// item starts.
pub fn rows_used(cells: &[Option<(usize, usize)>]) -> (r: usize)
    requires
        forall|i: int|
            0 <= i < cells@.len() ==> (#[trigger] cells@[i] matches Some(c) ==> c.0 < usize::MAX),
    ensures
        forall|i: int|
            0 <= i < cells@.len() ==> (#[trigger] cells@[i] matches Some(c) ==> c.0 < r),
        r > 0 ==> exists|i: int|
            0 <= i < cells@.len() && (#[trigger] cells@[i] matches Some(c) && c.0 + 1 == r),
{
    let mut rows: usize = 0;
    let mut i: usize = 0;
    while i < cells.len()
        invariant
            i <= cells@.len(),
            forall|j: int|
                0 <= j < cells@.len() ==> (#[trigger] cells@[j] matches Some(c) ==> c.0
                    < usize::MAX),
            forall|j: int| 0 <= j < i ==> (#[trigger] cells@[j] matches Some(c) ==> c.0 < rows),
            rows > 0 ==> exists|j: int|
                0 <= j < i && (#[trigger] cells@[j] matches Some(c) && c.0 + 1 == rows),
        decreases cells@.len() - i,
    {
        if let Some((r, _)) = cells[i] {
            if rows <= r {
                rows = r + 1;
                assert(cells@[i as int] matches Some(c) && c.0 + 1 == rows);
            }
        }
        i = i + 1;
    }
    rows
}

/// The cell at a row and column lies in an area.
pub open spec fn holds_cell(a: AreaView, r: int, c: int) -> bool {
    a.row <= r < a.row + a.rows && a.col <= c < a.col + a.cols
}

/// Areas overlap where they share a cell, and only there.
pub proof fn overlapping_areas_share_a_cell(a: AreaView, b: AreaView)
    requires
        a.rows > 0,
        a.cols > 0,
        b.rows > 0,
        b.cols > 0,
    ensures
        overlaps(a, b) <==> exists|r: int, c: int| #[trigger]
            holds_cell(a, r, c) && holds_cell(b, r, c),
{
    let r = if a.row > b.row {
        a.row
    } else {
        b.row
    };
    let c = if a.col > b.col {
        a.col
    } else {
        b.col
    };
    if overlaps(a, b) {
        assert(holds_cell(a, r, c) && holds_cell(b, r, c));
    }
}

/// Items get the row and the column that they ask for, which are counted from one, moved
/// left only as far as the columns make it necessary; they span as many rows as they
/// ask for, and columns as far as there are any, one of each at least.
pub proof fn items_get_what_they_ask_for(
    items: Seq<GridItem>,
    ncols: int,
    pos: Seq<Option<(usize, usize)>>,
    i: int,
)
    requires
        is_placement(items, ncols, pos),
        0 <= i < items.len(),
        items[i].in_flow,
        ncols >= 1,
    ensures
        ({
            let item = items[i];
            let a = placed_area(items, ncols, pos, i);
            &&& item.row_start matches Some(n) ==> n > 0 ==> a.row == n - 1
            &&& item.column_start matches Some(n) ==> n > 0 && n - 1 + a.cols <= ncols ==> a.col
                == n - 1
            &&& a.col + a.cols <= ncols
            &&& item.row_span matches Some(n) ==> n > 0 ==> a.rows == n
            &&& item.row_span is None ==> a.rows == 1
            &&& item.column_span matches Some(n) ==> 0 < n <= ncols ==> a.cols == n
            &&& item.column_span matches Some(n) ==> n > ncols ==> a.cols == ncols
            &&& item.column_span is None ==> a.cols == 1
            &&& a.rows >= 1 && a.cols >= 1
        }),
{
    assert(is_place_of(items, ncols, pos, i));
    items_lie_within_columns(items, ncols, pos, i);
}

} // verus!
