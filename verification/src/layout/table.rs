//! Tables: their rows, and which columns cells stand in.
use vstd::prelude::*;

use crate::layout::boxes::LayoutBox;

verus! {

/// The rows of a row group among its first `n` children, where the group is
/// child `i` of the table.
pub open spec fn group_rows<N>(children: Seq<LayoutBox<N>>, i: usize, n: int) -> Seq<
    (usize, Option<usize>),
>
    decreases n,
{
    if n <= 0 {
        Seq::empty()
    } else if children[n - 1].is_table_row {
        group_rows(children, i, n - 1).push((i, Some((n - 1) as usize)))
    } else {
        group_rows(children, i, n - 1)
    }
}

/// The rows among the first `n` children of a table: each child that is a row,
/// and the rows of each row group. Other children are no part of the table.
pub open spec fn rows_of<N>(children: Seq<LayoutBox<N>>, n: int) -> Seq<(usize, Option<usize>)>
    decreases n,
{
    if n <= 0 {
        Seq::empty()
    } else {
        let before = rows_of(children, n - 1);
        let c = children[n - 1];
        if c.is_table_row {
            before.push(((n - 1) as usize, None))
        } else if c.is_table_row_group {
            before + group_rows(c.children@, (n - 1) as usize, c.children@.len() as int)
        } else {
            before
        }
    }
}

/// The rows of a table, in the order of the document: the child that is a row,
/// or the child that is a row group and the place of the row in it.
pub fn table_rows<N>(table: &LayoutBox<N>) -> (r: Vec<(usize, Option<usize>)>)
    ensures
        r@ == rows_of(table.children@, table.children@.len() as int),
{
    let mut rows: Vec<(usize, Option<usize>)> = Vec::new();
    let mut i: usize = 0;
    assert(rows@ =~= Seq::<(usize, Option<usize>)>::empty());
    while i < table.children.len()
        invariant
            i <= table.children@.len(),
            rows@ == rows_of(table.children@, i as int),
        decreases table.children@.len() - i,
    {
        let c: &LayoutBox<N> = &table.children[i];
        if c.is_table_row {
            rows.push((i, None));
        } else if c.is_table_row_group {
            let ghost before = rows@;
            let mut j: usize = 0;
            assert(before + group_rows(c.children@, i, 0) =~= before);
            while j < c.children.len()
                invariant
                    j <= c.children@.len(),
                    rows@ == before + group_rows(c.children@, i, j as int),
                decreases c.children@.len() - j,
            {
                if c.children[j].is_table_row {
                    rows.push((i, Some(j)));
                    assert(rows@ =~= before + group_rows(c.children@, i, j + 1));
                }
                j = j + 1;
            }
        }
        i = i + 1;
    }
    rows
}

/// A child of a row that is a cell, and how many columns and rows it spans.
#[derive(Clone, Copy, Debug, PartialEq, Eq, Structural)]
pub struct CellSpan {
    pub child: usize,
    pub cols: usize,
    pub rows: usize,
}

/// How many columns or rows a cell spans: at least one.
pub open spec fn cell_span(span: Option<usize>) -> usize {
    match span {
        Some(n) => if n > 1 {
            n
        } else {
            1
        },
        None => 1,
    }
}

fn span_or_one(span: Option<usize>) -> (r: usize)
    ensures
        r == cell_span(span),
{
    match span {
        Some(n) => if n > 1 {
            n
        } else {
            1
        },
        None => 1,
    }
}

/// The cells among the first `n` children of a row.
pub open spec fn cells_of<N>(children: Seq<LayoutBox<N>>, n: int) -> Seq<CellSpan>
    decreases n,
{
    if n <= 0 {
        Seq::empty()
    } else if children[n - 1].is_table_cell {
        cells_of(children, n - 1).push(
            CellSpan {
                child: (n - 1) as usize,
                cols: cell_span(children[n - 1].table_col_span),
                rows: cell_span(children[n - 1].table_row_span),
            },
        )
    } else {
        cells_of(children, n - 1)
    }
}

/// Every cell spans a column and a row.
pub open spec fn are_spans(cells: Seq<CellSpan>) -> bool {
    forall|k: int| 0 <= k < cells.len() ==> (#[trigger] cells[k]).cols > 0 && cells[k].rows > 0
}

/// The cells of a row.
pub fn row_cells<N>(row: &LayoutBox<N>) -> (r: Vec<CellSpan>)
    ensures
        r@ == cells_of(row.children@, row.children@.len() as int),
        are_spans(r@),
        forall|i: int|
            0 <= i < row.children@.len() && (#[trigger] row.children@[i]).is_table_cell ==> spans_cell(
                r@,
                i,
                row.children@[i].table_col_span,
                row.children@[i].table_row_span,
            ),
{
    let mut cells: Vec<CellSpan> = Vec::new();
    let mut i: usize = 0;
    assert(cells@ =~= Seq::<CellSpan>::empty());
    while i < row.children.len()
        invariant
            i <= row.children@.len(),
            cells@ == cells_of(row.children@, i as int),
            are_spans(cells@),
        decreases row.children@.len() - i,
    {
        let c: &LayoutBox<N> = &row.children[i];
        if c.is_table_cell {
            cells.push(
                CellSpan {
                    child: i,
                    cols: span_or_one(c.table_col_span),
                    rows: span_or_one(c.table_row_span),
                },
            );
        }
        i = i + 1;
    }
    proof {
        assert forall|k: int|
            0 <= k < row.children@.len() && (#[trigger] row.children@[k]).is_table_cell implies spans_cell(
            cells@,
            k,
            row.children@[k].table_col_span,
            row.children@[k].table_row_span,
        ) by {
            cells_have_their_spans(row.children@, row.children@.len() as int, k);
        }
    }
    cells
}

/// The number is as asked for, or 1 where none or less is.
pub open spec fn counts(n: usize, asked: Option<usize>) -> bool {
    &&& n >= 1
    &&& asked is None ==> n == 1
    &&& asked matches Some(m) ==> m >= 1 ==> n == m
    &&& asked matches Some(m) ==> m < 1 ==> n == 1
}

/// There is a span for child `i`, with as many columns and rows as it asks for.
pub open spec fn spans_cell(
    cells: Seq<CellSpan>,
    i: int,
    cols: Option<usize>,
    rows: Option<usize>,
) -> bool {
    exists|k: int|
        0 <= k < cells.len() && (#[trigger] cells[k]).child == i && counts(cells[k].cols, cols)
            && counts(cells[k].rows, rows)
}

/// Every cell of a row covers as many columns as its column span says, and as many
/// rows as its row span says, and one where there is none.
pub proof fn cells_have_their_spans<N>(children: Seq<LayoutBox<N>>, n: int, i: int)
    requires
        0 <= i < n <= children.len(),
        n <= usize::MAX,
        children[i].is_table_cell,
    ensures
        spans_cell(cells_of(children, n), i, children[i].table_col_span, children[i].table_row_span),
    decreases n,
{
    let cells = cells_of(children, n);
    let before = cells_of(children, n - 1);
    if i < n - 1 {
        cells_have_their_spans(children, n - 1, i);
        let k = choose|k: int|
            0 <= k < before.len() && (#[trigger] before[k]).child == i && counts(
                before[k].cols,
                children[i].table_col_span,
            ) && counts(before[k].rows, children[i].table_row_span);
        assert(cells[k] == before[k]);
    } else {
        assert(cells[before.len() as int].child == i);
    }
}

/// Only cells have spans, and they come in the order of the document, each once.
pub proof fn spans_belong_to_cells<N>(children: Seq<LayoutBox<N>>, n: int, k: int)
    requires
        0 <= n <= children.len() <= usize::MAX,
        0 <= k < cells_of(children, n).len(),
    ensures
        ({
            let s = cells_of(children, n)[k];
            &&& s.child < n
            &&& children[s.child as int].is_table_cell
            &&& counts(s.cols, children[s.child as int].table_col_span)
            &&& counts(s.rows, children[s.child as int].table_row_span)
            &&& k > 0 ==> cells_of(children, n)[k - 1].child < s.child
        }),
    decreases n,
{
    if n > 0 {
        let before = cells_of(children, n - 1);
        if k < before.len() {
            spans_belong_to_cells(children, n - 1, k);
        } else if k > 0 {
            spans_belong_to_cells(children, n - 1, k - 1);
        }
    }
}

/// The columns that the first `n` cells of a row span together.
pub open spec fn columns_of(cells: Seq<CellSpan>, n: int) -> int
    decreases n,
{
    if n <= 0 {
        0
    } else {
        columns_of(cells, n - 1) + cells[n - 1].cols
    }
}

/// How many columns the cells of a row span together, if the number can be held.
pub fn cols_in_row(cells: &[CellSpan]) -> (r: Option<usize>)
    ensures
        match r {
            Some(n) => n == columns_of(cells@, cells@.len() as int),
            None => columns_of(cells@, cells@.len() as int) > usize::MAX,
        },
{
    let mut n: usize = 0;
    let mut i: usize = 0;
    while i < cells.len()
        invariant
            i <= cells@.len(),
            n == columns_of(cells@, i as int),
        decreases cells@.len() - i,
    {
        if cells[i].cols > usize::MAX - n {
            proof {
                columns_grow(cells@, i + 1, cells@.len() as int);
            }
            return None;
        }
        n = n + cells[i].cols;
        i = i + 1;
    }
    Some(n)
}

proof fn columns_grow(cells: Seq<CellSpan>, a: int, b: int)
    requires
        0 <= a <= b <= cells.len(),
    ensures
        columns_of(cells, a) <= columns_of(cells, b),
    decreases b,
{
    if a < b {
        columns_grow(cells, a, b - 1);
    }
}

/// Where a cell stands: its first column, and how many columns and rows it
/// covers.
#[derive(Clone, Copy, Debug, PartialEq, Eq, Structural)]
pub struct CellSlot {
    pub col: usize,
    pub cols: usize,
    pub rows: usize,
}

/// A slot of an earlier row covers column `c` of row `ri`.
pub open spec fn is_taken(slots: Seq<Vec<CellSlot>>, ri: int, c: int) -> bool {
    exists|r: int, k: int|
        0 <= r < ri && 0 <= k < slots[r]@.len() && covers(#[trigger] slots[r]@[k], r, ri, c)
}

/// A slot that starts in row `r` covers column `c` of row `ri`.
pub open spec fn covers(s: CellSlot, r: int, ri: int, c: int) -> bool {
    s.col <= c < s.col + s.cols && ri < r + s.rows
}

/// The column behind the first `k` slots of a row.
pub open spec fn row_end(row: Seq<CellSlot>, k: int) -> int {
    if k <= 0 {
        0
    } else {
        row[k - 1].col + row[k - 1].cols
    }
}

/// Slot `k` of row `ri`: from the first column behind the slots before it that
/// no slot of an earlier row covers, and no further than the table goes.
pub open spec fn is_slot(
    slots: Seq<Vec<CellSlot>>,
    ri: int,
    row: Seq<CellSlot>,
    k: int,
    cell: CellSpan,
    ncols: int,
    nrows: int,
) -> bool {
    let s = row[k];
    &&& row_end(row, k) <= s.col < ncols
    &&& !is_taken(slots, ri, s.col as int)
    &&& forall|c: int| row_end(row, k) <= c < s.col ==> #[trigger] is_taken(slots, ri, c)
    &&& s.cols == if cell.cols < ncols - s.col {
        cell.cols as int
    } else {
        ncols - s.col
    }
    &&& s.rows == if cell.rows < nrows - ri {
        cell.rows as int
    } else {
        nrows - ri
    }
}

/// The slots of row `ri`: one for each cell, in order, until there is no column
/// left.
pub open spec fn is_slot_row(
    slots: Seq<Vec<CellSlot>>,
    ri: int,
    row: Seq<CellSlot>,
    cells: Seq<CellSpan>,
    ncols: int,
    nrows: int,
) -> bool {
    &&& row.len() <= cells.len()
    &&& forall|k: int|
        0 <= k < row.len() ==> #[trigger] is_slot(slots, ri, row, k, cells[k], ncols, nrows)
    &&& row.len() < cells.len() ==> forall|c: int|
        row_end(row, row.len() as int) <= c < ncols ==> #[trigger] is_taken(slots, ri, c)
}

/// The slots of all rows.
pub open spec fn are_slots(slots: Seq<Vec<CellSlot>>, rows: Seq<Vec<CellSpan>>, ncols: int) -> bool {
    &&& slots.len() == rows.len()
    &&& forall|ri: int|
        0 <= ri < rows.len() ==> is_slot_row(
            slots,
            ri,
            (#[trigger] slots[ri])@,
            rows[ri]@,
            ncols,
            rows.len() as int,
        )
}

/// A slot of the first `limit` rows covers column `c` of row `rr`.
spec fn blocked(slots: Seq<Vec<CellSlot>>, limit: int, rr: int, c: int) -> bool {
    exists|r: int, k: int|
        0 <= r < limit && 0 <= k < slots[r]@.len() && covers(#[trigger] slots[r]@[k], r, rr, c)
}

/// One of the first `n` slots of row `ri` covers column `c` of row `rr`.
spec fn blocked_in_row(row: Seq<CellSlot>, n: int, ri: int, rr: int, c: int) -> bool {
    exists|k: int| 0 <= k < n && covers(#[trigger] row[k], ri, rr, c)
}

/// For how many rows, from `ri` on, each column is covered by slots of earlier
/// rows and the first `n` slots of row `ri`.
spec fn counts_cover(
    slots: Seq<Vec<CellSlot>>,
    ri: int,
    row: Seq<CellSlot>,
    n: int,
    occ: Seq<usize>,
) -> bool {
    forall|c: int, rr: int|
        0 <= c < occ.len() && rr >= ri ==> (rr - ri < occ[c] <==> #[trigger] blocked(
            slots,
            ri,
            rr,
            c,
        ) || blocked_in_row(row, n, ri, rr, c))
}

/// Slots of a row follow one another.
spec fn in_order(row: Seq<CellSlot>) -> bool {
    forall|j: int, k: int|
        0 <= j < k < row.len() ==> (#[trigger] row[j]).col + row[j].cols <= (#[trigger] row[k]).col
}

proof fn taken_by_earlier_rows(a: Seq<Vec<CellSlot>>, b: Seq<Vec<CellSlot>>, ri: int, c: int)
    requires
        forall|r: int| 0 <= r < ri ==> a[r] == b[r],
    ensures
        is_taken(a, ri, c) == is_taken(b, ri, c),
{
    if is_taken(a, ri, c) {
        let (r, k) = choose|r: int, k: int|
            0 <= r < ri && 0 <= k < a[r]@.len() && covers(#[trigger] a[r]@[k], r, ri, c);
        assert(a[r] == b[r]);
        assert(covers(b[r]@[k], r, ri, c));
    }
    if is_taken(b, ri, c) {
        let (r, k) = choose|r: int, k: int|
            0 <= r < ri && 0 <= k < b[r]@.len() && covers(#[trigger] b[r]@[k], r, ri, c);
        assert(a[r] == b[r]);
        assert(covers(a[r]@[k], r, ri, c));
    }
}

proof fn row_stays(
    a: Seq<Vec<CellSlot>>,
    b: Seq<Vec<CellSlot>>,
    ri: int,
    row: Seq<CellSlot>,
    cells: Seq<CellSpan>,
    ncols: int,
    nrows: int,
)
    requires
        forall|r: int| 0 <= r < ri ==> a[r] == b[r],
        is_slot_row(a, ri, row, cells, ncols, nrows),
    ensures
        is_slot_row(b, ri, row, cells, ncols, nrows),
{
    assert forall|c: int| #[trigger] is_taken(b, ri, c) == is_taken(a, ri, c) by {
        taken_by_earlier_rows(a, b, ri, c);
    }
    assert forall|k: int| 0 <= k < row.len() implies #[trigger] is_slot(
        b,
        ri,
        row,
        k,
        cells[k],
        ncols,
        nrows,
    ) by {
        assert(is_slot(a, ri, row, k, cells[k], ncols, nrows));
        assert(is_taken(b, ri, row[k].col as int) == is_taken(a, ri, row[k].col as int));
    }
}

/// Marks the columns of a slot as covered.
fn mark(occ: &mut Vec<usize>, s: CellSlot)
    requires
        s.col + s.cols <= old(occ)@.len(),
    ensures
        final(occ)@.len() == old(occ)@.len(),
        forall|c: int|
            0 <= c < old(occ)@.len() ==> #[trigger] final(occ)@[c] == if s.col <= c < s.col + s.cols
                && s.rows > old(occ)@[c] {
                s.rows
            } else {
                old(occ)@[c]
            },
{
    assert(occ@.len() == occ.len());
    let end: usize = s.col + s.cols;
    let mut c: usize = s.col;
    while c < end
        invariant
            end == s.col + s.cols,
            s.col <= c <= end <= old(occ)@.len(),
            occ@.len() == old(occ)@.len(),
            forall|x: int|
                0 <= x < occ@.len() ==> #[trigger] occ@[x] == if s.col <= x < c && s.rows > old(
                    occ,
                )@[x] {
                    s.rows
                } else {
                    old(occ)@[x]
                },
        decreases end - c,
    {
        if s.rows > occ[c] {
            occ.set(c, s.rows);
        }
        c = c + 1;
    }
}

/// Goes on to the next row.
fn tick(occ: &mut Vec<usize>)
    ensures
        final(occ)@.len() == old(occ)@.len(),
        forall|c: int|
            0 <= c < old(occ)@.len() ==> #[trigger] final(occ)@[c] == if old(occ)@[c] > 0 {
                old(occ)@[c] - 1
            } else {
                0
            },
{
    let mut c: usize = 0;
    while c < occ.len()
        invariant
            c <= occ@.len(),
            occ@.len() == old(occ)@.len(),
            forall|x: int|
                0 <= x < occ@.len() ==> #[trigger] occ@[x] == if x >= c {
                    old(occ)@[x] as int
                } else if old(occ)@[x] > 0 {
                    old(occ)@[x] - 1
                } else {
                    0
                },
        decreases occ@.len() - c,
    {
        if occ[c] > 0 {
            let n: usize = occ[c] - 1;
            occ.set(c, n);
        }
        c = c + 1;
    }
}

proof fn slot_counts(
    slots: Seq<Vec<CellSlot>>,
    ri: int,
    row: Seq<CellSlot>,
    s: CellSlot,
    before: Seq<usize>,
    after: Seq<usize>,
)
    requires
        counts_cover(slots, ri, row, row.len() as int, before),
        after.len() == before.len(),
        forall|c: int|
            0 <= c < before.len() ==> #[trigger] after[c] == if s.col <= c < s.col + s.cols
                && s.rows > before[c] {
                s.rows
            } else {
                before[c]
            },
    ensures
        counts_cover(slots, ri, row.push(s), row.len() as int + 1, after),
{
    let n = row.len() as int;
    let more = row.push(s);
    assert forall|c: int, rr: int| 0 <= c < after.len() && rr >= ri implies (rr - ri < after[c]
        <==> #[trigger] blocked(slots, ri, rr, c) || blocked_in_row(more, n + 1, ri, rr, c)) by {
        assert(rr - ri < before[c] <==> blocked(slots, ri, rr, c) || blocked_in_row(
            row,
            n,
            ri,
            rr,
            c,
        ));
        assert(after[c] >= before[c]);
        if blocked_in_row(row, n, ri, rr, c) {
            let k = choose|k: int| 0 <= k < n && covers(#[trigger] row[k], ri, rr, c);
            assert(covers(more[k], ri, rr, c));
        }
        if blocked_in_row(more, n + 1, ri, rr, c) {
            let k = choose|k: int| 0 <= k < n + 1 && covers(#[trigger] more[k], ri, rr, c);
            if k < n {
                assert(covers(row[k], ri, rr, c));
            } else {
                assert(more[k] == s);
            }
        }
        if rr - ri < after[c] && !(rr - ri < before[c]) {
            assert(covers(more[n], ri, rr, c));
        }
    }
}

proof fn next_row_counts(
    slots: Seq<Vec<CellSlot>>,
    row: Vec<CellSlot>,
    before: Seq<usize>,
    after: Seq<usize>,
)
    requires
        counts_cover(slots, slots.len() as int, row@, row@.len() as int, before),
        after.len() == before.len(),
        forall|c: int|
            0 <= c < before.len() ==> #[trigger] after[c] == if before[c] > 0 {
                before[c] - 1
            } else {
                0
            },
    ensures
        counts_cover(slots.push(row), slots.len() as int + 1, Seq::empty(), 0, after),
{
    let ri = slots.len() as int;
    let more = slots.push(row);
    assert forall|c: int, rr: int|
        0 <= c < after.len() && rr >= ri + 1 implies (rr - (ri + 1) < after[c]
        <==> #[trigger] blocked(more, ri + 1, rr, c) || blocked_in_row(
        Seq::empty(),
        0,
        ri + 1,
        rr,
        c,
    )) by {
        assert(rr - ri < before[c] <==> blocked(slots, ri, rr, c) || blocked_in_row(
            row@,
            row@.len() as int,
            ri,
            rr,
            c,
        ));
        if blocked(slots, ri, rr, c) {
            let (r, k) = choose|r: int, k: int|
                0 <= r < ri && 0 <= k < slots[r]@.len() && covers(
                    #[trigger] slots[r]@[k],
                    r,
                    rr,
                    c,
                );
            assert(more[r] == slots[r]);
            assert(covers(more[r]@[k], r, rr, c));
        }
        if blocked_in_row(row@, row@.len() as int, ri, rr, c) {
            let k = choose|k: int|
                0 <= k < row@.len() && covers(#[trigger] row@[k], ri, rr, c);
            assert(covers(more[ri]@[k], ri, rr, c));
        }
        if blocked(more, ri + 1, rr, c) {
            let (r, k) = choose|r: int, k: int|
                0 <= r < ri + 1 && 0 <= k < more[r]@.len() && covers(
                    #[trigger] more[r]@[k],
                    r,
                    rr,
                    c,
                );
            if r < ri {
                assert(covers(slots[r]@[k], r, rr, c));
            } else {
                assert(covers(row@[k], ri, rr, c));
            }
        }
    }
}

/// The slots of row `ri`, and the columns that are covered afterwards.
fn slot_row(
    cells: &[CellSpan],
    occ: &mut Vec<usize>,
    ncols: usize,
    left: usize,
    Ghost(slots): Ghost<Seq<Vec<CellSlot>>>,
    Ghost(nrows): Ghost<int>,
) -> (row: Vec<CellSlot>)
    requires
        old(occ)@.len() == ncols,
        left == nrows - slots.len(),
        left > 0,
        are_spans(cells@),
        counts_cover(slots, slots.len() as int, Seq::empty(), 0, old(occ)@),
    ensures
        final(occ)@.len() == ncols,
        is_slot_row(slots, slots.len() as int, row@, cells@, ncols as int, nrows),
        in_order(row@),
        counts_cover(slots, slots.len() as int, row@, row@.len() as int, final(occ)@),
{
    let ghost ri = slots.len() as int;
    let ghost n = ncols as int;
    let mut row: Vec<CellSlot> = Vec::new();
    let mut col: usize = 0;
    let mut i: usize = 0;
    assert(row@ =~= Seq::<CellSlot>::empty());
    while i < cells.len()
        invariant
            i <= cells@.len(),
            row@.len() == i,
            occ@.len() == ncols,
            n == ncols,
            ri == slots.len(),
            left == nrows - ri,
            left > 0,
            col <= ncols,
            col == row_end(row@, i as int),
            in_order(row@),
            forall|k: int|
                0 <= k < i ==> (#[trigger] row@[k]).col + row@[k].cols <= col && row@[k].cols > 0,
            forall|k: int|
                0 <= k < row@.len() ==> #[trigger] is_slot(
                    slots,
                    ri,
                    row@,
                    k,
                    cells@[k],
                    n,
                    nrows,
                ),
            counts_cover(slots, ri, row@, i as int, occ@),
            are_spans(cells@),
        decreases cells@.len() - i,
    {
        let start: usize = col;
        proof {
            assert forall|c: int| start <= c < n implies (occ@[c] > 0 <==> #[trigger] is_taken(
                slots,
                ri,
                c,
            )) by {
                assert(ri - ri < occ@[c] <==> blocked(slots, ri, ri, c) || blocked_in_row(
                    row@,
                    i as int,
                    ri,
                    ri,
                    c,
                ));
                assert(blocked(slots, ri, ri, c) == is_taken(slots, ri, c));
                if blocked_in_row(row@, i as int, ri, ri, c) {
                    let k = choose|k: int| 0 <= k < i && covers(#[trigger] row@[k], ri, ri, c);
                    assert(false);
                }
            }
        }
        while col < ncols && occ[col] > 0
            invariant
                start <= col <= ncols,
                n == ncols,
                occ@.len() == ncols,
                forall|c: int|
                    start <= c < n ==> (occ@[c] > 0 <==> #[trigger] is_taken(slots, ri, c)),
                forall|c: int| start <= c < col ==> #[trigger] is_taken(slots, ri, c),
            decreases ncols - col,
        {
            assert(is_taken(slots, ri, col as int));
            col = col + 1;
        }
        if col >= ncols {
            return row;
        }
        let room: usize = ncols - col;
        let s: CellSlot = CellSlot {
            col,
            cols: if cells[i].cols < room {
                cells[i].cols
            } else {
                room
            },
            rows: if cells[i].rows < left {
                cells[i].rows
            } else {
                left
            },
        };
        let ghost before = row@;
        let ghost counted = occ@;
        proof {
            assert(!is_taken(slots, ri, col as int));
        }
        row.push(s);
        mark(occ, s);
        proof {
            slot_counts(slots, ri, before, s, counted, occ@);
            assert forall|k: int| 0 <= k < row@.len() implies #[trigger] is_slot(
                slots,
                ri,
                row@,
                k,
                cells@[k],
                n,
                nrows,
            ) by {
                if k < i {
                    assert(is_slot(slots, ri, before, k, cells@[k], n, nrows));
                    assert(row@[k] == before[k]);
                    assert(row_end(row@, k) == row_end(before, k));
                } else {
                    assert(row_end(row@, k) == row_end(before, k));
                }
            }
            assert forall|j: int, k: int|
                0 <= j < k < row@.len() implies (#[trigger] row@[j]).col + row@[j].cols <= (
            #[trigger] row@[k]).col by {
                assert(row@[j] == before[j]);
                if k < i {
                    assert(row@[k] == before[k]);
                }
            }
        }
        col = col + s.cols;
        i = i + 1;
    }
    row
}

/// Where the cells of a table stand. A cell that spans rows keeps the cells of
/// those rows out of its columns.
pub fn table_slots(rows: &[Vec<CellSpan>], ncols: usize) -> (slots: Vec<Vec<CellSlot>>)
    requires
        forall|r: int| 0 <= r < rows@.len() ==> are_spans((#[trigger] rows@[r])@),
    ensures
        are_slots(slots@, rows@, ncols as int),
{
    let ghost n = ncols as int;
    let ghost nrows = rows@.len() as int;
    let mut occ: Vec<usize> = Vec::new();
    while occ.len() < ncols
        invariant
            occ@.len() <= ncols,
            forall|c: int| 0 <= c < occ@.len() ==> #[trigger] occ@[c] == 0,
        decreases ncols - occ@.len(),
    {
        occ.push(0);
    }
    let mut slots: Vec<Vec<CellSlot>> = Vec::new();
    let mut ri: usize = 0;
    while ri < rows.len()
        invariant
            ri <= rows@.len(),
            n == ncols,
            nrows == rows@.len(),
            occ@.len() == ncols,
            slots@.len() == ri,
            forall|r: int| 0 <= r < rows@.len() ==> are_spans((#[trigger] rows@[r])@),
            counts_cover(slots@, ri as int, Seq::empty(), 0, occ@),
            forall|r: int|
                0 <= r < ri ==> is_slot_row(
                    slots@,
                    r,
                    (#[trigger] slots@[r])@,
                    rows@[r]@,
                    n,
                    nrows,
                ),
        decreases rows@.len() - ri,
    {
        let ghost before = slots@;
        let row: Vec<CellSlot> = slot_row(
            rows[ri].as_slice(),
            &mut occ,
            ncols,
            rows.len() - ri,
            Ghost(slots@),
            Ghost(nrows),
        );
        let ghost counted = occ@;
        tick(&mut occ);
        proof {
            next_row_counts(before, row, counted, occ@);
        }
        slots.push(row);
        proof {
            assert forall|r: int| 0 <= r < ri + 1 implies is_slot_row(
                slots@,
                r,
                (#[trigger] slots@[r])@,
                rows@[r]@,
                n,
                nrows,
            ) by {
                if r < ri {
                    assert(slots@[r] == before[r]);
                    row_stays(before, slots@, r, before[r]@, rows@[r]@, n, nrows);
                } else {
                    row_stays(before, slots@, r, row@, rows@[r]@, n, nrows);
                }
            }
        }
        ri = ri + 1;
    }
    slots
}

/// Every slot lies within the table.
pub proof fn slots_lie_within_the_table(
    slots: Seq<Vec<CellSlot>>,
    rows: Seq<Vec<CellSpan>>,
    ncols: int,
    ri: int,
    k: int,
)
    requires
        are_slots(slots, rows, ncols),
        0 <= ri < rows.len(),
        0 <= k < slots[ri]@.len(),
    ensures
        slots[ri]@[k].col + slots[ri]@[k].cols <= ncols,
        ri + slots[ri]@[k].rows <= rows.len(),
{
    assert(is_slot(slots, ri, slots[ri]@, k, rows[ri]@[k], ncols, rows.len() as int));
}

proof fn slots_are_ordered(
    slots: Seq<Vec<CellSlot>>,
    rows: Seq<Vec<CellSpan>>,
    ncols: int,
    ri: int,
    j: int,
    k: int,
)
    requires
        are_slots(slots, rows, ncols),
        0 <= ri < rows.len(),
        0 <= j < k < slots[ri]@.len(),
    ensures
        slots[ri]@[j].col + slots[ri]@[j].cols <= slots[ri]@[k].col,
    decreases k,
{
    assert(is_slot(slots, ri, slots[ri]@, k, rows[ri]@[k], ncols, rows.len() as int));
    if j < k - 1 {
        slots_are_ordered(slots, rows, ncols, ri, j, k - 1);
    }
}

/// Cells of a row stand side by side in their order.
pub proof fn cells_of_a_row_keep_their_order(
    slots: Seq<Vec<CellSlot>>,
    rows: Seq<Vec<CellSpan>>,
    ncols: int,
    ri: int,
    j: int,
    k: int,
)
    requires
        are_slots(slots, rows, ncols),
        0 <= ri < rows.len(),
        0 <= j < k < slots[ri]@.len(),
    ensures
        slots[ri]@[j].col + slots[ri]@[j].cols <= slots[ri]@[k].col,
{
    slots_are_ordered(slots, rows, ncols, ri, j, k);
}

/// No cell starts in a column that a cell of an earlier row covers.
pub proof fn cells_start_in_free_columns(
    slots: Seq<Vec<CellSlot>>,
    rows: Seq<Vec<CellSpan>>,
    ncols: int,
    r: int,
    j: int,
    ri: int,
    k: int,
)
    requires
        are_slots(slots, rows, ncols),
        0 <= r < ri < rows.len(),
        0 <= j < slots[r]@.len(),
        0 <= k < slots[ri]@.len(),
    ensures
        !covers(slots[r]@[j], r, ri, slots[ri]@[k].col as int),
        ({
            let (s, c) = (slots[r]@[j], slots[ri]@[k].col);
            c < s.col || s.col + s.cols <= c || r + s.rows <= ri
        }),
{
    assert(is_slot(slots, ri, slots[ri]@, k, rows[ri]@[k], ncols, rows.len() as int));
    if covers(slots[r]@[j], r, ri, slots[ri]@[k].col as int) {
        assert(is_taken(slots, ri, slots[ri]@[k].col as int));
    }
}

/// A row stands for itself, and a row group for its rows.
pub open spec fn is_row_of<N>(children: Seq<LayoutBox<N>>, i: int, j: Option<usize>) -> bool {
    let c = children[i];
    match j {
        None => c.is_table_row,
        Some(k) => !c.is_table_row && c.is_table_row_group && k < c.children@.len()
            && c.children@[k as int].is_table_row,
    }
}

proof fn group_rows_are_rows<N>(children: Seq<LayoutBox<N>>, i: usize, n: int, j: int)
    requires
        0 <= n <= children.len() <= usize::MAX,
    ensures
        0 <= j < n && children[j].is_table_row ==> group_rows(children, i, n).contains(
            (i, Some(j as usize)),
        ),
        forall|k: int|
            0 <= k < group_rows(children, i, n).len() ==> {
                let e = #[trigger] group_rows(children, i, n)[k];
                &&& e.0 == i
                &&& e.1 is Some
                &&& e.1->0 < n
                &&& children[e.1->0 as int].is_table_row
            },
        forall|k: int, l: int|
            0 <= k < l < group_rows(children, i, n).len() ==> (#[trigger] group_rows(
                children,
                i,
                n,
            )[k]).1->0 < (#[trigger] group_rows(children, i, n)[l]).1->0,
    decreases n,
{
    if n > 0 {
        let before = group_rows(children, i, n - 1);
        let all = group_rows(children, i, n);
        group_rows_are_rows(children, i, n - 1, j);
        if 0 <= j < n - 1 && children[j].is_table_row {
            let e = (i, Some(j as usize));
            let k = choose|k: int| 0 <= k < before.len() && before[k] == e;
            assert(all[k] == e);
        } else if j == n - 1 && children[j].is_table_row {
            assert(all[before.len() as int] == (i, Some(j as usize)));
        }
    }
}

/// The rows of a table are the children that are rows, and the rows of those that are
/// row groups; none is left out.
pub proof fn tables_have_all_their_rows<N>(children: Seq<LayoutBox<N>>, n: int, i: int, j: Option<usize>)
    requires
        0 <= n <= children.len() <= usize::MAX,
        0 <= i < n,
        is_row_of(children, i, j),
        children[i].children@.len() <= usize::MAX,
    ensures
        rows_of(children, n).contains((i as usize, j)),
    decreases n,
{
    let before = rows_of(children, n - 1);
    let all = rows_of(children, n);
    let e = (i as usize, j);
    if i < n - 1 {
        tables_have_all_their_rows(children, n - 1, i, j);
        let k = choose|k: int| 0 <= k < before.len() && before[k] == e;
        assert(all[k] == e);
    } else if j is None {
        assert(all[before.len() as int] == e);
    } else {
        let c = children[i];
        let rows = group_rows(c.children@, i as usize, c.children@.len() as int);
        group_rows_are_rows(c.children@, i as usize, c.children@.len() as int, j->0 as int);
        let k = choose|k: int| 0 <= k < rows.len() && rows[k] == e;
        assert(all[before.len() + k] == e);
    }
}

/// One row stands before another in the document.
pub open spec fn comes_before(a: (usize, Option<usize>), b: (usize, Option<usize>)) -> bool {
    a.0 < b.0 || a.0 == b.0 && a.1 is Some && b.1 is Some && a.1->0 < b.1->0
}

/// The rows of a table come in the order of the document, each once, and nothing else
/// is a row.
pub proof fn rows_come_in_order<N>(children: Seq<LayoutBox<N>>, n: int, k: int, l: int)
    requires
        0 <= n <= children.len() <= usize::MAX,
        forall|i: int| 0 <= i < n ==> (#[trigger] children[i]).children@.len() <= usize::MAX,
        0 <= k < l < rows_of(children, n).len(),
    ensures
        comes_before(rows_of(children, n)[k], rows_of(children, n)[l]),
        rows_of(children, n)[k].0 < n,
        rows_of(children, n)[l].0 < n,
        is_row_of(children, rows_of(children, n)[k].0 as int, rows_of(children, n)[k].1),
        is_row_of(children, rows_of(children, n)[l].0 as int, rows_of(children, n)[l].1),
    decreases n,
{
    rows_are_rows(children, n, k);
    rows_are_rows(children, n, l);
    if n > 0 {
        let before = rows_of(children, n - 1);
        let c = children[n - 1];
        if l < before.len() {
            rows_come_in_order(children, n - 1, k, l);
        } else {
            if k < before.len() {
                rows_are_rows(children, n - 1, k);
            }
            group_rows_are_rows(c.children@, (n - 1) as usize, c.children@.len() as int, 0);
        }
    }
}

proof fn rows_are_rows<N>(children: Seq<LayoutBox<N>>, n: int, k: int)
    requires
        0 <= n <= children.len() <= usize::MAX,
        forall|i: int| 0 <= i < n ==> (#[trigger] children[i]).children@.len() <= usize::MAX,
        0 <= k < rows_of(children, n).len(),
    ensures
        rows_of(children, n)[k].0 < n,
        is_row_of(children, rows_of(children, n)[k].0 as int, rows_of(children, n)[k].1),
    decreases n,
{
    if n > 0 {
        let before = rows_of(children, n - 1);
        let c = children[n - 1];
        if k < before.len() {
            rows_are_rows(children, n - 1, k);
        } else if !c.is_table_row {
            let rows = group_rows(c.children@, (n - 1) as usize, c.children@.len() as int);
            group_rows_are_rows(c.children@, (n - 1) as usize, c.children@.len() as int, 0);
            assert(rows_of(children, n)[k] == rows[k - before.len()]);
        }
    }
}

/// Cells that span one column each take as many columns as there are cells; in
/// general, a cell of `m` columns takes as much room as `m` cells of one.
pub proof fn columns_add_up(cells: Seq<CellSpan>, n: int)
    requires
        0 <= n <= cells.len(),
    ensures
        (forall|k: int| 0 <= k < n ==> (#[trigger] cells[k]).cols == 1) ==> columns_of(cells, n) == n,
        n < cells.len() ==> columns_of(cells, n + 1) - columns_of(cells, n) == cells[n].cols,
        columns_of(cells, n) >= 0,
    decreases n,
{
    if n > 0 {
        columns_add_up(cells, n - 1);
    }
}

/// In a table in which no cell spans rows, the cells of each row stand side by side
/// from the first column on, each with its own width, as far as there is room.
pub proof fn cells_without_row_spans_stand_side_by_side(
    slots: Seq<Vec<CellSlot>>,
    rows: Seq<Vec<CellSpan>>,
    ncols: int,
    ri: int,
    k: int,
)
    requires
        are_slots(slots, rows, ncols),
        forall|r: int, j: int|
            0 <= r < rows.len() && 0 <= j < rows[r]@.len() ==> (#[trigger] rows[r]@[j]).rows == 1,
        0 <= ri < rows.len(),
        0 <= k < rows[ri]@.len(),
        columns_of(rows[ri]@, k + 1) <= ncols,
        are_spans(rows[ri]@),
    ensures
        k < slots[ri]@.len(),
        slots[ri]@[k].col == columns_of(rows[ri]@, k),
        slots[ri]@[k].cols == rows[ri]@[k].cols,
        slots[ri]@[k].rows == 1,
    decreases k,
{
    let row = slots[ri]@;
    columns_add_up(rows[ri]@, k);
    if k > 0 {
        columns_add_up(rows[ri]@, k - 1);
        cells_without_row_spans_stand_side_by_side(slots, rows, ncols, ri, k - 1);
    }
    assert(row_end(row, k) == columns_of(rows[ri]@, k));
    assert forall|c: int| !(#[trigger] is_taken(slots, ri, c)) by {
        if is_taken(slots, ri, c) {
            let (r, j) = choose|r: int, j: int|
                0 <= r < ri && 0 <= j < slots[r]@.len() && covers(#[trigger] slots[r]@[j], r, ri, c);
            assert(is_slot_row(slots, r, slots[r]@, rows[r]@, ncols, rows.len() as int));
            assert(is_slot(slots, r, slots[r]@, j, rows[r]@[j], ncols, rows.len() as int));
            assert(rows[r]@[j].rows == 1);
        }
    }
    assert(is_slot_row(slots, ri, row, rows[ri]@, ncols, rows.len() as int));
    if k >= row.len() {
        assert(row.len() == k) by {
            if row.len() < k {
                assert(k - 1 < row.len());
            }
        }
        assert(is_taken(slots, ri, row_end(row, k)));
    } else {
        assert(is_slot(slots, ri, row, k, rows[ri]@[k], ncols, rows.len() as int));
        assert(rows[ri]@[k].rows == 1);
        if row[k].col > row_end(row, k) {
            assert(is_taken(slots, ri, row_end(row, k)));
        }
    }
}

/// A cell covers the columns and rows that it spans, as far as the table goes; where
/// it has room, all of them.
pub proof fn cells_cover_their_spans(
    slots: Seq<Vec<CellSlot>>,
    rows: Seq<Vec<CellSpan>>,
    ncols: int,
    ri: int,
    k: int,
)
    requires
        are_slots(slots, rows, ncols),
        0 <= ri < rows.len(),
        0 <= k < slots[ri]@.len(),
    ensures
        ({
            let (s, c) = (slots[ri]@[k], rows[ri]@[k]);
            &&& s.cols <= c.cols && s.rows <= c.rows
            &&& s.col + c.cols <= ncols ==> s.cols == c.cols
            &&& s.col + c.cols > ncols ==> s.col + s.cols == ncols
            &&& ri + c.rows <= rows.len() ==> s.rows == c.rows
            &&& ri + c.rows > rows.len() ==> ri + s.rows == rows.len()
        }),
{
    assert(is_slot_row(slots, ri, slots[ri]@, rows[ri]@, ncols, rows.len() as int));
    assert(is_slot(slots, ri, slots[ri]@, k, rows[ri]@[k], ncols, rows.len() as int));
}

/// The first column that a cell could have is its own, unless a cell of an earlier
/// row reaches down into it.
pub proof fn only_row_spans_leave_columns_out(
    slots: Seq<Vec<CellSlot>>,
    rows: Seq<Vec<CellSpan>>,
    ncols: int,
    ri: int,
    k: int,
    c: int,
)
    requires
        are_slots(slots, rows, ncols),
        0 <= ri < rows.len(),
        0 <= k < slots[ri]@.len(),
        0 <= c < slots[ri]@[k].col,
        k > 0 ==> slots[ri]@[k - 1].col + slots[ri]@[k - 1].cols <= c,
    ensures
        exists|r: int, j: int|
            0 <= r < ri && 0 <= j < slots[r]@.len() && (#[trigger] slots[r]@[j]).col <= c
                < slots[r]@[j].col + slots[r]@[j].cols && ri < r + slots[r]@[j].rows,
{
    assert(is_slot(slots, ri, slots[ri]@, k, rows[ri]@[k], ncols, rows.len() as int));
    assert(is_taken(slots, ri, c));
    let (r, j) = choose|r: int, j: int|
        0 <= r < ri && 0 <= j < slots[r]@.len() && covers(#[trigger] slots[r]@[j], r, ri, c);
    assert(slots[r]@[j].col <= c);
}

/// A row has a slot for each of its cells as long as a column is free behind the
/// slots before.
pub proof fn cells_are_placed_while_there_is_room(
    slots: Seq<Vec<CellSlot>>,
    rows: Seq<Vec<CellSpan>>,
    ncols: int,
    ri: int,
    c: int,
)
    requires
        are_slots(slots, rows, ncols),
        0 <= ri < rows.len(),
        slots[ri]@.len() < rows[ri]@.len(),
        slots[ri]@.len() > 0 ==> slots[ri]@.last().col + slots[ri]@.last().cols <= c,
        0 <= c < ncols,
    ensures
        exists|r: int, j: int|
            0 <= r < ri && 0 <= j < slots[r]@.len() && (#[trigger] slots[r]@[j]).col <= c
                < slots[r]@[j].col + slots[r]@[j].cols && ri < r + slots[r]@[j].rows,
{
    assert(is_slot_row(slots, ri, slots[ri]@, rows[ri]@, ncols, rows.len() as int));
    assert(is_taken(slots, ri, c));
    let (r, j) = choose|r: int, j: int|
        0 <= r < ri && 0 <= j < slots[r]@.len() && covers(#[trigger] slots[r]@[j], r, ri, c);
    assert(slots[r]@[j].col <= c);
}

} // verus!
