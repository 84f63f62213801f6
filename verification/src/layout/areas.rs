//! Named areas of grids.
use vstd::prelude::*;

use crate::layout::grid::GridItem;
use crate::text;

verus! {

/// A named rectangle of cells.
#[derive(Clone, Debug)]
pub struct NamedArea {
    pub name: String,
    pub row: usize,
    pub col: usize,
    pub rows: usize,
    pub cols: usize,
}

/// The cell at a row and column exists and has the given name.
pub open spec fn named_at(grid: Seq<Vec<String>>, r: int, c: int, name: Seq<char>) -> bool {
    0 <= r < grid.len() && 0 <= c < grid[r]@.len() && grid[r]@[c]@ == name
}

/// A name of an area; cells called `.` or nothing belong to none.
pub open spec fn names_area(name: Seq<char>) -> bool {
    name.len() > 0 && name != "."@
}

/// A cell before row `r0` and column `c0`, row by row.
pub open spec fn is_before(r: int, c: int, r0: int, c0: int) -> bool {
    r < r0 || r == r0 && c < c0
}

/// The smallest rectangle around the cells of a name that stand before row `r0`
/// and column `c0`.
pub open spec fn bounds_before(
    grid: Seq<Vec<String>>,
    name: Seq<char>,
    a: NamedArea,
    r0: int,
    c0: int,
) -> bool {
    &&& forall|r: int, c: int| #[trigger]
        named_at(grid, r, c, name) && is_before(r, c, r0, c0) ==> a.row <= r < a.row + a.rows
            && a.col <= c < a.col + a.cols
    &&& a.rows > 0 && a.cols > 0
    &&& exists|c: int| #[trigger]
        named_at(grid, a.row as int, c, name) && is_before(a.row as int, c, r0, c0)
    &&& exists|c: int| #[trigger]
        named_at(grid, a.row + a.rows - 1, c, name) && is_before(a.row + a.rows - 1, c, r0, c0)
    &&& exists|r: int| #[trigger]
        named_at(grid, r, a.col as int, name) && is_before(r, a.col as int, r0, c0)
    &&& exists|r: int| #[trigger]
        named_at(grid, r, a.col + a.cols - 1, name) && is_before(r, a.col + a.cols - 1, r0, c0)
}

/// The areas of the cells before row `r0` and column `c0`: one for each name.
pub open spec fn areas_before(
    grid: Seq<Vec<String>>,
    areas: Seq<NamedArea>,
    r0: int,
    c0: int,
) -> bool {
    &&& forall|i: int, j: int|
        0 <= i < j < areas.len() ==> #[trigger] areas[i].name@ != #[trigger] areas[j].name@
    &&& forall|i: int|
        0 <= i < areas.len() ==> names_area((#[trigger] areas[i]).name@) && bounds_before(
            grid,
            areas[i].name@,
            areas[i],
            r0,
            c0,
        )
    &&& forall|r: int, c: int, name: Seq<char>| #[trigger]
        named_at(grid, r, c, name) && is_before(r, c, r0, c0) && names_area(name) ==> has_area(
            areas,
            name,
        )
}

/// There is an area of the given name.
pub open spec fn has_area(areas: Seq<NamedArea>, name: Seq<char>) -> bool {
    exists|i: int| 0 <= i < areas.len() && (#[trigger] areas[i]).name@ == name
}

/// The areas of a grid.
pub open spec fn are_areas_of(grid: Seq<Vec<String>>, areas: Seq<NamedArea>) -> bool {
    areas_before(grid, areas, grid.len() as int, 0)
}

fn same_text(a: &str, b: &str) -> (r: bool)
    ensures
        r == (a@ == b@),
{
    let x: Vec<char> = text::chars_of(a);
    let y: Vec<char> = text::chars_of(b);
    text::same(x.as_slice(), y.as_slice())
}

/// Finds the area of a name.
pub fn find_area(areas: &[NamedArea], name: &str) -> (r: Option<usize>)
    ensures
        match r {
            Some(i) => i < areas@.len() && areas@[i as int].name@ == name@,
            None => !has_area(areas@, name@),
        },
{
    let mut i: usize = 0;
    while i < areas.len()
        invariant
            i <= areas@.len(),
            forall|j: int| 0 <= j < i ==> (#[trigger] areas@[j]).name@ != name@,
        decreases areas@.len() - i,
    {
        if same_text(areas[i].name.as_str(), name) {
            return Some(i);
        }
        i = i + 1;
    }
    None
}

fn is_area_name(name: &str) -> (r: bool)
    ensures
        r == names_area(name@),
{
    name.unicode_len() > 0 && !same_text(name, ".")
}

fn smaller(a: usize, b: usize) -> (r: usize)
    ensures
        r == if a < b {
            a
        } else {
            b
        },
{
    if a < b {
        a
    } else {
        b
    }
}

fn larger(a: usize, b: usize) -> (r: usize)
    ensures
        r == if a > b {
            a
        } else {
            b
        },
{
    if a > b {
        a
    } else {
        b
    }
}

proof fn bounds_reach(
    grid: Seq<Vec<String>>,
    name: Seq<char>,
    a: NamedArea,
    b: NamedArea,
    r: int,
    c: int,
)
    requires
        bounds_before(grid, name, a, r, c),
        named_at(grid, r, c, name),
        b.row == if a.row < r {
            a.row as int
        } else {
            r
        },
        b.col == if a.col < c {
            a.col as int
        } else {
            c
        },
        b.row + b.rows == if a.row + a.rows > r + 1 {
            a.row + a.rows
        } else {
            r + 1
        },
        b.col + b.cols == if a.col + a.cols > c + 1 {
            a.col + a.cols
        } else {
            c + 1
        },
    ensures
        bounds_before(grid, name, b, r, c + 1),
{
    let (r0, c0) = (r, c + 1);
    assert forall|r2: int, c2: int| #[trigger]
        named_at(grid, r2, c2, name) && is_before(r2, c2, r0, c0) implies b.row <= r2 < b.row
        + b.rows && b.col <= c2 < b.col + b.cols by {
        if !(r2 == r && c2 == c) {
            assert(is_before(r2, c2, r, c));
        }
    }
    let top = choose|x: int| #[trigger]
        named_at(grid, a.row as int, x, name) && is_before(a.row as int, x, r, c);
    let bottom = choose|x: int| #[trigger]
        named_at(grid, a.row + a.rows - 1, x, name) && is_before(a.row + a.rows - 1, x, r, c);
    let left = choose|x: int| #[trigger]
        named_at(grid, x, a.col as int, name) && is_before(x, a.col as int, r, c);
    let right = choose|x: int| #[trigger]
        named_at(grid, x, a.col + a.cols - 1, name) && is_before(x, a.col + a.cols - 1, r, c);
    if b.row == a.row {
        assert(named_at(grid, b.row as int, top, name) && is_before(b.row as int, top, r0, c0));
    } else {
        assert(named_at(grid, b.row as int, c, name) && is_before(b.row as int, c, r0, c0));
    }
    if b.row + b.rows == a.row + a.rows {
        assert(named_at(grid, b.row + b.rows - 1, bottom, name) && is_before(
            b.row + b.rows - 1,
            bottom,
            r0,
            c0,
        ));
    } else {
        assert(named_at(grid, b.row + b.rows - 1, c, name) && is_before(
            b.row + b.rows - 1,
            c,
            r0,
            c0,
        ));
    }
    if b.col == a.col {
        assert(named_at(grid, left, b.col as int, name) && is_before(left, b.col as int, r0, c0));
    } else {
        assert(named_at(grid, r, b.col as int, name) && is_before(r, b.col as int, r0, c0));
    }
    if b.col + b.cols == a.col + a.cols {
        assert(named_at(grid, right, b.col + b.cols - 1, name) && is_before(
            right,
            b.col + b.cols - 1,
            r0,
            c0,
        ));
    } else {
        assert(named_at(grid, r, b.col + b.cols - 1, name) && is_before(
            r,
            b.col + b.cols - 1,
            r0,
            c0,
        ));
    }
}

/// Cells of other names, or behind the end of a row, change no rectangle.
proof fn bounds_stay(
    grid: Seq<Vec<String>>,
    name: Seq<char>,
    a: NamedArea,
    r0: int,
    c0: int,
    r1: int,
    c1: int,
)
    requires
        bounds_before(grid, name, a, r0, c0),
        forall|r: int, c: int|
            is_before(r, c, r0, c0) ==> #[trigger] is_before(r, c, r1, c1),
        forall|r: int, c: int| #[trigger]
            named_at(grid, r, c, name) && is_before(r, c, r1, c1) ==> is_before(r, c, r0, c0),
    ensures
        bounds_before(grid, name, a, r1, c1),
{
    let top = choose|x: int| #[trigger]
        named_at(grid, a.row as int, x, name) && is_before(a.row as int, x, r0, c0);
    let bottom = choose|x: int| #[trigger]
        named_at(grid, a.row + a.rows - 1, x, name) && is_before(a.row + a.rows - 1, x, r0, c0);
    let left = choose|x: int| #[trigger]
        named_at(grid, x, a.col as int, name) && is_before(x, a.col as int, r0, c0);
    let right = choose|x: int| #[trigger]
        named_at(grid, x, a.col + a.cols - 1, name) && is_before(x, a.col + a.cols - 1, r0, c0);
    assert(named_at(grid, a.row as int, top, name) && is_before(a.row as int, top, r1, c1));
    assert(named_at(grid, a.row + a.rows - 1, bottom, name) && is_before(
        a.row + a.rows - 1,
        bottom,
        r1,
        c1,
    ));
    assert(named_at(grid, left, a.col as int, name) && is_before(left, a.col as int, r1, c1));
    assert(named_at(grid, right, a.col + a.cols - 1, name) && is_before(
        right,
        a.col + a.cols - 1,
        r1,
        c1,
    ));
}

proof fn one_cell_bounds(grid: Seq<Vec<String>>, name: Seq<char>, a: NamedArea, r: int, c: int)
    requires
        named_at(grid, r, c, name),
        a.row == r,
        a.col == c,
        a.rows == 1,
        a.cols == 1,
        forall|r2: int, c2: int| #[trigger]
            named_at(grid, r2, c2, name) ==> !is_before(r2, c2, r, c),
    ensures
        bounds_before(grid, name, a, r, c + 1),
{
    assert(named_at(grid, a.row as int, c, name) && is_before(a.row as int, c, r, c + 1));
    assert(named_at(grid, a.row + a.rows - 1, c, name) && is_before(
        a.row + a.rows - 1,
        c,
        r,
        c + 1,
    ));
    assert(named_at(grid, r, a.col as int, name) && is_before(r, a.col as int, r, c + 1));
    assert(named_at(grid, r, a.col + a.cols - 1, name) && is_before(
        r,
        a.col + a.cols - 1,
        r,
        c + 1,
    ));
}

/// Takes the cell at a row and column into the areas of those before it.
fn add_cell(grid: &[Vec<String>], areas: &mut Vec<NamedArea>, r: usize, c: usize)
    requires
        r < grid@.len(),
        c < grid@[r as int]@.len(),
        areas_before(grid@, old(areas)@, r as int, c as int),
    ensures
        areas_before(grid@, final(areas)@, r as int, c + 1),
{
    let ghost before = areas@;
    let ghost g = grid@;
    let name: &String = &grid[r][c];
    let ghost nm = name@;
    assert(named_at(g, r as int, c as int, nm));
    let cols: usize = grid[r].len();
    let nrows: usize = grid.len();
    proof {
        assert forall|i: int, other: Seq<char>|
            0 <= i < before.len() && other == (#[trigger] before[i]).name@ && other
                != nm implies #[trigger] bounds_before(g, other, before[i], r as int, c + 1) by {
            assert forall|r2: int, c2: int| #[trigger]
                named_at(g, r2, c2, other) && is_before(r2, c2, r as int, c + 1) implies is_before(
                r2,
                c2,
                r as int,
                c as int,
            ) by {
                if r2 == r && c2 == c {
                    assert(false);
                }
            }
            bounds_stay(g, other, before[i], r as int, c as int, r as int, c + 1);
        }
    }
    if !is_area_name(name.as_str()) {
        proof {
            assert forall|i: int| 0 <= i < before.len() implies names_area(
                (#[trigger] before[i]).name@,
            ) && bounds_before(g, before[i].name@, before[i], r as int, c + 1) by {
                assert(before[i].name@ != nm);
            }
            assert forall|r2: int, c2: int, other: Seq<char>| #[trigger]
                named_at(g, r2, c2, other) && is_before(r2, c2, r as int, c + 1) && names_area(
                    other,
                ) implies has_area(before, other) by {
                assert(!(r2 == r && c2 == c));
                assert(is_before(r2, c2, r as int, c as int));
            }
        }
        return;
    }
    match find_area(areas.as_slice(), name.as_str()) {
        None => {
            let a: NamedArea = NamedArea { name: name.clone(), row: r, col: c, rows: 1, cols: 1 };
            let ghost added = a;
            areas.push(a);
            proof {
                assert forall|r2: int, c2: int| #[trigger]
                    named_at(g, r2, c2, nm) implies !is_before(r2, c2, r as int, c as int) by {
                    if is_before(r2, c2, r as int, c as int) {
                        assert(has_area(before, nm));
                    }
                }
                one_cell_bounds(g, nm, added, r as int, c as int);
                assert forall|i: int| 0 <= i < areas@.len() implies names_area(
                    (#[trigger] areas@[i]).name@,
                ) && bounds_before(g, areas@[i].name@, areas@[i], r as int, c + 1) by {
                    if i < before.len() {
                        assert(areas@[i] == before[i]);
                        assert(before[i].name@ != nm);
                    }
                }
                assert forall|i: int, j: int|
                    0 <= i < j < areas@.len() implies #[trigger] areas@[i].name@
                    != #[trigger] areas@[j].name@ by {
                    assert(areas@[i] == before[i]);
                    if j < before.len() {
                        assert(areas@[j] == before[j]);
                    }
                }
                assert forall|r2: int, c2: int, other: Seq<char>| #[trigger]
                    named_at(g, r2, c2, other) && is_before(r2, c2, r as int, c + 1) && names_area(
                        other,
                    ) implies has_area(areas@, other) by {
                    if r2 == r && c2 == c {
                        assert(areas@[before.len() as int].name@ == other);
                    } else {
                        assert(is_before(r2, c2, r as int, c as int));
                        let k = choose|i: int|
                            0 <= i < before.len() && (#[trigger] before[i]).name@ == other;
                        assert(areas@[k].name@ == other);
                    }
                }
            }
        },
        Some(i) => {
            let ghost a = areas@[i as int];
            proof {
                let right = choose|x: int| #[trigger]
                    named_at(g, x, a.col + a.cols - 1, nm) && is_before(
                        x,
                        a.col + a.cols - 1,
                        r as int,
                        c as int,
                    );
                let bottom = choose|x: int| #[trigger]
                    named_at(g, a.row + a.rows - 1, x, nm) && is_before(
                        a.row + a.rows - 1,
                        x,
                        r as int,
                        c as int,
                    );
                assert(a.row + a.rows <= g.len());
                assert(a.col + a.cols <= g[right]@.len());
                assert(g[right]@.len() == g[right].len());
            }
            let row: usize = smaller(areas[i].row, r);
            let col: usize = smaller(areas[i].col, c);
            let end: usize = larger(areas[i].row + areas[i].rows, r + 1);
            let side: usize = larger(areas[i].col + areas[i].cols, c + 1);
            let b: NamedArea = NamedArea {
                name: name.clone(),
                row,
                col,
                rows: end - row,
                cols: side - col,
            };
            let ghost added = b;
            areas.set(i, b);
            proof {
                bounds_reach(g, nm, a, added, r as int, c as int);
                assert forall|k: int| 0 <= k < areas@.len() implies names_area(
                    (#[trigger] areas@[k]).name@,
                ) && bounds_before(g, areas@[k].name@, areas@[k], r as int, c + 1) by {
                    if k != i {
                        assert(areas@[k] == before[k]);
                        assert(before[k].name@ != before[i as int].name@);
                    }
                }
                assert forall|k: int, j: int|
                    0 <= k < j < areas@.len() implies #[trigger] areas@[k].name@
                    != #[trigger] areas@[j].name@ by {
                    assert(areas@[k].name@ == before[k].name@);
                    assert(areas@[j].name@ == before[j].name@);
                }
                assert forall|r2: int, c2: int, other: Seq<char>| #[trigger]
                    named_at(g, r2, c2, other) && is_before(r2, c2, r as int, c + 1) && names_area(
                        other,
                    ) implies has_area(areas@, other) by {
                    if r2 == r && c2 == c {
                        assert(areas@[i as int].name@ == other);
                    } else {
                        assert(is_before(r2, c2, r as int, c as int));
                        let k = choose|x: int|
                            0 <= x < before.len() && (#[trigger] before[x]).name@ == other;
                        assert(areas@[k].name@ == before[k].name@);
                    }
                }
            }
        },
    }
}

proof fn next_row(grid: Seq<Vec<String>>, areas: Seq<NamedArea>, r: int)
    requires
        0 <= r < grid.len(),
        areas_before(grid, areas, r, grid[r]@.len() as int),
    ensures
        areas_before(grid, areas, r + 1, 0),
{
    let n = grid[r]@.len() as int;
    assert forall|i: int| 0 <= i < areas.len() implies names_area((#[trigger] areas[i]).name@)
        && bounds_before(grid, areas[i].name@, areas[i], r + 1, 0) by {
        bounds_stay(grid, areas[i].name@, areas[i], r, n, r + 1, 0);
    }
}

/// The bounding rectangles of the named areas of a grid. A name whose cells form
/// no rectangle gets the one around them.
pub fn compute_named_areas(grid: &[Vec<String>]) -> (areas: Vec<NamedArea>)
    ensures
        are_areas_of(grid@, areas@),
{
    let mut areas: Vec<NamedArea> = Vec::new();
    let mut r: usize = 0;
    while r < grid.len()
        invariant
            r <= grid@.len(),
            areas_before(grid@, areas@, r as int, 0),
        decreases grid@.len() - r,
    {
        let mut c: usize = 0;
        while c < grid[r].len()
            invariant
                r < grid@.len(),
                c <= grid@[r as int]@.len(),
                areas_before(grid@, areas@, r as int, c as int),
            decreases grid@[r as int]@.len() - c,
        {
            add_cell(grid, &mut areas, r, c);
            c = c + 1;
        }
        proof {
            next_row(grid@, areas@, r as int);
        }
        r = r + 1;
    }
    areas
}

/// An item that asks for the place of an area.
pub open spec fn in_area(item: GridItem, a: NamedArea) -> GridItem {
    GridItem {
        row_start: Some((a.row + 1) as usize),
        column_start: Some((a.col + 1) as usize),
        row_span: Some(a.rows),
        column_span: Some(a.cols),
        ..item
    }
}

/// Items that name an area ask for its place instead of their own.
pub fn place_in_areas(items: &[GridItem], names: &[Option<String>], areas: &[NamedArea]) -> (r: Vec<
    GridItem,
>)
    requires
        names@.len() == items@.len(),
        forall|k: int|
            0 <= k < areas@.len() ==> (#[trigger] areas@[k]).row < usize::MAX && areas@[k].col
                < usize::MAX,
    ensures
        r@.len() == items@.len(),
        forall|i: int|
            0 <= i < items@.len() ==> match names@[i] {
                Some(name) if has_area(areas@, name@) => exists|k: int|
                    0 <= k < areas@.len() && (#[trigger] areas@[k]).name@ == name@ && r@[i]
                        == in_area(items@[i], areas@[k]),
                _ => (#[trigger] r@[i]) == items@[i],
            },
{
    let mut out: Vec<GridItem> = Vec::new();
    let mut i: usize = 0;
    while i < items.len()
        invariant
            i <= items@.len(),
            out@.len() == i,
            names@.len() == items@.len(),
            forall|k: int|
                0 <= k < areas@.len() ==> (#[trigger] areas@[k]).row < usize::MAX && areas@[k].col
                    < usize::MAX,
            forall|j: int|
                0 <= j < i ==> match names@[j] {
                    Some(name) if has_area(areas@, name@) => exists|k: int|
                        0 <= k < areas@.len() && (#[trigger] areas@[k]).name@ == name@ && out@[j]
                            == in_area(items@[j], areas@[k]),
                    _ => (#[trigger] out@[j]) == items@[j],
                },
        decreases items@.len() - i,
    {
        let ghost before = out@;
        let found: Option<usize> = match &names[i] {
            Some(name) => find_area(areas, name.as_str()),
            None => None,
        };
        match found {
            Some(k) => {
                let a: &NamedArea = &areas[k];
                let item: GridItem = GridItem {
                    in_flow: items[i].in_flow,
                    row_start: Some(a.row + 1),
                    column_start: Some(a.col + 1),
                    row_span: Some(a.rows),
                    column_span: Some(a.cols),
                };
                assert(item == in_area(items@[i as int], areas@[k as int]));
                out.push(item);
            },
            None => {
                out.push(items[i]);
            },
        }
        proof {
            assert forall|j: int| 0 <= j < i implies before[j] == out@[j] by {}
        }
        i = i + 1;
    }
    out
}

/// An item that asks for the place of an area within the columns fills it.
pub proof fn items_fill_their_areas(
    items: Seq<GridItem>,
    ncols: int,
    pos: Seq<Option<(usize, usize)>>,
    i: int,
    item: GridItem,
    a: NamedArea,
)
    requires
        crate::layout::grid::is_placement(items, ncols, pos),
        0 <= i < items.len(),
        items[i] == in_area(item, a),
        item.in_flow,
        0 < a.rows,
        0 < a.cols,
        a.row < usize::MAX,
        a.col + a.cols <= ncols <= usize::MAX,
    ensures
        crate::layout::grid::placed_area(items, ncols, pos, i) == (crate::layout::grid::AreaView {
            row: a.row as int,
            col: a.col as int,
            rows: a.rows as int,
            cols: a.cols as int,
        }),
{
    assert(crate::layout::grid::is_place_of(items, ncols, pos, i));
}

/// A name that fills a rectangle of cells, and no others, has that rectangle as its
/// area.
pub proof fn rectangles_are_their_areas(
    grid: Seq<Vec<String>>,
    areas: Seq<NamedArea>,
    k: int,
    r0: int,
    c0: int,
    r1: int,
    c1: int,
)
    requires
        are_areas_of(grid, areas),
        0 <= k < areas.len(),
        0 <= r0 < r1,
        0 <= c0 < c1,
        forall|r: int, c: int| #[trigger]
            named_at(grid, r, c, areas[k].name@) <==> r0 <= r < r1 && c0 <= c < c1,
    ensures
        areas[k].row == r0,
        areas[k].col == c0,
        areas[k].rows == r1 - r0,
        areas[k].cols == c1 - c0,
{
    let a = areas[k];
    let name = a.name@;
    let h = grid.len() as int;
    assert(bounds_before(grid, name, a, h, 0));
    assert(named_at(grid, r0, c0, name));
    assert(named_at(grid, r1 - 1, c1 - 1, name));
    let top = choose|c: int| #[trigger]
        named_at(grid, a.row as int, c, name) && is_before(a.row as int, c, h, 0);
    let bottom = choose|c: int| #[trigger]
        named_at(grid, a.row + a.rows - 1, c, name) && is_before(a.row + a.rows - 1, c, h, 0);
    let left = choose|r: int| #[trigger]
        named_at(grid, r, a.col as int, name) && is_before(r, a.col as int, h, 0);
    let right = choose|r: int| #[trigger]
        named_at(grid, r, a.col + a.cols - 1, name) && is_before(r, a.col + a.cols - 1, h, 0);
    assert(named_at(grid, a.row as int, top, name));
    assert(named_at(grid, a.row + a.rows - 1, bottom, name));
    assert(named_at(grid, left, a.col as int, name));
    assert(named_at(grid, right, a.col + a.cols - 1, name));
}

/// Every named cell lies in the area of its name, and no area is without cells.
pub proof fn cells_lie_in_their_areas(
    grid: Seq<Vec<String>>,
    areas: Seq<NamedArea>,
    r: int,
    c: int,
)
    requires
        are_areas_of(grid, areas),
        0 <= r < grid.len(),
        0 <= c < grid[r]@.len(),
        grid[r]@[c]@.len() > 0,
        grid[r]@[c]@ != "."@,
    ensures
        exists|k: int|
            0 <= k < areas.len() && (#[trigger] areas[k]).name@ == grid[r]@[c]@ && areas[k].row <= r
                < areas[k].row + areas[k].rows && areas[k].col <= c < areas[k].col + areas[k].cols,
{
    let name = grid[r]@[c]@;
    assert(named_at(grid, r, c, name));
    assert(has_area(areas, name));
    let k = choose|k: int| 0 <= k < areas.len() && (#[trigger] areas[k]).name@ == name;
    assert(bounds_before(grid, areas[k].name@, areas[k], grid.len() as int, 0));
}

/// An item in an area asks for the lines around it, which are counted from one, and
/// keeps its place in or out of the flow.
pub proof fn items_ask_for_their_area(item: GridItem, a: NamedArea)
    requires
        a.row < usize::MAX,
        a.col < usize::MAX,
    ensures
        in_area(item, a).row_start matches Some(line) && line == a.row + 1,
        in_area(item, a).column_start matches Some(line) && line == a.col + 1,
        in_area(item, a).row_span == Some(a.rows),
        in_area(item, a).column_span == Some(a.cols),
        in_area(item, a).in_flow == item.in_flow,
{
}

} // verus!
