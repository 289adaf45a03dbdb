//! The ring of rows: which physical row backs a logical row, and what
//! scrolling does to the logical rows.

use crate::matrix::{blank_grid, rectangular, row_of};
use crate::state::Cell;
use vstd::prelude::*;

verus! {

/// The physical row behind the logical row `row` of a ring of `rows` rows
/// whose first logical row is the physical row `top`.
pub open spec fn ring_index(row: int, top: int, rows: int) -> int {
    (row + top) % rows
}

/// `grid` after `count` rows have scrolled off its top: the rows below move
/// up, and `count` blank rows of `cols` cells come in at the bottom.
pub open spec fn scrolled(grid: Seq<Seq<Cell>>, count: int, cols: nat) -> Seq<Seq<Cell>>
    recommends
        0 <= count <= grid.len(),
{
    grid.subrange(count, grid.len() as int) + blank_grid(count as nat, cols)
}

/// Inside a ring the index wraps at most once: it is the sum, less the
/// ring's length where the sum has reached it.
pub proof fn lemma_ring_index(row: int, top: int, rows: int)
    requires
        0 <= row < rows,
        0 <= top < rows,
    ensures
        ring_index(row, top, rows) == if row + top < rows {
            row + top
        } else {
            row + top - rows
        },
        0 <= ring_index(row, top, rows) < rows,
{
    if row + top < rows {
        vstd::arithmetic::div_mod::lemma_small_mod((row + top) as nat, rows as nat);
    } else {
        vstd::arithmetic::div_mod::lemma_small_mod((row + top - rows) as nat, rows as nat);
        vstd::arithmetic::div_mod::lemma_mod_sub_multiples_vanish(row + top, rows);
    }
}

/// Two logical rows of a ring lie on one physical row only if they are the
/// same row.
pub proof fn lemma_ring_index_injective(a: int, b: int, top: int, rows: int)
    requires
        0 <= a < rows,
        0 <= b < rows,
        0 <= top < rows,
        ring_index(a, top, rows) == ring_index(b, top, rows),
    ensures
        a == b,
{
    lemma_ring_index(a, top, rows);
    lemma_ring_index(b, top, rows);
}

/// The logical rows of the ring that `stored` holds behind `top`: row `r`
/// is the physical row `(r + top) mod rows`.
pub open spec fn logical(stored: Seq<Seq<Cell>>, top: int, rows: int) -> Seq<Seq<Cell>> {
    Seq::new(rows as nat, |r: int| stored[ring_index(r, top, rows)])
}

/// Writing one cell of the physical row behind a logical row writes that
/// cell of the logical row, and no other.
pub(crate) proof fn lemma_logical_update(
    stored: Seq<Seq<Cell>>,
    top: int,
    shape: (nat, nat),
    row: int,
    col: int,
    value: Cell,
)
    requires
        rectangular(stored, shape),
        0 <= row < shape.0,
        0 <= col < shape.1,
        0 <= top < shape.0,
    ensures
        ({
            let rows = shape.0 as int;
            let at = ring_index(row, top, rows);
            let written = stored.update(at, stored[at].update(col, value));
            &&& rectangular(written, shape)
            &&& logical(written, top, rows) == logical(stored, top, rows).update(
                row,
                logical(stored, top, rows)[row].update(col, value),
            )
        }),
{
    let rows = shape.0 as int;
    let at = ring_index(row, top, rows);
    let written = stored.update(at, stored[at].update(col, value));
    lemma_ring_index(row, top, rows);
    assert forall|r: int| 0 <= r < rows && r != row implies ring_index(r, top, rows) != at by {
        if ring_index(r, top, rows) == at {
            lemma_ring_index_injective(r, row, top, rows);
        }
    }
    assert forall|r: int| 0 <= r < rows implies 0 <= #[trigger] ring_index(r, top, rows) < rows by {
        lemma_ring_index(r, top, rows);
    }
    assert(logical(written, top, rows) =~= logical(stored, top, rows).update(
        row,
        logical(stored, top, rows)[row].update(col, value),
    ));
}

/// Clearing the physical row at the top and moving the top one row on
/// scrolls the logical rows by one.
pub(crate) proof fn lemma_logical_scroll(stored: Seq<Seq<Cell>>, top: int, shape: (nat, nat))
    requires
        rectangular(stored, shape),
        0 <= top < shape.0,
    ensures
        ({
            let rows = shape.0 as int;
            let cleared = stored.update(top, row_of(shape.1, Cell::spec_default()));
            &&& rectangular(cleared, shape)
            &&& logical(cleared, (top + 1) % rows, rows) == scrolled(
                logical(stored, top, rows),
                1,
                shape.1,
            )
        }),
{
    let rows = shape.0 as int;
    let cleared = stored.update(top, row_of(shape.1, Cell::spec_default()));
    let next = (top + 1) % rows;
    if top + 1 < rows {
        vstd::arithmetic::div_mod::lemma_small_mod((top + 1) as nat, rows as nat);
    } else {
        vstd::arithmetic::div_mod::lemma_mod_self_0(rows);
    }
    assert forall|r: int| 0 <= r < rows implies ring_index(r, next, rows) == (if r + 1 < rows {
        ring_index(r + 1, top, rows)
    } else {
        top
    }) && 0 <= ring_index(r, next, rows) < rows by {
        lemma_ring_index(r, next, rows);
        lemma_ring_index(r, top, rows);
        if r + 1 < rows {
            lemma_ring_index(r + 1, top, rows);
        }
    }
    assert forall|r: int| 0 < r < rows implies ring_index(r, top, rows) != top by {
        lemma_ring_index(r, top, rows);
    }
    assert(logical(cleared, next, rows) =~= scrolled(logical(stored, top, rows), 1, shape.1));
}

/// Ring integrity: after `count` rows have scrolled off, the row `row` is
/// the row that was `count` rows below it, as long as there was such a
/// row; the last `count` rows are blank.
pub proof fn lemma_scrolled_rows(grid: Seq<Seq<Cell>>, count: int, cols: nat, row: int)
    requires
        0 <= count <= grid.len(),
        0 <= row < grid.len(),
    ensures
        scrolled(grid, count, cols).len() == grid.len(),
        row + count < grid.len() ==> scrolled(grid, count, cols)[row] == grid[row + count],
        row + count >= grid.len() ==> scrolled(grid, count, cols)[row] == row_of(
            cols,
            Cell::spec_default(),
        ),
{
}

/// Scrolling by `first` rows and then by `second` more is scrolling by
/// `first + second` rows.
pub proof fn lemma_scrolled_twice(grid: Seq<Seq<Cell>>, first: int, second: int, cols: nat)
    requires
        0 <= first,
        0 <= second,
        first + second <= grid.len(),
    ensures
        scrolled(scrolled(grid, first, cols), second, cols) == scrolled(
            grid,
            first + second,
            cols,
        ),
{
    assert(scrolled(scrolled(grid, first, cols), second, cols) =~= scrolled(
        grid,
        first + second,
        cols,
    ));
}

/// Moving the top of a ring on by `first` rows and then by `second` more
/// is moving it on by `first + second` rows, and leaves it a row of the
/// ring.
pub proof fn lemma_ring_index_twice(first: int, second: int, top: int, rows: int)
    requires
        0 <= first,
        0 <= second,
        0 <= top < rows,
    ensures
        ring_index(second, ring_index(first, top, rows), rows) == ring_index(
            first + second,
            top,
            rows,
        ),
        0 <= ring_index(first, top, rows) < rows,
{
    vstd::arithmetic::div_mod::lemma_add_mod_noop(first + top, second, rows);
    vstd::arithmetic::div_mod::lemma_mod_twice(first + top, rows);
    vstd::arithmetic::div_mod::lemma_add_mod_noop((first + top) % rows, second, rows);
    vstd::arithmetic::div_mod::lemma_mod_bound(first + top, rows);
}

/// The number of rows by which a request for `rows` rows scrolls a screen
/// of `height` rows: no more than the screen has.
pub open spec fn scroll_count(rows: int, height: int) -> int {
    if rows < height {
        rows
    } else {
        height
    }
}

} // verus!
