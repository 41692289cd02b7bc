//! What holds of the board in every state of a game, and why each step of the
//! game keeps it: every block on the grid is registered, and no block is on
//! the grid twice.

use crate::logic::line::{
    board_merges, leads_merge, lemma_place_bounds, lemma_place_increases, line_and_place,
    line_cells, line_merges, moved_grid, place, scan_cell, tile_slides,
};
use crate::logic::number::Number;
use crate::logic::position_map::{
    free_before, well_shaped, with_cell, without_first, Direction, Id, Position, CELLS, HEIGHT,
    WIDTH,
};
use vstd::prelude::*;

verus! {

/// Every block on grid `g` has a rank in `reg`.
pub open spec fn all_registered(g: Seq<Seq<Option<Id>>>, reg: Map<Id, Number>) -> bool {
    forall|x: int, y: int|
        0 <= x < WIDTH && 0 <= y < HEIGHT && (#[trigger] g[x][y]) is Some ==> reg.contains_key(
            g[x][y].unwrap(),
        )
}

/// No block is in two cells of grid `g`.
pub open spec fn no_block_twice(g: Seq<Seq<Option<Id>>>) -> bool {
    forall|x1: int, y1: int, x2: int, y2: int|
        0 <= x1 < WIDTH && 0 <= y1 < HEIGHT && 0 <= x2 < WIDTH && 0 <= y2 < HEIGHT && (
        #[trigger] g[x1][y1]) is Some && g[x1][y1] == #[trigger] g[x2][y2] ==> x1 == x2 && y1
            == y2
}

/// Every registered identifier has been handed out: it lies below `next`.
pub open spec fn ids_below(reg: Map<Id, Number>, next: int) -> bool {
    forall|id: Id| #[trigger] reg.contains_key(id) ==> 0 <= id < next
}

/// Both tiles of every merge of `m` are registered, and its target is on the
/// board.
pub open spec fn merges_sound(m: Seq<(Id, Id, Position)>, reg: Map<Id, Number>) -> bool {
    forall|i: int|
        0 <= i < m.len() ==> reg.contains_key((#[trigger] m[i]).0) && reg.contains_key(m[i].1)
            && m[i].2.x < WIDTH && m[i].2.y < HEIGHT
}

/// Grid `g` without block `id`.
pub open spec fn without(g: Seq<Seq<Option<Id>>>, id: Id) -> Seq<Seq<Option<Id>>> {
    Seq::new(
        WIDTH as nat,
        |x: int|
            Seq::new(
                HEIGHT as nat,
                |y: int|
                    if g[x][y] == Some(id) {
                        None
                    } else {
                        g[x][y]
                    },
            ),
    )
}

/// A block of the moved grid is a tile of the line through its cell, and was
/// on the grid before the move.
pub proof fn lemma_moved_cell(
    g: Seq<Seq<Option<Id>>>,
    reg: Map<Id, Number>,
    direction: Direction,
    x: int,
    y: int,
)
    requires
        well_shaped(g),
        0 <= x < WIDTH,
        0 <= y < HEIGHT,
    ensures
        moved_grid(g, reg, direction)[x][y] is Some ==> {
            let l = line_and_place(direction, x, y).0;
            let j = line_and_place(direction, x, y).1;
            let p = place(line_cells(g, direction, l), j);
            &&& tile_slides(line_cells(g, direction, l), reg, j)
            &&& 0 <= p < WIDTH
            &&& moved_grid(g, reg, direction)[x][y] == g[scan_cell(direction, l, p).0][scan_cell(
                direction,
                l,
                p,
            ).1]
        },
{
    let l = line_and_place(direction, x, y).0;
    let j = line_and_place(direction, x, y).1;
    lemma_place_bounds(line_cells(g, direction, l), j);
}

/// A move keeps every block registered and no block twice on the grid.
pub proof fn lemma_move_keeps_board(
    g: Seq<Seq<Option<Id>>>,
    reg: Map<Id, Number>,
    direction: Direction,
)
    requires
        well_shaped(g),
        all_registered(g, reg),
        no_block_twice(g),
    ensures
        well_shaped(moved_grid(g, reg, direction)),
        all_registered(moved_grid(g, reg, direction), reg),
        no_block_twice(moved_grid(g, reg, direction)),
{
    let h = moved_grid(g, reg, direction);
    assert forall|x: int, y: int| 0 <= x < WIDTH && 0 <= y < HEIGHT && (
    #[trigger] h[x][y]) is Some implies reg.contains_key(h[x][y].unwrap()) by {
        lemma_moved_cell(g, reg, direction, x, y);
        let l = line_and_place(direction, x, y).0;
        let p = place(line_cells(g, direction, l), line_and_place(direction, x, y).1);
        let c = scan_cell(direction, l, p);
        assert(g[c.0][c.1] is Some);
    }
    assert forall|x1: int, y1: int, x2: int, y2: int|
        0 <= x1 < WIDTH && 0 <= y1 < HEIGHT && 0 <= x2 < WIDTH && 0 <= y2 < HEIGHT && (
        #[trigger] h[x1][y1]) is Some && h[x1][y1] == #[trigger] h[x2][y2] implies x1 == x2 && y1
        == y2 by {
        lemma_moved_cell(g, reg, direction, x1, y1);
        lemma_moved_cell(g, reg, direction, x2, y2);
        let line_a = line_and_place(direction, x1, y1).0;
        let index_a = line_and_place(direction, x1, y1).1;
        let line_b = line_and_place(direction, x2, y2).0;
        let index_b = line_and_place(direction, x2, y2).1;
        let place_a = place(line_cells(g, direction, line_a), index_a);
        let place_b = place(line_cells(g, direction, line_b), index_b);
        let cell_a = scan_cell(direction, line_a, place_a);
        let cell_b = scan_cell(direction, line_b, place_b);
        assert(g[cell_a.0][cell_a.1] is Some);
        assert(g[cell_a.0][cell_a.1] == g[cell_b.0][cell_b.1]);
        assert(cell_a == cell_b);
        assert(line_a == line_b && place_a == place_b);
        if index_a < index_b {
            lemma_place_increases(line_cells(g, direction, line_a), index_a, index_b);
        }
        if index_b < index_a {
            lemma_place_increases(line_cells(g, direction, line_a), index_b, index_a);
        }
    }
}

/// The merges of a line have registered tiles and targets on the board. As
/// no tile is in two merges, the first `n` tiles lead no more than half as
/// many merges, rounded up.
pub proof fn lemma_line_merges_sound(
    g: Seq<Seq<Option<Id>>>,
    reg: Map<Id, Number>,
    direction: Direction,
    line: int,
    n: int,
)
    requires
        well_shaped(g),
        all_registered(g, reg),
        0 <= line < WIDTH,
        0 <= n <= WIDTH,
    ensures
        merges_sound(line_merges(line_cells(g, direction, line), reg, direction, line, n), reg),
        line_merges(line_cells(g, direction, line), reg, direction, line, n).len() <= (n + 1) / 2,
    decreases n,
{
    if n > 0 {
        let s = line_cells(g, direction, line);
        lemma_line_merges_sound(g, reg, direction, line, n - 1);
        if n > 1 {
            lemma_line_merges_sound(g, reg, direction, line, n - 2);
        }
        if leads_merge(s, reg, n - 1) {
            lemma_place_bounds(s, n - 1);
            lemma_place_bounds(s, n);
            let c = scan_cell(direction, line, place(s, n - 1));
            assert(g[c.0][c.1] is Some);
            let d = scan_cell(direction, line, place(s, n));
            assert(g[d.0][d.1] is Some);
        }
    }
}

/// The merges of a move have registered tiles and targets on the board, and
/// there are at most two to a line.
pub proof fn lemma_board_merges_sound(
    g: Seq<Seq<Option<Id>>>,
    reg: Map<Id, Number>,
    direction: Direction,
    lines: int,
)
    requires
        well_shaped(g),
        all_registered(g, reg),
        0 <= lines <= WIDTH,
    ensures
        merges_sound(board_merges(g, reg, direction, lines), reg),
        board_merges(g, reg, direction, lines).len() <= 2 * lines,
    decreases lines,
{
    if lines > 0 {
        lemma_board_merges_sound(g, reg, direction, lines - 1);
        lemma_line_merges_sound(g, reg, direction, lines - 1, WIDTH as int);
    }
}

/// Taking a block off the grid and out of the registry keeps the rest in
/// order.
pub proof fn lemma_without_keeps_board(g: Seq<Seq<Option<Id>>>, reg: Map<Id, Number>, id: Id)
    requires
        well_shaped(g),
        all_registered(g, reg),
        no_block_twice(g),
    ensures
        well_shaped(without(g, id)),
        all_registered(without(g, id), reg.remove(id)),
        no_block_twice(without(g, id)),
{
    let h = without(g, id);
    assert forall|x: int, y: int| 0 <= x < WIDTH && 0 <= y < HEIGHT && (
    #[trigger] h[x][y]) is Some implies reg.remove(id).contains_key(h[x][y].unwrap()) by {
        assert(g[x][y] is Some);
    }
    assert forall|x1: int, y1: int, x2: int, y2: int|
        0 <= x1 < WIDTH && 0 <= y1 < HEIGHT && 0 <= x2 < WIDTH && 0 <= y2 < HEIGHT && (
        #[trigger] h[x1][y1]) is Some && h[x1][y1] == #[trigger] h[x2][y2] implies x1 == x2 && y1
        == y2 by {
        assert(g[x1][y1] is Some);
        assert(g[x1][y1] == g[x2][y2]);
    }
}

/// Where no block is twice on the grid, emptying the first cell that holds a
/// block takes the block off the grid.
pub proof fn lemma_without_first(g: Seq<Seq<Option<Id>>>, id: Id)
    requires
        well_shaped(g),
        no_block_twice(g),
    ensures
        without_first(g, id) == without(g, id),
{
    assert forall|x: int, y: int| 0 <= x < WIDTH && 0 <= y < HEIGHT implies without_first(
        g,
        id,
    )[x][y] == without(g, id)[x][y] by {
        if g[x][y] == Some(id) {
            assert forall|i: int, j: int|
                0 <= i < WIDTH && 0 <= j < HEIGHT && i * HEIGHT + j < x * HEIGHT + y implies g[i][j]
                != Some(id) by {
                if g[i][j] == Some(id) {
                    assert(g[x][y] is Some);
                    assert(g[x][y] == g[i][j]);
                }
            }
        }
    }
    assert(without_first(g, id) =~~= without(g, id));
}

/// Placing a block under an identifier that was never handed out keeps the
/// board in order.
pub proof fn lemma_new_block_keeps_board(
    g: Seq<Seq<Option<Id>>>,
    reg: Map<Id, Number>,
    x: int,
    y: int,
    id: Id,
    number: Number,
)
    requires
        well_shaped(g),
        all_registered(g, reg),
        no_block_twice(g),
        ids_below(reg, id as int),
        0 <= id,
        0 <= x < WIDTH,
        0 <= y < HEIGHT,
    ensures
        well_shaped(with_cell(g, x, y, Some(id))),
        all_registered(with_cell(g, x, y, Some(id)), reg.insert(id, number)),
        no_block_twice(with_cell(g, x, y, Some(id))),
        ids_below(reg.insert(id, number), id + 1),
{
    let h = with_cell(g, x, y, Some(id));
    assert forall|i: int, j: int| 0 <= i < WIDTH && 0 <= j < HEIGHT && (
    #[trigger] h[i][j]) is Some implies reg.insert(id, number).contains_key(
        h[i][j].unwrap(),
    ) by {
        if !(i == x && j == y) {
            assert(g[i][j] is Some);
        }
    }
    assert forall|x1: int, y1: int, x2: int, y2: int|
        0 <= x1 < WIDTH && 0 <= y1 < HEIGHT && 0 <= x2 < WIDTH && 0 <= y2 < HEIGHT && (
        #[trigger] h[x1][y1]) is Some && h[x1][y1] == #[trigger] h[x2][y2] implies x1 == x2 && y1
        == y2 by {
        if !(x1 == x && y1 == y) {
            assert(g[x1][y1] is Some);
            assert(reg.contains_key(g[x1][y1].unwrap()));
        }
        if !(x2 == x && y2 == y) {
            assert(h[x2][y2] == g[x2][y2]);
            if x1 == x && y1 == y {
                assert(g[x2][y2] is Some);
                assert(reg.contains_key(g[x2][y2].unwrap()));
            } else {
                assert(g[x1][y1] == g[x2][y2]);
            }
        }
    }
}

/// On a grid whose first `k` cells are empty, those are `k` empty cells.
pub proof fn lemma_free_before_empty(g: Seq<Seq<Option<Id>>>, k: int)
    requires
        well_shaped(g),
        0 <= k <= CELLS,
        forall|x: int, y: int| 0 <= x < WIDTH && 0 <= y < HEIGHT ==> g[x][y] is None,
    ensures
        free_before(g, k) == k,
    decreases k,
{
    if k > 0 {
        lemma_free_before_empty(g, k - 1);
        assert(g[(k - 1) / HEIGHT as int][(k - 1) % HEIGHT as int] is None);
    }
}

/// The count of empty cells never falls from one cell to the next, and rises
/// by one past each empty cell.
pub proof fn lemma_free_before_grows(g: Seq<Seq<Option<Id>>>, a: int, b: int)
    requires
        0 <= a <= b,
    ensures
        0 <= free_before(g, a) <= free_before(g, b),
        free_before(g, b) - free_before(g, a) <= b - a,
        a < b && g[a / HEIGHT as int][a % HEIGHT as int] is None ==> free_before(g, a)
            < free_before(g, b),
    decreases b,
{
    if a < b {
        lemma_free_before_grows(g, a, b - 1);
    } else {
        lemma_free_before_nonneg(g, a);
    }
}

/// The count of empty cells is never negative.
pub proof fn lemma_free_before_nonneg(g: Seq<Seq<Option<Id>>>, k: int)
    ensures
        0 <= free_before(g, k),
    decreases k,
{
    if k > 0 {
        lemma_free_before_nonneg(g, k - 1);
    }
}

/// A board without an empty cell is full, and the other way round.
pub proof fn lemma_no_free_cell(g: Seq<Seq<Option<Id>>>)
    requires
        well_shaped(g),
    ensures
        free_before(g, CELLS as int) == 0 <==> forall|x: int, y: int|
            0 <= x < WIDTH && 0 <= y < HEIGHT ==> (#[trigger] g[x][y]) is Some,
{
    if free_before(g, CELLS as int) == 0 {
        assert forall|x: int, y: int| 0 <= x < WIDTH && 0 <= y < HEIGHT implies (
        #[trigger] g[x][y]) is Some by {
            let k = x * HEIGHT + y;
            lemma_free_before_grows(g, 0, k);
            lemma_free_before_grows(g, k, CELLS as int);
        }
    } else {
        if forall|x: int, y: int|
            0 <= x < WIDTH && 0 <= y < HEIGHT ==> (#[trigger] g[x][y]) is Some {
            lemma_free_before_full(g, CELLS as int);
            assert(false);
        }
    }
}

/// On a full grid the first `k` cells hold no empty cell.
proof fn lemma_free_before_full(g: Seq<Seq<Option<Id>>>, k: int)
    requires
        well_shaped(g),
        0 <= k <= CELLS,
        forall|x: int, y: int| 0 <= x < WIDTH && 0 <= y < HEIGHT ==> (#[trigger] g[x][y]) is Some,
    ensures
        free_before(g, k) == 0,
    decreases k,
{
    if k > 0 {
        lemma_free_before_full(g, k - 1);
        assert(g[(k - 1) / HEIGHT as int][(k - 1) % HEIGHT as int] is Some);
    }
}

/// The empty cell with a given number of empty cells before it is one cell:
/// the draw decides where the spawner puts its tile.
pub proof fn lemma_drawn_cell_is_one(g: Seq<Seq<Option<Id>>>, p: Position, q: Position)
    requires
        p.x < WIDTH,
        p.y < HEIGHT,
        q.x < WIDTH,
        q.y < HEIGHT,
        g[p.x as int][p.y as int] is None,
        g[q.x as int][q.y as int] is None,
        free_before(g, p.x * HEIGHT + p.y) == free_before(g, q.x * HEIGHT + q.y),
    ensures
        p == q,
{
    let a = p.x * HEIGHT + p.y;
    let b = q.x * HEIGHT + q.y;
    if a < b {
        lemma_free_before_grows(g, a, b);
    }
    if b < a {
        lemma_free_before_grows(g, b, a);
    }
}

} // verus!
