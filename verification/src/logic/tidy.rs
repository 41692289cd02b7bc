//! No block is left over. Between a move and the end of its animation the
//! registry still holds the leads of the merges that wait, though they have
//! left the grid. At every other time each registered block lies on the grid.

use crate::logic::board::without;
use crate::logic::line::{
    board_merges, has_tile, leads_merge, lemma_first_occupied, lemma_place_bounds,
    line_and_place, line_cells, line_merges, moved_grid, place, scan_cell, tile, tile_slides,
};
use crate::logic::number::Number;
use crate::logic::position_map::{well_shaped, with_cell, Direction, Id, Position, HEIGHT, WIDTH};
use vstd::prelude::*;

verus! {

/// The cell in column `x`, row `y` of grid `g` holds block `id`.
pub open spec fn holds(g: Seq<Seq<Option<Id>>>, x: int, y: int, id: Id) -> bool {
    g[x][y] == Some(id)
}

/// Block `id` lies on grid `g`.
pub open spec fn on_grid(g: Seq<Seq<Option<Id>>>, id: Id) -> bool {
    exists|x: int, y: int| 0 <= x < WIDTH && 0 <= y < HEIGHT && #[trigger] holds(g, x, y, id)
}

/// Block `id` leads one of the merges of `m` from index `from` on.
pub open spec fn leads_from(m: Seq<(Id, Id, Position)>, from: int, id: Id) -> bool {
    exists|k: int| from <= k < m.len() && (#[trigger] m[k]).0 == id
}

/// Every registered block lies on the grid or leads one of the merges of `m`
/// from index `from` on.
pub open spec fn none_left_over(
    g: Seq<Seq<Option<Id>>>,
    reg: Map<Id, Number>,
    m: Seq<(Id, Id, Position)>,
    from: int,
) -> bool {
    forall|id: Id| #[trigger] reg.contains_key(id) ==> on_grid(g, id) || leads_from(m, from, id)
}

/// The targets of the merges of `m` from index `from` on are cells of the
/// board that are empty.
pub open spec fn targets_free(g: Seq<Seq<Option<Id>>>, m: Seq<(Id, Id, Position)>, from: int) -> bool {
    forall|k: int|
        from <= k < m.len() ==> (#[trigger] m[k]).2.x < WIDTH && m[k].2.y < HEIGHT
            && g[m[k].2.x as int][m[k].2.y as int] is None
}

/// No two merges of `m` have the same target.
pub open spec fn targets_apart(m: Seq<(Id, Id, Position)>) -> bool {
    forall|a: int, b: int| 0 <= a < b < m.len() ==> (#[trigger] m[a]).2 != (#[trigger] m[b]).2
}

/// The line through the target of merge `e`.
pub open spec fn target_line(direction: Direction, e: (Id, Id, Position)) -> int {
    line_and_place(direction, e.2.x as int, e.2.y as int).0
}

/// The slot of the target of merge `e` in its line.
pub open spec fn target_slot(direction: Direction, e: (Id, Id, Position)) -> int {
    line_and_place(direction, e.2.x as int, e.2.y as int).1
}

/// Each merge of `m` has as target the slot of a tile that leads a merge in
/// one of the first `lines` lines, within the first `slots` slots if that is
/// the last of these lines; and the merges come line after line and, within
/// a line, slot after slot.
pub open spec fn merges_traced(
    m: Seq<(Id, Id, Position)>,
    g: Seq<Seq<Option<Id>>>,
    reg: Map<Id, Number>,
    direction: Direction,
    lines: int,
    slots: int,
) -> bool {
    &&& forall|i: int|
        0 <= i < m.len() ==> {
            &&& (#[trigger] m[i]).2.x < WIDTH
            &&& m[i].2.y < HEIGHT
            &&& 0 <= target_line(direction, m[i]) < lines
            &&& target_line(direction, m[i]) == lines - 1 ==> target_slot(direction, m[i]) < slots
            &&& leads_merge(
                line_cells(g, direction, target_line(direction, m[i])),
                reg,
                target_slot(direction, m[i]),
            )
        }
    &&& forall|a: int, b: int|
        0 <= a < b < m.len() ==> target_line(direction, #[trigger] m[a]) < target_line(
            direction,
            #[trigger] m[b],
        ) || (target_line(direction, m[a]) == target_line(direction, m[b]) && target_slot(
            direction,
            m[a],
        ) < target_slot(direction, m[b]))
}

/// The tile at an occupied place of a line has an index.
pub proof fn lemma_tile_index(s: Seq<Option<Id>>, p: int) -> (j: int)
    requires
        0 <= p < s.len(),
        s[p] is Some,
    ensures
        0 <= j <= p,
        has_tile(s, j),
        place(s, j) == p,
{
    lemma_first_occupied(s, 0);
    lemma_tile_index_from(s, p, 0)
}

proof fn lemma_tile_index_from(s: Seq<Option<Id>>, p: int, from: int) -> (j: int)
    requires
        0 <= from,
        0 <= p < s.len(),
        s[p] is Some,
        place(s, from) <= p,
    ensures
        from <= j <= p,
        has_tile(s, j),
        place(s, j) == p,
    decreases p - place(s, from),
{
    lemma_place_bounds(s, from);
    if place(s, from) == p {
        from
    } else {
        lemma_first_occupied(s, place(s, from) + 1);
        lemma_tile_index_from(s, p, from + 1)
    }
}

/// The merge that a tile of a line leads is among the merges of the line.
proof fn lemma_line_merge_listed(
    s: Seq<Option<Id>>,
    reg: Map<Id, Number>,
    direction: Direction,
    line: int,
    n: int,
    j: int,
) -> (i: int)
    requires
        0 <= j < n,
        leads_merge(s, reg, j),
    ensures
        0 <= i < line_merges(s, reg, direction, line, n).len(),
        line_merges(s, reg, direction, line, n)[i].0 == tile(s, j),
    decreases n,
{
    if j == n - 1 {
        line_merges(s, reg, direction, line, n - 1).len() as int
    } else {
        lemma_line_merge_listed(s, reg, direction, line, n - 1, j)
    }
}

/// The merge that a tile of the board leads is among the merges of the move.
proof fn lemma_board_merge_listed(
    g: Seq<Seq<Option<Id>>>,
    reg: Map<Id, Number>,
    direction: Direction,
    lines: int,
    line: int,
    j: int,
) -> (i: int)
    requires
        0 <= line < lines,
        0 <= j < WIDTH,
        leads_merge(line_cells(g, direction, line), reg, j),
    ensures
        0 <= i < board_merges(g, reg, direction, lines).len(),
        board_merges(g, reg, direction, lines)[i].0 == tile(line_cells(g, direction, line), j),
    decreases lines,
{
    if line == lines - 1 {
        let k = lemma_line_merge_listed(
            line_cells(g, direction, line),
            reg,
            direction,
            line,
            WIDTH as int,
            j,
        );
        board_merges(g, reg, direction, lines - 1).len() + k
    } else {
        lemma_board_merge_listed(g, reg, direction, lines - 1, line, j)
    }
}

/// The merges of the first `n` tiles of a line are traced to their leads.
proof fn lemma_line_merges_traced(
    g: Seq<Seq<Option<Id>>>,
    reg: Map<Id, Number>,
    direction: Direction,
    line: int,
    n: int,
)
    requires
        0 <= line < WIDTH,
        0 <= n <= WIDTH,
    ensures
        merges_traced(
            line_merges(line_cells(g, direction, line), reg, direction, line, n),
            g,
            reg,
            direction,
            line + 1,
            n,
        ),
        forall|i: int|
            0 <= i < line_merges(line_cells(g, direction, line), reg, direction, line, n).len()
                ==> target_line(
                direction,
                #[trigger] line_merges(line_cells(g, direction, line), reg, direction, line, n)[i],
            ) == line,
    decreases n,
{
    if n > 0 {
        lemma_line_merges_traced(g, reg, direction, line, n - 1);
    }
}

/// The merges of the first `lines` lines of a move are traced to their
/// leads.
proof fn lemma_board_merges_traced(
    g: Seq<Seq<Option<Id>>>,
    reg: Map<Id, Number>,
    direction: Direction,
    lines: int,
)
    requires
        0 <= lines <= WIDTH,
    ensures
        merges_traced(board_merges(g, reg, direction, lines), g, reg, direction, lines, WIDTH as int),
    decreases lines,
{
    if lines > 0 {
        lemma_board_merges_traced(g, reg, direction, lines - 1);
        lemma_line_merges_traced(g, reg, direction, lines - 1, WIDTH as int);
    }
}

/// A move leaves no block over: a block that lay on the grid lies on the
/// moved grid or leads a merge of the move. The targets of the merges are
/// empty cells of the moved grid, no two the same.
pub proof fn lemma_move_leaves_none_over(
    g: Seq<Seq<Option<Id>>>,
    reg: Map<Id, Number>,
    direction: Direction,
)
    requires
        well_shaped(g),
        none_left_over(g, reg, Seq::empty(), 0),
    ensures
        none_left_over(
            moved_grid(g, reg, direction),
            reg,
            board_merges(g, reg, direction, WIDTH as int),
            0,
        ),
        targets_free(
            moved_grid(g, reg, direction),
            board_merges(g, reg, direction, WIDTH as int),
            0,
        ),
        targets_apart(board_merges(g, reg, direction, WIDTH as int)),
{
    let h = moved_grid(g, reg, direction);
    let m = board_merges(g, reg, direction, WIDTH as int);
    lemma_board_merges_traced(g, reg, direction, WIDTH as int);
    assert forall|id: Id| #[trigger] reg.contains_key(id) implies on_grid(h, id) || leads_from(
        m,
        0,
        id,
    ) by {
        assert(on_grid(g, id));
        let (x, y) = choose|x: int, y: int|
            0 <= x < WIDTH && 0 <= y < HEIGHT && #[trigger] holds(g, x, y, id);
        let line = line_and_place(direction, x, y).0;
        let p = line_and_place(direction, x, y).1;
        let s = line_cells(g, direction, line);
        assert(s[p] == Some(id));
        let j = lemma_tile_index(s, p);
        if tile_slides(s, reg, j) {
            let c = scan_cell(direction, line, j);
            assert(holds(h, c.0, c.1, id));
        } else {
            let i = lemma_board_merge_listed(g, reg, direction, WIDTH as int, line, j);
            assert(m[i].0 == id);
        }
    }
    assert forall|k: int| 0 <= k < m.len() implies (#[trigger] m[k]).2.x < WIDTH && m[k].2.y
        < HEIGHT && h[m[k].2.x as int][m[k].2.y as int] is None by {
        assert(!tile_slides(
            line_cells(g, direction, target_line(direction, m[k])),
            reg,
            target_slot(direction, m[k]),
        ));
    }
}

/// Applying merge `i` leaves no block over: both tiles of the pair leave
/// grid and registry, and the promoted tile takes the target, which was
/// empty.
pub proof fn lemma_settle_leaves_none_over(
    g: Seq<Seq<Option<Id>>>,
    reg: Map<Id, Number>,
    m: Seq<(Id, Id, Position)>,
    i: int,
    id: Id,
    number: Number,
)
    requires
        well_shaped(g),
        0 <= i < m.len(),
        none_left_over(g, reg, m, i),
        targets_free(g, m, i),
        targets_apart(m),
    ensures
        none_left_over(
            with_cell(
                without(without(g, m[i].0), m[i].1),
                m[i].2.x as int,
                m[i].2.y as int,
                Some(id),
            ),
            reg.remove(m[i].0).remove(m[i].1).insert(id, number),
            m,
            i + 1,
        ),
        targets_free(
            with_cell(
                without(without(g, m[i].0), m[i].1),
                m[i].2.x as int,
                m[i].2.y as int,
                Some(id),
            ),
            m,
            i + 1,
        ),
{
    let tx = m[i].2.x as int;
    let ty = m[i].2.y as int;
    let cleared = without(without(g, m[i].0), m[i].1);
    let h = with_cell(cleared, tx, ty, Some(id));
    let after = reg.remove(m[i].0).remove(m[i].1).insert(id, number);
    assert(g[tx][ty] is None);
    assert forall|other: Id| #[trigger] after.contains_key(other) implies on_grid(h, other)
        || leads_from(m, i + 1, other) by {
        if other == id {
            assert(holds(h, tx, ty, other));
        } else {
            assert(reg.contains_key(other));
            if on_grid(g, other) {
                let (x, y) = choose|x: int, y: int|
                    0 <= x < WIDTH && 0 <= y < HEIGHT && #[trigger] holds(g, x, y, other);
                assert(holds(h, x, y, other));
            } else {
                let k = choose|k: int| i <= k < m.len() && (#[trigger] m[k]).0 == other;
                assert(i + 1 <= k);
            }
        }
    }
    assert forall|k: int| i + 1 <= k < m.len() implies (#[trigger] m[k]).2.x < WIDTH && m[k].2.y
        < HEIGHT && h[m[k].2.x as int][m[k].2.y as int] is None by {
        assert(m[i].2 != m[k].2);
        assert(g[m[k].2.x as int][m[k].2.y as int] is None);
    }
}

/// A new block on an empty cell leaves no block over.
pub proof fn lemma_new_block_leaves_none_over(
    g: Seq<Seq<Option<Id>>>,
    reg: Map<Id, Number>,
    x: int,
    y: int,
    id: Id,
    number: Number,
)
    requires
        well_shaped(g),
        0 <= x < WIDTH,
        0 <= y < HEIGHT,
        g[x][y] is None,
        none_left_over(g, reg, Seq::empty(), 0),
    ensures
        none_left_over(with_cell(g, x, y, Some(id)), reg.insert(id, number), Seq::empty(), 0),
{
    let h = with_cell(g, x, y, Some(id));
    assert forall|other: Id| #[trigger] reg.insert(id, number).contains_key(other) implies on_grid(
        h,
        other,
    ) by {
        if other == id {
            assert(holds(h, x, y, other));
        } else {
            assert(reg.contains_key(other));
            assert(on_grid(g, other));
            let (a, b) = choose|a: int, b: int|
                0 <= a < WIDTH && 0 <= b < HEIGHT && #[trigger] holds(g, a, b, other);
            assert(holds(h, a, b, other));
        }
    }
}

} // verus!
