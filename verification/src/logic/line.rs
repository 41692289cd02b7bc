//! Lines of the board in scan order: what a move reads, and what it makes of
//! each line.
//!
//! A move treats the four lines independently. On one line it takes the tiles
//! in scan order and gives the tile of index `j` the slot `j`, counted from
//! the leading edge. A tile whose successor is of the same rank leads a merge,
//! unless it is itself the successor in the pair before: pairs do not overlap.
//! A pair is recorded with the lead's slot as target, and the lead is not
//! placed. Every other tile, the successor of a pair too, slides into its
//! slot.

use crate::logic::number::Number;
use crate::logic::position_map::{well_shaped, with_cell, Direction, Id, Position, HEIGHT, WIDTH};
use vstd::prelude::*;

verus! {

/// The column and row of the cell at place `k` of line `line`. A line is a
/// row for `LEFT` and `RIGHT`, a column for `TOP` and `BOTTOM`; place 0 is at
/// the edge that the direction compacts towards.
pub open spec fn scan_cell(direction: Direction, line: int, k: int) -> (int, int) {
    match direction {
        Direction::LEFT => (k, line),
        Direction::RIGHT => (WIDTH - 1 - k, line),
        Direction::TOP => (line, k),
        Direction::BOTTOM => (line, HEIGHT - 1 - k),
    }
}

/// The line and the place in it of the cell in column `x`, row `y`.
pub open spec fn line_and_place(direction: Direction, x: int, y: int) -> (int, int) {
    match direction {
        Direction::LEFT => (y, x),
        Direction::RIGHT => (y, WIDTH - 1 - x),
        Direction::TOP => (x, y),
        Direction::BOTTOM => (x, HEIGHT - 1 - y),
    }
}

/// The cell at place `k` of line `line`, as a position.
pub open spec fn slot(direction: Direction, line: int, k: int) -> Position {
    Position {
        x: scan_cell(direction, line, k).0 as usize,
        y: scan_cell(direction, line, k).1 as usize,
    }
}

/// The cells of line `line` of grid `g` in scan order.
pub open spec fn line_cells(g: Seq<Seq<Option<Id>>>, direction: Direction, line: int) -> Seq<
    Option<Id>,
> {
    Seq::new(
        WIDTH as nat,
        |k: int| g[scan_cell(direction, line, k).0][scan_cell(direction, line, k).1],
    )
}

/// The first place at or after `from` where line `s` holds a block; the
/// length of the line if there is none.
pub open spec fn first_occupied(s: Seq<Option<Id>>, from: int) -> int
    decreases s.len() - from,
{
    if from >= s.len() {
        s.len() as int
    } else if from >= 0 && s[from] is Some {
        from
    } else {
        first_occupied(s, from + 1)
    }
}

/// The place of the tile of index `j` of line `s` in scan order; the length
/// of the line if it has no such tile.
pub open spec fn place(s: Seq<Option<Id>>, j: int) -> int
    decreases j,
{
    if j <= 0 {
        first_occupied(s, 0)
    } else {
        first_occupied(s, place(s, j - 1) + 1)
    }
}

/// Line `s` has a tile of index `j`.
pub open spec fn has_tile(s: Seq<Option<Id>>, j: int) -> bool {
    0 <= j && place(s, j) < s.len()
}

/// The block that is the tile of index `j` of line `s`.
pub open spec fn tile(s: Seq<Option<Id>>, j: int) -> Id {
    s[place(s, j)].unwrap()
}

/// The rank that the registry `reg` gives block `id`, if any.
pub open spec fn rank_in(reg: Map<Id, Number>, id: Id) -> Option<Number> {
    if reg.contains_key(id) {
        Some(reg[id])
    } else {
        None
    }
}

/// The tiles of index `j` and `j + 1` exist and are of the same rank.
pub open spec fn pairs_up(s: Seq<Option<Id>>, reg: Map<Id, Number>, j: int) -> bool {
    &&& has_tile(s, j)
    &&& has_tile(s, j + 1)
    &&& rank_in(reg, tile(s, j)) == rank_in(reg, tile(s, j + 1))
}

/// The tile of index `j` leads a merge: it is of the same rank as its
/// successor, and is not itself the successor in a merge.
pub open spec fn leads_merge(s: Seq<Option<Id>>, reg: Map<Id, Number>, j: int) -> bool
    decreases j,
{
    if j <= 0 {
        pairs_up(s, reg, j)
    } else {
        pairs_up(s, reg, j) && !leads_merge(s, reg, j - 1)
    }
}

/// The tile of index `j` slides into slot `j`.
pub open spec fn tile_slides(s: Seq<Option<Id>>, reg: Map<Id, Number>, j: int) -> bool {
    has_tile(s, j) && !leads_merge(s, reg, j)
}

/// Line `s` after the move: slot `j` holds the tile of index `j` if that
/// tile slides, and is empty otherwise.
pub open spec fn moved_line(s: Seq<Option<Id>>, reg: Map<Id, Number>) -> Seq<Option<Id>> {
    Seq::new(
        s.len(),
        |j: int|
            if tile_slides(s, reg, j) {
                Some(tile(s, j))
            } else {
                None
            },
    )
}

/// The slides of the first `n` tiles of a line, in scan order: each sliding
/// tile with the slot it lands in.
pub open spec fn line_slides(
    s: Seq<Option<Id>>,
    reg: Map<Id, Number>,
    direction: Direction,
    line: int,
    n: int,
) -> Seq<(Id, Position)>
    decreases n,
{
    if n <= 0 {
        Seq::empty()
    } else if tile_slides(s, reg, n - 1) {
        line_slides(s, reg, direction, line, n - 1).push(
            (tile(s, n - 1), slot(direction, line, n - 1)),
        )
    } else {
        line_slides(s, reg, direction, line, n - 1)
    }
}

/// The merges of the first `n` tiles of a line, in scan order: lead,
/// successor, and the lead's slot as target.
pub open spec fn line_merges(
    s: Seq<Option<Id>>,
    reg: Map<Id, Number>,
    direction: Direction,
    line: int,
    n: int,
) -> Seq<(Id, Id, Position)>
    decreases n,
{
    if n <= 0 {
        Seq::empty()
    } else if leads_merge(s, reg, n - 1) {
        line_merges(s, reg, direction, line, n - 1).push(
            (tile(s, n - 1), tile(s, n), slot(direction, line, n - 1)),
        )
    } else {
        line_merges(s, reg, direction, line, n - 1)
    }
}

/// Grid `g` after a move in `direction`: every line is the moved line.
pub open spec fn moved_grid(g: Seq<Seq<Option<Id>>>, reg: Map<Id, Number>, direction: Direction) -> Seq<
    Seq<Option<Id>>,
> {
    Seq::new(
        WIDTH as nat,
        |x: int|
            Seq::new(
                HEIGHT as nat,
                |y: int|
                    moved_line(line_cells(g, direction, line_and_place(direction, x, y).0), reg)[line_and_place(
                        direction,
                        x,
                        y,
                    ).1],
            ),
    )
}

/// The slides of the first `lines` lines of a move, line after line.
pub open spec fn board_slides(
    g: Seq<Seq<Option<Id>>>,
    reg: Map<Id, Number>,
    direction: Direction,
    lines: int,
) -> Seq<(Id, Position)>
    decreases lines,
{
    if lines <= 0 {
        Seq::empty()
    } else {
        board_slides(g, reg, direction, lines - 1) + line_slides(
            line_cells(g, direction, lines - 1),
            reg,
            direction,
            lines - 1,
            WIDTH as int,
        )
    }
}

/// The merges of the first `lines` lines of a move, line after line.
pub open spec fn board_merges(
    g: Seq<Seq<Option<Id>>>,
    reg: Map<Id, Number>,
    direction: Direction,
    lines: int,
) -> Seq<(Id, Id, Position)>
    decreases lines,
{
    if lines <= 0 {
        Seq::empty()
    } else {
        board_merges(g, reg, direction, lines - 1) + line_merges(
            line_cells(g, direction, lines - 1),
            reg,
            direction,
            lines - 1,
            WIDTH as int,
        )
    }
}

/// `first_occupied` finds a block, passes only empty places, and stops at the
/// end of the line.
pub proof fn lemma_first_occupied(s: Seq<Option<Id>>, from: int)
    requires
        0 <= from <= s.len(),
    ensures
        from <= first_occupied(s, from) <= s.len(),
        first_occupied(s, from) < s.len() ==> s[first_occupied(s, from)] is Some,
        forall|i: int| from <= i < first_occupied(s, from) ==> s[i] is None,
    decreases s.len() - from,
{
    if from < s.len() && !(s[from] is Some) {
        lemma_first_occupied(s, from + 1);
    }
}

/// Two lines that agree from `from` on have their first block from there on
/// at the same place.
pub proof fn lemma_first_occupied_agree(s: Seq<Option<Id>>, t: Seq<Option<Id>>, from: int)
    requires
        s.len() == t.len(),
        0 <= from,
        forall|i: int| from <= i < s.len() ==> s[i] == t[i],
    ensures
        first_occupied(s, from) == first_occupied(t, from),
    decreases s.len() - from,
{
    if from < s.len() {
        lemma_first_occupied_agree(s, t, from + 1);
    }
}

/// Empty places at the start of a search do not change what it finds.
pub proof fn lemma_first_occupied_skip(s: Seq<Option<Id>>, from: int, to: int)
    requires
        0 <= from <= to <= s.len(),
        forall|i: int| from <= i < to ==> s[i] is None,
    ensures
        first_occupied(s, from) == first_occupied(s, to),
    decreases to - from,
{
    if from < to {
        lemma_first_occupied_skip(s, from + 1, to);
    }
}

/// The tile of index `j` lies at place `j` or later, and within the line or
/// at its end.
pub proof fn lemma_place_bounds(s: Seq<Option<Id>>, j: int)
    requires
        0 <= j,
    ensures
        j <= place(s, j) || place(s, j) == s.len(),
        0 <= place(s, j) <= s.len(),
        has_tile(s, j) ==> s[place(s, j)] is Some,
        has_tile(s, j) && j > 0 ==> has_tile(s, j - 1) && place(s, j - 1) < place(s, j),
    decreases j,
{
    if j <= 0 {
        lemma_first_occupied(s, 0);
    } else {
        lemma_place_bounds(s, j - 1);
        if place(s, j - 1) < s.len() {
            lemma_first_occupied(s, place(s, j - 1) + 1);
        }
    }
}

/// Tiles of a smaller index lie at an earlier place.
pub proof fn lemma_place_increases(s: Seq<Option<Id>>, i: int, j: int)
    requires
        0 <= i < j,
        has_tile(s, j),
    ensures
        has_tile(s, i),
        place(s, i) < place(s, j),
    decreases j - i,
{
    lemma_place_bounds(s, j);
    if i < j - 1 {
        lemma_place_increases(s, i, j - 1);
    }
}

/// A line of the board has no tile of index 4 or more.
pub proof fn lemma_no_tile_beyond(s: Seq<Option<Id>>, j: int)
    requires
        s.len() <= j,
    ensures
        !has_tile(s, j),
{
    lemma_place_bounds(s, j);
}

/// Writing one cell changes one place of the line through it and no other
/// line.
pub proof fn lemma_line_after_write(
    g: Seq<Seq<Option<Id>>>,
    direction: Direction,
    line: int,
    k: int,
    id: Option<Id>,
)
    requires
        well_shaped(g),
        0 <= line < WIDTH,
        0 <= k < WIDTH,
    ensures
        well_shaped(
            with_cell(g, scan_cell(direction, line, k).0, scan_cell(direction, line, k).1, id),
        ),
        line_cells(
            with_cell(g, scan_cell(direction, line, k).0, scan_cell(direction, line, k).1, id),
            direction,
            line,
        ) == line_cells(g, direction, line).update(k, id),
        forall|other: int|
            0 <= other < WIDTH && other != line ==> #[trigger] line_cells(
                with_cell(g, scan_cell(direction, line, k).0, scan_cell(direction, line, k).1, id),
                direction,
                other,
            ) == line_cells(g, direction, other),
{
    let c = scan_cell(direction, line, k);
    let h = with_cell(g, c.0, c.1, id);
    assert(line_cells(h, direction, line) =~= line_cells(g, direction, line).update(k, id));
    assert forall|other: int| 0 <= other < WIDTH && other != line implies #[trigger] line_cells(
        h,
        direction,
        other,
    ) == line_cells(g, direction, other) by {
        assert(line_cells(h, direction, other) =~= line_cells(g, direction, other));
    }
}

/// Three tiles of one rank in a row, with no fourth of that rank behind
/// them and none before them that merges with the first: the first two merge
/// on the first one's slot, and the third takes part in no merge and slides
/// into its own slot, two behind the target.
pub proof fn lemma_three_alike_merge_once(s: Seq<Option<Id>>, reg: Map<Id, Number>, j: int)
    requires
        0 <= j,
        pairs_up(s, reg, j),
        pairs_up(s, reg, j + 1),
        !pairs_up(s, reg, j + 2),
        j > 0 ==> !leads_merge(s, reg, j - 1),
    ensures
        leads_merge(s, reg, j),
        !leads_merge(s, reg, j + 1),
        !leads_merge(s, reg, j + 2),
        tile_slides(s, reg, j + 1),
        tile_slides(s, reg, j + 2),
        moved_line(s, reg)[j] is None,
        moved_line(s, reg)[j + 1] == Some(tile(s, j + 1)),
        moved_line(s, reg)[j + 2] == Some(tile(s, j + 2)),
{
    lemma_place_bounds(s, j + 2);
    lemma_place_bounds(s, j + 1);
    lemma_place_bounds(s, j);
}

/// Merges do not overlap: the successor in a merge leads none.
pub proof fn lemma_merges_apart(s: Seq<Option<Id>>, reg: Map<Id, Number>, j: int)
    requires
        0 <= j,
        leads_merge(s, reg, j),
    ensures
        !leads_merge(s, reg, j + 1),
        tile_slides(s, reg, j + 1),
{
}

} // verus!
