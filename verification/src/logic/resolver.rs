//! The move resolver: what a move in one direction makes of the board.

use crate::logic::line::{
    board_merges, board_slides, first_occupied, has_tile, leads_merge, lemma_first_occupied,
    lemma_first_occupied_agree, lemma_first_occupied_skip, lemma_line_after_write,
    lemma_no_tile_beyond, lemma_place_bounds, line_and_place, line_cells, line_merges,
    line_slides, moved_grid, moved_line, place, slot, tile, tile_slides,
};
use crate::logic::number::Number;
use crate::logic::position_map::{
    same_number, scan, Direction, Id, Position, PositionMap, HEIGHT, WIDTH,
};
use crate::logic::LogicState;
use vstd::prelude::*;

verus! {

/// The first `n` slots of the moved line, on an otherwise empty line.
spec fn moved_line_upto(s: Seq<Option<Id>>, reg: Map<Id, Number>, n: int) -> Seq<
    Option<Id>,
> {
    Seq::new(
        s.len(),
        |j: int|
            if j < n && tile_slides(s, reg, j) {
                Some(tile(s, j))
            } else {
                None
            },
    )
}

/// Line `s` with the places before `c` emptied.
spec fn consumed(s: Seq<Option<Id>>, c: int) -> Seq<Option<Id>> {
    Seq::new(
        s.len(),
        |i: int|
            if i < c {
                None
            } else {
                s[i]
            },
    )
}

/// The place behind the tile of index `j - 1`: where the search for the tile
/// of index `j` starts.
spec fn search_start(s: Seq<Option<Id>>, j: int) -> int {
    if j <= 0 {
        0
    } else {
        place(s, j - 1) + 1
    }
}

/// Once a line has run out of tiles, nothing more slides or merges.
proof fn lemma_line_done(
    s: Seq<Option<Id>>,
    reg: Map<Id, Number>,
    direction: Direction,
    line: int,
    n: int,
    m: int,
)
    requires
        0 <= n <= m,
        !has_tile(s, n),
    ensures
        !has_tile(s, m),
        line_slides(s, reg, direction, line, m) == line_slides(s, reg, direction, line, n),
        line_merges(s, reg, direction, line, m) == line_merges(s, reg, direction, line, n),
        moved_line_upto(s, reg, m) == moved_line_upto(s, reg, n),
    decreases m - n,
{
    if n < m {
        lemma_line_done(s, reg, direction, line, n, m - 1);
        lemma_place_bounds(s, m);
        assert(!has_tile(s, m));
        assert(!has_tile(s, m - 1));
        assert(moved_line_upto(s, reg, m) =~= moved_line_upto(s, reg, m - 1));
    }
}

/// Reading the tile of index `j` off a line that is consumed up to it: the
/// tile is found where the search ends, and emptying its cell leaves the line
/// consumed up to the next tile.
proof fn lemma_consume(s: Seq<Option<Id>>, j: int)
    requires
        0 <= j,
    ensures
        first_occupied(consumed(s, search_start(s, j)), 0) == place(s, j),
        has_tile(s, j) ==> {
            &&& j < s.len()
            &&& 0 <= place(s, j) < s.len()
            &&& consumed(s, search_start(s, j))[place(s, j)] == Some(tile(s, j))
            &&& consumed(s, search_start(s, j)).update(place(s, j), None) == consumed(
                s,
                search_start(s, j + 1),
            )
        },
{
    let start = search_start(s, j);
    let t = consumed(s, start);
    lemma_place_bounds(s, j);
    if j > 0 {
        lemma_place_bounds(s, j - 1);
    }
    if start <= s.len() {
        lemma_first_occupied_skip(t, 0, start);
        lemma_first_occupied_agree(t, s, start);
    } else {
        lemma_first_occupied_skip(t, 0, s.len() as int);
    }
    if has_tile(s, j) {
        lemma_first_occupied(s, start);
        assert(t.update(place(s, j), None) =~= consumed(s, search_start(s, j + 1)));
    }
}

/// Placing the tile of index `j`, or leaving its slot empty when it leads a
/// merge, carries the moved line one slot further.
proof fn lemma_moved_line_step(s: Seq<Option<Id>>, reg: Map<Id, Number>, j: int)
    requires
        0 <= j < s.len(),
        has_tile(s, j),
    ensures
        tile_slides(s, reg, j) ==> moved_line_upto(s, reg, j).update(j, Some(tile(s, j)))
            == moved_line_upto(s, reg, j + 1),
        !tile_slides(s, reg, j) ==> moved_line_upto(s, reg, j) == moved_line_upto(s, reg, j + 1),
{
    if tile_slides(s, reg, j) {
        assert(moved_line_upto(s, reg, j).update(j, Some(tile(s, j))) =~= moved_line_upto(
            s,
            reg,
            j + 1,
        ));
    } else {
        assert(moved_line_upto(s, reg, j) =~= moved_line_upto(s, reg, j + 1));
    }
}

/// Allots the next slot of line `line`, counted from the leading edge, and
/// moves the cursor on.
fn new_position(line: usize, column_row: &mut usize, direction: Direction) -> (p: Position)
    requires
        line < WIDTH,
        *old(column_row) < WIDTH,
    ensures
        p == slot(direction, line as int, *old(column_row) as int),
        p.x < WIDTH,
        p.y < HEIGHT,
        *final(column_row) == *old(column_row) + 1,
{
    let tmp = *column_row;
    *column_row += 1;
    scan(direction, line, tmp)
}

/// Resolves one line: reads its tiles off `source`, emptying each cell as it
/// goes, places those that slide on `new_map`, and records slides and merges.
/// `paired` tells that the tile before led a merge, so that the tile in hand
/// is its successor and slides.
fn resolve_line(
    source: &mut PositionMap,
    new_map: &mut PositionMap,
    direction: Direction,
    line: usize,
    moves: &mut Vec<(i32, Position)>,
    merges: &mut Vec<(i32, i32, Position)>,
)
    requires
        old(source).wf(),
        old(new_map).wf(),
        line < WIDTH,
        line_cells(old(new_map).grid(), direction, line as int) == moved_line_upto(
            line_cells(old(source).grid(), direction, line as int),
            old(source).registry(),
            0,
        ),
    ensures
        final(source).wf(),
        final(source).registry() == old(source).registry(),
        forall|other: int|
            0 <= other < WIDTH && other != line ==> #[trigger] line_cells(
                final(source).grid(),
                direction,
                other,
            ) == line_cells(old(source).grid(), direction, other),
        final(new_map).wf(),
        final(new_map).registry() == old(new_map).registry(),
        line_cells(final(new_map).grid(), direction, line as int) == moved_line(
            line_cells(old(source).grid(), direction, line as int),
            old(source).registry(),
        ),
        forall|other: int|
            0 <= other < WIDTH && other != line ==> #[trigger] line_cells(
                final(new_map).grid(),
                direction,
                other,
            ) == line_cells(old(new_map).grid(), direction, other),
        final(moves)@ == old(moves)@ + line_slides(
            line_cells(old(source).grid(), direction, line as int),
            old(source).registry(),
            direction,
            line as int,
            WIDTH as int,
        ),
        final(merges)@ == old(merges)@ + line_merges(
            line_cells(old(source).grid(), direction, line as int),
            old(source).registry(),
            direction,
            line as int,
            WIDTH as int,
        ),
{
    let ghost s = line_cells(source.grid(), direction, line as int);
    let ghost reg = source.registry();
    let mut column_row: usize = 0;
    let mut paired = false;
    let mut cur_pos = source.get_not_empty_position_from(direction, line);
    proof {
        assert(line_cells(source.grid(), direction, line as int) =~= consumed(s, 0));
        lemma_consume(s, 0);
        assert(moves@ =~= old(moves)@ + line_slides(s, reg, direction, line as int, 0));
        assert(merges@ =~= old(merges)@ + line_merges(s, reg, direction, line as int, 0));
    }
    loop
        invariant
            line < WIDTH,
            s.len() == WIDTH,
            s == line_cells(old(source).grid(), direction, line as int),
            reg == old(source).registry(),
            source.wf(),
            source.registry() == reg,
            new_map.wf(),
            new_map.registry() == old(new_map).registry(),
            column_row <= WIDTH,
            line_cells(source.grid(), direction, line as int) == consumed(
                s,
                search_start(s, column_row as int),
            ),
            cur_pos == if has_tile(s, column_row as int) {
                Some(slot(direction, line as int, place(s, column_row as int)))
            } else {
                None
            },
            paired == (column_row > 0 && leads_merge(s, reg, column_row - 1)),
            forall|other: int|
                0 <= other < WIDTH && other != line ==> #[trigger] line_cells(
                    source.grid(),
                    direction,
                    other,
                ) == line_cells(old(source).grid(), direction, other),
            line_cells(new_map.grid(), direction, line as int) == moved_line_upto(
                s,
                reg,
                column_row as int,
            ),
            forall|other: int|
                0 <= other < WIDTH && other != line ==> #[trigger] line_cells(
                    new_map.grid(),
                    direction,
                    other,
                ) == line_cells(old(new_map).grid(), direction, other),
            moves@ == old(moves)@ + line_slides(s, reg, direction, line as int, column_row as int),
            merges@ == old(merges)@ + line_merges(
                s,
                reg,
                direction,
                line as int,
                column_row as int,
            ),
        ensures
            !has_tile(s, column_row as int),
            column_row <= WIDTH,
            source.wf(),
            source.registry() == reg,
            new_map.wf(),
            new_map.registry() == old(new_map).registry(),
            forall|other: int|
                0 <= other < WIDTH && other != line ==> #[trigger] line_cells(
                    source.grid(),
                    direction,
                    other,
                ) == line_cells(old(source).grid(), direction, other),
            line_cells(new_map.grid(), direction, line as int) == moved_line_upto(
                s,
                reg,
                column_row as int,
            ),
            forall|other: int|
                0 <= other < WIDTH && other != line ==> #[trigger] line_cells(
                    new_map.grid(),
                    direction,
                    other,
                ) == line_cells(old(new_map).grid(), direction, other),
            moves@ == old(moves)@ + line_slides(s, reg, direction, line as int, column_row as int),
            merges@ == old(merges)@ + line_merges(
                s,
                reg,
                direction,
                line as int,
                column_row as int,
            ),
        decreases WIDTH - column_row,
    {
        if let Some(cur) = cur_pos {
            let ghost j = column_row as int;
            let ghost p = place(s, j);
            proof {
                lemma_consume(s, j);
                lemma_consume(s, j + 1);
                lemma_moved_line_step(s, reg, j);
            }
            let new_pos = new_position(line, &mut column_row, direction);
            let current_id = source.get(cur.x, cur.y);
            assert(current_id == Some(tile(s, j))) by {
                assert(current_id == line_cells(source.grid(), direction, line as int)[p]);
            }
            proof {
                lemma_line_after_write(source.grid(), direction, line as int, p, None);
            }
            source.set(cur.x, cur.y, None);

            let next_pos = source.get_not_empty_position_from(direction, line);
            let next_id = match next_pos {
                Some(q) => source.get(q.x, q.y),
                None => None,
            };
            assert(next_id == if has_tile(s, j + 1) {
                Some(tile(s, j + 1))
            } else {
                None
            }) by {
                if has_tile(s, j + 1) {
                    assert(next_id == line_cells(source.grid(), direction, line as int)[place(
                        s,
                        j + 1,
                    )]);
                }
            }

            let current_number = match current_id {
                Some(id) => source.get_number_with_id(id),
                None => None,
            };
            let next_number = match next_id {
                Some(id) => source.get_number_with_id(id),
                None => None,
            };

            if !paired && next_id.is_some() && current_id.is_some() && same_number(
                current_number,
                next_number,
            ) {
                merges.push((current_id.unwrap(), next_id.unwrap(), new_pos));
                paired = true;
            } else {
                proof {
                    lemma_line_after_write(new_map.grid(), direction, line as int, j, current_id);
                }
                new_map.set(new_pos.x, new_pos.y, current_id);
                moves.push((current_id.unwrap(), new_pos));
                paired = false;
            }
            cur_pos = next_pos;
        } else {
            break ;
        }
    }
    proof {
        lemma_no_tile_beyond(s, WIDTH as int);
        lemma_line_done(s, reg, direction, line as int, column_row as int, WIDTH as int);
        assert(moved_line_upto(s, reg, WIDTH as int) =~= moved_line(s, reg));
    }
}

impl LogicState {
    /// Resolves a move on the current board, which stays as it is: the board
    /// after the move, with the slides and the merges of the move appended to
    /// `moves` and `merges`, line after line and in scan order within a line.
    pub fn calculate_new_map(
        &self,
        direction: Direction,
        moves: &mut Vec<(i32, Position)>,
        merges: &mut Vec<(i32, i32, Position)>,
    ) -> (new_map: PositionMap)
        requires
            self.position_map.wf(),
        ensures
            new_map.wf(),
            new_map.registry() == self.position_map.registry(),
            new_map.grid() == moved_grid(
                self.position_map.grid(),
                self.position_map.registry(),
                direction,
            ),
            final(moves)@ == old(moves)@ + board_slides(
                self.position_map.grid(),
                self.position_map.registry(),
                direction,
                WIDTH as int,
            ),
            final(merges)@ == old(merges)@ + board_merges(
                self.position_map.grid(),
                self.position_map.registry(),
                direction,
                WIDTH as int,
            ),
    {
        let ghost g = self.position_map.grid();
        let ghost reg = self.position_map.registry();
        let mut source = self.position_map.duplicate();
        let mut new_map = self.position_map.new_with_existing_blocks();
        let max: usize = 3;
        let mut line: usize = 0;
        proof {
            assert(moves@ =~= old(moves)@ + board_slides(g, reg, direction, 0));
            assert(merges@ =~= old(merges)@ + board_merges(g, reg, direction, 0));
            assert forall|l: int| 0 <= l < WIDTH implies #[trigger] line_cells(
                new_map.grid(),
                direction,
                l,
            ) == moved_line_upto(line_cells(g, direction, l), reg, 0) by {
                assert(line_cells(new_map.grid(), direction, l) =~= moved_line_upto(
                    line_cells(g, direction, l),
                    reg,
                    0,
                ));
            }
        }
        while line <= max
            invariant
                max == 3,
                line <= max + 1,
                g == self.position_map.grid(),
                reg == self.position_map.registry(),
                source.wf(),
                source.registry() == reg,
                new_map.wf(),
                new_map.registry() == reg,
                forall|l: int|
                    line <= l < WIDTH ==> #[trigger] line_cells(source.grid(), direction, l)
                        == line_cells(g, direction, l),
                forall|l: int|
                    0 <= l < line ==> #[trigger] line_cells(new_map.grid(), direction, l)
                        == moved_line(line_cells(g, direction, l), reg),
                forall|l: int|
                    line <= l < WIDTH ==> #[trigger] line_cells(new_map.grid(), direction, l)
                        == moved_line_upto(line_cells(g, direction, l), reg, 0),
                moves@ == old(moves)@ + board_slides(g, reg, direction, line as int),
                merges@ == old(merges)@ + board_merges(g, reg, direction, line as int),
            decreases max + 1 - line,
        {
            resolve_line(&mut source, &mut new_map, direction, line, moves, merges);
            line += 1;
            proof {
                assert(moves@ =~= old(moves)@ + board_slides(g, reg, direction, line as int));
                assert(merges@ =~= old(merges)@ + board_merges(g, reg, direction, line as int));
            }
        }
        proof {
            assert forall|x: int, y: int| 0 <= x < WIDTH && 0 <= y < HEIGHT implies new_map.grid()[x][y]
                == moved_grid(g, reg, direction)[x][y] by {
                let l = line_and_place(direction, x, y).0;
                let k = line_and_place(direction, x, y).1;
                assert(line_cells(new_map.grid(), direction, l)[k] == new_map.grid()[x][y]);
            }
            assert(new_map.grid() =~~= moved_grid(g, reg, direction));
        }
        new_map
    }
}

} // verus!
