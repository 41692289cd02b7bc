use crate::logic::grid::{alike, cell, cells, entries, filled, put, Grid};
use crate::logic::line::{first_occupied, line_cells, slot};
use crate::logic::number::Number;
use crate::logic::random::draw_below;
use std::collections::HashMap;
use vstd::prelude::*;

verus! {

broadcast use vstd::std_specs::hash::group_hash_axioms;

/// The identifier of a block.
pub type Id = i32;

/// A cell of the board: column `x`, row `y`.
#[derive(Debug, Clone, Copy, PartialEq, Eq, Structural)]
pub struct Position {
    pub x: usize,
    pub y: usize,
}

/// The edge towards which a move compacts the tiles. `LEFT` and `TOP` scan a
/// line from index 0 upward, `RIGHT` and `BOTTOM` from index 3 downward.
#[derive(Debug, Clone, Copy, PartialEq, Eq, Structural)]
pub enum Direction {
    LEFT,
    RIGHT,
    TOP,
    BOTTOM,
}

/// The number of columns of the board.
pub const WIDTH: usize = 4;

/// The number of rows of the board.
pub const HEIGHT: usize = 4;

/// The number of cells of the board.
pub const CELLS: usize = 16;

/// A grid has the shape of the board.
pub open spec fn well_shaped(g: Seq<Seq<Option<Id>>>) -> bool {
    &&& g.len() == WIDTH
    &&& forall|x: int| 0 <= x < WIDTH ==> (#[trigger] g[x]).len() == HEIGHT
}

/// The grid that holds no block.
pub open spec fn empty_grid() -> Seq<Seq<Option<Id>>> {
    Seq::new(WIDTH as nat, |x: int| Seq::new(HEIGHT as nat, |y: int| None::<Id>))
}

/// The grid `g` with the cell in column `x`, row `y` replaced by `id`.
pub open spec fn with_cell(g: Seq<Seq<Option<Id>>>, x: int, y: int, id: Option<Id>) -> Seq<
    Seq<Option<Id>>,
> {
    g.update(x, g[x].update(y, id))
}

/// The first `k` cells of `g`, counted column by column, on an otherwise
/// empty grid.
spec fn first_cells(g: Seq<Seq<Option<Id>>>, k: int) -> Seq<Seq<Option<Id>>> {
    Seq::new(
        WIDTH as nat,
        |x: int|
            Seq::new(
                HEIGHT as nat,
                |y: int|
                    if x * HEIGHT + y < k {
                        g[x][y]
                    } else {
                        None
                    },
            ),
    )
}

/// None of the first `k` cells of `g`, counted column by column, holds
/// block `id`.
pub open spec fn none_before(g: Seq<Seq<Option<Id>>>, id: Id, k: int) -> bool {
    forall|i: int, j: int|
        0 <= i < WIDTH && 0 <= j < HEIGHT && i * HEIGHT + j < k ==> g[i][j] != Some(id)
}

/// Grid `g` with the first cell that holds block `id`, counted column by
/// column, emptied.
pub open spec fn without_first(g: Seq<Seq<Option<Id>>>, id: Id) -> Seq<Seq<Option<Id>>> {
    Seq::new(
        WIDTH as nat,
        |x: int|
            Seq::new(
                HEIGHT as nat,
                |y: int|
                    if g[x][y] == Some(id) && none_before(g, id, x * HEIGHT + y) {
                        None
                    } else {
                        g[x][y]
                    },
            ),
    )
}

/// Two cells of the board that share a side.
pub open spec fn adjacent(x1: int, y1: int, x2: int, y2: int) -> bool {
    ||| x1 == x2 && (y1 == y2 + 1 || y2 == y1 + 1)
    ||| y1 == y2 && (x1 == x2 + 1 || x2 == x1 + 1)
}

/// How many of the first `k` cells of `g`, counted column by column, hold no
/// block.
pub open spec fn free_before(g: Seq<Seq<Option<Id>>>, k: int) -> int
    decreases k,
{
    if k <= 0 {
        0
    } else {
        free_before(g, k - 1) + if g[(k - 1) / HEIGHT as int][(k - 1) % HEIGHT as int] is None {
            1int
        } else {
            0int
        }
    }
}

/// The board: a grid of cells, each empty or holding the identifier of a
/// block, and a registry that gives each block its rank.
#[derive(Debug)]
pub struct PositionMap {
    positions: Grid,
    blocks: HashMap<Id, Number>,
}

impl PositionMap {
    /// The cells: `grid()[x][y]` is what column `x`, row `y` holds.
    pub closed spec fn grid(&self) -> Seq<Seq<Option<Id>>> {
        cells(self.positions)
    }

    /// The rank of each registered block.
    pub closed spec fn registry(&self) -> Map<Id, Number> {
        self.blocks@
    }

    /// The grid has the shape of the board and the registry is finite.
    pub open spec fn wf(&self) -> bool {
        &&& well_shaped(self.grid())
        &&& self.registry().dom().finite()
    }

    /// What the cell in column `x`, row `y` holds.
    pub open spec fn at(&self, x: int, y: int) -> Option<Id> {
        self.grid()[x][y]
    }

    /// The rank of block `id`, if it is registered.
    pub open spec fn number_of(&self, id: Id) -> Option<Number> {
        if self.registry().contains_key(id) {
            Some(self.registry()[id])
        } else {
            None
        }
    }

    /// The rank of the block in column `x`, row `y`. An empty cell has none,
    /// and neither has a cell whose block is not registered.
    pub open spec fn number_at(&self, x: int, y: int) -> Option<Number> {
        match self.at(x, y) {
            Some(id) => self.number_of(id),
            None => None,
        }
    }

    /// `p` is the first cell, column by column, that holds block `id`.
    pub open spec fn is_first_holder(&self, p: Position, id: Id) -> bool {
        &&& p.x < WIDTH
        &&& p.y < HEIGHT
        &&& self.at(p.x as int, p.y as int) == Some(id)
        &&& none_before(self.grid(), id, p.x * HEIGHT + p.y)
    }

    /// No cell holds block `id`.
    pub open spec fn absent(&self, id: Id) -> bool {
        none_before(self.grid(), id, CELLS as int)
    }

    /// The number of empty cells.
    pub open spec fn free_count(&self) -> int {
        free_before(self.grid(), CELLS as int)
    }

    /// The cell in column `x`, row `y` has a neighbour of the same rank. Two
    /// empty cells count as of the same rank.
    pub open spec fn has_equal_neighbour(&self, x: int, y: int) -> bool {
        ||| 0 < x && self.number_at(x, y) == self.number_at(x - 1, y)
        ||| x + 1 < WIDTH && self.number_at(x, y) == self.number_at(x + 1, y)
        ||| 0 < y && self.number_at(x, y) == self.number_at(x, y - 1)
        ||| y + 1 < HEIGHT && self.number_at(x, y) == self.number_at(x, y + 1)
    }

    /// Some cell has a neighbour of the same rank: a tile can slide or merge.
    pub open spec fn moves_available(&self) -> bool {
        exists|x: int, y: int|
            0 <= x < WIDTH && 0 <= y < HEIGHT && #[trigger] self.has_equal_neighbour(x, y)
    }

    /// `all` lists every cell with what it holds, column by column.
    pub open spec fn lists(&self, all: Seq<(usize, usize, Option<Id>)>) -> bool {
        &&& all.len() == CELLS
        &&& forall|k: int|
            0 <= k < CELLS ==> {
                &&& (#[trigger] all[k]).0 == k / HEIGHT as int
                &&& all[k].1 == k % HEIGHT as int
                &&& all[k].2 == self.at(k / HEIGHT as int, k % HEIGHT as int)
            }
    }

    /// Every cell with what it holds, column by column.
    pub fn in_order(&self) -> (all: Vec<(usize, usize, Option<Id>)>)
        requires
            self.wf(),
        ensures
            self.lists(all@),
    {
        entries(&self.positions)
    }

    /// An empty board with no block registered.
    pub fn new() -> (map: Self)
        ensures
            map.wf(),
            map.grid() == empty_grid(),
            map.registry() == Map::<Id, Number>::empty(),
    {
        let map = Self { positions: filled(WIDTH, HEIGHT, None), blocks: HashMap::new() };
        assert(map.grid() =~~= empty_grid());
        map
    }

    /// An empty board with the registry of this one.
    pub fn new_with_existing_blocks(&self) -> (map: Self)
        requires
            self.wf(),
        ensures
            map.wf(),
            map.grid() == empty_grid(),
            map.registry() == self.registry(),
    {
        let map = Self { positions: filled(WIDTH, HEIGHT, None), blocks: self.blocks.clone() };
        assert(map.grid() =~~= empty_grid());
        map
    }

    /// A board with the cells and the registry of this one.
    pub fn duplicate(&self) -> (map: Self)
        requires
            self.wf(),
        ensures
            map.wf(),
            map.grid() == self.grid(),
            map.registry() == self.registry(),
    {
        let mut map = self.new_with_existing_blocks();
        let all = self.in_order();
        let mut k: usize = 0;
        assert(map.grid() =~~= first_cells(self.grid(), 0));
        while k < all.len()
            invariant
                self.wf(),
                self.lists(all@),
                map.wf(),
                map.registry() == self.registry(),
                k <= CELLS,
                map.grid() == first_cells(self.grid(), k as int),
            decreases CELLS - k,
        {
            let (x, y, value) = all[k];
            map.set(x, y, value);
            k += 1;
            assert(map.grid() =~~= first_cells(self.grid(), k as int));
        }
        assert(map.grid() =~~= self.grid());
        map
    }

    /// Writes `id` into the cell in column `x`, row `y`.
    pub fn set(&mut self, x: usize, y: usize, id: Option<Id>)
        requires
            old(self).wf(),
            x < WIDTH,
            y < HEIGHT,
        ensures
            final(self).wf(),
            final(self).grid() == with_cell(old(self).grid(), x as int, y as int, id),
            final(self).registry() == old(self).registry(),
    {
        put(&mut self.positions, x, y, id);
    }

    /// Registers block `id` with rank `number`, without placing it.
    pub fn add_block(&mut self, id: Id, number: Number)
        requires
            old(self).wf(),
        ensures
            final(self).wf(),
            final(self).grid() == old(self).grid(),
            final(self).registry() == old(self).registry().insert(id, number),
    {
        self.blocks.insert(id, number);
    }

    /// Removes block `target` from the registry and empties the first cell
    /// that holds it, if there is one.
    pub fn delete_block(&mut self, target: Id)
        requires
            old(self).wf(),
        ensures
            final(self).wf(),
            final(self).registry() == old(self).registry().remove(target),
            final(self).grid() == without_first(old(self).grid(), target),
    {
        self.blocks.remove(&target);
        let ghost g = self.grid();
        if let Some(p) = self.find_position(target) {
            self.set(p.x, p.y, None);
            proof {
                let k = p.x * HEIGHT + p.y;
                assert forall|x: int, y: int| 0 <= x < WIDTH && 0 <= y < HEIGHT implies with_cell(
                    g,
                    p.x as int,
                    p.y as int,
                    None,
                )[x][y] == without_first(g, target)[x][y] by {
                    if x == p.x && y == p.y {
                    } else if g[x][y] == Some(target) {
                        if x * HEIGHT + y < k {
                            assert(g[x][y] != Some(target));
                        } else {
                            assert(k < x * HEIGHT + y);
                            assert(g[p.x as int][p.y as int] == Some(target));
                            assert(!none_before(g, target, x * HEIGHT + y));
                        }
                    }
                }
                assert(self.grid() =~~= without_first(g, target));
            }
        } else {
            proof {
                assert forall|x: int, y: int| 0 <= x < WIDTH && 0 <= y < HEIGHT implies g[x][y]
                    == without_first(g, target)[x][y] by {
                    assert(g[x][y] != Some(target));
                }
                assert(self.grid() =~~= without_first(g, target));
            }
        }
    }

    /// The first cell, column by column, that holds block `target`.
    pub fn find_position(&self, target: Id) -> (found: Option<Position>)
        requires
            self.wf(),
        ensures
            match found {
                Some(p) => self.is_first_holder(p, target),
                None => self.absent(target),
            },
    {
        let all = self.in_order();
        let mut k: usize = 0;
        while k < all.len()
            invariant
                self.wf(),
                self.lists(all@),
                k <= CELLS,
                none_before(self.grid(), target, k as int),
            decreases CELLS - k,
        {
            let (x, y, value) = all[k];
            if let Some(id) = value {
                if id == target {
                    return Some(Position { x: x, y: y });
                }
            }
            k += 1;
        }
        None
    }

    /// What the cell in column `x`, row `y` holds.
    pub fn get(&self, x: usize, y: usize) -> (id: Option<Id>)
        requires
            self.wf(),
            x < WIDTH,
            y < HEIGHT,
        ensures
            id == self.at(x as int, y as int),
    {
        cell(&self.positions, x, y)
    }

    fn get_number(&self, x: usize, y: usize) -> (number: Option<Number>)
        requires
            self.wf(),
            x < WIDTH,
            y < HEIGHT,
        ensures
            number == self.number_at(x as int, y as int),
    {
        if let Some(id) = self.get(x, y) {
            return self.get_number_with_id(id);
        }
        None
    }

    /// The rank of block `id`, if it is registered.
    pub fn get_number_with_id(&self, id: Id) -> (number: Option<Number>)
        requires
            self.wf(),
        ensures
            number == self.number_of(id),
    {
        match self.blocks.get(&id) {
            Some(number) => Some(*number),
            None => None,
        }
    }

    /// The number of empty cells.
    pub fn count_free(&self) -> (quantity: i32)
        requires
            self.wf(),
        ensures
            quantity == self.free_count(),
            0 <= quantity <= CELLS,
    {
        let all = self.in_order();
        let mut quantity: i32 = 0;
        let mut k: usize = 0;
        while k < all.len()
            invariant
                self.wf(),
                self.lists(all@),
                k <= CELLS,
                quantity == free_before(self.grid(), k as int),
                0 <= quantity <= k,
            decreases CELLS - k,
        {
            if all[k].2.is_none() {
                quantity += 1;
            }
            k += 1;
        }
        quantity
    }

    /// The empty cell that has exactly `chosen` empty cells before it, column
    /// by column; none where `chosen` is no index of an empty cell.
    pub fn free_position_at(&self, chosen: i32) -> (found: Option<Position>)
        requires
            self.wf(),
        ensures
            match found {
                Some(p) => {
                    &&& p.x < WIDTH
                    &&& p.y < HEIGHT
                    &&& self.at(p.x as int, p.y as int) is None
                    &&& free_before(self.grid(), p.x * HEIGHT + p.y) == chosen
                },
                None => chosen < 0 || self.free_count() <= chosen,
            },
    {
        let all = self.in_order();
        let mut current: i32 = 0;
        let mut k: usize = 0;
        while k < all.len()
            invariant
                self.wf(),
                self.lists(all@),
                k <= CELLS,
                current == free_before(self.grid(), k as int),
                0 <= current <= k,
                0 <= chosen ==> current <= chosen,
            decreases CELLS - k,
        {
            let (x, y, value) = all[k];
            if value.is_none() {
                if current == chosen {
                    return Some(Position { x: x, y: y });
                }
                current += 1;
            }
            k += 1;
        }
        None
    }

    /// An empty cell chosen at random, each with the same chance; none where
    /// the board is full.
    pub fn get_random_free_position(&self) -> (found: Option<Position>)
        requires
            self.wf(),
        ensures
            found is None <==> self.free_count() == 0,
            found matches Some(p) ==> {
                &&& p.x < WIDTH
                &&& p.y < HEIGHT
                &&& self.at(p.x as int, p.y as int) is None
                &&& 0 <= free_before(self.grid(), p.x * HEIGHT + p.y) < self.free_count()
            },
    {
        let quantity = self.count_free();
        if quantity == 0 {
            return None;
        }
        let chosen = draw_below(quantity);
        self.free_position_at(chosen)
    }

    /// Whether a move can change anything: whether some cell has a neighbour
    /// of the same rank.
    pub fn has_available_moves(&self) -> (available: bool)
        requires
            self.wf(),
        ensures
            available == self.moves_available(),
    {
        let all = self.in_order();
        let mut k: usize = 0;
        while k < all.len()
            invariant
                self.wf(),
                self.lists(all@),
                k <= CELLS,
                forall|x: int, y: int|
                    0 <= x < WIDTH && 0 <= y < HEIGHT && x * HEIGHT + y < k
                        ==> !#[trigger] self.has_equal_neighbour(x, y),
            decreases CELLS - k,
        {
            let (x, y, _) = all[k];
            if self.has_adjacent_equal_position(x, y) {
                return true;
            }
            k += 1;
        }
        return false;
    }

    fn has_adjacent_equal_position(&self, x: usize, y: usize) -> (equal: bool)
        requires
            self.wf(),
            x < WIDTH,
            y < HEIGHT,
        ensures
            equal == self.has_equal_neighbour(x as int, y as int),
    {
        let it = self.get_number(x, y);
        (x > 0 && same_number(it, self.get_number(x - 1, y))) || (x + 1 < WIDTH && same_number(
            it,
            self.get_number(x + 1, y),
        )) || (y > 0 && same_number(it, self.get_number(x, y - 1))) || (y + 1 < HEIGHT
            && same_number(it, self.get_number(x, y + 1)))
    }

    /// Whether any block is registered.
    pub fn has_any_blocks(&self) -> (any: bool)
        requires
            self.wf(),
        ensures
            any == !self.registry().is_empty(),
    {
        self.blocks.len() > 0
    }

    /// Whether the two boards hold the same block in every cell.
    pub fn same_positions(&self, other: &PositionMap) -> (same: bool)
        requires
            self.wf(),
            other.wf(),
        ensures
            same == (self.grid() == other.grid()),
    {
        alike(&self.positions, &other.positions)
    }

    /// The first cell of line `line` that holds a block, scanning from the
    /// edge that `direction` compacts towards.
    pub fn get_not_empty_position_from(&self, direction: Direction, line: usize) -> (found: Option<
        Position,
    >)
        requires
            self.wf(),
            line < WIDTH,
        ensures
            found == if first_occupied(line_cells(self.grid(), direction, line as int), 0)
                < WIDTH {
                Some(
                    slot(
                        direction,
                        line as int,
                        first_occupied(line_cells(self.grid(), direction, line as int), 0),
                    ),
                )
            } else {
                None
            },
    {
        let mut k: usize = 0;
        while k < WIDTH
            invariant
                self.wf(),
                line < WIDTH,
                k <= WIDTH,
                first_occupied(line_cells(self.grid(), direction, line as int), 0)
                    == first_occupied(line_cells(self.grid(), direction, line as int), k as int),
            decreases WIDTH - k,
        {
            let p = scan(direction, line, k);
            if let Some(_) = self.get(p.x, p.y) {
                return Some(p);
            }
            k += 1;
        }
        None
    }
}

/// The cell at place `k` of line `line`, counted from the edge that
/// `direction` compacts towards.
pub fn scan(direction: Direction, line: usize, k: usize) -> (p: Position)
    requires
        line < WIDTH,
        k < WIDTH,
    ensures
        p == slot(direction, line as int, k as int),
        p.x < WIDTH,
        p.y < HEIGHT,
{
    match direction {
        Direction::LEFT => Position { x: k, y: line },
        Direction::RIGHT => Position { x: WIDTH - 1 - k, y: line },
        Direction::TOP => Position { x: line, y: k },
        Direction::BOTTOM => Position { x: line, y: HEIGHT - 1 - k },
    }
}

/// Whether two cells are of the same rank; two cells without a rank are.
pub fn same_number(a: Option<Number>, b: Option<Number>) -> (same: bool)
    ensures
        same == (a == b),
{
    match (a, b) {
        (Some(m), Some(n)) => m == n,
        (None, None) => true,
        _ => false,
    }
}

/// A move is available exactly when two cells that share a side are of the
/// same rank, two empty cells counting as such.
pub proof fn lemma_moves_need_equal_neighbours(map: PositionMap)
    ensures
        map.moves_available() <==> exists|x1: int, y1: int, x2: int, y2: int|
            0 <= x1 < WIDTH && 0 <= y1 < HEIGHT && 0 <= x2 < WIDTH && 0 <= y2 < HEIGHT && adjacent(
                x1,
                y1,
                x2,
                y2,
            ) && #[trigger] map.number_at(x1, y1) == #[trigger] map.number_at(x2, y2),
{
    if map.moves_available() {
        let (x, y) = choose|x: int, y: int|
            0 <= x < WIDTH && 0 <= y < HEIGHT && #[trigger] map.has_equal_neighbour(x, y);
        if 0 < x && map.number_at(x, y) == map.number_at(x - 1, y) {
            assert(adjacent(x, y, x - 1, y));
        } else if x + 1 < WIDTH && map.number_at(x, y) == map.number_at(x + 1, y) {
            assert(adjacent(x, y, x + 1, y));
        } else if 0 < y && map.number_at(x, y) == map.number_at(x, y - 1) {
            assert(adjacent(x, y, x, y - 1));
        } else {
            assert(adjacent(x, y, x, y + 1));
        }
    }
    if exists|x1: int, y1: int, x2: int, y2: int|
        0 <= x1 < WIDTH && 0 <= y1 < HEIGHT && 0 <= x2 < WIDTH && 0 <= y2 < HEIGHT && adjacent(
            x1,
            y1,
            x2,
            y2,
        ) && #[trigger] map.number_at(x1, y1) == #[trigger] map.number_at(x2, y2) {
        let (x1, y1, x2, y2) = choose|x1: int, y1: int, x2: int, y2: int|
            0 <= x1 < WIDTH && 0 <= y1 < HEIGHT && 0 <= x2 < WIDTH && 0 <= y2 < HEIGHT && adjacent(
                x1,
                y1,
                x2,
                y2,
            ) && #[trigger] map.number_at(x1, y1) == #[trigger] map.number_at(x2, y2);
        assert(map.has_equal_neighbour(x1, y1));
    }
}

/// Putting a new tile beside a tile of its rank makes a move available,
/// whatever the board was before.
pub proof fn lemma_tile_beside_equal_gives_moves(
    before: PositionMap,
    after: PositionMap,
    id: Id,
    number: Number,
    x: int,
    y: int,
    beside_x: int,
    beside_y: int,
)
    requires
        before.wf(),
        0 <= x < WIDTH,
        0 <= y < HEIGHT,
        0 <= beside_x < WIDTH,
        0 <= beside_y < HEIGHT,
        adjacent(x, y, beside_x, beside_y),
        before.number_at(beside_x, beside_y) == Some(number),
        after.grid() == with_cell(before.grid(), x, y, Some(id)),
        after.registry() == before.registry().insert(id, number),
    ensures
        after.moves_available(),
{
    assert(after.number_at(x, y) == Some(number));
    assert(after.at(beside_x, beside_y) == before.at(beside_x, beside_y));
    assert(after.number_at(beside_x, beside_y) == Some(number));
    assert(after.has_equal_neighbour(x, y));
}

} // verus!
