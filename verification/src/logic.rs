pub mod board;
pub mod controller;
pub mod grid;
pub mod line;
pub mod number;
pub mod position_map;
pub mod random;
pub mod resolver;
pub mod tidy;

use crate::events::{BlockAdded, BlocksDeleted, BlocksMoved};
use crate::logic::board::{
    all_registered, ids_below, lemma_free_before_grows, lemma_new_block_keeps_board, merges_sound,
    no_block_twice,
};
use crate::logic::number::Number;
use crate::logic::position_map::{
    empty_grid, free_before, with_cell, Id, Position, PositionMap, CELLS, HEIGHT, WIDTH,
};
use crate::logic::random::{draw_below, draw_ratio};
use crate::logic::tidy::{
    holds, leads_from, lemma_new_block_leaves_none_over, none_left_over, on_grid, targets_apart,
    targets_free,
};
use vstd::pervasive::unreached;
use vstd::prelude::*;

verus! {

/// What the spawner reports.
#[derive(Debug, Clone, Copy, PartialEq, Eq, Structural)]
pub enum GenerateResult {
    /// The board is full: no tile was added.
    GameOver,
    /// A tile was added: its identifier, its rank and its cell.
    BlockAdded(Id, Number, Position),
}

/// What a move request leads to.
#[derive(Debug, PartialEq, Eq)]
pub enum MoveBlockResult {
    /// The request was dropped, or the move would change nothing.
    Nothing,
    /// No move is left; reported once.
    GameOver,
    /// The move was accepted.
    Success(BlocksMoved),
}

/// The game: the board, the counter that new identifiers come from, and the
/// turn latch with the merges that wait behind it.
///
/// A game keeps two things. `wf()` holds of a new game and after every
/// function below, whatever the caller does with them. `tidy()` holds of a
/// new game and is kept by every step of the turn protocol; `add_block`
/// keeps it where it fills an empty cell while no merge waits.
#[derive(Debug)]
pub struct LogicState {
    /// The board.
    pub position_map: PositionMap,
    /// The identifier that the next new block gets.
    pub current_id: Id,
    /// The end of the game has been reported; stays so until a restart.
    pub is_game_over: bool,
    /// The turn latch: open while no accepted move is being shown.
    pub ready_for_next_move: bool,
    /// The merges of the move that is being shown: lead, successor, target.
    pub merges: Vec<(i32, i32, Position)>,
}

/// What the end of an animation leads to, in the order in which it is to be
/// reported: the retired tiles, if a merge took place; the promoted tiles; and
/// what the spawner did.
#[derive(Debug, PartialEq, Eq)]
pub struct AnimationOutcome {
    /// The tiles that the merges retired, where there was a merge.
    pub deleted: Option<BlocksDeleted>,
    /// The tiles that the merges brought forth, one for each merge.
    pub added: Vec<BlockAdded>,
    /// What the spawner did: a new tile, or the end of the game.
    pub generated: GenerateResult,
}

/// The rank of a new tile: the second rank where the draw says so, else the
/// first.
pub open spec fn spawn_rank(second_rank: bool) -> Number {
    if second_rank {
        Number::ONE
    } else {
        Number::ZERO
    }
}

impl LogicState {
    /// The board is in order: it has its shape, every block on the grid is
    /// registered, none is on it twice, every registered identifier was handed
    /// out by the counter, and the merges that wait have registered tiles
    /// and targets on the board.
    pub open spec fn wf(&self) -> bool {
        &&& self.position_map.wf()
        &&& all_registered(self.position_map.grid(), self.position_map.registry())
        &&& no_block_twice(self.position_map.grid())
        &&& 0 <= self.current_id
        &&& ids_below(self.position_map.registry(), self.current_id as int)
        &&& merges_sound(self.merges@, self.position_map.registry())
    }

    /// No block is left over: every registered block lies on the grid or
    /// leads a merge that waits, and the targets of the merges that wait are
    /// empty cells, no two the same.
    pub open spec fn none_over(&self) -> bool {
        &&& none_left_over(
            self.position_map.grid(),
            self.position_map.registry(),
            self.merges@,
            0,
        )
        &&& targets_free(self.position_map.grid(), self.merges@, 0)
        &&& targets_apart(self.merges@)
    }

    /// No block is left over, and merges wait only while the latch is
    /// closed: with the latch open, every registered block lies on the grid.
    pub open spec fn tidy(&self) -> bool {
        &&& self.none_over()
        &&& self.ready_for_next_move ==> self.merges@.len() == 0
    }

    /// The state in which a game begins.
    pub open spec fn is_initial(&self) -> bool {
        &&& self.position_map.grid() == empty_grid()
        &&& self.position_map.registry() == Map::<Id, Number>::empty()
        &&& self.current_id == 0
        &&& !self.is_game_over
        &&& self.ready_for_next_move
        &&& self.merges@ == Seq::<(Id, Id, Position)>::empty()
    }

    /// This state differs from `before` in the board and the counter at most.
    pub open spec fn same_turn(&self, before: LogicState) -> bool {
        &&& self.is_game_over == before.is_game_over
        &&& self.ready_for_next_move == before.ready_for_next_move
        &&& self.merges@ == before.merges@
    }

    /// This state is `before` with one more block: the block has the
    /// identifier that was next, the rank `number`, and lies on `position`.
    pub open spec fn holds_new_block(
        &self,
        before: LogicState,
        number: Number,
        position: Position,
    ) -> bool {
        &&& self.position_map.grid() == with_cell(
            before.position_map.grid(),
            position.x as int,
            position.y as int,
            Some(before.current_id),
        )
        &&& self.position_map.registry() == before.position_map.registry().insert(
            before.current_id,
            number,
        )
        &&& self.current_id == before.current_id + 1
        &&& self.same_turn(before)
    }

    /// This state has the board and the counter of `before`.
    pub open spec fn same_board(&self, before: LogicState) -> bool {
        &&& self.position_map.grid() == before.position_map.grid()
        &&& self.position_map.registry() == before.position_map.registry()
        &&& self.current_id == before.current_id
    }

    /// A new game: an empty board, the latch open.
    pub fn new() -> (state: Self)
        ensures
            state.wf(),
            state.tidy(),
            state.is_initial(),
    {
        LogicState {
            position_map: PositionMap::new(),
            current_id: 0,
            is_game_over: false,
            ready_for_next_move: true,
            merges: Vec::new(),
        }
    }

    /// Puts the state back to that of a new game.
    pub fn restart(&mut self)
        ensures
            final(self).wf(),
            final(self).tidy(),
            final(self).is_initial(),
    {
        self.position_map = PositionMap::new();
        self.current_id = 0;
        self.is_game_over = false;
        self.ready_for_next_move = true;
        self.merges = Vec::new();
    }

    /// Registers a block of rank `number` under the next identifier and puts
    /// it on `position`.
    pub fn add_block(&mut self, number: Number, position: Position) -> (id: i32)
        requires
            old(self).wf(),
            position.x < WIDTH,
            position.y < HEIGHT,
            old(self).current_id < i32::MAX,
        ensures
            final(self).wf(),
            id == old(self).current_id,
            final(self).holds_new_block(*old(self), number, position),
            old(self).tidy() && old(self).merges@.len() == 0 && old(self).position_map.at(
                position.x as int,
                position.y as int,
            ) is None ==> final(self).tidy(),
    {
        let id = self.current_id;
        self.current_id += 1;
        proof {
            if old(self).tidy() && old(self).merges@.len() == 0 && old(self).position_map.at(
                position.x as int,
                position.y as int,
            ) is None {
                lemma_new_block_leaves_none_over(
                    self.position_map.grid(),
                    self.position_map.registry(),
                    position.x as int,
                    position.y as int,
                    id,
                    number,
                );
            }
            lemma_new_block_keeps_board(
                self.position_map.grid(),
                self.position_map.registry(),
                position.x as int,
                position.y as int,
                id,
                number,
            );
        }
        self.position_map.add_block(id, number);
        self.position_map.set(position.x, position.y, Some(id));
        id
    }

    /// Puts a tile of rank `number` on `position`, if there is one.
    fn spawn(&mut self, number: Number, position: Option<Position>) -> (result: GenerateResult)
        requires
            old(self).wf(),
            position matches Some(p) ==> p.x < WIDTH && p.y < HEIGHT && old(self).current_id
                < i32::MAX,
        ensures
            final(self).wf(),
            match position {
                Some(p) => result == GenerateResult::BlockAdded(old(self).current_id, number, p)
                    && final(self).holds_new_block(*old(self), number, p),
                None => result == GenerateResult::GameOver && *final(self) == *old(self),
            },
            old(self).tidy() && old(self).merges@.len() == 0 && (position matches Some(p)
                ==> old(self).position_map.at(p.x as int, p.y as int) is None)
                ==> final(self).tidy(),
    {
        if let Some(position) = position {
            let id = self.add_block(number, position);
            GenerateResult::BlockAdded(id, number, position)
        } else {
            GenerateResult::GameOver
        }
    }

    /// The spawner: draws the rank, the second one time in ten and else the
    /// first, draws one of the empty cells, each with the same chance, and
    /// puts the new tile there as `generate_block_with` does. On a full board
    /// nothing changes and the game is over. The counter has an identifier
    /// left where the board has an empty cell.
    pub fn generate_block(&mut self) -> (result: GenerateResult)
        requires
            old(self).wf(),
            old(self).position_map.free_count() > 0 ==> old(self).current_id < i32::MAX,
        ensures
            final(self).wf(),
            old(self).tidy() && old(self).merges@.len() == 0 ==> final(self).tidy(),
            result is GameOver <==> old(self).position_map.free_count() == 0,
            match result {
                GenerateResult::BlockAdded(id, number, p) => {
                    &&& id == old(self).current_id
                    &&& number == Number::ZERO || number == Number::ONE
                    &&& p.x < WIDTH
                    &&& p.y < HEIGHT
                    &&& old(self).position_map.at(p.x as int, p.y as int) is None
                    &&& final(self).holds_new_block(*old(self), number, p)
                },
                GenerateResult::GameOver => *final(self) == *old(self),
            },
    {
        let second_rank = draw_ratio(1, 10);
        let quantity = self.position_map.count_free();
        let chosen = if quantity > 0 {
            draw_below(quantity)
        } else {
            0
        };
        self.generate_block_with(second_rank, chosen)
    }

    /// The spawner with both draws given: the tile is of the second rank
    /// where `second_rank` says so, and goes to the empty cell that has
    /// `chosen` empty cells before it, column by column. Where there is no
    /// such cell nothing changes and the game is over. The counter has an
    /// identifier left where there is such a cell.
    pub fn generate_block_with(&mut self, second_rank: bool, chosen: i32) -> (result:
        GenerateResult)
        requires
            old(self).wf(),
            0 <= chosen < old(self).position_map.free_count() ==> old(self).current_id
                < i32::MAX,
        ensures
            final(self).wf(),
            old(self).tidy() && old(self).merges@.len() == 0 ==> final(self).tidy(),
            result is GameOver <==> !(0 <= chosen < old(self).position_map.free_count()),
            match result {
                GenerateResult::BlockAdded(id, number, p) => {
                    &&& id == old(self).current_id
                    &&& number == spawn_rank(second_rank)
                    &&& p.x < WIDTH
                    &&& p.y < HEIGHT
                    &&& old(self).position_map.at(p.x as int, p.y as int) is None
                    &&& free_before(old(self).position_map.grid(), p.x * HEIGHT + p.y) == chosen
                    &&& final(self).holds_new_block(*old(self), number, p)
                },
                GenerateResult::GameOver => *final(self) == *old(self),
            },
    {
        let number = if second_rank {
            Number::ONE
        } else {
            Number::ZERO
        };
        let position = self.position_map.free_position_at(chosen);
        proof {
            if let Some(p) = position {
                lemma_free_before_grows(self.position_map.grid(), 0, p.x * HEIGHT + p.y);
                lemma_free_before_grows(
                    self.position_map.grid(),
                    p.x * HEIGHT + p.y,
                    CELLS as int,
                );
            }
        }
        self.spawn(number, position)
    }

    /// The first tile of a game, from the spawner. The board has an empty
    /// cell.
    pub fn generate_starting_block(&mut self) -> (added: BlockAdded)
        requires
            old(self).wf(),
            old(self).current_id < i32::MAX,
            old(self).position_map.free_count() > 0,
        ensures
            final(self).wf(),
            old(self).tidy() && old(self).merges@.len() == 0 ==> final(self).tidy(),
            added.id == old(self).current_id,
            added.number == Number::ZERO || added.number == Number::ONE,
            added.position.x < WIDTH,
            added.position.y < HEIGHT,
            old(self).position_map.at(added.position.x as int, added.position.y as int) is None,
            final(self).holds_new_block(*old(self), added.number, added.position),
    {
        match self.generate_block() {
            GenerateResult::BlockAdded(id, number, position) => BlockAdded {
                id: id,
                number: number,
                position: position,
            },
            GenerateResult::GameOver => unreached(),
        }
    }
}

/// In every state that is in order, a block on the grid has a rank in the
/// registry, and the cell it lies in is its only cell.
pub proof fn lemma_block_has_one_rank_and_one_cell(
    state: LogicState,
    x: int,
    y: int,
    other_x: int,
    other_y: int,
)
    requires
        state.wf(),
        0 <= x < WIDTH,
        0 <= y < HEIGHT,
        0 <= other_x < WIDTH,
        0 <= other_y < HEIGHT,
        state.position_map.at(x, y) is Some,
    ensures
        state.position_map.number_at(x, y) is Some,
        state.position_map.at(other_x, other_y) == state.position_map.at(x, y) ==> other_x == x
            && other_y == y,
{
    let g = state.position_map.grid();
    assert(g[x][y] is Some);
    if g[other_x][other_y] == g[x][y] {
        assert(g[x][y] == g[other_x][other_y]);
    }
}

/// Once a turn is settled the registry holds the blocks of the grid and no
/// others.
pub proof fn lemma_settled_registry_is_the_grid(state: LogicState, id: Id)
    requires
        state.wf(),
        state.tidy(),
        state.ready_for_next_move,
    ensures
        state.position_map.registry().contains_key(id) <==> on_grid(
            state.position_map.grid(),
            id,
        ),
{
    let g = state.position_map.grid();
    if on_grid(g, id) {
        let (x, y) = choose|x: int, y: int|
            0 <= x < WIDTH && 0 <= y < HEIGHT && #[trigger] holds(g, x, y, id);
        assert(g[x][y] is Some);
    }
    if state.position_map.registry().contains_key(id) {
        assert(!leads_from(state.merges@, 0, id));
    }
}

} // verus!
