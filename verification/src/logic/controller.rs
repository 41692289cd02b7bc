//! The turn protocol: one move at a time. A move that is accepted closes
//! the latch; the end of its animation applies the merges, lets the spawner
//! add a tile, and opens the latch again.

use crate::events::{BlockAdded, BlocksDeleted, BlocksMoved, GameRestarted};
use crate::logic::board::{
    all_registered, ids_below, lemma_board_merges_sound, lemma_free_before_empty,
    lemma_move_keeps_board, lemma_new_block_keeps_board, lemma_without_first,
    lemma_without_keeps_board, merges_sound, no_block_twice, without,
};
use crate::logic::line::{board_merges, board_slides, moved_grid};
use crate::logic::number::Number;
use crate::logic::position_map::{
    free_before, with_cell, Direction, Id, Position, CELLS, HEIGHT, WIDTH,
};
use crate::logic::tidy::{
    lemma_move_leaves_none_over, lemma_settle_leaves_none_over, none_left_over, targets_apart,
    targets_free,
};
use crate::logic::{spawn_rank, AnimationOutcome, GenerateResult, LogicState, MoveBlockResult};
use vstd::prelude::*;

verus! {

/// What a move reports for the first `n` merges: both tiles of each pair,
/// bound for the pair's target.
pub open spec fn merge_moves(m: Seq<(Id, Id, Position)>, n: int) -> Seq<(Id, Position)>
    decreases n,
{
    if n <= 0 {
        Seq::empty()
    } else {
        merge_moves(m, n - 1).push((m[n - 1].0, m[n - 1].2)).push((m[n - 1].1, m[n - 1].2))
    }
}

/// The identifiers that the first `n` merges retire: both tiles of each pair.
pub open spec fn retired(m: Seq<(Id, Id, Position)>, n: int) -> Seq<Id>
    decreases n,
{
    if n <= 0 {
        Seq::empty()
    } else {
        retired(m, n - 1).push(m[n - 1].0).push(m[n - 1].1)
    }
}

/// The tiles that the first `n` merges bring forth: each under the next
/// identifier from `first` on, one rank above the lead's rank in `reg`, on the
/// pair's target.
pub open spec fn promoted_blocks(
    m: Seq<(Id, Id, Position)>,
    reg: Map<Id, Number>,
    first: int,
    n: int,
) -> Seq<BlockAdded>
    decreases n,
{
    if n <= 0 {
        Seq::empty()
    } else {
        promoted_blocks(m, reg, first, n - 1).push(
            BlockAdded {
                id: (first + n - 1) as i32,
                number: reg[m[n - 1].0].promoted(),
                position: m[n - 1].2,
            },
        )
    }
}

/// Grid `g` after the first `n` merges: both tiles of each pair are gone, and
/// the promoted tile is on the target.
pub open spec fn settled_grid(
    g: Seq<Seq<Option<Id>>>,
    m: Seq<(Id, Id, Position)>,
    first: int,
    n: int,
) -> Seq<Seq<Option<Id>>>
    decreases n,
{
    if n <= 0 {
        g
    } else {
        with_cell(
            without(without(settled_grid(g, m, first, n - 1), m[n - 1].0), m[n - 1].1),
            m[n - 1].2.x as int,
            m[n - 1].2.y as int,
            Some((first + n - 1) as i32),
        )
    }
}

/// Registry `reg` after the first `n` merges.
pub open spec fn settled_registry(
    reg: Map<Id, Number>,
    m: Seq<(Id, Id, Position)>,
    first: int,
    n: int,
) -> Map<Id, Number>
    decreases n,
{
    if n <= 0 {
        reg
    } else {
        settled_registry(reg, m, first, n - 1).remove(m[n - 1].0).remove(m[n - 1].1).insert(
            (first + n - 1) as i32,
            reg[m[n - 1].0].promoted(),
        )
    }
}

/// None of the tiles that the merges of `m` retire is left in `reg`.
pub open spec fn sources_gone(m: Seq<(Id, Id, Position)>, reg: Map<Id, Number>) -> bool {
    forall|i: int|
        0 <= i < m.len() ==> !reg.contains_key((#[trigger] m[i]).0) && !reg.contains_key(m[i].1)
}

/// Applying the first `n` merges takes both tiles of each out of the
/// registry, and what it adds it adds under new identifiers.
pub proof fn lemma_sources_gone(
    reg: Map<Id, Number>,
    m: Seq<(Id, Id, Position)>,
    first: int,
    n: int,
)
    requires
        merges_sound(m, reg),
        ids_below(reg, first),
        0 <= n <= m.len(),
        0 <= first,
        first + n <= i32::MAX + 1,
    ensures
        sources_gone(m.take(n), settled_registry(reg, m, first, n)),
        forall|id: Id| #[trigger]
            settled_registry(reg, m, first, n).contains_key(id) ==> reg.contains_key(id) || first
                <= id < first + n,
    decreases n,
{
    if n > 0 {
        lemma_sources_gone(reg, m, first, n - 1);
        let before = settled_registry(reg, m, first, n - 1);
        let after = settled_registry(reg, m, first, n);
        assert forall|i: int| 0 <= i < n implies !after.contains_key((#[trigger] m.take(n)[i]).0)
            && !after.contains_key(m.take(n)[i].1) by {
            assert(reg.contains_key(m[i].0) && reg.contains_key(m[i].1));
            if i < n - 1 {
                assert(m.take(n - 1)[i] == m[i]);
            }
        }
    }
}

impl LogicState {
    /// The board after a move in `direction`.
    pub open spec fn moved(&self, direction: Direction) -> Seq<Seq<Option<Id>>> {
        moved_grid(self.position_map.grid(), self.position_map.registry(), direction)
    }

    /// The merges of a move in `direction`.
    pub open spec fn move_merges(&self, direction: Direction) -> Seq<(Id, Id, Position)> {
        board_merges(
            self.position_map.grid(),
            self.position_map.registry(),
            direction,
            WIDTH as int,
        )
    }

    /// What an accepted move in `direction` reports: every slide, then both
    /// tiles of every merge.
    pub open spec fn move_report(&self, direction: Direction) -> Seq<(Id, Position)> {
        board_slides(
            self.position_map.grid(),
            self.position_map.registry(),
            direction,
            WIDTH as int,
        ) + merge_moves(self.move_merges(direction), self.move_merges(direction).len() as int)
    }

    /// A request for a move in `direction` is accepted: the latch is open, a
    /// move is available, and this move changes the board.
    pub open spec fn accepts_move(&self, direction: Direction) -> bool {
        &&& self.ready_for_next_move
        &&& self.position_map.moves_available()
        &&& self.moved(direction) != self.position_map.grid()
    }

    /// A request for a move ends the game: the latch is open, no move is
    /// available, and the end has not been reported yet.
    pub open spec fn declares_game_over(&self) -> bool {
        &&& self.ready_for_next_move
        &&& !self.position_map.moves_available()
        &&& !self.is_game_over
    }

    /// The board after the merges that wait have been applied.
    pub open spec fn settled(&self) -> Seq<Seq<Option<Id>>> {
        settled_grid(
            self.position_map.grid(),
            self.merges@,
            self.current_id as int,
            self.merges@.len() as int,
        )
    }

    /// The registry after the merges that wait have been applied.
    pub open spec fn settled_ranks(&self) -> Map<Id, Number> {
        settled_registry(
            self.position_map.registry(),
            self.merges@,
            self.current_id as int,
            self.merges@.len() as int,
        )
    }

    /// A request for a move. While the latch is closed it is dropped. With the
    /// latch open and no move available, the end of the game is reported, once.
    /// Otherwise the move is resolved: where it changes the board, the new
    /// board is committed, the merges are kept for the end of the animation,
    /// and the latch closes; where it changes nothing, nothing happens.
    pub fn move_blocks_to(&mut self, direction: Direction) -> (result: MoveBlockResult)
        requires
            old(self).wf(),
        ensures
            final(self).wf(),
            old(self).tidy() ==> final(self).tidy(),
            old(self).accepts_move(direction) ==> {
                &&& result matches MoveBlockResult::Success(event)
                &&& event.moves@ == old(self).move_report(direction)
                &&& final(self).position_map.grid() == old(self).moved(direction)
                &&& final(self).position_map.registry() == old(self).position_map.registry()
                &&& final(self).merges@ == old(self).move_merges(direction)
                &&& final(self).merges@.len() <= 2 * WIDTH
                &&& !final(self).ready_for_next_move
                &&& final(self).is_game_over == old(self).is_game_over
                &&& final(self).current_id == old(self).current_id
            },
            old(self).declares_game_over() ==> {
                &&& result is GameOver
                &&& final(self).is_game_over
                &&& final(self).ready_for_next_move
                &&& final(self).merges@ == old(self).merges@
                &&& final(self).same_board(*old(self))
            },
            !old(self).accepts_move(direction) && !old(self).declares_game_over() ==> {
                &&& result is Nothing
                &&& *final(self) == *old(self)
            },
    {
        if !self.ready_for_next_move {
            return MoveBlockResult::Nothing;
        }
        if !self.position_map.has_available_moves() {
            if !self.is_game_over {
                self.is_game_over = true;
                return MoveBlockResult::GameOver;
            }
            return MoveBlockResult::Nothing;
        }
        let mut moves: Vec<(i32, Position)> = Vec::new();
        let mut merges: Vec<(i32, i32, Position)> = Vec::new();

        let new_map = self.calculate_new_map(direction, &mut moves, &mut merges);
        proof {
            lemma_move_keeps_board(
                self.position_map.grid(),
                self.position_map.registry(),
                direction,
            );
            lemma_board_merges_sound(
                self.position_map.grid(),
                self.position_map.registry(),
                direction,
                WIDTH as int,
            );
            if self.tidy() {
                lemma_move_leaves_none_over(
                    self.position_map.grid(),
                    self.position_map.registry(),
                    direction,
                );
            }
            assert(moves@ =~= board_slides(
                self.position_map.grid(),
                self.position_map.registry(),
                direction,
                WIDTH as int,
            ));
            assert(merges@ =~= self.move_merges(direction));
        }

        if !new_map.same_positions(&self.position_map) {
            self.ready_for_next_move = false;
            self.position_map = new_map;
            let ghost slid = moves@;
            let mut i: usize = 0;
            while i < merges.len()
                invariant
                    i <= merges.len(),
                    moves@ == slid + merge_moves(merges@, i as int),
                decreases merges.len() - i,
            {
                let id1 = merges[i].0;
                let id2 = merges[i].1;
                let pos = merges[i].2;
                moves.push((id1, pos));
                moves.push((id2, pos));
                i += 1;
                assert(moves@ =~= slid + merge_moves(merges@, i as int));
            }
            self.merges = merges;
            MoveBlockResult::Success(BlocksMoved { moves: moves })
        } else {
            MoveBlockResult::Nothing
        }
    }

    /// Applies the merges that wait, in order: the promoted tile is one rank
    /// above the lead, both tiles of the pair leave the board, and the
    /// promoted tile takes the target under the next identifier. Gives the
    /// retired identifiers and the promoted tiles.
    pub fn settle(&mut self) -> (outcome: (Vec<i32>, Vec<BlockAdded>))
        requires
            old(self).wf(),
            old(self).current_id + old(self).merges.len() <= i32::MAX,
        ensures
            final(self).wf(),
            old(self).none_over() ==> final(self).none_over(),
            outcome.0@ == retired(old(self).merges@, old(self).merges.len() as int),
            outcome.1@ == promoted_blocks(
                old(self).merges@,
                old(self).position_map.registry(),
                old(self).current_id as int,
                old(self).merges.len() as int,
            ),
            final(self).position_map.grid() == old(self).settled(),
            final(self).position_map.registry() == old(self).settled_ranks(),
            final(self).current_id == old(self).current_id + old(self).merges.len(),
            final(self).merges@ == Seq::<(Id, Id, Position)>::empty(),
            final(self).is_game_over == old(self).is_game_over,
            final(self).ready_for_next_move == old(self).ready_for_next_move,
            sources_gone(old(self).merges@, final(self).position_map.registry()),
    {
        proof {
            lemma_sources_gone(
                self.position_map.registry(),
                self.merges@,
                self.current_id as int,
                self.merges@.len() as int,
            );
            assert(self.merges@.take(self.merges@.len() as int) =~= self.merges@);
        }
        let ghost m = self.merges@;
        let ghost g = self.position_map.grid();
        let ghost reg = self.position_map.registry();
        let ghost first = self.current_id as int;
        let length = self.merges.len();

        let mut numbers: Vec<Number> = Vec::new();
        let mut i: usize = 0;
        while i < length
            invariant
                i <= length,
                length == m.len(),
                self.merges@ == m,
                self.position_map.wf(),
                self.position_map.registry() == reg,
                merges_sound(m, reg),
                numbers@.len() == i,
                forall|k: int| 0 <= k < i ==> numbers@[k] == reg[(#[trigger] m[k]).0].promoted(),
            decreases length - i,
        {
            let id1 = self.merges[i].0;
            let number = self.position_map.get_number_with_id(id1);
            numbers.push(number.unwrap().next());
            i += 1;
        }

        let mut deleted: Vec<i32> = Vec::new();
        let mut added: Vec<BlockAdded> = Vec::new();
        i = 0;
        while i < length
            invariant
                i <= length,
                length == m.len(),
                self.merges@ == m,
                first + length <= i32::MAX,
                0 <= first,
                merges_sound(m, reg),
                numbers@.len() == length,
                forall|k: int|
                    0 <= k < length ==> numbers@[k] == reg[(#[trigger] m[k]).0].promoted(),
                self.position_map.wf(),
                all_registered(self.position_map.grid(), self.position_map.registry()),
                no_block_twice(self.position_map.grid()),
                ids_below(self.position_map.registry(), first + i),
                self.current_id == first + i,
                self.position_map.grid() == settled_grid(g, m, first, i as int),
                self.position_map.registry() == settled_registry(reg, m, first, i as int),
                deleted@ == retired(m, i as int),
                added@ == promoted_blocks(m, reg, first, i as int),
                old(self).none_over() ==> none_left_over(
                    self.position_map.grid(),
                    self.position_map.registry(),
                    m,
                    i as int,
                ) && targets_free(self.position_map.grid(), m, i as int) && targets_apart(m),
                self.is_game_over == old(self).is_game_over,
                self.ready_for_next_move == old(self).ready_for_next_move,
            decreases length - i,
        {
            let id1 = self.merges[i].0;
            let id2 = self.merges[i].1;
            let position = self.merges[i].2;
            let next_number = numbers[i];
            let ghost g0 = self.position_map.grid();
            let ghost reg0 = self.position_map.registry();
            proof {
                lemma_without_first(g0, id1);
                lemma_without_keeps_board(g0, reg0, id1);
                lemma_without_first(without(g0, id1), id2);
                lemma_without_keeps_board(without(g0, id1), reg0.remove(id1), id2);
                lemma_new_block_keeps_board(
                    without(without(g0, id1), id2),
                    reg0.remove(id1).remove(id2),
                    position.x as int,
                    position.y as int,
                    self.current_id,
                    next_number,
                );
                if old(self).none_over() {
                    lemma_settle_leaves_none_over(
                        g0,
                        reg0,
                        m,
                        i as int,
                        self.current_id,
                        next_number,
                    );
                }
            }
            self.position_map.delete_block(id1);
            self.position_map.delete_block(id2);

            deleted.push(id1);
            deleted.push(id2);

            let id = self.current_id;
            self.current_id += 1;
            self.position_map.add_block(id, next_number);
            self.position_map.set(position.x, position.y, Some(id));
            added.push(BlockAdded { id: id, number: next_number, position: position });
            i += 1;
        }
        self.merges = Vec::new();
        (deleted, added)
    }

    /// What the end of an animation leads to, once the merges are applied
    /// and the spawner has run.
    fn report(deleted: Vec<i32>, added: Vec<BlockAdded>, generated: GenerateResult) -> (outcome:
        AnimationOutcome)
        ensures
            outcome.added@ == added@,
            outcome.generated == generated,
            deleted@.len() == 0 ==> outcome.deleted is None,
            deleted@.len() > 0 ==> (outcome.deleted matches Some(event) && event.deleted@
                == deleted@),
    {
        if deleted.len() > 0 {
            AnimationOutcome {
                deleted: Some(BlocksDeleted { deleted: deleted }),
                added: added,
                generated: generated,
            }
        } else {
            AnimationOutcome { deleted: None, added: added, generated: generated }
        }
    }

    /// The signal that the slides of the last accepted move have been shown.
    /// With the latch open it is dropped. With the latch closed the latch opens,
    /// the merges that wait are applied, and the spawner adds one tile. The
    /// counter has an identifier left for each merge and for the new tile.
    pub fn animation_completed(&mut self) -> (outcome: Option<AnimationOutcome>)
        requires
            old(self).wf(),
            !old(self).ready_for_next_move ==> old(self).current_id + old(self).merges.len()
                <= i32::MAX,
            !old(self).ready_for_next_move && free_before(old(self).settled(), CELLS as int) > 0
                ==> old(self).current_id + old(self).merges.len() < i32::MAX,
        ensures
            final(self).wf(),
            old(self).tidy() ==> final(self).tidy(),
            old(self).ready_for_next_move ==> outcome is None && *final(self) == *old(self),
            !old(self).ready_for_next_move ==> {
                &&& outcome matches Some(o)
                &&& final(self).ready_for_next_move
                &&& final(self).is_game_over == old(self).is_game_over
                &&& final(self).merges@ == Seq::<(Id, Id, Position)>::empty()
                &&& sources_gone(old(self).merges@, final(self).position_map.registry())
                &&& old(self).reports_merges(o)
                &&& o.generated is GameOver <==> free_before(old(self).settled(), CELLS as int)
                    == 0
                &&& o.generated matches GenerateResult::BlockAdded(id, number, p) ==> (number
                    == Number::ZERO || number == Number::ONE)
                &&& final(self).spawned_after(*old(self), o.generated)
            },
    {
        if !self.ready_for_next_move {
            self.ready_for_next_move = true;
            let (deleted, added) = self.settle();
            let generated = self.generate_block();
            Some(Self::report(deleted, added, generated))
        } else {
            None
        }
    }

    /// The end of an animation with both draws of the spawner given, as for
    /// `generate_block_with`.
    pub fn animation_completed_with(&mut self, second_rank: bool, chosen: i32) -> (outcome:
        Option<AnimationOutcome>)
        requires
            old(self).wf(),
            !old(self).ready_for_next_move ==> old(self).current_id + old(self).merges.len()
                <= i32::MAX,
            !old(self).ready_for_next_move && 0 <= chosen < free_before(
                old(self).settled(),
                CELLS as int,
            ) ==> old(self).current_id + old(self).merges.len() < i32::MAX,
        ensures
            final(self).wf(),
            old(self).tidy() ==> final(self).tidy(),
            old(self).ready_for_next_move ==> outcome is None && *final(self) == *old(self),
            !old(self).ready_for_next_move ==> {
                &&& outcome matches Some(o)
                &&& final(self).ready_for_next_move
                &&& final(self).is_game_over == old(self).is_game_over
                &&& final(self).merges@ == Seq::<(Id, Id, Position)>::empty()
                &&& sources_gone(old(self).merges@, final(self).position_map.registry())
                &&& old(self).reports_merges(o)
                &&& o.generated is GameOver <==> !(0 <= chosen < free_before(
                    old(self).settled(),
                    CELLS as int,
                ))
                &&& o.generated matches GenerateResult::BlockAdded(id, number, p) ==> (number
                    == spawn_rank(second_rank) && free_before(
                    old(self).settled(),
                    p.x * HEIGHT + p.y,
                ) == chosen)
                &&& final(self).spawned_after(*old(self), o.generated)
            },
    {
        if !self.ready_for_next_move {
            self.ready_for_next_move = true;
            let (deleted, added) = self.settle();
            let generated = self.generate_block_with(second_rank, chosen);
            Some(Self::report(deleted, added, generated))
        } else {
            None
        }
    }

    /// `outcome` reports the merges that wait in this state: the retired
    /// identifiers, where there is a merge at all, and the promoted tiles.
    pub open spec fn reports_merges(&self, outcome: AnimationOutcome) -> bool {
        &&& outcome.deleted is None <==> self.merges@.len() == 0
        &&& outcome.deleted matches Some(event) ==> event.deleted@ == retired(
            self.merges@,
            self.merges@.len() as int,
        )
        &&& outcome.added@ == promoted_blocks(
            self.merges@,
            self.position_map.registry(),
            self.current_id as int,
            self.merges@.len() as int,
        )
    }

    /// The board of this state is that of `before` with its merges applied
    /// and with what the spawner reports in `generated`: one more tile on a
    /// cell that was empty, under the identifier that was next; or nothing.
    pub open spec fn spawned_after(&self, before: LogicState, generated: GenerateResult) -> bool {
        match generated {
            GenerateResult::BlockAdded(id, number, p) => {
                &&& id == before.current_id + before.merges@.len()
                &&& p.x < WIDTH
                &&& p.y < HEIGHT
                &&& before.settled()[p.x as int][p.y as int] is None
                &&& self.position_map.grid() == with_cell(
                    before.settled(),
                    p.x as int,
                    p.y as int,
                    Some(id),
                )
                &&& self.position_map.registry() == before.settled_ranks().insert(id, number)
                &&& self.current_id == id + 1
            },
            GenerateResult::GameOver => {
                &&& self.position_map.grid() == before.settled()
                &&& self.position_map.registry() == before.settled_ranks()
                &&& self.current_id == before.current_id + before.merges@.len()
            },
        }
    }

    /// A request for a new game. It is granted once the game is over, and
    /// dropped before.
    pub fn restart_requested(&mut self) -> (restarted: Option<GameRestarted>)
        requires
            old(self).wf(),
        ensures
            final(self).wf(),
            old(self).tidy() ==> final(self).tidy(),
            old(self).is_game_over ==> restarted is Some && final(self).is_initial(),
            !old(self).is_game_over ==> restarted is None && *final(self) == *old(self),
    {
        if self.is_game_over {
            self.restart();
            Some(GameRestarted)
        } else {
            None
        }
    }

    /// The report that a new game has begun. Where no block is registered the
    /// spawner adds the first tile; else nothing happens.
    pub fn game_restarted(&mut self) -> (added: Option<BlockAdded>)
        requires
            old(self).wf(),
            old(self).position_map.registry().is_empty() ==> old(self).current_id < i32::MAX,
        ensures
            final(self).wf(),
            old(self).tidy() ==> final(self).tidy(),
            !old(self).position_map.registry().is_empty() ==> added is None && *final(self)
                == *old(self),
            old(self).position_map.registry().is_empty() ==> {
                &&& added matches Some(block)
                &&& block.id == old(self).current_id
                &&& block.number == Number::ZERO || block.number == Number::ONE
                &&& block.position.x < WIDTH
                &&& block.position.y < HEIGHT
                &&& final(self).holds_new_block(*old(self), block.number, block.position)
            },
    {
        if !self.position_map.has_any_blocks() {
            proof {
                if self.merges@.len() > 0 {
                    assert(self.position_map.registry().contains_key(self.merges@[0].0));
                }
                let g = self.position_map.grid();
                assert forall|x: int, y: int| 0 <= x < WIDTH && 0 <= y < HEIGHT implies g[x][y]
                    is None by {
                    if g[x][y] is Some {
                        assert(self.position_map.registry().contains_key(g[x][y].unwrap()));
                    }
                }
                lemma_free_before_empty(g, CELLS as int);
            }
            Some(self.generate_starting_block())
        } else {
            None
        }
    }
}

/// While the latch is closed a request for a move is neither accepted nor
/// the end of the game: it is dropped.
pub proof fn lemma_closed_latch_drops_moves(state: LogicState, direction: Direction)
    requires
        !state.ready_for_next_move,
    ensures
        !state.accepts_move(direction),
        !state.declares_game_over(),
{
}

/// A move that leaves every cell as it is is not accepted; where a move is
/// still available, or the end of the game was reported before, the request
/// is dropped.
pub proof fn lemma_idle_move_is_dropped(state: LogicState, direction: Direction)
    requires
        state.moved(direction) == state.position_map.grid(),
        state.position_map.moves_available() || state.is_game_over,
    ensures
        !state.accepts_move(direction),
        !state.declares_game_over(),
{
}

} // verus!
