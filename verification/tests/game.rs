use tiles2048::events::{BlockAdded, BlocksDeleted, BlocksMoved, GameRestarted};
use tiles2048::logic::number::Number;
use tiles2048::logic::position_map::{Direction, Position, PositionMap, HEIGHT, WIDTH};
use tiles2048::logic::{AnimationOutcome, GenerateResult, LogicState, MoveBlockResult};

fn place(x: usize, y: usize) -> Position {
    Position { x: x, y: y }
}

/// A game with a tile on each of `tiles`, given as column, row and rank; the
/// tiles get the identifiers 0, 1, 2, ... in the order of the list.
fn play(tiles: &[(usize, usize, Number)]) -> LogicState {
    let mut state = LogicState::new();
    for &(x, y, number) in tiles {
        state.add_block(number, place(x, y));
    }
    state
}

/// A game on a full board on which no two neighbours are of one rank. The
/// tile in column x, row y has the identifier 4x + y.
fn stuck() -> LogicState {
    let mut state = LogicState::new();
    for x in 0..WIDTH {
        for y in 0..HEIGHT {
            let number = if (x + y) % 2 == 0 { Number::ZERO } else { Number::ONE };
            state.add_block(number, place(x, y));
        }
    }
    state
}

fn board(map: &PositionMap) -> Vec<(usize, usize, i32, Number)> {
    let mut found = Vec::new();
    for x in 0..WIDTH {
        for y in 0..HEIGHT {
            if let Some(id) = map.get(x, y) {
                found.push((x, y, id, map.get_number_with_id(id).unwrap()));
            }
        }
    }
    found
}

#[test]
fn a_new_game_is_empty_and_ready() {
    let state = LogicState::new();
    assert_eq!(board(&state.position_map), vec![]);
    assert!(!state.position_map.has_any_blocks());
    assert_eq!(state.current_id, 0);
    assert!(!state.is_game_over);
    assert!(state.ready_for_next_move);
    assert_eq!(state.merges, vec![]);
}

#[test]
fn add_block_hands_out_identifiers_in_order() {
    let mut state = LogicState::new();
    assert_eq!(state.add_block(Number::ZERO, place(1, 2)), 0);
    assert_eq!(state.add_block(Number::FOUR, place(3, 3)), 1);
    assert_eq!(state.add_block(Number::ONE, place(0, 0)), 2);
    assert_eq!(state.current_id, 3);
    assert_eq!(
        board(&state.position_map),
        vec![(0, 0, 2, Number::ONE), (1, 2, 0, Number::ZERO), (3, 3, 1, Number::FOUR)]
    );
}

#[test]
fn the_spawner_with_given_draws_fills_the_chosen_cell() {
    let mut state = play(&[(0, 0, Number::ZERO), (0, 2, Number::ONE)]);
    let result = state.generate_block_with(false, 1);
    assert_eq!(result, GenerateResult::BlockAdded(2, Number::ZERO, place(0, 3)));
    let result = state.generate_block_with(true, 0);
    assert_eq!(result, GenerateResult::BlockAdded(3, Number::ONE, place(0, 1)));
    let result = state.generate_block_with(true, 11);
    assert_eq!(result, GenerateResult::BlockAdded(4, Number::ONE, place(3, 3)));
    assert_eq!(state.current_id, 5);
    assert_eq!(state.position_map.get(3, 3), Some(4));
    assert_eq!(state.position_map.get_number_with_id(4), Some(Number::ONE));
    assert_eq!(state.position_map.count_free(), 11);
}

#[test]
fn the_spawner_with_the_same_draws_does_the_same() {
    for chosen in 0..14 {
        for second_rank in [false, true] {
            let mut a = play(&[(0, 0, Number::ZERO), (2, 3, Number::ONE)]);
            let mut b = play(&[(0, 0, Number::ZERO), (2, 3, Number::ONE)]);
            let first = a.generate_block_with(second_rank, chosen);
            let second = b.generate_block_with(second_rank, chosen);
            assert_eq!(first, second);
            assert!(first != GenerateResult::GameOver);
            assert_eq!(board(&a.position_map), board(&b.position_map));
            assert_eq!(a.current_id, b.current_id);
        }
    }
}

#[test]
fn the_spawner_with_a_draw_out_of_range_adds_nothing() {
    let mut state = play(&[(0, 0, Number::ZERO)]);
    assert_eq!(state.generate_block_with(false, 15), GenerateResult::GameOver);
    assert_eq!(state.generate_block_with(false, -1), GenerateResult::GameOver);
    assert_eq!(state.current_id, 1);
    assert_eq!(board(&state.position_map), vec![(0, 0, 0, Number::ZERO)]);
    let mut state = stuck();
    assert_eq!(state.generate_block_with(true, 0), GenerateResult::GameOver);
    assert_eq!(state.current_id, 16);
}

#[test]
fn the_spawner_picks_an_empty_cell_and_one_of_two_ranks() {
    let mut first = 0;
    let mut second = 0;
    for _ in 0..600 {
        let mut state = play(&[(1, 1, Number::THREE), (2, 0, Number::ONE)]);
        match state.generate_block() {
            GenerateResult::BlockAdded(id, number, position) => {
                assert_eq!(id, 2);
                assert!(position != place(1, 1) && position != place(2, 0));
                assert!(position.x < WIDTH && position.y < HEIGHT);
                assert_eq!(state.position_map.get(position.x, position.y), Some(2));
                assert_eq!(state.position_map.get_number_with_id(2), Some(number));
                assert_eq!(state.position_map.count_free(), 13);
                assert_eq!(state.current_id, 3);
                match number {
                    Number::ZERO => first += 1,
                    Number::ONE => second += 1,
                    _ => panic!("a new tile of rank {:?}", number),
                }
            }
            GenerateResult::GameOver => panic!("no tile on a board with empty cells"),
        }
    }
    assert!(first > second);
    assert!(second > 0);
}

#[test]
fn the_spawner_on_a_full_board_ends_the_game() {
    let mut state = stuck();
    assert_eq!(state.generate_block(), GenerateResult::GameOver);
    assert_eq!(state.current_id, 16);
    assert_eq!(state.position_map.count_free(), 0);
    assert!(!state.is_game_over);
}

#[test]
fn the_starting_block_is_the_first_block() {
    let mut state = LogicState::new();
    let added = state.generate_starting_block();
    assert_eq!(added.id, 0);
    assert!(added.number == Number::ZERO || added.number == Number::ONE);
    assert_eq!(
        board(&state.position_map),
        vec![(added.position.x, added.position.y, 0, added.number)]
    );
    assert_eq!(state.current_id, 1);
}

#[test]
fn a_pair_merges_and_a_tile_is_spawned() {
    let mut state = play(&[(0, 0, Number::ZERO), (3, 0, Number::ZERO)]);
    let result = state.move_blocks_to(Direction::LEFT);
    let expected = vec![(1, place(1, 0)), (0, place(0, 0)), (1, place(0, 0))];
    assert_eq!(result, MoveBlockResult::Success(BlocksMoved { moves: expected.clone() }));
    assert_eq!(expected.iter().filter(|entry| entry.1 == place(0, 0)).count(), 2);
    assert_eq!(state.merges, vec![(0, 1, place(0, 0))]);
    assert!(!state.ready_for_next_move);
    assert_eq!(board(&state.position_map), vec![(1, 0, 1, Number::ZERO)]);

    let outcome = state.animation_completed_with(false, 0);
    assert_eq!(
        outcome,
        Some(
            AnimationOutcome {
                deleted: Some(BlocksDeleted { deleted: vec![0, 1] }),
                added: vec![BlockAdded { id: 2, number: Number::ONE, position: place(0, 0) }],
                generated: GenerateResult::BlockAdded(3, Number::ZERO, place(0, 1)),
            },
        )
    );
    assert!(state.ready_for_next_move);
    assert_eq!(state.merges, vec![]);
    assert_eq!(state.current_id, 4);
    assert_eq!(
        board(&state.position_map),
        vec![(0, 0, 2, Number::ONE), (0, 1, 3, Number::ZERO)]
    );
    assert_eq!(state.position_map.get_number_with_id(0), None);
    assert_eq!(state.position_map.get_number_with_id(1), None);
}

#[test]
fn a_pair_merges_and_a_random_tile_is_spawned() {
    let mut state = play(&[(0, 0, Number::ZERO), (3, 0, Number::ZERO)]);
    match state.move_blocks_to(Direction::LEFT) {
        MoveBlockResult::Success(event) => assert_eq!(event.moves.len(), 3),
        other => panic!("the move was not accepted: {:?}", other),
    }
    let outcome = state.animation_completed().unwrap();
    assert_eq!(outcome.deleted, Some(BlocksDeleted { deleted: vec![0, 1] }));
    assert_eq!(
        outcome.added,
        vec![BlockAdded { id: 2, number: Number::ONE, position: place(0, 0) }]
    );
    match outcome.generated {
        GenerateResult::BlockAdded(id, number, position) => {
            assert_eq!(id, 3);
            assert!(number == Number::ZERO || number == Number::ONE);
            assert!(position != place(0, 0));
            assert_eq!(state.position_map.get(position.x, position.y), Some(3));
        }
        GenerateResult::GameOver => panic!("no tile on a board with empty cells"),
    }
    assert_eq!(state.position_map.count_free(), 14);
    assert_eq!(state.position_map.get(0, 0), Some(2));
    assert!(state.ready_for_next_move);
}

#[test]
fn a_move_that_changes_nothing_is_no_move() {
    let mut state = play(&[(0, 0, Number::ZERO), (1, 0, Number::ONE), (0, 2, Number::ONE)]);
    assert_eq!(state.move_blocks_to(Direction::LEFT), MoveBlockResult::Nothing);
    assert!(state.ready_for_next_move);
    assert!(!state.is_game_over);
    assert_eq!(state.merges, vec![]);
    assert_eq!(
        board(&state.position_map),
        vec![(0, 0, 0, Number::ZERO), (0, 2, 2, Number::ONE), (1, 0, 1, Number::ONE)]
    );
    assert_eq!(state.animation_completed_with(false, 0), None);
    match state.move_blocks_to(Direction::RIGHT) {
        MoveBlockResult::Success(event) => {
            assert_eq!(
                event.moves,
                vec![(1, place(3, 0)), (0, place(2, 0)), (2, place(3, 2))]
            );
        }
        other => panic!("the move was not accepted: {:?}", other),
    }
}

#[test]
fn a_merge_of_packed_tiles_is_a_move() {
    let mut state = play(&[(0, 1, Number::ONE), (1, 1, Number::ONE)]);
    let result = state.move_blocks_to(Direction::LEFT);
    assert_eq!(
        result,
        MoveBlockResult::Success(
            BlocksMoved { moves: vec![(1, place(1, 1)), (0, place(0, 1)), (1, place(0, 1))] },
        )
    );
    assert_eq!(board(&state.position_map), vec![(1, 1, 1, Number::ONE)]);
    state.animation_completed_with(true, 15);
    assert_eq!(board(&state.position_map), vec![(0, 1, 2, Number::TWO)]);
}

#[test]
fn a_request_behind_the_closed_latch_is_dropped() {
    let mut state = play(&[(2, 2, Number::ZERO)]);
    match state.move_blocks_to(Direction::TOP) {
        MoveBlockResult::Success(event) => assert_eq!(event.moves, vec![(0, place(2, 0))]),
        other => panic!("the move was not accepted: {:?}", other),
    }
    assert!(!state.ready_for_next_move);
    for direction in [Direction::LEFT, Direction::RIGHT, Direction::TOP, Direction::BOTTOM] {
        assert_eq!(state.move_blocks_to(direction), MoveBlockResult::Nothing);
        assert!(!state.ready_for_next_move);
        assert_eq!(board(&state.position_map), vec![(2, 0, 0, Number::ZERO)]);
        assert_eq!(state.current_id, 1);
    }
    let outcome = state.animation_completed_with(false, 0).unwrap();
    assert_eq!(outcome.deleted, None);
    assert_eq!(outcome.added, vec![]);
    assert_eq!(outcome.generated, GenerateResult::BlockAdded(1, Number::ZERO, place(0, 0)));
    assert!(state.ready_for_next_move);
    assert_eq!(state.animation_completed_with(false, 0), None);
    assert_eq!(state.animation_completed(), None);
    assert_eq!(state.current_id, 2);
    assert!(state.ready_for_next_move);
    match state.move_blocks_to(Direction::BOTTOM) {
        MoveBlockResult::Success(event) => {
            assert_eq!(event.moves, vec![(1, place(0, 3)), (0, place(2, 3))]);
        }
        other => panic!("the move was not accepted: {:?}", other),
    }
}

#[test]
fn a_stuck_board_ends_the_game_once() {
    let mut state = stuck();
    assert_eq!(state.move_blocks_to(Direction::LEFT), MoveBlockResult::GameOver);
    assert!(state.is_game_over);
    assert!(state.ready_for_next_move);
    assert_eq!(state.move_blocks_to(Direction::LEFT), MoveBlockResult::Nothing);
    assert_eq!(state.move_blocks_to(Direction::TOP), MoveBlockResult::Nothing);
    assert!(state.is_game_over);
    assert_eq!(state.position_map.count_free(), 0);
    assert_eq!(state.current_id, 16);
}

#[test]
fn a_lone_empty_cell_ends_the_game_too() {
    let mut state = stuck();
    state.position_map.delete_block(5);
    assert_eq!(state.position_map.count_free(), 1);
    assert_eq!(state.move_blocks_to(Direction::RIGHT), MoveBlockResult::GameOver);
    assert!(state.is_game_over);
}

#[test]
fn restart_is_granted_after_the_end_only() {
    let mut state = play(&[(1, 1, Number::ZERO)]);
    assert_eq!(state.restart_requested(), None);
    assert_eq!(state.current_id, 1);
    assert_eq!(board(&state.position_map), vec![(1, 1, 0, Number::ZERO)]);

    let mut state = stuck();
    assert_eq!(state.restart_requested(), None);
    assert_eq!(state.move_blocks_to(Direction::LEFT), MoveBlockResult::GameOver);
    assert_eq!(state.restart_requested(), Some(GameRestarted));
    assert_eq!(board(&state.position_map), vec![]);
    assert!(!state.position_map.has_any_blocks());
    assert_eq!(state.current_id, 0);
    assert!(!state.is_game_over);
    assert!(state.ready_for_next_move);
    assert_eq!(state.merges, vec![]);
    assert_eq!(state.restart_requested(), None);
}

#[test]
fn a_restarted_game_gets_its_seed_tile() {
    let mut state = stuck();
    state.move_blocks_to(Direction::LEFT);
    state.restart_requested();
    let added = state.game_restarted().unwrap();
    assert_eq!(added.id, 0);
    assert!(added.number == Number::ZERO || added.number == Number::ONE);
    assert_eq!(
        board(&state.position_map),
        vec![(added.position.x, added.position.y, 0, added.number)]
    );
    assert_eq!(state.game_restarted(), None);
    assert_eq!(state.current_id, 1);
}

#[test]
fn restart_puts_the_state_back() {
    let mut state = play(&[(0, 0, Number::ZERO), (3, 0, Number::ZERO)]);
    state.move_blocks_to(Direction::LEFT);
    state.is_game_over = true;
    state.restart();
    assert_eq!(board(&state.position_map), vec![]);
    assert!(!state.position_map.has_any_blocks());
    assert_eq!(state.current_id, 0);
    assert!(!state.is_game_over);
    assert!(state.ready_for_next_move);
    assert_eq!(state.merges, vec![]);
}

#[test]
fn settle_applies_the_merges_in_order() {
    let mut state = play(
        &[
            (0, 0, Number::ZERO),
            (1, 0, Number::ZERO),
            (2, 0, Number::ZERO),
            (3, 0, Number::ZERO),
            (1, 2, Number::FOUR),
            (3, 2, Number::FOUR),
            (0, 3, Number::ONE),
        ],
    );
    match state.move_blocks_to(Direction::RIGHT) {
        MoveBlockResult::Success(event) => {
            assert_eq!(
                event.moves,
                vec![
                    (2, place(2, 0)),
                    (0, place(0, 0)),
                    (4, place(2, 2)),
                    (6, place(3, 3)),
                    (3, place(3, 0)),
                    (2, place(3, 0)),
                    (1, place(1, 0)),
                    (0, place(1, 0)),
                    (5, place(3, 2)),
                    (4, place(3, 2)),
                ]
            );
        }
        other => panic!("the move was not accepted: {:?}", other),
    }
    assert_eq!(
        state.merges,
        vec![(3, 2, place(3, 0)), (1, 0, place(1, 0)), (5, 4, place(3, 2))]
    );
    let (deleted, added) = state.settle();
    assert_eq!(deleted, vec![3, 2, 1, 0, 5, 4]);
    assert_eq!(
        added,
        vec![
            BlockAdded { id: 7, number: Number::ONE, position: place(3, 0) },
            BlockAdded { id: 8, number: Number::ONE, position: place(1, 0) },
            BlockAdded { id: 9, number: Number::FIVE, position: place(3, 2) },
        ]
    );
    assert_eq!(state.merges, vec![]);
    assert_eq!(state.current_id, 10);
    assert!(!state.ready_for_next_move);
    assert_eq!(
        board(&state.position_map),
        vec![
            (1, 0, 8, Number::ONE),
            (3, 0, 7, Number::ONE),
            (3, 2, 9, Number::FIVE),
            (3, 3, 6, Number::ONE),
        ]
    );
    for id in 0..6 {
        assert_eq!(state.position_map.get_number_with_id(id), None);
    }
}

#[test]
fn settle_without_merges_changes_nothing() {
    let mut state = play(&[(2, 1, Number::ZERO)]);
    let (deleted, added) = state.settle();
    assert_eq!(deleted, vec![]);
    assert_eq!(added, vec![]);
    assert_eq!(state.current_id, 1);
    assert_eq!(board(&state.position_map), vec![(2, 1, 0, Number::ZERO)]);
}

#[test]
fn the_top_rank_merges_into_itself() {
    let mut state = play(&[(0, 0, Number::SIXTEEN), (0, 1, Number::SIXTEEN)]);
    state.move_blocks_to(Direction::TOP);
    let outcome = state.animation_completed_with(false, 2).unwrap();
    assert_eq!(
        outcome.added,
        vec![BlockAdded { id: 2, number: Number::SIXTEEN, position: place(0, 0) }]
    );
    assert_eq!(outcome.generated, GenerateResult::BlockAdded(3, Number::ZERO, place(0, 3)));
}

#[test]
fn three_alike_leave_the_third_behind_the_pair() {
    let mut state = play(&[(1, 0, Number::ZERO), (2, 0, Number::ZERO), (3, 0, Number::ZERO)]);
    match state.move_blocks_to(Direction::LEFT) {
        MoveBlockResult::Success(event) => {
            assert_eq!(
                event.moves,
                vec![(1, place(1, 0)), (2, place(2, 0)), (0, place(0, 0)), (1, place(0, 0))]
            );
        }
        other => panic!("the move was not accepted: {:?}", other),
    }
    assert_eq!(state.merges, vec![(0, 1, place(0, 0))]);
    state.animation_completed_with(false, 13);
    assert_eq!(
        board(&state.position_map),
        vec![(0, 0, 3, Number::ONE), (2, 0, 2, Number::ZERO), (3, 3, 4, Number::ZERO)]
    );
}

#[test]
fn a_full_board_after_the_animation_ends_the_game() {
    let mut state = stuck();
    state.ready_for_next_move = false;
    let outcome = state.animation_completed().unwrap();
    assert_eq!(outcome.deleted, None);
    assert_eq!(outcome.added, vec![]);
    assert_eq!(outcome.generated, GenerateResult::GameOver);
    assert!(state.ready_for_next_move);
    assert_eq!(state.current_id, 16);

    let mut state = stuck();
    state.ready_for_next_move = false;
    let outcome = state.animation_completed_with(true, 0).unwrap();
    assert_eq!(outcome.generated, GenerateResult::GameOver);
}

#[test]
fn every_block_keeps_one_rank_and_one_cell() {
    let mut state = LogicState::new();
    state.generate_block_with(false, 5);
    let directions = [Direction::LEFT, Direction::TOP, Direction::RIGHT, Direction::BOTTOM];
    let mut chosen: i32 = 3;
    for turn in 0..200 {
        state.move_blocks_to(directions[turn % 4]);
        chosen = (chosen * 7 + 5) % 16;
        let free = state.position_map.count_free();
        state.animation_completed_with(turn % 10 == 0, if free > 0 { chosen % free } else { 0 });
        let mut seen = Vec::new();
        for x in 0..WIDTH {
            for y in 0..HEIGHT {
                if let Some(id) = state.position_map.get(x, y) {
                    assert!(state.position_map.get_number_with_id(id).is_some());
                    assert!(!seen.contains(&id));
                    assert!(0 <= id && id < state.current_id);
                    assert_eq!(state.position_map.find_position(id), Some(place(x, y)));
                    seen.push(id);
                }
            }
        }
        assert_eq!(seen.len() as i32, 16 - state.position_map.count_free());
        for id in 0..state.current_id {
            assert_eq!(state.position_map.get_number_with_id(id).is_some(), seen.contains(&id));
        }
        assert!(state.ready_for_next_move);
        assert_eq!(state.merges, vec![]);
    }
    assert!(state.current_id > 1);
}
