use tiles2048::logic::number::Number;
use tiles2048::logic::position_map::{Direction, Position, PositionMap, HEIGHT, WIDTH};
use tiles2048::logic::LogicState;

fn at(x: usize, y: usize) -> Position {
    Position { x: x, y: y }
}

/// A game with a tile on each of `tiles`, given as column, row and rank; the
/// tiles get the identifiers 0, 1, 2, ... in the order of the list.
fn game(tiles: &[(usize, usize, Number)]) -> LogicState {
    let mut state = LogicState::new();
    for &(x, y, number) in tiles {
        state.add_block(number, at(x, y));
    }
    state
}

fn cells(map: &PositionMap) -> Vec<(usize, usize, i32)> {
    let mut found = Vec::new();
    for x in 0..WIDTH {
        for y in 0..HEIGHT {
            if let Some(id) = map.get(x, y) {
                found.push((x, y, id));
            }
        }
    }
    found
}

#[test]
fn a_lone_tile_slides_to_the_edge() {
    let state = game(&[(2, 1, Number::ZERO)]);
    let mut moves = Vec::new();
    let mut merges = Vec::new();
    let new_map = state.calculate_new_map(Direction::LEFT, &mut moves, &mut merges);
    assert_eq!(cells(&new_map), vec![(0, 1, 0)]);
    assert_eq!(moves, vec![(0, at(0, 1))]);
    assert_eq!(merges, vec![]);
    assert_eq!(cells(&state.position_map), vec![(2, 1, 0)]);
}

#[test]
fn a_lone_tile_slides_each_way() {
    let state = game(&[(2, 1, Number::ZERO)]);
    let expected = [
        (Direction::LEFT, at(0, 1)),
        (Direction::RIGHT, at(3, 1)),
        (Direction::TOP, at(2, 0)),
        (Direction::BOTTOM, at(2, 3)),
    ];
    for (direction, target) in expected {
        let mut moves = Vec::new();
        let mut merges = Vec::new();
        let new_map = state.calculate_new_map(direction, &mut moves, &mut merges);
        assert_eq!(cells(&new_map), vec![(target.x, target.y, 0)]);
        assert_eq!(moves, vec![(0, target)]);
        assert_eq!(merges, vec![]);
    }
}

#[test]
fn two_alike_merge_on_the_first_slot() {
    let state = game(&[(0, 0, Number::ZERO), (3, 0, Number::ZERO)]);
    let mut moves = Vec::new();
    let mut merges = Vec::new();
    let new_map = state.calculate_new_map(Direction::LEFT, &mut moves, &mut merges);
    assert_eq!(merges, vec![(0, 1, at(0, 0))]);
    assert_eq!(moves, vec![(1, at(1, 0))]);
    assert_eq!(cells(&new_map), vec![(1, 0, 1)]);
}

#[test]
fn two_alike_merge_towards_the_right() {
    let state = game(&[(0, 2, Number::THREE), (1, 2, Number::THREE)]);
    let mut moves = Vec::new();
    let mut merges = Vec::new();
    let new_map = state.calculate_new_map(Direction::RIGHT, &mut moves, &mut merges);
    assert_eq!(merges, vec![(1, 0, at(3, 2))]);
    assert_eq!(moves, vec![(0, at(2, 2))]);
    assert_eq!(cells(&new_map), vec![(2, 2, 0)]);
}

#[test]
fn two_unlike_tiles_only_slide() {
    let state = game(&[(1, 3, Number::ZERO), (3, 3, Number::ONE)]);
    let mut moves = Vec::new();
    let mut merges = Vec::new();
    let new_map = state.calculate_new_map(Direction::LEFT, &mut moves, &mut merges);
    assert_eq!(merges, vec![]);
    assert_eq!(moves, vec![(0, at(0, 3)), (1, at(1, 3))]);
    assert_eq!(cells(&new_map), vec![(0, 3, 0), (1, 3, 1)]);
}

#[test]
fn three_alike_merge_the_first_two_only() {
    let state = game(&[(1, 0, Number::ZERO), (2, 0, Number::ZERO), (3, 0, Number::ZERO)]);
    let mut moves = Vec::new();
    let mut merges = Vec::new();
    let new_map = state.calculate_new_map(Direction::LEFT, &mut moves, &mut merges);
    assert_eq!(merges, vec![(0, 1, at(0, 0))]);
    assert_eq!(moves, vec![(1, at(1, 0)), (2, at(2, 0))]);
    assert_eq!(cells(&new_map), vec![(1, 0, 1), (2, 0, 2)]);
}

#[test]
fn three_alike_from_the_bottom_merge_the_lowest_two() {
    let state = game(&[(2, 0, Number::ONE), (2, 1, Number::ONE), (2, 2, Number::ONE)]);
    let mut moves = Vec::new();
    let mut merges = Vec::new();
    let new_map = state.calculate_new_map(Direction::BOTTOM, &mut moves, &mut merges);
    assert_eq!(merges, vec![(2, 1, at(2, 3))]);
    assert_eq!(moves, vec![(1, at(2, 2)), (0, at(2, 1))]);
    assert_eq!(cells(&new_map), vec![(2, 1, 0), (2, 2, 1)]);
}

#[test]
fn four_alike_make_two_pairs() {
    let state = game(
        &[
            (1, 0, Number::TWO),
            (1, 1, Number::TWO),
            (1, 2, Number::TWO),
            (1, 3, Number::TWO),
        ],
    );
    let mut moves = Vec::new();
    let mut merges = Vec::new();
    let new_map = state.calculate_new_map(Direction::TOP, &mut moves, &mut merges);
    assert_eq!(merges, vec![(0, 1, at(1, 0)), (2, 3, at(1, 2))]);
    assert_eq!(moves, vec![(1, at(1, 1)), (3, at(1, 3))]);
    assert_eq!(cells(&new_map), vec![(1, 1, 1), (1, 3, 3)]);
}

#[test]
fn a_pair_behind_another_tile_merges_on_the_second_slot() {
    let state = game(&[(0, 1, Number::ONE), (2, 1, Number::ZERO), (3, 1, Number::ZERO)]);
    let mut moves = Vec::new();
    let mut merges = Vec::new();
    let new_map = state.calculate_new_map(Direction::LEFT, &mut moves, &mut merges);
    assert_eq!(merges, vec![(1, 2, at(1, 1))]);
    assert_eq!(moves, vec![(0, at(0, 1)), (2, at(2, 1))]);
    assert_eq!(cells(&new_map), vec![(0, 1, 0), (2, 1, 2)]);
}

#[test]
fn lines_are_resolved_one_after_the_other() {
    let state = game(
        &[
            (3, 2, Number::ZERO),
            (1, 0, Number::ONE),
            (2, 2, Number::ZERO),
            (3, 0, Number::TWO),
            (0, 3, Number::FIVE),
        ],
    );
    let mut moves = Vec::new();
    let mut merges = Vec::new();
    let new_map = state.calculate_new_map(Direction::LEFT, &mut moves, &mut merges);
    assert_eq!(moves, vec![(1, at(0, 0)), (3, at(1, 0)), (0, at(1, 2)), (4, at(0, 3))]);
    assert_eq!(merges, vec![(2, 0, at(0, 2))]);
    assert_eq!(cells(&new_map), vec![(0, 0, 1), (0, 3, 4), (1, 0, 3), (1, 2, 0)]);
}

#[test]
fn slides_and_merges_are_appended() {
    let state = game(&[(0, 0, Number::ZERO), (1, 0, Number::ZERO)]);
    let mut moves = vec![(40, at(3, 3))];
    let mut merges = vec![(41, 42, at(2, 2))];
    state.calculate_new_map(Direction::LEFT, &mut moves, &mut merges);
    assert_eq!(moves, vec![(40, at(3, 3)), (1, at(1, 0))]);
    assert_eq!(merges, vec![(41, 42, at(2, 2)), (0, 1, at(0, 0))]);
}

#[test]
fn the_new_board_keeps_the_registry() {
    let state = game(&[(0, 0, Number::ZERO), (1, 0, Number::ZERO)]);
    let mut moves = Vec::new();
    let mut merges = Vec::new();
    let new_map = state.calculate_new_map(Direction::TOP, &mut moves, &mut merges);
    assert_eq!(new_map.get_number_with_id(0), Some(Number::ZERO));
    assert_eq!(new_map.get_number_with_id(1), Some(Number::ZERO));
    assert!(new_map.same_positions(&state.position_map));
    assert_eq!(moves, vec![(0, at(0, 0)), (1, at(1, 0))]);
}

#[test]
fn resolving_twice_gives_the_same() {
    let state = game(
        &[
            (0, 0, Number::ZERO),
            (2, 0, Number::ZERO),
            (3, 0, Number::ONE),
            (1, 3, Number::ONE),
            (1, 1, Number::ONE),
        ],
    );
    for direction in [Direction::LEFT, Direction::RIGHT, Direction::TOP, Direction::BOTTOM] {
        let mut moves_a = Vec::new();
        let mut merges_a = Vec::new();
        let a = state.calculate_new_map(direction, &mut moves_a, &mut merges_a);
        let mut moves_b = Vec::new();
        let mut merges_b = Vec::new();
        let b = state.calculate_new_map(direction, &mut moves_b, &mut merges_b);
        assert!(a.same_positions(&b));
        assert_eq!(moves_a, moves_b);
        assert_eq!(merges_a, merges_b);
    }
}

#[test]
fn an_empty_board_stays_empty() {
    let state = LogicState::new();
    let mut moves = Vec::new();
    let mut merges = Vec::new();
    let new_map = state.calculate_new_map(Direction::RIGHT, &mut moves, &mut merges);
    assert_eq!(cells(&new_map), vec![]);
    assert_eq!(moves, vec![]);
    assert_eq!(merges, vec![]);
}
