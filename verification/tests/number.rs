use tiles2048::events::MoveRequested;
use tiles2048::logic::number::Number;
use tiles2048::logic::position_map::Direction;

fn ladder() -> Vec<Number> {
    vec![
        Number::ZERO,
        Number::ONE,
        Number::TWO,
        Number::THREE,
        Number::FOUR,
        Number::FIVE,
        Number::SIX,
        Number::SEVEN,
        Number::EIGHT,
        Number::NINE,
        Number::TEN,
        Number::ELEVEN,
        Number::TWELVE,
        Number::THIRTEEN,
        Number::FOURTEEN,
        Number::FIFTEEN,
        Number::SIXTEEN,
    ]
}

#[test]
fn value_is_two_to_the_rank_plus_one() {
    let mut expected: i32 = 2;
    for number in ladder() {
        assert_eq!(number.value(), expected);
        expected *= 2;
    }
    assert_eq!(Number::ZERO.value(), 2);
    assert_eq!(Number::TEN.value(), 2048);
    assert_eq!(Number::SIXTEEN.value(), 131072);
}

#[test]
fn next_climbs_one_rank() {
    let ranks = ladder();
    for i in 0..16 {
        assert_eq!(ranks[i].next(), ranks[i + 1]);
    }
}

#[test]
fn next_stops_at_the_top() {
    assert_eq!(Number::SIXTEEN.next(), Number::SIXTEEN);
    assert_eq!(Number::SIXTEEN.next().value(), 131072);
    assert_eq!(Number::FIFTEEN.next().next(), Number::SIXTEEN);
}

#[test]
fn ranks_are_equal_only_to_themselves() {
    let ranks = ladder();
    for i in 0..17 {
        for j in 0..17 {
            assert_eq!(ranks[i] == ranks[j], i == j);
        }
    }
}

#[test]
fn move_request_carries_its_direction() {
    assert_eq!(MoveRequested::new(Direction::LEFT).direction, Direction::LEFT);
    assert_eq!(MoveRequested::new(Direction::BOTTOM).direction, Direction::BOTTOM);
}
