use snake_ai::game::{random_cell, Outcome, State};
use snake_ai::grid::Direction;

fn sorted(cells: &Vec<(usize, usize)>) -> Vec<(usize, usize)> {
    let mut copy = cells.clone();
    copy.sort();
    copy
}

#[test]
fn new_game_has_one_cell_and_one_food() {
    let state = State::new((10, 10));
    assert_eq!(state.size(), (10, 10));
    assert_eq!(state.direction(), Direction::East);
    assert_eq!(state.body(), &vec![(0, 0)]);
    assert_eq!(state.length(), 1);
    assert_eq!(state.food().len(), 1);
    let food = state.food()[0];
    assert!(food.0 < 10 && food.1 < 10);
}

#[test]
fn new_game_on_a_single_cell_puts_food_there() {
    let state = State::new((1, 1));
    assert_eq!(state.food(), &vec![(0, 0)]);
}

#[test]
fn random_food_is_spread_over_the_grid() {
    let mut off_origin = false;
    for _ in 0..64 {
        let state = State::new((1000, 1000));
        let food = state.food()[0];
        assert!(food.0 < 1000 && food.1 < 1000);
        if food != (0, 0) {
            off_origin = true;
        }
    }
    assert!(off_origin);
}

#[test]
fn random_cell_lies_on_the_grid() {
    for _ in 0..200 {
        let cell = random_cell((3, 2));
        assert!(cell.0 < 3 && cell.1 < 2);
    }
}

#[test]
fn add_random_food_keeps_the_snake() {
    let mut state = State::with_layout((4, 4), Direction::East, vec![(1, 1)], vec![]).unwrap();
    for _ in 0..50 {
        state.add_random_food();
    }
    assert_eq!(state.body(), &vec![(1, 1)]);
    assert!(!state.food().is_empty());
    assert!(state.food().len() <= 16);
    let listed = sorted(state.food());
    let mut unique = listed.clone();
    unique.dedup();
    assert_eq!(listed, unique);
    for cell in state.food() {
        assert!(cell.0 < 4 && cell.1 < 4);
    }
}

#[test]
fn layout_is_taken_as_given() {
    let state = State::with_layout(
        (10, 8),
        Direction::West,
        vec![(3, 3), (4, 3)],
        vec![(5, 5), (0, 7)],
    )
    .unwrap();
    assert_eq!(state.size(), (10, 8));
    assert_eq!(state.direction(), Direction::West);
    assert_eq!(state.body(), &vec![(3, 3), (4, 3)]);
    assert_eq!(sorted(state.food()), vec![(0, 7), (5, 5)]);
    assert_eq!(state.length(), 2);
}

#[test]
fn layout_counts_repeated_food_once() {
    let state = State::with_layout(
        (10, 10),
        Direction::East,
        vec![(0, 0)],
        vec![(5, 5), (5, 5), (2, 2)],
    )
    .unwrap();
    assert_eq!(sorted(state.food()), vec![(2, 2), (5, 5)]);
}

#[test]
fn layout_rejects_what_is_not_a_living_snake() {
    assert!(State::with_layout((0, 10), Direction::East, vec![(0, 0)], vec![]).is_none());
    assert!(State::with_layout((10, 0), Direction::East, vec![(0, 0)], vec![]).is_none());
    assert!(State::with_layout((10, 10), Direction::East, vec![], vec![]).is_none());
    assert!(State::with_layout((10, 10), Direction::East, vec![(10, 0)], vec![]).is_none());
    assert!(State::with_layout((10, 10), Direction::East, vec![(0, 10)], vec![]).is_none());
    assert!(State::with_layout((10, 10), Direction::East, vec![(0, 0)], vec![(3, 10)]).is_none());
    assert!(
        State::with_layout((10, 10), Direction::East, vec![(1, 1), (1, 2), (1, 1)], vec![])
            .is_none()
    );
}

#[test]
fn next_loc_moves_the_head() {
    let snake = vec![(0, 0), (1, 0)];
    assert_eq!(State::next_loc(&snake, Direction::North, (10, 10)), (0, 9));
    assert_eq!(State::next_loc(&snake, Direction::South, (10, 10)), (0, 1));
    assert_eq!(State::next_loc(&snake, Direction::East, (10, 10)), (1, 0));
    assert_eq!(State::next_loc(&snake, Direction::West, (10, 10)), (9, 0));
}

#[test]
fn place_food_adds_a_cell_once() {
    let mut state = State::with_layout((5, 5), Direction::East, vec![(0, 0)], vec![]).unwrap();
    state.place_food((2, 3));
    state.place_food((2, 3));
    state.place_food((4, 4));
    assert_eq!(sorted(state.food()), vec![(2, 3), (4, 4)]);
}

#[test]
fn plain_move_keeps_the_length() {
    let mut state =
        State::with_layout((10, 10), Direction::East, vec![(0, 0)], vec![(5, 5)]).unwrap();
    assert!(!state.would_eat(Direction::East));
    assert!(!state.would_lose(Direction::East));
    let outcome = state.apply_move(Direction::East, &vec![(7, 7)]);
    assert_eq!(outcome, Outcome::Tick(1));
    assert_eq!(state.body(), &vec![(1, 0)]);
    assert_eq!(state.food(), &vec![(5, 5)]);
    assert_eq!(state.direction(), Direction::East);
}

#[test]
fn plain_move_drags_the_tail_along() {
    let mut state = State::with_layout(
        (10, 10),
        Direction::East,
        vec![(2, 0), (1, 0), (0, 0)],
        vec![],
    )
    .unwrap();
    let outcome = state.apply_move(Direction::South, &vec![]);
    assert_eq!(outcome, Outcome::Tick(3));
    assert_eq!(state.body(), &vec![(2, 1), (2, 0), (1, 0)]);
    assert_eq!(state.direction(), Direction::South);
}

#[test]
fn eating_grows_the_snake_and_places_the_new_food() {
    let mut state = State::with_layout(
        (10, 10),
        Direction::North,
        vec![(0, 0)],
        vec![(1, 0), (5, 5)],
    )
    .unwrap();
    assert!(state.would_eat(Direction::East));
    let outcome = state.apply_move(Direction::East, &vec![(7, 7), (8, 8)]);
    assert_eq!(outcome, Outcome::Tick(2));
    assert_eq!(state.body(), &vec![(1, 0), (0, 0)]);
    assert_eq!(sorted(state.food()), vec![(5, 5), (7, 7), (8, 8)]);
    assert_eq!(state.direction(), Direction::East);
}

#[test]
fn new_food_may_fall_on_the_snake_and_on_food() {
    let mut state = State::with_layout(
        (10, 10),
        Direction::East,
        vec![(0, 0)],
        vec![(1, 0), (5, 5)],
    )
    .unwrap();
    let outcome = state.apply_move(Direction::East, &vec![(5, 5), (1, 0), (1, 0)]);
    assert_eq!(outcome, Outcome::Tick(2));
    assert_eq!(sorted(state.food()), vec![(1, 0), (5, 5)]);
}

#[test]
fn running_into_the_body_loses_and_changes_no_cell() {
    let body = vec![(1, 1), (2, 1), (2, 0), (1, 0), (0, 0)];
    let mut state =
        State::with_layout((10, 10), Direction::West, body.clone(), vec![(5, 5)]).unwrap();
    assert!(state.would_lose(Direction::North));
    let outcome = state.apply_move(Direction::North, &vec![(3, 3)]);
    assert_eq!(outcome, Outcome::Lost);
    assert_eq!(state.body(), &body);
    assert_eq!(state.food(), &vec![(5, 5)]);
    assert_eq!(state.direction(), Direction::North);
}

#[test]
fn entering_the_cell_that_the_tail_leaves_is_safe() {
    let mut state = State::with_layout(
        (10, 10),
        Direction::North,
        vec![(0, 0), (1, 0), (1, 1), (0, 1)],
        vec![],
    )
    .unwrap();
    assert!(!state.would_lose(Direction::South));
    let outcome = state.apply_move(Direction::South, &vec![]);
    assert_eq!(outcome, Outcome::Tick(4));
    assert_eq!(state.body(), &vec![(0, 1), (0, 0), (1, 0), (1, 1)]);
}

#[test]
fn entering_the_tail_cell_loses_when_the_move_eats() {
    let body = vec![(0, 0), (1, 0), (1, 1), (0, 1)];
    let mut state =
        State::with_layout((10, 10), Direction::North, body.clone(), vec![(0, 1)]).unwrap();
    assert!(state.would_eat(Direction::South));
    assert!(state.would_lose(Direction::South));
    let outcome = state.apply_move(Direction::South, &vec![(4, 4)]);
    assert_eq!(outcome, Outcome::Lost);
    assert_eq!(state.body(), &body);
    assert_eq!(state.food(), &vec![(0, 1)]);
}

#[test]
fn turning_back_loses_for_a_snake_of_three() {
    let mut state = State::with_layout(
        (10, 10),
        Direction::East,
        vec![(2, 0), (1, 0), (0, 0)],
        vec![],
    )
    .unwrap();
    assert_eq!(state.advance(Direction::West), Outcome::Lost);
}

#[test]
fn turning_back_is_safe_for_a_snake_of_two() {
    let mut state =
        State::with_layout((10, 10), Direction::East, vec![(1, 0), (0, 0)], vec![]).unwrap();
    assert_eq!(state.advance(Direction::West), Outcome::Tick(2));
    assert_eq!(state.body(), &vec![(0, 0), (1, 0)]);
}

#[test]
fn advance_that_eats_grows_by_one_and_spawns_one_to_three() {
    for _ in 0..40 {
        let mut state = State::with_layout(
            (50, 50),
            Direction::East,
            vec![(3, 3), (2, 3)],
            vec![(4, 3)],
        )
        .unwrap();
        let outcome = state.advance(Direction::East);
        assert_eq!(outcome, Outcome::Tick(3));
        assert_eq!(state.body(), &vec![(4, 3), (3, 3), (2, 3)]);
        let food = state.food();
        assert!(1 <= food.len() && food.len() <= 3);
        for cell in food {
            assert!(cell.0 < 50 && cell.1 < 50);
        }
    }
}

#[test]
fn advance_that_does_not_eat_keeps_length_and_food() {
    let mut state = State::with_layout(
        (50, 50),
        Direction::East,
        vec![(3, 3), (2, 3)],
        vec![(9, 9)],
    )
    .unwrap();
    let outcome = state.advance(Direction::North);
    assert_eq!(outcome, Outcome::Tick(2));
    assert_eq!(state.body(), &vec![(3, 2), (3, 3)]);
    assert_eq!(state.food(), &vec![(9, 9)]);
    assert_eq!(state.direction(), Direction::North);
}

#[test]
fn advance_wraps_at_the_edge() {
    let mut state =
        State::with_layout((10, 10), Direction::East, vec![(9, 0)], vec![]).unwrap();
    assert_eq!(state.advance(Direction::East), Outcome::Tick(1));
    assert_eq!(state.body(), &vec![(0, 0)]);
    assert_eq!(state.advance(Direction::North), Outcome::Tick(1));
    assert_eq!(state.body(), &vec![(0, 9)]);
}
