use snake_ai::clock::{deadline_after, expired};
use snake_ai::frontier::{EAT_BONUS, LOSS_PENALTY, MAX_DEPTH};
use snake_ai::game::{Outcome, State};
use snake_ai::grid::{distance, Direction};
use snake_ai::player::select;
use snake_ai::search::SearchState;
use std::time::Instant;

fn lone_snake() -> State {
    State::with_layout((10, 10), Direction::East, vec![(0, 0)], vec![(5, 5)]).unwrap()
}

fn doomed_snake() -> State {
    State::with_layout(
        (2, 3),
        Direction::East,
        vec![(0, 1), (1, 1), (1, 2), (0, 2), (0, 0), (1, 0)],
        vec![(1, 0)],
    )
    .unwrap()
}

#[test]
fn constants_have_their_values() {
    assert_eq!(MAX_DEPTH, 13);
    assert_eq!(LOSS_PENALTY, 100_000_000);
    assert_eq!(EAT_BONUS, 1_000);
}

#[test]
fn snapshot_starts_without_a_meal_or_a_loss() {
    let state = lone_snake();
    let snapshot = SearchState::new(&state);
    assert!(!snapshot.is_eat());
    assert!(!snapshot.is_loss());
}

#[test]
fn snapshot_step_leaves_the_game_alone() {
    let state = State::with_layout(
        (10, 10),
        Direction::East,
        vec![(0, 0), (9, 0)],
        vec![(1, 0)],
    )
    .unwrap();
    let snapshot = SearchState::new(&state);
    let next = snapshot.step(Direction::East);
    assert!(next.is_eat());
    assert!(!next.is_loss());
    assert!(!snapshot.is_eat());
    assert_eq!(state.body(), &vec![(0, 0), (9, 0)]);
    assert_eq!(state.food(), &vec![(1, 0)]);
}

#[test]
fn snapshot_step_that_does_not_eat() {
    let state = lone_snake();
    let next = SearchState::new(&state).step(Direction::South);
    assert!(!next.is_eat());
    assert!(!next.is_loss());
}

#[test]
fn snapshot_sees_a_loss() {
    let state = State::with_layout(
        (10, 10),
        Direction::West,
        vec![(1, 1), (2, 1), (2, 0), (1, 0), (0, 0)],
        vec![],
    )
    .unwrap();
    let snapshot = SearchState::new(&state);
    assert!(snapshot.step(Direction::North).is_loss());
    assert!(snapshot.step(Direction::East).is_loss());
    assert!(!snapshot.step(Direction::South).is_loss());
    assert!(!snapshot.step(Direction::West).is_loss());
}

#[test]
fn snapshot_may_enter_the_cell_that_the_tail_leaves() {
    let state = State::with_layout(
        (10, 10),
        Direction::North,
        vec![(0, 0), (1, 0), (1, 1), (0, 1)],
        vec![],
    )
    .unwrap();
    assert!(!SearchState::new(&state).step(Direction::South).is_loss());
}

#[test]
fn duplicate_scores_like_its_source() {
    let state = lone_snake();
    let snapshot = SearchState::new(&state).step(Direction::North);
    let copy = snapshot.duplicate();
    assert_eq!(copy.is_eat(), snapshot.is_eat());
    assert_eq!(copy.is_loss(), snapshot.is_loss());
    assert_eq!(copy.quick_rank(Direction::North), snapshot.quick_rank(Direction::North));
}

#[test]
fn quick_rank_of_a_lone_head_is_the_food_distance() {
    let state = lone_snake();
    let snapshot = SearchState::new(&state);
    assert_eq!(snapshot.quick_rank(Direction::East), 9);
    assert_eq!(snapshot.quick_rank(Direction::North), 10);
    assert_eq!(snapshot.quick_rank(Direction::West), 10);
    assert_eq!(snapshot.quick_rank(Direction::South), 10);
}

#[test]
fn quick_rank_without_food_counts_no_distance() {
    let state = State::with_layout((10, 10), Direction::East, vec![(3, 3)], vec![]).unwrap();
    let snapshot = SearchState::new(&state);
    assert_eq!(snapshot.quick_rank(Direction::East), -1);
    assert_eq!(snapshot.quick_rank(Direction::South), 0);
}

#[test]
fn quick_rank_punishes_a_crowded_head() {
    let state = State::with_layout(
        (10, 10),
        Direction::North,
        vec![(2, 2), (2, 3), (2, 4), (3, 4)],
        vec![(2, 0), (9, 9)],
    )
    .unwrap();
    let snapshot = SearchState::new(&state);
    assert_eq!(snapshot.quick_rank(Direction::North), 10_001);
    assert_eq!(snapshot.quick_rank(Direction::East), 10_002);
}

#[test]
fn quick_rank_rewards_a_body_far_from_the_head() {
    let state = State::with_layout(
        (100, 100),
        Direction::East,
        vec![(50, 50), (60, 50), (70, 50), (80, 50)],
        vec![(50, 40)],
    )
    .unwrap();
    let snapshot = SearchState::new(&state);
    assert_eq!(snapshot.quick_rank(Direction::West), 3);
    assert_eq!(snapshot.quick_rank(Direction::East), 2);
}

#[test]
fn quick_rank_does_not_count_the_tail() {
    let near = State::with_layout(
        (100, 100),
        Direction::East,
        vec![(50, 50), (90, 50), (51, 50)],
        vec![],
    )
    .unwrap();
    let far = State::with_layout(
        (100, 100),
        Direction::East,
        vec![(50, 50), (90, 50), (10, 90)],
        vec![],
    )
    .unwrap();
    let expected = -(40 / 3);
    assert_eq!(SearchState::new(&near).quick_rank(Direction::North), expected);
    assert_eq!(SearchState::new(&far).quick_rank(Direction::North), expected);
}

#[test]
fn quick_rank_is_the_same_every_time() {
    let state = State::with_layout(
        (12, 9),
        Direction::South,
        vec![(4, 4), (4, 3), (5, 3), (6, 3), (6, 4)],
        vec![(0, 0), (11, 8), (7, 7)],
    )
    .unwrap();
    let snapshot = SearchState::new(&state);
    for direction in [Direction::North, Direction::East, Direction::West, Direction::South] {
        let first = snapshot.quick_rank(direction);
        for _ in 0..10 {
            assert_eq!(snapshot.quick_rank(direction), first);
            assert_eq!(SearchState::new(&state).quick_rank(direction), first);
        }
    }
}

#[test]
fn rank_with_no_budget_is_the_estimate_for_the_root() {
    let state = lone_snake();
    let snapshot = SearchState::new(&state);
    assert_eq!(snapshot.step(Direction::North).rank_within(Direction::North, 0, MAX_DEPTH), 9);
    assert_eq!(snapshot.step(Direction::East).rank_within(Direction::East, 0, MAX_DEPTH), 8);
    assert_eq!(snapshot.step(Direction::West).rank_within(Direction::West, 0, MAX_DEPTH), 9);
    assert_eq!(snapshot.step(Direction::South).rank_within(Direction::South, 0, MAX_DEPTH), 9);
}

#[test]
fn rank_with_no_depth_is_the_estimate_for_the_root() {
    let state = lone_snake();
    let root = SearchState::new(&state).step(Direction::East);
    assert_eq!(root.rank_within(Direction::East, 1_000, 0), 8);
}

#[test]
fn rank_rewards_a_meal_at_the_root() {
    let state =
        State::with_layout((10, 10), Direction::East, vec![(0, 0)], vec![(1, 0)]).unwrap();
    let root = SearchState::new(&state).step(Direction::East);
    assert!(root.is_eat());
    assert_eq!(root.rank_within(Direction::East, 0, MAX_DEPTH), -1_001);
}

#[test]
fn rank_finds_a_meal_one_move_ahead() {
    let state =
        State::with_layout((10, 10), Direction::East, vec![(0, 0)], vec![(2, 0)]).unwrap();
    let root = SearchState::new(&state).step(Direction::East);
    assert_eq!(root.rank_within(Direction::East, 100, 0), 0);
    assert_eq!(root.rank_within(Direction::East, 100, 1), -1_001);
    assert_eq!(root.rank_within(Direction::East, 1, 1), -1_001);
    assert_eq!(root.rank_within(Direction::East, 0, 1), 0);
}

#[test]
fn rank_takes_the_best_leaf() {
    let state =
        State::with_layout((10, 10), Direction::North, vec![(0, 0)], vec![(5, 5)]).unwrap();
    let root = SearchState::new(&state).step(Direction::East);
    assert_eq!(root.rank_within(Direction::East, 1_000, 0), 9);
    assert_eq!(root.rank_within(Direction::East, 1_000, 1), 8);
    assert_eq!(root.rank_within(Direction::East, 1_000, 2), 7);
    assert_eq!(root.rank_within(Direction::East, 1_000, 3), 6);
}

#[test]
fn rank_is_cut_short_by_its_budget() {
    let state =
        State::with_layout((10, 10), Direction::North, vec![(0, 0)], vec![(5, 5)]).unwrap();
    let root = SearchState::new(&state).step(Direction::East);
    assert_eq!(root.rank_within(Direction::East, 0, 3), 9);
    assert_eq!(root.rank_within(Direction::East, 1, 3), 8);
    assert_eq!(root.rank_within(Direction::East, 2, 3), 7);
    assert_eq!(root.rank_within(Direction::East, 5, 3), 7);
    assert_eq!(root.rank_within(Direction::East, 6, 3), 6);
}

#[test]
fn rank_of_a_lost_root_is_the_loss_penalty() {
    let state = State::with_layout(
        (10, 10),
        Direction::East,
        vec![(2, 0), (1, 0), (0, 0)],
        vec![(5, 5)],
    )
    .unwrap();
    let root = SearchState::new(&state).step(Direction::West);
    assert!(root.is_loss());
    assert_eq!(root.rank_within(Direction::West, 0, MAX_DEPTH), LOSS_PENALTY);
    assert_eq!(root.rank_within(Direction::West, 5_000, 4), LOSS_PENALTY);
    assert_eq!(root.rank(Direction::West, deadline_after(50), MAX_DEPTH), LOSS_PENALTY);
}

#[test]
fn expired_deadline_falls_back_to_the_estimate() {
    let state = lone_snake();
    let snapshot = SearchState::new(&state);
    let deadline = Instant::now();
    assert!(expired(&deadline));
    assert_eq!(snapshot.step(Direction::North).rank(Direction::North, deadline, MAX_DEPTH), 9);
    assert_eq!(snapshot.step(Direction::East).rank(Direction::East, deadline, MAX_DEPTH), 8);
    assert_eq!(snapshot.step(Direction::West).rank(Direction::West, deadline, MAX_DEPTH), 9);
    assert_eq!(snapshot.step(Direction::South).rank(Direction::South, deadline, MAX_DEPTH), 9);
}

#[test]
fn deadline_in_the_future_has_not_expired() {
    let deadline = deadline_after(60_000);
    assert!(!expired(&deadline));
}

#[test]
fn unhurried_rank_by_the_clock_matches_the_count() {
    let state =
        State::with_layout((10, 10), Direction::North, vec![(0, 0)], vec![(5, 5)]).unwrap();
    let root = SearchState::new(&state).step(Direction::East);
    let by_clock = root.rank(Direction::East, deadline_after(60_000), 3);
    let by_count = root.rank_within(Direction::East, 1_000, 3);
    assert_eq!(by_clock, 6);
    assert_eq!(by_clock, by_count);
}

#[test]
fn lone_snake_heads_for_the_food() {
    let state = lone_snake();
    let before = distance((10, 10), (0, 0), (5, 5));
    assert_eq!(before, 10);
    let chosen = state.choose_within(20_000);
    assert_eq!(chosen, Direction::East);
    let next = State::next_loc(state.body(), chosen, (10, 10));
    assert!(distance((10, 10), next, (5, 5)) < before);
    assert!(!state.would_lose(chosen));
}

#[test]
fn lone_snake_heads_for_the_food_by_the_clock() {
    let state = lone_snake();
    let snapshot = SearchState::new(&state);
    let deadline = deadline_after(60);
    let north = snapshot.step(Direction::North).rank(Direction::North, deadline, MAX_DEPTH);
    let east = snapshot.step(Direction::East).rank(Direction::East, deadline, MAX_DEPTH);
    let west = snapshot.step(Direction::West).rank(Direction::West, deadline, MAX_DEPTH);
    let south = snapshot.step(Direction::South).rank(Direction::South, deadline, MAX_DEPTH);
    let chosen = select(north, east, west, south);
    let next = State::next_loc(state.body(), chosen, (10, 10));
    assert!(distance((10, 10), next, (5, 5)) < 10);
    assert!(!state.would_lose(chosen));
    for rank in [north, east, west, south] {
        assert!(rank < LOSS_PENALTY);
    }
}

#[test]
fn doomed_snake_ranks_every_move_as_a_loss() {
    let state = doomed_snake();
    let snapshot = SearchState::new(&state);
    for direction in [Direction::North, Direction::East, Direction::West, Direction::South] {
        assert!(state.would_lose(direction));
        let root = snapshot.step(direction);
        assert!(root.is_loss());
        assert_eq!(root.rank_within(direction, 10_000, MAX_DEPTH), LOSS_PENALTY);
        assert_eq!(root.rank(direction, deadline_after(100), MAX_DEPTH), LOSS_PENALTY);
    }
}

#[test]
fn doomed_snake_goes_north() {
    let state = doomed_snake();
    assert_eq!(state.choose_within(10_000), Direction::North);
    assert_eq!(state.choose_within(0), Direction::North);
    assert_eq!(state.choose_next_action(), Direction::North);
}

#[test]
fn doomed_snake_loses_the_tick() {
    let mut state = doomed_snake();
    let body = state.body().clone();
    assert_eq!(state.step(None), Outcome::Lost);
    assert_eq!(state.body(), &body);
    assert_eq!(state.direction(), Direction::North);
}

#[test]
fn select_takes_the_lowest_rank() {
    assert_eq!(select(1, 2, 3, 4), Direction::North);
    assert_eq!(select(2, 1, 3, 4), Direction::East);
    assert_eq!(select(3, 2, 1, 4), Direction::West);
    assert_eq!(select(4, 3, 2, 1), Direction::South);
    assert_eq!(select(-5, 3, -7, 1), Direction::West);
}

#[test]
fn select_breaks_ties_north_east_west_south() {
    assert_eq!(select(7, 7, 7, 7), Direction::North);
    assert_eq!(select(9, 7, 7, 7), Direction::East);
    assert_eq!(select(9, 9, 7, 7), Direction::West);
    assert_eq!(select(9, 9, 9, 7), Direction::South);
    assert_eq!(select(5, 9, 5, 9), Direction::North);
    assert_eq!(select(9, 5, 9, 5), Direction::East);
}

#[test]
fn count_in_place_of_the_clock_prefers_the_way_on() {
    let state = lone_snake();
    assert_eq!(state.choose_within(0), Direction::East);
}

#[test]
fn tick_moves_a_long_snake_without_losing() {
    let mut body = Vec::new();
    for x in 0..20usize {
        body.push((25 - x, 10));
    }
    let mut state =
        State::with_layout((40, 40), Direction::East, body, vec![(30, 10)]).unwrap();
    let outcome = state.step(Some(Direction::West));
    assert_eq!(outcome, Outcome::Tick(20));
    assert_eq!(state.length(), 20);
    assert_ne!(state.direction(), Direction::West);
    assert_eq!(state.body()[1], (25, 10));
}
