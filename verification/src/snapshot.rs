//! The position that a search explores, and its score.
//!
//! A snapshot is a position of the game taken apart from the game itself:
//! the search moves the snake in it without touching the game that is being
//! played. No food falls during a search.

use crate::cells::all_in_bounds;
use crate::game::Game;
use crate::grid::{in_bounds, moved, torus_distance, valid_size, Cell, Direction};
use vstd::prelude::*;

verus! {

/// Added to the score of a position in which the head has company nearby.
pub const DEAD_END_PENALTY: i128 = 10_000;

/// Taken off the score of a move that keeps the direction of travel.
pub const CONTINUATION_BONUS: i128 = 1;

/// A part of the snake is close to the head when its distance is below
/// this.
pub const CLOSE_RANGE: usize = 5;

/// What a snapshot is, apart from how it is stored.
pub struct Snapshot {
    /// Width and height of the grid.
    pub size: (usize, usize),
    /// The move that the game itself made last.
    pub facing: Direction,
    /// The cells of the snake, head first.
    pub snake: Seq<Cell>,
    /// The cells that hold food.
    pub food: Set<Cell>,
    /// Whether the move that led here landed on food.
    pub ate: bool,
}

impl Snapshot {
    /// The snapshot of a position of the game: the same snake and food,
    /// and nothing eaten yet.
    pub open spec fn of(game: Game) -> Snapshot {
        Snapshot {
            size: game.size,
            facing: game.facing,
            snake: game.snake,
            food: game.food,
            ate: false,
        }
    }

    /// The grid has positive sides, the snake has a head, and snake and
    /// food lie on the grid.
    pub open spec fn valid(self) -> bool {
        &&& valid_size(self.size)
        &&& self.snake.len() >= 1
        &&& all_in_bounds(self.size, self.snake)
        &&& forall|c: Cell| self.food.contains(c) ==> in_bounds(self.size, c)
    }

    /// The cell that the head enters when the snake moves in `direction`.
    pub open spec fn next_head(self, direction: Direction) -> Cell {
        moved(self.size, self.snake[0], direction)
    }

    /// The snapshot after one move. The head enters the next cell; where
    /// food lies there it is eaten and the snake grows, otherwise the tail
    /// follows.
    pub open spec fn step(self, direction: Direction) -> Snapshot {
        let next = self.next_head(direction);
        if self.food.contains(next) {
            Snapshot {
                snake: seq![next] + self.snake,
                food: self.food.remove(next),
                ate: true,
                ..self
            }
        } else {
            Snapshot { snake: seq![next] + self.snake.drop_last(), ate: false, ..self }
        }
    }

    /// The head lies on another cell of the snake.
    pub open spec fn is_loss(self) -> bool {
        self.snake.drop_first().contains(self.snake[0])
    }

    /// The distance from the head to the `i`-th cell of the snake.
    pub open spec fn reach(self, i: int) -> int {
        torus_distance(self.size, self.snake[0], self.snake[i])
    }

    /// `d` is the distance from the head to the nearest food.
    pub open spec fn is_least_food_distance(self, d: int) -> bool {
        &&& exists|c: Cell|
            self.food.contains(c) && torus_distance(self.size, self.snake[0], c) == d
        &&& forall|c: Cell|
            self.food.contains(c) ==> d <= torus_distance(self.size, self.snake[0], c)
    }

    /// The distance from the head to the nearest food; zero where there is
    /// no food.
    pub open spec fn food_rank(self) -> int {
        if exists|d: int| self.is_least_food_distance(d) {
            choose|d: int| self.is_least_food_distance(d)
        } else {
            0
        }
    }

    /// The sum of the distances from the head to the first `count` cells
    /// of the snake.
    pub open spec fn reach_sum(self, count: nat) -> int
        decreases count,
    {
        if count == 0 {
            0
        } else {
            self.reach_sum((count - 1) as nat) + self.reach(count - 1)
        }
    }

    /// How many of the first `count` cells of the snake are close to the
    /// head.
    pub open spec fn close_count(self, count: nat) -> int
        decreases count,
    {
        if count == 0 {
            0
        } else {
            self.close_count((count - 1) as nat) + if self.reach(count - 1) < CLOSE_RANGE {
                1int
            } else {
                0int
            }
        }
    }

    /// The sum of the distances from the head to every cell of the snake
    /// but the tail, which is about to move away.
    pub open spec fn body_rank(self) -> int {
        self.reach_sum((self.snake.len() - 1) as nat)
    }

    /// More than one cell of the snake, the tail aside, is close to the
    /// head. The head itself is one of them wherever the snake is longer
    /// than one cell.
    pub open spec fn is_dead_end(self) -> bool {
        self.close_count((self.snake.len() - 1) as nat) > 1
    }

    /// How bad the position is for a search that began with the move
    /// `first`; lower is better. Food nearby and a body far from the head
    /// are good, a crowded head is very bad, and keeping the direction of
    /// travel counts for a little.
    pub open spec fn quick_rank(self, first: Direction) -> int {
        self.food_rank() - (if first == self.facing {
            CONTINUATION_BONUS as int
        } else {
            0
        }) - self.body_rank() / (self.snake.len() as int) + (if self.is_dead_end() {
            DEAD_END_PENALTY as int
        } else {
            0
        })
    }
}

/// A move leads from a valid snapshot to a valid one.
pub proof fn lemma_step_valid(snapshot: Snapshot, direction: Direction)
    requires
        snapshot.valid(),
    ensures
        snapshot.step(direction).valid(),
        snapshot.step(direction).size == snapshot.size,
        snapshot.step(direction).facing == snapshot.facing,
{
    let later = snapshot.step(direction);
    assert forall|i: int| 0 <= i < later.snake.len() implies in_bounds(
        snapshot.size,
        #[trigger] later.snake[i],
    ) by {
        if i > 0 {
            assert(later.snake[i] == snapshot.snake[i - 1]);
        }
    }
}

/// The distance to the nearest food is the one value that is reached by
/// some food and undercut by none.
pub proof fn lemma_food_rank_is(snapshot: Snapshot, d: int)
    requires
        snapshot.is_least_food_distance(d),
    ensures
        snapshot.food_rank() == d,
{
    let chosen = snapshot.food_rank();
    assert(snapshot.is_least_food_distance(chosen));
}

/// The sum of distances and the count of close cells stay within what the
/// grid allows.
pub proof fn lemma_reach_bounds(snapshot: Snapshot, count: nat)
    requires
        snapshot.valid(),
        count <= snapshot.snake.len(),
    ensures
        0 <= snapshot.reach_sum(count) <= count * (snapshot.size.0 / 2 + snapshot.size.1 / 2),
        0 <= snapshot.close_count(count) <= count,
    decreases count,
{
    if count > 0 {
        lemma_reach_bounds(snapshot, (count - 1) as nat);
        crate::grid::lemma_distance_symmetric_and_bounded(
            snapshot.size,
            snapshot.snake[0],
            snapshot.snake[count - 1],
        );
        let side = snapshot.size.0 / 2 + snapshot.size.1 / 2;
        assert(count * side == (count - 1) * side + side) by (nonlinear_arith);
    }
}

/// The score of a position depends on nothing but the position and the
/// first move: equal snapshots get equal scores.
pub proof fn lemma_quick_rank_deterministic(a: Snapshot, b: Snapshot, first: Direction)
    requires
        a.size == b.size,
        a.facing == b.facing,
        a.snake =~= b.snake,
        a.food =~= b.food,
    ensures
        a.quick_rank(first) == b.quick_rank(first),
{
    assert(a.snake == b.snake);
    assert(a.food == b.food);
    assert forall|d: int| a.is_least_food_distance(d) == b.is_least_food_distance(d) by {}
    lemma_same_sums(a, b, (a.snake.len() - 1) as nat);
}

/// Snapshots with the same grid and snake have the same sums over the
/// snake.
proof fn lemma_same_sums(a: Snapshot, b: Snapshot, count: nat)
    requires
        a.size == b.size,
        a.snake == b.snake,
    ensures
        a.reach_sum(count) == b.reach_sum(count),
        a.close_count(count) == b.close_count(count),
    decreases count,
{
    if count > 0 {
        lemma_same_sums(a, b, (count - 1) as nat);
    }
}

} // verus!
