//! The player: one decision and one move per tick.

use crate::cells::all_in_bounds;
use crate::clock::deadline_after;
use crate::frontier::{lemma_lost_root, search_rank, LOSS_PENALTY, MAX_DEPTH};
use crate::game::{outcome_of, Game, Outcome, State};
use crate::grid::{Cell, Direction};
use crate::search::SearchState;
use crate::snapshot::Snapshot;
use vstd::prelude::*;

verus! {

/// The move with the lowest rank. Among moves of equal rank the one that
/// comes first in the order North, East, West, South wins.
pub open spec fn best_of(north: int, east: int, west: int, south: int) -> Direction {
    if north <= east && north <= west && north <= south {
        Direction::North
    } else if east <= west && east <= south {
        Direction::East
    } else if west <= south {
        Direction::West
    } else {
        Direction::South
    }
}

/// The rank of the move in `direction` from a position of the game, for a
/// search that looks `bound` moves further and may look at `budget`
/// positions before its deadline.
pub open spec fn move_rank(game: Game, direction: Direction, bound: nat, budget: nat) -> int {
    search_rank(Snapshot::of(game).step(direction), direction, bound, budget)
}

/// The move that is chosen in a position when the searches for North,
/// East, West and South get the budgets `north`, `east`, `west` and
/// `south`.
pub open spec fn best_move(
    game: Game,
    bound: nat,
    north: nat,
    east: nat,
    west: nat,
    south: nat,
) -> Direction {
    best_of(
        move_rank(game, Direction::North, bound, north),
        move_rank(game, Direction::East, bound, east),
        move_rank(game, Direction::West, bound, west),
        move_rank(game, Direction::South, bound, south),
    )
}

/// A move that the player may choose in a position: the best move for some
/// budgets of the four searches.
pub open spec fn may_choose(game: Game, direction: Direction) -> bool {
    exists|north: nat, east: nat, west: nat, south: nat|
        direction == #[trigger] best_move(game, MAX_DEPTH as nat, north, east, west, south)
}

/// The rank that belongs to a move among four ranks.
pub open spec fn rank_of(
    direction: Direction,
    north: int,
    east: int,
    west: int,
    south: int,
) -> int {
    match direction {
        Direction::North => north,
        Direction::East => east,
        Direction::West => west,
        Direction::South => south,
    }
}

/// The chosen move has a rank that no other move undercuts.
pub proof fn lemma_best_of_is_least(north: int, east: int, west: int, south: int)
    ensures
        ({
            let least = rank_of(best_of(north, east, west, south), north, east, west, south);
            least <= north && least <= east && least <= west && least <= south
        }),
{
}

/// Picks the move with the lowest rank; the earlier one in the order
/// North, East, West, South where ranks are equal.
pub fn select(north: i128, east: i128, west: i128, south: i128) -> (r: Direction)
    ensures
        r == best_of(north as int, east as int, west as int, south as int),
{
    if north <= east && north <= west && north <= south {
        Direction::North
    } else if east <= west && east <= south {
        Direction::East
    } else if west <= south {
        Direction::West
    } else {
        Direction::South
    }
}

impl State {
    /// Chooses the next move. Each of the four moves is tried on a snapshot
    /// and ranked by a search of `MAX_DEPTH` moves. The four searches share
    /// one deadline, a thousand milliseconds divided by the length of the
    /// snake from now. How far each search gets before the deadline depends
    /// on the clock; the choice is the best move for the four budgets that
    /// the clock allowed.
    pub fn choose_next_action(&self) -> (r: Direction)
        requires
            self.wf(),
        ensures
            may_choose(self@, r),
    {
        let fps = self.length() as u64;
        let time_bound = deadline_after(1000u64 / fps);
        let search_state = SearchState::new(self);
        let north_state = search_state.step(Direction::North);
        let east_state = search_state.step(Direction::East);
        let west_state = search_state.step(Direction::West);
        let south_state = search_state.step(Direction::South);
        let north = north_state.rank(Direction::North, time_bound, MAX_DEPTH);
        let east = east_state.rank(Direction::East, time_bound, MAX_DEPTH);
        let west = west_state.rank(Direction::West, time_bound, MAX_DEPTH);
        let south = south_state.rank(Direction::South, time_bound, MAX_DEPTH);
        proof {
            let bound = MAX_DEPTH as nat;
            let n = choose|n: nat| north == search_rank(north_state@, Direction::North, bound, n);
            let e = choose|e: nat| east == search_rank(east_state@, Direction::East, bound, e);
            let w = choose|w: nat| west == search_rank(west_state@, Direction::West, bound, w);
            let s = choose|s: nat| south == search_rank(south_state@, Direction::South, bound, s);
            assert(best_of(north as int, east as int, west as int, south as int) == best_move(
                self@,
                bound,
                n,
                e,
                w,
                s,
            ));
        }
        select(north, east, west, south)
    }

    /// Chooses the next move as `choose_next_action` does, with a count in
    /// place of the clock: each of the four searches may look at `budget`
    /// positions before its deadline falls.
    pub fn choose_within(&self, budget: usize) -> (r: Direction)
        requires
            self.wf(),
        ensures
            r == best_move(
                self@,
                MAX_DEPTH as nat,
                budget as nat,
                budget as nat,
                budget as nat,
                budget as nat,
            ),
    {
        let search_state = SearchState::new(self);
        let north = search_state.step(Direction::North).rank_within(
            Direction::North,
            budget,
            MAX_DEPTH,
        );
        let east = search_state.step(Direction::East).rank_within(
            Direction::East,
            budget,
            MAX_DEPTH,
        );
        let west = search_state.step(Direction::West).rank_within(
            Direction::West,
            budget,
            MAX_DEPTH,
        );
        let south = search_state.step(Direction::South).rank_within(
            Direction::South,
            budget,
            MAX_DEPTH,
        );
        select(north, east, west, south)
    }

    /// Plays one tick: chooses a move and makes it. The argument is a move
    /// that someone else proposes; the player decides alone and does not
    /// look at it.
    ///
    /// The answer says whether the game is lost and, if it is not, the new
    /// length of the snake, which is the rate to tick at from now on.
    pub fn step(&mut self, _direction: Option<Direction>) -> (outcome: Outcome)
        requires
            old(self).wf(),
        ensures
            final(self).wf(),
            exists|direction: Direction, spawned: Seq<Cell>|
                {
                    &&& may_choose(old(self)@, direction)
                    &&& all_in_bounds(old(self)@.size, spawned)
                    &&& final(self)@ == #[trigger] old(self)@.after(direction, spawned)
                    &&& outcome == outcome_of(old(self)@, direction)
                },
    {
        let direction = self.choose_next_action();
        self.advance(direction)
    }
}

/// A snapshot makes the moves of the game: a move loses in the one exactly
/// when it loses in the other, it eats in the one exactly when it eats in
/// the other, and where it does not lose it leaves the same snake.
pub proof fn lemma_snapshot_mirrors_game(game: Game, direction: Direction, spawned: Seq<Cell>)
    requires
        game.valid(),
    ensures
        Snapshot::of(game).step(direction).is_loss() == game.blocked(direction),
        Snapshot::of(game).step(direction).ate == game.eats(direction),
        !game.blocked(direction) ==> Snapshot::of(game).step(direction).snake == game.after(
            direction,
            spawned,
        ).snake,
        !game.blocked(direction) && !game.eats(direction) ==> Snapshot::of(game).step(
            direction,
        ).food == game.after(direction, spawned).food,
{
    let next = Snapshot::of(game).step(direction);
    assert(next.snake.drop_first() =~= game.staying(direction));
}

/// A move that loses the game has the rank of a loss, whatever the depth
/// limit and the deadline.
pub proof fn lemma_blocked_move_ranks_loss(
    game: Game,
    direction: Direction,
    bound: nat,
    budget: nat,
)
    requires
        game.valid(),
        game.blocked(direction),
    ensures
        move_rank(game, direction, bound, budget) == LOSS_PENALTY,
{
    lemma_snapshot_mirrors_game(game, direction, Seq::empty());
    lemma_lost_root(Snapshot::of(game).step(direction), direction, bound, budget);
}

/// Where every move loses, all four ranks are the rank of a loss and the
/// choice falls on North.
pub proof fn lemma_doomed_chooses_north(
    game: Game,
    bound: nat,
    north: nat,
    east: nat,
    west: nat,
    south: nat,
)
    requires
        game.valid(),
        game.blocked(Direction::North),
        game.blocked(Direction::East),
        game.blocked(Direction::West),
        game.blocked(Direction::South),
    ensures
        best_move(game, bound, north, east, west, south) == Direction::North,
{
    lemma_blocked_move_ranks_loss(game, Direction::North, bound, north);
    lemma_blocked_move_ranks_loss(game, Direction::East, bound, east);
    lemma_blocked_move_ranks_loss(game, Direction::West, bound, west);
    lemma_blocked_move_ranks_loss(game, Direction::South, bound, south);
}

/// A snake of more than two cells that turns back onto the cell behind its
/// head loses: that move always has the rank of a loss.
pub proof fn lemma_move_onto_neck_loses(game: Game, direction: Direction, bound: nat, budget: nat)
    requires
        game.valid(),
        game.snake.len() > 2,
        game.next_head(direction) == game.snake[1],
    ensures
        game.blocked(direction),
        move_rank(game, direction, bound, budget) == LOSS_PENALTY,
{
    assert(game.staying(direction)[1] == game.snake[1]);
    lemma_blocked_move_ranks_loss(game, direction, bound, budget);
}

} // verus!
