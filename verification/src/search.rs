//! Snapshots as they are stored, and the search over them.

use crate::cells::{copy_of, occurs, without};
use crate::clock::expired;
use crate::frontier::{
    children, frontier_rank, leaf_value, lemma_weight_children, lemma_weight_front, root_of,
    running_score, search_rank, total_weight, weight, Pending, EAT_BONUS, LOSS_PENALTY,
};
use crate::game::State;
use crate::grid::{distance, step_from, torus_distance, Cell, Direction};
use crate::snapshot::{
    lemma_food_rank_is, lemma_reach_bounds, lemma_step_valid, Snapshot, CLOSE_RANGE,
    CONTINUATION_BONUS, DEAD_END_PENALTY,
};
use std::collections::VecDeque;
use std::time::Instant;
use vstd::prelude::*;

verus! {

/// A position that a search may change at will. It holds its own copy of
/// snake and food, and looks up the grid and the direction of travel in the
/// game that it was taken from.
#[derive(Debug, Clone)]
pub struct SearchState<'s> {
    game: &'s State,
    search_snake: Vec<Cell>,
    search_food: Vec<Cell>,
    ate: bool,
}

impl<'s> View for SearchState<'s> {
    type V = Snapshot;

    closed spec fn view(&self) -> Snapshot {
        Snapshot {
            size: self.game@.size,
            facing: self.game@.facing,
            snake: self.search_snake@,
            food: self.search_food@.to_set(),
            ate: self.ate,
        }
    }
}

impl<'s> SearchState<'s> {
    /// No food cell is stored twice.
    pub closed spec fn compact(&self) -> bool {
        self.search_food@.no_duplicates()
    }

    /// The snapshot stands for a valid position.
    pub open spec fn wf(&self) -> bool {
        self.compact() && self@.valid()
    }

    /// The snapshot of a game: a copy of its snake and food, with nothing
    /// eaten yet.
    pub fn new(state: &'s State) -> (snapshot: SearchState<'s>)
        requires
            state.wf(),
        ensures
            snapshot.wf(),
            snapshot@ == Snapshot::of(state@),
    {
        SearchState {
            game: state,
            search_snake: copy_of(state.body()),
            search_food: copy_of(state.food()),
            ate: false,
        }
    }

    /// The snapshot after one move in `direction`. The receiver and the
    /// game stay as they are.
    pub fn step(&self, direction: Direction) -> (next: SearchState<'s>)
        requires
            self.wf(),
        ensures
            next.wf(),
            next@ == self@.step(direction),
    {
        let size = self.game.size();
        let head = step_from(size, self.search_snake[0], direction);
        let ate = occurs(&self.search_food, head);
        let kept: usize = if ate {
            self.search_snake.len()
        } else {
            self.search_snake.len() - 1
        };
        let mut snake: Vec<Cell> = Vec::new();
        snake.push(head);
        let mut i: usize = 0;
        while i < kept
            invariant
                i <= kept <= self.search_snake@.len(),
                snake@ == seq![head] + self.search_snake@.take(i as int),
            decreases kept - i,
        {
            snake.push(self.search_snake[i]);
            assert(snake@ =~= seq![head] + self.search_snake@.take(i + 1));
            i += 1;
        }
        let food = if ate {
            without(&self.search_food, head)
        } else {
            copy_of(&self.search_food)
        };
        proof {
            lemma_step_valid(self@, direction);
            if ate {
                assert(self.search_snake@.take(kept as int) =~= self.search_snake@);
            } else {
                assert(self.search_snake@.take(kept as int) =~= self.search_snake@.drop_last());
            }
        }
        SearchState { game: self.game, search_snake: snake, search_food: food, ate }
    }

    /// Whether the head lies on another cell of the snake.
    pub fn is_loss(&self) -> (r: bool)
        requires
            self.wf(),
        ensures
            r == self@.is_loss(),
    {
        let head = self.search_snake[0];
        let ghost others = self.search_snake@.drop_first();
        let mut i: usize = 1;
        while i < self.search_snake.len()
            invariant
                1 <= i <= self.search_snake@.len(),
                head == self.search_snake@[0],
                others == self.search_snake@.drop_first(),
                forall|j: int| 0 <= j < i - 1 ==> others[j] != head,
            decreases self.search_snake@.len() - i,
        {
            let cell = self.search_snake[i];
            if cell.0 == head.0 && cell.1 == head.1 {
                assert(others[i - 1] == head);
                return true;
            }
            i += 1;
        }
        false
    }

    /// Whether the move that led here landed on food.
    pub fn is_eat(&self) -> (r: bool)
        ensures
            r == self@.ate,
    {
        self.ate
    }

    /// The distance from the head to the nearest food; zero where there is
    /// no food.
    fn food_rank(&self) -> (r: usize)
        requires
            self.wf(),
        ensures
            r == self@.food_rank(),
    {
        let size = self.game.size();
        let head = self.search_snake[0];
        let ghost view = self@;
        let mut best: usize = 0;
        let mut i: usize = 0;
        while i < self.search_food.len()
            invariant
                i <= self.search_food@.len(),
                self.wf(),
                view == self@,
                size == view.size,
                head == view.snake[0],
                i == 0 ==> best == 0,
                i > 0 ==> exists|j: int|
                    0 <= j < i && torus_distance_to(view, #[trigger] self.search_food@[j]) == best,
                forall|j: int|
                    0 <= j < i ==> best <= torus_distance_to(view, #[trigger] self.search_food@[j]),
            decreases self.search_food@.len() - i,
        {
            let cell = self.search_food[i];
            assert(self.search_food@.contains(cell));
            let d = distance(size, head, cell);
            if i == 0 || d < best {
                best = d;
            }
            i += 1;
        }
        proof {
            if self.search_food@.len() == 0 {
                assert(view.food =~= Set::<Cell>::empty());
            } else {
                let j = choose|j: int|
                    0 <= j < i && torus_distance_to(view, #[trigger] self.search_food@[j]) == best;
                assert(view.food.contains(self.search_food@[j]));
                assert forall|c: Cell| view.food.contains(c) implies best
                    <= torus_distance(view.size, view.snake[0], c) by {
                    let k = self.search_food@.index_of(c);
                    assert(best <= torus_distance_to(view, self.search_food@[k]));
                }
                lemma_food_rank_is(view, best as int);
            }
        }
        best
    }

    /// How bad the position is for a search that began with the move
    /// `direction`; lower is better.
    ///
    /// The score is the distance to the nearest food, less one where
    /// `direction` is the direction of travel of the game, less the average
    /// distance from the head to the snake without its tail, plus a penalty
    /// where the head is crowded.
    pub fn quick_rank(&self, direction: Direction) -> (r: i128)
        requires
            self.wf(),
        ensures
            r == self@.quick_rank(direction),
            -1 - usize::MAX <= r <= usize::MAX + DEAD_END_PENALTY,
    {
        let size = self.game.size();
        let head = self.search_snake[0];
        let food_rank = self.food_rank();
        let body_size = self.search_snake.len();
        let ghost view = self@;
        let mut body_rank: u128 = 0;
        let mut close: usize = 0;
        let mut i: usize = 0;
        while i < body_size - 1
            invariant
                i <= body_size - 1,
                body_size == self.search_snake@.len(),
                self.wf(),
                view == self@,
                size == view.size,
                head == view.snake[0],
                body_rank == view.reach_sum(i as nat),
                close == view.close_count(i as nat),
            decreases body_size - 1 - i,
        {
            proof {
                lemma_reach_bounds(view, i as nat);
                lemma_reach_bounds(view, (i + 1) as nat);
                lemma_product_fits((i + 1) as int, size.0 / 2 + size.1 / 2);
            }
            let d = distance(size, head, self.search_snake[i]);
            body_rank = body_rank + d as u128;
            if d < CLOSE_RANGE {
                close = close + 1;
            }
            i += 1;
        }
        let bonus: i128 = if direction == self.game.direction() {
            CONTINUATION_BONUS
        } else {
            0
        };
        let penalty: i128 = if close > 1 {
            DEAD_END_PENALTY
        } else {
            0
        };
        proof {
            lemma_reach_bounds(view, (body_size - 1) as nat);
            lemma_average_fits(
                body_rank as int,
                body_size as int,
                size.0 / 2 + size.1 / 2,
            );
        }
        let average: u128 = body_rank / (body_size as u128);
        food_rank as i128 - bonus - average as i128 + penalty
    }
}

/// A snapshot that waits in the queue of a search, with the score of the
/// path that led to its parent and its depth.
struct Entry<'s> {
    state: SearchState<'s>,
    score: i128,
    depth: usize,
}

impl<'s> Entry<'s> {
    /// The waiting position that the entry stands for.
    spec fn model(&self) -> Pending {
        Pending { snapshot: self.state@, score: self.score as int, depth: self.depth as nat }
    }

    /// The entry holds a valid snapshot within the depth limit, and its
    /// score is what at most one meal per move can have earned.
    spec fn fits(&self, bound: usize) -> bool {
        &&& self.state.wf()
        &&& self.depth <= bound
        &&& -EAT_BONUS * self.depth <= self.score <= 0
    }
}

/// The waiting positions that a queue of entries stands for.
spec fn models(queue: Seq<Entry>) -> Seq<Pending> {
    queue.map_values(|entry: Entry| entry.model())
}

impl<'s> SearchState<'s> {
    /// A copy of the snapshot.
    pub fn duplicate(&self) -> (copy: SearchState<'s>)
        ensures
            copy@ == self@,
            copy.wf() == self.wf(),
    {
        SearchState {
            game: self.game,
            search_snake: copy_of(&self.search_snake),
            search_food: copy_of(&self.search_food),
            ate: self.ate,
        }
    }

    /// Ranks the position for a search that began with the move
    /// `direction`; lower is better.
    ///
    /// The search walks the tree of moves from here breadth first, down to
    /// `depth_bound` moves, and stops expanding once the clock has reached
    /// `time_bound`. From then on every position still waiting is scored as
    /// it stands. The answer is what a search returns that looked at some
    /// number of positions before the deadline fell; the number depends on
    /// the clock alone.
    pub fn rank(&self, direction: Direction, time_bound: Instant, depth_bound: usize) -> (r: i128)
        requires
            self.wf(),
        ensures
            exists|looked: nat| r == search_rank(self@, direction, depth_bound as nat, looked),
    {
        self.explore(direction, Some(&time_bound), usize::MAX, depth_bound)
    }

    /// Ranks the position as `rank` does, with a count in place of the
    /// clock: the deadline falls once `budget` positions have been looked
    /// at.
    pub fn rank_within(&self, direction: Direction, budget: usize, depth_bound: usize) -> (r: i128)
        requires
            self.wf(),
        ensures
            r == search_rank(self@, direction, depth_bound as nat, budget as nat),
    {
        self.explore(direction, None, budget, depth_bound)
    }

    /// The search behind `rank` and `rank_within`. The deadline falls when
    /// the clock reaches `time_bound`, where one is given, and at the latest
    /// once `budget` positions have been looked at.
    fn explore(
        &self,
        direction: Direction,
        time_bound: Option<&Instant>,
        budget: usize,
        depth_bound: usize,
    ) -> (r: i128)
        requires
            self.wf(),
        ensures
            exists|looked: nat|
                looked <= budget && r == search_rank(
                    self@,
                    direction,
                    depth_bound as nat,
                    looked,
                ),
            time_bound.is_none() ==> r == search_rank(
                self@,
                direction,
                depth_bound as nat,
                budget as nat,
            ),
    {
        let ghost root = self@;
        let ghost bound = depth_bound as nat;
        let mut min_rank: i128 = LOSS_PENALTY;
        let mut queue: VecDeque<Entry<'s>> = VecDeque::new();
        queue.push_back(Entry { state: self.duplicate(), score: 0, depth: 0 });
        let mut left: usize = budget;
        let mut timed_out = false;
        assert(models(queue@) =~= seq![root_of(root)]);
        while queue.len() > 0
            invariant
                forall|i: int| 0 <= i < queue@.len() ==> (#[trigger] queue@[i]).fits(depth_bound),
                left <= budget,
                bound == depth_bound,
                !timed_out ==> forall|extra: nat|
                    #[trigger] frontier_rank(models(queue@), min_rank as int, direction, bound, extra)
                        == search_rank(root, direction, bound, (budget - left + extra) as nat),
                timed_out ==> frontier_rank(models(queue@), min_rank as int, direction, bound, 0)
                    == search_rank(root, direction, bound, (budget - left) as nat),
                timed_out && time_bound.is_none() ==> left == 0,
            decreases total_weight(models(queue@), bound),
        {
            let ghost waiting = models(queue@);
            let ghost best = min_rank as int;
            let ghost looked = (budget - left) as nat;
            let ghost was_timed_out = timed_out;
            let popped = queue.pop_front();
            proof {
                assert(waiting.drop_first() =~= models(queue@));
                lemma_weight_front(waiting, bound);
                lemma_weight_positive(waiting[0], bound);
            }
            match popped {
                None => {
                    assert(false);
                },
                Some(entry) => {
                    let ghost node = entry.model();
                    assert(node == waiting[0]);
                    assert(entry.fits(depth_bound));
                    if entry.state.is_loss() {
                        assert(!timed_out ==> forall|extra: nat|
                            #[trigger] frontier_rank(
                                models(queue@),
                                min_rank as int,
                                direction,
                                bound,
                                extra,
                            ) == frontier_rank(waiting, best, direction, bound, extra));
                    } else {
                        let score: i128 = if entry.state.is_eat() {
                            entry.score - EAT_BONUS
                        } else {
                            entry.score
                        };
                        assert(score == running_score(node));
                        if !timed_out {
                            if left == 0 {
                                timed_out = true;
                            } else {
                                match time_bound {
                                    Some(deadline) => {
                                        if expired(deadline) {
                                            timed_out = true;
                                        }
                                    },
                                    None => {},
                                }
                            }
                        }
                        if timed_out {
                            let value = score + entry.state.quick_rank(direction);
                            assert(value == leaf_value(node, direction));
                            if value < min_rank {
                                min_rank = value;
                            }
                            proof {
                                if !was_timed_out {
                                    assert(frontier_rank(waiting, best, direction, bound, 0)
                                        == search_rank(root, direction, bound, (looked + 0) as nat));
                                }
                            }
                        } else if entry.depth >= depth_bound {
                            let value = score + entry.state.quick_rank(direction);
                            assert(value == leaf_value(node, direction));
                            if value < min_rank {
                                min_rank = value;
                            }
                            left = left - 1;
                            proof {
                                assert forall|extra: nat|
                                    #[trigger] frontier_rank(
                                        models(queue@),
                                        min_rank as int,
                                        direction,
                                        bound,
                                        extra,
                                    ) == search_rank(
                                        root,
                                        direction,
                                        bound,
                                        (budget - left + extra) as nat,
                                    ) by {
                                    assert(frontier_rank(
                                        waiting,
                                        best,
                                        direction,
                                        bound,
                                        extra + 1,
                                    ) == search_rank(
                                        root,
                                        direction,
                                        bound,
                                        (looked + (extra + 1)) as nat,
                                    ));
                                }
                            }
                        } else {
                            let ghost rest = models(queue@);
                            let depth = entry.depth + 1;
                            let north = entry.state.step(Direction::North);
                            let east = entry.state.step(Direction::East);
                            let west = entry.state.step(Direction::West);
                            let south = entry.state.step(Direction::South);
                            queue.push_back(Entry { state: north, score, depth });
                            queue.push_back(Entry { state: east, score, depth });
                            queue.push_back(Entry { state: west, score, depth });
                            queue.push_back(Entry { state: south, score, depth });
                            left = left - 1;
                            proof {
                                assert(models(queue@) =~= rest + children(node));
                                lemma_weight_children(rest, node, bound);
                                assert forall|extra: nat|
                                    #[trigger] frontier_rank(
                                        models(queue@),
                                        min_rank as int,
                                        direction,
                                        bound,
                                        extra,
                                    ) == search_rank(
                                        root,
                                        direction,
                                        bound,
                                        (budget - left + extra) as nat,
                                    ) by {
                                    assert(frontier_rank(
                                        waiting,
                                        best,
                                        direction,
                                        bound,
                                        extra + 1,
                                    ) == search_rank(
                                        root,
                                        direction,
                                        bound,
                                        (looked + (extra + 1)) as nat,
                                    ));
                                }
                            }
                        }
                    }
                },
            }
        }
        proof {
            assert(models(queue@).len() == 0);
            if !timed_out {
                assert(frontier_rank(models(queue@), min_rank as int, direction, bound, 0)
                    == search_rank(root, direction, bound, (budget - left + 0) as nat));
                assert(frontier_rank(
                    models(queue@),
                    min_rank as int,
                    direction,
                    bound,
                    left as nat,
                ) == search_rank(root, direction, bound, (budget - left + left) as nat));
            }
            assert(min_rank == search_rank(root, direction, bound, (budget - left) as nat));
        }
        min_rank
    }
}

/// Every waiting position weighs at least one.
proof fn lemma_weight_positive(node: Pending, bound: nat)
    ensures
        weight(node, bound) >= 1,
{
}

/// The distance from the head of a snapshot to a cell.
pub open spec fn torus_distance_to(snapshot: Snapshot, cell: Cell) -> int {
    torus_distance(snapshot.size, snapshot.snake[0], cell)
}

/// A sum of at most `usize::MAX` distances fits in 128 bits.
proof fn lemma_product_fits(count: int, side: int)
    requires
        0 <= count <= usize::MAX,
        0 <= side <= usize::MAX,
    ensures
        count * side <= u128::MAX,
{
    assert(count * side <= 0xffff_ffff_ffff_ffff * 0xffff_ffff_ffff_ffff) by (nonlinear_arith)
        requires
            0 <= count <= 0xffff_ffff_ffff_ffff,
            0 <= side <= 0xffff_ffff_ffff_ffff,
    ;
}

/// The average of fewer than `count` distances, taken over `count`, is no
/// more than one distance.
proof fn lemma_average_fits(sum: int, count: int, side: int)
    requires
        count >= 1,
        0 <= side,
        0 <= sum <= (count - 1) * side,
    ensures
        0 <= sum / count <= side,
{
    assert(0 <= sum / count <= side) by (nonlinear_arith)
        requires
            count >= 1,
            0 <= side,
            0 <= sum <= (count - 1) * side,
    ;
}

} // verus!
