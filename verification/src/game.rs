//! The game itself: the snake, the food and the rules of one tick.

use crate::cells::{all_in_bounds, distinct, occurs, occurs_in_prefix, within, without};
use crate::chance::random_in;
use crate::grid::{in_bounds, moved, step_from, valid_size, Cell, Direction};
use vstd::prelude::*;

verus! {

/// What a position of the game is, apart from how it is stored.
pub struct Game {
    /// Width and height of the grid.
    pub size: (usize, usize),
    /// The move that was applied last.
    pub facing: Direction,
    /// The cells of the snake, head first.
    pub snake: Seq<Cell>,
    /// The cells that hold food.
    pub food: Set<Cell>,
}

impl Game {
    /// The grid has positive sides, the snake has a head, and snake and
    /// food lie on the grid.
    pub open spec fn valid(self) -> bool {
        &&& valid_size(self.size)
        &&& self.snake.len() >= 1
        &&& all_in_bounds(self.size, self.snake)
        &&& forall|c: Cell| self.food.contains(c) ==> in_bounds(self.size, c)
    }

    /// A valid position in which the snake does not cross itself.
    pub open spec fn alive(self) -> bool {
        self.valid() && self.snake.no_duplicates()
    }

    /// The cell that the head enters when the snake moves in `direction`.
    pub open spec fn next_head(self, direction: Direction) -> Cell {
        moved(self.size, self.snake[0], direction)
    }

    /// The move in `direction` lands on food.
    pub open spec fn eats(self, direction: Direction) -> bool {
        self.food.contains(self.next_head(direction))
    }

    /// The part of the snake that is still in place once the head has
    /// moved: all of it when the move eats, all but the tail otherwise.
    pub open spec fn staying(self, direction: Direction) -> Seq<Cell> {
        if self.eats(direction) {
            self.snake
        } else {
            self.snake.drop_last()
        }
    }

    /// The move in `direction` runs the head into the snake: the game is
    /// lost.
    pub open spec fn blocked(self, direction: Direction) -> bool {
        self.staying(direction).contains(self.next_head(direction))
    }

    /// The position after the move in `direction`, where `spawned` are the
    /// cells on which new food falls if the move eats. A lost game keeps
    /// its snake and its food.
    pub open spec fn after(self, direction: Direction, spawned: Seq<Cell>) -> Game {
        if self.blocked(direction) {
            Game { facing: direction, ..self }
        } else if self.eats(direction) {
            Game {
                facing: direction,
                snake: seq![self.next_head(direction)] + self.snake,
                food: self.food.remove(self.next_head(direction)).union(spawned.to_set()),
                ..self
            }
        } else {
            Game {
                facing: direction,
                snake: seq![self.next_head(direction)] + self.snake.drop_last(),
                ..self
            }
        }
    }
}

/// How a tick ended.
#[derive(Debug, Clone, Copy, PartialEq, Eq, Structural)]
pub enum Outcome {
    /// The snake ran into itself. Nothing more may be played.
    Lost,
    /// The snake moved; the value is its new length, which is also the
    /// number of ticks per second to play at from now on.
    Tick(usize),
}

/// What a move in `direction` reports: a loss, or the length of the snake
/// after it.
pub open spec fn outcome_of(game: Game, direction: Direction) -> Outcome {
    if game.blocked(direction) {
        Outcome::Lost
    } else if game.eats(direction) {
        Outcome::Tick((game.snake.len() + 1) as usize)
    } else {
        Outcome::Tick(game.snake.len() as usize)
    }
}

/// A move that does not lose keeps the position alive, whatever food
/// falls, as long as it falls on the grid.
pub proof fn lemma_after_stays_alive(game: Game, direction: Direction, spawned: Seq<Cell>)
    requires
        game.alive(),
        all_in_bounds(game.size, spawned),
    ensures
        game.after(direction, spawned).alive(),
{
    let next = game.next_head(direction);
    let later = game.after(direction, spawned);
    if !game.blocked(direction) {
        let staying = game.staying(direction);
        assert(later.snake =~= seq![next] + staying);
        assert forall|i: int| 0 <= i < later.snake.len() implies in_bounds(
            game.size,
            #[trigger] later.snake[i],
        ) by {
            if i > 0 {
                assert(later.snake[i] == game.snake[i - 1]);
            }
        }
        assert forall|i: int, j: int|
            0 <= i < later.snake.len() && 0 <= j < later.snake.len() && i != j implies later.snake[i]
            != later.snake[j] by {
            if i > 0 && j > 0 {
                assert(later.snake[i] == game.snake[i - 1]);
                assert(later.snake[j] == game.snake[j - 1]);
            } else if i == 0 {
                assert(staying[j - 1] == later.snake[j]);
            } else {
                assert(staying[i - 1] == later.snake[i]);
            }
        }
        assert forall|c: Cell| later.food.contains(c) implies in_bounds(game.size, c) by {
            if !game.food.contains(c) {
                let k = spawned.index_of(c);
                assert(spawned[k] == c);
            }
        }
    }
}

/// The game as it is played: the grid, the snake, the food, and the move
/// made last.
#[derive(Debug)]
pub struct State {
    size: (usize, usize),
    direction: Direction,
    snake: Vec<Cell>,
    food: Vec<Cell>,
}

impl View for State {
    type V = Game;

    closed spec fn view(&self) -> Game {
        Game {
            size: self.size,
            facing: self.direction,
            snake: self.snake@,
            food: self.food@.to_set(),
        }
    }
}

impl State {
    /// No food cell is stored twice.
    pub closed spec fn compact(&self) -> bool {
        self.food@.no_duplicates()
    }

    /// The state stands for a position in which the snake is alive.
    pub open spec fn wf(&self) -> bool {
        self.compact() && self@.alive()
    }

    /// A new game: the snake is the single cell at the origin and faces
    /// East, and one piece of food lies somewhere on the grid.
    pub fn new(size: (usize, usize)) -> (state: State)
        requires
            valid_size(size),
        ensures
            state.wf(),
            state@.size == size,
            state@.facing == Direction::East,
            state@.snake == seq![(0usize, 0usize)],
            exists|c: Cell| in_bounds(size, c) && state@.food == set![c],
    {
        let mut snake: Vec<Cell> = Vec::new();
        snake.push((0, 0));
        let mut state = State { size, direction: Direction::East, snake, food: Vec::new() };
        assert(state@.snake =~= seq![(0usize, 0usize)]);
        assert(state@.food =~= Set::<Cell>::empty());
        let ghost before = state@;
        state.add_random_food();
        proof {
            let c = choose|c: Cell|
                in_bounds(size, c) && state@ == (Game { food: before.food.insert(c), ..before });
            assert(state@.food =~= set![c]);
        }
        state
    }

    /// A game in a given position. The answer is `None` where the position
    /// is not one of a living snake: a side of the grid is zero, the snake
    /// is empty or crosses itself, or a cell lies off the grid. Food that is
    /// listed twice counts once.
    pub fn with_layout(
        size: (usize, usize),
        direction: Direction,
        snake: Vec<Cell>,
        food: Vec<Cell>,
    ) -> (made: Option<State>)
        ensures
            made.is_some() == (Game {
                size,
                facing: direction,
                snake: snake@,
                food: food@.to_set(),
            }).alive(),
            made matches Some(state) ==> state.wf() && state@ == (Game {
                size,
                facing: direction,
                snake: snake@,
                food: food@.to_set(),
            }),
    {
        let ghost target = Game { size, facing: direction, snake: snake@, food: food@.to_set() };
        if size.0 == 0 || size.1 == 0 || snake.len() == 0 {
            return None;
        }
        if !within(size, &snake) || !distinct(&snake) {
            return None;
        }
        if !within(size, &food) {
            proof {
                let i = choose|i: int| 0 <= i < food@.len() && !in_bounds(size, #[trigger] food@[i]);
                assert(food@.contains(food@[i]));
            }
            return None;
        }
        let mut state = State { size, direction, snake, food: Vec::new() };
        assert(state@.food =~= food@.take(0).to_set());
        let mut i: usize = 0;
        while i < food.len()
            invariant
                i <= food@.len(),
                all_in_bounds(size, food@),
                state.wf(),
                target.size == size,
                state@ == (Game { food: food@.take(i as int).to_set(), ..target }),
            decreases food@.len() - i,
        {
            assert(in_bounds(size, food@[i as int]));
            state.place_food(food[i]);
            proof {
                let seen = food@.take(i as int);
                let seen_next = food@.take(i + 1);
                assert(seen_next =~= seen.push(food@[i as int]));
                assert forall|c: Cell| seen_next.to_set().contains(c) == seen.to_set().insert(
                    food@[i as int],
                ).contains(c) by {
                    if seen_next.contains(c) {
                        let k = seen_next.index_of(c);
                        if k < i {
                            assert(seen[k] == c);
                        }
                    }
                    if seen.contains(c) {
                        let k = seen.index_of(c);
                        assert(seen_next[k] == c);
                    }
                    assert(seen_next[i as int] == food@[i as int]);
                }
                assert(seen_next.to_set() =~= seen.to_set().insert(food@[i as int]));
            }
            i += 1;
        }
        assert(food@.take(food@.len() as int) =~= food@);
        Some(state)
    }

    /// Width and height of the grid.
    pub fn size(&self) -> (r: (usize, usize))
        ensures
            r == self@.size,
    {
        self.size
    }

    /// The move that was applied last.
    pub fn direction(&self) -> (r: Direction)
        ensures
            r == self@.facing,
    {
        self.direction
    }

    /// The cells of the snake, head first.
    pub fn body(&self) -> (r: &Vec<Cell>)
        ensures
            r@ == self@.snake,
    {
        &self.snake
    }

    /// The cells that hold food, each once, in no particular order.
    pub fn food(&self) -> (r: &Vec<Cell>)
        ensures
            r@.to_set() == self@.food,
            self.compact() ==> r@.no_duplicates(),
    {
        &self.food
    }

    /// The length of the snake.
    pub fn length(&self) -> (r: usize)
        ensures
            r == self@.snake.len(),
    {
        self.snake.len()
    }

    /// The cell that the head of `snake` enters when it moves in
    /// `direction` on a grid of the given size.
    pub fn next_loc(snake: &Vec<Cell>, direction: Direction, size: (usize, usize)) -> (r: Cell)
        requires
            snake@.len() >= 1,
            valid_size(size),
        ensures
            r == moved(size, snake@[0], direction),
            in_bounds(size, r),
    {
        step_from(size, snake[0], direction)
    }

    /// Whether the move in `direction` lands on food.
    pub fn would_eat(&self, direction: Direction) -> (r: bool)
        requires
            self.wf(),
        ensures
            r == self@.eats(direction),
    {
        let next = State::next_loc(&self.snake, direction, self.size);
        occurs(&self.food, next)
    }

    /// Whether the move in `direction` loses the game.
    pub fn would_lose(&self, direction: Direction) -> (r: bool)
        requires
            self.wf(),
        ensures
            r == self@.blocked(direction),
    {
        let next = State::next_loc(&self.snake, direction, self.size);
        if occurs(&self.food, next) {
            occurs(&self.snake, next)
        } else {
            occurs_in_prefix(&self.snake, self.snake.len() - 1, next)
        }
    }

    /// Puts food on `cell`. Food that is already there stays as it is.
    pub fn place_food(&mut self, cell: Cell)
        requires
            old(self).wf(),
            in_bounds(old(self)@.size, cell),
        ensures
            final(self).wf(),
            final(self)@ == (Game { food: old(self)@.food.insert(cell), ..old(self)@ }),
    {
        let ghost before = self.food@;
        if !occurs(&self.food, cell) {
            self.food.push(cell);
        }
        proof {
            assert forall|c: Cell| self.food@.contains(c) == (before.contains(c) || c == cell) by {
                if self.food@.contains(c) {
                    let k = self.food@.index_of(c);
                    if k < before.len() {
                        assert(before[k] == c);
                    }
                }
                if before.contains(c) {
                    let k = before.index_of(c);
                    assert(self.food@[k] == c);
                }
                if c == cell && !before.contains(cell) {
                    assert(self.food@[before.len() as int] == c);
                }
            }
            assert(self.food@.to_set() =~= before.to_set().insert(cell));
        }
    }

    /// Puts food on a cell of the grid drawn at random. The cell may hold
    /// food or a part of the snake already.
    pub fn add_random_food(&mut self)
        requires
            old(self).wf(),
        ensures
            final(self).wf(),
            exists|c: Cell|
                in_bounds(old(self)@.size, c) && final(self)@ == (Game {
                    food: old(self)@.food.insert(c),
                    ..old(self)@
                }),
    {
        let cell = random_cell(self.size);
        self.place_food(cell);
    }

    /// Plays the move in `direction`, with `spawned` as the cells on which
    /// new food falls if the move eats.
    ///
    /// The head moves one cell and wraps at the edges. Where it runs into a
    /// part of the snake that stays in place the game is lost, and snake and
    /// food remain as they were. Where it lands on food, the food is eaten,
    /// the snake grows by one and the new food is placed. Otherwise the tail
    /// follows and the length stays.
    pub fn apply_move(&mut self, direction: Direction, spawned: &Vec<Cell>) -> (outcome: Outcome)
        requires
            old(self).wf(),
            all_in_bounds(old(self)@.size, spawned@),
        ensures
            final(self).wf(),
            final(self)@ == old(self)@.after(direction, spawned@),
            outcome == outcome_of(old(self)@, direction),
            outcome matches Outcome::Tick(speed) ==> speed == final(self)@.snake.len(),
    {
        let ghost before = self@;
        proof {
            lemma_after_stays_alive(before, direction, spawned@);
        }
        let lost = self.would_lose(direction);
        let eats = self.would_eat(direction);
        let next = State::next_loc(&self.snake, direction, self.size);
        self.direction = direction;
        if lost {
            assert(self@ == before.after(direction, spawned@));
            return Outcome::Lost;
        }
        self.snake.insert(0, next);
        if eats {
            assert(self.snake@ =~= seq![next] + before.snake);
            self.food = without(&self.food, next);
            let ghost base = before.food.remove(next);
            assert(self.food@.to_set() =~= base.union(spawned@.take(0).to_set()));
            let mut i: usize = 0;
            while i < spawned.len()
                invariant
                    i <= spawned@.len(),
                    self.wf(),
                    all_in_bounds(before.size, spawned@),
                    self@ == (Game {
                        facing: direction,
                        snake: seq![next] + before.snake,
                        food: base.union(spawned@.take(i as int).to_set()),
                        ..before
                    }),
                decreases spawned@.len() - i,
            {
                self.place_food(spawned[i]);
                proof {
                    let seen = spawned@.take(i as int);
                    let seen_next = spawned@.take(i + 1);
                    assert forall|c: Cell|
                        seen_next.contains(c) == (seen.contains(c) || c == spawned@[i as int]) by {
                        if seen_next.contains(c) {
                            let k = seen_next.index_of(c);
                            if k < i {
                                assert(seen[k] == c);
                            }
                        }
                        if seen.contains(c) {
                            let k = seen.index_of(c);
                            assert(seen_next[k] == c);
                        }
                        assert(seen_next[i as int] == spawned@[i as int]);
                    }
                    assert(base.union(seen.to_set()).insert(spawned@[i as int]) =~= base.union(
                        seen_next.to_set(),
                    ));
                }
                i += 1;
            }
            assert(spawned@.take(spawned@.len() as int) =~= spawned@);
        } else {
            self.snake.pop();
            assert(self.snake@ =~= seq![next] + before.snake.drop_last());
        }
        Outcome::Tick(self.snake.len())
    }

    /// Plays the move in `direction`. Where the move eats, between one and
    /// three pieces of food fall on cells of the grid drawn at random; a
    /// cell may be drawn that holds food or a part of the snake already.
    ///
    /// The snake grows by exactly one cell when it eats and keeps its length
    /// otherwise, and it never enters a cell of itself that stays in place
    /// without the game being reported lost.
    pub fn advance(&mut self, direction: Direction) -> (outcome: Outcome)
        requires
            old(self).wf(),
        ensures
            final(self).wf(),
            exists|spawned: Seq<Cell>|
                {
                    &&& all_in_bounds(old(self)@.size, spawned)
                    &&& old(self)@.eats(direction) && !old(self)@.blocked(direction) ==> 1
                        <= spawned.len() <= 3
                    &&& final(self)@ == old(self)@.after(direction, spawned)
                },
            outcome == outcome_of(old(self)@, direction),
            old(self)@.blocked(direction) ==> final(self)@.snake == old(self)@.snake,
            !old(self)@.blocked(direction) ==> final(self)@.snake[0] == old(self)@.next_head(
                direction,
            ) && !old(self)@.staying(direction).contains(final(self)@.snake[0]),
            !old(self)@.blocked(direction) && old(self)@.eats(direction) ==> final(self)@.snake.len()
                == old(self)@.snake.len() + 1,
            !old(self)@.blocked(direction) && !old(self)@.eats(direction)
                ==> final(self)@.snake.len() == old(self)@.snake.len() && final(self)@.food == old(
                self,
            )@.food,
    {
        let mut spawned: Vec<Cell> = Vec::new();
        if self.would_eat(direction) && !self.would_lose(direction) {
            let count = random_in(1, 4);
            let mut i: usize = 0;
            while i < count
                invariant
                    i <= count,
                    spawned@.len() == i,
                    valid_size(self@.size),
                    all_in_bounds(self@.size, spawned@),
                decreases count - i,
            {
                let cell = random_cell(self.size());
                let ghost drawn = spawned@;
                spawned.push(cell);
                assert forall|k: int| 0 <= k < spawned@.len() implies in_bounds(
                    self@.size,
                    #[trigger] spawned@[k],
                ) by {
                    if k < drawn.len() {
                        assert(spawned@[k] == drawn[k]);
                    }
                }
                i += 1;
            }
        }
        self.apply_move(direction, &spawned)
    }
}

/// A cell of the grid drawn at random.
pub fn random_cell(size: (usize, usize)) -> (cell: Cell)
    requires
        valid_size(size),
    ensures
        in_bounds(size, cell),
{
    let x = random_in(0, size.0);
    let y = random_in(0, size.1);
    (x, y)
}

} // verus!
