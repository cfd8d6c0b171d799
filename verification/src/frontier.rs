//! What a bounded search returns, stated over snapshots.
//!
//! A search walks the tree of moves breadth first. It holds a queue of
//! positions that wait to be looked at, and the best value found so far.
//! A deadline may cut it short: the budget of a search is the number of
//! positions it may look at before the deadline falls.

use crate::grid::Direction;
use crate::snapshot::Snapshot;
use vstd::prelude::*;

verus! {

/// How many moves a search looks ahead.
pub const MAX_DEPTH: usize = 13;

/// The rank of a move that can only lose. It is far above every score that
/// a position on a grid of ordinary size can get.
pub const LOSS_PENALTY: i128 = 100_000_000;

/// Taken off the score of a path for each move on it that eats.
pub const EAT_BONUS: i128 = 1_000;

/// A position that waits in the queue of a search.
pub struct Pending {
    /// The position.
    pub snapshot: Snapshot,
    /// The score that the path had when it reached the position before.
    pub score: int,
    /// The number of moves from the root of the search.
    pub depth: nat,
}

/// The smaller of two values.
pub open spec fn lesser(a: int, b: int) -> int {
    if a <= b {
        a
    } else {
        b
    }
}

/// The root of a search: the first position, reached at no cost.
pub open spec fn root_of(snapshot: Snapshot) -> Pending {
    Pending { snapshot, score: 0, depth: 0 }
}

/// The score of the path up to and including the position: eating on the
/// way in is rewarded.
pub open spec fn running_score(node: Pending) -> int {
    node.score - if node.snapshot.ate {
        EAT_BONUS as int
    } else {
        0
    }
}

/// The value of a position at which the search stops: the score of the
/// path plus the estimate for the position.
pub open spec fn leaf_value(node: Pending, first: Direction) -> int {
    running_score(node) + node.snapshot.quick_rank(first)
}

/// The position one move further on.
pub open spec fn child(node: Pending, direction: Direction) -> Pending {
    Pending {
        snapshot: node.snapshot.step(direction),
        score: running_score(node),
        depth: node.depth + 1,
    }
}

/// The four positions one move further on, in the order in which they are
/// queued.
pub open spec fn children(node: Pending) -> Seq<Pending> {
    seq![
        child(node, Direction::North),
        child(node, Direction::East),
        child(node, Direction::West),
        child(node, Direction::South),
    ]
}

/// What a search returns that holds `queue` and has found `best` so far,
/// when it may still look at `budget` positions before its deadline.
///
/// The front of the queue is taken. A lost position is dropped. Any other
/// position is a leaf once the deadline has fallen or the depth limit is
/// reached: its value competes with the best so far. Otherwise its four
/// children join the back of the queue. Looking at a position that is not
/// lost uses up one unit of the budget.
pub open spec fn frontier_rank(
    queue: Seq<Pending>,
    best: int,
    first: Direction,
    bound: nat,
    budget: nat,
) -> int
    decreases budget, queue.len(),
{
    if queue.len() == 0 {
        best
    } else {
        let node = queue[0];
        let rest = queue.drop_first();
        if node.snapshot.is_loss() {
            frontier_rank(rest, best, first, bound, budget)
        } else if budget == 0 {
            frontier_rank(rest, lesser(best, leaf_value(node, first)), first, bound, 0)
        } else if node.depth >= bound {
            frontier_rank(
                rest,
                lesser(best, leaf_value(node, first)),
                first,
                bound,
                (budget - 1) as nat,
            )
        } else {
            frontier_rank(rest + children(node), best, first, bound, (budget - 1) as nat)
        }
    }
}

/// The rank of the position `root` for a search that began with the move
/// `first`, looks `bound` moves ahead and may look at `budget` positions
/// before its deadline. A search that finds nothing better returns the
/// rank of a loss.
pub open spec fn search_rank(root: Snapshot, first: Direction, bound: nat, budget: nat) -> int {
    frontier_rank(seq![root_of(root)], LOSS_PENALTY as int, first, bound, budget)
}

/// The number of positions in a full tree of moves that is `levels` deep.
pub open spec fn subtree_size(levels: nat) -> nat
    decreases levels,
{
    if levels == 0 {
        1
    } else {
        1 + 4 * subtree_size((levels - 1) as nat)
    }
}

/// The number of positions that a search can still reach from `node`.
pub open spec fn weight(node: Pending, bound: nat) -> nat {
    subtree_size(
        if node.depth >= bound {
            0
        } else {
            (bound - node.depth) as nat
        },
    )
}

/// The number of positions that a search can still reach from its queue.
pub open spec fn total_weight(queue: Seq<Pending>, bound: nat) -> nat
    decreases queue.len(),
{
    if queue.len() == 0 {
        0
    } else {
        total_weight(queue.drop_last(), bound) + weight(queue.last(), bound)
    }
}

/// A position joins the back of the queue: the weights add up.
pub proof fn lemma_weight_push(queue: Seq<Pending>, node: Pending, bound: nat)
    ensures
        total_weight(queue.push(node), bound) == total_weight(queue, bound) + weight(node, bound),
{
    assert(queue.push(node).drop_last() =~= queue);
}

/// The front of the queue leaves: its weight goes with it.
pub proof fn lemma_weight_front(queue: Seq<Pending>, bound: nat)
    requires
        queue.len() > 0,
    ensures
        total_weight(queue, bound) == weight(queue[0], bound) + total_weight(
            queue.drop_first(),
            bound,
        ),
    decreases queue.len(),
{
    if queue.len() == 1 {
        assert(queue.drop_last() =~= queue.drop_first());
        assert(total_weight(queue.drop_first(), bound) == 0);
    } else {
        lemma_weight_front(queue.drop_last(), bound);
        assert(queue.drop_last().drop_first() =~= queue.drop_first().drop_last());
        assert(queue.drop_first().last() == queue.last());
    }
}

/// The four children of a position that is expanded weigh one less than
/// the position itself.
pub proof fn lemma_weight_children(queue: Seq<Pending>, node: Pending, bound: nat)
    requires
        node.depth < bound,
    ensures
        total_weight(queue + children(node), bound) + 1 == total_weight(queue, bound) + weight(
            node,
            bound,
        ),
{
    let north = child(node, Direction::North);
    let east = child(node, Direction::East);
    let west = child(node, Direction::West);
    let south = child(node, Direction::South);
    lemma_weight_push(queue, north, bound);
    lemma_weight_push(queue.push(north), east, bound);
    lemma_weight_push(queue.push(north).push(east), west, bound);
    lemma_weight_push(queue.push(north).push(east).push(west), south, bound);
    assert(queue.push(north).push(east).push(west).push(south) =~= queue + children(node));
}

/// A search never returns more than the best value it has found.
pub proof fn lemma_frontier_rank_at_most(
    queue: Seq<Pending>,
    best: int,
    first: Direction,
    bound: nat,
    budget: nat,
)
    ensures
        frontier_rank(queue, best, first, bound, budget) <= best,
    decreases budget, queue.len(),
{
    if queue.len() > 0 {
        let node = queue[0];
        let rest = queue.drop_first();
        let found = lesser(best, leaf_value(node, first));
        if node.snapshot.is_loss() {
            lemma_frontier_rank_at_most(rest, best, first, bound, budget);
        } else if budget == 0 {
            lemma_frontier_rank_at_most(rest, found, first, bound, 0);
        } else if node.depth >= bound {
            lemma_frontier_rank_at_most(rest, found, first, bound, (budget - 1) as nat);
        } else {
            lemma_frontier_rank_at_most(
                rest + children(node),
                best,
                first,
                bound,
                (budget - 1) as nat,
            );
        }
    }
}

/// No rank is above the rank of a loss.
pub proof fn lemma_rank_at_most_loss(root: Snapshot, first: Direction, bound: nat, budget: nat)
    ensures
        search_rank(root, first, bound, budget) <= LOSS_PENALTY,
{
    lemma_frontier_rank_at_most(seq![root_of(root)], LOSS_PENALTY as int, first, bound, budget);
}

/// A position that is lost already has the rank of a loss, whatever the
/// depth limit and the deadline.
pub proof fn lemma_lost_root(root: Snapshot, first: Direction, bound: nat, budget: nat)
    requires
        root.is_loss(),
    ensures
        search_rank(root, first, bound, budget) == LOSS_PENALTY,
{
    let queue = seq![root_of(root)];
    assert(queue.drop_first().len() == 0);
    assert(frontier_rank(queue.drop_first(), LOSS_PENALTY as int, first, bound, budget)
        == LOSS_PENALTY);
}

/// A search whose deadline has fallen before it starts looks no further
/// than its root: the rank is the estimate for the root itself, or the rank
/// of a loss where the root is lost or the estimate is worse than that.
pub proof fn lemma_expired_rank(root: Snapshot, first: Direction, bound: nat)
    ensures
        search_rank(root, first, bound, 0) == if root.is_loss() {
            LOSS_PENALTY as int
        } else {
            lesser(LOSS_PENALTY as int, leaf_value(root_of(root), first))
        },
{
    let queue = seq![root_of(root)];
    let found = lesser(LOSS_PENALTY as int, leaf_value(root_of(root), first));
    assert(queue.drop_first().len() == 0);
    assert(frontier_rank(queue.drop_first(), LOSS_PENALTY as int, first, bound, 0)
        == LOSS_PENALTY);
    assert(frontier_rank(queue.drop_first(), found, first, bound, 0) == found);
}

/// The best value in the tree of moves below a position, down to the depth
/// limit: the value of the position itself at the limit, the least of the
/// four subtrees above it, and the rank of a loss where the position is
/// lost.
pub open spec fn tree_rank(node: Pending, first: Direction, bound: nat) -> int
    decreases bound - node.depth,
{
    if node.snapshot.is_loss() {
        LOSS_PENALTY as int
    } else if node.depth >= bound {
        leaf_value(node, first)
    } else {
        lesser(
            lesser(
                tree_rank(child(node, Direction::North), first, bound),
                tree_rank(child(node, Direction::East), first, bound),
            ),
            lesser(
                tree_rank(child(node, Direction::West), first, bound),
                tree_rank(child(node, Direction::South), first, bound),
            ),
        )
    }
}

/// The best value among `best` and the trees below the positions of a
/// queue.
pub open spec fn forest_rank(queue: Seq<Pending>, best: int, first: Direction, bound: nat) -> int
    decreases queue.len(),
{
    if queue.len() == 0 {
        best
    } else {
        forest_rank(
            queue.drop_first(),
            lesser(best, tree_rank(queue[0], first, bound)),
            first,
            bound,
        )
    }
}

/// The best value of a forest does not depend on when a value enters the
/// competition.
proof fn lemma_forest_lesser(queue: Seq<Pending>, a: int, b: int, first: Direction, bound: nat)
    ensures
        forest_rank(queue, lesser(a, b), first, bound) == lesser(
            forest_rank(queue, a, first, bound),
            b,
        ),
    decreases queue.len(),
{
    if queue.len() > 0 {
        let t = tree_rank(queue[0], first, bound);
        assert(lesser(lesser(a, b), t) == lesser(lesser(a, t), b));
        lemma_forest_lesser(queue.drop_first(), lesser(a, t), b, first, bound);
    }
}

/// The best value of two queues in a row is the best value of the second,
/// starting from the best value of the first.
proof fn lemma_forest_concat(
    front: Seq<Pending>,
    back: Seq<Pending>,
    best: int,
    first: Direction,
    bound: nat,
)
    ensures
        forest_rank(front + back, best, first, bound) == forest_rank(
            back,
            forest_rank(front, best, first, bound),
            first,
            bound,
        ),
    decreases front.len(),
{
    if front.len() == 0 {
        assert(front + back =~= back);
    } else {
        assert((front + back).drop_first() =~= front.drop_first() + back);
        lemma_forest_concat(
            front.drop_first(),
            back,
            lesser(best, tree_rank(front[0], first, bound)),
            first,
            bound,
        );
    }
}

/// The best value over the four children of a position is the best value
/// of the tree below it.
proof fn lemma_forest_children(node: Pending, best: int, first: Direction, bound: nat)
    requires
        !node.snapshot.is_loss(),
        node.depth < bound,
    ensures
        forest_rank(children(node), best, first, bound) == lesser(
            best,
            tree_rank(node, first, bound),
        ),
{
    let four = children(node);
    let three = four.drop_first();
    let two = three.drop_first();
    let one = two.drop_first();
    let none = one.drop_first();
    let after_north = lesser(best, tree_rank(four[0], first, bound));
    let after_east = lesser(after_north, tree_rank(three[0], first, bound));
    let after_west = lesser(after_east, tree_rank(two[0], first, bound));
    let after_south = lesser(after_west, tree_rank(one[0], first, bound));
    assert(none.len() == 0);
    assert(forest_rank(none, after_south, first, bound) == after_south);
    assert(forest_rank(one, after_west, first, bound) == after_south);
    assert(forest_rank(two, after_east, first, bound) == after_south);
    assert(forest_rank(three, after_north, first, bound) == after_south);
    assert(forest_rank(four, best, first, bound) == after_south);
}

/// A search with budget enough for everything it can reach returns the
/// best value of the forest below its queue.
proof fn lemma_unhurried_frontier(
    queue: Seq<Pending>,
    best: int,
    first: Direction,
    bound: nat,
    budget: nat,
)
    requires
        best <= LOSS_PENALTY,
        budget >= total_weight(queue, bound),
    ensures
        frontier_rank(queue, best, first, bound, budget) == forest_rank(queue, best, first, bound),
    decreases budget, queue.len(),
{
    if queue.len() > 0 {
        let node = queue[0];
        let rest = queue.drop_first();
        lemma_weight_front(queue, bound);
        if node.snapshot.is_loss() {
            lemma_unhurried_frontier(rest, best, first, bound, budget);
        } else if node.depth >= bound {
            lemma_unhurried_frontier(
                rest,
                lesser(best, leaf_value(node, first)),
                first,
                bound,
                (budget - 1) as nat,
            );
        } else {
            lemma_weight_children(rest, node, bound);
            lemma_unhurried_frontier(
                rest + children(node),
                best,
                first,
                bound,
                (budget - 1) as nat,
            );
            lemma_forest_concat(rest, children(node), best, first, bound);
            lemma_forest_children(node, forest_rank(rest, best, first, bound), first, bound);
            lemma_forest_lesser(rest, best, tree_rank(node, first, bound), first, bound);
        }
    }
}

/// A search that is never cut short by its deadline returns the best value
/// in the whole tree of moves below its root, down to the depth limit.
/// A budget of as many positions as the full tree has is enough for that.
pub proof fn lemma_unhurried_rank(root: Snapshot, first: Direction, bound: nat, budget: nat)
    requires
        budget >= subtree_size(bound),
    ensures
        search_rank(root, first, bound, budget) == lesser(
            LOSS_PENALTY as int,
            tree_rank(root_of(root), first, bound),
        ),
{
    let queue = seq![root_of(root)];
    assert(queue.drop_last().len() == 0);
    assert(total_weight(queue.drop_last(), bound) == 0);
    assert(total_weight(queue, bound) == subtree_size(bound));
    lemma_unhurried_frontier(queue, LOSS_PENALTY as int, first, bound, budget);
    assert(queue.drop_first().len() == 0);
    assert(forest_rank(
        queue.drop_first(),
        lesser(LOSS_PENALTY as int, tree_rank(root_of(root), first, bound)),
        first,
        bound,
    ) == lesser(LOSS_PENALTY as int, tree_rank(root_of(root), first, bound)));
}

} // verus!
