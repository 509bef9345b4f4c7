//! The path planner: turns a click destination into an ordered list of
//! steps, using grid search with 8-directional adjacency, step costs of 10
//! (axis-aligned) and 14 (diagonal), and the octile distance as the
//! admissible heuristic. Ties between equal-estimate candidates resolve
//! deterministically: lowest cost-so-far wins, then insertion order, so
//! repeated runs over identical input are reproducible.

use vstd::prelude::*;
use crate::components::LeftClick;
use crate::tile::{adjacent, spec_step_cost, Tile};

verus! {

/// `t` occurs in the tile sequence.
pub open spec fn contains_tile(tiles: Seq<Tile>, t: Tile) -> bool {
    exists|i: int| 0 <= i < tiles.len() && tiles[i] == t
}

/// `walk` is a non-empty sequence of traversable tiles whose consecutive
/// elements are 8-adjacent.
pub open spec fn is_walk(tiles: Seq<Tile>, walk: Seq<Tile>) -> bool {
    &&& walk.len() >= 1
    &&& forall|i: int| 0 <= i < walk.len() ==> contains_tile(tiles, #[trigger] walk[i])
    &&& forall|i: int| 0 <= i < walk.len() - 1 ==> adjacent(#[trigger] walk[i], walk[i + 1])
}

/// `goal` can be reached from `start` across the traversable tiles.
pub open spec fn reachable(tiles: Seq<Tile>, start: Tile, goal: Tile) -> bool {
    exists|walk: Seq<Tile>|
        is_walk(tiles, walk) && walk[0] == start && walk[walk.len() - 1] == goal
}

/// Total cost of a walk under the 10/14 step cost model: the sum of the
/// step costs of its consecutive pairs.
pub open spec fn walk_cost(walk: Seq<Tile>) -> int
    decreases walk.len(),
{
    if walk.len() <= 1 {
        0
    } else {
        spec_step_cost(walk[0], walk[1]) + walk_cost(walk.drop_first())
    }
}

/// Appending one tile to a non-empty walk adds one step's cost.
proof fn lemma_walk_cost_push(walk: Seq<Tile>, t: Tile)
    requires
        walk.len() >= 1,
    ensures
        walk_cost(walk.push(t)) == walk_cost(walk) + spec_step_cost(walk[walk.len() - 1], t),
    decreases walk.len(),
{
    reveal_with_fuel(walk_cost, 3);
    let pushed = walk.push(t);
    if walk.len() == 1 {
        assert(pushed[0] == walk[0] && pushed[1] == t);
        assert(pushed.drop_first() =~= seq![t]);
    } else {
        assert(pushed[0] == walk[0] && pushed[1] == walk[1]);
        assert(pushed.drop_first() =~= walk.drop_first().push(t));
        lemma_walk_cost_push(walk.drop_first(), t);
    }
}

/// One record of the search: a tile, the index of the node it was reached
/// from, the cost accumulated so far and the heuristic estimate.
#[derive(Clone, Copy, Debug)]
pub struct Node {
    pub pos: Tile,
    pub parent: usize,
    pub g_cost: u128,
    pub h_cost: u128,
    pub f_cost: u128,
}

/// Some node in the sequence sits on tile `t`.
pub open spec fn has_pos(nodes: Seq<Node>, t: Tile) -> bool {
    exists|k: int| 0 <= k < nodes.len() && nodes[k].pos == t
}

/// Linear membership scan over the traversable tiles.
fn tiles_contain(tiles: &Vec<Tile>, t: &Tile) -> (r: bool)
    ensures
        r == contains_tile(tiles@, *t),
{
    let mut i: usize = 0;
    while i < tiles.len()
        invariant
            i <= tiles@.len(),
            forall|j: int| 0 <= j < i ==> tiles@[j] != *t,
        decreases tiles@.len() - i,
    {
        if tiles[i] == *t {
            return true;
        }
        i = i + 1;
    }
    false
}

/// Linear scan for a node sitting on tile `t`.
fn find_node(nodes: &Vec<Node>, t: &Tile) -> (r: Option<usize>)
    ensures
        r matches Some(k) ==> k < nodes@.len() && nodes@[k as int].pos == *t,
        r is None ==> !has_pos(nodes@, *t),
{
    let mut i: usize = 0;
    while i < nodes.len()
        invariant
            i <= nodes@.len(),
            forall|j: int| 0 <= j < i ==> nodes@[j].pos != *t,
        decreases nodes@.len() - i,
    {
        if nodes[i].pos == *t {
            return Some(i);
        }
        i = i + 1;
    }
    None
}

/// All traversable tiles 8-adjacent to `current`, each with its step cost.
/// Every adjacent traversable tile appears, so the search frontier misses
/// nothing; when the given tiles are pairwise distinct, so are the
/// neighbours.
pub fn get_neighbours(current: &Tile, tiles: &Vec<Tile>) -> (nbrs: Vec<(Tile, u8)>)
    ensures
        forall|k: int|
            0 <= k < nbrs@.len() ==> {
                &&& adjacent(*current, (#[trigger] nbrs@[k]).0)
                &&& contains_tile(tiles@, nbrs@[k].0)
                &&& nbrs@[k].1 == spec_step_cost(*current, nbrs@[k].0)
            },
        forall|t: Tile|
            contains_tile(tiles@, t) && adjacent(*current, t) ==> exists|k: int|
                0 <= k < nbrs@.len() && (#[trigger] nbrs@[k]).0 == t,
        (forall|a: int, b: int| 0 <= a < b < tiles@.len() ==> tiles@[a] != tiles@[b])
            ==> forall|k: int, l: int|
            0 <= k < l < nbrs@.len() ==> (#[trigger] nbrs@[k]).0 != (#[trigger] nbrs@[l]).0,
{
    let mut nbrs: Vec<(Tile, u8)> = Vec::new();
    let mut i: usize = 0;
    let ghost mut srcs: Seq<int> = Seq::<int>::empty();
    while i < tiles.len()
        invariant
            i <= tiles@.len(),
            forall|k: int|
                0 <= k < nbrs@.len() ==> {
                    &&& adjacent(*current, (#[trigger] nbrs@[k]).0)
                    &&& contains_tile(tiles@, nbrs@[k].0)
                    &&& nbrs@[k].1 == spec_step_cost(*current, nbrs@[k].0)
                },
            forall|j: int|
                0 <= j < i && adjacent(*current, tiles@[j]) ==> exists|k: int|
                    0 <= k < nbrs@.len() && (#[trigger] nbrs@[k]).0 == tiles@[j],
            srcs.len() == nbrs@.len(),
            forall|k: int|
                0 <= k < srcs.len() ==> 0 <= #[trigger] srcs[k] < i && (nbrs@[k]).0
                    == tiles@[srcs[k]],
            forall|k: int, l: int| 0 <= k < l < srcs.len() ==> srcs[k] < srcs[l],
        decreases tiles@.len() - i,
    {
        let t = tiles[i];
        let ghost old_nbrs = nbrs@;
        if current.is_adjacent(&t) {
            let dx = if current.cell.0 >= t.cell.0 {
                current.cell.0 - t.cell.0
            } else {
                t.cell.0 - current.cell.0
            };
            let dz = if current.cell.2 >= t.cell.2 {
                current.cell.2 - t.cell.2
            } else {
                t.cell.2 - current.cell.2
            };
            let cost: u8 = if dx == 1 && dz == 1 {
                14
            } else {
                10
            };
            nbrs.push((t, cost));
            assert(contains_tile(tiles@, t));
            proof {
                srcs = srcs.push(i as int);
            }
        }
        proof {
            assert forall|j: int|
                0 <= j < i + 1 && adjacent(*current, tiles@[j]) implies exists|k: int|
                0 <= k < nbrs@.len() && (#[trigger] nbrs@[k]).0 == tiles@[j] by {
                if j == i as int {
                    assert(adjacent(*current, t));
                    assert((nbrs@[nbrs@.len() - 1]).0 == tiles@[j]);
                } else {
                    let k = choose|k: int|
                        0 <= k < old_nbrs.len() && (#[trigger] old_nbrs[k]).0 == tiles@[j];
                    assert((nbrs@[k]).0 == tiles@[j]);
                }
            }
        }
        i = i + 1;
    }
    proof {
        if forall|a: int, b: int| 0 <= a < b < tiles@.len() ==> tiles@[a] != tiles@[b] {
            assert forall|k: int, l: int|
                0 <= k < l < nbrs@.len() implies (#[trigger] nbrs@[k]).0 != (
            #[trigger] nbrs@[l]).0 by {
                assert((nbrs@[k]).0 == tiles@[srcs[k]]);
                assert((nbrs@[l]).0 == tiles@[srcs[l]]);
                assert(srcs[k] < srcs[l]);
                assert(tiles@[srcs[k]] != tiles@[srcs[l]]);
            }
        }
    }
    nbrs
}

/// Index of the entry the search expands next: smallest estimated total
/// cost; among equal estimates the smallest cost-so-far; among those, the
/// earliest inserted. The scan keeps the first best, so the choice is
/// deterministic.
fn pick_best(open: &Vec<Node>) -> (best: usize)
    requires
        open@.len() > 0,
    ensures
        best < open@.len(),
{
    let mut best: usize = 0;
    let mut k: usize = 1;
    while k < open.len()
        invariant
            1 <= k <= open@.len(),
            best < k,
        decreases open@.len() - k,
    {
        if open[k].f_cost < open[best].f_cost || (open[k].f_cost == open[best].f_cost
            && open[k].g_cost < open[best].g_cost) {
            best = k;
        }
        k = k + 1;
    }
    best
}

/// No more distinct expanded tiles than there are traversable tiles.
proof fn lemma_expanded_bound(tiles: Seq<Tile>, closed: Seq<Node>)
    requires
        forall|i: int| 0 <= i < closed.len() ==> contains_tile(tiles, (#[trigger] closed[i]).pos),
        forall|i: int, j: int|
            0 <= i < j < closed.len() ==> closed[i].pos != closed[j].pos,
    ensures
        closed.len() <= tiles.len(),
{
    broadcast use vstd::seq_lib::seq_to_set_is_finite;

    let ps = closed.map_values(|n: Node| n.pos);
    assert(ps.no_duplicates());
    ps.unique_seq_to_set();
    assert forall|t: Tile| ps.to_set().contains(t) implies tiles.to_set().contains(t) by {
        let k = choose|k: int| 0 <= k < ps.len() && ps[k] == t;
        assert(contains_tile(tiles, closed[k].pos));
        let j = choose|j: int| 0 <= j < tiles.len() && tiles[j] == t;
        assert(tiles.contains(t));
    }
    assert(ps.to_set().subset_of(tiles.to_set()));
    vstd::set_lib::lemma_len_subset(ps.to_set(), tiles.to_set());
    tiles.lemma_cardinality_of_set();
}

/// Walks cannot leave a region that is closed under traversable adjacency:
/// if a walk starts on an expanded tile and every traversable neighbour of
/// an expanded tile is expanded, the whole walk is expanded.
proof fn lemma_walk_stays_expanded(tiles: Seq<Tile>, closed: Seq<Node>, walk: Seq<Tile>, i: int)
    requires
        is_walk(tiles, walk),
        has_pos(closed, walk[0]),
        forall|j: int, t: Tile|
            0 <= j < closed.len() && contains_tile(tiles, t) && #[trigger] adjacent(
                closed[j].pos,
                t,
            ) ==> has_pos(closed, t),
        0 <= i < walk.len(),
    ensures
        has_pos(closed, walk[i]),
    decreases i,
{
    if i > 0 {
        lemma_walk_stays_expanded(tiles, closed, walk, i - 1);
        let j = choose|j: int| 0 <= j < closed.len() && closed[j].pos == walk[i - 1];
        assert(adjacent(walk[i - 1], walk[i]));
        assert(contains_tile(tiles, walk[i]));
    }
}

/// Walk the parent chain of `closed[idx]` back to the root and return the
/// tiles in forward order: a walk from the root's tile to `closed[idx]`'s,
/// every tile an expanded one and none visited twice (the chain's indices
/// strictly decrease and expanded tiles are pairwise distinct).
fn reconstruct(tiles: &Vec<Tile>, closed: &Vec<Node>, idx: usize) -> (path: Vec<Tile>)
    requires
        idx < closed@.len(),
        closed@.len() >= 1,
        forall|i: int| 0 <= i < closed@.len() ==> contains_tile(tiles@, (#[trigger] closed@[i]).pos),
        forall|i: int|
            1 <= i < closed@.len() ==> ((#[trigger] closed@[i]).parent as int) < i && adjacent(
                closed@[closed@[i].parent as int].pos,
                closed@[i].pos,
            ),
        forall|i: int, j: int|
            0 <= i < j < closed@.len() ==> (#[trigger] closed@[i]).pos != (#[trigger] closed@[j]).pos,
        closed@[0].g_cost == 0,
        forall|i: int|
            1 <= i < closed@.len() ==> (#[trigger] closed@[i]).g_cost == closed@[closed@[i].parent
                as int].g_cost + spec_step_cost(
                closed@[closed@[i].parent as int].pos,
                closed@[i].pos,
            ),
    ensures
        is_walk(tiles@, path@),
        path@[0] == closed@[0].pos,
        path@[path@.len() - 1] == closed@[idx as int].pos,
        forall|k: int| 0 <= k < path@.len() ==> has_pos(closed@, #[trigger] path@[k]),
        forall|a: int, b: int| 0 <= a < b < path@.len() ==> path@[a] != path@[b],
        walk_cost(path@) == closed@[idx as int].g_cost,
{
    let mut rev: Vec<Tile> = Vec::new();
    let mut cur: usize = idx;
    let ghost mut inds: Seq<int> = seq![idx as int];
    rev.push(closed[cur].pos);
    proof {
        assert(rev@.reverse() =~= rev@);
    }
    while cur != 0
        invariant
            cur < closed@.len(),
            closed@.len() >= 1,
            rev@.len() >= 1,
            rev@[0] == closed@[idx as int].pos,
            rev@[rev@.len() - 1] == closed@[cur as int].pos,
            closed@[0].g_cost == 0,
            forall|i: int|
                1 <= i < closed@.len() ==> (#[trigger] closed@[i]).g_cost
                    == closed@[closed@[i].parent as int].g_cost + spec_step_cost(
                    closed@[closed@[i].parent as int].pos,
                    closed@[i].pos,
                ),
            closed@[idx as int].g_cost == closed@[cur as int].g_cost + walk_cost(rev@.reverse()),
            inds.len() == rev@.len(),
            inds[inds.len() - 1] == cur as int,
            forall|k: int|
                0 <= k < inds.len() ==> 0 <= #[trigger] inds[k] < closed@.len() && rev@[k]
                    == closed@[inds[k]].pos,
            forall|k: int, l: int| 0 <= k < l < inds.len() ==> inds[k] > inds[l],
            forall|i: int| 0 <= i < rev@.len() ==> contains_tile(tiles@, #[trigger] rev@[i]),
            forall|i: int| 0 <= i < rev@.len() - 1 ==> adjacent(#[trigger] rev@[i + 1], rev@[i]),
            forall|i: int|
                0 <= i < closed@.len() ==> contains_tile(tiles@, (#[trigger] closed@[i]).pos),
            forall|i: int|
                1 <= i < closed@.len() ==> ((#[trigger] closed@[i]).parent as int) < i && adjacent(
                    closed@[closed@[i].parent as int].pos,
                    closed@[i].pos,
                ),
            forall|i: int, j: int|
                0 <= i < j < closed@.len() ==> (#[trigger] closed@[i]).pos != (
                #[trigger] closed@[j]).pos,
        decreases cur,
    {
        let prev = cur;
        let ghost rev0 = rev@;
        cur = closed[cur].parent;
        rev.push(closed[cur].pos);
        proof {
            assert(adjacent(closed@[cur as int].pos, closed@[prev as int].pos));
            inds = inds.push(cur as int);
            // the walk grows by one step at the front, the cost by that
            // step's cost
            let front = seq![closed@[cur as int].pos] + rev0.reverse();
            assert(rev@.reverse() =~= front);
            assert(front.drop_first() =~= rev0.reverse());
            assert(front[0] == closed@[cur as int].pos);
            assert(front[1] == rev0.reverse()[0]);
            assert(rev0.reverse()[0] == rev0[rev0.len() - 1]);
            assert(walk_cost(front) == spec_step_cost(
                closed@[cur as int].pos,
                closed@[prev as int].pos,
            ) + walk_cost(rev0.reverse()));
        }
    }
    proof {
        // distinct chain indices and pairwise distinct expanded tiles make
        // the collected tiles pairwise distinct
        assert forall|a: int, b: int| 0 <= a < b < rev@.len() implies rev@[a] != rev@[b] by {
            assert(rev@[a] == closed@[inds[a]].pos);
            assert(rev@[b] == closed@[inds[b]].pos);
            assert(inds[a] > inds[b]);
        }
    }
    let mut path: Vec<Tile> = Vec::new();
    let mut i: usize = rev.len();
    while i > 0
        invariant
            i <= rev@.len(),
            path@.len() == rev@.len() - i,
            forall|j: int|
                0 <= j < path@.len() ==> #[trigger] path@[j] == rev@[rev@.len() - 1 - j],
        decreases i,
    {
        i = i - 1;
        path.push(rev[i]);
    }
    proof {
        assert(path@.len() == rev@.len());
        assert(path@[0] == rev@[rev@.len() - 1]);
        assert(path@[path@.len() - 1] == rev@[0]);
        assert forall|j: int| 0 <= j < path@.len() - 1 implies adjacent(
            #[trigger] path@[j],
            path@[j + 1],
        ) by {
            let a = rev@.len() - 1 - j;
            assert(path@[j] == rev@[a]);
            assert(path@[j + 1] == rev@[a - 1]);
            assert(adjacent(rev@[a - 1 + 1], rev@[a - 1]));
        }
        assert forall|k: int| 0 <= k < path@.len() implies has_pos(
            closed@,
            #[trigger] path@[k],
        ) by {
            let a = rev@.len() - 1 - k;
            assert(path@[k] == rev@[a]);
            assert(rev@[a] == closed@[inds[a]].pos);
        }
        assert forall|a: int, b: int| 0 <= a < b < path@.len() implies path@[a] != path@[b] by {
            assert(path@[a] == rev@[rev@.len() - 1 - a]);
            assert(path@[b] == rev@[rev@.len() - 1 - b]);
        }
        assert(path@ =~= rev@.reverse());
    }
    path
}

/// Removing one entry from the frontier keeps every remaining entry
/// well formed and distinct, and loses only the removed tile.
proof fn lemma_open_after_remove(
    tiles: Seq<Tile>,
    closed: Seq<Node>,
    open0: Seq<Node>,
    opena: Seq<Node>,
    best: int,
)
    requires
        0 <= best < open0.len(),
        opena == open0.remove(best),
        forall|k: int|
            0 <= k < open0.len() ==> {
                &&& contains_tile(tiles, (#[trigger] open0[k]).pos)
                &&& (open0[k].parent as int) < closed.len()
                &&& adjacent(closed[open0[k].parent as int].pos, open0[k].pos)
                &&& !has_pos(closed, open0[k].pos)
                &&& open0[k].g_cost <= 14 * closed.len()
                &&& open0[k].g_cost == closed[open0[k].parent as int].g_cost + spec_step_cost(
                    closed[open0[k].parent as int].pos,
                    open0[k].pos,
                )
            },
        forall|k: int, l: int|
            0 <= k < l < open0.len() ==> (#[trigger] open0[k]).pos != (#[trigger] open0[l]).pos,
    ensures
        forall|k: int|
            0 <= k < opena.len() ==> {
                &&& contains_tile(tiles, (#[trigger] opena[k]).pos)
                &&& (opena[k].parent as int) < closed.len()
                &&& adjacent(closed[opena[k].parent as int].pos, opena[k].pos)
                &&& !has_pos(closed, opena[k].pos)
                &&& opena[k].g_cost <= 14 * closed.len()
                &&& opena[k].g_cost == closed[opena[k].parent as int].g_cost + spec_step_cost(
                    closed[opena[k].parent as int].pos,
                    opena[k].pos,
                )
            },
        forall|k: int, l: int|
            0 <= k < l < opena.len() ==> (#[trigger] opena[k]).pos != (#[trigger] opena[l]).pos,
        forall|t: Tile| has_pos(open0, t) ==> has_pos(opena, t) || t == open0[best].pos,
{
    open0.remove_ensures(best);
    assert forall|k: int|
        0 <= k < opena.len() implies {
        &&& contains_tile(tiles, (#[trigger] opena[k]).pos)
        &&& (opena[k].parent as int) < closed.len()
        &&& adjacent(closed[opena[k].parent as int].pos, opena[k].pos)
        &&& !has_pos(closed, opena[k].pos)
        &&& opena[k].g_cost <= 14 * closed.len()
        &&& opena[k].g_cost == closed[opena[k].parent as int].g_cost + spec_step_cost(
            closed[opena[k].parent as int].pos,
            opena[k].pos,
        )
    } by {
        if k < best {
            assert(opena[k] == open0[k]);
        } else {
            assert(opena[k] == open0[k + 1]);
        }
    }
    assert forall|k: int, l: int|
        0 <= k < l < opena.len() implies (#[trigger] opena[k]).pos != (
    #[trigger] opena[l]).pos by {
        let k0 = if k < best { k } else { k + 1 };
        let l0 = if l < best { l } else { l + 1 };
        assert(opena[k] == open0[k0]);
        assert(opena[l] == open0[l0]);
    }
    assert forall|t: Tile| has_pos(open0, t) implies has_pos(opena, t) || t
        == open0[best].pos by {
        let k = choose|k: int| 0 <= k < open0.len() && open0[k].pos == t;
        if k < best {
            assert(opena[k].pos == t);
        } else if k > best {
            assert(opena[k - 1].pos == t);
        }
    }
}

/// Appending the goal to the reconstructed chain yields a route of cost
/// equal to the goal node's accumulated cost, still visiting no tile
/// twice: the goal was never expanded, so it differs from every chain
/// tile.
proof fn lemma_goal_path(closed: Seq<Node>, prefix: Seq<Tile>, full: Seq<Tile>, e: Node)
    requires
        full == prefix.push(e.pos),
        prefix.len() >= 1,
        0 <= (e.parent as int) < closed.len(),
        walk_cost(prefix) == closed[e.parent as int].g_cost,
        prefix[prefix.len() - 1] == closed[e.parent as int].pos,
        e.g_cost == closed[e.parent as int].g_cost + spec_step_cost(
            closed[e.parent as int].pos,
            e.pos,
        ),
        forall|k: int| 0 <= k < prefix.len() ==> has_pos(closed, #[trigger] prefix[k]),
        forall|i: int| 0 <= i < closed.len() ==> (#[trigger] closed[i]).pos != e.pos,
        forall|a: int, b: int| 0 <= a < b < prefix.len() ==> prefix[a] != prefix[b],
    ensures
        walk_cost(full) == e.g_cost,
        forall|a: int, b: int| 0 <= a < b < full.len() ==> full[a] != full[b],
{
    lemma_walk_cost_push(prefix, e.pos);
    assert forall|a: int, b: int| 0 <= a < b < full.len() implies full[a] != full[b] by {
        if b == full.len() - 1 {
            assert(full[a] == prefix[a]);
            assert(has_pos(closed, prefix[a]));
            let j = choose|j: int| 0 <= j < closed.len() && closed[j].pos == prefix[a];
            assert(closed[j].pos != e.pos);
        } else {
            assert(full[a] == prefix[a] && full[b] == prefix[b]);
        }
    }
}

/// Grid search from `start` to `goal` over the traversable tiles. Returns
/// the tiles of a route together with its total cost under the 10/14 step
/// cost model: `start` first, `goal` last, consecutive tiles 8-adjacent,
/// every tile traversable and no tile visited twice; or `None` exactly
/// when no such route exists.
#[verifier::rlimit(100)]
pub fn astar(tiles: &Vec<Tile>, start: Tile, goal: Tile) -> (r: Option<(Vec<Tile>, u128)>)
    ensures
        r matches Some((path, cost)) ==> {
            &&& is_walk(tiles@, path@)
            &&& path@[0] == start
            &&& path@[path@.len() - 1] == goal
            &&& forall|a: int, b: int| 0 <= a < b < path@.len() ==> path@[a] != path@[b]
            &&& cost == walk_cost(path@)
        },
        r is None ==> !reachable(tiles@, start, goal),
{
    if !tiles_contain(tiles, &start) {
        proof {
            if reachable(tiles@, start, goal) {
                let walk = choose|w: Seq<Tile>|
                    is_walk(tiles@, w) && w[0] == start && w[w.len() - 1] == goal;
                assert(contains_tile(tiles@, walk[0]));
            }
        }
        return None;
    }
    if !tiles_contain(tiles, &goal) {
        proof {
            if reachable(tiles@, start, goal) {
                let walk = choose|w: Seq<Tile>|
                    is_walk(tiles@, w) && w[0] == start && w[w.len() - 1] == goal;
                assert(contains_tile(tiles@, walk[walk.len() - 1]));
            }
        }
        return None;
    }
    if start == goal {
        let mut path: Vec<Tile> = Vec::new();
        path.push(start);
        return Some((path, 0));
    }


    let h0 = start.octile(&goal) as u128;
    let mut closed: Vec<Node> = Vec::new();
    closed.push(Node { pos: start, parent: 0, g_cost: 0, h_cost: h0, f_cost: h0 });
    let mut open: Vec<Node> = Vec::new();
    let start_nbrs = get_neighbours(&start, tiles);
    let mut n: usize = 0;
    while n < start_nbrs.len()
        invariant
            n <= start_nbrs@.len(),
            closed@.len() == 1,
            closed@[0].pos == start,
            closed@[0].parent == 0,
            closed@[0].g_cost == 0,
            forall|k: int|
                0 <= k < start_nbrs@.len() ==> {
                    &&& adjacent(start, (#[trigger] start_nbrs@[k]).0)
                    &&& contains_tile(tiles@, start_nbrs@[k].0)
                    &&& start_nbrs@[k].1 == spec_step_cost(start, start_nbrs@[k].0)
                },
            forall|k: int|
                0 <= k < open@.len() ==> {
                    &&& contains_tile(tiles@, (#[trigger] open@[k]).pos)
                    &&& open@[k].parent == 0
                    &&& adjacent(start, open@[k].pos)
                    &&& open@[k].g_cost <= 14
                    &&& open@[k].g_cost == spec_step_cost(start, open@[k].pos)
                },
            forall|k: int, l: int|
                0 <= k < l < open@.len() ==> (#[trigger] open@[k]).pos != (#[trigger] open@[l]).pos,
            forall|j: int| 0 <= j < n ==> has_pos(open@, (#[trigger] start_nbrs@[j]).0),
        decreases start_nbrs@.len() - n,
    {
        let (t, c) = start_nbrs[n];
        let ghost open0 = open@;
        match find_node(&open, &t) {
            Some(k) => {
                proof {
                    assert(open@[k as int].pos == t);
                }
            },
            None => {
                let h = t.octile(&goal) as u128;
                let g = c as u128;
                open.push(Node { pos: t, parent: 0, g_cost: g, h_cost: h, f_cost: g + h });
                proof {
                    assert((open@[open@.len() - 1]).pos == t);
                    assert(c as int == spec_step_cost(start, t));
                }
            },
        }
        proof {
            assert forall|j: int|
                0 <= j < n + 1 implies has_pos(open@, (#[trigger] start_nbrs@[j]).0) by {
                if j < n {
                    let k = choose|k: int| 0 <= k < open0.len() && open0[k].pos == start_nbrs@[j].0;
                    assert(open@[k].pos == start_nbrs@[j].0);
                } else {
                    assert(has_pos(open@, t));
                }
            }
        }
        n = n + 1;
    }
    proof {
        assert forall|k: int|
            0 <= k < open@.len() implies !has_pos(closed@, (#[trigger] open@[k]).pos) by {
            assert(adjacent(start, open@[k].pos));
        }
        assert forall|i: int, t: Tile|
            0 <= i < closed@.len() && contains_tile(tiles@, t) && #[trigger] adjacent(
                closed@[i].pos,
                t,
            ) implies has_pos(closed@, t) || has_pos(open@, t) by {
            assert(closed@[i].pos == start);
            assert(has_pos(open@, t));
        }
        lemma_expanded_bound(tiles@, closed@);
    }

    while open.len() > 0
        invariant
            contains_tile(tiles@, goal),
            1 <= closed@.len() <= tiles@.len(),
            closed@[0].pos == start,
            closed@[0].parent == 0,
            closed@[0].g_cost == 0,
            forall|i: int|
                0 <= i < closed@.len() ==> contains_tile(tiles@, (#[trigger] closed@[i]).pos),
            forall|i: int|
                1 <= i < closed@.len() ==> ((#[trigger] closed@[i]).parent as int) < i && adjacent(
                    closed@[closed@[i].parent as int].pos,
                    closed@[i].pos,
                ),
            forall|i: int|
                1 <= i < closed@.len() ==> (#[trigger] closed@[i]).g_cost
                    == closed@[closed@[i].parent as int].g_cost + spec_step_cost(
                    closed@[closed@[i].parent as int].pos,
                    closed@[i].pos,
                ),
            forall|i: int, j: int|
                0 <= i < j < closed@.len() ==> (#[trigger] closed@[i]).pos != (
                #[trigger] closed@[j]).pos,
            forall|i: int| 0 <= i < closed@.len() ==> (#[trigger] closed@[i]).pos != goal,
            forall|k: int|
                0 <= k < open@.len() ==> {
                    &&& contains_tile(tiles@, (#[trigger] open@[k]).pos)
                    &&& (open@[k].parent as int) < closed@.len()
                    &&& adjacent(closed@[open@[k].parent as int].pos, open@[k].pos)
                    &&& !has_pos(closed@, open@[k].pos)
                    &&& open@[k].g_cost <= 14 * closed@.len()
                    &&& open@[k].g_cost == closed@[open@[k].parent as int].g_cost + spec_step_cost(
                        closed@[open@[k].parent as int].pos,
                        open@[k].pos,
                    )
                },
            forall|k: int, l: int|
                0 <= k < l < open@.len() ==> (#[trigger] open@[k]).pos != (#[trigger] open@[l]).pos,
            forall|i: int, t: Tile|
                0 <= i < closed@.len() && contains_tile(tiles@, t) && #[trigger] adjacent(
                    closed@[i].pos,
                    t,
                ) ==> has_pos(closed@, t) || has_pos(open@, t),
        decreases tiles@.len() - closed@.len(),
    {
        let best = pick_best(&open);
        let ghost open0 = open@;
        let e = open.remove(best);
        proof {
            open0.remove_ensures(best as int);
            assert(e == open0[best as int]);
            lemma_open_after_remove(tiles@, closed@, open0, open@, best as int);
        }
        if e.pos == goal {
            let mut path = reconstruct(tiles, &closed, e.parent);
            let ghost prefix = path@;
            proof {
                assert(adjacent(closed@[e.parent as int].pos, e.pos));
            }
            path.push(e.pos);
            proof {
                lemma_goal_path(closed@, prefix, path@, e);
            }
            return Some((path, e.g_cost));
        }
        let new_idx = closed.len();
        let ghost closed0 = closed@;
        closed.push(
            Node { pos: e.pos, parent: e.parent, g_cost: e.g_cost, h_cost: e.h_cost, f_cost: e.f_cost },
        );
        proof {
            assert((closed@[new_idx as int]).pos == e.pos);
            assert forall|i: int, j: int|
                0 <= i < j < closed@.len() implies (#[trigger] closed@[i]).pos != (
            #[trigger] closed@[j]).pos by {
                if j == new_idx {
                    assert(!has_pos(closed0, e.pos));
                    assert(closed0[i].pos != e.pos);
                }
            }
            assert forall|k: int|
                0 <= k < open@.len() implies !has_pos(closed@, (#[trigger] open@[k]).pos) by {
                assert(!has_pos(closed0, open@[k].pos));
                if has_pos(closed@, open@[k].pos) {
                    let j = choose|j: int| 0 <= j < closed@.len() && closed@[j].pos == open@[k].pos;
                    if j < new_idx {
                        assert(closed0[j].pos == open@[k].pos);
                    } else {
                        let k0 = if k < best { k } else { k + 1 };
                        assert(open0[k0].pos == e.pos);
                        assert(open0[best as int].pos == e.pos);
                        assert(k0 != best);
                    }
                }
            }
            assert forall|i: int, t: Tile|
                0 <= i < closed@.len() - 1 && contains_tile(tiles@, t) && #[trigger] adjacent(
                    closed@[i].pos,
                    t,
                ) implies has_pos(closed@, t) || has_pos(open@, t) by {
                assert(closed@[i] == closed0[i]);
                assert(has_pos(closed0, t) || has_pos(open0, t));
                if has_pos(closed0, t) {
                    let j = choose|j: int| 0 <= j < closed0.len() && closed0[j].pos == t;
                    assert(closed@[j].pos == t);
                } else {
                    assert(has_pos(open@, t) || t == e.pos);
                    if t == e.pos {
                        assert(closed@[new_idx as int].pos == t);
                    }
                }
            }
            lemma_expanded_bound(tiles@, closed@);
        }
        let current = closed[new_idx].pos;
        let nbrs = get_neighbours(&current, tiles);
        let e_g = closed[new_idx].g_cost;
        let mut n: usize = 0;
        while n < nbrs.len()
            invariant
                n <= nbrs@.len(),
                contains_tile(tiles@, goal),
                1 <= closed@.len() <= tiles@.len(),
                new_idx == closed@.len() - 1,
                closed@[0].pos == start,
                closed@[0].parent == 0,
                current == (closed@[new_idx as int]).pos,
                e_g == (closed@[new_idx as int]).g_cost,
                e_g <= 14 * (closed@.len() - 1),
                forall|k: int|
                    0 <= k < nbrs@.len() ==> {
                        &&& adjacent(current, (#[trigger] nbrs@[k]).0)
                        &&& contains_tile(tiles@, nbrs@[k].0)
                        &&& nbrs@[k].1 == spec_step_cost(current, nbrs@[k].0)
                    },
                forall|i: int|
                    0 <= i < closed@.len() ==> contains_tile(tiles@, (#[trigger] closed@[i]).pos),
                forall|i: int|
                    1 <= i < closed@.len() ==> ((#[trigger] closed@[i]).parent as int) < i
                        && adjacent(closed@[closed@[i].parent as int].pos, closed@[i].pos),
                closed@[0].g_cost == 0,
                forall|i: int|
                    1 <= i < closed@.len() ==> (#[trigger] closed@[i]).g_cost
                        == closed@[closed@[i].parent as int].g_cost + spec_step_cost(
                        closed@[closed@[i].parent as int].pos,
                        closed@[i].pos,
                    ),
                forall|i: int, j: int|
                    0 <= i < j < closed@.len() ==> (#[trigger] closed@[i]).pos != (
                    #[trigger] closed@[j]).pos,
                forall|i: int| 0 <= i < closed@.len() ==> (#[trigger] closed@[i]).pos != goal,
                forall|k: int|
                    0 <= k < open@.len() ==> {
                        &&& contains_tile(tiles@, (#[trigger] open@[k]).pos)
                        &&& (open@[k].parent as int) < closed@.len()
                        &&& adjacent(closed@[open@[k].parent as int].pos, open@[k].pos)
                        &&& !has_pos(closed@, open@[k].pos)
                        &&& open@[k].g_cost <= 14 * closed@.len()
                        &&& open@[k].g_cost == closed@[open@[k].parent as int].g_cost
                            + spec_step_cost(
                            closed@[open@[k].parent as int].pos,
                            open@[k].pos,
                        )
                    },
                forall|k: int, l: int|
                    0 <= k < l < open@.len() ==> (#[trigger] open@[k]).pos != (
                    #[trigger] open@[l]).pos,
                forall|i: int, t: Tile|
                    0 <= i < closed@.len() - 1 && contains_tile(tiles@, t) && #[trigger] adjacent(
                        closed@[i].pos,
                        t,
                    ) ==> has_pos(closed@, t) || has_pos(open@, t),
                forall|j: int|
                    0 <= j < n ==> has_pos(closed@, (#[trigger] nbrs@[j]).0) || has_pos(
                        open@,
                        nbrs@[j].0,
                    ),
            decreases nbrs@.len() - n,
        {
            let (t, c) = nbrs[n];
            let ghost openb = open@;
            match find_node(&closed, &t) {
                Some(j) => {
                    proof {
                        assert(closed@[j as int].pos == t);
                        assert(has_pos(closed@, t));
                    }
                },
                None => {
                    proof {
                        assert(c as int == spec_step_cost(current, t));
                        assert(c <= 14);
                    }
                    let g = e_g + c as u128;
                    let h = t.octile(&goal) as u128;
                    match find_node(&open, &t) {
                        Some(k) => {
                            if g < open[k].g_cost {
                                open.set(
                                    k,
                                    Node {
                                        pos: t,
                                        parent: new_idx,
                                        g_cost: g,
                                        h_cost: h,
                                        f_cost: g + h,
                                    },
                                );
                                proof {
                                    assert((open@[k as int]).pos == t);
                                    assert forall|t2: Tile|
                                        has_pos(openb, t2) implies has_pos(open@, t2) by {
                                        let k2 = choose|k2: int|
                                            0 <= k2 < openb.len() && openb[k2].pos == t2;
                                        if k2 == k {
                                            assert(open@[k2].pos == t2);
                                        } else {
                                            assert(open@[k2] == openb[k2]);
                                        }
                                    }
                                }
                            } else {
                                proof {
                                    assert(open@[k as int].pos == t);
                                    assert(has_pos(open@, t));
                                }
                            }
                        },
                        None => {
                            open.push(
                                Node {
                                    pos: t,
                                    parent: new_idx,
                                    g_cost: g,
                                    h_cost: h,
                                    f_cost: g + h,
                                },
                            );
                            proof {
                                assert((open@[open@.len() - 1]).pos == t);
                                assert forall|t2: Tile|
                                    has_pos(openb, t2) implies has_pos(open@, t2) by {
                                    let k2 = choose|k2: int|
                                        0 <= k2 < openb.len() && openb[k2].pos == t2;
                                    assert(open@[k2].pos == t2);
                                }
                            }
                        },
                    }
                },
            }
            proof {
                assert forall|j: int|
                    0 <= j < n + 1 implies has_pos(closed@, (#[trigger] nbrs@[j]).0) || has_pos(
                    open@,
                    nbrs@[j].0,
                ) by {
                    if j < n {
                        if has_pos(openb, nbrs@[j].0) {
                            assert(has_pos(open@, nbrs@[j].0));
                        }
                    } else {
                        assert(has_pos(closed@, t) || has_pos(open@, t));
                    }
                }
                assert forall|i: int, t2: Tile|
                    0 <= i < closed@.len() - 1 && contains_tile(tiles@, t2) && #[trigger] adjacent(
                        closed@[i].pos,
                        t2,
                    ) implies has_pos(closed@, t2) || has_pos(open@, t2) by {
                    if has_pos(openb, t2) {
                        assert(has_pos(open@, t2));
                    }
                }
            }
            n = n + 1;
        }
        proof {
            assert forall|i: int, t: Tile|
                0 <= i < closed@.len() && contains_tile(tiles@, t) && #[trigger] adjacent(
                    closed@[i].pos,
                    t,
                ) implies has_pos(closed@, t) || has_pos(open@, t) by {
                if i == closed@.len() - 1 {
                    let k = choose|k: int| 0 <= k < nbrs@.len() && (#[trigger] nbrs@[k]).0 == t;
                    assert(has_pos(closed@, nbrs@[k].0) || has_pos(open@, nbrs@[k].0));
                }
            }
        }
    }
    proof {
        if reachable(tiles@, start, goal) {
            let walk = choose|w: Seq<Tile>|
                is_walk(tiles@, w) && w[0] == start && w[w.len() - 1] == goal;
            assert(has_pos(closed@, walk[0])) by {
                assert(closed@[0].pos == start);
            }
            assert forall|j: int, t: Tile|
                0 <= j < closed@.len() && contains_tile(tiles@, t) && #[trigger] adjacent(
                    closed@[j].pos,
                    t,
                ) implies has_pos(closed@, t) by {
                assert(has_pos(closed@, t) || has_pos(open@, t));
            }
            lemma_walk_stays_expanded(tiles@, closed@, walk, walk.len() - 1);
            assert(false);
        }
    }
    None
}


/// The steps of a planned route: every stepped-on tile traversable, the
/// first step adjacent to `origin`, consecutive steps adjacent, the last
/// step on `destination`; every step's action is `Walk` except the last,
/// which carries the caller-supplied terminal interaction. An empty route
/// is only valid when the origin already is the destination.
pub open spec fn is_route(
    tiles: Seq<Tile>,
    origin: Tile,
    destination: Tile,
    terminal: LeftClick,
    steps: Seq<(LeftClick, Tile)>,
) -> bool {
    &&& forall|i: int| 0 <= i < steps.len() ==> contains_tile(tiles, (#[trigger] steps[i]).1)
    &&& (steps.len() == 0 ==> origin == destination)
    &&& (steps.len() > 0 ==> adjacent(origin, steps[0].1) && steps[steps.len() - 1].1
        == destination)
    &&& forall|i: int| 0 <= i < steps.len() - 1 ==> adjacent((#[trigger] steps[i]).1, steps[i + 1].1)
    &&& forall|i: int| 0 <= i < steps.len() - 1 ==> (#[trigger] steps[i]).0 == LeftClick::Walk
    &&& (steps.len() > 0 ==> steps[steps.len() - 1].0 == terminal)
}

/// Plan a route from `origin` to `destination` over the traversable tiles.
/// Returns the ordered steps, destination inclusive and origin exclusive,
/// each preceding step a `Walk` and the terminal step carrying
/// `left_click`; no tile is stepped on twice and none of the steps returns
/// to the origin; or `None` exactly when no route exists.
pub fn find_path(
    origin: Tile,
    destination: Tile,
    left_click: LeftClick,
    tiles: &Vec<Tile>,
) -> (r: Option<Vec<(LeftClick, Tile)>>)
    ensures
        r matches Some(steps) ==> is_route(tiles@, origin, destination, left_click, steps@),
        r matches Some(steps) ==> {
            &&& forall|a: int, b: int|
                0 <= a < b < steps@.len() ==> (#[trigger] steps@[a]).1 != (#[trigger] steps@[b]).1
            &&& forall|a: int| 0 <= a < steps@.len() ==> (#[trigger] steps@[a]).1 != origin
        },
        r is Some ==> reachable(tiles@, origin, destination),
        r is None ==> !reachable(tiles@, origin, destination),
{
    match astar(tiles, origin, destination) {
        Some((path, _)) => {
            proof {
                assert(is_walk(tiles@, path@) && path@[0] == origin && path@[path@.len() - 1]
                    == destination);
                assert(reachable(tiles@, origin, destination));
            }
            let mut steps: Vec<(LeftClick, Tile)> = Vec::new();
            let mut i: usize = 1;
            while i + 1 < path.len()
                invariant
                    1 <= i <= path@.len() || (path@.len() == 1 && i == 1),
                    i < path@.len() || i == 1,
                    is_walk(tiles@, path@),
                    path@[0] == origin,
                    path@[path@.len() - 1] == destination,
                    steps@.len() == i - 1,
                    forall|j: int| 0 <= j < steps@.len() ==> (#[trigger] steps@[j]).1 == path@[j + 1],
                    forall|j: int| 0 <= j < steps@.len() ==> (#[trigger] steps@[j]).0 == LeftClick::Walk,
                decreases path@.len() - i,
            {
                steps.push((LeftClick::Walk, path[i]));
                i = i + 1;
            }
            if i < path.len() {
                steps.push((left_click, path[i]));
            }
            proof {
                assert forall|a: int|
                    0 <= a < steps@.len() implies (#[trigger] steps@[a]).1 == path@[a + 1] by {}
                assert forall|a: int, b: int|
                    0 <= a < b < steps@.len() implies (#[trigger] steps@[a]).1 != (
                #[trigger] steps@[b]).1 by {
                    assert(path@[a + 1] != path@[b + 1]);
                }
                assert forall|a: int|
                    0 <= a < steps@.len() implies (#[trigger] steps@[a]).1 != origin by {
                    assert(path@[0] != path@[a + 1]);
                }
                if path@.len() > 1 {
                    assert(steps@.len() == path@.len() - 1);
                    assert(steps@[steps@.len() - 1].1 == path@[path@.len() - 1]);
                    assert forall|j: int| 0 <= j < steps@.len() - 1 implies adjacent(
                        (#[trigger] steps@[j]).1,
                        steps@[j + 1].1,
                    ) by {
                        assert(steps@[j].1 == path@[j + 1]);
                        assert(steps@[j + 1].1 == path@[j + 2]);
                        assert(adjacent(path@[j + 1], path@[j + 1 + 1]));
                    }
                    assert(adjacent(path@[0], path@[0int + 1]));
                } else {
                    assert(path@[0] == origin && path@[0] == destination);
                }
            }
            Some(steps)
        },
        None => None,
    }
}

} // verus!
