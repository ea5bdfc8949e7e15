//! Shortest routes over owned land: breadth-first search on the 4-connected
//! grid restricted to the coordinates a map holds. Unowned land is
//! impassable.
use vstd::prelude::*;
use crate::coord_map::{lemma_entries_map_index, Coord, CoordMap};
use crate::tile::{shift, shifted};

verus! {

/// `a` and `b` are one step apart along x or along y.
pub open spec fn adjacent(a: Coord, b: Coord) -> bool {
    (a.0 == b.0 && (a.1 - b.1 == 1 || b.1 - a.1 == 1)) || (a.1 == b.1 && (a.0 - b.0 == 1 || b.0 - a.0 == 1))
}

/// The step taken in direction `k`: down, up, right, left.
pub open spec fn direction(k: int) -> (int, int) {
    if k == 0 {
        (0, 1)
    } else if k == 1 {
        (0, -1)
    } else if k == 2 {
        (1, 0)
    } else {
        (-1, 0)
    }
}

/// The coordinate before step `i` of `path` when walking it from `start`.
pub open spec fn step_from(start: Coord, path: Seq<Coord>, i: int) -> Coord {
    if i == 0 { start } else { path[i - 1] }
}

/// `path` lists the steps of a walk from `start` over owned land: each step
/// is owned and adjacent to the one before it.
pub open spec fn is_walk<V>(owned: Map<Coord, V>, start: Coord, path: Seq<Coord>) -> bool {
    forall|i: int| 0 <= i < path.len() ==>
        owned.contains_key(#[trigger] path[i]) && adjacent(step_from(start, path, i), path[i])
}

/// Walking `path` from `start` ends at `target`.
pub open spec fn walk_ends(start: Coord, path: Seq<Coord>, target: Coord) -> bool {
    if path.len() == 0 { start == target } else { path.last() == target }
}

/// `target` can be reached from the owned coordinate `start` over owned land.
pub open spec fn reachable<V>(owned: Map<Coord, V>, start: Coord, target: Coord) -> bool {
    owned.contains_key(start)
        && exists|path: Seq<Coord>| is_walk(owned, start, path) && walk_ends(start, path, target)
}

/// A walk from a member of a set that is closed under steps over owned land
/// stays in the set.
proof fn lemma_closed_walk<V>(owned: Map<Coord, V>, s: Set<Coord>, start: Coord, path: Seq<Coord>, i: int)
    requires
        s.contains(start),
        forall|a: Coord, b: Coord| s.contains(a) && owned.contains_key(b) && #[trigger] adjacent(a, b) ==> s.contains(b),
        is_walk(owned, start, path),
        0 <= i < path.len(),
    ensures
        s.contains(path[i]),
    decreases i,
{
    if i > 0 {
        lemma_closed_walk(owned, s, start, path, i - 1);
    }
    assert(owned.contains_key(path[i]) && adjacent(step_from(start, path, i), path[i]));
}

/// Every coordinate adjacent to `a` is `a` moved in one of the four directions.
proof fn lemma_adjacent_direction(a: Coord, b: Coord) -> (k: int)
    requires
        adjacent(a, b),
    ensures
        0 <= k < 4,
        shifted(a, direction(k).0, direction(k).1) == Some(b),
{
    if b.1 == a.1 + 1 { 0 } else if b.1 == a.1 - 1 { 1 } else if b.0 == a.0 + 1 { 2 } else { 3 }
}

/// The entries marked in `visited`.
pub open spec fn marked(visited: Seq<bool>) -> Set<int> {
    Set::new(|i: int| 0 <= i < visited.len() && visited[i])
}

proof fn lemma_marked_bound(visited: Seq<bool>)
    ensures
        marked(visited).finite(),
        marked(visited).len() <= visited.len(),
{
    vstd::set_lib::lemma_int_range(0, visited.len() as int);
    vstd::set_lib::lemma_len_subset(marked(visited), vstd::set_lib::set_int_range(0, visited.len() as int));
}

/// The search state's invariant. Entry `i` stands for the coordinate
/// `tiles.entries@[i].0`; `visited` marks the entries found so far, `queue`
/// lists them in the order found, the first `head` of them expanded,
/// `rank[i]` is the position of entry `i` in `queue`, and `depth[i]` the
/// number of steps of the route found to it. Depths never fall along the
/// queue and rise by at most one past its head, which makes each depth the
/// length of a shortest walk.
#[verifier::opaque]
pub open spec fn search_inv<V>(
    tiles: &CoordMap<V>,
    s: usize,
    t: usize,
    visited: Seq<bool>,
    parent: Seq<usize>,
    rank: Seq<usize>,
    depth: Seq<usize>,
    queue: Seq<usize>,
    head: int,
) -> bool {
    let n = tiles.entries@.len();
    &&& visited.len() == n && parent.len() == n && rank.len() == n && depth.len() == n
    &&& s < n && t < n
    &&& 0 <= head <= queue.len()
    &&& queue.len() == marked(visited).len()
    &&& visited[s as int]
    &&& depth[s as int] == 0
    &&& forall|k: int| 0 <= k < queue.len() ==> (#[trigger] queue[k]) < n && visited[queue[k] as int]
        && rank[queue[k] as int] == k
    &&& forall|i: int| 0 <= i < n && #[trigger] visited[i] ==> rank[i] < queue.len() && queue[rank[i] as int] == i
        && depth[i] <= rank[i]
    &&& forall|i: int| 0 <= i < n && #[trigger] visited[i] && i != s ==> {
        &&& parent[i] < n
        &&& visited[parent[i] as int]
        &&& adjacent(tiles.entries@[parent[i] as int].0, tiles.entries@[i].0)
        &&& rank[parent[i] as int] < rank[i]
        &&& depth[i] == depth[parent[i] as int] + 1
    }
    &&& forall|k1: int, k2: int| 0 <= k1 <= k2 < queue.len() ==>
        depth[#[trigger] queue[k1] as int] <= depth[#[trigger] queue[k2] as int]
    &&& head < queue.len() ==> forall|k: int| head <= k < queue.len() ==>
        depth[#[trigger] queue[k] as int] <= depth[queue[head] as int] + 1
    &&& forall|k: int| 0 <= k < head ==> (#[trigger] queue[k]) != t
    &&& forall|k: int, j: int| 0 <= k < head && 0 <= j < n
        && adjacent(tiles.entries@[#[trigger] queue[k] as int].0, #[trigger] tiles.entries@[j].0)
        ==> visited[j] && depth[j] <= depth[queue[k] as int] + 1
}

/// The state of a breadth-first search over the entries of a map.
struct Search {
    visited: Vec<bool>,
    parent: Vec<usize>,
    rank: Vec<usize>,
    depth: Vec<usize>,
    queue: Vec<usize>,
}

impl Search {
    spec fn inv<V>(&self, tiles: &CoordMap<V>, s: usize, t: usize, head: int) -> bool {
        search_inv(tiles, s, t, self.visited@, self.parent@, self.rank@, self.depth@, self.queue@, head)
    }

    /// A search with only entry `s` found.
    fn new<V: Copy>(tiles: &CoordMap<V>, s: usize, t: usize) -> (r: Search)
        requires
            s < tiles.entries@.len(),
            t < tiles.entries@.len(),
        ensures
            r.inv(tiles, s, t, 0),
    {
        reveal(search_inv);
        let n = tiles.entries.len();
        let mut visited: Vec<bool> = Vec::new();
        let mut parent: Vec<usize> = Vec::new();
        let mut rank: Vec<usize> = Vec::new();
        let mut depth: Vec<usize> = Vec::new();
        let mut i: usize = 0;
        while i < n
            invariant
                i <= n,
                visited@.len() == i && parent@.len() == i && rank@.len() == i && depth@.len() == i,
                forall|j: int| 0 <= j < i ==> !(#[trigger] visited@[j]),
                forall|j: int| 0 <= j < i ==> (#[trigger] rank@[j]) == 0,
                forall|j: int| 0 <= j < i ==> (#[trigger] depth@[j]) == 0,
            decreases n - i,
        {
            visited.push(false);
            parent.push(0);
            rank.push(0);
            depth.push(0);
            i = i + 1;
        }
        visited.set(s, true);
        assert(marked(visited@) =~= Set::<int>::empty().insert(s as int));
        let mut queue: Vec<usize> = Vec::new();
        queue.push(s);
        assert(queue@ =~= seq![s]);
        assert forall|i: int| 0 <= i < n && #[trigger] visited@[i] implies rank@[i] < queue@.len()
            && queue@[rank@[i] as int] == i && depth@[i] <= rank@[i] by {
            if i != s as int {
                assert(!visited@[i]);
            }
        }
        Search { visited, parent, rank, depth, queue }
    }

    /// Expands the entry at position `head` of the queue: every owned
    /// neighbour not found yet is found, with that entry as its parent.
    fn expand<V: Copy>(&mut self, tiles: &CoordMap<V>, s: usize, t: usize, head: usize)
        requires
            tiles.wf(),
            old(self).inv(tiles, s, t, head as int),
            head < old(self).queue@.len(),
            old(self).queue@[head as int] != t,
        ensures
            final(self).inv(tiles, s, t, head + 1),
    {
        proof {
            reveal(search_inv);
        }
        let n = tiles.entries.len();
        let u = self.queue[head];
        let cu = tiles.entries[u].0;
        let ghost du = self.depth@[u as int];
        let mut k: usize = 0;
        while k < 4
            invariant
                tiles.wf(),
                n == tiles.entries.len(),
                self.inv(tiles, s, t, head as int),
                head < self.queue@.len(),
                self.queue@[head as int] == u,
                u < n,
                du == self.depth@[u as int],
                u != t,
                cu == tiles.entries@[u as int].0,
                k <= 4,
                forall|d: int, j: int| #![trigger direction(d), tiles.entries@[j]] 0 <= d < k && 0 <= j < n
                    && shifted(cu, direction(d).0, direction(d).1) == Some(tiles.entries@[j].0)
                    ==> self.visited@[j] && self.depth@[j] <= du + 1,
            decreases 4 - k,
        {
            let (dx, dy): (i32, i32) = if k == 0 {
                (0, 1)
            } else if k == 1 {
                (0, -1)
            } else if k == 2 {
                (1, 0)
            } else {
                (-1, 0)
            };
            let sc = shift(cu, dx, dy);
            assert(sc == shifted(cu, direction(k as int).0, direction(k as int).1));
            let ghost before_visited = self.visited@;
            let ghost before_depth = self.depth@;
            proof {
                reveal(search_inv);
                if let Some(c) = sc {
                    assert(adjacent(cu, c));
                }
            }
            self.reach(tiles, s, t, head, u, sc);
            proof {
                assert forall|d: int, j: int| #![trigger direction(d), tiles.entries@[j]] 0 <= d < k + 1 && 0 <= j < n
                    && shifted(cu, direction(d).0, direction(d).1) == Some(tiles.entries@[j].0)
                    implies self.visited@[j] && self.depth@[j] <= du + 1 by {
                    if d == k {
                        assert(sc == Some(tiles.entries@[j].0));
                        assert(self.visited@[j] && self.depth@[j] <= du + 1);
                    } else {
                        assert(before_visited[j] && before_depth[j] <= du + 1);
                        assert(self.visited@[j]);
                        assert(self.depth@[j] == before_depth[j]);
                    }
                }
            }
            k = k + 1;
        }
        proof {
            lemma_expanded(tiles, s, t, self, head as int, u, cu);
        }
    }

    /// Finds the entry at `sc`, a neighbour of entry `u` at position `head`,
    /// if it is owned and was not found yet.
    fn reach<V: Copy>(&mut self, tiles: &CoordMap<V>, s: usize, t: usize, head: usize, u: usize, sc: Option<Coord>)
        requires
            tiles.wf(),
            old(self).inv(tiles, s, t, head as int),
            head < old(self).queue@.len(),
            old(self).queue@[head as int] == u,
            u < tiles.entries@.len(),
            sc matches Some(c) ==> adjacent(tiles.entries@[u as int].0, c),
        ensures
            final(self).inv(tiles, s, t, head as int),
            head < final(self).queue@.len(),
            final(self).queue@[head as int] == u,
            final(self).depth@[u as int] == old(self).depth@[u as int],
            forall|j: int| 0 <= j < tiles.entries@.len() && old(self).visited@[j] ==> #[trigger] final(self).visited@[j]
                && final(self).depth@[j] == old(self).depth@[j],
            forall|j: int| 0 <= j < tiles.entries@.len() && sc == Some(#[trigger] tiles.entries@[j].0) ==>
                final(self).visited@[j] && final(self).depth@[j] <= old(self).depth@[u as int] + 1,
    {
        proof {
            reveal(search_inv);
        }
        let n = tiles.entries.len();
        if let Some(c) = sc {
            if let Some(v) = tiles.index_of(c) {
                if !self.visited[v] {
                    self.visit(tiles, s, t, head, u, v);
                } else {
                    proof {
                        let r = self.rank@[v as int] as int;
                        assert(self.queue@[r] == v);
                        if r >= head {
                            assert(self.depth@[self.queue@[r] as int] <= self.depth@[self.queue@[head as int] as int] + 1);
                        } else {
                            assert(self.depth@[self.queue@[r] as int] <= self.depth@[self.queue@[head as int] as int]);
                        }
                    }
                }
                proof {
                    reveal(search_inv);
                    assert forall|j: int| 0 <= j < n && sc == Some(#[trigger] tiles.entries@[j].0) implies
                        self.visited@[j] && self.depth@[j] <= old(self).depth@[u as int] + 1 by {
                        if j != v as int {
                            assert(tiles.entries@[j].0 != tiles.entries@[v as int].0);
                        }
                    }
                }
            } else {
                proof {
                    assert forall|j: int| 0 <= j < n && sc == Some(#[trigger] tiles.entries@[j].0) implies
                        self.visited@[j] && self.depth@[j] <= old(self).depth@[u as int] + 1 by {
                        crate::coord_map::lemma_entries_map_index(tiles.entries@, j);
                    }
                }
            }
        }
    }

    /// Marks entry `v`, a neighbour of entry `u` at position `head`, as found.
    fn visit<V: Copy>(&mut self, tiles: &CoordMap<V>, s: usize, t: usize, head: usize, u: usize, v: usize)
        requires
            tiles.wf(),
            old(self).inv(tiles, s, t, head as int),
            head < old(self).queue@.len(),
            old(self).queue@[head as int] == u,
            v < tiles.entries@.len(),
            !old(self).visited@[v as int],
            adjacent(tiles.entries@[u as int].0, tiles.entries@[v as int].0),
        ensures
            final(self).inv(tiles, s, t, head as int),
            final(self).queue@.len() == old(self).queue@.len() + 1,
            final(self).queue@[head as int] == u,
            forall|j: int| 0 <= j < tiles.entries@.len() && old(self).visited@[j] ==> #[trigger] final(self).visited@[j]
                && final(self).depth@[j] == old(self).depth@[j],
            final(self).visited@[v as int],
            final(self).depth@[v as int] == old(self).depth@[u as int] + 1,
    {
        reveal(search_inv);
        proof {
            lemma_marked_bound(self.visited@);
            assert(!marked(self.visited@).contains(v as int));
            assert(self.rank@[u as int] == head);
        }
        let ghost old_visited = self.visited@;
        let ghost old_queue = self.queue@;
        let ghost old_depth = self.depth@;
        let ghost old_rank = self.rank@;
        let du = self.depth[u];
        self.visited.set(v, true);
        self.parent.set(v, u);
        self.rank.set(v, self.queue.len());
        self.depth.set(v, du + 1);
        self.queue.push(v);
        proof {
            assert(marked(self.visited@) =~= marked(old_visited).insert(v as int));
            assert forall|k2: int| 0 <= k2 < old_queue.len() implies self.queue@[k2] == old_queue[k2] && old_queue[k2] != v by {
                assert(old_visited[old_queue[k2] as int]);
            }
            let len = old_queue.len() as int;
            assert forall|k1: int, k2: int| 0 <= k1 <= k2 < self.queue@.len() implies
                self.depth@[#[trigger] self.queue@[k1] as int] <= self.depth@[#[trigger] self.queue@[k2] as int] by {
                if k2 == len {
                    if k1 < len {
                        if k1 >= head {
                            assert(old_depth[old_queue[k1] as int] <= old_depth[old_queue[head as int] as int] + 1);
                        } else {
                            assert(old_depth[old_queue[k1] as int] <= old_depth[old_queue[head as int] as int]);
                        }
                    }
                } else {
                    assert(old_depth[old_queue[k1] as int] <= old_depth[old_queue[k2] as int]);
                }
            }
            assert forall|k2: int| head <= k2 < self.queue@.len() implies
                self.depth@[#[trigger] self.queue@[k2] as int] <= self.depth@[self.queue@[head as int] as int] + 1 by {
                if k2 < len {
                    assert(old_depth[old_queue[k2] as int] <= old_depth[old_queue[head as int] as int] + 1);
                }
            }
            assert forall|i: int| 0 <= i < tiles.entries@.len() && #[trigger] self.visited@[i] implies
                self.rank@[i] < self.queue@.len() && self.queue@[self.rank@[i] as int] == i && self.depth@[i] <= self.rank@[i] by {
                if i != v as int {
                    assert(old_visited[i]);
                }
            }
            assert forall|k2: int, j: int| 0 <= k2 < head && 0 <= j < tiles.entries@.len()
                && adjacent(tiles.entries@[#[trigger] self.queue@[k2] as int].0, #[trigger] tiles.entries@[j].0)
                implies self.visited@[j] && self.depth@[j] <= self.depth@[self.queue@[k2] as int] + 1 by {
                assert(self.queue@[k2] == old_queue[k2]);
                assert(old_visited[j]);
            }
        }
    }
}

/// The route from `start` to `target` over owned land, if there is one: the
/// coordinates stepped onto, in order, ending at `target` (empty when
/// `start == target`). `None` when either end is not owned or `target`
/// cannot be reached.
pub fn find_route<V: Copy>(tiles: &CoordMap<V>, start: Coord, target: Coord) -> (r: Option<Vec<Coord>>)
    requires
        tiles.wf(),
    ensures
        match r {
            Some(path) => {
                &&& tiles@.contains_key(start)
                &&& is_walk(tiles@, start, path@)
                &&& walk_ends(start, path@, target)
                &&& forall|q: Seq<Coord>| is_walk(tiles@, start, q) && walk_ends(start, q, target)
                    ==> path@.len() <= #[trigger] q.len()
            },
            None => !reachable(tiles@, start, target),
        },
{
    let s = match tiles.index_of(start) {
        Some(i) => i,
        None => {
            return None;
        },
    };
    let t = match tiles.index_of(target) {
        Some(i) => i,
        None => {
            proof {
                if reachable(tiles@, start, target) {
                    let path = choose|path: Seq<Coord>| is_walk(tiles@, start, path) && walk_ends(start, path, target);
                    if path.len() > 0 {
                        assert(tiles@.contains_key(path[path.len() - 1]));
                    }
                }
            }
            return None;
        },
    };
    let n = tiles.entries.len();
    let mut search = Search::new(tiles, s, t);
    let mut head: usize = 0;
    let mut found = false;
    loop
        invariant_except_break
            !found,
        invariant
            tiles.wf(),
            n == tiles.entries.len(),
            s < n && t < n,
            tiles.entries@[s as int].0 == start,
            tiles.entries@[t as int].0 == target,
            search.inv(tiles, s, t, head as int),
        ensures
            search.inv(tiles, s, t, head as int),
            found ==> head < search.queue@.len() && search.queue@[head as int] == t,
            !found ==> head >= search.queue@.len(),
        decreases n - head,
    {
        proof {
            lemma_head_bound(tiles, s, t, &search, head as int);
        }
        if head >= search.queue.len() {
            break;
        }
        if search.queue[head] == t {
            found = true;
            break;
        }
        search.expand(tiles, s, t, head);
        head = head + 1;
    }
    if !found {
        proof {
            lemma_unreachable(tiles, s, t, &search, head as int, start, target);
        }
        return None;
    }
    proof {
        crate::coord_map::lemma_entries_map_index(tiles.entries@, s as int);
        lemma_shortest(tiles, s, t, &search, head as int, start, target);
    }
    Some(trace_back(tiles, s, t, &search, head, target))
}

proof fn lemma_head_bound<V: Copy>(tiles: &CoordMap<V>, s: usize, t: usize, search: &Search, head: int)
    requires
        search.inv(tiles, s, t, head),
    ensures
        head <= search.queue@.len() <= tiles.entries@.len(),
{
    reveal(search_inv);
    lemma_marked_bound(search.visited@);
}

/// When every found entry has been expanded without meeting `t`, the entry
/// `t` cannot be reached from `s`.
proof fn lemma_unreachable<V: Copy>(tiles: &CoordMap<V>, s: usize, t: usize, search: &Search, head: int, start: Coord, target: Coord)
    requires
        tiles.wf(),
        tiles.entries@[s as int].0 == start,
        tiles.entries@[t as int].0 == target,
        search.inv(tiles, s, t, head),
        head >= search.queue@.len(),
    ensures
        !reachable(tiles@, start, target),
{
    reveal(search_inv);
    let n = tiles.entries@.len();
    let visited = search.visited@;
    let key_set = Set::new(|c: Coord| exists|i: int| 0 <= i < n && visited[i] && #[trigger] tiles.entries@[i].0 == c);
    assert forall|a: Coord, b: Coord| key_set.contains(a) && tiles@.contains_key(b) && #[trigger] adjacent(a, b)
        implies key_set.contains(b) by {
        let i = choose|i: int| 0 <= i < n && visited[i] && #[trigger] tiles.entries@[i].0 == a;
        let j = crate::coord_map::lemma_entries_map_witness(tiles.entries@, b);
        let k2 = search.rank@[i] as int;
        assert(search.queue@[k2] == i);
        assert(visited[j]);
    }
    assert(key_set.contains(start)) by {
        assert(visited[s as int]);
    }
    if reachable(tiles@, start, target) {
        let path = choose|path: Seq<Coord>| is_walk(tiles@, start, path) && walk_ends(start, path, target);
        if path.len() > 0 {
            lemma_closed_walk(tiles@, key_set, start, path, path.len() - 1);
        }
        assert(key_set.contains(target));
        let i = choose|i: int| 0 <= i < n && visited[i] && #[trigger] tiles.entries@[i].0 == target;
        assert(i == t as int) by {
            if i != t as int {
                assert(tiles.entries@[i].0 != tiles.entries@[t as int].0);
            }
        }
        let k2 = search.rank@[i] as int;
        assert(search.queue@[k2] != t);
    }
}

/// Once every neighbour of the entry at position `head` has been found at a
/// depth of at most one more than its own, that entry counts as expanded.
proof fn lemma_expanded<V: Copy>(tiles: &CoordMap<V>, s: usize, t: usize, search: &Search, head: int, u: usize, cu: Coord)
    requires
        search.inv(tiles, s, t, head),
        head < search.queue@.len(),
        search.queue@[head] == u,
        u != t,
        u < tiles.entries@.len(),
        cu == tiles.entries@[u as int].0,
        forall|d: int, j: int| #![trigger direction(d), tiles.entries@[j]] 0 <= d < 4 && 0 <= j < tiles.entries@.len()
            && shifted(cu, direction(d).0, direction(d).1) == Some(tiles.entries@[j].0)
            ==> search.visited@[j] && search.depth@[j] <= search.depth@[u as int] + 1,
    ensures
        search.inv(tiles, s, t, head + 1),
{
    reveal(search_inv);
    let queue = search.queue@;
    let depth = search.depth@;
    assert forall|k2: int, j: int| 0 <= k2 < head + 1 && 0 <= j < tiles.entries@.len()
        && adjacent(tiles.entries@[#[trigger] queue[k2] as int].0, #[trigger] tiles.entries@[j].0)
        implies search.visited@[j] && depth[j] <= depth[queue[k2] as int] + 1 by {
        if k2 == head {
            let d = lemma_adjacent_direction(cu, tiles.entries@[j].0);
        }
    }
    if head + 1 < queue.len() {
        assert forall|k2: int| head + 1 <= k2 < queue.len() implies
            depth[#[trigger] queue[k2] as int] <= depth[queue[head + 1] as int] + 1 by {
            assert(depth[queue[k2] as int] <= depth[queue[head] as int] + 1);
            assert(depth[queue[head] as int] <= depth[queue[head + 1] as int]);
        }
    }
}

/// The entry reached by the first `m` steps of a walk from `start`, when
/// `m` is at most the depth of the queue's head, has been found at a depth
/// of at most `m`.
proof fn lemma_prefix_depth<V: Copy>(tiles: &CoordMap<V>, s: usize, t: usize, search: &Search, head: int, start: Coord, q: Seq<Coord>, m: int) -> (j: int)
    requires
        tiles.wf(),
        tiles.entries@[s as int].0 == start,
        search.inv(tiles, s, t, head),
        head < search.queue@.len(),
        is_walk(tiles@, start, q),
        0 <= m <= q.len(),
        m <= search.depth@[search.queue@[head] as int],
    ensures
        0 <= j < tiles.entries@.len(),
        search.visited@[j],
        tiles.entries@[j].0 == (if m == 0 { start } else { q[m - 1] }),
        search.depth@[j] <= m,
    decreases m,
{
    reveal(search_inv);
    if m == 0 {
        s as int
    } else {
        let i = lemma_prefix_depth(tiles, s, t, search, head, start, q, m - 1);
        let k = search.rank@[i] as int;
        assert(search.queue@[k] == i);
        if k >= head {
            assert(search.depth@[search.queue@[head] as int] <= search.depth@[search.queue@[k] as int]);
        }
        assert(tiles@.contains_key(q[m - 1]) && adjacent(step_from(start, q, m - 1), q[m - 1]));
        let j = crate::coord_map::lemma_entries_map_witness(tiles.entries@, q[m - 1]);
        assert(adjacent(tiles.entries@[search.queue@[k] as int].0, tiles.entries@[j].0));
        j
    }
}

/// When the target's entry reaches the head of the queue, its depth is the
/// length of a shortest walk to it.
proof fn lemma_shortest<V: Copy>(tiles: &CoordMap<V>, s: usize, t: usize, search: &Search, head: int, start: Coord, target: Coord)
    requires
        tiles.wf(),
        tiles.entries@[s as int].0 == start,
        tiles.entries@[t as int].0 == target,
        search.inv(tiles, s, t, head),
        head < search.queue@.len(),
        search.queue@[head] == t,
    ensures
        forall|q: Seq<Coord>| is_walk(tiles@, start, q) && walk_ends(start, q, target)
            ==> search.depth@[t as int] <= #[trigger] q.len(),
{
    assert forall|q: Seq<Coord>| is_walk(tiles@, start, q) && walk_ends(start, q, target)
        implies search.depth@[t as int] <= #[trigger] q.len() by {
        if q.len() < search.depth@[t as int] {
            let j = lemma_prefix_depth(tiles, s, t, search, head, start, q, q.len() as int);
            reveal(search_inv);
            assert(j == t as int) by {
                if j != t as int {
                    assert(tiles.entries@[j].0 != tiles.entries@[t as int].0);
                }
            }
        }
    }
}

/// The route to `target` along parents, from the entry `t` back to `s`.
fn trace_back<V: Copy>(tiles: &CoordMap<V>, s: usize, t: usize, search: &Search, head: usize, target: Coord) -> (path: Vec<Coord>)
    requires
        tiles.wf(),
        tiles.entries@[t as int].0 == target,
        search.inv(tiles, s, t, head as int),
        head < search.queue@.len(),
        search.queue@[head as int] == t,
    ensures
        is_walk(tiles@, tiles.entries@[s as int].0, path@),
        walk_ends(tiles.entries@[s as int].0, path@, target),
        path@.len() == search.depth@[t as int],
{
    reveal(search_inv);
    let n = tiles.entries.len();
    let mut cur = t;
    let mut path: Vec<Coord> = Vec::new();
    while cur != s
        invariant
            tiles.wf(),
            n == tiles.entries.len(),
            search.inv(tiles, s, t, head as int),
            cur < n,
            search.visited@[cur as int],
            is_walk(tiles@, tiles.entries@[cur as int].0, path@),
            walk_ends(tiles.entries@[cur as int].0, path@, target),
            path@.len() + search.depth@[cur as int] == search.depth@[t as int],
        decreases search.rank@[cur as int],
    {
        proof {
            reveal(search_inv);
        }
        let c = tiles.entries[cur].0;
        let ghost old_path = path@;
        let p = search.parent[cur];
        proof {
            crate::coord_map::lemma_entries_map_index(tiles.entries@, cur as int);
        }
        path.insert(0, c);
        proof {
            let pc = tiles.entries@[p as int].0;
            assert forall|i: int| 0 <= i < path@.len() implies
                tiles@.contains_key(#[trigger] path@[i]) && adjacent(step_from(pc, path@, i), path@[i]) by {
                if i > 0 {
                    assert(path@[i] == old_path[i - 1]);
                    assert(tiles@.contains_key(old_path[i - 1]) && adjacent(step_from(c, old_path, i - 1), old_path[i - 1]));
                }
            }
        }
        cur = p;
    }
    path
}

/// A route found over a grid with holes never steps off owned land: every
/// coordinate it visits is owned, and each step moves to an adjacent one.
pub proof fn lemma_route_stays_owned<V>(owned: Map<Coord, V>, start: Coord, path: Seq<Coord>)
    requires
        is_walk(owned, start, path),
    ensures
        forall|i: int| 0 <= i < path.len() ==> owned.contains_key(#[trigger] path[i]),
        forall|i: int| 0 < i < path.len() ==> adjacent(path[i - 1], #[trigger] path[i]),
{
    assert forall|i: int| 0 < i < path.len() implies adjacent(path[i - 1], #[trigger] path[i]) by {
        assert(owned.contains_key(path[i]) && adjacent(step_from(start, path, i), path[i]));
    }
}

/// The Manhattan distance between two coordinates.
pub open spec fn manhattan(a: Coord, b: Coord) -> int {
    (if a.0 >= b.0 { a.0 - b.0 } else { b.0 - a.0 }) + (if a.1 >= b.1 { a.1 - b.1 } else { b.1 - a.1 })
}

/// `c` lies in the box spanned by `a` and `b`.
pub open spec fn in_box(a: Coord, b: Coord, c: Coord) -> bool {
    &&& (a.0 <= c.0 <= b.0 || b.0 <= c.0 <= a.0)
    &&& (a.1 <= c.1 <= b.1 || b.1 <= c.1 <= a.1)
}

/// Every coordinate of the box spanned by `a` and `b` is owned: the land
/// between them has no holes.
pub open spec fn box_owned<V>(owned: Map<Coord, V>, a: Coord, b: Coord) -> bool {
    forall|c: Coord| #[trigger] in_box(a, b, c) ==> owned.contains_key(c)
}

/// After `i + 1` steps of a walk, the walker is at most `i + 1` away from
/// where it started.
proof fn lemma_walk_distance<V>(owned: Map<Coord, V>, start: Coord, path: Seq<Coord>, i: int)
    requires
        is_walk(owned, start, path),
        0 <= i < path.len(),
    ensures
        manhattan(start, path[i]) <= i + 1,
    decreases i,
{
    if i > 0 {
        lemma_walk_distance(owned, start, path, i - 1);
    }
    assert(owned.contains_key(path[i]) && adjacent(step_from(start, path, i), path[i]));
}

/// A walk is never shorter than the Manhattan distance it covers.
pub proof fn lemma_walk_at_least_manhattan<V>(owned: Map<Coord, V>, start: Coord, target: Coord, path: Seq<Coord>)
    requires
        is_walk(owned, start, path),
        walk_ends(start, path, target),
    ensures
        path.len() >= manhattan(start, target),
{
    if path.len() > 0 {
        lemma_walk_distance(owned, start, path, path.len() - 1);
    }
}

/// A walk from `a` to `b` of length exactly their Manhattan distance, over
/// the box they span: first along x, then along y.
pub proof fn lemma_staircase<V>(owned: Map<Coord, V>, a: Coord, b: Coord) -> (path: Seq<Coord>)
    requires
        box_owned(owned, a, b),
    ensures
        is_walk(owned, a, path),
        walk_ends(a, path, b),
        path.len() == manhattan(a, b),
    decreases manhattan(a, b),
{
    if a == b {
        Seq::empty()
    } else {
        let next: Coord = if a.0 < b.0 {
            ((a.0 + 1) as i32, a.1)
        } else if a.0 > b.0 {
            ((a.0 - 1) as i32, a.1)
        } else if a.1 < b.1 {
            (a.0, (a.1 + 1) as i32)
        } else {
            (a.0, (a.1 - 1) as i32)
        };
        assert(in_box(a, b, next));
        assert forall|c: Coord| #[trigger] in_box(next, b, c) implies owned.contains_key(c) by {
            assert(in_box(a, b, c));
        }
        let rest = lemma_staircase(owned, next, b);
        let path = seq![next] + rest;
        assert forall|i: int| 0 <= i < path.len() implies
            owned.contains_key(#[trigger] path[i]) && adjacent(step_from(a, path, i), path[i]) by {
            if i > 0 {
                assert(path[i] == rest[i - 1]);
                assert(owned.contains_key(rest[i - 1]) && adjacent(step_from(next, rest, i - 1), rest[i - 1]));
                if i > 1 {
                    assert(path[i - 1] == rest[i - 2]);
                }
            }
        }
        if rest.len() > 0 {
            assert(path.last() == rest.last());
        }
        path
    }
}

/// Across land without holes, `target` can be reached from `start`, so a
/// route is always found.
pub proof fn lemma_box_reachable<V>(owned: Map<Coord, V>, start: Coord, target: Coord)
    requires
        box_owned(owned, start, target),
    ensures
        reachable(owned, start, target),
{
    assert(in_box(start, target, start));
    let path = lemma_staircase(owned, start, target);
}

/// Across land without holes, a shortest route, which is what `find_route`
/// returns, is exactly as long as the Manhattan distance between its ends.
pub proof fn lemma_route_length_is_manhattan<V>(owned: Map<Coord, V>, start: Coord, target: Coord, path: Seq<Coord>)
    requires
        box_owned(owned, start, target),
        is_walk(owned, start, path),
        walk_ends(start, path, target),
        forall|q: Seq<Coord>| is_walk(owned, start, q) && walk_ends(start, q, target) ==> path.len() <= #[trigger] q.len(),
    ensures
        path.len() == manhattan(start, target),
{
    lemma_walk_at_least_manhattan(owned, start, target, path);
    let q = lemma_staircase(owned, start, target);
    assert(path.len() <= q.len());
}

} // verus!
