//! Worker agents. An idle worker harvests the tile it stands on, then looks
//! for the nearest ready tile that no other worker has reserved, reserves
//! it, and plans a shortest route to it; a worker with a route takes one
//! step of it per tick.
use vstd::prelude::*;
use crate::coord_map::{lemma_entries_map_index, lemma_entries_map_witness, Coord};
use crate::farm_map::FarmMap;
use crate::harvest::{after_harvest, payout_of, released};
use crate::player::Player;
use crate::route::{find_route, is_walk, reachable, walk_ends};
use crate::tables::{AnimalStatic, MapStaticData};
use crate::tile::{indices_valid, is_ready, tiles_valid, TileType};
use crate::upgrades::UpgradeHandler;

verus! {

/// The work a worker looks for.
#[derive(Clone, Copy, Debug, PartialEq, Eq, Structural)]
pub enum JobType {
    Harvest,
}

pub struct Worker {
    pub position: Coord,
    pub path: Vec<Coord>,
}

pub struct WorkerHandler {
    pub workers: Vec<Worker>,
}

/// The squared Euclidean distance between two coordinates.
pub open spec fn dist2(a: Coord, b: Coord) -> int {
    (a.0 - b.0) * (a.0 - b.0) + (a.1 - b.1) * (a.1 - b.1)
}

/// `c` is a target for harvest in the grid `tiles` with reservations `occ`:
/// an owned, ready tile without a reservation.
pub open spec fn eligible_in(tiles: Map<Coord, TileType>, occ: Map<Coord, bool>, st: &MapStaticData, c: Coord) -> bool {
    tiles.contains_key(c) && !(occ.contains_key(c) && occ[c]) && is_ready(tiles[c], st)
}

/// `c` is an eligible target no farther from `pos` than any other.
pub open spec fn nearest_in(tiles: Map<Coord, TileType>, occ: Map<Coord, bool>, st: &MapStaticData, pos: Coord, c: Coord) -> bool {
    &&& eligible_in(tiles, occ, st, c)
    &&& forall|d: Coord| #[trigger] eligible_in(tiles, occ, st, d) ==> dist2(pos, c) <= dist2(pos, d)
}

/// No tile is an eligible target.
pub open spec fn none_in(tiles: Map<Coord, TileType>, occ: Map<Coord, bool>, st: &MapStaticData) -> bool {
    forall|c: Coord| !#[trigger] eligible_in(tiles, occ, st, c)
}

pub open spec fn eligible(m: &FarmMap, c: Coord) -> bool {
    eligible_in(m.tiles(), m.occupancy(), &m.static_data, c)
}

pub open spec fn nearest_eligible(m: &FarmMap, pos: Coord, c: Coord) -> bool {
    nearest_in(m.tiles(), m.occupancy(), &m.static_data, pos, c)
}

pub open spec fn none_eligible(m: &FarmMap) -> bool {
    none_in(m.tiles(), m.occupancy(), &m.static_data)
}

/// What a search from `pos` leaves behind, given the grid before it: with no
/// eligible tile, reservations and route stay as they were; otherwise the
/// nearest eligible tile `c` is reserved, and the route becomes a shortest
/// walk to it from the owned coordinate `pos`, or stays as it was if `c`
/// cannot be reached (in particular when `pos` is not owned).
pub open spec fn search_outcome(
    tiles: Map<Coord, TileType>,
    occ: Map<Coord, bool>,
    st: &MapStaticData,
    pos: Coord,
    old_path: Seq<Coord>,
    new_occ: Map<Coord, bool>,
    new_path: Seq<Coord>,
    found: bool,
) -> bool {
    if none_in(tiles, occ, st) {
        new_occ == occ && new_path == old_path && !found
    } else {
        exists|c: Coord| #[trigger] nearest_in(tiles, occ, st, pos, c) && new_occ == occ.insert(c, true) && if found {
            &&& tiles.contains_key(pos)
            &&& is_walk(tiles, pos, new_path)
            &&& walk_ends(pos, new_path, c)
            &&& forall|q: Seq<Coord>| is_walk(tiles, pos, q) && walk_ends(pos, q, c) ==> new_path.len() <= #[trigger] q.len()
        } else {
            !reachable(tiles, pos, c) && new_path == old_path
        }
    }
}

fn dist2_exec(a: Coord, b: Coord) -> (r: u128)
    ensures
        r == dist2(a, b),
{
    let dx: i64 = a.0 as i64 - b.0 as i64;
    let dy: i64 = a.1 as i64 - b.1 as i64;
    let ax: u128 = if dx < 0 { (-dx) as u128 } else { dx as u128 };
    let ay: u128 = if dy < 0 { (-dy) as u128 } else { dy as u128 };
    proof {
        assert(ax * ax <= 0x1_0000_0000u128 * 0x1_0000_0000u128) by (nonlinear_arith)
            requires ax <= 0x1_0000_0000u128;
        assert(ay * ay <= 0x1_0000_0000u128 * 0x1_0000_0000u128) by (nonlinear_arith)
            requires ay <= 0x1_0000_0000u128;
        assert(ax * ax == dx * dx) by (nonlinear_arith)
            requires ax == dx || ax == -dx;
        assert(ay * ay == dy * dy) by (nonlinear_arith)
            requires ay == dy || ay == -dy;
    }
    ax * ax + ay * ay
}

impl Worker {
    pub fn new(x: i32, y: i32) -> (r: Self)
        ensures
            r.position == (x, y),
            r.path@ == Seq::<Coord>::empty(),
    {
        Worker { position: (x, y), path: Vec::new() }
    }

    /// Finds the nearest eligible target and reserves it. With no eligible
    /// tile, returns `None` and changes nothing.
    pub fn find_closest_target(&self, map: &mut FarmMap, job: JobType) -> (r: Option<Coord>)
        requires
            old(map).grid_ok(),
        ensures
            match r {
                Some(c) => nearest_eligible(old(map), self.position, c)
                    && final(map).occupancy() == old(map).occupancy().insert(c, true),
                None => none_eligible(old(map)) && final(map).occupancy() == old(map).occupancy(),
            },
            final(map).dynamic_data.occupation_map.wf(),
            final(map).dynamic_data.tiles == old(map).dynamic_data.tiles,
            final(map).static_data == old(map).static_data,
            final(map).dynamic_data.land_expansion_points == old(map).dynamic_data.land_expansion_points,
            final(map).dynamic_data.next_expansion_cost == old(map).dynamic_data.next_expansion_cost,
    {
        let mut best: Option<(Coord, u128)> = None;
        let mut i: usize = 0;
        let len = map.dynamic_data.tiles.entries.len();
        while i < len
            invariant
                map.grid_ok(),
                len == map.dynamic_data.tiles.entries.len(),
                i <= len,
                match best {
                    Some((c, d)) => eligible(map, c) && d == dist2(self.position, c),
                    None => true,
                },
                forall|j: int| 0 <= j < i && #[trigger] eligible(map, map.dynamic_data.tiles.entries@[j].0) ==>
                    match best {
                        Some((c, d)) => d <= dist2(self.position, map.dynamic_data.tiles.entries@[j].0),
                        None => false,
                    },
            decreases len - i,
        {
            let (c, t) = map.dynamic_data.tiles.entries[i];
            proof {
                lemma_entries_map_index(map.dynamic_data.tiles.entries@, i as int);
            }
            let taken = match map.dynamic_data.occupation_map.get(c) {
                Some(b) => b,
                None => false,
            };
            if !taken && t.is_ready(&map.static_data) {
                let d = dist2_exec(self.position, c);
                let closer = match best {
                    Some((_, bd)) => d < bd,
                    None => true,
                };
                if closer {
                    best = Some((c, d));
                }
            }
            i = i + 1;
        }
        match best {
            Some((c, _)) => {
                proof {
                    assert forall|e: Coord| #[trigger] eligible_in(map.tiles(), map.occupancy(), &map.static_data, e)
                        implies dist2(self.position, c) <= dist2(self.position, e) by {
                        let j = lemma_entries_map_witness(map.dynamic_data.tiles.entries@, e);
                        assert(eligible(map, map.dynamic_data.tiles.entries@[j].0));
                    }
                }
                map.reserve(c);
                Some(c)
            },
            None => {
                proof {
                    assert forall|e: Coord| !#[trigger] eligible_in(map.tiles(), map.occupancy(), &map.static_data, e) by {
                        if eligible_in(map.tiles(), map.occupancy(), &map.static_data, e) {
                            let j = lemma_entries_map_witness(map.dynamic_data.tiles.entries@, e);
                            assert(eligible(map, map.dynamic_data.tiles.entries@[j].0));
                        }
                    }
                }
                None
            },
        }
    }

    /// Looks for a target as `find_closest_target` does and plans a route
    /// to it, which becomes the worker's route. Returns the route, or `None`
    /// when there is no target or it cannot be reached.
    pub fn find_path(&mut self, map: &mut FarmMap, job: JobType) -> (r: Option<Vec<Coord>>)
        requires
            old(map).grid_ok(),
        ensures
            final(self).position == old(self).position,
            search_outcome(old(map).tiles(), old(map).occupancy(), &old(map).static_data, old(self).position,
                old(self).path@, final(map).occupancy(), final(self).path@, r is Some),
            r matches Some(p) ==> p@ == final(self).path@,
            final(map).dynamic_data.occupation_map.wf(),
            final(map).dynamic_data.tiles == old(map).dynamic_data.tiles,
            final(map).static_data == old(map).static_data,
            final(map).dynamic_data.land_expansion_points == old(map).dynamic_data.land_expansion_points,
            final(map).dynamic_data.next_expansion_cost == old(map).dynamic_data.next_expansion_cost,
    {
        let start = self.position;
        let target = match self.find_closest_target(map, job) {
            Some(c) => c,
            None => {
                return None;
            },
        };
        proof {
            assert(nearest_in(old(map).tiles(), old(map).occupancy(), &old(map).static_data, start, target));
        }
        match find_route(&map.dynamic_data.tiles, start, target) {
            Some(p) => {
                self.path = copy_route(&p);
                Some(p)
            },
            None => None,
        }
    }

    /// One tick of this worker. With a route, it steps onto the route's
    /// first coordinate. Without one, it harvests its tile if the tile is
    /// ready, then searches for its next target; the payout is returned.
    pub fn follow_path(&mut self, map: &mut FarmMap, animals: &AnimalStatic, upgrade_handler: &UpgradeHandler) -> (r: (usize, usize))
        requires
            old(map).wf(animals.animal_data.len() as nat),
            animals.wf(),
        ensures
            final(map).wf(animals.animal_data.len() as nat),
            final(map).static_data == old(map).static_data,
            final(map).frontier() == old(map).frontier(),
            final(map).dynamic_data.next_expansion_cost == old(map).dynamic_data.next_expansion_cost,
            final(map).tiles().dom() == old(map).tiles().dom(),
            worker_ticked(
                *old(self),
                old(map).tiles(),
                old(map).occupancy(),
                *final(self),
                final(map).tiles(),
                final(map).occupancy(),
                (r.0 as nat, r.1 as nat),
                &old(map).static_data,
                animals,
                upgrade_handler.ledger(),
            ),
    {
        if self.path.len() > 0 {
            self.position = self.path[0];
            self.path.remove(0);
            assert(self.path@ =~= old(self).path@.drop_first());
            return (0, 0);
        }
        let payout = map.harvest_at(self.position, animals, upgrade_handler);
        self.find_path(map, JobType::Harvest);
        payout
    }
}

/// The grid after a harvest attempt at `pos`.
pub open spec fn harvested_tiles(tiles: Map<Coord, TileType>, st: &MapStaticData, pos: Coord) -> Map<Coord, TileType> {
    if tiles.contains_key(pos) && is_ready(tiles[pos], st) { tiles.insert(pos, after_harvest(tiles[pos])) } else { tiles }
}

/// The reservations after a harvest attempt at `pos`.
pub open spec fn harvested_occ(tiles: Map<Coord, TileType>, occ: Map<Coord, bool>, st: &MapStaticData, pos: Coord) -> Map<Coord, bool> {
    if tiles.contains_key(pos) && is_ready(tiles[pos], st) { released(occ, pos) } else { occ }
}

/// One tick of a worker, from `before` on the grid `tiles` with
/// reservations `occ` to `after` on `tiles_after` with `occ_after`, paying
/// `pay`. With a route, the worker steps onto its first coordinate and
/// nothing else changes. Without one, it harvests its tile if the tile is
/// ready, then searches for its next target as `search_outcome` says.
pub open spec fn worker_ticked(
    before: Worker,
    tiles: Map<Coord, TileType>,
    occ: Map<Coord, bool>,
    after: Worker,
    tiles_after: Map<Coord, TileType>,
    occ_after: Map<Coord, bool>,
    pay: (nat, nat),
    st: &MapStaticData,
    an: &AnimalStatic,
    ledger: Seq<usize>,
) -> bool {
    if before.path@.len() > 0 {
        &&& after.position == before.path@[0]
        &&& after.path@ == before.path@.drop_first()
        &&& pay == (0nat, 0nat)
        &&& tiles_after == tiles
        &&& occ_after == occ
    } else {
        let pos = before.position;
        let ready = tiles.contains_key(pos) && is_ready(tiles[pos], st);
        let t = tiles[pos];
        let tiles1 = harvested_tiles(tiles, st, pos);
        let occ1 = harvested_occ(tiles, occ, st, pos);
        &&& after.position == pos
        &&& pay == if ready { payout_of(t, st, an, ledger, pos) } else { (0nat, 0nat) }
        &&& tiles_after == tiles1
        &&& search_outcome(tiles1, occ1, st, pos, before.path@, occ_after, after.path@, true)
            || search_outcome(tiles1, occ1, st, pos, before.path@, occ_after, after.path@, false)
    }
}

/// Payouts after the first `k` do not change the total of the first `k`.
proof fn lemma_total_prefix(start: usize, a: Seq<(nat, nat)>, b: Seq<(nat, nat)>, k: int, exp: bool)
    requires
        0 <= k <= a.len(),
        k <= b.len(),
        forall|j: int| 0 <= j < k ==> a[j] == b[j],
    ensures
        total_after(start, a, k, exp) == total_after(start, b, k, exp),
    decreases k,
{
    if k > 0 {
        lemma_total_prefix(start, a, b, k - 1, exp);
    }
}

/// `start` with the money (`exp` false) or experience (`exp` true) of the
/// first `k` payouts added, each addition capped at `usize::MAX`.
pub open spec fn total_after(start: usize, pays: Seq<(nat, nat)>, k: int, exp: bool) -> usize
    decreases k,
{
    if k <= 0 {
        start
    } else {
        let prev = total_after(start, pays, k - 1, exp);
        let x = if exp { pays[k - 1].1 } else { pays[k - 1].0 };
        if prev + x > usize::MAX { usize::MAX } else { (prev + x) as usize }
    }
}

/// Worker `i` ticked from grid `i` to grid `i + 1` of the sequences, paying
/// `pays[i]`.
pub open spec fn crew_step(
    before: Seq<Worker>,
    after: Seq<Worker>,
    tiles: Seq<Map<Coord, TileType>>,
    occ: Seq<Map<Coord, bool>>,
    pays: Seq<(nat, nat)>,
    st: &MapStaticData,
    an: &AnimalStatic,
    ledger: Seq<usize>,
    i: int,
) -> bool {
    worker_ticked(before[i], tiles[i], occ[i], after[i], tiles[i + 1], occ[i + 1], pays[i], st, an, ledger)
}

/// Every worker of `before` ticked in order, each on the grid the ones
/// before it left, from the grid `tiles[0]`, `occ[0]` to the last one.
pub open spec fn crew_ticked(
    before: Seq<Worker>,
    after: Seq<Worker>,
    tiles: Seq<Map<Coord, TileType>>,
    occ: Seq<Map<Coord, bool>>,
    pays: Seq<(nat, nat)>,
    st: &MapStaticData,
    an: &AnimalStatic,
    ledger: Seq<usize>,
) -> bool {
    &&& after.len() == before.len()
    &&& tiles.len() == before.len() + 1
    &&& occ.len() == before.len() + 1
    &&& pays.len() == before.len()
    &&& forall|i: int| 0 <= i < before.len() ==> #[trigger] crew_step(before, after, tiles, occ, pays, st, an, ledger, i)
}

impl WorkerHandler {
    /// A new game's single worker at the origin.
    pub fn new() -> (r: Self)
        ensures
            r.workers@.len() == 1,
            r.workers@[0].position == (0i32, 0i32),
            r.workers@[0].path@ == Seq::<Coord>::empty(),
    {
        let mut workers: Vec<Worker> = Vec::new();
        workers.push(Worker::new(0, 0));
        WorkerHandler { workers }
    }

    pub fn add_worker(&mut self, worker: Worker)
        ensures
            final(self).workers@ == old(self).workers@.push(worker),
    {
        self.workers.push(worker);
    }

    /// One tick of every worker, in order, each seeing the grid as the ones
    /// before it left it. The payouts are added to the player's purse and
    /// experience, each stopping at `usize::MAX`.
    pub fn advance_workers(
        &mut self,
        player: &mut Player,
        map: &mut FarmMap,
        animals: &AnimalStatic,
        upgrade_handler: &UpgradeHandler,
    )
        requires
            old(map).wf(animals.animal_data.len() as nat),
            animals.wf(),
        ensures
            final(map).wf(animals.animal_data.len() as nat),
            final(map).static_data == old(map).static_data,
            final(map).frontier() == old(map).frontier(),
            final(map).dynamic_data.next_expansion_cost == old(map).dynamic_data.next_expansion_cost,
            final(map).tiles().dom() == old(map).tiles().dom(),
            final(self).workers@.len() == old(self).workers@.len(),
            exists|tiles: Seq<Map<Coord, TileType>>, occ: Seq<Map<Coord, bool>>, pays: Seq<(nat, nat)>| {
                &&& #[trigger] crew_ticked(old(self).workers@, final(self).workers@, tiles, occ, pays,
                    &old(map).static_data, animals, upgrade_handler.ledger())
                &&& tiles[0] == old(map).tiles()
                &&& occ[0] == old(map).occupancy()
                &&& tiles[old(self).workers@.len() as int] == final(map).tiles()
                &&& occ[old(self).workers@.len() as int] == final(map).occupancy()
                &&& final(player).money == total_after(old(player).money, pays, pays.len() as int, false)
                &&& final(player).exp == total_after(old(player).exp, pays, pays.len() as int, true)
            },
            final(player).alltime_max_money == old(player).alltime_max_money,
            final(player).level == old(player).level,
            final(player).exp_to_lvl_up == old(player).exp_to_lvl_up,
    {
        let ghost mut tiles: Seq<Map<Coord, TileType>> = seq![map.tiles()];
        let ghost mut occ: Seq<Map<Coord, bool>> = seq![map.occupancy()];
        let ghost mut pays: Seq<(nat, nat)> = Seq::empty();
        let mut i: usize = 0;
        while i < self.workers.len()
            invariant
                map.wf(animals.animal_data.len() as nat),
                animals.wf(),
                i <= self.workers@.len(),
                self.workers@.len() == old(self).workers@.len(),
                map.static_data == old(map).static_data,
                map.frontier() == old(map).frontier(),
                map.dynamic_data.next_expansion_cost == old(map).dynamic_data.next_expansion_cost,
                map.tiles().dom() == old(map).tiles().dom(),
                player.alltime_max_money == old(player).alltime_max_money,
                player.level == old(player).level,
                player.exp_to_lvl_up == old(player).exp_to_lvl_up,
                tiles.len() == i + 1,
                occ.len() == i + 1,
                pays.len() == i,
                tiles[0] == old(map).tiles(),
                occ[0] == old(map).occupancy(),
                tiles[i as int] == map.tiles(),
                occ[i as int] == map.occupancy(),
                player.money == total_after(old(player).money, pays, i as int, false),
                player.exp == total_after(old(player).exp, pays, i as int, true),
                forall|j: int| 0 <= j < i ==> #[trigger] crew_step(old(self).workers@, self.workers@, tiles, occ, pays,
                    &old(map).static_data, animals, upgrade_handler.ledger(), j),
                forall|j: int| i <= j < self.workers@.len() ==> #[trigger] self.workers@[j] == old(self).workers@[j],
            decreases old(self).workers@.len() - i,
        {
            let ghost before = self.workers@;
            let ghost map_before = *map;
            let (money, exp) = self.workers[i].follow_path(map, animals, upgrade_handler);
            proof {
                assert forall|j: int| 0 <= j < self.workers@.len() && j != i implies
                    #[trigger] self.workers@[j] == before[j] by {}
                assert(before[i as int] == old(self).workers@[i as int]);
                let t0 = tiles;
                let o0 = occ;
                let p0 = pays;
                tiles = tiles.push(map.tiles());
                occ = occ.push(map.occupancy());
                pays = pays.push((money as nat, exp as nat));
                assert forall|j: int| 0 <= j < i + 1 implies #[trigger] crew_step(old(self).workers@, self.workers@, tiles,
                    occ, pays, &old(map).static_data, animals, upgrade_handler.ledger(), j) by {
                    if j < i {
                        assert(tiles[j] == t0[j] && tiles[j + 1] == t0[j + 1]);
                        assert(occ[j] == o0[j] && occ[j + 1] == o0[j + 1] && pays[j] == p0[j]);
                        assert(self.workers@[j] == before[j]);
                        assert(crew_step(old(self).workers@, before, t0, o0, p0, &old(map).static_data, animals,
                            upgrade_handler.ledger(), j));
                    } else {
                        assert(tiles[j] == map_before.tiles() && occ[j] == map_before.occupancy());
                        assert(tiles[j + 1] == map.tiles() && occ[j + 1] == map.occupancy());
                    }
                }
                assert(total_after(old(player).money, pays, i as int, false) == total_after(old(player).money, p0, i as int, false)) by {
                    lemma_total_prefix(old(player).money, p0, pays, i as int, false);
                }
                assert(total_after(old(player).exp, pays, i as int, true) == total_after(old(player).exp, p0, i as int, true)) by {
                    lemma_total_prefix(old(player).exp, p0, pays, i as int, true);
                }
            }
            player.earn(money, exp);
            i = i + 1;
        }
        proof {
            assert(crew_ticked(old(self).workers@, self.workers@, tiles, occ, pays, &old(map).static_data, animals,
                upgrade_handler.ledger()));
        }
    }
}

/// A copy of a route.
fn copy_route(p: &Vec<Coord>) -> (r: Vec<Coord>)
    ensures
        r@ == p@,
{
    let mut r: Vec<Coord> = Vec::new();
    let mut i: usize = 0;
    while i < p.len()
        invariant
            i <= p.len(),
            r@ == p@.subrange(0, i as int),
        decreases p.len() - i,
    {
        r.push(p[i]);
        assert(r@ =~= p@.subrange(0, i + 1));
        i = i + 1;
    }
    assert(r@ =~= p@);
    r
}

/// A search never picks a reserved tile, and the tile it picks is reserved
/// after it; so when one worker's search picks `c1` and reserves it, the
/// next search, by any worker on the grid so left, cannot pick `c1` too.
pub proof fn lemma_reservation_exclusive(
    tiles: Map<Coord, TileType>,
    occ: Map<Coord, bool>,
    st: &MapStaticData,
    p1: Coord,
    c1: Coord,
    p2: Coord,
    c2: Coord,
)
    requires
        nearest_in(tiles, occ, st, p1, c1),
        nearest_in(tiles, occ.insert(c1, true), st, p2, c2),
    ensures
        c1 != c2,
        !(occ.contains_key(c1) && occ[c1]),
        occ.insert(c1, true)[c1],
{
}

/// Every growing, fruiting and honey time of the tables is positive, so a
/// tile that was just harvested is not ready again before it grows.
pub open spec fn times_positive(st: &MapStaticData) -> bool {
    &&& forall|i: int| 0 <= i < st.crops_data.len() ==> (#[trigger] st.crops_data@[i]).time_to_grow > 0
    &&& forall|i: int| 0 <= i < st.tree_data.len() ==> (#[trigger] st.tree_data@[i]).time_to_fruit > 0
    &&& st.hive().time_to_honey > 0
}

proof fn lemma_harvested_not_ready(t: TileType, st: &MapStaticData)
    requires
        indices_valid(t, st),
        times_positive(st),
        is_ready(t, st),
    ensures
        !is_ready(after_harvest(t), st),
        indices_valid(after_harvest(t), st),
{
    match t {
        TileType::Farmland { crop, .. } => {
            assert(st.crops_data@[crop as int].time_to_grow > 0);
        },
        TileType::Tree { tree, .. } => {
            assert(st.tree_data@[tree as int].time_to_fruit > 0);
        },
        _ => {},
    }
}

/// Along a tick of all workers every grid keeps valid table indices.
proof fn lemma_crew_grids_valid(
    before: Seq<Worker>,
    after: Seq<Worker>,
    tiles: Seq<Map<Coord, TileType>>,
    occ: Seq<Map<Coord, bool>>,
    pays: Seq<(nat, nat)>,
    st: &MapStaticData,
    an: &AnimalStatic,
    ledger: Seq<usize>,
    k: int,
)
    requires
        crew_ticked(before, after, tiles, occ, pays, st, an, ledger),
        tiles_valid(tiles[0], st),
        0 <= k <= before.len(),
    ensures
        tiles_valid(tiles[k], st),
        tiles[k].dom() == tiles[0].dom(),
    decreases k,
{
    if k > 0 {
        lemma_crew_grids_valid(before, after, tiles, occ, pays, st, an, ledger, k - 1);
        assert(crew_step(before, after, tiles, occ, pays, st, an, ledger, k - 1));
        let m = tiles[k - 1];
        let pos = before[k - 1].position;
        assert(tiles[k].dom() =~= m.dom());
        if before[k - 1].path@.len() == 0 && m.contains_key(pos) && is_ready(m[pos], st) {
            assert forall|c: Coord| #[trigger] tiles[k].contains_key(c) implies indices_valid(tiles[k][c], st) by {
                assert(m.contains_key(c));
                assert(indices_valid(m[pos], st));
            }
        }
    }
}

/// A worker that was idle and now has a route has reserved the route's end,
/// which was eligible once it had tried to harvest its own tile.
proof fn lemma_new_route_target(
    before: Worker,
    tiles: Map<Coord, TileType>,
    occ: Map<Coord, bool>,
    after: Worker,
    tiles_after: Map<Coord, TileType>,
    occ_after: Map<Coord, bool>,
    pay: (nat, nat),
    st: &MapStaticData,
    an: &AnimalStatic,
    ledger: Seq<usize>,
)
    requires
        worker_ticked(before, tiles, occ, after, tiles_after, occ_after, pay, st, an, ledger),
        before.path@.len() == 0,
        after.path@.len() > 0,
    ensures
        ({
            let c = after.path@.last();
            let tiles1 = harvested_tiles(tiles, st, before.position);
            let occ1 = harvested_occ(tiles, occ, st, before.position);
            &&& eligible_in(tiles1, occ1, st, c)
            &&& occ_after == occ1.insert(c, true)
            &&& tiles_after == tiles1
        }),
{
    let pos = before.position;
    let tiles1 = harvested_tiles(tiles, st, pos);
    let occ1 = harvested_occ(tiles, occ, st, pos);
    let found = search_outcome(tiles1, occ1, st, pos, before.path@, occ_after, after.path@, true);
    let f = if found { true } else { false };
    assert(search_outcome(tiles1, occ1, st, pos, before.path@, occ_after, after.path@, f));
    assert(!none_in(tiles1, occ1, st));
    let c = choose|c: Coord| #[trigger] nearest_in(tiles1, occ1, st, pos, c) && occ_after == occ1.insert(c, true) && if f {
        &&& tiles1.contains_key(pos)
        &&& is_walk(tiles1, pos, after.path@)
        &&& walk_ends(pos, after.path@, c)
        &&& forall|q: Seq<Coord>| is_walk(tiles1, pos, q) && walk_ends(pos, q, c) ==> after.path@.len() <= #[trigger] q.len()
    } else {
        !reachable(tiles1, pos, c) && after.path@ == before.path@
    };
    assert(f);
    assert(after.path@.last() == c);
}

/// A tile that is owned and either reserved or not ready at grid `a` stays
/// so up to grid `k`: a reservation is only cleared by harvesting, which
/// leaves the tile not ready.
proof fn lemma_target_stays_blocked(
    before: Seq<Worker>,
    after: Seq<Worker>,
    tiles: Seq<Map<Coord, TileType>>,
    occ: Seq<Map<Coord, bool>>,
    pays: Seq<(nat, nat)>,
    st: &MapStaticData,
    an: &AnimalStatic,
    ledger: Seq<usize>,
    a: int,
    c: Coord,
    k: int,
)
    requires
        crew_ticked(before, after, tiles, occ, pays, st, an, ledger),
        tiles_valid(tiles[0], st),
        times_positive(st),
        0 <= a <= k <= before.len(),
        tiles[a].contains_key(c),
        (occ[a].contains_key(c) && occ[a][c]) || !is_ready(tiles[a][c], st),
    ensures
        tiles[k].contains_key(c),
        (occ[k].contains_key(c) && occ[k][c]) || !is_ready(tiles[k][c], st),
    decreases k,
{
    if k > a {
        lemma_target_stays_blocked(before, after, tiles, occ, pays, st, an, ledger, a, c, k - 1);
        lemma_crew_grids_valid(before, after, tiles, occ, pays, st, an, ledger, k - 1);
        assert(crew_step(before, after, tiles, occ, pays, st, an, ledger, k - 1));
        let m = tiles[k - 1];
        let o = occ[k - 1];
        let w = before[k - 1];
        if w.path@.len() == 0 {
            let pos = w.position;
            if m.contains_key(pos) && is_ready(m[pos], st) && pos == c {
                assert(indices_valid(m[pos], st));
                lemma_harvested_not_ready(m[pos], st);
            }
            let occ1 = harvested_occ(m, o, st, pos);
            let tiles1 = harvested_tiles(m, st, pos);
            let f = search_outcome(tiles1, occ1, st, pos, w.path@, occ[k], after[k - 1].path@, true);
            assert(search_outcome(tiles1, occ1, st, pos, w.path@, occ[k], after[k - 1].path@, f));
            if !none_in(tiles1, occ1, st) {
                let c2 = choose|c2: Coord| #[trigger] nearest_in(tiles1, occ1, st, pos, c2) && occ[k] == occ1.insert(c2, true) && if f {
                    &&& tiles1.contains_key(pos)
                    &&& is_walk(tiles1, pos, after[k - 1].path@)
                    &&& walk_ends(pos, after[k - 1].path@, c2)
                    &&& forall|q: Seq<Coord>| is_walk(tiles1, pos, q) && walk_ends(pos, q, c2) ==> after[k - 1].path@.len() <= #[trigger] q.len()
                } else {
                    !reachable(tiles1, pos, c2) && after[k - 1].path@ == w.path@
                };
            }
        }
    }
}

/// Within one tick of all workers, no two workers that were idle and set off
/// on a route head for the same tile, and no such worker heads for a tile
/// reserved before the tick: the first one reserved it, and a
/// reservation is only cleared by harvesting the tile, after which it is not
/// ready again in the same tick. This needs positive growing times; with a
/// crop whose growing time is zero a harvested tile is ready at once and a
/// later worker may pick it.
pub proof fn lemma_tick_targets_distinct(
    before: Seq<Worker>,
    after: Seq<Worker>,
    tiles: Seq<Map<Coord, TileType>>,
    occ: Seq<Map<Coord, bool>>,
    pays: Seq<(nat, nat)>,
    st: &MapStaticData,
    an: &AnimalStatic,
    ledger: Seq<usize>,
    i: int,
    j: int,
)
    requires
        crew_ticked(before, after, tiles, occ, pays, st, an, ledger),
        tiles_valid(tiles[0], st),
        times_positive(st),
        0 <= i < j < before.len(),
        before[i].path@.len() == 0 && after[i].path@.len() > 0,
        before[j].path@.len() == 0 && after[j].path@.len() > 0,
    ensures
        after[i].path@.last() != after[j].path@.last(),
        !(occ[0].contains_key(after[i].path@.last()) && occ[0][after[i].path@.last()]),
{
    assert(crew_step(before, after, tiles, occ, pays, st, an, ledger, i));
    assert(crew_step(before, after, tiles, occ, pays, st, an, ledger, j));
    lemma_new_route_target(before[i], tiles[i], occ[i], after[i], tiles[i + 1], occ[i + 1], pays[i], st, an, ledger);
    lemma_new_route_target(before[j], tiles[j], occ[j], after[j], tiles[j + 1], occ[j + 1], pays[j], st, an, ledger);
    let c = after[i].path@.last();
    lemma_target_stays_blocked(before, after, tiles, occ, pays, st, an, ledger, i + 1, c, j);
    lemma_crew_grids_valid(before, after, tiles, occ, pays, st, an, ledger, j);
    let m = tiles[j];
    let pos = before[j].position;
    if m.contains_key(pos) && is_ready(m[pos], st) && pos == c {
        assert(indices_valid(m[pos], st));
        lemma_harvested_not_ready(m[pos], st);
    }
    if occ[0].contains_key(c) && occ[0][c] {
        lemma_crew_grids_valid(before, after, tiles, occ, pays, st, an, ledger, i);
        assert(tiles[0].contains_key(c));
        lemma_target_stays_blocked(before, after, tiles, occ, pays, st, an, ledger, 0, c, i);
        let mi = tiles[i];
        let pi = before[i].position;
        if mi.contains_key(pi) && is_ready(mi[pi], st) && pi == c {
            assert(indices_valid(mi[pi], st));
            lemma_harvested_not_ready(mi[pi], st);
        }
    }
}

} // verus!
