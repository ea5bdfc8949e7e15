//! The grid store: owned tiles, the occupancy reservations of workers, the
//! frontier of purchasable chunks, and the two whole-grid operations, one
//! growth tick and buying land.
use vstd::prelude::*;
use crate::coord_map::{
    lemma_entries_map_same_keys, lemma_entries_map_witness, Coord, CoordMap,
};
use crate::player::{add_capped, Player};
use crate::tables::MapStaticData;
use crate::tile::{drops_valid, indices_valid, tick_tile, tiles_valid, TileType};
use crate::upgrades::{hive_tier, tiers_fit, tiers_multiplier, UpgradeHandler};

verus! {

pub const CHUNK_WIDTH: i32 = 5;
pub const CHUNK_HEIGHT: i32 = 5;

/// The price of the first land purchase.
pub const FIRST_EXPANSION_COST: usize = 1000;

/// How far from the origin a frontier point may lie. Chunks past it are
/// never offered, which keeps every chunk's tiles representable.
pub const FRONTIER_LIMIT: i32 = 1_000_000_000;

pub struct MapDynamicData {
    pub tiles: CoordMap<TileType>,
    pub occupation_map: CoordMap<bool>,
    pub land_expansion_points: Vec<Coord>,
    pub next_expansion_cost: usize,
}

/// The farm grid with the tables its tiles refer to.
pub struct FarmMap {
    pub static_data: MapStaticData,
    pub dynamic_data: MapDynamicData,
}

/// `c` lies in the chunk centred on `p`, among its cells numbered below `k`
/// (row by row along `y`, then along `x`).
pub open spec fn in_chunk_upto(p: Coord, c: Coord, k: int) -> bool {
    let dx = c.0 - p.0 + 2;
    let dy = c.1 - p.1 + 2;
    0 <= dx < 5 && 0 <= dy < 5 && dx * 5 + dy < k
}

/// `c` lies in the chunk centred on `p`.
pub open spec fn in_chunk(p: Coord, c: Coord) -> bool {
    in_chunk_upto(p, c, 25)
}

/// `m` with the cells of the chunk centred on `p` numbered below `k` set to grass.
pub open spec fn with_chunk_upto(m: Map<Coord, TileType>, p: Coord, k: int) -> Map<Coord, TileType> {
    Map::new(
        |c: Coord| m.contains_key(c) || in_chunk_upto(p, c, k),
        |c: Coord| if in_chunk_upto(p, c, k) { TileType::Grass } else { m[c] },
    )
}

/// `m` with the chunk centred on `p` set to grass.
pub open spec fn with_chunk(m: Map<Coord, TileType>, p: Coord) -> Map<Coord, TileType> {
    with_chunk_upto(m, p, 25)
}

/// A point lies within the frontier limit.
pub open spec fn within_limit(c: Coord) -> bool {
    -FRONTIER_LIMIT <= c.0 <= FRONTIER_LIMIT && -FRONTIER_LIMIT <= c.1 <= FRONTIER_LIMIT
}

/// `c` is the centre of a chunk of the chunk lattice.
pub open spec fn on_lattice(c: Coord) -> bool {
    (c.0 as int) % (CHUNK_WIDTH as int) == 0 && (c.1 as int) % (CHUNK_HEIGHT as int) == 0
}

/// `c` may stand on the frontier of `tiles`: within the limit, the centre of
/// a lattice chunk, and not owned.
pub open spec fn frontier_point_ok(c: Coord, tiles: Map<Coord, TileType>) -> bool {
    within_limit(c) && on_lattice(c) && !tiles.contains_key(c)
}

/// Two distinct lattice centres are too far apart for either to lie in the
/// other's chunk.
proof fn lemma_lattice_apart(p: Coord, q: Coord)
    requires
        on_lattice(p),
        on_lattice(q),
        p != q,
    ensures
        !in_chunk(p, q),
{
    let a = p.0 as int;
    let b = q.0 as int;
    let c = p.1 as int;
    let d = q.1 as int;
    assert(a == 5 * (a / 5) && b == 5 * (b / 5) && c == 5 * (c / 5) && d == 5 * (d / 5));
    if a != b {
        assert(a / 5 != b / 5);
    } else {
        assert(c / 5 != d / 5);
    }
}

/// The centre of the chunk next to the one centred on `p` in direction `k`:
/// down, right, up, left.
pub open spec fn chunk_neighbour(p: Coord, k: int) -> (int, int) {
    if k == 0 {
        (p.0 as int, p.1 + CHUNK_HEIGHT)
    } else if k == 1 {
        (p.0 + CHUNK_WIDTH, p.1 as int)
    } else if k == 2 {
        (p.0 as int, p.1 - CHUNK_HEIGHT)
    } else {
        (p.0 - CHUNK_WIDTH, p.1 as int)
    }
}

/// The frontier points that buying the chunk at `p` offers, among the first
/// `k` directions: neighbours within the limit that are not owned land.
pub open spec fn new_frontier_upto(p: Coord, tiles: Map<Coord, TileType>, k: int) -> Set<Coord> {
    Set::new(|q: Coord| exists|j: int| 0 <= j < k && #[trigger] chunk_neighbour(p, j) == (q.0 as int, q.1 as int)
        && within_limit(q) && !tiles.contains_key(q))
}

/// The neighbouring chunk centre of `p` in direction `k`, as a coordinate.
pub open spec fn neighbour_point(p: Coord, k: int) -> Coord {
    (chunk_neighbour(p, k).0 as i32, chunk_neighbour(p, k).1 as i32)
}

/// The frontier `base` after the neighbours of the chunk at `p` in the first
/// `k` directions have been offered, in order: each is appended when it is
/// within the limit, not owned land and not on the frontier already.
pub open spec fn frontier_after(base: Seq<Coord>, p: Coord, tiles: Map<Coord, TileType>, k: int) -> Seq<Coord>
    decreases k,
{
    if k <= 0 {
        base
    } else {
        let prev = frontier_after(base, p, tiles, k - 1);
        let q = neighbour_point(p, k - 1);
        if within_limit(q) && !tiles.contains_key(q) && !prev.contains(q) {
            prev.push(q)
        } else {
            prev
        }
    }
}

/// The expansion cost after a purchase at cost `c`: half as large again,
/// rounded half up, capped at `usize::MAX`.
pub open spec fn next_cost(c: usize) -> usize {
    add_capped(c, (c / 2 + c % 2) as usize)
}

impl MapDynamicData {
    /// The store's own invariant: distinct keys, and a frontier without
    /// repeats within the limit.
    pub open spec fn wf(&self) -> bool {
        &&& self.tiles.wf()
        &&& self.occupation_map.wf()
        &&& self.land_expansion_points@.no_duplicates()
        &&& forall|i: int| 0 <= i < self.land_expansion_points.len() ==>
            frontier_point_ok(#[trigger] self.land_expansion_points@[i], self.tiles@)
    }

    /// The grid a new game starts with: one chunk of grass centred on the
    /// origin, with a frontier point on each side.
    pub fn new() -> (r: Self)
        ensures
            r.wf(),
            r.tiles@ == with_chunk(Map::empty(), (0, 0)),
            r.occupation_map@ == Map::<Coord, bool>::empty(),
            r.land_expansion_points@ == seq![(0i32, 5i32), (5i32, 0i32), (0i32, -5i32), (-5i32, 0i32)],
            r.next_expansion_cost == FIRST_EXPANSION_COST,
    {
        let mut tiles = CoordMap::new();
        add_chunk(&mut tiles, (0, 0));
        let mut points: Vec<Coord> = Vec::new();
        points.push((0, CHUNK_HEIGHT));
        points.push((CHUNK_WIDTH, 0));
        points.push((0, -CHUNK_HEIGHT));
        points.push((-CHUNK_WIDTH, 0));
        assert(points@ =~= seq![(0i32, 5i32), (5i32, 0i32), (0i32, -5i32), (-5i32, 0i32)]);
        MapDynamicData {
            tiles,
            occupation_map: CoordMap::new(),
            land_expansion_points: points,
            next_expansion_cost: FIRST_EXPANSION_COST,
        }
    }
}

/// Sets the chunk centred on `p` to grass.
pub fn add_chunk(tiles: &mut CoordMap<TileType>, p: Coord)
    requires
        old(tiles).wf(),
        -FRONTIER_LIMIT <= p.0 <= FRONTIER_LIMIT,
        -FRONTIER_LIMIT <= p.1 <= FRONTIER_LIMIT,
    ensures
        final(tiles).wf(),
        final(tiles)@ == with_chunk(old(tiles)@, p),
{
    let mut k: i32 = 0;
    while k < 25
        invariant
            0 <= k <= 25,
            tiles.wf(),
            -FRONTIER_LIMIT <= p.0 <= FRONTIER_LIMIT,
            -FRONTIER_LIMIT <= p.1 <= FRONTIER_LIMIT,
            tiles@ == with_chunk_upto(old(tiles)@, p, k as int),
        decreases 25 - k,
    {
        let c: Coord = (p.0 - 2 + k / 5, p.1 - 2 + k % 5);
        tiles.insert(c, TileType::Grass);
        proof {
            assert(tiles@ =~= with_chunk_upto(old(tiles)@, p, k + 1));
        }
        k = k + 1;
    }
    assert(tiles@ =~= with_chunk(old(tiles)@, p));
}

/// Whether `c` is the centre of a lattice chunk.
pub fn is_lattice_point(c: Coord) -> (r: bool)
    ensures
        r == on_lattice(c),
{
    let x = (c.0 as i64 + 2_500_000_000) as u64;
    let y = (c.1 as i64 + 2_500_000_000) as u64;
    x % 5 == 0 && y % 5 == 0
}

/// The position of `c` in `v`, if it is there.
pub fn position_of(v: &Vec<Coord>, c: Coord) -> (r: Option<usize>)
    ensures
        match r {
            Some(i) => i < v.len() && v@[i as int] == c,
            None => !v@.contains(c),
        },
{
    let mut i: usize = 0;
    while i < v.len()
        invariant
            i <= v.len(),
            forall|j: int| 0 <= j < i ==> v@[j] != c,
        decreases v.len() - i,
    {
        if v[i].0 == c.0 && v[i].1 == c.1 {
            return Some(i);
        }
        i = i + 1;
    }
    None
}

/// Removing one entry from a sequence without repeats leaves one without
/// repeats, holding everything but that entry.
pub proof fn lemma_remove_unique(s: Seq<Coord>, i: int)
    requires
        s.no_duplicates(),
        0 <= i < s.len(),
    ensures
        s.remove(i).no_duplicates(),
        forall|q: Coord| s.remove(i).contains(q) <==> (s.contains(q) && q != s[i]),
{
    let r = s.remove(i);
    assert forall|a: int| 0 <= a < r.len() implies #[trigger] r[a] == s[if a < i { a } else { a + 1 }] by {}
    assert forall|q: Coord| r.contains(q) <==> (s.contains(q) && q != s[i]) by {
        if r.contains(q) {
            let a = choose|a: int| 0 <= a < r.len() && r[a] == q;
            assert(r[a] == s[if a < i { a } else { a + 1 }]);
        }
        if s.contains(q) && q != s[i] {
            let b = choose|b: int| 0 <= b < s.len() && s[b] == q;
            if b < i {
                assert(r[b] == q);
            } else {
                assert(r[b - 1] == q);
            }
        }
    }
    assert forall|a: int, b: int| 0 <= a < r.len() && 0 <= b < r.len() && a != b implies r[a] != r[b] by {
        assert(r[a] == s[if a < i { a } else { a + 1 }]);
        assert(r[b] == s[if b < i { b } else { b + 1 }]);
    }
}

impl FarmMap {
    /// The grid's invariant, for animal tables with `n_animals` entries.
    pub open spec fn wf(&self, n_animals: nat) -> bool {
        &&& self.grid_ok()
        &&& drops_valid(self.tiles(), n_animals)
        &&& tiers_fit(self.static_data.crops_data.len() as int, self.static_data.tree_data.len() as int, n_animals as int)
    }

    /// The invariant that does not depend on the animal table: valid static
    /// tables, a well-formed store, and crop, tree and flower indices in range.
    pub open spec fn grid_ok(&self) -> bool {
        &&& self.static_data.wf()
        &&& self.dynamic_data.wf()
        &&& tiles_valid(self.tiles(), &self.static_data)
    }

    pub open spec fn tiles(&self) -> Map<Coord, TileType> {
        self.dynamic_data.tiles@
    }

    pub open spec fn occupancy(&self) -> Map<Coord, bool> {
        self.dynamic_data.occupation_map@
    }

    pub open spec fn frontier(&self) -> Seq<Coord> {
        self.dynamic_data.land_expansion_points@
    }

    /// `c` carries a reservation.
    pub open spec fn reserved(&self, c: Coord) -> bool {
        self.occupancy().contains_key(c) && self.occupancy()[c]
    }

    pub fn new(static_data: MapStaticData) -> (r: Self)
        ensures
            r.static_data == static_data,
            r.tiles() == with_chunk(Map::empty(), (0, 0)),
            r.occupancy() == Map::<Coord, bool>::empty(),
            r.frontier() == seq![(0i32, 5i32), (5i32, 0i32), (0i32, -5i32), (-5i32, 0i32)],
            r.dynamic_data.next_expansion_cost == FIRST_EXPANSION_COST,
            r.dynamic_data.wf(),
    {
        FarmMap { static_data, dynamic_data: MapDynamicData::new() }
    }

    /// Runs one growth tick over every tile. Each tile advances as
    /// `tick_tile` says, reading its neighbours as they stood before the tick.
    pub fn update_tiles(&mut self, upgrade_handler: &UpgradeHandler, animals_len: usize)
        requires
            old(self).wf(animals_len as nat),
        ensures
            final(self).wf(animals_len as nat),
            final(self).static_data == old(self).static_data,
            final(self).occupancy() == old(self).occupancy(),
            final(self).frontier() == old(self).frontier(),
            final(self).dynamic_data.next_expansion_cost == old(self).dynamic_data.next_expansion_cost,
            final(self).tiles().dom() == old(self).tiles().dom(),
            forall|c: Coord| #[trigger] old(self).tiles().contains_key(c) ==> final(self).tiles()[c] == tick_tile(
                old(self).tiles()[c],
                &old(self).static_data,
                old(self).tiles(),
                c,
                tiers_multiplier(
                    upgrade_handler.ledger(),
                    hive_tier(
                        old(self).static_data.crops_data.len() as int,
                        old(self).static_data.tree_data.len() as int,
                        animals_len as int,
                    ),
                ),
            ),
    {
        let mult = upgrade_handler.get_multiplier_for_beehive(
            self.static_data.crops_data.len(),
            self.static_data.tree_data.len(),
            animals_len,
        );
        let ghost old_entries = self.dynamic_data.tiles.entries@;
        let mut next: Vec<(Coord, TileType)> = Vec::new();
        let mut i: usize = 0;
        while i < self.dynamic_data.tiles.entries.len()
            invariant
                self.wf(animals_len as nat),
                self.dynamic_data.tiles.entries@ == old_entries,
                mult <= 8,
                i <= old_entries.len(),
                next@.len() == i,
                forall|j: int| 0 <= j < i ==> (#[trigger] next@[j]).0 == old_entries[j].0
                    && next@[j].1 == tick_tile(old_entries[j].1, &self.static_data, self.tiles(), old_entries[j].0, mult as nat),
            decreases old_entries.len() - i,
        {
            let (c, t) = self.dynamic_data.tiles.entries[i];
            proof {
                crate::coord_map::lemma_entries_map_index(old_entries, i as int);
                assert(indices_valid(self.tiles()[c], &self.static_data));
            }
            let nt = t.ticked(&self.static_data, &self.dynamic_data.tiles, c, mult);
            next.push((c, nt));
            i = i + 1;
        }
        let ghost before = self.tiles();
        proof {
            lemma_entries_map_same_keys(old_entries, next@);
        }
        self.dynamic_data.tiles = CoordMap { entries: next };
        proof {
            assert(self.tiles().dom() =~= before.dom());
            assert forall|c: Coord| #[trigger] before.contains_key(c) implies self.tiles()[c] == tick_tile(
                before[c], &self.static_data, before, c, mult as nat) by {
                let i = lemma_entries_map_witness(old_entries, c);
            }
            assert forall|c: Coord| #[trigger] self.tiles().contains_key(c) implies
                indices_valid(self.tiles()[c], &self.static_data) && crate::tile::drop_valid(self.tiles()[c], animals_len as nat) by {
                assert(before.contains_key(c));
                assert(indices_valid(before[c], &self.static_data));
                assert(crate::tile::drop_valid(before[c], animals_len as nat));
            }
        }
    }
    /// Checks the grid's invariant; a restored grid that fails it is
    /// treated as absent.
    pub fn is_valid(&self, n_animals: usize) -> (r: bool)
        ensures
            r == self.wf(n_animals as nat),
    {
        if !self.static_data.is_valid() || !self.dynamic_data.tiles.keys_distinct()
            || !self.dynamic_data.occupation_map.keys_distinct() {
            return false;
        }
        let total: u128 = 3 * (self.static_data.crops_data.len() as u128 + self.static_data.tree_data.len() as u128
            + n_animals as u128) + 2;
        if total > usize::MAX as u128 {
            return false;
        }
        let points = &self.dynamic_data.land_expansion_points;
        let mut i: usize = 0;
        while i < points.len()
            invariant
                points == &self.dynamic_data.land_expansion_points,
                i <= points@.len(),
                self.dynamic_data.tiles.wf(),
                forall|a: int| 0 <= a < i ==> frontier_point_ok(#[trigger] points@[a], self.tiles()),
                forall|a: int, b: int| 0 <= a < i && 0 <= b < points@.len() && a != b ==>
                    #[trigger] points@[a] != #[trigger] points@[b],
            decreases points@.len() - i,
        {
            let p = points[i];
            if p.0 < -FRONTIER_LIMIT || p.0 > FRONTIER_LIMIT || p.1 < -FRONTIER_LIMIT || p.1 > FRONTIER_LIMIT {
                assert(!within_limit(self.dynamic_data.land_expansion_points@[i as int]));
                return false;
            }
            if !is_lattice_point(p) || self.dynamic_data.tiles.contains_key(p) {
                assert(!frontier_point_ok(self.dynamic_data.land_expansion_points@[i as int], self.tiles()));
                return false;
            }
            let mut j: usize = 0;
            while j < points.len()
                invariant
                    points == &self.dynamic_data.land_expansion_points,
                    i < points@.len(),
                    j <= points@.len(),
                    p == points@[i as int],
                    forall|a: int, b: int| 0 <= a < i && 0 <= b < points@.len() && a != b ==>
                        #[trigger] points@[a] != #[trigger] points@[b],
                    forall|b: int| 0 <= b < j && b != i ==> p != #[trigger] points@[b],
                decreases points@.len() - j,
            {
                if j != i && points[j].0 == p.0 && points[j].1 == p.1 {
                    assert(self.dynamic_data.land_expansion_points@[i as int] == self.dynamic_data.land_expansion_points@[j as int]);
                    assert(!self.dynamic_data.land_expansion_points@.no_duplicates());
                    return false;
                }
                j = j + 1;
            }
            i = i + 1;
        }
        let entries = &self.dynamic_data.tiles.entries;
        let mut i: usize = 0;
        while i < entries.len()
            invariant
                self.static_data.wf(),
                self.dynamic_data.tiles.wf(),
                entries == &self.dynamic_data.tiles.entries,
                i <= entries@.len(),
                forall|a: int| 0 <= a < i ==> indices_valid((#[trigger] entries@[a]).1, &self.static_data)
                    && crate::tile::drop_valid(entries@[a].1, n_animals as nat),
            decreases entries@.len() - i,
        {
            let t = entries[i].1;
            let ok = match t {
                TileType::Tree { tree, .. } => tree < self.static_data.tree_data.len(),
                TileType::Farmland { crop, .. } => crop < self.static_data.crops_data.len(),
                TileType::Flower { flower } => flower < self.static_data.flower_data.len(),
                TileType::AnimalDrop { animal } => animal < n_animals,
                _ => true,
            };
            if !ok {
                proof {
                    crate::coord_map::lemma_entries_map_index(entries@, i as int);
                }
                return false;
            }
            i = i + 1;
        }
        proof {
            assert forall|c: Coord| #[trigger] self.tiles().contains_key(c) implies
                indices_valid(self.tiles()[c], &self.static_data)
                && crate::tile::drop_valid(self.tiles()[c], n_animals as nat) by {
                let k = lemma_entries_map_witness(entries@, c);
            }
        }
        true
    }

    /// Buys the chunk centred on the frontier point `selected_tile`. With too
    /// little money, or at a point that is not on the frontier, nothing
    /// changes. Otherwise the player pays the current cost, the cost grows by
    /// half, the chunk becomes grass, the point leaves the frontier, and each
    /// neighbouring chunk centre that is not owned land joins its end, in the
    /// order down, right, up, left.
    pub fn buy_land(&mut self, selected_tile: Coord, player: &mut Player)
        requires
            old(self).dynamic_data.wf(),
        ensures
            final(self).dynamic_data.wf(),
            final(self).static_data == old(self).static_data,
            final(self).occupancy() == old(self).occupancy(),
            ({
                let cost = old(self).dynamic_data.next_expansion_cost;
                if old(player).money >= cost && old(self).frontier().contains(selected_tile) {
                    &&& final(player).money == old(player).money - cost
                    &&& final(player).alltime_max_money == old(player).alltime_max_money
                    &&& final(player).level == old(player).level
                    &&& final(player).exp == old(player).exp
                    &&& final(player).exp_to_lvl_up == old(player).exp_to_lvl_up
                    &&& final(self).dynamic_data.next_expansion_cost == next_cost(cost)
                    &&& final(self).tiles() == with_chunk(old(self).tiles(), selected_tile)
                    &&& final(self).frontier() == frontier_after(
                        old(self).frontier().remove(old(self).frontier().index_of(selected_tile)),
                        selected_tile,
                        final(self).tiles(),
                        4,
                    )
                    &&& forall|q: Coord| #[trigger] final(self).frontier().contains(q) <==>
                        ((old(self).frontier().contains(q) && q != selected_tile)
                        || new_frontier_upto(selected_tile, final(self).tiles(), 4).contains(q))
                } else {
                    &&& *final(player) == *old(player)
                    &&& final(self).tiles() == old(self).tiles()
                    &&& final(self).frontier() == old(self).frontier()
                    &&& final(self).dynamic_data.next_expansion_cost == cost
                }
            }),
    {
        let cost = self.dynamic_data.next_expansion_cost;
        if player.money < cost {
            return;
        }
        let index = match position_of(&self.dynamic_data.land_expansion_points, selected_tile) {
            Some(i) => i,
            None => {
                return;
            },
        };
        player.money = player.money - cost;
        self.dynamic_data.next_expansion_cost = cost.saturating_add(cost / 2 + cost % 2);
        proof {
            let f = old(self).frontier();
            let j = f.index_of(selected_tile);
            assert(f[index as int] == selected_tile);
            assert(j == index as int) by {
                if j != index as int {
                    assert(f[j] == f[index as int]);
                }
            }
        }
        self.expand(index);
    }

    /// Materialises the chunk centred on frontier point number `index`: its
    /// tiles become grass, the point leaves the frontier, and each
    /// neighbouring chunk centre that is not owned land joins the frontier
    /// unless it is on it already.
    pub fn expand(&mut self, index: usize)
        requires
            old(self).dynamic_data.wf(),
            index < old(self).frontier().len(),
        ensures
            final(self).dynamic_data.wf(),
            final(self).static_data == old(self).static_data,
            final(self).occupancy() == old(self).occupancy(),
            final(self).dynamic_data.next_expansion_cost == old(self).dynamic_data.next_expansion_cost,
            ({
                let p = old(self).frontier()[index as int];
                &&& final(self).tiles() == with_chunk(old(self).tiles(), p)
                &&& final(self).frontier() == frontier_after(old(self).frontier().remove(index as int), p, final(self).tiles(), 4)
                &&& forall|q: Coord| #[trigger] final(self).frontier().contains(q) <==>
                    ((old(self).frontier().contains(q) && q != p) || new_frontier_upto(p, final(self).tiles(), 4).contains(q))
            }),
    {
        let ghost selected_tile = self.frontier()[index as int];
        proof {
            lemma_remove_unique(self.frontier(), index as int);
        }
        let point = self.dynamic_data.land_expansion_points.remove(index);
        assert(within_limit(old(self).frontier()[index as int]));
        add_chunk(&mut self.dynamic_data.tiles, point);
        proof {
            assert(frontier_point_ok(old(self).frontier()[index as int], old(self).tiles()));
            assert forall|i: int| 0 <= i < self.frontier().len() implies
                frontier_point_ok(#[trigger] self.frontier()[i], self.tiles()) by {
                let q = self.frontier()[i];
                assert(self.frontier().contains(q));
                let j = choose|j: int| 0 <= j < old(self).frontier().len() && old(self).frontier()[j] == q;
                assert(frontier_point_ok(old(self).frontier()[j], old(self).tiles()));
                lemma_lattice_apart(point, q);
            }
        }
        let ghost removed = self.frontier();
        let mut k: usize = 0;
        while k < 4
            invariant
                k <= 4,
                self.dynamic_data.wf(),
                point == selected_tile,
                within_limit(point),
                on_lattice(point),
                self.static_data == old(self).static_data,
                self.occupancy() == old(self).occupancy(),
                self.tiles() == with_chunk(old(self).tiles(), selected_tile),
                self.dynamic_data.next_expansion_cost == old(self).dynamic_data.next_expansion_cost,
                forall|q: Coord| removed.contains(q) <==> (old(self).frontier().contains(q) && q != selected_tile),
                forall|q: Coord| #[trigger] self.frontier().contains(q) <==>
                    (removed.contains(q) || new_frontier_upto(point, self.tiles(), k as int).contains(q)),
                removed == old(self).frontier().remove(index as int),
                self.frontier() == frontier_after(removed, point, self.tiles(), k as int),
            decreases 4 - k,
        {
            let q: Coord = if k == 0 {
                (point.0, point.1 + CHUNK_HEIGHT)
            } else if k == 1 {
                (point.0 + CHUNK_WIDTH, point.1)
            } else if k == 2 {
                (point.0, point.1 - CHUNK_HEIGHT)
            } else {
                (point.0 - CHUNK_WIDTH, point.1)
            };
            assert(chunk_neighbour(point, k as int) == (q.0 as int, q.1 as int));
            assert(neighbour_point(point, k as int) == q);
            let inside = -FRONTIER_LIMIT <= q.0 && q.0 <= FRONTIER_LIMIT && -FRONTIER_LIMIT <= q.1
                && q.1 <= FRONTIER_LIMIT;
            let ghost before = self.frontier();
            if inside && !self.dynamic_data.tiles.contains_key(q) {
                if position_of(&self.dynamic_data.land_expansion_points, q).is_none() {
                    self.dynamic_data.land_expansion_points.push(q);
                    proof {
                        assert forall|a: int, b: int| 0 <= a < self.frontier().len() && 0 <= b < self.frontier().len()
                            && a != b implies self.frontier()[a] != self.frontier()[b] by {
                            if a < before.len() && b < before.len() {
                                assert(before[a] == self.frontier()[a]);
                                assert(before[b] == self.frontier()[b]);
                            } else if a < before.len() {
                                assert(before.contains(self.frontier()[a]));
                            } else {
                                assert(before.contains(self.frontier()[b]));
                            }
                        }
                        assert forall|i: int| 0 <= i < self.frontier().len() implies
                            frontier_point_ok(#[trigger] self.frontier()[i], self.tiles()) by {
                            if i < before.len() {
                                assert(before[i] == self.frontier()[i]);
                            }
                        }
                    }
                }
            }
            proof {
                assert forall|r: Coord| #[trigger] self.frontier().contains(r) <==>
                    (removed.contains(r) || new_frontier_upto(point, self.tiles(), k + 1).contains(r)) by {
                    if new_frontier_upto(point, self.tiles(), k + 1).contains(r) {
                        let j = choose|j: int| 0 <= j < k + 1 && #[trigger] chunk_neighbour(point, j) == (r.0 as int, r.1 as int)
                            && within_limit(r) && !self.tiles().contains_key(r);
                        if j < k {
                            assert(new_frontier_upto(point, self.tiles(), k as int).contains(r));
                        } else {
                            assert(r == q);
                            if !before.contains(r) {
                                assert(self.frontier()[before.len() as int] == r);
                            }
                        }
                    }
                    if before.contains(r) {
                        let a = choose|a: int| 0 <= a < before.len() && before[a] == r;
                        assert(self.frontier()[a] == r);
                    }
                    if self.frontier().contains(r) && !before.contains(r) {
                        let a = choose|a: int| 0 <= a < self.frontier().len() && self.frontier()[a] == r;
                        assert(a == before.len());
                        assert(r == q);
                        assert(chunk_neighbour(point, k as int) == (r.0 as int, r.1 as int));
                    }
                    if new_frontier_upto(point, self.tiles(), k as int).contains(r) {
                        let j = choose|j: int| 0 <= j < k && #[trigger] chunk_neighbour(point, j) == (r.0 as int, r.1 as int)
                            && within_limit(r) && !self.tiles().contains_key(r);
                        assert(chunk_neighbour(point, j) == (r.0 as int, r.1 as int));
                    }
                }
            }
            k = k + 1;
        }
    }
}

/// After a purchase at `p`, `p` is no longer on the frontier, so buying at
/// `p` a second time changes nothing (`buy_land` leaves the grid, the
/// frontier and the purse as they were at a point off the frontier).
pub proof fn lemma_bought_point_leaves_frontier(
    before: Seq<Coord>,
    p: Coord,
    tiles_after: Map<Coord, TileType>,
    after: Seq<Coord>,
)
    requires
        forall|q: Coord| #[trigger] after.contains(q) <==> ((before.contains(q) && q != p)
            || new_frontier_upto(p, tiles_after, 4).contains(q)),
    ensures
        !after.contains(p),
{
    if new_frontier_upto(p, tiles_after, 4).contains(p) {
        let j = choose|j: int| 0 <= j < 4 && #[trigger] chunk_neighbour(p, j) == (p.0 as int, p.1 as int)
            && within_limit(p) && !tiles_after.contains_key(p);
    }
}

/// Over a whole growth tick (the relation `update_tiles` guarantees), every
/// farmland keeps its crop, its stage never falls, and a stage at or below
/// the growing time stays at or below it.
pub proof fn lemma_tick_keeps_farmland_growing(
    st: &MapStaticData,
    before: Map<Coord, TileType>,
    after: Map<Coord, TileType>,
    mult: nat,
)
    requires
        after.dom() == before.dom(),
        forall|c: Coord| #[trigger] before.contains_key(c) ==> after[c] == tick_tile(before[c], st, before, c, mult),
    ensures
        forall|c: Coord| #[trigger] before.contains_key(c) && before[c] is Farmland ==> {
            let ttg = st.crops_data@[before[c]->Farmland_crop as int].time_to_grow;
            &&& after[c] is Farmland
            &&& after[c]->Farmland_crop == before[c]->Farmland_crop
            &&& after[c]->Farmland_stage >= before[c]->Farmland_stage
            &&& before[c]->Farmland_stage <= ttg ==> after[c]->Farmland_stage <= ttg
        },
{
    assert forall|c: Coord| #[trigger] before.contains_key(c) && before[c] is Farmland implies {
        let ttg = st.crops_data@[before[c]->Farmland_crop as int].time_to_grow;
        &&& after[c] is Farmland
        &&& after[c]->Farmland_crop == before[c]->Farmland_crop
        &&& after[c]->Farmland_stage >= before[c]->Farmland_stage
        &&& before[c]->Farmland_stage <= ttg ==> after[c]->Farmland_stage <= ttg
    } by {
        crate::tile::lemma_farmland_growth_monotone(before[c], st, before, c, mult);
    }
}

} // verus!
