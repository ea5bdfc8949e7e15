//! Wandering animals. Each tick an animal picks one of the four directions
//! at random and tries to step onto grass there; every successful attempt
//! fills its drop bar, and when the bar is full it leaves a drop on that
//! tile instead of stepping.
use vstd::prelude::*;
use crate::coord_map::Coord;
use crate::farm_map::FarmMap;
use crate::player::add_capped;
use crate::tables::{AnimalData, AnimalStatic};
use crate::tile::{drop_valid, indices_valid, shift, shifted, TileType};

verus! {

pub struct Animal {
    pub animal_type: usize,
    pub drop_bar: usize,
    pub position: Coord,
    pub direction: (i32, i32),
}

pub struct AnimalDynamic {
    pub animals: Vec<Animal>,
}

pub struct AnimalHandler {
    pub static_data: AnimalStatic,
    pub dynamic_data: AnimalDynamic,
}

/// The step of direction `k`: down, right, up, left.
pub open spec fn wander_direction(k: int) -> (i32, i32) {
    if k == 0 {
        (0, 1)
    } else if k == 1 {
        (1, 0)
    } else if k == 2 {
        (0, -1i32)
    } else {
        (-1i32, 0)
    }
}

/// One attempt of an animal to step in direction `dir`, from `before` on the
/// grid `tiles` to `after` on `tiles_after`. Onto anything but owned grass
/// the animal does not move and its bar does not fill. Otherwise the bar
/// fills by one; once it reaches the drop time it empties and the grass
/// becomes a drop of this animal, the animal staying where it is; before
/// that, the animal steps onto the grass.
pub open spec fn wandered(
    before: Animal,
    tiles: Map<Coord, TileType>,
    data: AnimalData,
    dir: int,
    after: Animal,
    tiles_after: Map<Coord, TileType>,
) -> bool {
    let d = wander_direction(dir);
    let dest = shifted(before.position, d.0 as int, d.1 as int);
    &&& after.direction == d
    &&& after.animal_type == before.animal_type
    &&& if dest is Some && tiles.contains_key(dest.unwrap()) && tiles[dest.unwrap()] == TileType::Grass {
        let bar = add_capped(before.drop_bar, 1);
        if bar >= data.time_to_drop {
            &&& after.drop_bar == 0
            &&& after.position == before.position
            &&& tiles_after == tiles.insert(dest.unwrap(), TileType::AnimalDrop { animal: before.animal_type })
        } else {
            &&& after.drop_bar == bar
            &&& after.position == dest.unwrap()
            &&& tiles_after == tiles
        }
    } else {
        &&& after.drop_bar == before.drop_bar
        &&& after.position == before.position
        &&& tiles_after == tiles
    }
}

/// Every animal of `before` made one attempt, in order, ending as the
/// animal of `after` at the same position: animal `i` with draw `draws[i]`,
/// from grid `grids[i]` to grid `grids[i + 1]`, the first grid being `start`
/// and the last `end`.
pub open spec fn herd_wandered(
    before: Seq<Animal>,
    after: Seq<Animal>,
    data: Seq<AnimalData>,
    start: Map<Coord, TileType>,
    end: Map<Coord, TileType>,
    grids: Seq<Map<Coord, TileType>>,
    draws: Seq<int>,
) -> bool {
    &&& after.len() == before.len()
    &&& draws.len() == before.len()
    &&& grids.len() == before.len() + 1
    &&& grids[0] == start
    &&& grids[before.len() as int] == end
    &&& forall|i: int| 0 <= i < before.len() ==> #[trigger] herd_step(before, after, data, grids, draws, i)
}

/// Animal `i` made its attempt with draw `draws[i]`, from `grids[i]` to
/// `grids[i + 1]`.
pub open spec fn herd_step(
    before: Seq<Animal>,
    after: Seq<Animal>,
    data: Seq<AnimalData>,
    grids: Seq<Map<Coord, TileType>>,
    draws: Seq<int>,
    i: int,
) -> bool {
    0 <= draws[i] < 4 && wandered(before[i], grids[i], data[before[i].animal_type as int], draws[i], after[i], grids[i + 1])
}

/// Relies on `rand::random_range`: a value drawn from `0..n`. It panics on
/// an empty range, which `n > 0` rules out.
#[verifier::external_body]
fn random_below(n: usize) -> (r: usize)
    requires
        n > 0,
    ensures
        r < n,
{
    rand::random_range(0..n)
}

impl Animal {
    pub fn new(animal_type: usize, x: i32, y: i32) -> (r: Self)
        ensures
            r.animal_type == animal_type,
            r.drop_bar == 0,
            r.position == (x, y),
            r.direction == (0i32, 1i32),
    {
        Animal { animal_type, drop_bar: 0, position: (x, y), direction: (0, 1) }
    }

    /// One attempt to step in direction `dir`. Onto anything but owned
    /// grass the animal does not move and its bar does not fill. Otherwise
    /// the bar fills by one; once it reaches the animal's drop time it
    /// empties and the grass becomes a drop of this animal, the animal
    /// staying where it is; before that, the animal steps onto the grass.
    pub fn move_in_direction(&mut self, map: &mut FarmMap, animal_data: &AnimalData, dir: usize)
        requires
            dir < 4,
            old(map).dynamic_data.tiles.wf(),
        ensures
            final(map).dynamic_data.tiles.wf(),
            final(self).direction == wander_direction(dir as int),
            final(self).animal_type == old(self).animal_type,
            final(map).static_data == old(map).static_data,
            final(map).occupancy() == old(map).occupancy(),
            final(map).frontier() == old(map).frontier(),
            final(map).dynamic_data.occupation_map == old(map).dynamic_data.occupation_map,
            final(map).dynamic_data.land_expansion_points == old(map).dynamic_data.land_expansion_points,
            final(map).dynamic_data.next_expansion_cost == old(map).dynamic_data.next_expansion_cost,
            wandered(*old(self), old(map).tiles(), *animal_data, dir as int, *final(self), final(map).tiles()),
    {
        let d: (i32, i32) = if dir == 0 {
            (0, 1)
        } else if dir == 1 {
            (1, 0)
        } else if dir == 2 {
            (0, -1)
        } else {
            (-1, 0)
        };
        self.direction = d;
        let dest = match shift(self.position, d.0, d.1) {
            Some(c) => c,
            None => {
                return;
            },
        };
        match map.dynamic_data.tiles.get(dest) {
            Some(TileType::Grass) => {},
            _ => {
                return;
            },
        }
        self.drop_bar = self.drop_bar.saturating_add(1);
        if self.drop_bar >= animal_data.time_to_drop {
            self.drop_bar = 0;
            map.dynamic_data.tiles.insert(dest, TileType::AnimalDrop { animal: self.animal_type });
            return;
        }
        self.position = dest;
    }

    /// One tick of this animal, in a direction drawn at random.
    pub fn move_randomly(&mut self, map: &mut FarmMap, animal_data: &AnimalData)
        requires
            old(map).dynamic_data.tiles.wf(),
        ensures
            final(map).dynamic_data.tiles.wf(),
            final(self).animal_type == old(self).animal_type,
            final(map).static_data == old(map).static_data,
            final(map).dynamic_data.occupation_map == old(map).dynamic_data.occupation_map,
            final(map).dynamic_data.land_expansion_points == old(map).dynamic_data.land_expansion_points,
            final(map).dynamic_data.next_expansion_cost == old(map).dynamic_data.next_expansion_cost,
            exists|dir: int| 0 <= dir < 4
                && #[trigger] wandered(*old(self), old(map).tiles(), *animal_data, dir, *final(self), final(map).tiles()),
            final(map).tiles().dom() == old(map).tiles().dom(),
            forall|c: Coord| #[trigger] final(map).tiles().contains_key(c) ==> final(map).tiles()[c] == old(map).tiles()[c]
                || (old(map).tiles()[c] == TileType::Grass && final(map).tiles()[c] == TileType::AnimalDrop {
                animal: old(self).animal_type,
            }),
    {
        let dir = random_below(4);
        self.move_in_direction(map, animal_data, dir);
        proof {
            assert(wandered(*old(self), old(map).tiles(), *animal_data, dir as int, *self, map.tiles()));
            assert(map.tiles().dom() =~= old(map).tiles().dom());
        }
    }
}

impl AnimalHandler {
    /// Every animal refers to an existing animal definition.
    pub open spec fn wf(&self) -> bool {
        &&& self.static_data.wf()
        &&& forall|i: int| 0 <= i < self.dynamic_data.animals.len() ==>
            (#[trigger] self.dynamic_data.animals@[i]).animal_type < self.static_data.animal_data.len()
    }

    /// Checks the invariant; restored animals that fail it are treated as absent.
    pub fn is_valid(&self) -> (r: bool)
        ensures
            r == self.wf(),
    {
        if !self.static_data.is_valid() {
            return false;
        }
        let mut i: usize = 0;
        while i < self.dynamic_data.animals.len()
            invariant
                i <= self.dynamic_data.animals@.len(),
                forall|j: int| 0 <= j < i ==>
                    (#[trigger] self.dynamic_data.animals@[j]).animal_type < self.static_data.animal_data.len(),
            decreases self.dynamic_data.animals@.len() - i,
        {
            if self.dynamic_data.animals[i].animal_type >= self.static_data.animal_data.len() {
                return false;
            }
            i = i + 1;
        }
        true
    }

    pub fn new(static_data: AnimalStatic) -> (r: Self)
        ensures
            r.static_data == static_data,
            r.dynamic_data.animals@.len() == 0,
    {
        AnimalHandler { static_data, dynamic_data: AnimalDynamic { animals: Vec::new() } }
    }

    pub fn add_animal(&mut self, animal: Animal)
        ensures
            final(self).dynamic_data.animals@ == old(self).dynamic_data.animals@.push(animal),
            final(self).static_data == old(self).static_data,
    {
        self.dynamic_data.animals.push(animal);
    }

    /// One tick of every animal, in order.
    pub fn move_animals(&mut self, map: &mut FarmMap)
        requires
            old(self).wf(),
            old(map).wf(old(self).static_data.animal_data.len() as nat),
        ensures
            final(self).wf(),
            final(self).static_data == old(self).static_data,
            final(self).dynamic_data.animals@.len() == old(self).dynamic_data.animals@.len(),
            final(map).wf(old(self).static_data.animal_data.len() as nat),
            final(map).static_data == old(map).static_data,
            final(map).occupancy() == old(map).occupancy(),
            final(map).frontier() == old(map).frontier(),
            final(map).dynamic_data.next_expansion_cost == old(map).dynamic_data.next_expansion_cost,
            final(map).tiles().dom() == old(map).tiles().dom(),
            forall|c: Coord| #[trigger] final(map).tiles().contains_key(c) ==> final(map).tiles()[c] == old(map).tiles()[c]
                || (old(map).tiles()[c] == TileType::Grass && final(map).tiles()[c] is AnimalDrop),
            exists|grids: Seq<Map<Coord, TileType>>, draws: Seq<int>| #[trigger] herd_wandered(
                old(self).dynamic_data.animals@,
                final(self).dynamic_data.animals@,
                old(self).static_data.animal_data@,
                old(map).tiles(),
                final(map).tiles(),
                grids,
                draws,
            ),
    {
        let ghost n = self.static_data.animal_data.len() as nat;
        let ghost mut grids: Seq<Map<Coord, TileType>> = seq![map.tiles()];
        let ghost mut draws: Seq<int> = Seq::empty();
        let mut i: usize = 0;
        while i < self.dynamic_data.animals.len()
            invariant
                self.wf(),
                self.static_data == old(self).static_data,
                self.dynamic_data.animals@.len() == old(self).dynamic_data.animals@.len(),
                n == self.static_data.animal_data.len(),
                i <= self.dynamic_data.animals@.len(),
                map.wf(n),
                map.static_data == old(map).static_data,
                map.occupancy() == old(map).occupancy(),
                map.frontier() == old(map).frontier(),
                map.dynamic_data.next_expansion_cost == old(map).dynamic_data.next_expansion_cost,
                map.tiles().dom() == old(map).tiles().dom(),
                forall|c: Coord| #[trigger] map.tiles().contains_key(c) ==> map.tiles()[c] == old(map).tiles()[c]
                    || (old(map).tiles()[c] == TileType::Grass && map.tiles()[c] is AnimalDrop),
                grids.len() == i + 1,
                draws.len() == i,
                grids[0] == old(map).tiles(),
                grids[i as int] == map.tiles(),
                forall|j: int| i <= j < self.dynamic_data.animals@.len() ==>
                    #[trigger] self.dynamic_data.animals@[j] == old(self).dynamic_data.animals@[j],
                forall|j: int| 0 <= j < i ==> #[trigger] herd_step(
                    old(self).dynamic_data.animals@,
                    self.dynamic_data.animals@,
                    self.static_data.animal_data@,
                    grids,
                    draws,
                    j,
                ),
            decreases old(self).dynamic_data.animals@.len() - i,
        {
            let kind = self.dynamic_data.animals[i].animal_type;
            assert(kind < self.static_data.animal_data.len());
            let data = self.static_data.animal_data[kind];
            let ghost before = map.tiles();
            let ghost animals_before = self.dynamic_data.animals@;
            self.dynamic_data.animals[i].move_randomly(map, &data);
            proof {
                let d = choose|d: int| 0 <= d < 4
                    && #[trigger] wandered(animals_before[i as int], before, data, d, self.dynamic_data.animals@[i as int], map.tiles());
                assert forall|j: int| 0 <= j < self.dynamic_data.animals@.len() && j != i implies
                    #[trigger] self.dynamic_data.animals@[j] == animals_before[j] by {}
                let g0 = grids;
                let d0 = draws;
                grids = grids.push(map.tiles());
                draws = draws.push(d);
                assert forall|j: int| 0 <= j < i + 1 implies #[trigger] herd_step(
                    old(self).dynamic_data.animals@,
                    self.dynamic_data.animals@,
                    self.static_data.animal_data@,
                    grids,
                    draws,
                    j,
                ) by {
                    if j < i {
                        assert(grids[j] == g0[j] && grids[j + 1] == g0[j + 1] && draws[j] == d0[j]);
                        assert(self.dynamic_data.animals@[j] == animals_before[j]);
                        assert(herd_step(old(self).dynamic_data.animals@, animals_before, self.static_data.animal_data@, g0, d0, j));
                    } else {
                        assert(animals_before[j] == old(self).dynamic_data.animals@[j]);
                        assert(grids[j] == before && grids[j + 1] == map.tiles() && draws[j] == d);
                    }
                }
                assert forall|c: Coord| #[trigger] map.tiles().contains_key(c) implies
                    indices_valid(map.tiles()[c], &map.static_data) && drop_valid(map.tiles()[c], n) by {
                    assert(before.contains_key(c));
                }
                assert forall|c: Coord| #[trigger] map.tiles().contains_key(c) implies map.tiles()[c] == old(map).tiles()[c]
                    || (old(map).tiles()[c] == TileType::Grass && map.tiles()[c] is AnimalDrop) by {
                    assert(before.contains_key(c));
                }
                assert forall|j: int| 0 <= j < self.dynamic_data.animals.len() implies
                    (#[trigger] self.dynamic_data.animals@[j]).animal_type < self.static_data.animal_data.len() by {
                    assert(self.dynamic_data.animals@[j].animal_type == animals_before[j].animal_type);
                }
            }
            i = i + 1;
        }
        proof {
            assert(herd_wandered(
                old(self).dynamic_data.animals@,
                self.dynamic_data.animals@,
                old(self).static_data.animal_data@,
                old(map).tiles(),
                map.tiles(),
                grids,
                draws,
            ));
        }
    }
}

} // verus!
