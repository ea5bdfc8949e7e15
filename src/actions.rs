//! The player's actions on the grid. Each checks the tile and the price
//! first; an action the player cannot afford, or on a tile it does not
//! apply to, changes nothing.
use vstd::prelude::*;
use crate::animal::{Animal, AnimalHandler};
use crate::coord_map::Coord;
use crate::farm_map::FarmMap;
use crate::harvest::released;
use crate::player::{add_capped, Player};
use crate::shop::{MenuMode, ToolbarData};
use crate::tile::{drop_valid, indices_valid, TileType};
use crate::worker::{Worker, WorkerHandler};

verus! {

/// `v` with one more at index `i`, capped at `usize::MAX`.
pub open spec fn bump(v: Seq<usize>, i: int) -> Seq<usize> {
    v.update(i, add_capped(v[i], 1))
}

/// `v` with one fewer at index `i`, stopping at zero.
pub open spec fn unbump(v: Seq<usize>, i: int) -> Seq<usize> {
    v.update(i, if v[i] > 0 { (v[i] - 1) as usize } else { 0usize })
}

/// The shop's catalogue lists every crop and tree of the tables.
pub open spec fn catalogue_matches(toolbar: &ToolbarData, map: &FarmMap) -> bool {
    &&& toolbar.wf()
    &&& toolbar.static_data.crops@.len() == map.static_data.crops_data@.len()
    &&& toolbar.static_data.trees@.len() == map.static_data.tree_data@.len()
}

/// Only the money changed, by paying `price`.
pub open spec fn paid(p: Player, q: Player, price: usize) -> bool {
    q == Player { money: (p.money - price) as usize, ..p }
}

fn bump_at(v: &mut Vec<usize>, i: usize)
    requires
        i < old(v)@.len(),
    ensures
        final(v)@ == bump(old(v)@, i as int),
{
    let a = v[i];
    v.set(i, a.saturating_add(1));
}

fn unbump_at(v: &mut Vec<usize>, i: usize)
    requires
        i < old(v)@.len(),
    ensures
        final(v)@ == unbump(old(v)@, i as int),
{
    let a = v[i];
    v.set(i, a.saturating_sub(1));
}

impl FarmMap {
    /// Overwrites the tile at an owned coordinate.
    fn put_tile(&mut self, c: Coord, t: TileType)
        requires
            old(self).grid_ok(),
            old(self).tiles().contains_key(c),
            indices_valid(t, &old(self).static_data),
            !(t is AnimalDrop),
        ensures
            final(self).grid_ok(),
            forall|n: nat| crate::tile::drops_valid(old(self).tiles(), n) ==> crate::tile::drops_valid(final(self).tiles(), n),
            final(self).tiles() == old(self).tiles().insert(c, t),
            final(self).tiles().dom() == old(self).tiles().dom(),
            final(self).occupancy() == old(self).occupancy(),
            final(self).static_data == old(self).static_data,
            final(self).frontier() == old(self).frontier(),
            final(self).dynamic_data.next_expansion_cost == old(self).dynamic_data.next_expansion_cost,
    {
        self.dynamic_data.tiles.insert(c, t);
        proof {
            assert(self.tiles().dom() =~= old(self).tiles().dom());
            assert forall|d: Coord| #[trigger] self.tiles().contains_key(d) implies
                indices_valid(self.tiles()[d], &self.static_data) by {
                if d != c {
                    assert(old(self).tiles().contains_key(d));
                }
            }
            assert forall|n: nat| crate::tile::drops_valid(old(self).tiles(), n) implies
                crate::tile::drops_valid(self.tiles(), n) by {
                assert forall|d: Coord| #[trigger] self.tiles().contains_key(d) implies drop_valid(self.tiles()[d], n) by {
                    if d != c {
                        assert(old(self).tiles().contains_key(d));
                    }
                }
            }
        }
    }
}

impl Player {
    /// Plants crop `selected` on owned grass, or, from the crops menu,
    /// replants farmland holding another crop, at the crop's current price.
    /// Any reservation on the tile is cleared first.
    pub fn plant_crops(
        &mut self,
        toolbar: &mut ToolbarData,
        mode: MenuMode,
        selected: usize,
        map: &mut FarmMap,
        selected_tile: &Coord,
    )
        requires
            old(map).grid_ok(),
            catalogue_matches(old(toolbar), old(map)),
            selected < old(toolbar).static_data.crops@.len(),
        ensures
            final(map).grid_ok(),
            catalogue_matches(final(toolbar), final(map)),
            final(map).static_data == old(map).static_data,
            final(map).frontier() == old(map).frontier(),
            final(map).dynamic_data.next_expansion_cost == old(map).dynamic_data.next_expansion_cost,
            final(map).tiles().dom() == old(map).tiles().dom(),
            final(toolbar).static_data == old(toolbar).static_data,
            final(toolbar).dynamic_data.tree_amount == old(toolbar).dynamic_data.tree_amount,
            forall|n: nat| crate::tile::drops_valid(old(map).tiles(), n) ==> crate::tile::drops_valid(final(map).tiles(), n),
            ({
                let c = *selected_tile;
                let price = old(toolbar).crop_price(selected as int);
                let amounts = old(toolbar).dynamic_data.crop_amount@;
                if !old(map).tiles().contains_key(c) {
                    &&& *final(self) == *old(self)
                    &&& final(map).tiles() == old(map).tiles()
                    &&& final(map).occupancy() == old(map).occupancy()
                    &&& final(toolbar).dynamic_data.crop_amount@ == amounts
                } else {
                    &&& final(map).occupancy() == released(old(map).occupancy(), c)
                    &&& match old(map).tiles()[c] {
                        TileType::Grass => if old(self).money >= price {
                            &&& paid(*old(self), *final(self), price)
                            &&& final(toolbar).dynamic_data.crop_amount@ == bump(amounts, selected as int)
                            &&& final(map).tiles() == old(map).tiles().insert(c, TileType::Farmland { crop: selected, stage: 0 })
                        } else {
                            &&& *final(self) == *old(self)
                            &&& final(toolbar).dynamic_data.crop_amount@ == amounts
                            &&& final(map).tiles() == old(map).tiles()
                        },
                        TileType::Farmland { crop, .. } => if mode == MenuMode::Crops && crop != selected
                            && old(self).money >= price {
                            &&& paid(*old(self), *final(self), price)
                            &&& final(toolbar).dynamic_data.crop_amount@ == bump(unbump(amounts, crop as int), selected as int)
                            &&& final(map).tiles() == old(map).tiles().insert(c, TileType::Farmland { crop: selected, stage: 0 })
                        } else {
                            &&& *final(self) == *old(self)
                            &&& final(toolbar).dynamic_data.crop_amount@ == amounts
                            &&& final(map).tiles() == old(map).tiles()
                        },
                        _ => {
                            &&& *final(self) == *old(self)
                            &&& final(toolbar).dynamic_data.crop_amount@ == amounts
                            &&& final(map).tiles() == old(map).tiles()
                        },
                    }
                }
            }),
    {
        let c = *selected_tile;
        let tile = match map.dynamic_data.tiles.get(c) {
            Some(t) => t,
            None => {
                return;
            },
        };
        map.release(c);
        match tile {
            TileType::Grass => {
                let price = toolbar.get_price_for_crop(selected);
                if self.money >= price {
                    self.money = self.money - price;
                    bump_at(&mut toolbar.dynamic_data.crop_amount, selected);
                    map.put_tile(c, TileType::Farmland { crop: selected, stage: 0 });
                }
            },
            TileType::Farmland { crop, .. } => {
                if mode == MenuMode::Crops && crop != selected {
                    let price = toolbar.get_price_for_crop(selected);
                    if self.money >= price {
                        assert(indices_valid(tile, &map.static_data));
                        unbump_at(&mut toolbar.dynamic_data.crop_amount, crop);
                        bump_at(&mut toolbar.dynamic_data.crop_amount, selected);
                        self.money = self.money - price;
                        map.put_tile(c, TileType::Farmland { crop: selected, stage: 0 });
                    }
                }
            },
            _ => {},
        }
    }

    /// Plants tree `selected` on owned grass at the tree's current price.
    /// Any reservation on the tile is cleared first.
    pub fn plant_trees(&mut self, toolbar: &mut ToolbarData, selected: usize, map: &mut FarmMap, selected_tile: &Coord)
        requires
            old(map).grid_ok(),
            catalogue_matches(old(toolbar), old(map)),
            selected < old(toolbar).static_data.trees@.len(),
        ensures
            final(map).grid_ok(),
            catalogue_matches(final(toolbar), final(map)),
            final(map).static_data == old(map).static_data,
            final(map).frontier() == old(map).frontier(),
            final(map).dynamic_data.next_expansion_cost == old(map).dynamic_data.next_expansion_cost,
            final(map).tiles().dom() == old(map).tiles().dom(),
            final(toolbar).static_data == old(toolbar).static_data,
            final(toolbar).dynamic_data.crop_amount == old(toolbar).dynamic_data.crop_amount,
            forall|n: nat| crate::tile::drops_valid(old(map).tiles(), n) ==> crate::tile::drops_valid(final(map).tiles(), n),
            ({
                let c = *selected_tile;
                let price = old(toolbar).tree_price(selected as int);
                let amounts = old(toolbar).dynamic_data.tree_amount@;
                let owned = old(map).tiles().contains_key(c);
                &&& final(map).occupancy() == if owned { released(old(map).occupancy(), c) } else { old(map).occupancy() }
                &&& if owned && old(map).tiles()[c] == TileType::Grass && old(self).money >= price {
                    &&& paid(*old(self), *final(self), price)
                    &&& final(toolbar).dynamic_data.tree_amount@ == bump(amounts, selected as int)
                    &&& final(map).tiles() == old(map).tiles().insert(c, TileType::Tree { tree: selected, grow: 0, stage: 0 })
                } else {
                    &&& *final(self) == *old(self)
                    &&& final(toolbar).dynamic_data.tree_amount@ == amounts
                    &&& final(map).tiles() == old(map).tiles()
                }
            }),
    {
        let c = *selected_tile;
        let tile = match map.dynamic_data.tiles.get(c) {
            Some(t) => t,
            None => {
                return;
            },
        };
        map.release(c);
        if tile == TileType::Grass {
            let price = toolbar.get_price_for_tree(selected);
            if self.money >= price {
                self.money = self.money - price;
                bump_at(&mut toolbar.dynamic_data.tree_amount, selected);
                map.put_tile(c, TileType::Tree { tree: selected, grow: 0, stage: 0 });
            }
        }
    }

    /// Places animal `selected` on owned grass at the animal's current price.
    pub fn spawn_animals(
        &mut self,
        toolbar: &mut ToolbarData,
        selected: usize,
        map: &FarmMap,
        selected_tile: &Coord,
        animal_handler: &mut AnimalHandler,
    )
        requires
            map.grid_ok(),
            old(toolbar).wf(),
            old(animal_handler).wf(),
            selected < old(toolbar).static_data.animals@.len(),
            selected < old(animal_handler).static_data.animal_data@.len(),
        ensures
            final(toolbar).wf(),
            final(animal_handler).wf(),
            final(animal_handler).static_data == old(animal_handler).static_data,
            final(toolbar).static_data == old(toolbar).static_data,
            final(toolbar).dynamic_data.crop_amount == old(toolbar).dynamic_data.crop_amount,
            final(toolbar).dynamic_data.tree_amount == old(toolbar).dynamic_data.tree_amount,
            ({
                let c = *selected_tile;
                let price = old(toolbar).animal_price(selected as int);
                let amounts = old(toolbar).dynamic_data.animal_amount@;
                if map.tiles().contains_key(c) && map.tiles()[c] == TileType::Grass && old(self).money >= price {
                    &&& paid(*old(self), *final(self), price)
                    &&& final(toolbar).dynamic_data.animal_amount@ == bump(amounts, selected as int)
                    &&& final(animal_handler).dynamic_data.animals@.len() == old(animal_handler).dynamic_data.animals@.len() + 1
                    &&& final(animal_handler).dynamic_data.animals@.drop_last() == old(animal_handler).dynamic_data.animals@
                    &&& final(animal_handler).dynamic_data.animals@.last() == (Animal {
                        animal_type: selected,
                        drop_bar: 0,
                        position: c,
                        direction: (0i32, 1i32),
                    })
                } else {
                    &&& *final(self) == *old(self)
                    &&& final(toolbar).dynamic_data.animal_amount@ == amounts
                    &&& final(animal_handler).dynamic_data.animals@ == old(animal_handler).dynamic_data.animals@
                }
            }),
    {
        let c = *selected_tile;
        match map.dynamic_data.tiles.get(c) {
            Some(TileType::Grass) => {},
            _ => {
                return;
            },
        }
        let price = toolbar.get_price_for_animal(selected);
        if self.money >= price {
            self.money = self.money - price;
            bump_at(&mut toolbar.dynamic_data.animal_amount, selected);
            let ghost before = animal_handler.dynamic_data.animals@;
            animal_handler.add_animal(Animal::new(selected, c.0, c.1));
            proof {
                assert(animal_handler.dynamic_data.animals@.drop_last() =~= before);
                assert forall|i: int| 0 <= i < animal_handler.dynamic_data.animals.len() implies
                    (#[trigger] animal_handler.dynamic_data.animals@[i]).animal_type
                        < animal_handler.static_data.animal_data.len() by {
                    if i < before.len() {
                        assert(animal_handler.dynamic_data.animals@[i] == before[i]);
                    }
                }
            }
        }
    }

    /// Places, on owned grass, a beehive (item 0) or flower `selected - 1`
    /// (the other items) at the item's current price. Any reservation on the
    /// tile is cleared first.
    pub fn perform_beekeeping(&mut self, toolbar: &mut ToolbarData, selected: usize, map: &mut FarmMap, selected_tile: &Coord)
        requires
            old(map).grid_ok(),
            old(toolbar).wf(),
            selected < old(toolbar).static_data.beekeeping@.len(),
            selected == 0 || selected - 1 < old(map).static_data.flower_data@.len(),
        ensures
            final(map).grid_ok(),
            final(toolbar).wf(),
            final(map).static_data == old(map).static_data,
            final(map).frontier() == old(map).frontier(),
            final(map).dynamic_data.next_expansion_cost == old(map).dynamic_data.next_expansion_cost,
            final(map).tiles().dom() == old(map).tiles().dom(),
            final(toolbar).static_data == old(toolbar).static_data,
            final(toolbar).dynamic_data.crop_amount == old(toolbar).dynamic_data.crop_amount,
            final(toolbar).dynamic_data.tree_amount == old(toolbar).dynamic_data.tree_amount,
            forall|n: nat| crate::tile::drops_valid(old(map).tiles(), n) ==> crate::tile::drops_valid(final(map).tiles(), n),
            ({
                let c = *selected_tile;
                let price = old(toolbar).beekeeping_price(selected as int);
                let amounts = old(toolbar).dynamic_data.beekeeping_amount@;
                let owned = old(map).tiles().contains_key(c);
                let placed = if selected == 0 {
                    TileType::Beehive { stage: 0, price: 0, xp: 0 }
                } else {
                    TileType::Flower { flower: (selected - 1) as usize }
                };
                &&& final(map).occupancy() == if owned { released(old(map).occupancy(), c) } else { old(map).occupancy() }
                &&& if owned && old(map).tiles()[c] == TileType::Grass && old(self).money >= price {
                    &&& paid(*old(self), *final(self), price)
                    &&& final(toolbar).dynamic_data.beekeeping_amount@ == bump(amounts, selected as int)
                    &&& final(map).tiles() == old(map).tiles().insert(c, placed)
                } else {
                    &&& *final(self) == *old(self)
                    &&& final(toolbar).dynamic_data.beekeeping_amount@ == amounts
                    &&& final(map).tiles() == old(map).tiles()
                }
            }),
    {
        let c = *selected_tile;
        let tile = match map.dynamic_data.tiles.get(c) {
            Some(t) => t,
            None => {
                return;
            },
        };
        map.release(c);
        if tile == TileType::Grass {
            let price = toolbar.get_price_for_beekeeping(selected);
            if self.money >= price {
                self.money = self.money - price;
                bump_at(&mut toolbar.dynamic_data.beekeeping_amount, selected);
                let placed = if selected == 0 {
                    TileType::Beehive { stage: 0, price: 0, xp: 0 }
                } else {
                    TileType::Flower { flower: selected - 1 }
                };
                map.put_tile(c, placed);
            }
        }
    }

    /// Item 0 hires a worker on an owned tile at its current price. Item 1
    /// clears an owned tile's reservation and turns a tree or farmland back
    /// into grass, for free.
    pub fn perform_misc(
        &mut self,
        toolbar: &mut ToolbarData,
        worker_handler: &mut WorkerHandler,
        selected: usize,
        map: &mut FarmMap,
        selected_tile: &Coord,
    )
        requires
            old(map).grid_ok(),
            catalogue_matches(old(toolbar), old(map)),
            selected < old(toolbar).static_data.misc@.len(),
        ensures
            final(map).grid_ok(),
            catalogue_matches(final(toolbar), final(map)),
            final(map).static_data == old(map).static_data,
            final(map).frontier() == old(map).frontier(),
            final(map).dynamic_data.next_expansion_cost == old(map).dynamic_data.next_expansion_cost,
            final(map).tiles().dom() == old(map).tiles().dom(),
            final(toolbar).static_data == old(toolbar).static_data,
            forall|n: nat| crate::tile::drops_valid(old(map).tiles(), n) ==> crate::tile::drops_valid(final(map).tiles(), n),
            ({
                let c = *selected_tile;
                let price = old(toolbar).misc_price(selected as int);
                let owned = old(map).tiles().contains_key(c);
                let d = old(toolbar).dynamic_data;
                let hire = selected == 0 && old(self).money >= price && owned;
                &&& if hire {
                    &&& paid(*old(self), *final(self), price)
                    &&& final(toolbar).dynamic_data.misc_amount@ == bump(d.misc_amount@, 0)
                    &&& final(worker_handler).workers@.len() == old(worker_handler).workers@.len() + 1
                    &&& final(worker_handler).workers@.drop_last() == old(worker_handler).workers@
                    &&& final(worker_handler).workers@.last().position == c
                    &&& final(worker_handler).workers@.last().path@ == Seq::<Coord>::empty()
                } else {
                    &&& *final(self) == *old(self)
                    &&& final(toolbar).dynamic_data.misc_amount == d.misc_amount
                    &&& final(worker_handler).workers@ == old(worker_handler).workers@
                }
                &&& if selected == 1 && owned {
                    &&& final(map).occupancy() == released(old(map).occupancy(), c)
                    &&& match old(map).tiles()[c] {
                        TileType::Tree { tree, .. } => {
                            &&& final(map).tiles() == old(map).tiles().insert(c, TileType::Grass)
                            &&& final(toolbar).dynamic_data.tree_amount@ == unbump(d.tree_amount@, tree as int)
                            &&& final(toolbar).dynamic_data.crop_amount == d.crop_amount
                        },
                        TileType::Farmland { crop, .. } => {
                            &&& final(map).tiles() == old(map).tiles().insert(c, TileType::Grass)
                            &&& final(toolbar).dynamic_data.crop_amount@ == unbump(d.crop_amount@, crop as int)
                            &&& final(toolbar).dynamic_data.tree_amount == d.tree_amount
                        },
                        _ => {
                            &&& final(map).tiles() == old(map).tiles()
                            &&& final(toolbar).dynamic_data.crop_amount == d.crop_amount
                            &&& final(toolbar).dynamic_data.tree_amount == d.tree_amount
                        },
                    }
                } else {
                    &&& final(map).occupancy() == old(map).occupancy()
                    &&& final(map).tiles() == old(map).tiles()
                    &&& final(toolbar).dynamic_data.crop_amount == d.crop_amount
                    &&& final(toolbar).dynamic_data.tree_amount == d.tree_amount
                }
            }),
    {
        let c = *selected_tile;
        let price = toolbar.get_price_for_misc(selected);
        if selected == 0 && self.money >= price && map.dynamic_data.tiles.contains_key(c) {
            let ghost before = worker_handler.workers@;
            worker_handler.add_worker(Worker::new(c.0, c.1));
            self.money = self.money - price;
            bump_at(&mut toolbar.dynamic_data.misc_amount, 0);
            assert(worker_handler.workers@.drop_last() =~= before);
        }
        if selected == 1 {
            let tile = match map.dynamic_data.tiles.get(c) {
                Some(t) => t,
                None => {
                    return;
                },
            };
            map.release(c);
            match tile {
                TileType::Tree { tree, .. } => {
                    assert(indices_valid(tile, &map.static_data));
                    unbump_at(&mut toolbar.dynamic_data.tree_amount, tree);
                    map.put_tile(c, TileType::Grass);
                },
                TileType::Farmland { crop, .. } => {
                    assert(indices_valid(tile, &map.static_data));
                    unbump_at(&mut toolbar.dynamic_data.crop_amount, crop);
                    map.put_tile(c, TileType::Grass);
                },
                _ => {},
            }
        }
    }
}

} // verus!
