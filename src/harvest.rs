//! Reservations of tiles by workers, and harvesting one tile: its payout,
//! what the tile becomes, and the release of its reservation.
use vstd::prelude::*;
use crate::coord_map::Coord;
use crate::farm_map::FarmMap;
use crate::tables::{AnimalStatic, MapStaticData};
use crate::tile::{drop_valid, indices_valid, is_ready, TileType};
use crate::upgrades::UpgradeHandler;
use crate::yields::{compute_yield, climate_sample, noise_at, yield_of, YieldSource};

verus! {

/// The payout of harvesting the ready tile `t` at `pos`: a crop, tree or
/// animal drop pays its computed yield, a hive the price and experience it
/// cached when it matured.
pub open spec fn payout_of(t: TileType, st: &MapStaticData, an: &AnimalStatic, ledger: Seq<usize>, pos: Coord) -> (nat, nat) {
    match t {
        TileType::Farmland { crop, .. } => yield_of(YieldSource::Crop { crop }, st, an, ledger, noise_at(pos) as i32),
        TileType::Tree { tree, .. } => yield_of(YieldSource::Tree { tree }, st, an, ledger, noise_at(pos) as i32),
        TileType::AnimalDrop { animal } => yield_of(YieldSource::Animal { animal }, st, an, ledger, noise_at(pos) as i32),
        TileType::Beehive { price, xp, .. } => (price as nat, xp as nat),
        _ => (0, 0),
    }
}

/// What a ready tile becomes once harvested: crops, trees and hives restart
/// their stage (a tree stays mature), a drop turns back into grass.
pub open spec fn after_harvest(t: TileType) -> TileType {
    match t {
        TileType::Farmland { crop, .. } => TileType::Farmland { crop, stage: 0 },
        TileType::Tree { tree, grow, .. } => TileType::Tree { tree, grow, stage: 0 },
        TileType::AnimalDrop { .. } => TileType::Grass,
        TileType::Beehive { price, xp, .. } => TileType::Beehive { stage: 0, price, xp },
        _ => t,
    }
}

/// The occupancy map with the reservation at `c` cleared, if it has an entry.
pub open spec fn released(occ: Map<Coord, bool>, c: Coord) -> Map<Coord, bool> {
    if occ.contains_key(c) { occ.insert(c, false) } else { occ }
}

impl FarmMap {
    /// Clears the reservation at `c`; an entry is set to false, never removed.
    pub fn release(&mut self, c: Coord)
        requires
            old(self).dynamic_data.occupation_map.wf(),
        ensures
            final(self).dynamic_data.occupation_map.wf(),
            final(self).occupancy() == released(old(self).occupancy(), c),
            final(self).tiles() == old(self).tiles(),
            final(self).static_data == old(self).static_data,
            final(self).frontier() == old(self).frontier(),
            final(self).dynamic_data.next_expansion_cost == old(self).dynamic_data.next_expansion_cost,
            final(self).dynamic_data.tiles == old(self).dynamic_data.tiles,
    {
        if self.dynamic_data.occupation_map.contains_key(c) {
            self.dynamic_data.occupation_map.insert(c, false);
        }
    }

    /// Reserves `c` for a worker.
    pub fn reserve(&mut self, c: Coord)
        requires
            old(self).dynamic_data.occupation_map.wf(),
        ensures
            final(self).dynamic_data.occupation_map.wf(),
            final(self).occupancy() == old(self).occupancy().insert(c, true),
            final(self).static_data == old(self).static_data,
            final(self).dynamic_data.tiles == old(self).dynamic_data.tiles,
            final(self).dynamic_data.land_expansion_points == old(self).dynamic_data.land_expansion_points,
            final(self).dynamic_data.next_expansion_cost == old(self).dynamic_data.next_expansion_cost,
    {
        self.dynamic_data.occupation_map.insert(c, true);
    }

    /// Harvests the tile at `pos` if it is ready, returning the payout;
    /// otherwise nothing changes and the payout is zero.
    pub fn harvest_at(&mut self, pos: Coord, animals: &AnimalStatic, upgrades: &UpgradeHandler) -> (r: (usize, usize))
        requires
            old(self).wf(animals.animal_data.len() as nat),
            animals.wf(),
        ensures
            final(self).wf(animals.animal_data.len() as nat),
            final(self).static_data == old(self).static_data,
            final(self).frontier() == old(self).frontier(),
            final(self).dynamic_data.next_expansion_cost == old(self).dynamic_data.next_expansion_cost,
            final(self).tiles().dom() == old(self).tiles().dom(),
            if old(self).tiles().contains_key(pos) && is_ready(old(self).tiles()[pos], &old(self).static_data) {
                let t = old(self).tiles()[pos];
                &&& (r.0 as nat, r.1 as nat) == payout_of(t, &old(self).static_data, animals, upgrades.ledger(), pos)
                &&& final(self).tiles() == old(self).tiles().insert(pos, after_harvest(t))
                &&& final(self).occupancy() == released(old(self).occupancy(), pos)
            } else {
                &&& r == (0usize, 0usize)
                &&& final(self).tiles() == old(self).tiles()
                &&& final(self).occupancy() == old(self).occupancy()
            },
    {
        let tile = match self.dynamic_data.tiles.get(pos) {
            Some(t) => t,
            None => {
                return (0, 0);
            },
        };
        proof {
            assert(indices_valid(tile, &self.static_data));
            assert(drop_valid(tile, animals.animal_data.len() as nat));
        }
        if !tile.is_ready(&self.static_data) {
            return (0, 0);
        }
        let ghost n_animals = animals.animal_data.len() as nat;
        let (payout, next) = match tile {
            TileType::Farmland { crop, .. } => (
                compute_yield(YieldSource::Crop { crop }, &self.static_data, animals, upgrades, climate_sample(pos)),
                TileType::Farmland { crop, stage: 0 },
            ),
            TileType::Tree { tree, grow, .. } => (
                compute_yield(YieldSource::Tree { tree }, &self.static_data, animals, upgrades, climate_sample(pos)),
                TileType::Tree { tree, grow, stage: 0 },
            ),
            TileType::AnimalDrop { animal } => (
                compute_yield(YieldSource::Animal { animal }, &self.static_data, animals, upgrades, climate_sample(pos)),
                TileType::Grass,
            ),
            TileType::Beehive { price, xp, .. } => ((price, xp), TileType::Beehive { stage: 0, price, xp }),
            _ => ((0, 0), tile),
        };
        self.dynamic_data.tiles.insert(pos, next);
        self.release(pos);
        proof {
            assert(self.tiles().dom() =~= old(self).tiles().dom());
            assert forall|c: Coord| #[trigger] self.tiles().contains_key(c) implies
                indices_valid(self.tiles()[c], &self.static_data) && drop_valid(self.tiles()[c], n_animals) by {
                assert(old(self).tiles().contains_key(c));
            }
        }
        payout
    }
}

/// Harvesting a grown crop restarts its stage at zero and pays its sell
/// price times the upgrade and climate multipliers, never less than the
/// base sell price.
pub proof fn lemma_crop_harvest_round_trip(
    t: TileType,
    st: &MapStaticData,
    an: &AnimalStatic,
    ledger: Seq<usize>,
    pos: Coord,
)
    requires
        t is Farmland,
        is_ready(t, st),
    ensures
        after_harvest(t) == (TileType::Farmland { crop: t->Farmland_crop, stage: 0 }),
        ({
            let d = st.crops_data@[t->Farmland_crop as int];
            let m = crate::upgrades::tiers_multiplier(ledger, crate::upgrades::crop_tier(t->Farmland_crop as int))
                * crate::yields::climate_factor(d.climate, noise_at(pos) as i32);
            &&& payout_of(t, st, an, ledger, pos).0 == d.sell_price * m
            &&& payout_of(t, st, an, ledger, pos).1 == d.exp * m
            &&& payout_of(t, st, an, ledger, pos).0 >= d.sell_price
        }),
{
    let d = st.crops_data@[t->Farmland_crop as int];
    let m = crate::upgrades::tiers_multiplier(ledger, crate::upgrades::crop_tier(t->Farmland_crop as int))
        * crate::yields::climate_factor(d.climate, noise_at(pos) as i32);
    assert(m >= 1) by (nonlinear_arith)
        requires
            m == crate::upgrades::tiers_multiplier(ledger, crate::upgrades::crop_tier(t->Farmland_crop as int))
                * crate::yields::climate_factor(d.climate, noise_at(pos) as i32),
            crate::upgrades::tiers_multiplier(ledger, crate::upgrades::crop_tier(t->Farmland_crop as int)) >= 1,
            crate::yields::climate_factor(d.climate, noise_at(pos) as i32) >= 1;
    assert(d.sell_price * m >= d.sell_price) by (nonlinear_arith)
        requires m >= 1;
}

} // verus!
