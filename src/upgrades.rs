//! Purchased upgrades and the payout multipliers they grant. Each crop, tree
//! and animal has three upgrade tiers, each doubling its payout; beehives
//! share one set of three tiers. Tiers are numbered in one flat list: crops
//! first, then trees, then animals, then hives.
use vstd::prelude::*;
use crate::player::Player;

verus! {

pub struct UpgradeData {
    pub label: String,
    pub description: String,
    pub cost: usize,
}

pub struct UpgradeStatic {
    pub upgrade_data: Vec<UpgradeData>,
}

pub struct UpgradeDynamic {
    pub purchased_upgrades: Vec<usize>,
}

pub struct UpgradeHandler {
    pub static_data: UpgradeStatic,
    pub dynamic_data: UpgradeDynamic,
}

/// The factor one tier contributes: 2 if it was purchased, else 1.
pub open spec fn tier_factor(ledger: Seq<usize>, tier: int) -> nat {
    if ledger.contains(tier as usize) { 2 } else { 1 }
}

/// The multiplier of the three tiers that start at `first`.
pub open spec fn tiers_multiplier(ledger: Seq<usize>, first: int) -> nat {
    tier_factor(ledger, first) * tier_factor(ledger, first + 1) * tier_factor(ledger, first + 2)
}

/// The first tier of a crop.
pub open spec fn crop_tier(crop: int) -> int {
    3 * crop
}

/// The first tier of a tree: after every crop's tiers.
pub open spec fn tree_tier(tree: int, crops_len: int) -> int {
    3 * crops_len + 3 * tree
}

/// The first tier of an animal: after every crop's and tree's tiers.
pub open spec fn animal_tier(animal: int, crops_len: int, trees_len: int) -> int {
    3 * crops_len + 3 * trees_len + 3 * animal
}

/// The first tier of the hives: after every crop's, tree's and animal's.
pub open spec fn hive_tier(crops_len: int, trees_len: int, animals_len: int) -> int {
    3 * crops_len + 3 * trees_len + 3 * animals_len
}

/// The tier numbers of tables of these sizes fit in a `usize`.
pub open spec fn tiers_fit(crops_len: int, trees_len: int, animals_len: int) -> bool {
    hive_tier(crops_len, trees_len, animals_len) + 2 <= usize::MAX
}

impl UpgradeHandler {
    pub open spec fn ledger(&self) -> Seq<usize> {
        self.dynamic_data.purchased_upgrades@
    }

    pub fn new(static_data: UpgradeStatic) -> (r: Self)
        ensures
            r.ledger() == Seq::<usize>::empty(),
            r.static_data == static_data,
    {
        UpgradeHandler { static_data, dynamic_data: UpgradeDynamic { purchased_upgrades: Vec::new() } }
    }

    /// Replaces the upgrade descriptions (after a language change), keeping
    /// the purchases.
    pub fn reload_static(&mut self, static_data: UpgradeStatic)
        ensures
            final(self).static_data == static_data,
            final(self).ledger() == old(self).ledger(),
    {
        self.static_data = static_data;
    }

    /// Whether tier `tier` was purchased.
    pub fn has_upgrade(&self, tier: usize) -> (r: bool)
        ensures
            r == self.ledger().contains(tier),
    {
        let mut i: usize = 0;
        while i < self.dynamic_data.purchased_upgrades.len()
            invariant
                i <= self.ledger().len(),
                forall|j: int| 0 <= j < i ==> self.ledger()[j] != tier,
            decreases self.ledger().len() - i,
        {
            if self.dynamic_data.purchased_upgrades[i] == tier {
                assert(self.ledger()[i as int] == tier);
                return true;
            }
            i = i + 1;
        }
        false
    }

    /// The multiplier of the three tiers that start at `first`.
    pub fn multiplier_from(&self, first: usize) -> (r: usize)
        requires
            first + 2 <= usize::MAX,
        ensures
            r == tiers_multiplier(self.ledger(), first as int),
            1 <= r <= 8,
    {
        let mut m: usize = 1;
        if self.has_upgrade(first) {
            m = m * 2;
        }
        if self.has_upgrade(first + 1) {
            m = m * 2;
        }
        if self.has_upgrade(first + 2) {
            m = m * 2;
        }
        m
    }

    pub fn get_multiplier_for_crop(&self, crop: usize) -> (r: usize)
        requires
            crop_tier(crop as int) + 2 <= usize::MAX,
        ensures
            r == tiers_multiplier(self.ledger(), crop_tier(crop as int)),
            1 <= r <= 8,
    {
        self.multiplier_from(crop * 3)
    }

    pub fn get_multiplier_for_tree(&self, tree: usize, crops_len: usize) -> (r: usize)
        requires
            tree_tier(tree as int, crops_len as int) + 2 <= usize::MAX,
        ensures
            r == tiers_multiplier(self.ledger(), tree_tier(tree as int, crops_len as int)),
            1 <= r <= 8,
    {
        self.multiplier_from(crops_len * 3 + tree * 3)
    }

    pub fn get_multiplier_for_animal(&self, animal: usize, crops_len: usize, trees_len: usize) -> (r: usize)
        requires
            animal_tier(animal as int, crops_len as int, trees_len as int) + 2 <= usize::MAX,
        ensures
            r == tiers_multiplier(self.ledger(), animal_tier(animal as int, crops_len as int, trees_len as int)),
            1 <= r <= 8,
    {
        self.multiplier_from(crops_len * 3 + trees_len * 3 + animal * 3)
    }

    pub fn get_multiplier_for_beehive(&self, crops_len: usize, trees_len: usize, animals_len: usize) -> (r: usize)
        requires
            tiers_fit(crops_len as int, trees_len as int, animals_len as int),
        ensures
            r == tiers_multiplier(self.ledger(), hive_tier(crops_len as int, trees_len as int, animals_len as int)),
            1 <= r <= 8,
    {
        self.multiplier_from(crops_len * 3 + trees_len * 3 + animals_len * 3)
    }

    /// An upgrade is offered once the player's best balance has reached half
    /// its cost, until it is bought.
    pub open spec fn offered(&self, index: int, alltime_max_money: usize) -> bool {
        &&& self.static_data.upgrade_data@[index].cost / 2 <= alltime_max_money
        &&& !self.ledger().contains(index as usize)
    }

    pub fn is_upgrade_offered(&self, index: usize, player: &Player) -> (r: bool)
        requires
            index < self.static_data.upgrade_data.len(),
        ensures
            r == self.offered(index as int, player.alltime_max_money),
    {
        self.static_data.upgrade_data[index].cost / 2 <= player.alltime_max_money && !self.has_upgrade(index)
    }

    /// Buys an offered upgrade the player can afford; otherwise nothing changes.
    pub fn buy_upgrade(&mut self, index: usize, player: &mut Player) -> (r: bool)
        requires
            index < old(self).static_data.upgrade_data.len(),
        ensures
            r == (old(self).offered(index as int, old(player).alltime_max_money)
                && old(player).money >= old(self).static_data.upgrade_data@[index as int].cost),
            r ==> final(self).ledger() == old(self).ledger().push(index)
                && final(player).money == old(player).money - old(self).static_data.upgrade_data@[index as int].cost,
            !r ==> final(self).ledger() == old(self).ledger() && final(player).money == old(player).money,
            final(self).static_data == old(self).static_data,
            final(player).alltime_max_money == old(player).alltime_max_money,
            final(player).exp == old(player).exp,
            final(player).level == old(player).level,
            final(player).exp_to_lvl_up == old(player).exp_to_lvl_up,
    {
        let cost = self.static_data.upgrade_data[index].cost;
        if self.is_upgrade_offered(index, player) && player.money >= cost {
            player.money = player.money - cost;
            self.dynamic_data.purchased_upgrades.push(index);
            true
        } else {
            false
        }
    }
}

} // verus!
