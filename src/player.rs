//! The player's purse and experience, and the actions that spend money on
//! the grid: planting, placing animals, hives, flowers and workers, and
//! clearing structures.
use vstd::prelude::*;

verus! {

/// The money a new game starts with.
pub const STARTING_MONEY: usize = 100;

/// The experience needed for the first level-up.
pub const FIRST_LEVEL_EXP: usize = 20;

pub struct Player {
    pub money: usize,
    pub alltime_max_money: usize,
    pub level: usize,
    pub exp: usize,
    pub exp_to_lvl_up: usize,
}

/// `n` raised by half of itself, rounded down, capped at `usize::MAX`.
pub open spec fn grow_by_half_floor(n: usize) -> usize {
    if n + n / 2 > usize::MAX { usize::MAX } else { (n + n / 2) as usize }
}

/// `a + b`, capped at `usize::MAX`.
pub open spec fn add_capped(a: usize, b: usize) -> usize {
    if a + b > usize::MAX { usize::MAX } else { (a + b) as usize }
}

impl Player {
    pub fn new() -> (r: Self)
        ensures
            r.money == STARTING_MONEY,
            r.alltime_max_money == STARTING_MONEY,
            r.level == 1,
            r.exp == 0,
            r.exp_to_lvl_up == FIRST_LEVEL_EXP,
    {
        Player {
            money: STARTING_MONEY,
            alltime_max_money: STARTING_MONEY,
            level: 1,
            exp: 0,
            exp_to_lvl_up: FIRST_LEVEL_EXP,
        }
    }

    /// Records a new highest balance.
    pub fn update_money(&mut self)
        ensures
            final(self).alltime_max_money == if old(self).alltime_max_money < old(self).money {
                old(self).money
            } else {
                old(self).alltime_max_money
            },
            final(self).money == old(self).money,
            final(self).level == old(self).level,
            final(self).exp == old(self).exp,
            final(self).exp_to_lvl_up == old(self).exp_to_lvl_up,
    {
        if self.alltime_max_money < self.money {
            self.alltime_max_money = self.money;
        }
    }

    /// Levels up once enough experience has been gathered: the level rises
    /// by one, experience restarts at zero and the next threshold is half as
    /// large again. Returns whether a level-up happened.
    pub fn update_exp(&mut self) -> (r: bool)
        ensures
            r == (old(self).exp >= old(self).exp_to_lvl_up),
            r ==> final(self).level == add_capped(old(self).level, 1) && final(self).exp == 0
                && final(self).exp_to_lvl_up == grow_by_half_floor(old(self).exp_to_lvl_up),
            !r ==> final(self).level == old(self).level && final(self).exp == old(self).exp
                && final(self).exp_to_lvl_up == old(self).exp_to_lvl_up,
            final(self).money == old(self).money,
            final(self).alltime_max_money == old(self).alltime_max_money,
    {
        if self.exp >= self.exp_to_lvl_up {
            self.level = self.level.saturating_add(1);
            self.exp = 0;
            self.exp_to_lvl_up = self.exp_to_lvl_up.saturating_add(self.exp_to_lvl_up / 2);
            true
        } else {
            false
        }
    }

    /// Adds a harvest's payout; each total stops at `usize::MAX`.
    pub fn earn(&mut self, money: usize, exp: usize)
        ensures
            final(self).money == add_capped(old(self).money, money),
            final(self).exp == add_capped(old(self).exp, exp),
            final(self).alltime_max_money == old(self).alltime_max_money,
            final(self).level == old(self).level,
            final(self).exp_to_lvl_up == old(self).exp_to_lvl_up,
    {
        self.money = self.money.saturating_add(money);
        self.exp = self.exp.saturating_add(exp);
    }
}

} // verus!
