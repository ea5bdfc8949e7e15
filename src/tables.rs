//! The static definition tables: growth times, payouts and climate
//! preferences of every crop, tree, hive, flower and animal. They are loaded
//! once and never change during a session.
use vstd::prelude::*;

verus! {

/// The largest price or experience value a table entry may hold. Keeping
/// entries below it leaves room for every multiplier applied to them: a
/// hive's honey price adds up to eight flower values, each doubled up to
/// three times, to its own base, 65 table values at most.
pub const MAX_TABLE_VALUE: usize = usize::MAX / 65;

/// Sixty-five table values fit in a `usize`.
pub proof fn lemma_table_value_room()
    ensures
        65 * MAX_TABLE_VALUE <= usize::MAX,
{
}

/// The climate band a crop or tree prefers.
#[derive(Clone, Copy, Debug, PartialEq, Eq, Structural)]
pub enum Climate {
    Cold,
    Temperate,
    Warm,
}

#[derive(Clone, Copy, Debug)]
pub struct Crop {
    pub time_to_grow: usize,
    pub grow_step: usize,
    pub sell_price: usize,
    pub exp: usize,
    pub climate: Climate,
}

#[derive(Clone, Copy, Debug)]
pub struct Tree {
    pub time_to_grow: usize,
    pub grow_step: usize,
    pub time_to_fruit: usize,
    pub sell_price: usize,
    pub exp: usize,
    pub climate: Climate,
}

#[derive(Clone, Copy, Debug)]
pub struct Beehive {
    pub time_to_honey: usize,
    pub sell_price: usize,
    pub exp: usize,
}

#[derive(Clone, Copy, Debug)]
pub struct Flower {
    pub sell_price: usize,
    pub exp: usize,
}

#[derive(Clone, Copy, Debug)]
pub struct AnimalData {
    pub time_to_drop: usize,
    pub drop_cost: usize,
    pub exp: usize,
}

/// The definitions that tiles refer to by index.
pub struct MapStaticData {
    pub crops_data: Vec<Crop>,
    pub tree_data: Vec<Tree>,
    pub hive_data: Vec<Beehive>,
    pub flower_data: Vec<Flower>,
}

pub struct AnimalStatic {
    pub animal_data: Vec<AnimalData>,
}

/// A payout pair that a table entry may hold.
pub open spec fn entry_ok(price: usize, exp: usize) -> bool {
    price <= MAX_TABLE_VALUE && exp <= MAX_TABLE_VALUE
}

impl MapStaticData {
    /// There is a hive definition, and every payout is within bounds.
    pub open spec fn wf(&self) -> bool {
        &&& self.hive_data.len() >= 1
        &&& forall|i: int| 0 <= i < self.crops_data.len() ==>
            entry_ok((#[trigger] self.crops_data@[i]).sell_price, self.crops_data@[i].exp)
        &&& forall|i: int| 0 <= i < self.tree_data.len() ==>
            entry_ok((#[trigger] self.tree_data@[i]).sell_price, self.tree_data@[i].exp)
        &&& forall|i: int| 0 <= i < self.hive_data.len() ==>
            entry_ok((#[trigger] self.hive_data@[i]).sell_price, self.hive_data@[i].exp)
        &&& forall|i: int| 0 <= i < self.flower_data.len() ==>
            entry_ok((#[trigger] self.flower_data@[i]).sell_price, self.flower_data@[i].exp)
    }

    /// The hive definition that every beehive uses.
    pub open spec fn hive(&self) -> Beehive {
        self.hive_data@[0]
    }

    /// Checks the tables once they are loaded; a table that fails is a fatal
    /// configuration error.
    pub fn is_valid(&self) -> (r: bool)
        ensures
            r == self.wf(),
    {
        if self.hive_data.len() == 0 {
            return false;
        }
        let mut i: usize = 0;
        while i < self.crops_data.len()
            invariant
                i <= self.crops_data.len(),
                forall|j: int| 0 <= j < i ==>
                    entry_ok((#[trigger] self.crops_data@[j]).sell_price, self.crops_data@[j].exp),
            decreases self.crops_data.len() - i,
        {
            let e = self.crops_data[i];
            if e.sell_price > MAX_TABLE_VALUE || e.exp > MAX_TABLE_VALUE {
                return false;
            }
            i = i + 1;
        }
        let mut i: usize = 0;
        while i < self.tree_data.len()
            invariant
                i <= self.tree_data.len(),
                forall|j: int| 0 <= j < i ==>
                    entry_ok((#[trigger] self.tree_data@[j]).sell_price, self.tree_data@[j].exp),
            decreases self.tree_data.len() - i,
        {
            let e = self.tree_data[i];
            if e.sell_price > MAX_TABLE_VALUE || e.exp > MAX_TABLE_VALUE {
                return false;
            }
            i = i + 1;
        }
        let mut i: usize = 0;
        while i < self.hive_data.len()
            invariant
                i <= self.hive_data.len(),
                forall|j: int| 0 <= j < i ==>
                    entry_ok((#[trigger] self.hive_data@[j]).sell_price, self.hive_data@[j].exp),
            decreases self.hive_data.len() - i,
        {
            let e = self.hive_data[i];
            if e.sell_price > MAX_TABLE_VALUE || e.exp > MAX_TABLE_VALUE {
                return false;
            }
            i = i + 1;
        }
        let mut i: usize = 0;
        while i < self.flower_data.len()
            invariant
                i <= self.flower_data.len(),
                forall|j: int| 0 <= j < i ==>
                    entry_ok((#[trigger] self.flower_data@[j]).sell_price, self.flower_data@[j].exp),
            decreases self.flower_data.len() - i,
        {
            let e = self.flower_data[i];
            if e.sell_price > MAX_TABLE_VALUE || e.exp > MAX_TABLE_VALUE {
                return false;
            }
            i = i + 1;
        }
        true
    }
}

impl AnimalStatic {
    /// Every payout is within bounds.
    pub open spec fn wf(&self) -> bool {
        forall|i: int| 0 <= i < self.animal_data.len() ==>
            entry_ok((#[trigger] self.animal_data@[i]).drop_cost, self.animal_data@[i].exp)
    }

    pub fn is_valid(&self) -> (r: bool)
        ensures
            r == self.wf(),
    {
        let mut i: usize = 0;
        while i < self.animal_data.len()
            invariant
                i <= self.animal_data.len(),
                forall|j: int| 0 <= j < i ==>
                    entry_ok((#[trigger] self.animal_data@[j]).drop_cost, self.animal_data@[j].exp),
            decreases self.animal_data.len() - i,
        {
            let e = self.animal_data[i];
            if e.drop_cost > MAX_TABLE_VALUE || e.exp > MAX_TABLE_VALUE {
                return false;
            }
            i = i + 1;
        }
        true
    }
}

} // verus!
