//! The shop's catalogue and the growing prices of its items: each purchase
//! of an item makes the next one a tenth dearer, rounded down.
use vstd::prelude::*;
use crate::player::add_capped;

verus! {

/// The menu a purchase is made from.
#[derive(Clone, Copy, Debug, PartialEq, Eq, Structural)]
pub enum MenuMode {
    Crops,
    Trees,
    Animals,
    Beekeeping,
    Misc,
}

/// The configured unlock level and base price of a shop item.
#[derive(Clone, Copy, Debug)]
pub struct ToolbarItemData {
    pub unlock_level: usize,
    pub price: usize,
}

pub struct ToolbarItem {
    pub tooltip: String,
    pub unlock_level: usize,
    pub price: usize,
}

/// The catalogue, one list per menu.
pub struct ToolbarStatic {
    pub crops: Vec<ToolbarItem>,
    pub trees: Vec<ToolbarItem>,
    pub animals: Vec<ToolbarItem>,
    pub beekeeping: Vec<ToolbarItem>,
    pub misc: Vec<ToolbarItem>,
}

/// How many of each item have been bought (net of removals), per menu and
/// item index.
pub struct ToolbarDynamic {
    pub crop_amount: Vec<usize>,
    pub tree_amount: Vec<usize>,
    pub animal_amount: Vec<usize>,
    pub beekeeping_amount: Vec<usize>,
    pub misc_amount: Vec<usize>,
}

pub struct ToolbarData {
    pub static_data: ToolbarStatic,
    pub dynamic_data: ToolbarDynamic,
}

/// The price after one more purchase: a tenth more, rounded down, capped
/// at `usize::MAX`.
pub open spec fn next_price(p: usize) -> usize {
    add_capped(p, p / 10)
}

/// The price of an item with base price `base` after `amount` purchases.
pub open spec fn compounded(base: usize, amount: nat) -> usize
    decreases amount,
{
    if amount == 0 { base } else { next_price(compounded(base, (amount - 1) as nat)) }
}

/// The price of an item with base price `base` after `amount` purchases.
pub fn compounded_price(base: usize, amount: usize) -> (r: usize)
    ensures
        r == compounded(base, amount as nat),
{
    let mut price = base;
    let mut i: usize = 0;
    while i < amount
        invariant
            i <= amount,
            price == compounded(base, i as nat),
        decreases amount - i,
    {
        price = price.saturating_add(price / 10);
        i = i + 1;
    }
    price
}

impl ToolbarItem {
    pub fn new(tooltip: String, data: ToolbarItemData) -> (r: Self)
        ensures
            r.tooltip == tooltip,
            r.unlock_level == data.unlock_level,
            r.price == data.price,
    {
        ToolbarItem { tooltip, unlock_level: data.unlock_level, price: data.price }
    }
}

impl ToolbarStatic {
    pub fn new(
        crops: Vec<ToolbarItem>,
        trees: Vec<ToolbarItem>,
        animals: Vec<ToolbarItem>,
        beekeeping: Vec<ToolbarItem>,
        misc: Vec<ToolbarItem>,
    ) -> (r: Self)
        ensures
            r.crops@ == crops@,
            r.trees@ == trees@,
            r.animals@ == animals@,
            r.beekeeping@ == beekeeping@,
            r.misc@ == misc@,
    {
        ToolbarStatic { crops, trees, animals, beekeeping, misc }
    }
}

/// `n` zeros.
fn zeros(n: usize) -> (r: Vec<usize>)
    ensures
        r@ == Seq::new(n as nat, |i: int| 0usize),
{
    let mut v: Vec<usize> = Vec::new();
    let mut i: usize = 0;
    while i < n
        invariant
            i <= n,
            v@ == Seq::new(i as nat, |i: int| 0usize),
        decreases n - i,
    {
        v.push(0);
        assert(v@ =~= Seq::new((i + 1) as nat, |i: int| 0usize));
        i = i + 1;
    }
    v
}

impl ToolbarDynamic {
    /// Nothing bought yet: one zero per catalogue item.
    pub fn new(static_data: &ToolbarStatic) -> (r: Self)
        ensures
            r.crop_amount@ == Seq::new(static_data.crops@.len(), |i: int| 0usize),
            r.tree_amount@ == Seq::new(static_data.trees@.len(), |i: int| 0usize),
            r.animal_amount@ == Seq::new(static_data.animals@.len(), |i: int| 0usize),
            r.beekeeping_amount@ == Seq::new(static_data.beekeeping@.len(), |i: int| 0usize),
            r.misc_amount@ == Seq::new(static_data.misc@.len(), |i: int| 0usize),
    {
        ToolbarDynamic {
            crop_amount: zeros(static_data.crops.len()),
            tree_amount: zeros(static_data.trees.len()),
            animal_amount: zeros(static_data.animals.len()),
            beekeeping_amount: zeros(static_data.beekeeping.len()),
            misc_amount: zeros(static_data.misc.len()),
        }
    }
}

impl ToolbarData {
    /// Each menu has one amount per catalogue item.
    pub open spec fn wf(&self) -> bool {
        &&& self.dynamic_data.crop_amount@.len() == self.static_data.crops@.len()
        &&& self.dynamic_data.tree_amount@.len() == self.static_data.trees@.len()
        &&& self.dynamic_data.animal_amount@.len() == self.static_data.animals@.len()
        &&& self.dynamic_data.beekeeping_amount@.len() == self.static_data.beekeeping@.len()
        &&& self.dynamic_data.misc_amount@.len() == self.static_data.misc@.len()
    }

    /// A fresh shop over `static_data`, with nothing bought.
    pub fn new(static_data: ToolbarStatic) -> (r: Self)
        ensures
            r.wf(),
            r.static_data == static_data,
            forall|i: int| 0 <= i < r.dynamic_data.crop_amount@.len() ==> #[trigger] r.dynamic_data.crop_amount@[i] == 0,
            forall|i: int| 0 <= i < r.dynamic_data.tree_amount@.len() ==> #[trigger] r.dynamic_data.tree_amount@[i] == 0,
            forall|i: int| 0 <= i < r.dynamic_data.animal_amount@.len() ==> #[trigger] r.dynamic_data.animal_amount@[i] == 0,
            forall|i: int| 0 <= i < r.dynamic_data.beekeeping_amount@.len() ==> #[trigger] r.dynamic_data.beekeeping_amount@[i] == 0,
            forall|i: int| 0 <= i < r.dynamic_data.misc_amount@.len() ==> #[trigger] r.dynamic_data.misc_amount@[i] == 0,
    {
        let dynamic_data = ToolbarDynamic::new(&static_data);
        ToolbarData { static_data, dynamic_data }
    }

    /// A shop over `static_data` with the amounts bought so far.
    pub fn with_amounts(static_data: ToolbarStatic, dynamic_data: ToolbarDynamic) -> (r: Option<Self>)
        ensures
            match r {
                Some(d) => d.wf() && d.static_data == static_data && d.dynamic_data == dynamic_data,
                None => !(ToolbarData { static_data, dynamic_data }).wf(),
            },
    {
        let d = ToolbarData { static_data, dynamic_data };
        if d.dynamic_data.crop_amount.len() == d.static_data.crops.len()
            && d.dynamic_data.tree_amount.len() == d.static_data.trees.len()
            && d.dynamic_data.animal_amount.len() == d.static_data.animals.len()
            && d.dynamic_data.beekeeping_amount.len() == d.static_data.beekeeping.len()
            && d.dynamic_data.misc_amount.len() == d.static_data.misc.len() {
            Some(d)
        } else {
            None
        }
    }

    pub open spec fn crop_price(&self, index: int) -> usize {
        compounded(self.static_data.crops@[index].price, self.dynamic_data.crop_amount@[index] as nat)
    }

    pub open spec fn tree_price(&self, index: int) -> usize {
        compounded(self.static_data.trees@[index].price, self.dynamic_data.tree_amount@[index] as nat)
    }

    pub open spec fn animal_price(&self, index: int) -> usize {
        compounded(self.static_data.animals@[index].price, self.dynamic_data.animal_amount@[index] as nat)
    }

    pub open spec fn beekeeping_price(&self, index: int) -> usize {
        compounded(self.static_data.beekeeping@[index].price, self.dynamic_data.beekeeping_amount@[index] as nat)
    }

    pub open spec fn misc_price(&self, index: int) -> usize {
        compounded(self.static_data.misc@[index].price, self.dynamic_data.misc_amount@[index] as nat)
    }

    pub fn get_price_for_crop(&self, index: usize) -> (r: usize)
        requires
            self.wf(),
            index < self.static_data.crops@.len(),
        ensures
            r == self.crop_price(index as int),
    {
        compounded_price(self.static_data.crops[index].price, self.dynamic_data.crop_amount[index])
    }

    pub fn get_price_for_tree(&self, index: usize) -> (r: usize)
        requires
            self.wf(),
            index < self.static_data.trees@.len(),
        ensures
            r == self.tree_price(index as int),
    {
        compounded_price(self.static_data.trees[index].price, self.dynamic_data.tree_amount[index])
    }

    pub fn get_price_for_animal(&self, index: usize) -> (r: usize)
        requires
            self.wf(),
            index < self.static_data.animals@.len(),
        ensures
            r == self.animal_price(index as int),
    {
        compounded_price(self.static_data.animals[index].price, self.dynamic_data.animal_amount[index])
    }

    pub fn get_price_for_beekeeping(&self, index: usize) -> (r: usize)
        requires
            self.wf(),
            index < self.static_data.beekeeping@.len(),
        ensures
            r == self.beekeeping_price(index as int),
    {
        compounded_price(self.static_data.beekeeping[index].price, self.dynamic_data.beekeeping_amount[index])
    }

    pub fn get_price_for_misc(&self, index: usize) -> (r: usize)
        requires
            self.wf(),
            index < self.static_data.misc@.len(),
        ensures
            r == self.misc_price(index as int),
    {
        compounded_price(self.static_data.misc[index].price, self.dynamic_data.misc_amount[index])
    }

    /// Replaces the catalogue (after a language change), keeping the amounts.
    pub fn reload_static(&mut self, static_data: ToolbarStatic)
        ensures
            final(self).static_data == static_data,
            final(self).dynamic_data == old(self).dynamic_data,
    {
        self.static_data = static_data;
    }
}

} // verus!
