//! A fixed eight-slot inventory whose slots stack up to 99 of one item.
use vstd::prelude::*;

verus! {

pub const MAX_ITEM_STACK: usize = 99;

pub const INVENTORY_SLOTS: usize = 8;

#[derive(Clone, Copy, Debug, PartialEq, Eq, Structural)]
pub enum ToolFunction {
    Hoe,
    Chop,
    Mine,
}

#[derive(Clone, Copy, Debug, PartialEq, Eq, Structural)]
pub enum ItemType {
    Tool(ToolFunction),
    Seed,
}

#[derive(Clone, Copy, Debug, PartialEq, Eq, Structural)]
pub struct InventorySlot {
    pub item: Option<ItemType>,
    pub amount: usize,
}

pub struct Inventory {
    pub slots: [InventorySlot; 8],
}

/// The slot holds `item` and has room for one more.
pub open spec fn stacks(s: InventorySlot, item: ItemType) -> bool {
    s.item == Some(item) && s.amount < MAX_ITEM_STACK
}

/// The slot holds nothing.
pub open spec fn is_free(s: InventorySlot) -> bool {
    s.item is None
}

/// A slot holding nothing.
pub open spec fn empty_slot() -> InventorySlot {
    InventorySlot { item: None, amount: 0 }
}

impl InventorySlot {
    pub fn empty() -> (r: Self)
        ensures
            r == empty_slot(),
    {
        InventorySlot { item: None, amount: 0 }
    }
}

impl Inventory {
    pub fn new() -> (r: Self)
        ensures
            forall|i: int| 0 <= i < 8 ==> #[trigger] r.slots@[i] == empty_slot(),
    {
        let e = InventorySlot::empty();
        Inventory { slots: [e, e, e, e, e, e, e, e] }
    }

    /// Adds one `item`: onto the first slot that stacks it, else into the
    /// first free slot. With neither, nothing changes and `false` is returned.
    pub fn add_item(&mut self, item: ItemType) -> (r: bool)
        ensures
            ({
                let s = old(self).slots@;
                if exists|i: int| 0 <= i < 8 && #[trigger] stacks(s[i], item) {
                    r && exists|i: int| 0 <= i < 8 && #[trigger] stacks(s[i], item)
                        && (forall|j: int| 0 <= j < i ==> !stacks(#[trigger] s[j], item))
                        && final(self).slots@ == s.update(i, InventorySlot { item: Some(item), amount: (s[i].amount + 1) as usize })
                } else if exists|i: int| 0 <= i < 8 && #[trigger] is_free(s[i]) {
                    r && exists|i: int| 0 <= i < 8 && #[trigger] is_free(s[i])
                        && (forall|j: int| 0 <= j < i ==> !is_free(#[trigger] s[j]))
                        && final(self).slots@ == s.update(i, InventorySlot { item: Some(item), amount: 1 })
                } else {
                    !r && final(self).slots@ == s
                }
            }),
    {
        let mut i: usize = 0;
        while i < INVENTORY_SLOTS
            invariant
                i <= 8,
                self.slots@ == old(self).slots@,
                forall|j: int| 0 <= j < i ==> !stacks(#[trigger] self.slots@[j], item),
            decreases 8 - i,
        {
            let s = self.slots[i];
            let same = match s.item {
                Some(it) => it == item,
                None => false,
            };
            if same && s.amount < MAX_ITEM_STACK {
                self.slots[i] = InventorySlot { item: Some(item), amount: s.amount + 1 };
                assert(stacks(old(self).slots@[i as int], item));
                assert(self.slots@ =~= old(self).slots@.update(i as int, InventorySlot { item: Some(item), amount: (s.amount + 1) as usize }));
                return true;
            }
            i = i + 1;
        }
        let mut i: usize = 0;
        while i < INVENTORY_SLOTS
            invariant
                i <= 8,
                self.slots@ == old(self).slots@,
                forall|j: int| 0 <= j < 8 ==> !stacks(#[trigger] self.slots@[j], item),
                forall|j: int| 0 <= j < i ==> !is_free(#[trigger] self.slots@[j]),
            decreases 8 - i,
        {
            if self.slots[i].item.is_none() {
                self.slots[i] = InventorySlot { item: Some(item), amount: 1 };
                assert(is_free(old(self).slots@[i as int]));
                assert(self.slots@ =~= old(self).slots@.update(i as int, InventorySlot { item: Some(item), amount: 1 }));
                return true;
            }
            i = i + 1;
        }
        false
    }
}

} // verus!
