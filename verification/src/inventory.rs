//! What a player owns besides money and shares: accessories, kept in the
//! order they were acquired.
use vstd::prelude::*;

verus! {

/// Name of the accessory a new player starts with.
pub const DEFAULT_ACCESSORY: &'static str = "pink_helmet";

/// An accessory a pet can wear, by the name of its template.
#[derive(Debug)]
pub struct Accessory {
    pub template: String,
}

impl Accessory {
    /// An accessory made from the named template.
    pub fn new(template: &str) -> (a: Self)
        ensures
            a.template@ == template@,
    {
        Accessory { template: String::from_str(template) }
    }
}

impl Default for Accessory {
    /// The pink helmet.
    fn default() -> (a: Self)
        ensures
            a.template@ == DEFAULT_ACCESSORY@,
    {
        Accessory::new(DEFAULT_ACCESSORY)
    }
}

/// Something held in an inventory.
#[derive(Debug)]
pub enum Item {
    Accessory(Accessory),
}

/// The items a player holds, oldest first.
#[derive(Debug)]
pub struct Inventory {
    pub items: Vec<Item>,
}

/// Whether an item is the given accessory.
pub open spec fn holds_accessory(item: Item, a: Accessory) -> bool {
    match item {
        Item::Accessory(b) => b == a,
    }
}

impl Inventory {
    /// An empty inventory.
    pub fn new() -> (inv: Self)
        ensures
            inv.items@.len() == 0,
    {
        Inventory { items: Vec::new() }
    }

    /// Adds an item after the ones already held.
    pub fn add_item(&mut self, to_add: Item)
        ensures
            final(self).items@ == old(self).items@.push(to_add),
    {
        self.items.push(to_add);
    }

    /// The accessories held, in the order they were added.
    pub fn get_accessories(&self) -> (r: Vec<&Accessory>)
        ensures
            r@.len() == self.items@.len(),
            forall|i: int| 0 <= i < r@.len() ==> holds_accessory(self.items@[i], *#[trigger] r@[i]),
    {
        let mut r: Vec<&Accessory> = Vec::new();
        let mut i: usize = 0;
        while i < self.items.len()
            invariant
                0 <= i <= self.items@.len(),
                r@.len() == i,
                forall|j: int| 0 <= j < i ==> holds_accessory(self.items@[j], *#[trigger] r@[j]),
            decreases self.items@.len() - i,
        {
            match &self.items[i] {
                Item::Accessory(a) => {
                    r.push(a);
                },
            }
            i = i + 1;
        }
        r
    }
}

} // verus!
