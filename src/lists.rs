use vstd::prelude::*;
use crate::list::{described_by, first_index, ItemDesc, ItemId, List};
use crate::native::{find, select_entries};
use crate::query::Filter;

verus! {

/// An item of an in-memory list: its description as given.
pub type MemItem = ItemDesc;

/// A list held in memory, whose identifiers count up from zero.
#[derive(Debug)]
pub struct MemList {
    items: Vec<(ItemId, MemItem)>,
    next: u64,
}

impl MemList {
    pub fn new() -> (r: MemList)
        ensures
            r.entries().len() == 0,
    {
        MemList { items: Vec::new(), next: 0 }
    }
}

impl List for MemList {
    type Item = MemItem;

    closed spec fn entries(&self) -> Seq<(ItemId, MemItem)> {
        self.items@
    }

    fn add(&mut self, item: ItemDesc) -> (r: ItemId) {
        let id = ItemId(self.next);
        self.next = self.next.wrapping_add(1);
        let ghost desc = item;
        self.items.push((id, item));
        assert(self.items@.subrange(0, old(self).items@.len() as int) =~= old(self).items@);
        assert(described_by(self.items@.last().1, desc));
        id
    }

    fn remove(&mut self, id: &ItemId) {
        match find(&self.items, id) {
            Some(k) => {
                self.items.remove(k);
            },
            None => {},
        }
    }

    fn get(&self, id: &ItemId) -> (r: Option<&MemItem>) {
        match find(&self.items, id) {
            Some(k) => Some(&self.items[k].1),
            None => None,
        }
    }

    fn select(&self, filter: &Filter) -> (r: Vec<ItemId>) {
        select_entries(&self.items, filter)
    }
}

} // verus!
