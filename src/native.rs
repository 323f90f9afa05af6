use vstd::prelude::*;
use crate::list::{
    described_by, first_index, listed, selected, tag_listed, without, Item, ItemDesc, ItemId, List,
    Status,
};
use crate::query::Filter;

verus! {

/// An item as a stored list holds it.
#[derive(Debug)]
pub struct NativeItem {
    pub name: String,
    pub description: String,
    pub status: Status,
    pub tags: Vec<String>,
}

impl NativeItem {
    pub fn from(desc: ItemDesc) -> (r: NativeItem)
        ensures
            described_by(r, desc),
    {
        let ItemDesc { name, description, status, tags } = desc;
        NativeItem { name, description, status, tags }
    }
}

impl Item for NativeItem {
    open spec fn name_of(&self) -> Seq<char> {
        self.name@
    }

    open spec fn description_of(&self) -> Seq<char> {
        self.description@
    }

    open spec fn status_of(&self) -> Status {
        self.status
    }

    open spec fn tagged(&self, tag: Seq<char>) -> bool {
        tag_listed(self.tags@, tag)
    }

    fn get_name(&self) -> (r: &str) {
        self.name.as_str()
    }

    fn get_description(&self) -> (r: &str) {
        self.description.as_str()
    }

    fn get_status(&self) -> (r: &Status) {
        &self.status
    }

    fn has_tag(&self, tag: &str) -> (r: bool) {
        listed(&self.tags, tag)
    }

    fn set_name(&mut self, name: &str) {
        self.name = name.to_owned();
    }

    fn set_description(&mut self, description: &str) {
        self.description = description.to_owned();
    }

    fn set_status(&mut self, status: Status) {
        self.status = status;
    }

    fn set_tag(&mut self, tag: &str, set: bool) {
        if set {
            if !listed(&self.tags, tag) {
                let ghost before = self.tags@;
                self.tags.push(tag.to_owned());
                assert(self.tags@[before.len() as int]@ == tag@);
                assert forall|t: Seq<char>| t != tag@ implies #[trigger] tag_listed(self.tags@, t)
                    == tag_listed(before, t) by {
                    if tag_listed(self.tags@, t) {
                        let j = choose|j: int| 0 <= j < self.tags@.len() && #[trigger] self.tags@[j]@ == t;
                        assert(before[j]@ == t);
                    }
                    if tag_listed(before, t) {
                        let j = choose|j: int| 0 <= j < before.len() && #[trigger] before[j]@ == t;
                        assert(self.tags@[j]@ == t);
                    }
                }
            }
        } else {
            self.tags = without(&self.tags, tag);
        }
    }
}

/// Relies on rand::random: a number drawn at random, of which nothing is
/// promised.
#[verifier::external_body]
fn random_number() -> u64 {
    rand::random::<u64>()
}

/// The position of the first entry with the identifier `id`, if any.
pub fn find<I>(entries: &Vec<(ItemId, I)>, id: &ItemId) -> (r: Option<usize>)
    ensures
        match r {
            Some(k) => first_index(entries@, *id) == Some(k as int),
            None => first_index(entries@, *id) is None,
        },
        r matches Some(k) ==> k < entries@.len(),
{
    let mut i: usize = 0;
    while i < entries.len()
        invariant
            i <= entries@.len(),
            forall|m: int| 0 <= m < i ==> entries@[m].0 != *id,
        decreases entries.len() - i,
    {
        if entries[i].0.0 == id.0 {
            proof {
                let es = entries@;
                assert(es[i as int].0 == *id);
                let k = choose|k: int|
                    0 <= k < es.len() && #[trigger] es[k].0 == *id && forall|m: int|
                        0 <= m < k ==> es[m].0 != *id;
                assert(!(k < i));
                if k > i {
                    assert(es[i as int].0 != *id);
                }
            }
            return Some(i);
        }
        i = i + 1;
    }
    None
}

/// The identifiers of the entries whose item `filter` matches, in order.
pub fn select_entries<I: Item>(entries: &Vec<(ItemId, I)>, filter: &Filter) -> (r: Vec<ItemId>)
    requires
        filter@.supported(),
    ensures
        r@ == selected(entries@, filter@),
{
    let mut r: Vec<ItemId> = Vec::new();
    let mut i: usize = 0;
    while i < entries.len()
        invariant
            i <= entries@.len(),
            filter@.supported(),
            r@ == selected(entries@.subrange(0, i as int), filter@),
        decreases entries.len() - i,
    {
        assert(entries@.subrange(0, i + 1).drop_last() == entries@.subrange(0, i as int));
        if filter.matches(&entries[i].1) {
            r.push(entries[i].0);
        }
        i = i + 1;
    }
    assert(entries@.subrange(0, i as int) == entries@);
    r
}

/// A list of items under identifiers drawn at random.
#[derive(Debug)]
pub struct NativeList {
    pub items: Vec<(ItemId, NativeItem)>,
}

impl NativeList {
    pub fn new() -> (r: NativeList)
        ensures
            r.entries().len() == 0,
    {
        NativeList { items: Vec::new() }
    }

    /// Adds an item made from `item` at the end, under the identifier `id`.
    pub fn add_with_id(&mut self, id: ItemId, item: ItemDesc)
        ensures
            final(self).entries() == old(self).entries().push(final(self).entries().last()),
            final(self).entries().last().0 == id,
            described_by(final(self).entries().last().1, item),
    {
        self.items.push((id, NativeItem::from(item)));
    }
}

impl List for NativeList {
    type Item = NativeItem;

    open spec fn entries(&self) -> Seq<(ItemId, NativeItem)> {
        self.items@
    }

    fn add(&mut self, item: ItemDesc) -> (r: ItemId) {
        let id = ItemId(random_number());
        self.add_with_id(id, item);
        assert(self.entries().subrange(0, old(self).entries().len() as int) =~= old(self).entries());
        id
    }

    fn remove(&mut self, id: &ItemId) {
        match find(&self.items, id) {
            Some(k) => {
                self.items.remove(k);
            },
            None => {},
        }
    }

    fn get(&self, id: &ItemId) -> (r: Option<&NativeItem>) {
        match find(&self.items, id) {
            Some(k) => Some(&self.items[k].1),
            None => None,
        }
    }

    fn select(&self, filter: &Filter) -> (r: Vec<ItemId>) {
        select_entries(&self.items, filter)
    }
}

} // verus!
