use vstd::prelude::*;
use crate::query::{Filter, FilterView};
use crate::range::Ranked;
use crate::text::{chars_of, is_space, same_text, space};

verus! {

/// The lifecycle of an item, in its fixed order.
#[derive(Debug, PartialEq, Eq, PartialOrd, Ord, Clone, Copy, Hash)]
pub enum Status {
    Waiting,
    Queuing,
    Working,
    Completed,
}

impl Ranked for Status {
    open spec fn rank(&self) -> int {
        match *self {
            Status::Waiting => 0,
            Status::Queuing => 1,
            Status::Working => 2,
            Status::Completed => 3,
        }
    }

    fn position(&self) -> (r: u64) {
        match *self {
            Status::Waiting => 0,
            Status::Queuing => 1,
            Status::Working => 2,
            Status::Completed => 3,
        }
    }

    proof fn lemma_rank_injective(&self, other: &Self) {
    }
}

impl Default for Status {
    fn default() -> (r: Self)
        ensures
            r == Status::Waiting,
    {
        Status::Waiting
    }
}

/// The identifier of an item in a list.
#[derive(Debug, Hash, PartialEq, Eq, PartialOrd, Ord, Clone, Copy)]
pub struct ItemId(pub u64);

impl From<u64> for ItemId {
    fn from(x: u64) -> (r: Self)
        ensures
            r.0 == x,
    {
        ItemId(x)
    }
}

impl vstd::std_specs::convert::FromSpecImpl<u64> for ItemId {
    open spec fn obeys_from_spec() -> bool {
        true
    }

    open spec fn from_spec(x: u64) -> Self {
        ItemId(x)
    }
}

/// What a new item is made of.
#[derive(Debug)]
pub struct ItemDesc {
    pub name: String,
    pub description: String,
    pub status: Status,
    pub tags: Vec<String>,
}

/// The text `t` is one of `tags`.
pub open spec fn tag_listed(tags: Seq<String>, t: Seq<char>) -> bool {
    exists|i: int| 0 <= i < tags.len() && #[trigger] tags[i]@ == t
}

/// Read and write access to an item.
pub trait Item {
    spec fn name_of(&self) -> Seq<char>;

    spec fn description_of(&self) -> Seq<char>;

    spec fn status_of(&self) -> Status;

    spec fn tagged(&self, tag: Seq<char>) -> bool;

    fn get_name(&self) -> (r: &str)
        ensures
            r@ == self.name_of(),
    ;

    fn get_description(&self) -> (r: &str)
        ensures
            r@ == self.description_of(),
    ;

    fn get_status(&self) -> (r: &Status)
        ensures
            *r == self.status_of(),
    ;

    fn has_tag(&self, tag: &str) -> (r: bool)
        ensures
            r == self.tagged(tag@),
    ;

    fn set_name(&mut self, name: &str)
        ensures
            final(self).name_of() == name@,
            final(self).description_of() == old(self).description_of(),
            final(self).status_of() == old(self).status_of(),
            forall|t: Seq<char>| #[trigger] final(self).tagged(t) == old(self).tagged(t),
    ;

    fn set_description(&mut self, description: &str)
        ensures
            final(self).name_of() == old(self).name_of(),
            final(self).description_of() == description@,
            final(self).status_of() == old(self).status_of(),
            forall|t: Seq<char>| #[trigger] final(self).tagged(t) == old(self).tagged(t),
    ;

    fn set_status(&mut self, status: Status)
        ensures
            final(self).name_of() == old(self).name_of(),
            final(self).description_of() == old(self).description_of(),
            final(self).status_of() == status,
            forall|t: Seq<char>| #[trigger] final(self).tagged(t) == old(self).tagged(t),
    ;

    fn set_tag(&mut self, tag: &str, set: bool)
        ensures
            final(self).name_of() == old(self).name_of(),
            final(self).description_of() == old(self).description_of(),
            final(self).status_of() == old(self).status_of(),
            final(self).tagged(tag@) == set,
            forall|t: Seq<char>| t != tag@ ==> #[trigger] final(self).tagged(t) == old(self).tagged(t),
    ;
}

/// The position of the first entry with the identifier `id`.
pub open spec fn first_index<I>(entries: Seq<(ItemId, I)>, id: ItemId) -> Option<int> {
    if exists|k: int| 0 <= k < entries.len() && #[trigger] entries[k].0 == id {
        Some(
            choose|k: int|
                0 <= k < entries.len() && #[trigger] entries[k].0 == id && forall|m: int|
                    0 <= m < k ==> entries[m].0 != id,
        )
    } else {
        None
    }
}

/// The identifiers of the entries whose item `f` matches, in list order.
pub open spec fn selected<I: Item>(entries: Seq<(ItemId, I)>, f: FilterView) -> Seq<ItemId>
    decreases entries.len(),
{
    if entries.len() == 0 {
        Seq::empty()
    } else {
        let rest = selected(entries.drop_last(), f);
        if f.admits(&entries.last().1) {
            rest.push(entries.last().0)
        } else {
            rest
        }
    }
}

/// The item has exactly what the description gives it.
pub open spec fn described_by<I: Item>(item: I, desc: ItemDesc) -> bool {
    &&& item.name_of() == desc.name@
    &&& item.description_of() == desc.description@
    &&& item.status_of() == desc.status
    &&& forall|t: Seq<char>| #[trigger] item.tagged(t) == tag_listed(desc.tags@, t)
}

/// Whether `tag` is one of `tags`.
pub fn listed(tags: &Vec<String>, tag: &str) -> (r: bool)
    ensures
        r == tag_listed(tags@, tag@),
{
    let mut i: usize = 0;
    while i < tags.len()
        invariant
            i <= tags@.len(),
            forall|j: int| 0 <= j < i ==> tags@[j]@ != tag@,
        decreases tags.len() - i,
    {
        if same_text(tags[i].as_str(), tag) {
            assert(tags@[i as int]@ == tag@);
            return true;
        }
        i = i + 1;
    }
    false
}

/// `tags` without any copy of `tag`.
pub fn without(tags: &Vec<String>, tag: &str) -> (r: Vec<String>)
    ensures
        forall|t: Seq<char>| #[trigger] tag_listed(r@, t) == (tag_listed(tags@, t) && t != tag@),
{
    let mut r: Vec<String> = Vec::new();
    let mut i: usize = 0;
    while i < tags.len()
        invariant
            i <= tags@.len(),
            forall|j: int| 0 <= j < r@.len() ==> #[trigger] r@[j]@ != tag@,
            forall|t: Seq<char>|
                #[trigger] tag_listed(r@, t) == (tag_listed(tags@.subrange(0, i as int), t) && t
                    != tag@),
        decreases tags.len() - i,
    {
        let ghost before = r@;
        let ghost seen = tags@.subrange(0, i as int);
        let ghost next = tags@.subrange(0, i + 1);
        assert(next == seen.push(tags@[i as int]));
        if !same_text(tags[i].as_str(), tag) {
            r.push(tags[i].clone());
            assert forall|t: Seq<char>| #[trigger] tag_listed(r@, t) == (tag_listed(next, t) && t != tag@) by {
                if tag_listed(next, t) && t != tag@ {
                    let j = choose|j: int| 0 <= j < next.len() && #[trigger] next[j]@ == t;
                    if j < i {
                        assert(seen[j]@ == t);
                        assert(tag_listed(before, t));
                        let k = choose|k: int| 0 <= k < before.len() && #[trigger] before[k]@ == t;
                        assert(r@[k]@ == t);
                    } else {
                        assert(r@[before.len() as int]@ == t);
                    }
                }
                if tag_listed(r@, t) {
                    let k = choose|k: int| 0 <= k < r@.len() && #[trigger] r@[k]@ == t;
                    if k < before.len() {
                        assert(before[k]@ == t);
                        assert(tag_listed(before, t));
                        let j = choose|j: int| 0 <= j < seen.len() && #[trigger] seen[j]@ == t;
                        assert(next[j]@ == t);
                    } else {
                        assert(next[i as int]@ == t);
                    }
                }
            }
        } else {
            assert forall|t: Seq<char>| #[trigger] tag_listed(r@, t) == (tag_listed(next, t) && t != tag@) by {
                if tag_listed(next, t) && t != tag@ {
                    let j = choose|j: int| 0 <= j < next.len() && #[trigger] next[j]@ == t;
                    assert(j < i);
                    assert(seen[j]@ == t);
                    assert(tag_listed(seen, t));
                }
                if tag_listed(r@, t) {
                    assert(tag_listed(seen, t));
                    let j = choose|j: int| 0 <= j < seen.len() && #[trigger] seen[j]@ == t;
                    assert(next[j]@ == t);
                }
            }
        }
        i = i + 1;
    }
    assert(tags@.subrange(0, i as int) == tags@);
    r
}

impl ItemDesc {
    pub fn new(name: String, description: String, tags: Vec<String>) -> (r: Self)
        ensures
            r.name == name,
            r.description == description,
            r.status == Status::Waiting,
            r.tags == tags,
    {
        ItemDesc { name, description, status: Status::Waiting, tags }
    }
}

impl Item for ItemDesc {
    open spec fn name_of(&self) -> Seq<char> {
        self.name@
    }

    open spec fn description_of(&self) -> Seq<char> {
        self.description@
    }

    open spec fn status_of(&self) -> Status {
        self.status
    }

    open spec fn tagged(&self, tag: Seq<char>) -> bool {
        tag_listed(self.tags@, tag)
    }

    fn get_name(&self) -> (r: &str) {
        self.name.as_str()
    }

    fn get_description(&self) -> (r: &str) {
        self.description.as_str()
    }

    fn get_status(&self) -> (r: &Status) {
        &self.status
    }

    fn has_tag(&self, tag: &str) -> (r: bool) {
        listed(&self.tags, tag)
    }

    fn set_name(&mut self, name: &str) {
        self.name = name.to_owned();
    }

    fn set_description(&mut self, description: &str) {
        self.description = description.to_owned();
    }

    fn set_status(&mut self, status: Status) {
        self.status = status;
    }

    fn set_tag(&mut self, tag: &str, set: bool) {
        if set {
            if !listed(&self.tags, tag) {
                let ghost before = self.tags@;
                self.tags.push(tag.to_owned());
                assert(self.tags@[before.len() as int]@ == tag@);
                assert forall|t: Seq<char>| t != tag@ implies #[trigger] tag_listed(self.tags@, t)
                    == tag_listed(before, t) by {
                    if tag_listed(self.tags@, t) {
                        let j = choose|j: int| 0 <= j < self.tags@.len() && #[trigger] self.tags@[j]@ == t;
                        assert(before[j]@ == t);
                    }
                    if tag_listed(before, t) {
                        let j = choose|j: int| 0 <= j < before.len() && #[trigger] before[j]@ == t;
                        assert(self.tags@[j]@ == t);
                    }
                }
            }
        } else {
            self.tags = without(&self.tags, tag);
        }
    }
}

/// Reading an item's text so far: the name, the tags closed, and the tag
/// being read, if any.
pub struct Scan {
    pub name: Seq<char>,
    pub tags: Seq<Seq<char>>,
    pub open: Option<Seq<char>>,
}

/// One more character of an item's text. `#` opens a tag, which white space
/// or `:` closes; that closing character stays in the name.
pub open spec fn scan_step(st: Scan, c: char) -> Scan {
    match st.open {
        Some(tag) => if is_space(c) || c == ':' {
            Scan { name: st.name.push(c), tags: st.tags.push(tag), open: None }
        } else {
            Scan { name: st.name, tags: st.tags, open: Some(tag.push(c)) }
        },
        None => if c == '#' {
            Scan { name: st.name, tags: st.tags, open: Some(Seq::empty()) }
        } else {
            Scan { name: st.name.push(c), tags: st.tags, open: None }
        },
    }
}

pub open spec fn scan_text(s: Seq<char>) -> Scan
    decreases s.len(),
{
    if s.len() == 0 {
        Scan { name: Seq::empty(), tags: Seq::empty(), open: None }
    } else {
        scan_step(scan_text(s.drop_last()), s.last())
    }
}

/// The first position from `i` on that holds `c`, or the length.
pub open spec fn first_of(n: Seq<char>, c: char, i: int) -> int
    decreases n.len() - i,
{
    if 0 <= i < n.len() && n[i] != c {
        first_of(n, c, i + 1)
    } else {
        i
    }
}

/// An item's text read as name, description and tags: the tags are taken
/// out (a tag the text ends in included), and the rest is the name up to
/// the first `:`, and the description from there on.
pub open spec fn item_text(s: Seq<char>) -> (Seq<char>, Seq<char>, Seq<Seq<char>>) {
    let st = scan_text(s);
    let tags = match st.open {
        Some(t) => st.tags.push(t),
        None => st.tags,
    };
    let p = first_of(st.name, ':', 0);
    (st.name.subrange(0, p), st.name.subrange(p, st.name.len() as int), tags)
}

pub open spec fn texts_of(v: Seq<String>) -> Seq<Seq<char>> {
    v.map_values(|t: String| t@)
}

/// Relies on String::push: the character is appended.
#[verifier::external_body]
fn push_char(s: &mut String, c: char)
    ensures
        final(s)@ == old(s)@.push(c),
{
    s.push(c)
}

/// The characters `from..to` of `cs` as a string.
fn string_of(cs: &Vec<char>, from: usize, to: usize) -> (r: String)
    requires
        from <= to <= cs@.len(),
    ensures
        r@ == cs@.subrange(from as int, to as int),
{
    let mut r = String::new();
    let mut i = from;
    while i < to
        invariant
            from <= i <= to <= cs@.len(),
            r@ == cs@.subrange(from as int, i as int),
        decreases to - i,
    {
        push_char(&mut r, cs[i]);
        assert(cs@.subrange(from as int, i + 1) == cs@.subrange(from as int, i as int).push(cs@[i as int]));
        i = i + 1;
    }
    r
}

impl ItemDesc {
    /// An item read from text such as `buy milk #home: before noon`.
    pub fn from(string: String) -> (r: ItemDesc)
        ensures
            item_text(string@) == (r.name@, r.description@, texts_of(r.tags@)),
            r.status == Status::Waiting,
    {
        let cs = chars_of(string.as_str());
        let mut name: Vec<char> = Vec::new();
        let mut tag: Vec<char> = Vec::new();
        let mut open = false;
        let mut tags: Vec<String> = Vec::new();
        let mut i: usize = 0;
        assert(texts_of(tags@) =~= Seq::<Seq<char>>::empty());
        assert(cs@.subrange(0, 0) =~= Seq::<char>::empty());
        while i < cs.len()
            invariant
                i <= cs@.len(),
                scan_text(cs@.subrange(0, i as int)) == (Scan {
                    name: name@,
                    tags: texts_of(tags@),
                    open: if open {
                        Some(tag@)
                    } else {
                        None
                    },
                }),
            decreases cs.len() - i,
        {
            let c = cs[i];
            assert(cs@.subrange(0, i + 1).drop_last() == cs@.subrange(0, i as int));
            if open {
                if space(c) || c == ':' {
                    name.push(c);
                    let t = string_of(&tag, 0, tag.len());
                    assert(tag@.subrange(0, tag@.len() as int) == tag@);
                    let ghost before = tags@;
                    tags.push(t);
                    assert(texts_of(tags@) =~= texts_of(before).push(t@));
                    tag = Vec::new();
                    open = false;
                } else {
                    tag.push(c);
                }
            } else if c == '#' {
                tag = Vec::new();
                open = true;
                assert(tag@ =~= Seq::<char>::empty());
            } else {
                name.push(c);
            }
            i = i + 1;
        }
        assert(cs@.subrange(0, i as int) == string@);
        if open {
            let t = string_of(&tag, 0, tag.len());
            assert(tag@.subrange(0, tag@.len() as int) == tag@);
            let ghost before = tags@;
            tags.push(t);
            assert(texts_of(tags@) =~= texts_of(before).push(t@));
        }
        let mut p: usize = 0;
        while p < name.len() && name[p] != ':'
            invariant
                p <= name@.len(),
                first_of(name@, ':', p as int) == first_of(name@, ':', 0),
            decreases name.len() - p,
        {
            p = p + 1;
        }
        let first = string_of(&name, 0, p);
        let rest = string_of(&name, p, name.len());
        ItemDesc::new(first, rest, tags)
    }
}

/// A collection of identified items, in insertion order.
pub trait List {
    type Item: Item;

    /// The entries of the list, in its order.
    spec fn entries(&self) -> Seq<(ItemId, Self::Item)>;

    /// Adds an item made from `item` at the end, under a new identifier.
    fn add(&mut self, item: ItemDesc) -> (r: ItemId)
        ensures
            final(self).entries().len() == old(self).entries().len() + 1,
            final(self).entries().subrange(0, old(self).entries().len() as int) == old(self).entries(),
            final(self).entries().last().0 == r,
            described_by(final(self).entries().last().1, item),
    ;

    /// Removes the first entry with the identifier `id`, if any.
    fn remove(&mut self, id: &ItemId)
        ensures
            match first_index(old(self).entries(), *id) {
                Some(k) => final(self).entries() == old(self).entries().remove(k),
                None => final(self).entries() == old(self).entries(),
            },
    ;

    /// The item of the first entry with the identifier `id`, if any.
    fn get(&self, id: &ItemId) -> (r: Option<&Self::Item>)
        ensures
            match first_index(self.entries(), *id) {
                Some(k) => r == Some(&self.entries()[k].1),
                None => r is None,
            },
    ;

    /// The identifiers of the items that `filter` matches, in list order.
    fn select(&self, filter: &Filter) -> (r: Vec<ItemId>)
        requires
            filter@.supported(),
        ensures
            r@ == selected(self.entries(), filter@),
    ;
}

} // verus!
