use vstd::prelude::*;
use crate::list::{selected, Item, ItemId, List, Status};
use crate::range::{Limit, Range, Ranked};
use crate::text::same_text;

verus! {

/// A predicate over one item, as a tree of tests and boolean combinators.
#[derive(Debug, PartialEq, Eq)]
pub enum Filter {
    All,
    Nothing,
    Status(Range<Status>),
    Priority(Range<u64>),
    Tag(String),
    Name(String),
    And(Vec<Filter>),
    Or(Vec<Filter>),
    Not(Box<Filter>),
}

/// A predicate that items do not support: a test of priorities.
#[derive(Debug, PartialEq, Eq, Clone, Copy)]
pub struct UnsupportedPredicate;

/// The mathematical form of a `Filter`: texts as character sequences and
/// child lists as sequences.
pub enum FilterView {
    All,
    Nothing,
    Status(Range<Status>),
    Priority(Range<u64>),
    Tag(Seq<char>),
    Name(Seq<char>),
    And(Seq<FilterView>),
    Or(Seq<FilterView>),
    Not(Box<FilterView>),
}

pub open spec fn view_of(f: Filter) -> FilterView
    decreases f,
{
    match f {
        Filter::All => FilterView::All,
        Filter::Nothing => FilterView::Nothing,
        Filter::Status(r) => FilterView::Status(r),
        Filter::Priority(r) => FilterView::Priority(r),
        Filter::Tag(t) => FilterView::Tag(t@),
        Filter::Name(n) => FilterView::Name(n@),
        Filter::And(fs) => FilterView::And(views_of(fs@)),
        Filter::Or(fs) => FilterView::Or(views_of(fs@)),
        Filter::Not(g) => FilterView::Not(Box::new(view_of(*g))),
    }
}

pub open spec fn views_of(fs: Seq<Filter>) -> Seq<FilterView>
    decreases fs,
{
    if fs.len() == 0 {
        Seq::empty()
    } else {
        views_of(fs.subrange(0, fs.len() - 1)).push(view_of(fs[fs.len() - 1]))
    }
}

impl View for Filter {
    type V = FilterView;

    open spec fn view(&self) -> FilterView {
        view_of(*self)
    }
}

impl FilterView {
    /// The item satisfies this predicate. A priority test, which cannot be
    /// evaluated, admits nothing here; `supported` tells such predicates apart.
    pub open spec fn admits<I: Item>(self, item: &I) -> bool
        decreases self,
    {
        match self {
            FilterView::All => true,
            FilterView::Nothing => false,
            FilterView::Status(r) => r.holds(item.status_of().rank()),
            FilterView::Priority(_) => false,
            FilterView::Tag(t) => item.tagged(t),
            FilterView::Name(n) => n == item.name_of(),
            FilterView::And(fs) => all_admit(fs, item),
            FilterView::Or(fs) => any_admits(fs, item),
            FilterView::Not(g) => !g.admits(item),
        }
    }
}

impl FilterView {
    /// The predicate can be evaluated: it holds no priority test, which
    /// items do not support.
    pub open spec fn supported(self) -> bool
        decreases self,
    {
        match self {
            FilterView::Priority(_) => false,
            FilterView::And(fs) => all_supported(fs),
            FilterView::Or(fs) => all_supported(fs),
            FilterView::Not(g) => g.supported(),
            _ => true,
        }
    }
}

/// Every predicate of `fs` can be evaluated.
pub open spec fn all_supported(fs: Seq<FilterView>) -> bool
    decreases fs,
{
    if fs.len() == 0 {
        true
    } else {
        all_supported(fs.subrange(0, fs.len() - 1)) && fs[fs.len() - 1].supported()
    }
}

/// `all_supported` is the quantifier over the sequence.
pub proof fn lemma_all_supported(fs: Seq<FilterView>)
    ensures
        all_supported(fs) == (forall|i: int| 0 <= i < fs.len() ==> #[trigger] fs[i].supported()),
    decreases fs.len(),
{
    if fs.len() > 0 {
        let init = fs.subrange(0, fs.len() - 1);
        lemma_all_supported(init);
        if forall|i: int| 0 <= i < fs.len() ==> #[trigger] fs[i].supported() {
            assert forall|i: int| 0 <= i < init.len() implies #[trigger] init[i].supported() by {
                assert(fs[i].supported());
            }
            assert(fs[fs.len() - 1].supported());
        }
        if all_supported(fs) {
            assert forall|i: int| 0 <= i < fs.len() implies #[trigger] fs[i].supported() by {
                if i < init.len() {
                    assert(init[i].supported());
                }
            }
        }
    }
}

/// Every predicate of `fs` admits the item.
pub open spec fn all_admit<I: Item>(fs: Seq<FilterView>, item: &I) -> bool
    decreases fs,
{
    if fs.len() == 0 {
        true
    } else {
        all_admit(fs.subrange(0, fs.len() - 1), item) && fs[fs.len() - 1].admits(item)
    }
}

/// Some predicate of `fs` admits the item.
pub open spec fn any_admits<I: Item>(fs: Seq<FilterView>, item: &I) -> bool
    decreases fs,
{
    if fs.len() == 0 {
        false
    } else {
        any_admits(fs.subrange(0, fs.len() - 1), item) || fs[fs.len() - 1].admits(item)
    }
}

/// `all_admit` and `any_admits` are the quantifiers over the sequence.
pub proof fn lemma_all_any<I: Item>(fs: Seq<FilterView>, item: &I)
    ensures
        all_admit(fs, item) == (forall|i: int| 0 <= i < fs.len() ==> #[trigger] fs[i].admits(item)),
        any_admits(fs, item) == (exists|i: int| 0 <= i < fs.len() && #[trigger] fs[i].admits(item)),
    decreases fs.len(),
{
    if fs.len() > 0 {
        let init = fs.subrange(0, fs.len() - 1);
        lemma_all_any(init, item);
        assert forall|i: int| 0 <= i < init.len() implies init[i] == fs[i] by {}
        let last = fs[fs.len() - 1];
        assert(all_admit(fs, item) == (all_admit(init, item) && last.admits(item)));
        assert(any_admits(fs, item) == (any_admits(init, item) || last.admits(item)));
        if forall|i: int| 0 <= i < fs.len() ==> #[trigger] fs[i].admits(item) {
            assert forall|i: int| 0 <= i < init.len() implies #[trigger] init[i].admits(item) by {
                assert(fs[i].admits(item));
            }
            assert(last.admits(item));
        }
        if all_admit(fs, item) {
            assert forall|i: int| 0 <= i < fs.len() implies #[trigger] fs[i].admits(item) by {
                if i < init.len() {
                    assert(init[i].admits(item));
                }
            }
        }
        if exists|i: int| 0 <= i < fs.len() && #[trigger] fs[i].admits(item) {
            let i = choose|i: int| 0 <= i < fs.len() && #[trigger] fs[i].admits(item);
            if i < init.len() {
                assert(init[i].admits(item));
            }
        }
        if any_admits(init, item) {
            let i = choose|i: int| 0 <= i < init.len() && #[trigger] init[i].admits(item);
            assert(fs[i].admits(item));
        }
        if last.admits(item) {
            assert(fs[fs.len() - 1].admits(item));
        }
    }
}

/// The children that a conjunction with `f` on one side takes from it.
pub open spec fn conjuncts(f: FilterView) -> Seq<FilterView> {
    match f {
        FilterView::And(fs) => fs,
        _ => seq![f],
    }
}

/// The children that a disjunction with `f` on one side takes from it.
pub open spec fn disjuncts(f: FilterView) -> Seq<FilterView> {
    match f {
        FilterView::Or(fs) => fs,
        _ => seq![f],
    }
}

/// `a & b`: one conjunction whose children are those of both sides.
pub open spec fn and_of(a: FilterView, b: FilterView) -> FilterView {
    FilterView::And(conjuncts(a) + conjuncts(b))
}

/// `a | b`: one disjunction whose children are those of both sides.
pub open spec fn or_of(a: FilterView, b: FilterView) -> FilterView {
    FilterView::Or(disjuncts(a) + disjuncts(b))
}

/// The views of a sequence of filters are the views of its elements.
pub proof fn lemma_views_of(fs: Seq<Filter>)
    ensures
        views_of(fs).len() == fs.len(),
        forall|i: int| 0 <= i < fs.len() ==> #[trigger] views_of(fs)[i] == view_of(fs[i]),
    decreases fs.len(),
{
    if fs.len() > 0 {
        lemma_views_of(fs.subrange(0, fs.len() - 1));
    }
}

proof fn lemma_views_of_concat(a: Seq<Filter>, b: Seq<Filter>)
    ensures
        views_of(a + b) == views_of(a) + views_of(b),
{
    lemma_views_of(a);
    lemma_views_of(b);
    lemma_views_of(a + b);
    assert(views_of(a + b) =~= views_of(a) + views_of(b));
}

impl Filter {
    pub fn status(status: Status) -> (r: Filter)
        ensures
            r@ == FilterView::Status(Range { low: Limit::Includes(status), high: Limit::Includes(status) }),
    {
        Filter::Status(Range::eq(status))
    }

    pub fn status_range(range: Range<Status>) -> (r: Filter)
        ensures
            r@ == FilterView::Status(range),
    {
        Filter::Status(range)
    }

    pub fn tag(tag: &str) -> (r: Filter)
        ensures
            r@ == FilterView::Tag(tag@),
    {
        Filter::Tag(tag.to_owned())
    }

    pub fn name(name: &str) -> (r: Filter)
        ensures
            r@ == FilterView::Name(name@),
    {
        Filter::Name(name.to_owned())
    }

    /// Whether the item satisfies this predicate.
    pub fn matches<I: Item>(&self, item: &I) -> (r: bool)
        requires
            self@.supported(),
        ensures
            r == self@.admits(item),
        decreases self,
    {
        match self {
            Filter::All => true,
            Filter::Nothing => false,
            Filter::Status(range) => range.contains(item.get_status()),
            Filter::Priority(_) => false,
            Filter::Tag(tag) => item.has_tag(tag.as_str()),
            Filter::Name(name) => same_text(name.as_str(), item.get_name()),
            Filter::And(all) => {
                proof {
                    lemma_views_of(all@);
                    lemma_all_any(views_of(all@), item);
                }
                assert(self@ == FilterView::And(views_of(all@)));
                let mut i: usize = 0;
                while i < all.len()
                    invariant
                        i <= all@.len(),
                        *self == Filter::And(*all),
                        self@.supported(),
                        self@ == FilterView::And(views_of(all@)),
                        views_of(all@).len() == all@.len(),
                        forall|j: int| 0 <= j < i ==> #[trigger] views_of(all@)[j].admits(item),
                    decreases all.len() - i,
                {
                    proof {
                        lemma_views_of(all@);
                        lemma_all_supported(views_of(all@));
                        assert(views_of(all@)[i as int].supported());
                        assert(self->And_0 == *all);
                        assert(decreases_to!(*self => self->And_0));
                        assert(decreases_to!(*all => all@));
                        assert(decreases_to!(all@ => all@[i as int]));
                    }
                    proof {
                        lemma_all_any(views_of(all@), item);
                    }
                    if !all[i].matches(item) {
                        assert(!views_of(all@)[i as int].admits(item));
                        return false;
                    }
                    i = i + 1;
                }
                true
            },
            Filter::Or(any) => {
                proof {
                    lemma_views_of(any@);
                    lemma_all_any(views_of(any@), item);
                }
                assert(self@ == FilterView::Or(views_of(any@)));
                let mut i: usize = 0;
                while i < any.len()
                    invariant
                        i <= any@.len(),
                        *self == Filter::Or(*any),
                        self@.supported(),
                        self@ == FilterView::Or(views_of(any@)),
                        views_of(any@).len() == any@.len(),
                        forall|j: int| 0 <= j < i ==> !(#[trigger] views_of(any@)[j].admits(item)),
                    decreases any.len() - i,
                {
                    proof {
                        lemma_views_of(any@);
                        lemma_all_supported(views_of(any@));
                        assert(views_of(any@)[i as int].supported());
                        assert(self->Or_0 == *any);
                        assert(decreases_to!(*self => self->Or_0));
                        assert(decreases_to!(*any => any@));
                        assert(decreases_to!(any@ => any@[i as int]));
                    }
                    proof {
                        lemma_all_any(views_of(any@), item);
                    }
                    if any[i].matches(item) {
                        assert(views_of(any@)[i as int].admits(item));
                        return true;
                    }
                    i = i + 1;
                }
                false
            },
            Filter::Not(cond) => !cond.matches(item),
        }
    }

    /// Whether this predicate can be evaluated: it holds no priority test.
    pub fn is_supported(&self) -> (r: bool)
        ensures
            r == self@.supported(),
        decreases self,
    {
        match self {
            Filter::Priority(_) => false,
            Filter::And(fs) | Filter::Or(fs) => {
                proof {
                    lemma_views_of(fs@);
                    lemma_all_supported(views_of(fs@));
                }
                let mut i: usize = 0;
                while i < fs.len()
                    invariant
                        i <= fs@.len(),
                        self@ == FilterView::And(views_of(fs@)) || self@ == FilterView::Or(views_of(fs@)),
                        *self == Filter::And(*fs) || *self == Filter::Or(*fs),
                        views_of(fs@).len() == fs@.len(),
                        forall|j: int| 0 <= j < i ==> #[trigger] views_of(fs@)[j].supported(),
                    decreases fs.len() - i,
                {
                    proof {
                        lemma_views_of(fs@);
                        lemma_all_supported(views_of(fs@));
                        assert(decreases_to!(*fs => fs@));
                        assert(decreases_to!(fs@ => fs@[i as int]));
                        if *self == Filter::And(*fs) {
                            assert(decreases_to!(*self => self->And_0));
                        } else {
                            assert(decreases_to!(*self => self->Or_0));
                        }
                    }
                    if !fs[i].is_supported() {
                        proof {
                            lemma_all_supported(views_of(fs@));
                            assert(!views_of(fs@)[i as int].supported());
                            assert(self@.supported() == all_supported(views_of(fs@)));
                        }
                        return false;
                    }
                    i = i + 1;
                }
                proof {
                    lemma_all_supported(views_of(fs@));
                    assert(self@.supported() == all_supported(views_of(fs@)));
                }
                true
            },
            Filter::Not(g) => g.is_supported(),
            _ => true,
        }
    }

    /// Whether the item satisfies this predicate, or the predicate's
    /// priority test, which cannot be evaluated.
    pub fn evaluate<I: Item>(&self, item: &I) -> (r: Result<bool, UnsupportedPredicate>)
        ensures
            self@.supported() ==> r == Ok::<bool, UnsupportedPredicate>(self@.admits(item)),
            !self@.supported() ==> r == Err::<bool, UnsupportedPredicate>(UnsupportedPredicate),
    {
        if self.is_supported() {
            Ok(self.matches(item))
        } else {
            Err(UnsupportedPredicate)
        }
    }

    fn into_conjuncts(self) -> (r: Vec<Filter>)
        ensures
            views_of(r@) == conjuncts(self@),
    {
        match self {
            Filter::And(fs) => fs,
            other => {
                let r = vec![other];
                proof {
                    lemma_views_of(r@);
                    assert(views_of(r@) =~= conjuncts(self@));
                }
                r
            },
        }
    }

    fn into_disjuncts(self) -> (r: Vec<Filter>)
        ensures
            views_of(r@) == disjuncts(self@),
    {
        match self {
            Filter::Or(fs) => fs,
            other => {
                let r = vec![other];
                proof {
                    lemma_views_of(r@);
                    assert(views_of(r@) =~= disjuncts(self@));
                }
                r
            },
        }
    }

    /// Both predicates; a conjunction on either side is flattened into the result.
    pub fn and(self, other: Filter) -> (r: Filter)
        ensures
            r@ == and_of(self@, other@),
    {
        let mut parts = self.into_conjuncts();
        let mut more = other.into_conjuncts();
        proof {
            lemma_views_of_concat(parts@, more@);
        }
        parts.append(&mut more);
        Filter::And(parts)
    }

    /// Either predicate; a disjunction on either side is flattened into the result.
    pub fn or(self, other: Filter) -> (r: Filter)
        ensures
            r@ == or_of(self@, other@),
    {
        let mut parts = self.into_disjuncts();
        let mut more = other.into_disjuncts();
        proof {
            lemma_views_of_concat(parts@, more@);
        }
        parts.append(&mut more);
        Filter::Or(parts)
    }

    /// The negation of this predicate, always as a new node.
    pub fn negate(self) -> (r: Filter)
        ensures
            r@ == FilterView::Not(Box::new(self@)),
    {
        Filter::Not(Box::new(self))
    }
}

impl core::ops::BitAnd for Filter {
    type Output = Filter;

    /// The same as `and`, whose contract states the result.
    fn bitand(self, other: Filter) -> Filter {
        self.and(other)
    }
}

impl vstd::std_specs::ops::BitAndSpecImpl for Filter {
    open spec fn obeys_bitand_spec() -> bool {
        false
    }

    open spec fn bitand_req(self, other: Filter) -> bool {
        true
    }

    open spec fn bitand_spec(self, other: Filter) -> Filter {
        vstd::pervasive::arbitrary()
    }
}

impl core::ops::BitOr for Filter {
    type Output = Filter;

    /// The same as `or`, whose contract states the result.
    fn bitor(self, other: Filter) -> Filter {
        self.or(other)
    }
}

impl vstd::std_specs::ops::BitOrSpecImpl for Filter {
    open spec fn obeys_bitor_spec() -> bool {
        false
    }

    open spec fn bitor_req(self, other: Filter) -> bool {
        true
    }

    open spec fn bitor_spec(self, other: Filter) -> Filter {
        vstd::pervasive::arbitrary()
    }
}

impl core::ops::Not for Filter {
    type Output = Filter;

    /// The same as `negate`, whose contract states the result.
    fn not(self) -> Filter {
        self.negate()
    }
}

impl vstd::std_specs::ops::NotSpecImpl for Filter {
    open spec fn obeys_not_spec() -> bool {
        false
    }

    open spec fn not_req(self) -> bool {
        true
    }

    open spec fn not_spec(self) -> Filter {
        vstd::pervasive::arbitrary()
    }
}

/// A filter admits an item exactly when all of the children it gives a
/// conjunction do, and when one of those it gives a disjunction does.
proof fn lemma_conjuncts_admit<I: Item>(f: FilterView, item: &I)
    ensures
        all_admit(conjuncts(f), item) == f.admits(item),
        any_admits(disjuncts(f), item) == f.admits(item),
{
    lemma_all_any(seq![f], item);
    assert(seq![f][0] == f);
}

/// A flattened conjunction admits exactly the items that both sides admit.
pub proof fn lemma_and_of_admits<I: Item>(a: FilterView, b: FilterView, item: &I)
    ensures
        and_of(a, b).admits(item) == (a.admits(item) && b.admits(item)),
{
    let (x, y) = (conjuncts(a), conjuncts(b));
    lemma_conjuncts_admit(a, item);
    lemma_conjuncts_admit(b, item);
    lemma_all_any(x, item);
    lemma_all_any(y, item);
    lemma_all_any(x + y, item);
    if a.admits(item) && b.admits(item) {
        assert forall|i: int| 0 <= i < (x + y).len() implies #[trigger] (x + y)[i].admits(item) by {
            if i < x.len() {
                assert(x[i].admits(item));
            } else {
                assert(y[i - x.len()].admits(item));
            }
        }
    }
    if and_of(a, b).admits(item) {
        assert forall|i: int| 0 <= i < x.len() implies #[trigger] x[i].admits(item) by {
            assert((x + y)[i].admits(item));
        }
        assert forall|i: int| 0 <= i < y.len() implies #[trigger] y[i].admits(item) by {
            assert((x + y)[i + x.len()].admits(item));
        }
    }
}

/// A flattened disjunction admits exactly the items that either side admits.
pub proof fn lemma_or_of_admits<I: Item>(a: FilterView, b: FilterView, item: &I)
    ensures
        or_of(a, b).admits(item) == (a.admits(item) || b.admits(item)),
{
    let (x, y) = (disjuncts(a), disjuncts(b));
    lemma_conjuncts_admit(a, item);
    lemma_conjuncts_admit(b, item);
    lemma_all_any(x, item);
    lemma_all_any(y, item);
    lemma_all_any(x + y, item);
    if a.admits(item) {
        let i = choose|i: int| 0 <= i < x.len() && #[trigger] x[i].admits(item);
        assert((x + y)[i].admits(item));
    }
    if b.admits(item) {
        let i = choose|i: int| 0 <= i < y.len() && #[trigger] y[i].admits(item);
        assert((x + y)[i + x.len()].admits(item));
    }
    if or_of(a, b).admits(item) {
        let i = choose|i: int| 0 <= i < (x + y).len() && #[trigger] (x + y)[i].admits(item);
        if i < x.len() {
            assert(x[i].admits(item));
        } else {
            assert(y[i - x.len()].admits(item));
        }
    }
}

/// Joining two predicates that can be evaluated gives one that can.
pub proof fn lemma_joins_supported(a: FilterView, b: FilterView)
    requires
        a.supported(),
        b.supported(),
    ensures
        and_of(a, b).supported(),
        or_of(a, b).supported(),
        FilterView::Not(Box::new(a)).supported(),
{
    let (x, y, u, v) = (conjuncts(a), conjuncts(b), disjuncts(a), disjuncts(b));
    lemma_all_supported(seq![a]);
    lemma_all_supported(seq![b]);
    lemma_all_supported(x);
    lemma_all_supported(y);
    lemma_all_supported(u);
    lemma_all_supported(v);
    lemma_all_supported(x + y);
    lemma_all_supported(u + v);
    assert(seq![a][0] == a);
    assert(seq![b][0] == b);
    assert forall|i: int| 0 <= i < (x + y).len() implies #[trigger] (x + y)[i].supported() by {
        if i < x.len() {
            assert(x[i].supported());
        } else {
            assert(y[i - x.len()].supported());
        }
    }
    assert forall|i: int| 0 <= i < (u + v).len() implies #[trigger] (u + v)[i].supported() by {
        if i < u.len() {
            assert(u[i].supported());
        } else {
            assert(v[i - u.len()].supported());
        }
    }
}

/// Flattening keeps `&` associative: `(a & b) & c` and `a & (b & c)` build the
/// same filter, which admits exactly the items that all three admit.
pub proof fn lemma_and_associative<I: Item>(a: FilterView, b: FilterView, c: FilterView, item: &I)
    ensures
        and_of(and_of(a, b), c) == and_of(a, and_of(b, c)),
        and_of(and_of(a, b), c).admits(item) == (a.admits(item) && b.admits(item) && c.admits(item)),
{
    assert(conjuncts(a) + conjuncts(b) + conjuncts(c) =~= conjuncts(a) + (conjuncts(b) + conjuncts(c)));
    lemma_and_of_admits(a, b, item);
    lemma_and_of_admits(and_of(a, b), c, item);
}

/// Flattening keeps `|` associative: `(a | b) | c` and `a | (b | c)` build the
/// same filter, which admits exactly the items that one of the three admits.
pub proof fn lemma_or_associative<I: Item>(a: FilterView, b: FilterView, c: FilterView, item: &I)
    ensures
        or_of(or_of(a, b), c) == or_of(a, or_of(b, c)),
        or_of(or_of(a, b), c).admits(item) == (a.admits(item) || b.admits(item) || c.admits(item)),
{
    assert(disjuncts(a) + disjuncts(b) + disjuncts(c) =~= disjuncts(a) + (disjuncts(b) + disjuncts(c)));
    lemma_or_of_admits(a, b, item);
    lemma_or_of_admits(or_of(a, b), c, item);
}

/// Negating twice gives back the same predicate: `!!f` admits exactly what `f` admits.
pub proof fn lemma_double_negation<I: Item>(f: FilterView, item: &I)
    ensures
        FilterView::Not(Box::new(FilterView::Not(Box::new(f)))).admits(item) == f.admits(item),
{
    let inner = FilterView::Not(Box::new(f));
    assert(inner.admits(item) == !f.admits(item));
    assert(FilterView::Not(Box::new(inner)).admits(item) == !inner.admits(item));
}

/// Each stage's matches, stage after stage, concatenated.
pub open spec fn staged<I: Item>(entries: Seq<(ItemId, I)>, stages: Seq<FilterView>) -> Seq<ItemId>
    decreases stages.len(),
{
    if stages.len() == 0 {
        Seq::empty()
    } else {
        staged(entries, stages.drop_last()) + selected(entries, stages.last())
    }
}

/// A sequence of filter stages, each applied to the whole list.
#[derive(Debug, PartialEq, Eq)]
pub struct Query {
    joins: Vec<Filter>,
}

impl View for Query {
    type V = Seq<FilterView>;

    closed spec fn view(&self) -> Seq<FilterView> {
        views_of(self.joins@)
    }
}

impl Query {
    /// The query of one stage.
    pub fn from(filter: Filter) -> (r: Query)
        ensures
            r@ == seq![filter@],
    {
        let joins = vec![filter];
        proof {
            lemma_views_of(joins@);
            assert(views_of(joins@) =~= seq![filter@]);
        }
        Query { joins }
    }

    /// The same stages, then `filter`.
    pub fn and_then(self, filter: Filter) -> (r: Query)
        ensures
            r@ == self@.push(filter@),
    {
        let Query { mut joins } = self;
        let ghost before = joins@;
        joins.push(filter);
        proof {
            assert(joins@.subrange(0, joins@.len() - 1) =~= before);
        }
        Query { joins }
    }

    /// Whether every stage can be evaluated.
    pub fn is_supported(&self) -> (r: bool)
        ensures
            r == all_supported(self@),
    {
        proof {
            lemma_views_of(self.joins@);
            lemma_all_supported(self@);
        }
        let mut i: usize = 0;
        while i < self.joins.len()
            invariant
                i <= self.joins@.len(),
                self@ == views_of(self.joins@),
                self@.len() == self.joins@.len(),
                forall|j: int| 0 <= j < self.joins@.len() ==> #[trigger] views_of(self.joins@)[j] == self.joins@[j]@,
                forall|j: int| 0 <= j < i ==> #[trigger] self@[j].supported(),
            decreases self.joins.len() - i,
        {
            if !self.joins[i].is_supported() {
                proof {
                    lemma_all_supported(self@);
                    assert(views_of(self.joins@)[i as int] == self.joins@[i as int]@);
                    assert(!self@[i as int].supported());
                }
                return false;
            }
            i = i + 1;
        }
        proof {
            lemma_all_supported(self@);
        }
        true
    }

    /// The selection of `select`, or the priority test that a stage holds,
    /// which cannot be evaluated.
    pub fn try_select<L: List>(&self, list: &L) -> (r: Result<Vec<ItemId>, UnsupportedPredicate>)
        ensures
            all_supported(self@) ==> r is Ok && r->Ok_0@ == staged(list.entries(), self@),
            !all_supported(self@) ==> r == Err::<Vec<ItemId>, UnsupportedPredicate>(UnsupportedPredicate),
    {
        if self.is_supported() {
            Ok(self.select(list))
        } else {
            Err(UnsupportedPredicate)
        }
    }

    /// For each stage in order, the items of the whole list that it matches,
    /// one after the other: an item appears once for each stage it matches.
    pub fn select<L: List>(&self, list: &L) -> (r: Vec<ItemId>)
        requires
            all_supported(self@),
        ensures
            r@ == staged(list.entries(), self@),
    {
        let mut out: Vec<ItemId> = Vec::new();
        let mut i: usize = 0;
        proof {
            lemma_views_of(self.joins@);
        }
        while i < self.joins.len()
            invariant
                i <= self.joins@.len(),
                views_of(self.joins@).len() == self.joins@.len(),
                forall|j: int| 0 <= j < self.joins@.len() ==> #[trigger] views_of(self.joins@)[j] == self.joins@[j]@,
                all_supported(self@),
                self@ == views_of(self.joins@),
                out@ == staged(list.entries(), self@.subrange(0, i as int)),
            decreases self.joins.len() - i,
        {
            proof {
                lemma_all_supported(self@);
                assert(self@[i as int].supported());
            }
            let mut part = list.select(&self.joins[i]);
            proof {
                let upto = self@.subrange(0, i + 1);
                assert(upto.drop_last() =~= self@.subrange(0, i as int));
                assert(upto.last() == self@[i as int]);
            }
            out.append(&mut part);
            i = i + 1;
        }
        proof {
            assert(self@.subrange(0, i as int) =~= self@);
        }
        out
    }
}

impl From<Filter> for Query {
    /// The same as `Query::from`, whose contract states the result.
    fn from(filter: Filter) -> Query {
        Query::from(filter)
    }
}

impl vstd::std_specs::convert::FromSpecImpl<Filter> for Query {
    open spec fn obeys_from_spec() -> bool {
        false
    }

    open spec fn from_spec(filter: Filter) -> Query {
        vstd::pervasive::arbitrary()
    }
}

} // verus!
