use vstd::prelude::*;
use crate::list::Status;
use crate::query::{
    all_supported, and_of, lemma_all_supported, lemma_joins_supported, or_of, Filter, FilterView,
    Query,
};
use crate::range::{Limit, Range};
use crate::text::{chars_of, is_space, space};

verus! {

// ---------------------------------------------------------------------------
// The grammar, over the characters of the input.
// ---------------------------------------------------------------------------

/// The characters that end a bare word.
pub open spec fn is_mark(c: char) -> bool {
    c == '#' || c == '%' || c == '!' || c == '(' || c == ')' || c == '[' || c == ']' || c == '&'
}

pub open spec fn is_word_char(c: char) -> bool {
    !is_space(c) && !is_mark(c)
}

pub open spec fn is_letter(c: char) -> bool {
    ('a' <= c && c <= 'z') || ('A' <= c && c <= 'Z')
}

/// The first position from `i` on that holds no white space.
pub open spec fn skip_space(s: Seq<char>, i: int) -> int
    decreases s.len() - i,
{
    if 0 <= i < s.len() && is_space(s[i]) {
        skip_space(s, i + 1)
    } else {
        i
    }
}

/// The end of the run of word characters that starts at `i`.
pub open spec fn word_end(s: Seq<char>, i: int) -> int
    decreases s.len() - i,
{
    if 0 <= i < s.len() && is_word_char(s[i]) {
        word_end(s, i + 1)
    } else {
        i
    }
}

/// The end of the run of ASCII letters that starts at `i`.
pub open spec fn letters_end(s: Seq<char>, i: int) -> int
    decreases s.len() - i,
{
    if 0 <= i < s.len() && is_letter(s[i]) {
        letters_end(s, i + 1)
    } else {
        i
    }
}

/// `p` stands in `s` at position `i`.
pub open spec fn has_at(s: Seq<char>, i: int, p: Seq<char>) -> bool {
    0 <= i && i + p.len() <= s.len() && s.subrange(i, i + p.len()) == p
}

/// The name of a status, in lower case.
pub open spec fn status_name(st: Status) -> Seq<char> {
    match st {
        Status::Waiting => seq!['w', 'a', 'i', 't', 'i', 'n', 'g'],
        Status::Queuing => seq!['q', 'u', 'e', 'u', 'i', 'n', 'g'],
        Status::Working => seq!['w', 'o', 'r', 'k', 'i', 'n', 'g'],
        Status::Completed => seq!['c', 'o', 'm', 'p', 'l', 'e', 't', 'e', 'd'],
    }
}

/// The stem of a status's name, which other endings may follow.
pub open spec fn status_stem(st: Status) -> Seq<char> {
    match st {
        Status::Waiting => seq!['w', 'a', 'i', 't'],
        Status::Queuing => seq!['q', 'u', 'e', 'u'],
        Status::Working => seq!['w', 'o', 'r', 'k'],
        Status::Completed => seq!['c', 'o', 'm', 'p', 'l', 'e', 't'],
    }
}

/// `a` is the lower-case letter `b`, in either case.
pub open spec fn same_letter(a: char, b: char) -> bool {
    a == b || ('A' <= a && a <= 'Z' && (a as u32) + 32 == (b as u32))
}

/// The first `n` characters of `w` are those of `p`, ignoring case.
pub open spec fn agree(w: Seq<char>, p: Seq<char>, n: int) -> bool {
    forall|k: int| 0 <= k < n ==> same_letter(#[trigger] w[k], p[k])
}

/// The word `w` names `st`: it begins the status's name, or it extends
/// the name's stem (`queued`, `worked`), ignoring case.
pub open spec fn names(w: Seq<char>, st: Status) -> bool {
    let (name, stem) = (status_name(st), status_stem(st));
    w.len() > 0 && ((w.len() <= name.len() && agree(w, name, w.len() as int)) || (stem.len()
        <= w.len() && agree(w, stem, stem.len() as int)))
}

/// The status that the word `w` names, where exactly one is named.
pub open spec fn status_named(w: Seq<char>) -> Option<Status> {
    let (a, b, c, d) = (
        names(w, Status::Waiting),
        names(w, Status::Queuing),
        names(w, Status::Working),
        names(w, Status::Completed),
    );
    if a && !b && !c && !d {
        Some(Status::Waiting)
    } else if !a && b && !c && !d {
        Some(Status::Queuing)
    } else if !a && !b && c && !d {
        Some(Status::Working)
    } else if !a && !b && !c && d {
        Some(Status::Completed)
    } else {
        None
    }
}

/// `%word` at `i`: the status and the end of the word.
pub open spec fn status_term(s: Seq<char>, i: int) -> Option<(Status, int)> {
    if 0 <= i < s.len() && s[i] == '%' {
        let j = letters_end(s, i + 1);
        match status_named(s.subrange(i + 1, j)) {
            Some(st) => Some((st, j)),
            None => None,
        }
    } else {
        None
    }
}

/// One side of a bracketed range at `i`: a status, or `inf` or nothing
/// for an open side.
pub open spec fn edge(s: Seq<char>, i: int) -> Option<(Option<Status>, int)> {
    if 0 <= i < s.len() && s[i] == '%' {
        match status_term(s, i) {
            Some((st, j)) => Some((Some(st), j)),
            None => None,
        }
    } else if has_at(s, i, seq!['i', 'n', 'f']) {
        Some((None, i + 3))
    } else {
        Some((None, i))
    }
}

pub open spec fn limit_of(e: Option<Status>, exclusive: bool) -> Limit<Status> {
    match e {
        None => Limit::Inf,
        Some(st) => if exclusive {
            Limit::Excludes(st)
        } else {
            Limit::Includes(st)
        },
    }
}

/// `( %a ... %b ]` at `i`, with `(`/`)` for excluded and `[`/`]` for
/// included edges.
pub open spec fn bracketed(s: Seq<char>, i: int) -> Option<(Range<Status>, int)> {
    if !(0 <= i < s.len() && (s[i] == '(' || s[i] == '[')) {
        None
    } else {
        let a = skip_space(s, i + 1);
        match edge(s, a) {
            None => None,
            Some((lo, b)) => {
                let c = skip_space(s, b);
                if !has_at(s, c, seq!['.', '.', '.']) {
                    None
                } else {
                    let d = skip_space(s, c + 3);
                    match edge(s, d) {
                        None => None,
                        Some((hi, e)) => {
                            let g = skip_space(s, e);
                            if g < s.len() && (s[g] == ')' || s[g] == ']') {
                                Some(
                                    (
                                        Range {
                                            low: limit_of(lo, s[i] == '('),
                                            high: limit_of(hi, s[g] == ')'),
                                        },
                                        g + 1,
                                    ),
                                )
                            } else {
                                None
                            }
                        },
                    }
                }
            },
        }
    }
}

/// A status range alone: `%word`, or a bracketed range.
pub open spec fn range_term(s: Seq<char>, i: int) -> Option<(Range<Status>, int)> {
    if 0 <= i < s.len() && s[i] == '%' {
        match status_term(s, i) {
            Some((st, j)) => Some((Range { low: Limit::Includes(st), high: Limit::Includes(st) }, j)),
            None => None,
        }
    } else {
        bracketed(s, i)
    }
}

/// The whole of `s`, but for white space around it, is one `%word`.
pub open spec fn status_text(s: Seq<char>) -> Option<Status> {
    match status_term(s, skip_space(s, 0)) {
        Some((st, j)) => if skip_space(s, j) == s.len() {
            Some(st)
        } else {
            None
        },
        None => None,
    }
}

/// The whole of `s`, but for white space around it, is one status range.
pub open spec fn range_text(s: Seq<char>) -> Option<Range<Status>> {
    match range_term(s, skip_space(s, 0)) {
        Some((r, j)) => if skip_space(s, j) == s.len() {
            Some(r)
        } else {
            None
        },
        None => None,
    }
}

/// The characters left from `i` on.
pub open spec fn left(s: Seq<char>, i: int) -> nat {
    if 0 <= i < s.len() {
        (s.len() - i) as nat
    } else {
        0
    }
}

/// A character that can begin a term.
pub open spec fn starts_term(c: char) -> bool {
    c == '#' || c == '%' || c == '[' || c == '(' || c == '!' || is_word_char(c)
}

// In the rules below every term read takes at least one character; the
// checks `j > i` on positions say so, and keep the definitions well founded.

/// A term at `i`: `#tag`, `%word`, a bracketed status range, a group
/// `( ... )`, or a bare word, which names an item.
pub open spec fn atom(s: Seq<char>, i: int) -> Option<(FilterView, int)>
    decreases left(s, i), 0nat,
{
    if !(0 <= i < s.len()) {
        None
    } else if s[i] == '#' {
        let j = word_end(s, i + 1);
        if j > i + 1 {
            Some((FilterView::Tag(s.subrange(i + 1, j)), j))
        } else {
            None
        }
    } else if s[i] == '%' {
        match status_term(s, i) {
            Some((st, j)) => Some(
                (FilterView::Status(Range { low: Limit::Includes(st), high: Limit::Includes(st) }), j),
            ),
            None => None,
        }
    } else if s[i] == '[' || s[i] == '(' {
        match bracketed(s, i) {
            Some((r, j)) => Some((FilterView::Status(r), j)),
            None => if s[i] == '[' {
                None
            } else {
                let k = skip_space(s, i + 1);
                if k <= i {
                    None
                } else {
                    match disjunction(s, k) {
                        Some((f, m)) => {
                            let n = skip_space(s, m);
                            if 0 <= n < s.len() && s[n] == ')' {
                                Some((f, n + 1))
                            } else {
                                None
                            }
                        },
                        None => None,
                    }
                }
            },
        }
    } else if is_word_char(s[i]) {
        let j = word_end(s, i);
        Some((FilterView::Name(s.subrange(i, j)), j))
    } else {
        None
    }
}

/// A term, after any number of `!`, each of which negates what follows.
pub open spec fn negation(s: Seq<char>, i: int) -> Option<(FilterView, int)>
    decreases left(s, i), 1nat,
{
    if 0 <= i < s.len() && s[i] == '!' {
        let k = skip_space(s, i + 1);
        if k <= i {
            None
        } else {
            match negation(s, k) {
                Some((f, j)) => Some((FilterView::Not(Box::new(f)), j)),
                None => None,
            }
        }
    } else {
        atom(s, i)
    }
}

/// Terms joined by `&`.
pub open spec fn conjunction(s: Seq<char>, i: int) -> Option<(FilterView, int)>
    decreases left(s, i), 2nat,
{
    if !(0 <= i < s.len()) {
        None
    } else {
        match negation(s, i) {
            Some((f, j)) => if j > i {
                more_conjuncts(s, f, j)
            } else {
                None
            },
            None => None,
        }
    }
}

/// What follows a term in a conjunction read so far as `f`, up to `j`.
pub open spec fn more_conjuncts(s: Seq<char>, f: FilterView, j: int) -> Option<(FilterView, int)>
    decreases left(s, j), 3nat,
{
    let k = skip_space(s, j);
    if 0 <= j < s.len() && k < s.len() && k >= j && s[k] == '&' {
        let m = skip_space(s, k + 1);
        if m <= j {
            None
        } else {
            match negation(s, m) {
                Some((g, n)) => if n > j {
                    more_conjuncts(s, and_of(f, g), n)
                } else {
                    None
                },
                None => None,
            }
        }
    } else {
        Some((f, j))
    }
}

/// Conjunctions side by side, each an alternative.
pub open spec fn disjunction(s: Seq<char>, i: int) -> Option<(FilterView, int)>
    decreases left(s, i), 4nat,
{
    if !(0 <= i < s.len()) {
        None
    } else {
        match conjunction(s, i) {
            Some((f, j)) => if j > i {
                more_disjuncts(s, f, j)
            } else {
                None
            },
            None => None,
        }
    }
}

/// What follows a conjunction in a disjunction read so far as `f`, up to `j`.
pub open spec fn more_disjuncts(s: Seq<char>, f: FilterView, j: int) -> Option<(FilterView, int)>
    decreases left(s, j), 5nat,
{
    let k = skip_space(s, j);
    if 0 <= j < s.len() && k < s.len() && k >= j && starts_term(s[k]) {
        match conjunction(s, k) {
            Some((g, n)) => if n > j {
                more_disjuncts(s, or_of(f, g), n)
            } else {
                None
            },
            None => None,
        }
    } else {
        Some((f, j))
    }
}

/// The whole of `s`, but for white space around it, as a filter; the word
/// `all` alone is the filter that admits every item.
pub open spec fn filter_text(s: Seq<char>) -> Option<FilterView> {
    let i = skip_space(s, 0);
    if has_at(s, i, seq!['a', 'l', 'l']) && skip_space(s, i + 3) == s.len() {
        Some(FilterView::All)
    } else {
        match disjunction(s, i) {
            Some((f, j)) => if skip_space(s, j) == s.len() {
                Some(f)
            } else {
                None
            },
            None => None,
        }
    }
}

/// The positions at which `=>` starts in `s`, from `i` on, in order.
pub open spec fn arrows_from(s: Seq<char>, i: int) -> Seq<int>
    decreases s.len() - i,
{
    if !(0 <= i < s.len()) {
        Seq::empty()
    } else if has_at(s, i, seq!['=', '>']) {
        seq![i] + arrows_from(s, i + 2)
    } else {
        arrows_from(s, i + 1)
    }
}

/// The pieces of `s` between the arrows `=>`.
pub open spec fn stage_texts(s: Seq<char>) -> Seq<Seq<char>> {
    let a = arrows_from(s, 0);
    Seq::new(
        a.len() + 1,
        |k: int|
            s.subrange(
                if k == 0 {
                    0
                } else {
                    a[k - 1] + 2
                },
                if k == a.len() {
                    s.len() as int
                } else {
                    a[k]
                },
            ),
    )
}

/// Every piece between the arrows is a filter.
pub open spec fn stages_parse(s: Seq<char>) -> bool {
    forall|k: int| 0 <= k < stage_texts(s).len() ==> (#[trigger] filter_text(stage_texts(s)[k])) is Some
}

/// The stages of a query text: each piece between the arrows, as a filter.
pub open spec fn query_text(s: Seq<char>) -> Option<Seq<FilterView>> {
    if stages_parse(s) {
        Some(stage_texts(s).map_values(|t: Seq<char>| filter_text(t)->0))
    } else {
        None
    }
}

// ---------------------------------------------------------------------------
// The parser.
// ---------------------------------------------------------------------------

/// A result with its end position, read as integers.
pub open spec fn at_int<T>(r: Option<(T, usize)>) -> Option<(T, int)> {
    match r {
        Some((v, j)) => Some((v, j as int)),
        None => None,
    }
}

/// `r` stands for `p` and, where something was read, ended past `i`.
pub open spec fn read_as<T>(r: Option<(T, usize)>, p: Option<(T, int)>, i: int, n: int) -> bool {
    &&& at_int(r) == p
    &&& r matches Some((_, j)) ==> i < j <= n
}

fn skip_space_at(cs: &Vec<char>, i: usize) -> (r: usize)
    requires
        i <= cs@.len(),
    ensures
        r as int == skip_space(cs@, i as int),
        i <= r <= cs@.len(),
{
    let mut j = i;
    while j < cs.len() && space(cs[j])
        invariant
            i <= j <= cs@.len(),
            skip_space(cs@, j as int) == skip_space(cs@, i as int),
        decreases cs.len() - j,
    {
        j = j + 1;
    }
    j
}

fn word_end_at(cs: &Vec<char>, i: usize) -> (r: usize)
    requires
        i <= cs@.len(),
    ensures
        r as int == word_end(cs@, i as int),
        i <= r <= cs@.len(),
{
    let mut j = i;
    while j < cs.len() && word_char(cs[j])
        invariant
            i <= j <= cs@.len(),
            word_end(cs@, j as int) == word_end(cs@, i as int),
        decreases cs.len() - j,
    {
        j = j + 1;
    }
    j
}

fn letters_end_at(cs: &Vec<char>, i: usize) -> (r: usize)
    requires
        i <= cs@.len(),
    ensures
        r as int == letters_end(cs@, i as int),
        i <= r <= cs@.len(),
{
    let mut j = i;
    while j < cs.len() && letter(cs[j])
        invariant
            i <= j <= cs@.len(),
            letters_end(cs@, j as int) == letters_end(cs@, i as int),
        decreases cs.len() - j,
    {
        j = j + 1;
    }
    j
}

fn word_char(c: char) -> (r: bool)
    ensures
        r == is_word_char(c),
{
    !space(c) && !(c == '#' || c == '%' || c == '!' || c == '(' || c == ')' || c == '[' || c == ']'
        || c == '&')
}

fn letter(c: char) -> (r: bool)
    ensures
        r == is_letter(c),
{
    ('a' <= c && c <= 'z') || ('A' <= c && c <= 'Z')
}

fn has_at_exec(cs: &Vec<char>, i: usize, p: &Vec<char>) -> (r: bool)
    ensures
        r == has_at(cs@, i as int, p@),
{
    if p.len() > cs.len() || i > cs.len() - p.len() {
        return false;
    }
    let n = cs.len();
    let mut k: usize = 0;
    while k < p.len()
        invariant
            n == cs@.len(),
            i as int + p@.len() <= cs@.len(),
            k <= p@.len(),
            forall|m: int| 0 <= m < k ==> cs@[i + m] == p@[m],
        decreases p.len() - k,
    {
        let at: usize = i + k;
        if cs[at] != p[k] {
            assert(cs@.subrange(i as int, i + p@.len())[k as int] != p@[k as int]);
            return false;
        }
        k = k + 1;
    }
    assert(cs@.subrange(i as int, i + p@.len()) =~= p@);
    true
}

fn same_letter_exec(a: char, b: char) -> (r: bool)
    ensures
        r == same_letter(a, b),
{
    a == b || ('A' <= a && a <= 'Z' && (a as u32) + 32 == (b as u32))
}

/// Whether the characters `from..from + n` of `cs` agree with `p`, ignoring case.
fn agree_at(cs: &Vec<char>, from: usize, to: usize, p: &Vec<char>, n: usize) -> (r: bool)
    requires
        from <= to <= cs@.len(),
        n <= to - from,
        n <= p@.len(),
    ensures
        r == agree(cs@.subrange(from as int, to as int), p@, n as int),
{
    let ghost w = cs@.subrange(from as int, to as int);
    let mut k: usize = 0;
    while k < n
        invariant
            from <= to <= cs@.len(),
            n <= to - from,
            n <= p@.len(),
            k <= n,
            w == cs@.subrange(from as int, to as int),
            agree(w, p@, k as int),
        decreases n - k,
    {
        if !same_letter_exec(cs[from + k], p[k]) {
            assert(!same_letter(w[k as int], p@[k as int]));
            return false;
        }
        k = k + 1;
    }
    true
}

fn name_chars(st: Status) -> (r: Vec<char>)
    ensures
        r@ == status_name(st),
{
    let r = match st {
        Status::Waiting => vec!['w', 'a', 'i', 't', 'i', 'n', 'g'],
        Status::Queuing => vec!['q', 'u', 'e', 'u', 'i', 'n', 'g'],
        Status::Working => vec!['w', 'o', 'r', 'k', 'i', 'n', 'g'],
        Status::Completed => vec!['c', 'o', 'm', 'p', 'l', 'e', 't', 'e', 'd'],
    };
    assert(r@ =~= status_name(st));
    r
}

fn stem_chars(st: Status) -> (r: Vec<char>)
    ensures
        r@ == status_stem(st),
{
    let r = match st {
        Status::Waiting => vec!['w', 'a', 'i', 't'],
        Status::Queuing => vec!['q', 'u', 'e', 'u'],
        Status::Working => vec!['w', 'o', 'r', 'k'],
        Status::Completed => vec!['c', 'o', 'm', 'p', 'l', 'e', 't'],
    };
    assert(r@ =~= status_stem(st));
    r
}

fn names_at(cs: &Vec<char>, from: usize, to: usize, st: Status) -> (r: bool)
    requires
        from <= to <= cs@.len(),
    ensures
        r == names(cs@.subrange(from as int, to as int), st),
{
    let len = to - from;
    if len == 0 {
        return false;
    }
    let name = name_chars(st);
    if len <= name.len() && agree_at(cs, from, to, &name, len) {
        return true;
    }
    let stem = stem_chars(st);
    stem.len() <= len && agree_at(cs, from, to, &stem, stem.len())
}

fn status_named_at(cs: &Vec<char>, from: usize, to: usize) -> (r: Option<Status>)
    requires
        from <= to <= cs@.len(),
    ensures
        r == status_named(cs@.subrange(from as int, to as int)),
{
    let a = names_at(cs, from, to, Status::Waiting);
    let b = names_at(cs, from, to, Status::Queuing);
    let c = names_at(cs, from, to, Status::Working);
    let d = names_at(cs, from, to, Status::Completed);
    if a && !b && !c && !d {
        Some(Status::Waiting)
    } else if !a && b && !c && !d {
        Some(Status::Queuing)
    } else if !a && !b && c && !d {
        Some(Status::Working)
    } else if !a && !b && !c && d {
        Some(Status::Completed)
    } else {
        None
    }
}

fn status_term_at(cs: &Vec<char>, i: usize) -> (r: Option<(Status, usize)>)
    requires
        i <= cs@.len(),
    ensures
        read_as(r, status_term(cs@, i as int), i as int, cs@.len() as int),
{
    if i < cs.len() && cs[i] == '%' {
        let j = letters_end_at(cs, i + 1);
        match status_named_at(cs, i + 1, j) {
            Some(st) => Some((st, j)),
            None => None,
        }
    } else {
        None
    }
}

fn edge_at(cs: &Vec<char>, i: usize) -> (r: Option<(Option<Status>, usize)>)
    requires
        i <= cs@.len(),
    ensures
        at_int(r) == edge(cs@, i as int),
        r matches Some((_, j)) ==> i <= j <= cs@.len(),
{
    if i < cs.len() && cs[i] == '%' {
        match status_term_at(cs, i) {
            Some((st, j)) => Some((Some(st), j)),
            None => None,
        }
    } else {
        let inf = vec!['i', 'n', 'f'];
        assert(inf@ =~= seq!['i', 'n', 'f']);
        if has_at_exec(cs, i, &inf) {
            Some((None, i + 3))
        } else {
            Some((None, i))
        }
    }
}

fn limit_from(e: Option<Status>, exclusive: bool) -> (r: Limit<Status>)
    ensures
        r == limit_of(e, exclusive),
{
    match e {
        None => Limit::Inf,
        Some(st) => if exclusive {
            Limit::Excludes(st)
        } else {
            Limit::Includes(st)
        },
    }
}

fn bracketed_at(cs: &Vec<char>, i: usize) -> (r: Option<(Range<Status>, usize)>)
    requires
        i <= cs@.len(),
    ensures
        read_as(r, bracketed(cs@, i as int), i as int, cs@.len() as int),
{
    if !(i < cs.len() && (cs[i] == '(' || cs[i] == '[')) {
        return None;
    }
    let a = skip_space_at(cs, i + 1);
    let (lo, b) = match edge_at(cs, a) {
        None => return None,
        Some(e) => e,
    };
    let c = skip_space_at(cs, b);
    let dots = vec!['.', '.', '.'];
    assert(dots@ =~= seq!['.', '.', '.']);
    if !has_at_exec(cs, c, &dots) {
        return None;
    }
    let d = skip_space_at(cs, c + 3);
    let (hi, e) = match edge_at(cs, d) {
        None => return None,
        Some(e) => e,
    };
    let g = skip_space_at(cs, e);
    if g < cs.len() && (cs[g] == ')' || cs[g] == ']') {
        let low = limit_from(lo, cs[i] == '(');
        let high = limit_from(hi, cs[g] == ')');
        Some((Range::new(low, high), g + 1))
    } else {
        None
    }
}

fn range_term_at(cs: &Vec<char>, i: usize) -> (r: Option<(Range<Status>, usize)>)
    requires
        i <= cs@.len(),
    ensures
        read_as(r, range_term(cs@, i as int), i as int, cs@.len() as int),
{
    if i < cs.len() && cs[i] == '%' {
        match status_term_at(cs, i) {
            Some((st, j)) => Some((Range::eq(st), j)),
            None => None,
        }
    } else {
        bracketed_at(cs, i)
    }
}

/// What was not understood, and where: a character position in the text.
#[derive(Debug, PartialEq, Eq, Clone, Copy)]
pub struct SyntaxError {
    pub position: usize,
}

/// Reads a text that is one `%word`, such as `%Completed` or `%work`.
pub fn parse_status(text: &str) -> (r: Result<Status, SyntaxError>)
    ensures
        match r {
            Ok(st) => status_text(text@) == Some(st),
            Err(_) => status_text(text@) is None,
        },
{
    let cs = chars_of(text);
    let i = skip_space_at(&cs, 0);
    match status_term_at(&cs, i) {
        Some((st, j)) => {
            let k = skip_space_at(&cs, j);
            if k == cs.len() {
                Ok(st)
            } else {
                Err(SyntaxError { position: k })
            }
        },
        None => Err(SyntaxError { position: i }),
    }
}

/// Reads a text that is one status range: `%word` for that status alone, or
/// a bracketed range such as `( %Waiting ... %Completed ]`.
pub fn parse_range_status(text: &str) -> (r: Result<Range<Status>, SyntaxError>)
    ensures
        match r {
            Ok(range) => range_text(text@) == Some(range),
            Err(_) => range_text(text@) is None,
        },
{
    let cs = chars_of(text);
    let i = skip_space_at(&cs, 0);
    match range_term_at(&cs, i) {
        Some((range, j)) => {
            let k = skip_space_at(&cs, j);
            if k == cs.len() {
                Ok(range)
            } else {
                Err(SyntaxError { position: k })
            }
        },
        None => Err(SyntaxError { position: i }),
    }
}

/// A filter read with its end position, as a view.
pub open spec fn filter_read(r: Option<(Filter, usize)>) -> Option<(FilterView, int)> {
    match r {
        Some((f, j)) => Some((f@, j as int)),
        None => None,
    }
}

fn starts_term_exec(c: char) -> (r: bool)
    ensures
        r == starts_term(c),
{
    c == '#' || c == '%' || c == '[' || c == '(' || c == '!' || word_char(c)
}

fn atom_at(text: &str, cs: &Vec<char>, i: usize) -> (r: Option<(Filter, usize)>)
    requires
        cs@ == text@,
        i <= cs@.len(),
    ensures
        r matches Some((f, _)) ==> f@.supported(),
        filter_read(r) == atom(cs@, i as int),
        r matches Some((_, j)) ==> i < j <= cs@.len(),
    decreases left(cs@, i as int), 0nat,
{
    if i >= cs.len() {
        return None;
    }
    let c = cs[i];
    if c == '#' {
        let j = word_end_at(cs, i + 1);
        if j > i + 1 {
            Some((Filter::tag(text.substring_char(i + 1, j)), j))
        } else {
            None
        }
    } else if c == '%' {
        match status_term_at(cs, i) {
            Some((st, j)) => Some((Filter::status(st), j)),
            None => None,
        }
    } else if c == '[' || c == '(' {
        match bracketed_at(cs, i) {
            Some((range, j)) => Some((Filter::status_range(range), j)),
            None => if c == '[' {
                None
            } else {
                let k = skip_space_at(cs, i + 1);
                match disjunction_at(text, cs, k) {
                    Some((f, m)) => {
                        let n = skip_space_at(cs, m);
                        if n < cs.len() && cs[n] == ')' {
                            Some((f, n + 1))
                        } else {
                            None
                        }
                    },
                    None => None,
                }
            },
        }
    } else if word_char(c) {
        let j = word_end_at(cs, i + 1);
        assert(word_end(cs@, i as int) == j);
        Some((Filter::name(text.substring_char(i, j)), j))
    } else {
        None
    }
}

fn negation_at(text: &str, cs: &Vec<char>, i: usize) -> (r: Option<(Filter, usize)>)
    requires
        cs@ == text@,
        i <= cs@.len(),
    ensures
        r matches Some((f, _)) ==> f@.supported(),
        filter_read(r) == negation(cs@, i as int),
        r matches Some((_, j)) ==> i < j <= cs@.len(),
    decreases left(cs@, i as int), 1nat,
{
    if i < cs.len() && cs[i] == '!' {
        let k = skip_space_at(cs, i + 1);
        match negation_at(text, cs, k) {
            Some((f, j)) => {
                proof {
                    lemma_joins_supported(f@, f@);
                }
                Some((f.negate(), j))
            },
            None => None,
        }
    } else {
        atom_at(text, cs, i)
    }
}

fn conjunction_at(text: &str, cs: &Vec<char>, i: usize) -> (r: Option<(Filter, usize)>)
    requires
        cs@ == text@,
        i <= cs@.len(),
    ensures
        r matches Some((f, _)) ==> f@.supported(),
        filter_read(r) == conjunction(cs@, i as int),
        r matches Some((_, j)) ==> i < j <= cs@.len(),
    decreases left(cs@, i as int), 2nat,
{
    if i >= cs.len() {
        return None;
    }
    match negation_at(text, cs, i) {
        Some((f, j)) => more_conjuncts_at(text, cs, f, j),
        None => None,
    }
}

fn more_conjuncts_at(text: &str, cs: &Vec<char>, f: Filter, j: usize) -> (r: Option<(Filter, usize)>)
    requires
        cs@ == text@,
        j <= cs@.len(),
        f@.supported(),
    ensures
        r matches Some((g, _)) ==> g@.supported(),
        filter_read(r) == more_conjuncts(cs@, f@, j as int),
        r matches Some((_, e)) ==> j <= e <= cs@.len(),
    decreases left(cs@, j as int), 3nat,
{
    let k = skip_space_at(cs, j);
    if j < cs.len() && k < cs.len() && cs[k] == '&' {
        let m = skip_space_at(cs, k + 1);
        match negation_at(text, cs, m) {
            Some((g, n)) => {
                proof {
                    lemma_joins_supported(f@, g@);
                }
                more_conjuncts_at(text, cs, f.and(g), n)
            },
            None => None,
        }
    } else {
        Some((f, j))
    }
}

fn disjunction_at(text: &str, cs: &Vec<char>, i: usize) -> (r: Option<(Filter, usize)>)
    requires
        cs@ == text@,
        i <= cs@.len(),
    ensures
        r matches Some((f, _)) ==> f@.supported(),
        filter_read(r) == disjunction(cs@, i as int),
        r matches Some((_, j)) ==> i < j <= cs@.len(),
    decreases left(cs@, i as int), 4nat,
{
    if i >= cs.len() {
        return None;
    }
    match conjunction_at(text, cs, i) {
        Some((f, j)) => more_disjuncts_at(text, cs, f, j),
        None => None,
    }
}

fn more_disjuncts_at(text: &str, cs: &Vec<char>, f: Filter, j: usize) -> (r: Option<(Filter, usize)>)
    requires
        cs@ == text@,
        j <= cs@.len(),
        f@.supported(),
    ensures
        r matches Some((g, _)) ==> g@.supported(),
        filter_read(r) == more_disjuncts(cs@, f@, j as int),
        r matches Some((_, e)) ==> j <= e <= cs@.len(),
    decreases left(cs@, j as int), 5nat,
{
    let k = skip_space_at(cs, j);
    if j < cs.len() && k < cs.len() && starts_term_exec(cs[k]) {
        match conjunction_at(text, cs, k) {
            Some((g, n)) => {
                proof {
                    lemma_joins_supported(f@, g@);
                }
                more_disjuncts_at(text, cs, f.or(g), n)
            },
            None => None,
        }
    } else {
        Some((f, j))
    }
}

/// Reads a filter: terms side by side are alternatives, `&` joins terms that
/// must all hold and binds tighter, `!` negates the term after it, and
/// parentheses group. The word `all` alone admits every item.
pub fn parse_filter(text: &str) -> (r: Result<Filter, SyntaxError>)
    ensures
        r matches Ok(f) ==> f@.supported(),
        match r {
            Ok(f) => filter_text(text@) == Some(f@),
            Err(_) => filter_text(text@) is None,
        },
{
    let cs = chars_of(text);
    let i = skip_space_at(&cs, 0);
    let all = vec!['a', 'l', 'l'];
    assert(all@ =~= seq!['a', 'l', 'l']);
    if has_at_exec(&cs, i, &all) && skip_space_at(&cs, i + 3) == cs.len() {
        return Ok(Filter::All);
    }
    match disjunction_at(text, &cs, i) {
        Some((f, j)) => {
            let k = skip_space_at(&cs, j);
            if k == cs.len() {
                Ok(f)
            } else {
                Err(SyntaxError { position: k })
            }
        },
        None => Err(SyntaxError { position: i }),
    }
}

proof fn lemma_arrows(s: Seq<char>, i: int)
    requires
        0 <= i,
    ensures
        forall|m: int|
            0 <= m < arrows_from(s, i).len() ==> i <= #[trigger] arrows_from(s, i)[m]
                && arrows_from(s, i)[m] + 2 <= s.len(),
        forall|m: int|
            0 <= m < arrows_from(s, i).len() - 1 ==> #[trigger] arrows_from(s, i)[m] + 2
                <= arrows_from(s, i)[m + 1],
    decreases s.len() - i,
{
    if 0 <= i < s.len() {
        if has_at(s, i, seq!['=', '>']) {
            lemma_arrows(s, i + 2);
            let rest = arrows_from(s, i + 2);
            assert(arrows_from(s, i) == seq![i] + rest);
            assert forall|m: int| 0 <= m < arrows_from(s, i).len() - 1 implies #[trigger] arrows_from(s, i)[m] + 2
                <= arrows_from(s, i)[m + 1] by {
                if m > 0 {
                    assert(arrows_from(s, i)[m] == rest[m - 1]);
                    assert(arrows_from(s, i)[m + 1] == rest[m]);
                } else {
                    assert(arrows_from(s, i)[1] == rest[0]);
                }
            }
            assert forall|m: int| 0 <= m < arrows_from(s, i).len() implies i <= #[trigger] arrows_from(s, i)[m]
                && arrows_from(s, i)[m] + 2 <= s.len() by {
                if m > 0 {
                    assert(arrows_from(s, i)[m] == rest[m - 1]);
                }
            }
        } else {
            lemma_arrows(s, i + 1);
            assert(arrows_from(s, i) == arrows_from(s, i + 1));
        }
    } else {
        assert(arrows_from(s, i).len() == 0);
    }
}

/// `r` holds the positions of the arrows `=>` in `s`, in order.
pub open spec fn arrows_are(s: Seq<char>, r: Seq<usize>) -> bool {
    &&& r.len() == arrows_from(s, 0).len()
    &&& forall|m: int| 0 <= m < r.len() ==> #[trigger] r[m] as int == arrows_from(s, 0)[m]
}

/// The positions of the arrows `=>` in `cs`, in order.
fn arrows_in(cs: &Vec<char>) -> (r: Vec<usize>)
    ensures
        arrows_are(cs@, r@),
{
    let arrow = vec!['=', '>'];
    assert(arrow@ =~= seq!['=', '>']);
    let mut r: Vec<usize> = Vec::new();
    let ghost done: Seq<int> = Seq::empty();
    let mut i: usize = 0;
    while i < cs.len()
        invariant
            i <= cs@.len(),
            arrow@ == seq!['=', '>'],
            done + arrows_from(cs@, i as int) == arrows_from(cs@, 0),
            done.len() == r@.len(),
            forall|m: int| 0 <= m < r@.len() ==> #[trigger] r@[m] as int == done[m],
        decreases cs.len() - i,
    {
        if has_at_exec(cs, i, &arrow) {
            proof {
                assert(done.push(i as int) + arrows_from(cs@, i + 2) =~= done + arrows_from(cs@, i as int));
                done = done.push(i as int);
            }
            r.push(i);
            i = i + 2;
        } else {
            i = i + 1;
        }
    }
    assert(done =~= arrows_from(cs@, 0));
    r
}

/// Reads the stage `k` of a query text: the piece after the arrow `k - 1`
/// and before the arrow `k`.
fn stage_at(text: &str, cs: &Vec<char>, arrows: &Vec<usize>, k: usize) -> (r: Result<Filter, SyntaxError>)
    requires
        cs@ == text@,
        arrows_are(cs@, arrows@),
        k <= arrows@.len(),
    ensures
        r matches Ok(f) ==> f@.supported(),
        match r {
            Ok(f) => filter_text(stage_texts(cs@)[k as int]) == Some(f@),
            Err(_) => filter_text(stage_texts(cs@)[k as int]) is None,
        },
{
    let ghost a = arrows_from(cs@, 0);
    proof {
        lemma_arrows(cs@, 0);
    }
    let n = arrows.len();
    let len = cs.len();
    let start = if k == 0 {
        0
    } else {
        assert(arrows@[k - 1] as int == a[k - 1]);
        assert(a[k - 1] + 2 <= len);
        arrows[k - 1] + 2
    };
    let end = if k == n {
        cs.len()
    } else {
        assert(arrows@[k as int] as int == a[k as int]);
        arrows[k]
    };
    proof {
        if 0 < k < n {
            assert(a[k - 1] + 2 <= a[k - 1 + 1]);
        }
    }
    assert(stage_texts(cs@)[k as int] == cs@.subrange(start as int, end as int));
    match parse_filter(text.substring_char(start, end)) {
        Ok(f) => Ok(f),
        Err(_) => Err(SyntaxError { position: start }),
    }
}

/// Reads a query: filters separated by `=>`, each a stage of its own.
pub fn parse_query(text: &str) -> (r: Result<Query, SyntaxError>)
    ensures
        r matches Ok(q) ==> all_supported(q@),
        match r {
            Ok(q) => query_text(text@) == Some(q@),
            Err(_) => query_text(text@) is None,
        },
{
    let cs = chars_of(text);
    let arrows = arrows_in(&cs);
    let ghost texts = stage_texts(cs@);
    let n = arrows.len();
    let first = match stage_at(text, &cs, &arrows, 0) {
        Ok(f) => f,
        Err(e) => return Err(e),
    };
    let mut q = Query::from(first);
    proof {
        assert(q@ =~= texts.subrange(0, 1).map_values(|t: Seq<char>| filter_text(t)->0));
    }
    let mut k: usize = 0;
    while k < n
        invariant
            cs@ == text@,
            arrows_are(cs@, arrows@),
            texts == stage_texts(cs@),
            n == arrows@.len(),
            texts.len() == n + 1,
            k <= n,
            forall|m: int| 0 <= m <= k ==> (#[trigger] filter_text(texts[m])) is Some,
            forall|m: int| 0 <= m <= k ==> (#[trigger] filter_text(texts[m]))->0.supported(),
            q@ == texts.subrange(0, k + 1).map_values(|t: Seq<char>| filter_text(t)->0),
        decreases n - k,
    {
        match stage_at(text, &cs, &arrows, k + 1) {
            Ok(f) => {
                q = q.and_then(f);
                proof {
                    assert(q@ =~= texts.subrange(0, k + 2).map_values(
                        |t: Seq<char>| filter_text(t)->0,
                    ));
                }
            },
            Err(e) => return Err(e),
        }
        k = k + 1;
    }
    assert(texts.subrange(0, k + 1) =~= texts);
    proof {
        lemma_all_supported(q@);
        assert forall|m: int| 0 <= m < q@.len() implies #[trigger] q@[m].supported() by {
            assert(q@[m] == filter_text(texts[m])->0);
        }
    }
    Ok(q)
}
/// Reading is deterministic: any two filters that `parse_filter` may return
/// for one text are the same filter, and so are any two queries.
pub proof fn lemma_parse_deterministic(text: Seq<char>, f: Filter, g: Filter, p: Query, q: Query)
    ensures
        filter_text(text) == Some(f@) && filter_text(text) == Some(g@) ==> f@ == g@,
        query_text(text) == Some(p@) && query_text(text) == Some(q@) ==> p@ == q@,
{
}

} // verus!
