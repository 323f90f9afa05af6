use vstd::prelude::*;
use crate::native::NativeList;
use crate::text::same_text;

verus! {

/// The step of the program that failed.
#[derive(Debug, PartialEq, Eq, Clone, Copy)]
pub enum ErrorKind {
    LoadConfig,
    SaveConfig,
    Launch,
    Cli,
    LoadList,
    SaveList,
    SaveApp,
    AddList,
    RmList,
    GetList,
}

/// A list of that name is attached already.
#[derive(Debug, PartialEq, Eq, Clone)]
pub struct ListAlreadyExists(pub String);

/// No list was named, and there is no default list.
#[derive(Debug, PartialEq, Eq, Clone)]
pub struct NoListSelected;

/// No list of that name is attached.
#[derive(Debug, PartialEq, Eq, Clone)]
pub struct NoSuchListExists(pub String);

/// Why a step failed.
#[derive(Debug, PartialEq, Eq, Clone)]
pub enum Cause {
    ListAlreadyExists(ListAlreadyExists),
    NoListSelected(NoListSelected),
    NoSuchListExists(NoSuchListExists),
}

/// A failed step and its cause.
#[derive(Debug, PartialEq, Eq, Clone)]
pub struct Error {
    pub kind: ErrorKind,
    pub cause: Cause,
}

impl Error {
    pub fn kind(&self) -> (r: ErrorKind)
        ensures
            r == self.kind,
    {
        self.kind
    }
}

/// The names of the entries of a keyed sequence, in order.
pub open spec fn keys<V>(entries: Seq<(String, V)>) -> Seq<Seq<char>> {
    entries.map_values(|e: (String, V)| e.0@)
}

/// No two entries share a name.
pub open spec fn keys_unique<V>(entries: Seq<(String, V)>) -> bool {
    forall|i: int, j: int|
        0 <= i < entries.len() && 0 <= j < entries.len() && i != j ==> entries[i].0@
            != entries[j].0@
}

/// Where the entry named `name` stands, if there is one.
pub fn position<V>(entries: &Vec<(String, V)>, name: &str) -> (r: Option<usize>)
    ensures
        match r {
            Some(k) => k < entries@.len() && entries@[k as int].0@ == name@,
            None => !keys(entries@).contains(name@),
        },
{
    let mut i: usize = 0;
    while i < entries.len()
        invariant
            i <= entries@.len(),
            forall|m: int| 0 <= m < i ==> entries@[m].0@ != name@,
        decreases entries.len() - i,
    {
        if same_text(entries[i].0.as_str(), name) {
            return Some(i);
        }
        i = i + 1;
    }
    proof {
        if keys(entries@).contains(name@) {
            let k = choose|k: int| 0 <= k < keys(entries@).len() && keys(entries@)[k] == name@;
            assert(entries@[k].0@ == name@);
        }
    }
    None
}

/// Sets the entry named `name` to `value`, in place if there is one, else
/// at the end.
pub fn put<V>(entries: &mut Vec<(String, V)>, name: String, value: V)
    requires
        keys_unique(old(entries)@),
    ensures
        keys_unique(final(entries)@),
        keys(old(entries)@).contains(name@) ==> keys(final(entries)@) == keys(old(entries)@),
        !keys(old(entries)@).contains(name@) ==> keys(final(entries)@) == keys(old(entries)@).push(name@),
        exists|k: int| 0 <= k < final(entries)@.len() && #[trigger] final(entries)@[k] == (name, value),
{
    match position(entries, name.as_str()) {
        Some(k) => {
            let ghost before = entries@;
            proof {
                assert(keys(before)[k as int] == name@);
            }
            entries.set(k, (name, value));
            proof {
                assert(keys(entries@) =~= keys(before));
                assert(entries@[k as int] == (name, value));
            }
        },
        None => {
            let ghost before = entries@;
            entries.push((name, value));
            proof {
                assert(keys(entries@) =~= keys(before).push(name@));
                assert(entries@[before.len() as int] == (name, value));
                assert forall|i: int, j: int|
                    0 <= i < entries@.len() && 0 <= j < entries@.len() && i != j implies entries@[i].0@
                    != entries@[j].0@ by {
                    if i < before.len() && j < before.len() {
                    } else if i < before.len() {
                        assert(keys(before)[i] == before[i].0@);
                    } else {
                        assert(keys(before)[j] == before[j].0@);
                    }
                }
            }
        },
    }
}

/// Takes out the entry named `name`, if there is one.
pub fn take<V>(entries: &mut Vec<(String, V)>, name: &str) -> (r: Option<V>)
    requires
        keys_unique(old(entries)@),
    ensures
        keys_unique(final(entries)@),
        r is Some == keys(old(entries)@).contains(name@),
        r is None ==> final(entries)@ == old(entries)@,
        !keys(final(entries)@).contains(name@),
        forall|n: Seq<char>| n != name@ ==> (keys(final(entries)@).contains(n) == keys(old(entries)@).contains(n)),
{
    match position(entries, name) {
        Some(k) => {
            let ghost before = entries@;
            let (_, v) = entries.remove(k);
            proof {
                assert(keys(before)[k as int] == name@);
                assert(entries@ == before.remove(k as int));
                assert forall|n: Seq<char>| keys(entries@).contains(n) implies keys(before).contains(n) && n != name@ by {
                    let m = choose|m: int| 0 <= m < keys(entries@).len() && keys(entries@)[m] == n;
                    if m < k {
                        assert(keys(before)[m] == n);
                    } else {
                        assert(keys(before)[m + 1] == n);
                    }
                }
                assert forall|n: Seq<char>| keys(before).contains(n) && n != name@ implies keys(entries@).contains(n) by {
                    let m = choose|m: int| 0 <= m < keys(before).len() && keys(before)[m] == n;
                    if m < k {
                        assert(keys(entries@)[m] == n);
                    } else {
                        assert(m != k);
                        assert(keys(entries@)[m - 1] == n);
                    }
                }
            }
            Some(v)
        },
        None => None,
    }
}

/// Where the configuration lives, where each attached list lives, and which
/// list is used when none is named.
#[derive(Debug)]
pub struct AppConfig {
    pub config_path: String,
    pub list_paths: Vec<(String, String)>,
    pub default_list: Option<String>,
}

impl AppConfig {
    pub fn default_with_path(config_path: String) -> (r: AppConfig)
        ensures
            r.config_path == config_path,
            r.list_paths@.len() == 0,
            r.default_list is None,
    {
        AppConfig { config_path, list_paths: Vec::new(), default_list: None }
    }
}

/// The attached lists, by name, with the configuration.
#[derive(Debug)]
pub struct App {
    pub lists: Vec<(String, NativeList)>,
    pub config: AppConfig,
}

impl App {
    /// List names, and the names under which paths are kept, are unique.
    pub open spec fn wf(&self) -> bool {
        keys_unique(self.lists@) && keys_unique(self.config.list_paths@)
    }

    /// The application over the configuration and the lists loaded for it;
    /// of two lists of one name, the later is kept.
    pub fn launch(config: AppConfig, loaded: Vec<(String, NativeList)>) -> (r: App)
        requires
            keys_unique(config.list_paths@),
        ensures
            r.wf(),
            r.config == config,
            forall|n: Seq<char>| keys(r.lists@).contains(n) == keys(loaded@).contains(n),
    {
        let mut lists: Vec<(String, NativeList)> = Vec::new();
        let mut rest = loaded;
        let ghost all = rest@;
        while rest.len() > 0
            invariant
                keys_unique(lists@),
                forall|m: Seq<char>|
                    keys(all).contains(m) == (keys(lists@).contains(m) || keys(rest@).contains(m)),
            decreases rest.len(),
        {
            let ghost before = rest@;
            let ghost had = lists@;
            let (name, list) = rest.remove(0);
            proof {
                assert(before == seq![(name, list)] + rest@);
                assert forall|m: Seq<char>| keys(before).contains(m) == (m == name@ || keys(rest@).contains(m)) by {
                    if keys(before).contains(m) {
                        let k = choose|k: int| 0 <= k < keys(before).len() && keys(before)[k] == m;
                        if k > 0 {
                            assert(keys(rest@)[k - 1] == m);
                        }
                    }
                    if m == name@ {
                        assert(keys(before)[0] == m);
                    }
                    if keys(rest@).contains(m) {
                        let k = choose|k: int| 0 <= k < keys(rest@).len() && keys(rest@)[k] == m;
                        assert(keys(before)[k + 1] == m);
                    }
                }
            }
            put(&mut lists, name, list);
            proof {
                assert forall|m: Seq<char>| keys(lists@).contains(m) == (keys(had).contains(m) || m == name@) by {
                    if !keys(had).contains(name@) {
                        if m == name@ {
                            assert(keys(lists@)[had.len() as int] == m);
                        }
                        if keys(lists@).contains(m) && m != name@ {
                            let k = choose|k: int| 0 <= k < keys(lists@).len() && keys(lists@)[k] == m;
                            assert(keys(had)[k] == m);
                        }
                        if keys(had).contains(m) {
                            let k = choose|k: int| 0 <= k < keys(had).len() && keys(had)[k] == m;
                            assert(keys(lists@)[k] == m);
                        }
                    }
                }
            }
        }
        App { lists, config }
    }

    /// Whether a list of that name is attached.
    pub fn has_list(&self, name: &str) -> (r: bool)
        ensures
            r == keys(self.lists@).contains(name@),
    {
        match position(&self.lists, name) {
            Some(k) => {
                assert(keys(self.lists@)[k as int] == name@);
                true
            },
            None => false,
        }
    }

    /// Attaches `list` under `name`, kept at `path`; the first list attached
    /// becomes the default.
    pub fn attach_list(&mut self, name: String, path: String, list: NativeList) -> (r: Result<(), Error>)
        requires
            old(self).wf(),
        ensures
            final(self).wf(),
            keys(old(self).lists@).contains(name@) ==> *final(self) == *old(self),
            keys(old(self).lists@).contains(name@) ==> r == Err::<(), Error>(
                Error { kind: ErrorKind::AddList, cause: Cause::ListAlreadyExists(ListAlreadyExists(name)) },
            ),
            !keys(old(self).lists@).contains(name@) ==> r is Ok,
            !keys(old(self).lists@).contains(name@) ==> keys(final(self).lists@) == keys(
                old(self).lists@,
            ).push(name@),
            !keys(old(self).lists@).contains(name@) ==> final(self).lists@.last() == (name, list),
            !keys(old(self).lists@).contains(name@) ==> final(self).config.default_list == if old(
                self,
            ).lists@.len() == 0 {
                Some(name)
            } else {
                old(self).config.default_list
            },
            !keys(old(self).lists@).contains(name@) ==> exists|k: int|
                0 <= k < final(self).config.list_paths@.len()
                    && #[trigger] final(self).config.list_paths@[k] == (name, path),
    {
        if self.has_list(name.as_str()) {
            return Err(
                Error { kind: ErrorKind::AddList, cause: Cause::ListAlreadyExists(ListAlreadyExists(name)) },
            );
        }
        let ghost before = self.lists@;
        self.lists.push((name.clone(), list));
        proof {
            assert(keys(self.lists@) =~= keys(before).push(name@));
            assert forall|i: int, j: int|
                0 <= i < self.lists@.len() && 0 <= j < self.lists@.len() && i != j implies self.lists@[i].0@
                != self.lists@[j].0@ by {
                if i < before.len() && j < before.len() {
                } else if i < before.len() {
                    assert(keys(before)[i] == before[i].0@);
                } else {
                    assert(keys(before)[j] == before[j].0@);
                }
            }
        }
        if self.lists.len() == 1 {
            self.config.default_list = Some(name.clone());
        }
        put(&mut self.config.list_paths, name, path);
        Ok(())
    }

    /// Detaches the list named `name`, with its path.
    pub fn detach_list(&mut self, name: &str) -> (r: Result<(), Error>)
        requires
            old(self).wf(),
        ensures
            final(self).wf(),
            !keys(old(self).lists@).contains(name@) ==> final(self).lists@ == old(self).lists@
                && final(self).config == old(self).config,
            !keys(old(self).lists@).contains(name@) ==> (r matches Err(e) && e.kind == ErrorKind::RmList
                && e.cause is NoSuchListExists && e.cause->NoSuchListExists_0.0@ == name@),
            keys(old(self).lists@).contains(name@) ==> r is Ok && !keys(final(self).lists@).contains(
                name@,
            ) && !keys(final(self).config.list_paths@).contains(name@) && forall|n: Seq<char>|
                n != name@ ==> (keys(final(self).lists@).contains(n) == keys(old(self).lists@).contains(
                n,
            )),
    {
        match take(&mut self.lists, name) {
            None => {
                Err(
                    Error {
                        kind: ErrorKind::RmList,
                        cause: Cause::NoSuchListExists(NoSuchListExists(name.to_owned())),
                    },
                )
            },
            Some(_) => {
                let _ = take(&mut self.config.list_paths, name);
                Ok(())
            },
        }
    }
}

/// Why looking up a list by `name`, else by `default`, fails, if it does.
pub open spec fn lookup_error(
    name: Option<String>,
    default: Option<String>,
    lists: Seq<(String, NativeList)>,
) -> Option<Error> {
    match chosen(name, default) {
        None => Some(Error { kind: ErrorKind::GetList, cause: Cause::NoListSelected(NoListSelected) }),
        Some(n) => if keys(lists).contains(n@) {
            None
        } else {
            Some(
                Error { kind: ErrorKind::GetList, cause: Cause::NoSuchListExists(NoSuchListExists(n)) },
            )
        },
    }
}

/// `l` is the list named `n` in `before`, and every other entry of `after`
/// is as in `before`.
pub open spec fn borrowed_from(
    before: Seq<(String, NativeList)>,
    after: Seq<(String, NativeList)>,
    n: Seq<char>,
    l: NativeList,
) -> bool {
    exists|k: int|
        0 <= k < before.len() && #[trigger] before[k].0@ == n && l == before[k].1 && forall|j: int|
            0 <= j < before.len() && j != k ==> after[j] == before[j]
}

proof fn lemma_keys_update<V>(s: Seq<(String, V)>, k: int)
    requires
        0 <= k < s.len(),
    ensures
        forall|v: V| #[trigger] keys(s.update(k, (s[k].0, v))) == keys(s),
{
    assert forall|v: V| #[trigger] keys(s.update(k, (s[k].0, v))) == keys(s) by {
        assert(keys(s.update(k, (s[k].0, v))) =~= keys(s));
    }
}

/// The name asked for, else the default one.
pub open spec fn chosen(name: Option<String>, default: Option<String>) -> Option<String> {
    match name {
        Some(n) => Some(n),
        None => default,
    }
}

impl App {
    fn choose_name(&self, name: Option<String>) -> (r: Result<String, Error>)
        ensures
            match chosen(name, self.config.default_list) {
                Some(n) => r == Ok::<String, Error>(n),
                None => r == Err::<String, Error>(
                    Error { kind: ErrorKind::GetList, cause: Cause::NoListSelected(NoListSelected) },
                ),
            },
    {
        match name {
            Some(n) => Ok(n),
            None => match &self.config.default_list {
                Some(d) => Ok(d.clone()),
                None => Err(Error { kind: ErrorKind::GetList, cause: Cause::NoListSelected(NoListSelected) }),
            },
        }
    }

    /// The list named `name`, or the default list where no name is given.
    pub fn get_list(&self, name: Option<String>) -> (r: Result<(String, &NativeList), Error>)
        requires
            self.wf(),
        ensures
            chosen(name, self.config.default_list) is None ==> r == Err::<(String, &NativeList), Error>(
                Error { kind: ErrorKind::GetList, cause: Cause::NoListSelected(NoListSelected) },
            ),
            chosen(name, self.config.default_list) matches Some(n) ==> !keys(self.lists@).contains(n@)
                ==> r == Err::<(String, &NativeList), Error>(
                Error { kind: ErrorKind::GetList, cause: Cause::NoSuchListExists(NoSuchListExists(n)) },
            ),
            chosen(name, self.config.default_list) matches Some(n) ==> keys(self.lists@).contains(n@)
                ==> r is Ok && r->Ok_0.0 == n && exists|k: int|
                0 <= k < self.lists@.len() && #[trigger] self.lists@[k].0@ == n@ && r->Ok_0.1
                    == &self.lists@[k].1,
    {
        let n = match self.choose_name(name) {
            Ok(n) => n,
            Err(e) => return Err(e),
        };
        match position(&self.lists, n.as_str()) {
            Some(k) => {
                assert(keys(self.lists@)[k as int] == n@);
                Ok((n, &self.lists[k].1))
            },
            None => Err(
                Error { kind: ErrorKind::GetList, cause: Cause::NoSuchListExists(NoSuchListExists(n)) },
            ),
        }
    }

    /// Where the list named `name`, or the default list where no name is
    /// given, stands among the attached lists.
    pub fn list_index(&self, name: Option<String>) -> (r: Result<(String, usize), Error>)
        requires
            self.wf(),
        ensures
            chosen(name, self.config.default_list) is None ==> r == Err::<(String, usize), Error>(
                Error { kind: ErrorKind::GetList, cause: Cause::NoListSelected(NoListSelected) },
            ),
            chosen(name, self.config.default_list) matches Some(n) ==> !keys(self.lists@).contains(n@)
                ==> r == Err::<(String, usize), Error>(
                Error { kind: ErrorKind::GetList, cause: Cause::NoSuchListExists(NoSuchListExists(n)) },
            ),
            chosen(name, self.config.default_list) matches Some(n) ==> keys(self.lists@).contains(n@)
                ==> r is Ok && r->Ok_0.0 == n && r->Ok_0.1 < self.lists@.len() && self.lists@[r->Ok_0.1 as int].0@
                == n@,
    {
        let n = match self.choose_name(name) {
            Ok(n) => n,
            Err(e) => return Err(e),
        };
        match position(&self.lists, n.as_str()) {
            Some(k) => {
                assert(keys(self.lists@)[k as int] == n@);
                Ok((n, k))
            },
            None => Err(
                Error { kind: ErrorKind::GetList, cause: Cause::NoSuchListExists(NoSuchListExists(n)) },
            ),
        }
    }

    /// The list named `name`, or the default list where no name is given,
    /// to change; the other lists and the configuration stay as they are.
    pub fn get_list_mut(&mut self, name: Option<String>) -> (r: Result<(String, &mut NativeList), Error>)
        requires
            old(self).wf(),
        ensures
            (r is Err) == (lookup_error(name, old(self).config.default_list, old(self).lists@) is Some),
            r matches Err(e) ==> (lookup_error(name, old(self).config.default_list, old(self).lists@)
                == Some(e)),
            r matches Ok((n, l)) ==> (chosen(name, old(self).config.default_list) == Some(n)),
            r matches Ok((n, l)) ==> (borrowed_from(old(self).lists@, final(self).lists@, n@, *l)),
            r is Err ==> (final(self).lists@ == old(self).lists@),
            final(self).config == old(self).config,
            keys(final(self).lists@) == keys(old(self).lists@),
    {
        match self.list_index(name) {
            Ok((n, k)) => {
                let ghost before = self.lists@;
                proof {
                    lemma_keys_update(before, k as int);
                }
                let l = self.list_at_mut(k);
                assert(before[k as int].0@ == n@);
                Ok((n, l))
            },
            Err(e) => Err(e),
        }
    }

    /// The list that stands at `k` among the attached lists, to change.
    pub fn list_at_mut(&mut self, k: usize) -> (r: &mut NativeList)
        requires
            k < old(self).lists@.len(),
        ensures
            *r == old(self).lists@[k as int].1,
            final(self).lists@ == old(self).lists@.update(k as int, (old(self).lists@[k as int].0, *final(r))),
            final(self).config == old(self).config,
    {
        &mut self.lists[k].1
    }
}

} // verus!
