use todo_queue::list::{Item, ItemDesc, List, Status};
use todo_queue::lists::MemList;
use todo_queue::native::NativeList;
use todo_queue::query::{Filter, Query, UnsupportedPredicate};
use todo_queue::range::{Limit, Range};
use todo_queue::registry::{
    App, AppConfig, Cause, ErrorKind, ListAlreadyExists, NoListSelected, NoSuchListExists,
};
use todo_queue::script::parse_query;

fn item(name: &str, status: Status, tags: &[&str]) -> ItemDesc {
    let mut d = ItemDesc::new(
        name.to_string(),
        String::new(),
        tags.iter().map(|t| t.to_string()).collect(),
    );
    d.status = status;
    d
}

#[test]
fn range_contains_checks_both_edges() {
    let r = Range::new(Limit::Excludes(Status::Waiting), Limit::Includes(Status::Working));
    assert!(!r.contains(&Status::Waiting));
    assert!(r.contains(&Status::Queuing));
    assert!(r.contains(&Status::Working));
    assert!(!r.contains(&Status::Completed));
    for v in [Status::Waiting, Status::Queuing, Status::Working, Status::Completed] {
        assert_eq!(
            r.contains(&v),
            r.low.is_lower_bound_of(&v) && r.high.is_upper_bound_of(&v)
        );
    }
    let inverted = Range::new(Limit::Includes(Status::Completed), Limit::Includes(Status::Waiting));
    for v in [Status::Waiting, Status::Queuing, Status::Working, Status::Completed] {
        assert!(!inverted.contains(&v));
    }
}

#[test]
fn union_and_intersection() {
    let a = Range::new(Limit::Includes(Status::Waiting), Limit::Excludes(Status::Working));
    let b = Range::new(Limit::Excludes(Status::Queuing), Limit::Includes(Status::Working));
    let u = a.union(b);
    assert_eq!(u, b.union(a));
    assert_eq!(u, Range::new(Limit::Includes(Status::Waiting), Limit::Includes(Status::Working)));
    let i = a.intersection(b);
    assert_eq!(i, Range::new(Limit::Excludes(Status::Queuing), Limit::Excludes(Status::Working)));
    for v in [Status::Waiting, Status::Queuing, Status::Working, Status::Completed] {
        if a.contains(&v) || b.contains(&v) {
            assert!(u.contains(&v));
        }
        if i.contains(&v) {
            assert!(a.contains(&v) && b.contains(&v));
        }
    }
    let open = Range::new(Limit::Inf, Limit::Inf);
    assert_eq!(a.union(open), open);
    assert_eq!(a.intersection(open), a);
}

#[test]
fn limits_compare_as_edges() {
    let inc = Limit::Includes(Status::Queuing);
    let exc = Limit::Excludes(Status::Queuing);
    assert!(inc.is_lower_bound(&exc));
    assert!(!exc.is_lower_bound(&inc));
    assert!(inc.is_upper_bound(&exc));
    assert!(!exc.is_upper_bound(&inc));
    assert!(Limit::Inf.is_lower_bound(&inc));
    assert!(Limit::Inf.is_upper_bound(&inc));
    assert!(!inc.is_upper_bound(&Limit::Inf));
    let narrow = Range::new(inc, exc);
    let wide = Range::new(Limit::Inf, Limit::Inf);
    assert!(narrow.is_subrange(&wide));
    assert!(!wide.is_subrange(&narrow));
}

#[test]
fn combinators_flatten() {
    let f = (Filter::name("a") & Filter::name("b")) & Filter::name("c");
    let g = Filter::name("a") & (Filter::name("b") & Filter::name("c"));
    assert_eq!(f, g);
    assert_eq!(
        f,
        Filter::And(vec![Filter::name("a"), Filter::name("b"), Filter::name("c")])
    );
    let h = Filter::name("a") | (Filter::name("b") | Filter::name("c"));
    assert_eq!(
        h,
        Filter::Or(vec![Filter::name("a"), Filter::name("b"), Filter::name("c")])
    );
    assert_eq!(!Filter::All, Filter::Not(Box::new(Filter::All)));
}

#[test]
fn matching_items() {
    let a = item("a", Status::Waiting, &[]);
    let b = item("b", Status::Working, &["x"]);
    assert!(Filter::name("a").matches(&a));
    assert!(!Filter::name("A").matches(&a));
    assert!(Filter::tag("x").matches(&b));
    assert!(!Filter::tag("x").matches(&a));
    assert!(Filter::status(Status::Working).matches(&b));
    assert!(Filter::All.matches(&a));
    assert!(!Filter::Nothing.matches(&a));
    assert!(!(Filter::name("b") & Filter::tag("y")).matches(&b));
    assert!((Filter::name("z") | Filter::tag("x")).matches(&b));
    for it in [&a, &b] {
        for f in [Filter::name("a"), Filter::tag("x"), Filter::status(Status::Waiting)] {
            let m = f.matches(it);
            assert_eq!((!!f).matches(it), m);
        }
    }
    let f1 = || Filter::name("b");
    let f2 = || Filter::tag("x");
    let f3 = || Filter::status(Status::Working);
    assert_eq!(((f1() & f2()) & f3()).matches(&b), (f1() & (f2() & f3())).matches(&b));
    assert!(((f1() & f2()) & f3()).matches(&b));
}

#[test]
fn item_text_is_read_into_name_description_and_tags() {
    let d = ItemDesc::from("buy milk #home: before noon".to_string());
    assert_eq!(d.name, "buy milk ");
    assert_eq!(d.description, ": before noon");
    assert_eq!(d.tags, vec!["home".to_string()]);
    assert_eq!(d.status, Status::Waiting);
    let e = ItemDesc::from("call #mum #soon".to_string());
    assert_eq!(e.name, "call  ");
    assert_eq!(e.description, "");
    assert_eq!(e.tags, vec!["mum".to_string(), "soon".to_string()]);
}

#[test]
fn item_setters() {
    let mut d = item("a", Status::Waiting, &["x"]);
    d.set_tag("y", true);
    assert!(d.has_tag("y"));
    d.set_tag("x", false);
    assert!(!d.has_tag("x"));
    d.set_name("b");
    assert_eq!(d.get_name(), "b");
    d.set_status(Status::Completed);
    assert_eq!(*d.get_status(), Status::Completed);
    d.set_description("later");
    assert_eq!(d.get_description(), "later");
}

#[test]
fn query_concatenates_stage_matches() {
    let mut list = MemList::new();
    let a = list.add(item("a", Status::Waiting, &[]));
    let b = list.add(item("b", Status::Working, &["x"]));
    let q = parse_query("!%working !hello => %queued => #x").unwrap();
    assert_eq!(q.select(&list), vec![a, b, b]);
    let q2 = Query::from(Filter::All).and_then(Filter::name("b"));
    assert_eq!(q2.select(&list), vec![a, b, b]);
    list.remove(&a);
    assert_eq!(q2.select(&list), vec![b, b]);
    assert!(list.get(&a).is_none());
    assert_eq!(list.get(&b).unwrap().get_name(), "b");
}

#[test]
fn native_list_adds_removes_and_selects() {
    let mut list = NativeList::new();
    let a = list.add(item("a", Status::Waiting, &[]));
    let b = list.add(item("b", Status::Working, &["x"]));
    assert_eq!(list.get(&a).unwrap().get_name(), "a");
    assert_eq!(list.select(&Filter::tag("x")), vec![b]);
    list.remove(&b);
    assert_eq!(list.select(&Filter::All), vec![a]);
}

#[test]
fn registry_attaches_finds_and_detaches_lists() {
    let config = AppConfig::default_with_path("/tmp/config.json".to_string());
    let mut app = App::launch(config, Vec::new());
    assert_eq!(app.get_list(None).unwrap_err().cause, Cause::NoListSelected(NoListSelected));
    assert!(app.attach_list("home".to_string(), "/tmp/home.json".to_string(), NativeList::new()).is_ok());
    assert!(app.attach_list("work".to_string(), "/tmp/work.json".to_string(), NativeList::new()).is_ok());
    assert_eq!(app.config.default_list, Some("home".to_string()));
    let e = app.attach_list("home".to_string(), "/tmp/x.json".to_string(), NativeList::new()).unwrap_err();
    assert_eq!(e.kind(), ErrorKind::AddList);
    assert_eq!(e.cause, Cause::ListAlreadyExists(ListAlreadyExists("home".to_string())));
    assert_eq!(app.get_list(None).unwrap().0, "home");
    assert_eq!(app.get_list(Some("work".to_string())).unwrap().0, "work");
    let (name, k) = app.list_index(Some("work".to_string())).unwrap();
    assert_eq!(name, "work");
    app.list_at_mut(k).add(item("x", Status::Waiting, &[]));
    assert_eq!(app.get_list(Some("work".to_string())).unwrap().1.select(&Filter::All).len(), 1);
    {
        let (name, list) = app.get_list_mut(None).unwrap();
        assert_eq!(name, "home");
        list.add(item("y", Status::Working, &[]));
    }
    assert_eq!(app.get_list(None).unwrap().1.select(&Filter::All).len(), 1);
    assert_eq!(
        app.get_list_mut(Some("nope".to_string())).unwrap_err().cause,
        Cause::NoSuchListExists(NoSuchListExists("nope".to_string()))
    );
    assert!(app.detach_list("home").is_ok());
    let e = app.detach_list("home").unwrap_err();
    assert_eq!(e.kind(), ErrorKind::RmList);
    assert_eq!(e.cause, Cause::NoSuchListExists(NoSuchListExists("home".to_string())));
    let e = app.get_list(Some("nope".to_string())).unwrap_err();
    assert_eq!(e.kind(), ErrorKind::GetList);
    assert!(app.has_list("work"));
    assert!(!app.has_list("home"));
}

#[test]
fn end_to_end_query_select() {
    let mut list = MemList::new();
    let a = list.add(item("a", Status::Waiting, &[]));
    let b = list.add(item("b", Status::Working, &["x"]));
    let q = parse_query("!%working !hello => %queued => #tag").unwrap();
    assert_eq!(q.select(&list), vec![a, b]);
    let q = parse_query("!%working !hello => %work => #x").unwrap();
    assert_eq!(q.select(&list), vec![a, b, b, b]);
}

#[test]
fn priority_tests_are_unsupported() {
    let a = item("a", Status::Waiting, &[]);
    let p = Filter::Priority(Range::new(Limit::Includes(1u64), Limit::Inf));
    assert!(!p.is_supported());
    assert_eq!(p.evaluate(&a), Err(UnsupportedPredicate));
    let nested = Filter::name("a") | !p;
    assert!(!nested.is_supported());
    assert_eq!(nested.evaluate(&a), Err(UnsupportedPredicate));
    assert_eq!(Filter::name("a").evaluate(&a), Ok(true));
    let mut list = MemList::new();
    list.add(item("a", Status::Waiting, &[]));
    let q = Query::from(Filter::All).and_then(Filter::Priority(Range::eq(3u64)));
    assert!(!q.is_supported());
    assert_eq!(q.try_select(&list), Err(UnsupportedPredicate));
    assert!(Query::from(Filter::All).try_select(&list).is_ok());
}
