use todo_queue::list::Status;
use todo_queue::query::{Filter, Query};
use todo_queue::range::{Limit, Range};
use todo_queue::script::{parse_filter, parse_query, parse_range_status, parse_status};

#[test]
fn parser_status() {
    assert!(parse_status("").is_err());
    assert!(parse_status("HADASD AS").is_err());
    assert_eq!(parse_status("%Completed"), Ok(Status::Completed));
    assert_eq!(parse_status("%Waiting"), Ok(Status::Waiting));
    assert_eq!(parse_status("%Queuing"), Ok(Status::Queuing));
    assert_eq!(parse_status("%Working"), Ok(Status::Working));
}

#[test]
fn parser_range_status() {
    assert!(parse_range_status("").is_err());
    assert!(parse_range_status("HADASD AS").is_err());
    assert_eq!(
        parse_range_status("( %Waiting ... %Completed ]"),
        Ok(Range::new(
            Limit::Excludes(Status::Waiting),
            Limit::Includes(Status::Completed)
        ))
    );
    assert_eq!(
        parse_range_status("( %Waiting...inf ]"),
        Ok(Range::new(Limit::Excludes(Status::Waiting), Limit::Inf))
    );
    assert_eq!(
        parse_range_status("( %Waiting... ]"),
        Ok(Range::new(Limit::Excludes(Status::Waiting), Limit::Inf))
    );
    assert_eq!(
        parse_range_status("%Waiting"),
        Ok(Range::eq(Status::Waiting))
    );
}

#[test]
fn parser_filter() {
    assert!(parse_filter("").is_err());
    assert_eq!(parse_filter("hello"), Ok(Filter::name("hello")));
    assert_eq!(parse_filter("#tag"), Ok(Filter::tag("tag")));
    assert_eq!(
        parse_filter("hello goodbye"),
        Ok(Filter::name("hello") | Filter::name("goodbye"))
    );
    assert_eq!(
        parse_filter("hello & goodbye"),
        Ok(Filter::name("hello") & Filter::name("goodbye"))
    );
    assert_eq!(
        parse_filter("hello & %work"),
        Ok(Filter::name("hello") & Filter::status(Status::Working))
    );
    assert_eq!(
        parse_filter("(%work) hello"),
        Ok(Filter::status(Status::Working) | Filter::name("hello"))
    );
    assert_eq!(
        parse_filter("(%work) !hello"),
        Ok(Filter::status(Status::Working) | !Filter::name("hello"))
    );
    assert_eq!(
        parse_filter("!%work !hello"),
        Ok(!Filter::status(Status::Working) | !Filter::name("hello"))
    );
}

#[test]
fn parser_query() {
    assert!(parse_query("").is_err());
    assert_eq!(parse_query("hello"), Ok(Filter::name("hello").into()));
    assert_eq!(parse_query("#tag"), Ok(Filter::tag("tag").into()));
    assert_eq!(
        parse_query("!%work !hello => %queue"),
        Ok(
            Query::from(!Filter::status(Status::Working) | !Filter::name("hello"))
                .and_then(Filter::status(Status::Queuing))
        )
    );
    assert_eq!(
        parse_query("!%working !hello => %queued => #tag"),
        Ok(
            Query::from(!Filter::status(Status::Working) | !Filter::name("hello"))
                .and_then(Filter::status(Status::Queuing))
                .and_then(Filter::tag("tag"))
        )
    );
}

#[test]
fn status_words_that_name_two_statuses_fail() {
    assert!(parse_status("%w").is_err());
    assert_eq!(parse_status("%wa"), Ok(Status::Waiting));
    assert_eq!(parse_status("%WORK"), Ok(Status::Working));
    assert_eq!(parse_status("%comp"), Ok(Status::Completed));
    assert!(parse_status("%done").is_err());
    assert!(parse_status("%Waiting extra").is_err());
}

#[test]
fn bracketed_ranges() {
    assert_eq!(
        parse_range_status("[ %queue ... %work )"),
        Ok(Range::new(
            Limit::Includes(Status::Queuing),
            Limit::Excludes(Status::Working)
        ))
    );
    assert_eq!(
        parse_range_status("[ ... %work ]"),
        Ok(Range::new(Limit::Inf, Limit::Includes(Status::Working)))
    );
    assert!(parse_range_status("( %Waiting %Completed ]").is_err());
    assert!(parse_range_status("( %Waiting ... %Completed").is_err());
    assert!(parse_range_status("( %Wxyz ... ]").is_err());
}

#[test]
fn filter_grouping_and_ranges() {
    assert_eq!(parse_filter("  all  "), Ok(Filter::All));
    assert_eq!(
        parse_filter("a & (b c)"),
        Ok(Filter::name("a") & (Filter::name("b") | Filter::name("c")))
    );
    assert_eq!(
        parse_filter("a b & c d"),
        Ok(Filter::name("a") | (Filter::name("b") & Filter::name("c")) | Filter::name("d"))
    );
    assert_eq!(
        parse_filter("!!a"),
        Ok(!!Filter::name("a"))
    );
    assert_eq!(
        parse_filter("[%wait ... %work] #x"),
        Ok(Filter::status_range(Range::new(
            Limit::Includes(Status::Waiting),
            Limit::Includes(Status::Working)
        )) | Filter::tag("x"))
    );
    assert!(parse_filter("(a b").is_err());
    assert!(parse_filter("a )").is_err());
    assert!(parse_filter("a &").is_err());
    assert!(parse_filter("#").is_err());
    assert!(parse_filter("%nothing").is_err());
}

#[test]
fn parsing_is_deterministic() {
    let text = "!%work (a & #b) [%queue...inf)";
    assert_eq!(parse_filter(text), parse_filter(text));
    assert!(parse_filter(text).is_ok());
    let q = "a => b & c => !d";
    assert_eq!(parse_query(q), parse_query(q));
    assert!(parse_query(q).is_ok());
}

#[test]
fn query_stage_errors() {
    assert!(parse_query("a =>").is_err());
    assert!(parse_query("=> a").is_err());
    assert!(parse_query("a => (b").is_err());
    assert_eq!(
        parse_query("a=>b"),
        Ok(Query::from(Filter::name("a")).and_then(Filter::name("b")))
    );
}
