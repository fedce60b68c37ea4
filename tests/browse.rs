use browse_query::engine::BrowseError;
use browse_query::{Availability, BrowseRequest, OrderRequest, OrderType, TaskDescription};

fn task(content: &str, captured: i64) -> TaskDescription {
    TaskDescription {
        content: content.to_string(),
        tags: Vec::new(),
        completed: false,
        captured,
        start: None,
        due: None,
        schedule: None,
    }
}

fn tagged(content: &str, captured: i64, tags: &[&str]) -> TaskDescription {
    let mut t = task(content, captured);
    t.tags = tags.iter().map(|s| s.to_string()).collect();
    t
}

fn request(availability: Availability, order: OrderType, ascending: bool) -> BrowseRequest {
    BrowseRequest {
        availability,
        order: OrderRequest { order, ascending },
        tags: Vec::new(),
        query_regexp: None,
        query_text: None,
    }
}

fn contents(v: &[&TaskDescription]) -> Vec<String> {
    v.iter().map(|t| t.content.clone()).collect()
}

#[test]
fn defaults_match_the_request_model() {
    let r = BrowseRequest::default();
    assert_eq!(r.availability, Availability::Incomplete);
    assert_eq!(r.order.order, OrderType::Captured);
    assert!(!r.order.ascending);
    assert!(r.tags.is_empty());
    assert!(r.query_regexp.is_none());
    assert!(r.query_text.is_none());
}

#[test]
fn due_ascending_puts_absent_due_last() {
    let mut a = task("A", 1);
    a.due = None;
    let mut b = task("B", 2);
    b.due = Some(5);
    let mut c = task("C", 3);
    c.due = Some(4);
    let data = vec![a, b, c];
    let mut req = BrowseRequest::default();
    req.order = OrderRequest { order: OrderType::Due, ascending: true };
    let r = req.execute(&data).unwrap();
    assert_eq!(contents(&r), vec!["C", "B", "A"]);
}

#[test]
fn tags_are_required_together() {
    let data = vec![
        tagged("one", 1, &["work"]),
        tagged("two", 2, &["work", "urgent"]),
        tagged("three", 3, &["urgent"]),
    ];
    let mut req = request(Availability::All, OrderType::Captured, true);
    req.tags = vec!["work".to_string(), "urgent".to_string()];
    let r = req.execute(&data).unwrap();
    assert_eq!(contents(&r), vec!["two"]);
}

#[test]
fn invalid_pattern_fails_the_call() {
    let data = vec![task("a", 1)];
    let mut req = request(Availability::All, OrderType::Captured, true);
    req.query_regexp = Some("(".to_string());
    assert!(matches!(req.execute(&data), Err(BrowseError::InvalidPattern)));
    assert!(matches!(req.execute_at(&data, 0), Err(BrowseError::InvalidPattern)));
    assert!(matches!(req.retain_pattern_matches(data.clone()), Err(BrowseError::InvalidPattern)));
}

#[test]
fn identity_request_returns_every_record() {
    let mut done = task("done", 2);
    done.completed = true;
    let data = vec![task("late", 3), done, task("early", 1)];
    let req = request(Availability::All, OrderType::Captured, true);
    let r = req.execute(&data).unwrap();
    assert_eq!(contents(&r), vec!["early", "done", "late"]);
}

#[test]
fn repeated_runs_give_identical_output() {
    let mut x = task("x", 5);
    x.start = Some(7);
    let mut y = task("y", 4);
    y.start = Some(7);
    let data = vec![x, y, task("z", 1), task("w", 1)];
    let req = request(Availability::All, OrderType::Start, false);
    let first = contents(&req.execute_at(&data, 100).unwrap());
    let second = contents(&req.execute_at(&data, 100).unwrap());
    assert_eq!(first, second);
}

#[test]
fn removing_a_required_tag_removes_the_record() {
    let mut data = vec![tagged("a", 1, &["home", "work"]), tagged("b", 2, &["work"])];
    let mut req = request(Availability::All, OrderType::Captured, true);
    req.tags = vec!["work".to_string()];
    assert_eq!(contents(&req.execute(&data).unwrap()), vec!["a", "b"]);
    data[0].tags = vec!["home".to_string()];
    assert_eq!(contents(&req.execute(&data).unwrap()), vec!["b"]);
}

#[test]
fn tag_match_is_exact_not_substring() {
    let data = vec![tagged("a", 1, &["homework"]), tagged("b", 2, &["work"])];
    let mut req = request(Availability::All, OrderType::Captured, true);
    req.tags = vec!["work".to_string()];
    assert_eq!(contents(&req.execute(&data).unwrap()), vec!["b"]);
}

#[test]
fn two_absent_due_records_order_by_captured() {
    let mut d = task("dated", 9);
    d.due = Some(50);
    let data = vec![task("later", 8), d, task("sooner", 2)];
    let req = request(Availability::All, OrderType::Due, true);
    assert_eq!(contents(&req.execute(&data).unwrap()), vec!["dated", "sooner", "later"]);
}

#[test]
fn descending_is_the_reverse_of_ascending() {
    let mut p = task("p", 3);
    p.schedule = Some(10);
    let mut q = task("q", 1);
    q.schedule = Some(10);
    let mut r = task("r", 2);
    r.schedule = Some(5);
    let data = vec![p, q, r, task("s", 7), task("t", 6)];
    let up = request(Availability::All, OrderType::Scheduled, true);
    let down = request(Availability::All, OrderType::Scheduled, false);
    let asc = contents(&up.execute_at(&data, 0).unwrap());
    let mut desc = contents(&down.execute_at(&data, 0).unwrap());
    assert_eq!(asc, vec!["r", "p", "q", "t", "s"]);
    desc.reverse();
    assert_eq!(asc, desc);
}

#[test]
fn equal_keys_keep_input_order_ascending() {
    let data = vec![task("first", 4), task("second", 4), task("third", 4)];
    let req = request(Availability::All, OrderType::Captured, true);
    assert_eq!(contents(&req.execute(&data).unwrap()), vec!["first", "second", "third"]);
    let back = request(Availability::All, OrderType::Captured, false);
    assert_eq!(contents(&back.execute(&data).unwrap()), vec!["third", "second", "first"]);
}

#[test]
fn available_excludes_completed_and_future_start() {
    let mut done = task("done", 1);
    done.completed = true;
    let mut future = task("future", 2);
    future.start = Some(1_000);
    let mut past = task("past", 3);
    past.start = Some(10);
    let mut at_now = task("at_now", 4);
    at_now.start = Some(500);
    let data = vec![done, future, past, task("open", 5), at_now];
    let req = request(Availability::Available, OrderType::Captured, true);
    assert_eq!(contents(&req.execute_at(&data, 500).unwrap()), vec!["past", "open"]);
}

#[test]
fn available_reads_the_clock() {
    let mut future = task("future", 2);
    future.start = Some(i64::MAX);
    let mut past = task("past", 3);
    past.start = Some(1);
    let data = vec![future, past];
    let req = request(Availability::Available, OrderType::Captured, true);
    assert_eq!(contents(&req.execute(&data).unwrap()), vec!["past"]);
}

#[test]
fn incomplete_and_done_split_the_records() {
    let mut done = task("done", 1);
    done.completed = true;
    let data = vec![done, task("open", 2)];
    let inc = request(Availability::Incomplete, OrderType::Captured, true);
    assert_eq!(contents(&inc.execute(&data).unwrap()), vec!["open"]);
    let fin = request(Availability::Done, OrderType::Captured, true);
    assert_eq!(contents(&fin.execute(&data).unwrap()), vec!["done"]);
}

#[test]
fn pattern_searches_anywhere_in_content() {
    let data = vec![task("buy milk", 1), task("call bob", 2), task("milkshake", 3)];
    let mut req = request(Availability::All, OrderType::Captured, true);
    req.query_regexp = Some("mil+k".to_string());
    assert_eq!(contents(&req.execute(&data).unwrap()), vec!["buy milk", "milkshake"]);
    assert_eq!(req.pattern_matches(&data).unwrap(), vec![true, false, true]);
}

#[test]
fn empty_dataset_is_success() {
    let data: Vec<TaskDescription> = Vec::new();
    let req = BrowseRequest::default();
    assert!(req.execute(&data).unwrap().is_empty());
}

#[test]
fn select_uses_the_given_hits() {
    let data = vec![task("a", 1), task("b", 2), task("c", 3)];
    let mut req = request(Availability::All, OrderType::Captured, false);
    req.query_regexp = Some("anything".to_string());
    let r = req.select(&data, &[true, false, true], 0);
    assert_eq!(contents(&r), vec!["c", "a"]);
    assert_eq!(req.browse_listing(&data, &[true, false, true], 0), vec![2, 0]);
}

#[test]
fn store_rows_keep_their_order_after_pattern_filter() {
    let rows = vec![task("zeta report", 9), task("alpha", 1), task("beta report", 5)];
    let mut req = request(Availability::All, OrderType::Captured, true);
    req.query_regexp = Some("rep.rt".to_string());
    let kept = req.retain_pattern_matches(rows.clone()).unwrap();
    let names: Vec<String> = kept.iter().map(|t| t.content.clone()).collect();
    assert_eq!(names, vec!["zeta report", "beta report"]);
    req.query_regexp = None;
    assert_eq!(req.retain_pattern_matches(rows).unwrap().len(), 3);
}

#[test]
fn keep_marked_drops_unmarked_rows() {
    let rows = vec![task("a", 1), task("b", 2), task("c", 3)];
    let kept = browse_query::engine::keep_marked(rows, &[false, true, true]);
    let names: Vec<String> = kept.iter().map(|t| t.content.clone()).collect();
    assert_eq!(names, vec!["b", "c"]);
}
