use browse_query::compiler::BindValue;
use browse_query::{Availability, BrowseRequest, OrderRequest, OrderType};

fn request(availability: Availability, order: OrderType, ascending: bool, tags: &[&str]) -> BrowseRequest {
    BrowseRequest {
        availability,
        order: OrderRequest { order, ascending },
        tags: tags.iter().map(|s| s.to_string()).collect(),
        query_regexp: None,
        query_text: None,
    }
}

fn text(b: &BindValue) -> String {
    match b {
        BindValue::Text(s) => s.clone(),
        BindValue::Instant(_) => panic!("expected a text bind value"),
    }
}

#[test]
fn all_without_tags_has_no_filter() {
    let q = request(Availability::All, OrderType::Captured, true, &[]).search_query_at(0);
    assert_eq!(q.sql, "SELECT * FROM tasks ORDER BY captured ASC");
    assert!(q.binds.is_empty());
}

#[test]
fn incomplete_default_query() {
    let q = BrowseRequest::default().search_query();
    assert_eq!(q.sql, "SELECT * FROM tasks WHERE completed == 0 ORDER BY captured DESC");
    assert!(q.binds.is_empty());
}

#[test]
fn done_with_tags_binds_wrapped_patterns() {
    let q = request(Availability::Done, OrderType::Due, true, &["work", "a'b"]).search_query_at(7);
    assert_eq!(
        q.sql,
        "SELECT * FROM tasks WHERE completed == 1 AND tags LIKE ? AND tags LIKE ? ORDER BY due ASC, captured ASC"
    );
    assert_eq!(q.binds.len(), 2);
    assert_eq!(text(&q.binds[0]), "%work%");
    assert_eq!(text(&q.binds[1]), "%a'b%");
}

#[test]
fn available_binds_now_first() {
    let q = request(Availability::Available, OrderType::Start, false, &["home"]).search_query_at(1234);
    assert_eq!(
        q.sql,
        "SELECT * FROM tasks WHERE completed == 0 AND (start IS NULL OR start < ?) AND tags LIKE ? ORDER BY start DESC, captured DESC"
    );
    assert_eq!(q.binds.len(), 2);
    assert!(matches!(q.binds[0], BindValue::Instant(1234)));
    assert_eq!(text(&q.binds[1]), "%home%");
}

#[test]
fn all_with_tags_uses_constant_true() {
    let q = request(Availability::All, OrderType::Scheduled, false, &["x"]).search_query_at(0);
    assert_eq!(
        q.sql,
        "SELECT * FROM tasks WHERE TRUE AND tags LIKE ? ORDER BY schedule DESC, captured DESC"
    );
    assert_eq!(q.binds.len(), 1);
}

#[test]
fn available_reads_now_once() {
    let q = request(Availability::Available, OrderType::Captured, true, &[]).search_query();
    assert_eq!(q.binds.len(), 1);
    match q.binds[0] {
        BindValue::Instant(t) => assert!(t > 0),
        BindValue::Text(_) => panic!("expected an instant"),
    }
}
