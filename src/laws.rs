//! General properties of browse results, stated over browse listings: the
//! positions that `BrowseRequest::browse_listing` returns and whose records
//! `BrowseRequest::select` and `BrowseRequest::execute_at` return.
use vstd::prelude::*;
use crate::engine::{is_ascending_listing, is_browse_listing, lemma_listing_unique, records_at};
use crate::model::{has_all_tags, Availability, BrowseRequest, OrderType, TaskDescription};
use crate::ordering::precedes;

verus! {

/// A request with availability `All`, no tags and no pattern lists every
/// record exactly once: the result is the dataset, reordered only.
pub proof fn law_identity(
    req: BrowseRequest,
    data: Seq<TaskDescription>,
    hits: Seq<bool>,
    now: i64,
    s: Seq<usize>,
)
    requires
        req.availability == Availability::All,
        req.tags@.len() == 0,
        req.query_regexp.is_none(),
        is_browse_listing(req, data, hits, now, s),
    ensures
        s.no_duplicates(),
        forall|a: int| 0 <= a < s.len() ==> #[trigger] s[a] < data.len(),
        forall|i: usize| i < data.len() ==> #[trigger] s.contains(i),
{
    let u = if req.order.ascending { s } else { s.reverse() };
    assert forall|i: usize| i < data.len() implies #[trigger] s.contains(i) by {
        assert(u.contains(i));
        let a = choose|a: int| 0 <= a < u.len() && u[a] == i;
        if !req.order.ascending {
            assert(s[s.len() - 1 - a] == i);
        }
    }
    assert forall|a: int| 0 <= a < s.len() implies #[trigger] s[a] < data.len() by {
        if !req.order.ascending {
            assert(s[a] == u[s.len() - 1 - a]);
        }
    }
    assert forall|a: int, b: int| 0 <= a < s.len() && 0 <= b < s.len() && a != b implies s[a]
        != s[b] by {
        if req.order.ascending {
            if a < b {
                assert(precedes(req.order.order, data, u[a], u[b]));
            } else {
                assert(precedes(req.order.order, data, u[b], u[a]));
            }
        } else {
            let a2 = s.len() - 1 - a;
            let b2 = s.len() - 1 - b;
            assert(s[a] == u[a2] && s[b] == u[b2]);
            if a2 < b2 {
                assert(precedes(req.order.order, data, u[a2], u[b2]));
            } else {
                assert(precedes(req.order.order, data, u[b2], u[a2]));
            }
        }
    }
}

/// Evaluating one request twice over one dataset, with one "now", gives the
/// same ordered records.
pub proof fn law_deterministic(
    req: BrowseRequest,
    data: Seq<TaskDescription>,
    hits: Seq<bool>,
    now: i64,
    s1: Seq<usize>,
    s2: Seq<usize>,
)
    requires
        is_browse_listing(req, data, hits, now, s1),
        is_browse_listing(req, data, hits, now, s2),
    ensures
        s1 == s2,
        records_at(data, s1) == records_at(data, s2),
{
    lemma_listing_unique(req, data, hits, now, s1, s2);
}

/// A listed record carries every requested tag; with no other filter, a
/// record is listed exactly when its tags include all requested tags, so a
/// record that lacks one of them is not listed.
pub proof fn law_tags_superset(
    req: BrowseRequest,
    data: Seq<TaskDescription>,
    hits: Seq<bool>,
    now: i64,
    s: Seq<usize>,
    i: usize,
)
    requires
        is_browse_listing(req, data, hits, now, s),
        i < data.len(),
    ensures
        s.contains(i) ==> has_all_tags(req.tags@, data[i as int]),
        req.availability == Availability::All && req.query_regexp.is_none() ==> (s.contains(i)
            <==> has_all_tags(req.tags@, data[i as int])),
{
    let u = if req.order.ascending { s } else { s.reverse() };
    if s.contains(i) {
        let a = choose|a: int| 0 <= a < s.len() && s[a] == i;
        if !req.order.ascending {
            assert(u[s.len() - 1 - a] == i);
        }
        assert(u.contains(i));
    }
    if u.contains(i) {
        let a = choose|a: int| 0 <= a < u.len() && u[a] == i;
        if !req.order.ascending {
            assert(s[s.len() - 1 - a] == i);
        }
        assert(s.contains(i));
    }
}

/// Ordered by `Due` ascending, records without a due instant come after all
/// records with one, and among them the earlier `captured` comes first.
pub proof fn law_absent_due_last(
    req: BrowseRequest,
    data: Seq<TaskDescription>,
    hits: Seq<bool>,
    now: i64,
    s: Seq<usize>,
)
    requires
        req.order.order == OrderType::Due,
        req.order.ascending,
        is_browse_listing(req, data, hits, now, s),
    ensures
        forall|a: int, b: int|
            0 <= a < b < s.len() && (#[trigger] data[s[a] as int]).due.is_none() ==> (
            #[trigger] data[s[b] as int]).due.is_none(),
        forall|a: int, b: int|
            0 <= a < b < s.len() && (#[trigger] data[s[a] as int]).due.is_none() && (
            #[trigger] data[s[b] as int]).due.is_none() ==> data[s[a] as int].captured
                <= data[s[b] as int].captured,
{
    assert forall|a: int, b: int|
        0 <= a < b < s.len() && (#[trigger] data[s[a] as int]).due.is_none() implies (
    #[trigger] data[s[b] as int]).due.is_none() by {
        assert(precedes(req.order.order, data, s[a], s[b]));
    }
    assert forall|a: int, b: int|
        0 <= a < b < s.len() && (#[trigger] data[s[a] as int]).due.is_none() && (
        #[trigger] data[s[b] as int]).due.is_none() implies data[s[a] as int].captured
        <= data[s[b] as int].captured by {
        assert(precedes(req.order.order, data, s[a], s[b]));
    }
}

/// For requests that differ only in direction, the descending listing is the
/// exact reverse of the ascending one, ties included.
pub proof fn law_reverse(
    up: BrowseRequest,
    down: BrowseRequest,
    data: Seq<TaskDescription>,
    hits: Seq<bool>,
    now: i64,
    s_up: Seq<usize>,
    s_down: Seq<usize>,
)
    requires
        up.order.ascending,
        !down.order.ascending,
        up.order.order == down.order.order,
        up.availability == down.availability,
        up.tags@ == down.tags@,
        up.query_regexp == down.query_regexp,
        is_browse_listing(up, data, hits, now, s_up),
        is_browse_listing(down, data, hits, now, s_down),
    ensures
        s_down == s_up.reverse(),
        records_at(data, s_down) == records_at(data, s_up).reverse(),
{
    assert(is_ascending_listing(up, data, hits, now, s_down.reverse()));
    lemma_listing_unique(up, data, hits, now, s_up, s_down.reverse());
    assert(s_down =~= s_down.reverse().reverse());
    assert(records_at(data, s_down) =~= records_at(data, s_up).reverse());
}

/// `Available` lists no completed record and no record whose start is not
/// before the evaluation instant.
pub proof fn law_available_excludes(
    req: BrowseRequest,
    data: Seq<TaskDescription>,
    hits: Seq<bool>,
    now: i64,
    s: Seq<usize>,
    i: usize,
)
    requires
        req.availability == Availability::Available,
        is_browse_listing(req, data, hits, now, s),
        i < data.len(),
        s.contains(i),
    ensures
        !data[i as int].completed,
        data[i as int].start matches Some(t) ==> t < now,
{
    let u = if req.order.ascending { s } else { s.reverse() };
    let a = choose|a: int| 0 <= a < s.len() && s[a] == i;
    if !req.order.ascending {
        assert(u[s.len() - 1 - a] == i);
    }
    assert(u.contains(i));
}

} // verus!
