//! The request model and the record shape it is evaluated against.
//!
//! Every instant is a count of milliseconds since the Unix epoch.
use vstd::prelude::*;

verus! {

/// Readiness class that a browse request filters on.
#[derive(Clone, Copy, Debug, PartialEq, Eq, Structural)]
pub enum Availability {
    /// No filter.
    All,
    /// Records that are not completed.
    Incomplete,
    /// Records that are not completed and whose start, if any, lies before now.
    Available,
    /// Records that are completed.
    Done,
}

impl Default for Availability {
    fn default() -> (r: Self)
        ensures
            r == Availability::Incomplete,
    {
        Availability::Incomplete
    }
}

/// The key a browse result is ordered by.
#[derive(Clone, Copy, Debug, PartialEq, Eq, Structural)]
pub enum OrderType {
    Due,
    Start,
    Captured,
    Scheduled,
}

impl Default for OrderType {
    fn default() -> (r: Self)
        ensures
            r == OrderType::Captured,
    {
        OrderType::Captured
    }
}

/// An order key together with its direction.
#[derive(Clone, Copy, Debug, PartialEq, Eq, Structural)]
pub struct OrderRequest {
    pub order: OrderType,
    pub ascending: bool,
}

impl Default for OrderRequest {
    fn default() -> (r: Self)
        ensures
            r.order == OrderType::Captured,
            !r.ascending,
    {
        OrderRequest { order: OrderType::Captured, ascending: false }
    }
}

/// The full declarative filter and sort specification of one browse call.
#[derive(Clone, Debug)]
pub struct BrowseRequest {
    pub availability: Availability,
    pub order: OrderRequest,
    /// Tags that a record must all carry.
    pub tags: Vec<String>,
    /// A pattern that must match somewhere in a record's content.
    pub query_regexp: Option<String>,
    /// Free text, carried along but not evaluated.
    pub query_text: Option<String>,
}

impl Default for BrowseRequest {
    fn default() -> (r: Self)
        ensures
            r.availability == Availability::Incomplete,
            r.order.order == OrderType::Captured,
            !r.order.ascending,
            r.tags@.len() == 0,
            r.query_regexp.is_none(),
            r.query_text.is_none(),
    {
        BrowseRequest {
            availability: Availability::Incomplete,
            order: OrderRequest::default(),
            tags: Vec::new(),
            query_regexp: None,
            query_text: None,
        }
    }
}

/// One task record.
#[derive(Clone, Debug)]
pub struct TaskDescription {
    pub content: String,
    pub tags: Vec<String>,
    pub completed: bool,
    /// Creation instant; the fallback key of every time-based order.
    pub captured: i64,
    pub start: Option<i64>,
    pub due: Option<i64>,
    pub schedule: Option<i64>,
}

/// The tag texts of a list of tags.
pub open spec fn tag_texts(tags: Seq<String>) -> Seq<Seq<char>> {
    tags.map_values(|t: String| t@)
}

/// The record carries every tag that the request names (exact membership).
pub open spec fn has_all_tags(req_tags: Seq<String>, t: TaskDescription) -> bool {
    forall|k: int| 0 <= k < req_tags.len() ==> tag_texts(t.tags@).contains(#[trigger] req_tags[k]@)
}

/// The availability class admits the record at instant `now`.
pub open spec fn available_under(a: Availability, t: TaskDescription, now: i64) -> bool {
    match a {
        Availability::All => true,
        Availability::Incomplete => !t.completed,
        Availability::Available => !t.completed && (t.start.is_none() || t.start.unwrap() < now),
        Availability::Done => t.completed,
    }
}

} // verus!
