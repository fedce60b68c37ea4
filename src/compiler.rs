//! The query compiler: a browse request as a parameterized selection
//! statement and the values to bind to its placeholders, in order.
use vstd::prelude::*;
use crate::external::now_millis;
use crate::model::{Availability, BrowseRequest, OrderRequest, OrderType};

verus! {

/// One value bound to a placeholder of a compiled query.
#[derive(Clone, Debug)]
pub enum BindValue {
    /// An instant, in milliseconds since the epoch.
    Instant(i64),
    /// A text value.
    Text(String),
}

/// A selection statement with positional placeholders, and the values to
/// bind to them in order.
#[derive(Clone, Debug)]
pub struct CompiledQuery {
    pub sql: String,
    pub binds: Vec<BindValue>,
}

/// The availability predicate.
pub open spec fn availability_clause(a: Availability) -> Seq<char> {
    match a {
        Availability::Incomplete => "completed == 0"@,
        Availability::Available => "completed == 0 AND (start IS NULL OR start < ?)"@,
        Availability::Done => "completed == 1"@,
        Availability::All => "TRUE"@,
    }
}

/// One tag predicate per tag, each with its own placeholder.
pub open spec fn tag_clauses(n: nat) -> Seq<char>
    decreases n,
{
    if n == 0 {
        Seq::empty()
    } else {
        tag_clauses((n - 1) as nat) + " AND tags LIKE ?"@
    }
}

/// The filter part, present only when availability is not `All` or some tag is required.
pub open spec fn filter_clause(req: BrowseRequest) -> Seq<char> {
    if req.availability == Availability::All && req.tags@.len() == 0 {
        Seq::empty()
    } else {
        " WHERE "@ + availability_clause(req.availability) + tag_clauses(req.tags@.len())
    }
}

/// The column an order key sorts by.
pub open spec fn column_name(k: OrderType) -> Seq<char> {
    match k {
        OrderType::Captured => "captured"@,
        OrderType::Start => "start"@,
        OrderType::Due => "due"@,
        OrderType::Scheduled => "schedule"@,
    }
}

/// The direction keyword.
pub open spec fn direction(ascending: bool) -> Seq<char> {
    if ascending {
        "ASC"@
    } else {
        "DESC"@
    }
}

/// The ordering part: the key's column, then `captured` in the same
/// direction unless the key is `captured` itself.
pub open spec fn order_clause(o: OrderRequest) -> Seq<char> {
    " ORDER BY "@ + column_name(o.order) + " "@ + direction(o.ascending) + if o.order
        == OrderType::Captured {
        Seq::empty()
    } else {
        ", captured "@ + direction(o.ascending)
    }
}

/// The full query text of a request.
pub open spec fn query_text(req: BrowseRequest) -> Seq<char> {
    "SELECT * FROM tasks"@ + filter_clause(req) + order_clause(req.order)
}

/// The pattern bound for a tag: the tag wrapped in wildcards.
pub open spec fn tag_pattern(tag: Seq<char>) -> Seq<char> {
    "%"@ + tag + "%"@
}

/// Number of bind values that come before the tag patterns.
pub open spec fn instant_binds(req: BrowseRequest) -> int {
    if req.availability == Availability::Available {
        1
    } else {
        0
    }
}

/// `binds` are the request's bind values at instant `now`: `now` when the
/// availability is `Available`, then one pattern per tag in request order.
pub open spec fn binds_of(req: BrowseRequest, now: i64, binds: Seq<BindValue>) -> bool {
    let off = instant_binds(req);
    &&& binds.len() == off + req.tags@.len()
    &&& req.availability == Availability::Available ==> binds[0] == BindValue::Instant(now)
    &&& forall|k: int|
        0 <= k < req.tags@.len() ==> match #[trigger] binds[off + k] {
            BindValue::Text(s) => s@ == tag_pattern(req.tags@[k]@),
            BindValue::Instant(_) => false,
        }
}

fn direction_text(ascending: bool) -> (r: &'static str)
    ensures
        r@ == direction(ascending),
{
    if ascending {
        "ASC"
    } else {
        "DESC"
    }
}

fn column_text(k: OrderType) -> (r: &'static str)
    ensures
        r@ == column_name(k),
{
    match k {
        OrderType::Captured => "captured",
        OrderType::Start => "start",
        OrderType::Due => "due",
        OrderType::Scheduled => "schedule",
    }
}

fn availability_text(a: Availability) -> (r: &'static str)
    ensures
        r@ == availability_clause(a),
{
    match a {
        Availability::Incomplete => "completed == 0",
        Availability::Available => "completed == 0 AND (start IS NULL OR start < ?)",
        Availability::Done => "completed == 1",
        Availability::All => "TRUE",
    }
}

impl BrowseRequest {
    /// Compiles the request with "now" fixed at the given instant.
    pub fn search_query_at(&self, now: i64) -> (r: CompiledQuery)
        ensures
            r.sql@ == query_text(*self),
            binds_of(*self, now, r.binds@),
    {
        let mut sql = String::from_str("SELECT * FROM tasks");
        let mut binds: Vec<BindValue> = Vec::new();
        let ghost base = sql@;
        if self.availability != Availability::All || self.tags.len() != 0 {
            sql.append(" WHERE ");
            sql.append(availability_text(self.availability));
            if self.availability == Availability::Available {
                binds.push(BindValue::Instant(now));
            }
            let ghost head = sql@;
            let mut i: usize = 0;
            while i < self.tags.len()
                invariant
                    i <= self.tags@.len(),
                    sql@ == head + tag_clauses(i as nat),
                    binds@.len() == instant_binds(*self) + i,
                    self.availability == Availability::Available ==> binds@[0] == BindValue::Instant(now),
                    forall|k: int|
                        0 <= k < i ==> match #[trigger] binds@[instant_binds(*self) + k] {
                            BindValue::Text(s) => s@ == tag_pattern(self.tags@[k]@),
                            BindValue::Instant(_) => false,
                        },
                decreases self.tags@.len() - i,
            {
                sql.append(" AND tags LIKE ?");
                let mut pattern = String::from_str("%");
                pattern.append(self.tags[i].as_str());
                pattern.append("%");
                binds.push(BindValue::Text(pattern));
                i = i + 1;
                assert(sql@ =~= head + tag_clauses(i as nat));
            }
            assert(sql@ =~= base + filter_clause(*self));
        } else {
            assert(sql@ =~= base + filter_clause(*self));
        }
        let dir = direction_text(self.order.ascending);
        sql.append(" ORDER BY ");
        sql.append(column_text(self.order.order));
        sql.append(" ");
        sql.append(dir);
        if self.order.order != OrderType::Captured {
            sql.append(", captured ");
            sql.append(dir);
        }
        assert(sql@ =~= query_text(*self));
        CompiledQuery { sql, binds }
    }

    /// Compiles the request, reading "now" once from the clock.
    pub fn search_query(&self) -> (r: CompiledQuery)
        ensures
            r.sql@ == query_text(*self),
            exists|now: i64| binds_of(*self, now, r.binds@),
    {
        let now = now_millis();
        self.search_query_at(now)
    }
}

} // verus!
