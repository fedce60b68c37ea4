//! The in-memory filter and sort engine, and the pattern filter that the
//! store path applies to the rows the store returns.
use vstd::prelude::*;
use crate::external::{compile_pattern, matcher_finds, now_millis, pattern_compiles, pattern_finds};
use crate::model::{
    available_under, has_all_tags, tag_texts, Availability, BrowseRequest, TaskDescription,
};
use crate::ordering::{insert_ordered, lemma_ordered_unique, strictly_ordered};

verus! {

/// Why a browse call failed.
#[derive(Clone, Debug, PartialEq, Eq)]
pub enum BrowseError {
    /// The request's pattern does not compile.
    InvalidPattern,
    /// The backing store failed; its message is passed on verbatim.
    StoreFailure(String),
}

/// The request admits a record at instant `now`, where `hit` says whether
/// the request's pattern (if it has one) matches the record's content.
pub open spec fn admits(req: BrowseRequest, t: TaskDescription, hit: bool, now: i64) -> bool {
    &&& has_all_tags(req.tags@, t)
    &&& (req.query_regexp.is_some() ==> hit)
    &&& available_under(req.availability, t, now)
}

/// `s` lists, in strictly ascending order, exactly the positions of `data`
/// whose records the request admits.
pub open spec fn is_ascending_listing(
    req: BrowseRequest,
    data: Seq<TaskDescription>,
    hits: Seq<bool>,
    now: i64,
    s: Seq<usize>,
) -> bool {
    &&& forall|a: int| 0 <= a < s.len() ==> #[trigger] s[a] < data.len()
    &&& forall|i: usize|
        i < data.len() ==> (#[trigger] s.contains(i) <==> admits(
            req,
            data[i as int],
            hits[i as int],
            now,
        ))
    &&& strictly_ordered(req.order.order, data, s)
}

/// `s` is the browse listing: the ascending listing, reversed as a whole
/// when the request asks for descending order.
pub open spec fn is_browse_listing(
    req: BrowseRequest,
    data: Seq<TaskDescription>,
    hits: Seq<bool>,
    now: i64,
    s: Seq<usize>,
) -> bool {
    if req.order.ascending {
        is_ascending_listing(req, data, hits, now, s)
    } else {
        is_ascending_listing(req, data, hits, now, s.reverse())
    }
}

/// The positions of the browse result (there is exactly one listing that
/// meets `is_browse_listing`).
pub open spec fn browse_positions(
    req: BrowseRequest,
    data: Seq<TaskDescription>,
    hits: Seq<bool>,
    now: i64,
) -> Seq<usize> {
    choose|s: Seq<usize>| is_browse_listing(req, data, hits, now, s)
}

/// The records at the listed positions.
pub open spec fn records_at(data: Seq<TaskDescription>, s: Seq<usize>) -> Seq<TaskDescription> {
    s.map_values(|i: usize| data[i as int])
}

/// What a request's pattern says of each record: whether it matches the
/// content, or true for every record when there is no pattern.
pub open spec fn pattern_hits(req: BrowseRequest, data: Seq<TaskDescription>) -> Seq<bool> {
    Seq::new(
        data.len(),
        |i: int|
            match req.query_regexp {
                Some(p) => pattern_finds(p@, data[i].content@),
                None => true,
            },
    )
}

/// The request's pattern, if any, compiles.
pub open spec fn pattern_ok(req: BrowseRequest) -> bool {
    match req.query_regexp {
        Some(p) => pattern_compiles(p@),
        None => true,
    }
}

/// Whether `tag` is one of `tags` (exact text equality).
fn contains_tag(tags: &Vec<String>, tag: &String) -> (r: bool)
    ensures
        r == tag_texts(tags@).contains(tag@),
{
    let mut i: usize = 0;
    while i < tags.len()
        invariant
            i <= tags@.len(),
            forall|a: int| 0 <= a < i ==> tags@[a]@ != tag@,
        decreases tags@.len() - i,
    {
        if tags[i] == *tag {
            assert(tag_texts(tags@)[i as int] == tag@);
            return true;
        }
        i = i + 1;
    }
    assert forall|a: int| 0 <= a < tag_texts(tags@).len() implies tag_texts(tags@)[a] != tag@ by {
        assert(tags@[a]@ != tag@);
    }
    false
}

impl BrowseRequest {
    /// The record carries every tag of the request.
    pub fn tags_match(&self, t: &TaskDescription) -> (r: bool)
        ensures
            r == has_all_tags(self.tags@, *t),
    {
        let mut i: usize = 0;
        while i < self.tags.len()
            invariant
                i <= self.tags@.len(),
                forall|a: int| 0 <= a < i ==> tag_texts(t.tags@).contains(#[trigger] self.tags@[a]@),
            decreases self.tags@.len() - i,
        {
            if !contains_tag(&t.tags, &self.tags[i]) {
                return false;
            }
            i = i + 1;
        }
        true
    }

    /// The request's availability class admits the record at instant `now`.
    pub fn availability_match(&self, t: &TaskDescription, now: i64) -> (r: bool)
        ensures
            r == available_under(self.availability, *t, now),
    {
        match self.availability {
            Availability::All => true,
            Availability::Incomplete => !t.completed,
            Availability::Available => !t.completed && match t.start {
                None => true,
                Some(s) => s < now,
            },
            Availability::Done => t.completed,
        }
    }
}

/// Two browse listings of one request over one dataset are the same listing.
pub proof fn lemma_listing_unique(
    req: BrowseRequest,
    data: Seq<TaskDescription>,
    hits: Seq<bool>,
    now: i64,
    s1: Seq<usize>,
    s2: Seq<usize>,
)
    requires
        is_browse_listing(req, data, hits, now, s1),
        is_browse_listing(req, data, hits, now, s2),
    ensures
        s1 == s2,
{
    let u1 = if req.order.ascending { s1 } else { s1.reverse() };
    let u2 = if req.order.ascending { s2 } else { s2.reverse() };
    assert forall|x: usize| u1.contains(x) <==> u2.contains(x) by {
        if u1.contains(x) {
            let a = choose|a: int| 0 <= a < u1.len() && u1[a] == x;
            assert(u1[a] < data.len());
        }
        if u2.contains(x) {
            let a = choose|a: int| 0 <= a < u2.len() && u2[a] == x;
            assert(u2[a] < data.len());
        }
    }
    lemma_ordered_unique(req.order.order, data, u1, u2);
    if !req.order.ascending {
        assert(s1.reverse().reverse() =~= s1);
        assert(s2.reverse().reverse() =~= s2);
    }
}

/// The listing in reverse order.
fn reversed(s: Vec<usize>) -> (r: Vec<usize>)
    ensures
        r@ == s@.reverse(),
{
    let n = s.len();
    let mut r: Vec<usize> = Vec::new();
    let mut i: usize = 0;
    while i < n
        invariant
            n == s@.len(),
            i <= n,
            r@.len() == i,
            forall|a: int| 0 <= a < i ==> r@[a] == s@[n - 1 - a],
        decreases n - i,
    {
        r.push(s[n - 1 - i]);
        i = i + 1;
    }
    assert(r@ =~= s@.reverse());
    r
}

impl BrowseRequest {
    /// The positions of `data` that the request admits, in browse order;
    /// `hits[i]` says whether the request's pattern matches record `i`.
    pub fn browse_listing(&self, data: &[TaskDescription], hits: &[bool], now: i64) -> (r: Vec<
        usize,
    >)
        requires
            hits@.len() == data@.len(),
        ensures
            is_browse_listing(*self, data@, hits@, now, r@),
            forall|a: int| 0 <= a < r@.len() ==> #[trigger] r@[a] < data@.len(),
    {
        let mut s: Vec<usize> = Vec::new();
        let mut i: usize = 0;
        while i < data.len()
            invariant
                i <= data@.len(),
                hits@.len() == data@.len(),
                forall|a: int| 0 <= a < s@.len() ==> #[trigger] s@[a] < i,
                forall|z: usize|
                    #[trigger] s@.contains(z) <==> (z < i && admits(
                        *self,
                        data@[z as int],
                        hits@[z as int],
                        now,
                    )),
                strictly_ordered(self.order.order, data@, s@),
            decreases data@.len() - i,
        {
            let keep = self.tags_match(&data[i]) && (self.query_regexp.is_none() || hits[i])
                && self.availability_match(&data[i], now);
            if keep {
                insert_ordered(self.order.order, data, &mut s, i);
            }
            i = i + 1;
        }
        assert(is_ascending_listing(*self, data@, hits@, now, s@));
        if self.order.ascending {
            s
        } else {
            let r = reversed(s);
            assert(r@.reverse() =~= s@);
            assert forall|a: int| 0 <= a < r@.len() implies #[trigger] r@[a] < data@.len() by {
                assert(r@[a] == s@[s@.len() - 1 - a]);
            }
            r
        }
    }

    /// The records of `data` that the request admits, in browse order;
    /// `hits[i]` says whether the request's pattern matches record `i`.
    pub fn select<'a>(&self, data: &'a [TaskDescription], hits: &[bool], now: i64) -> (r: Vec<
        &'a TaskDescription,
    >)
        requires
            hits@.len() == data@.len(),
        ensures
            is_browse_listing(*self, data@, hits@, now, browse_positions(*self, data@, hits@, now)),
            r@.map_values(|t: &TaskDescription| *t) == records_at(
                data@,
                browse_positions(*self, data@, hits@, now),
            ),
    {
        let s = self.browse_listing(data, hits, now);
        proof {
            lemma_listing_unique(*self, data@, hits@, now, s@, browse_positions(*self, data@, hits@, now));
        }
        let mut r: Vec<&'a TaskDescription> = Vec::new();
        let mut k: usize = 0;
        while k < s.len()
            invariant
                k <= s@.len(),
                is_browse_listing(*self, data@, hits@, now, s@),
                forall|a: int| 0 <= a < s@.len() ==> #[trigger] s@[a] < data@.len(),
                r@.len() == k,
                forall|a: int| 0 <= a < k ==> *r@[a] == data@[s@[a] as int],
            decreases s@.len() - k,
        {
            r.push(&data[s[k]]);
            k = k + 1;
        }
        assert(r@.map_values(|t: &TaskDescription| *t) =~= records_at(data@, s@));
        r
    }
}

/// The rows whose mark is set, in their order.
pub open spec fn kept(rows: Seq<TaskDescription>, marks: Seq<bool>) -> Seq<TaskDescription>
    decreases rows.len(),
{
    if rows.len() == 0 {
        Seq::empty()
    } else {
        let rest = kept(rows.drop_first(), marks.drop_first());
        if marks[0] {
            seq![rows[0]] + rest
        } else {
            rest
        }
    }
}

/// Keeps the rows whose mark is set, without reordering them.
pub fn keep_marked(rows: Vec<TaskDescription>, marks: &[bool]) -> (r: Vec<TaskDescription>)
    requires
        marks@.len() == rows@.len(),
    ensures
        r@ == kept(rows@, marks@),
{
    let ghost orig = rows@;
    let ghost n = orig.len() as int;
    let mut rows = rows;
    let mut i: usize = rows.len();
    assert(orig.subrange(n, n) =~= Seq::<TaskDescription>::empty());
    assert(rows@ =~= orig.subrange(0, n) + kept(orig.subrange(n, n), marks@.subrange(n, n)));
    while i > 0
        invariant
            i <= n,
            n == orig.len(),
            marks@.len() == n,
            rows@ == orig.subrange(0, i as int) + kept(
                orig.subrange(i as int, n),
                marks@.subrange(i as int, n),
            ),
        decreases i,
    {
        let ghost rest = kept(orig.subrange(i as int, n), marks@.subrange(i as int, n));
        i = i - 1;
        assert(orig.subrange(i as int, n).drop_first() =~= orig.subrange(i + 1, n));
        assert(marks@.subrange(i as int, n).drop_first() =~= marks@.subrange(i + 1, n));
        assert(orig.subrange(i as int, n)[0] == orig[i as int]);
        assert(marks@.subrange(i as int, n)[0] == marks@[i as int]);
        if marks[i] {
            assert(rows@ =~= orig.subrange(0, i as int) + (seq![orig[i as int]] + rest));
        } else {
            assert(rows@[i as int] == orig[i as int]);
            rows.remove(i);
            assert(rows@ =~= orig.subrange(0, i as int) + rest);
        }
    }
    assert(orig.subrange(0, 0) =~= Seq::<TaskDescription>::empty());
    assert(marks@.subrange(0, n) =~= marks@);
    assert(orig.subrange(0, n) =~= orig);
    rows
}

impl BrowseRequest {
    /// Whether the request's pattern matches each record's content (true for
    /// every record when the request has no pattern); fails when the pattern
    /// does not compile.
    pub fn pattern_matches(&self, data: &[TaskDescription]) -> (r: Result<Vec<bool>, BrowseError>)
        ensures
            r.is_ok() == pattern_ok(*self),
            r matches Err(e) ==> e == BrowseError::InvalidPattern,
            r matches Ok(h) ==> h@ == pattern_hits(*self, data@),
    {
        let mut hits: Vec<bool> = Vec::new();
        match &self.query_regexp {
            None => {
                let mut i: usize = 0;
                while i < data.len()
                    invariant
                        i <= data@.len(),
                        self.query_regexp.is_none(),
                        hits@ == pattern_hits(*self, data@).subrange(0, i as int),
                    decreases data@.len() - i,
                {
                    hits.push(true);
                    i = i + 1;
                    assert(hits@ =~= pattern_hits(*self, data@).subrange(0, i as int));
                }
            },
            Some(p) => {
                let m = match compile_pattern(p.as_str()) {
                    Ok(m) => m,
                    Err(_) => {
                        return Err(BrowseError::InvalidPattern);
                    },
                };
                let mut i: usize = 0;
                while i < data.len()
                    invariant
                        i <= data@.len(),
                        self.query_regexp == Some(*p),
                        m@ == p@,
                        hits@ == pattern_hits(*self, data@).subrange(0, i as int),
                    decreases data@.len() - i,
                {
                    hits.push(matcher_finds(&m, data[i].content.as_str()));
                    i = i + 1;
                    assert(hits@ =~= pattern_hits(*self, data@).subrange(0, i as int));
                }
            },
        }
        assert(hits@ =~= pattern_hits(*self, data@));
        Ok(hits)
    }

    /// The records of `data` that the request admits at instant `now`, in
    /// browse order; fails when the request's pattern does not compile.
    pub fn execute_at<'a>(&self, data: &'a [TaskDescription], now: i64) -> (r: Result<
        Vec<&'a TaskDescription>,
        BrowseError,
    >)
        ensures
            r.is_ok() == pattern_ok(*self),
            r matches Err(e) ==> e == BrowseError::InvalidPattern,
            r matches Ok(v) ==> is_browse_listing(
                *self,
                data@,
                pattern_hits(*self, data@),
                now,
                browse_positions(*self, data@, pattern_hits(*self, data@), now),
            ) && v@.map_values(|t: &TaskDescription| *t) == records_at(
                data@,
                browse_positions(*self, data@, pattern_hits(*self, data@), now),
            ),
    {
        let hits = match self.pattern_matches(data) {
            Ok(h) => h,
            Err(e) => {
                return Err(e);
            },
        };
        Ok(self.select(data, hits.as_slice(), now))
    }

    /// The records of `data` that the request admits, in browse order, with
    /// "now" read once from the clock; fails when the request's pattern does
    /// not compile.
    pub fn execute<'a>(&self, data: &'a [TaskDescription]) -> (r: Result<
        Vec<&'a TaskDescription>,
        BrowseError,
    >)
        ensures
            r.is_ok() == pattern_ok(*self),
            r matches Err(e) ==> e == BrowseError::InvalidPattern,
            r matches Ok(v) ==> exists|now: i64|
                is_browse_listing(
                    *self,
                    data@,
                    pattern_hits(*self, data@),
                    now,
                    browse_positions(*self, data@, pattern_hits(*self, data@), now),
                ) && v@.map_values(|t: &TaskDescription| *t) == records_at(
                    data@,
                    browse_positions(*self, data@, pattern_hits(*self, data@), now),
                ),
    {
        let now = now_millis();
        self.execute_at(data, now)
    }

    /// The store path's last step: keeps the rows that the store returned
    /// whose content the request's pattern matches, in the store's order;
    /// fails when the pattern does not compile.
    pub fn retain_pattern_matches(&self, rows: Vec<TaskDescription>) -> (r: Result<
        Vec<TaskDescription>,
        BrowseError,
    >)
        ensures
            r.is_ok() == pattern_ok(*self),
            r matches Err(e) ==> e == BrowseError::InvalidPattern,
            r matches Ok(v) ==> v@ == kept(rows@, pattern_hits(*self, rows@)),
    {
        let hits = match self.pattern_matches(rows.as_slice()) {
            Ok(h) => h,
            Err(e) => {
                return Err(e);
            },
        };
        Ok(keep_marked(rows, hits.as_slice()))
    }
}

} // verus!
