//! The ascending order over records: by an order key, absent values last,
//! with `captured` as the fallback and the position in the input as the final
//! tie-break of a stable sort.
use vstd::prelude::*;
use std::cmp::Ordering;
use crate::model::{BrowseRequest, OrderType, TaskDescription};

verus! {

/// The sign of an integer: -1, 0 or 1.
pub open spec fn sign(d: int) -> int {
    if d < 0 {
        -1
    } else if d == 0 {
        0
    } else {
        1
    }
}

/// An `Ordering` as -1, 0 or 1.
pub open spec fn ordering_value(o: Ordering) -> int {
    match o {
        Ordering::Less => -1,
        Ordering::Equal => 0,
        Ordering::Greater => 1,
    }
}

/// Compares two optional instants: present values by value, a present value
/// before an absent one, and two absent ones by their backup instants.
pub open spec fn compare_optional(ma: Option<i64>, mb: Option<i64>, ba: i64, bb: i64) -> int {
    match (ma, mb) {
        (Some(x), Some(y)) => sign(x - y),
        (None, Some(_)) => 1,
        (Some(_), None) => -1,
        (None, None) => sign(ba - bb),
    }
}

/// The optional instant that an order key reads from a record.
pub open spec fn key_field(k: OrderType, t: TaskDescription) -> Option<i64> {
    match k {
        OrderType::Due => t.due,
        OrderType::Start => t.start,
        OrderType::Scheduled => t.schedule,
        OrderType::Captured => Some(t.captured),
    }
}

/// The ascending comparison of two records under an order key.
pub open spec fn record_cmp(k: OrderType, a: TaskDescription, b: TaskDescription) -> int {
    match k {
        OrderType::Captured => sign(a.captured - b.captured),
        _ => compare_optional(key_field(k, a), key_field(k, b), a.captured, b.captured),
    }
}

/// Position `i` of `data` comes strictly before position `j` in ascending
/// order: by the record comparison, then by position.
pub open spec fn precedes(k: OrderType, data: Seq<TaskDescription>, i: usize, j: usize) -> bool {
    let c = record_cmp(k, data[i as int], data[j as int]);
    c < 0 || (c == 0 && i < j)
}

/// The positions in `s` are listed in strictly ascending order.
pub open spec fn strictly_ordered(k: OrderType, data: Seq<TaskDescription>, s: Seq<usize>) -> bool {
    forall|a: int, b: int|
        0 <= a < b < s.len() ==> precedes(k, data, #[trigger] s[a], #[trigger] s[b])
}

/// `precedes` is asymmetric.
pub proof fn lemma_precedes_asymmetric(k: OrderType, data: Seq<TaskDescription>, i: usize, j: usize)
    requires
        precedes(k, data, i, j),
    ensures
        !precedes(k, data, j, i),
{
}

/// `precedes` is transitive.
pub proof fn lemma_precedes_transitive(
    k: OrderType,
    data: Seq<TaskDescription>,
    i: usize,
    j: usize,
    l: usize,
)
    requires
        precedes(k, data, i, j),
        precedes(k, data, j, l),
    ensures
        precedes(k, data, i, l),
{
}

/// Two strictly ordered listings of the same positions are the same listing.
pub proof fn lemma_ordered_unique(
    k: OrderType,
    data: Seq<TaskDescription>,
    s1: Seq<usize>,
    s2: Seq<usize>,
)
    requires
        strictly_ordered(k, data, s1),
        strictly_ordered(k, data, s2),
        forall|x: usize| s1.contains(x) <==> s2.contains(x),
    ensures
        s1 == s2,
    decreases s1.len(),
{
    if s1.len() == 0 {
        if s2.len() > 0 {
            assert(s2.contains(s2[0]));
        }
        assert(s1 =~= s2);
    } else {
        assert(s1.contains(s1[0]));
        let x = s1[0];
        let y = s2[0];
        if x != y {
            assert(s2.contains(y));
            let a = choose|a: int| 0 <= a < s1.len() && s1[a] == y;
            let b = choose|b: int| 0 <= b < s2.len() && s2[b] == x;
            assert(precedes(k, data, x, y));
            assert(precedes(k, data, y, x));
            lemma_precedes_asymmetric(k, data, x, y);
        }
        let t1 = s1.drop_first();
        let t2 = s2.drop_first();
        assert forall|z: usize| t1.contains(z) <==> t2.contains(z) by {
            if t1.contains(z) {
                let a = choose|a: int| 0 <= a < t1.len() && t1[a] == z;
                assert(s1[a + 1] == z);
                assert(s2.contains(z));
                let b = choose|b: int| 0 <= b < s2.len() && s2[b] == z;
                assert(b != 0);
                assert(t2[b - 1] == z);
            }
            if t2.contains(z) {
                let b = choose|b: int| 0 <= b < t2.len() && t2[b] == z;
                assert(s2[b + 1] == z);
                assert(s1.contains(z));
                let a = choose|a: int| 0 <= a < s1.len() && s1[a] == z;
                assert(a != 0);
                assert(t1[a - 1] == z);
            }
        }
        assert(strictly_ordered(k, data, t1)) by {
            assert forall|a: int, b: int| 0 <= a < b < t1.len() implies precedes(
                k,
                data,
                #[trigger] t1[a],
                #[trigger] t1[b],
            ) by {
                assert(t1[a] == s1[a + 1] && t1[b] == s1[b + 1]);
            }
        }
        assert(strictly_ordered(k, data, t2)) by {
            assert forall|a: int, b: int| 0 <= a < b < t2.len() implies precedes(
                k,
                data,
                #[trigger] t2[a],
                #[trigger] t2[b],
            ) by {
                assert(t2[a] == s2[a + 1] && t2[b] == s2[b + 1]);
            }
        }
        lemma_ordered_unique(k, data, t1, t2);
        assert(s1 =~= seq![x] + t1);
        assert(s2 =~= seq![y] + t2);
    }
}

fn compare_instants(a: i64, b: i64) -> (r: Ordering)
    ensures
        ordering_value(r) == sign(a - b),
{
    if a < b {
        Ordering::Less
    } else if a == b {
        Ordering::Equal
    } else {
        Ordering::Greater
    }
}

impl BrowseRequest {
    /// Compares two optional instants, present before absent, falling back
    /// on the backup instants when both are absent.
    fn compare_fn_dateoptions(
        main_a: Option<i64>,
        main_b: Option<i64>,
        backup_a: i64,
        backup_b: i64,
    ) -> (r: Ordering)
        ensures
            ordering_value(r) == compare_optional(main_a, main_b, backup_a, backup_b),
    {
        match (main_a, main_b) {
            (Some(x), Some(y)) => compare_instants(x, y),
            (None, Some(_)) => Ordering::Greater,
            (Some(_), None) => Ordering::Less,
            (None, None) => compare_instants(backup_a, backup_b),
        }
    }
}

/// The ascending comparison of two records under an order key.
pub fn compare_records(k: OrderType, a: &TaskDescription, b: &TaskDescription) -> (r: Ordering)
    ensures
        ordering_value(r) == record_cmp(k, *a, *b),
{
    match k {
        OrderType::Captured => compare_instants(a.captured, b.captured),
        OrderType::Start => BrowseRequest::compare_fn_dateoptions(a.start, b.start, a.captured, b.captured),
        OrderType::Due => BrowseRequest::compare_fn_dateoptions(a.due, b.due, a.captured, b.captured),
        OrderType::Scheduled => BrowseRequest::compare_fn_dateoptions(
            a.schedule,
            b.schedule,
            a.captured,
            b.captured,
        ),
    }
}

/// Inserts position `x`, greater than every listed position, into a strictly
/// ordered listing, after every entry that does not compare above it.
pub fn insert_ordered(k: OrderType, data: &[TaskDescription], s: &mut Vec<usize>, x: usize)
    requires
        x < data@.len(),
        strictly_ordered(k, data@, old(s)@),
        forall|a: int| 0 <= a < old(s)@.len() ==> #[trigger] old(s)@[a] < x,
    ensures
        strictly_ordered(k, data@, final(s)@),
        forall|z: usize| final(s)@.contains(z) <==> (old(s)@.contains(z) || z == x),
        forall|a: int| 0 <= a < final(s)@.len() ==> #[trigger] final(s)@[a] <= x,
{
    let ghost s0 = s@;
    let mut p: usize = 0;
    let mut found = false;
    while p < s.len() && !found
        invariant
            p <= s@.len(),
            s@ == s0,
            strictly_ordered(k, data@, s0),
            forall|a: int| 0 <= a < s0.len() ==> #[trigger] s0[a] < x,
            x < data@.len(),
            forall|a: int| 0 <= a < p ==> precedes(k, data@, #[trigger] s0[a], x),
            found ==> p < s0.len() && precedes(k, data@, x, s0[p as int]),
        decreases s@.len() - p, if found { 0int } else { 1int },
    {
        let c = compare_records(k, &data[s[p]], &data[x]);
        match c {
            Ordering::Greater => {
                found = true;
            },
            _ => {
                p = p + 1;
            },
        }
    }
    assert forall|a: int| p <= a < s0.len() implies precedes(k, data@, x, #[trigger] s0[a]) by {
        if a > p {
            lemma_precedes_transitive(k, data@, x, s0[p as int], s0[a]);
        }
    }
    s.insert(p, x);
    let ghost s1 = s@;
    assert(s1 =~= s0.subrange(0, p as int).push(x) + s0.subrange(p as int, s0.len() as int));
    assert forall|a: int, b: int| 0 <= a < b < s1.len() implies precedes(
        k,
        data@,
        #[trigger] s1[a],
        #[trigger] s1[b],
    ) by {
        if b < p {
        } else if b == p {
        } else if a < p {
            lemma_precedes_transitive(k, data@, s1[a], x, s1[b]);
        } else if a == p {
        } else {
            assert(s1[a] == s0[a - 1] && s1[b] == s0[b - 1]);
        }
    }
    assert forall|z: usize| s1.contains(z) <==> (s0.contains(z) || z == x) by {
        if s1.contains(z) {
            let a = choose|a: int| 0 <= a < s1.len() && s1[a] == z;
            if a < p {
                assert(s0[a] == z);
            } else if a > p {
                assert(s0[a - 1] == z);
            }
        }
        if s0.contains(z) {
            let a = choose|a: int| 0 <= a < s0.len() && s0[a] == z;
            if a < p {
                assert(s1[a] == z);
            } else {
                assert(s1[a + 1] == z);
            }
        }
        if z == x {
            assert(s1[p as int] == x);
        }
    }
    assert forall|a: int| 0 <= a < s1.len() implies #[trigger] s1[a] <= x by {
        if a < p {
            assert(s1[a] == s0[a]);
        } else if a > p {
            assert(s1[a] == s0[a - 1]);
        }
    }
}

} // verus!
