//! Laws of the query engine that relate several functions.

use vstd::prelude::*;
use crate::domain::{Location, UserVisit, Visit, uv_row_matches, lm_row_matches};
use crate::query::{spec_filtered, spec_project, uv_pass, VCond};
use crate::store::{Travels, uv_list_distinct, uv_replaced, uv_sorted_list, uv_stable_point};

verus! {

/// Replacing a visit row whose time did not change is an in-place rewrite:
/// the list keeps its length and every other row keeps its value and its
/// position. This is the tie-stability of the re-sort — a row never moves
/// past rows of equal time.
pub proof fn lemma_stable_replace_in_place(
    olds: Seq<UserVisit>,
    news: Seq<UserVisit>,
    v1: Visit,
    loc: Location,
    i: int,
)
    requires
        uv_sorted_list(olds),
        uv_list_distinct(olds),
        uv_replaced(olds, news, v1, loc),
        0 <= i < olds.len(),
        olds[i].visit == v1.id,
        olds[i].visited_at == v1.visited_at,
    ensures
        news.len() == olds.len(),
        uv_row_matches(news[i], v1, loc),
        forall|j: int| 0 <= j < olds.len() && j != i ==> news[j] == olds[j],
{
    let (i0, ip, e) = choose|i0: int, ip: int, e: UserVisit|
        #![trigger olds.remove(i0).insert(ip, e)]
        {
            &&& 0 <= i0 < olds.len()
            &&& olds[i0].visit == v1.id
            &&& uv_row_matches(e, v1, loc)
            &&& uv_stable_point(olds.remove(i0), ip, e.visited_at, i0)
            &&& news == olds.remove(i0).insert(ip, e)
        };
    assert(i0 == i) by {
        if i0 != i {
            if i0 < i {
                assert(olds[i0].visit != olds[i].visit);
            } else {
                assert(olds[i].visit != olds[i0].visit);
            }
        }
    }
    let mids = olds.remove(i);
    olds.remove_ensures(i);
    mids.insert_ensures(ip, e);
    let t = e.visited_at;
    assert(t == olds[i].visited_at);
    // the stable point of an unchanged time is the old position itself
    assert(ip == i) by {
        if ip < i {
            assert(mids[ip] == olds[ip]);
            assert(olds[ip].visited_at <= t);
            assert(mids[ip].visited_at > t || (mids[ip].visited_at == t && ip >= i));
        } else if ip > i {
            assert(mids[i] == olds[i + 1]);
            assert(olds[i + 1].visited_at >= t);
            assert(mids[i].visited_at < t || (mids[i].visited_at == t && i < i));
        }
    }
    assert(news[i] == e);
    assert forall|j: int| 0 <= j < olds.len() && j != i implies news[j] == olds[j] by {
        if j < i {
            assert(news[j] == mids[j]);
            assert(mids[j] == olds[j]);
        } else {
            let m = j - 1;
            assert(news[m + 1] == mids[m]);
            assert(mids[m] == olds[j]);
        }
    }
}

/// Every stored visit has exactly one row in its user's visit list, and
/// that row carries the visit's own fields and its location's current
/// fields.
pub proof fn lemma_visit_row_in_user_list(t: Travels, i: i32)
    requires
        t.inv(),
        t.visits@.contains_key(i),
    ensures
        ({
            let v = t.visits@[i];
            let l = t.user_visits@[v.user]@;
            exists|j: int|
                {
                    &&& 0 <= j < l.len()
                    &&& (#[trigger] l[j]).visit == i
                    &&& uv_row_matches(l[j], v, t.locations@[v.location])
                    &&& forall|k: int| 0 <= k < l.len() && (#[trigger] l[k]).visit == i ==> k == j
                }
        }),
{
    let v = t.visits@[i];
    let l = t.user_visits@[v.user]@;
    assert(t.uv_has_row(i));
    let j = choose|j: int|
        0 <= j < t.user_visits@[v.user]@.len() && #[trigger] t.user_visits@[v.user]@[j].visit == i;
    assert(t.uv_entry_ok(v.user, j));
    assert forall|k: int| 0 <= k < l.len() && (#[trigger] l[k]).visit == i implies k == j by {
        if k != j {
            if k < j {
                assert(t.user_visits@[v.user]@[k].visit != t.user_visits@[v.user]@[j].visit);
            } else {
                assert(t.user_visits@[v.user]@[j].visit != t.user_visits@[v.user]@[k].visit);
            }
        }
    }
    assert(0 <= j < l.len() && (l[j]).visit == i && uv_row_matches(
        l[j],
        v,
        t.locations@[v.location],
    ) && forall|k: int| 0 <= k < l.len() && (#[trigger] l[k]).visit == i ==> k == j);
}

/// Every stored visit has exactly one row in its location's mark list, and
/// that row carries the visit's own fields and its user's current gender and
/// birth date.
pub proof fn lemma_visit_row_in_mark_list(t: Travels, i: i32)
    requires
        t.inv(),
        t.visits@.contains_key(i),
    ensures
        ({
            let v = t.visits@[i];
            let l = t.location_marks@[v.location]@;
            exists|j: int|
                {
                    &&& 0 <= j < l.len()
                    &&& (#[trigger] l[j]).visit == i
                    &&& lm_row_matches(l[j], v, t.users@[v.user])
                    &&& forall|k: int| 0 <= k < l.len() && (#[trigger] l[k]).visit == i ==> k == j
                }
        }),
{
    let v = t.visits@[i];
    let l = t.location_marks@[v.location]@;
    assert(t.lm_has_row(i));
    let j = choose|j: int|
        0 <= j < t.location_marks@[v.location]@.len() && #[trigger] t.location_marks@[
            v.location
        ]@[j].visit == i;
    assert(t.lm_entry_ok(v.location, j));
    assert forall|k: int| 0 <= k < l.len() && (#[trigger] l[k]).visit == i implies k == j by {
        if k != j {
            if k < j {
                assert(t.location_marks@[v.location]@[k].visit != t.location_marks@[
                    v.location
                ]@[j].visit);
            } else {
                assert(t.location_marks@[v.location]@[j].visit != t.location_marks@[
                    v.location
                ]@[k].visit);
            }
        }
    }
    assert(0 <= j < l.len() && (l[j]).visit == i && lm_row_matches(l[j], v, t.users@[v.user])
        && forall|k: int| 0 <= k < l.len() && (#[trigger] l[k]).visit == i ==> k == j);
}

/// A query without effective filters projects the whole visit list, in
/// order: filtering under conditions that constrain nothing — in particular
/// under the empty query — returns every row, projected.
pub proof fn lemma_unfiltered_projection(s: Seq<UserVisit>, cs: Seq<VCond>)
    requires
        forall|i: int| 0 <= i < cs.len() ==> (#[trigger] cs[i]) is VOther,
    ensures
        spec_filtered(s, cs) == s.map_values(|e: UserVisit| spec_project(e)),
    decreases s.len(),
{
    if s.len() == 0 {
        assert(spec_filtered(s, cs) =~= s.map_values(|e: UserVisit| spec_project(e)));
    } else {
        lemma_unfiltered_projection(s.drop_last(), cs);
        assert(uv_pass(s.last(), cs));
        assert(spec_filtered(s, cs) =~= s.map_values(|e: UserVisit| spec_project(e)));
    }
}

} // verus!
