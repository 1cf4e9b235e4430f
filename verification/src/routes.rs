//! The request dispatcher: the URL grammar, and the read and write handlers
//! that route a request to the store and shape the reply.

use vstd::prelude::*;
use crate::domain::{
    LocationPatch, UserPatch, VisitPatch, spec_gender_of, user_overlaid, location_overlaid,
    spec_visit_overlay, uv_row_matches, lm_row_matches, UserVisit,
};
use crate::store::{
    ApiError, Travels, lm_refreshed, uv_loc_refreshed, uv_replaced, uv_removed, lm_replaced,
    lm_removed, uv_list_inserted,
};
use crate::numbers::{all_digits, digits_val, digits_acc};
use crate::json::{
    parse_user_new, parse_location_new, parse_visit_new, parse_user_patch, parse_location_patch,
    parse_visit_patch, spec_user_new_ok, spec_location_new_ok, spec_visit_new_ok,
    spec_user_patch_ok, spec_location_patch_ok, spec_visit_patch_ok, body_fields, spec_i32_field,
    spec_i64_field, spec_i8_field, spec_str_field, spec_field, patch_str_matches, FieldSpec,
};
use crate::query::{
    find_char, find_char_at, spec_visit_conds, spec_avg_params, parse_visits_query,
    parse_avg_query, spec_filtered, spec_sum, spec_count, mark_cond_resolves, MarkCond, AParam,
    filter_visits, sum_marks,
};
use crate::render::{
    render_user, render_location, render_visit, render_visits, render_avg, chars_vec,
    spec_user_json, spec_location_json, spec_visit_json, spec_visits_json, spec_avg_json,
};
use crate::numbers::copy_range;

verus! {

/// A finished reply: the status code and the body text.
pub struct Reply {
    pub status: u16,
    pub body: Vec<char>,
}

/// Where a request path leads.
pub enum Route {
    RUser(i32),
    RLocation(i32),
    RVisit(i32),
    RUserVisits(i32, Vec<char>),
    RLocationAvg(i32, Vec<char>),
    RUserNew,
    RLocationNew,
    RVisitNew,
    RNone,
}

/// The spec-level route, query text kept separate.
pub enum RouteKind {
    KUser(i32),
    KLocation(i32),
    KVisit(i32),
    KUserVisits(i32),
    KLocationAvg(i32),
    KUserNew,
    KLocationNew,
    KVisitNew,
    KNone,
}

/// The path before the first `?`.
pub open spec fn path_part(p: Seq<char>) -> Seq<char> {
    p.subrange(0, find_char(p, 0, '?'))
}

/// The query text: between the first `?` and the second `?` or the end.
pub open spec fn query_part(p: Seq<char>) -> Seq<char> {
    let a = find_char(p, 0, '?');
    if a == p.len() {
        Seq::empty()
    } else {
        p.subrange(a + 1, find_char(p, a + 1, '?'))
    }
}

/// A path id: decimal digits only, within `i32`.
pub open spec fn id_digits(s: Seq<char>) -> Option<i32> {
    if all_digits(s) && digits_val(s) <= i32::MAX {
        Some(digits_val(s) as i32)
    } else {
        None
    }
}

pub open spec fn strip_prefix(s: Seq<char>, pre: Seq<char>) -> Option<Seq<char>> {
    if s.len() >= pre.len() && s.subrange(0, pre.len() as int) == pre {
        Some(s.subrange(pre.len() as int, s.len() as int))
    } else {
        None
    }
}

pub open spec fn strip_suffix(s: Seq<char>, suf: Seq<char>) -> Option<Seq<char>> {
    if s.len() >= suf.len() && s.subrange(s.len() - suf.len(), s.len() as int) == suf {
        Some(s.subrange(0, s.len() - suf.len()))
    } else {
        None
    }
}

/// The route of a path, by exact match: the create endpoints, the two query
/// endpoints, the three id endpoints, else nothing.
pub open spec fn spec_route(p: Seq<char>) -> RouteKind {
    let pp = path_part(p);
    if pp == "/users/new"@ {
        RouteKind::KUserNew
    } else if pp == "/locations/new"@ {
        RouteKind::KLocationNew
    } else if pp == "/visits/new"@ {
        RouteKind::KVisitNew
    } else if strip_prefix(pp, "/users/"@) matches Some(rest) && strip_suffix(rest, "/visits"@)
        matches Some(mid) && id_digits(mid) matches Some(id) {
        RouteKind::KUserVisits(id_digits(strip_suffix(strip_prefix(pp, "/users/"@)->0, "/visits"@)->0)->0)
    } else if strip_prefix(pp, "/users/"@) matches Some(rest) && id_digits(rest) matches Some(id) {
        RouteKind::KUser(id_digits(strip_prefix(pp, "/users/"@)->0)->0)
    } else if strip_prefix(pp, "/locations/"@) matches Some(rest) && strip_suffix(rest, "/avg"@)
        matches Some(mid) && id_digits(mid) matches Some(id) {
        RouteKind::KLocationAvg(
            id_digits(strip_suffix(strip_prefix(pp, "/locations/"@)->0, "/avg"@)->0)->0,
        )
    } else if strip_prefix(pp, "/locations/"@) matches Some(rest) && id_digits(rest) matches Some(
        id,
    ) {
        RouteKind::KLocation(id_digits(strip_prefix(pp, "/locations/"@)->0)->0)
    } else if strip_prefix(pp, "/visits/"@) matches Some(rest) && id_digits(rest) matches Some(
        id,
    ) {
        RouteKind::KVisit(id_digits(strip_prefix(pp, "/visits/"@)->0)->0)
    } else {
        RouteKind::KNone
    }
}

/// Whether `v` starts with `pre` at position 0.
fn has_prefix(v: &Vec<char>, pre: &Vec<char>) -> (r: bool)
    ensures
        r == (v@.len() >= pre@.len() && v@.subrange(0, pre@.len() as int) == pre@),
{
    if v.len() < pre.len() {
        return false;
    }
    let mut k: usize = 0;
    while k < pre.len()
        invariant
            k <= pre@.len() <= v@.len(),
            forall|q: int| 0 <= q < k ==> v@[q] == pre@[q],
        decreases pre@.len() - k,
    {
        if v[k] != pre[k] {
            proof {
                if v@.subrange(0, pre@.len() as int) == pre@ {
                    assert(v@.subrange(0, pre@.len() as int)[k as int] == pre@[k as int]);
                }
            }
            return false;
        }
        k = k + 1;
    }
    proof {
        assert(v@.subrange(0, pre@.len() as int) =~= pre@);
    }
    true
}

/// Whether `v` ends with `suf`.
fn has_suffix(v: &Vec<char>, suf: &Vec<char>) -> (r: bool)
    ensures
        r == (v@.len() >= suf@.len() && v@.subrange(v@.len() - suf@.len(), v@.len() as int)
            == suf@),
{
    if v.len() < suf.len() {
        return false;
    }
    let off = v.len() - suf.len();
    let mut k: usize = 0;
    while k < suf.len()
        invariant
            k <= suf@.len() <= v@.len(),
            v@.len() <= usize::MAX,
            off == v@.len() - suf@.len(),
            forall|q: int| 0 <= q < k ==> v@[off + q] == suf@[q],
        decreases suf@.len() - k,
    {
        let idx = off + k;
        if v[idx] != suf[k] {
            proof {
                if v@.subrange(v@.len() - suf@.len(), v@.len() as int) == suf@ {
                    assert(v@.subrange(v@.len() - suf@.len(), v@.len() as int)[k as int]
                        == suf@[k as int]);
                }
            }
            return false;
        }
        k = k + 1;
    }
    proof {
        assert(v@.subrange(v@.len() - suf@.len(), v@.len() as int) =~= suf@);
    }
    true
}

/// Reads an id from a digit range.
fn id_of_chars(v: &Vec<char>) -> (r: Option<i32>)
    ensures
        r == id_digits(v@),
{
    if v.len() == 0 {
        return None;
    }
    match digits_acc(v, 0, v.len()) {
        None => {
            proof {
                if all_digits(v@) {
                    assert(v@.subrange(0, v@.len() as int) =~= v@);
                    assert(forall|i: int|
                        0 <= i < v@.len() ==> crate::numbers::is_digit(#[trigger] v@[i]));
                }
            }
            None
        },
        Some(acc) => {
            proof {
                assert(v@.subrange(0, v@.len() as int) =~= v@);
                crate::numbers::lemma_digits_val_nonneg(v@);
            }
            if acc <= 2147483647 {
                Some(acc as i32)
            } else {
                None
            }
        },
    }
}

/// Parses a path into its route and carries the query text along.
pub fn parse_route(p: &Vec<char>) -> (r: Route)
    ensures
        ({
            let k = spec_route(p@);
            match r {
                Route::RUser(id) => k == RouteKind::KUser(id),
                Route::RLocation(id) => k == RouteKind::KLocation(id),
                Route::RVisit(id) => k == RouteKind::KVisit(id),
                Route::RUserVisits(id, q) => k == RouteKind::KUserVisits(id) && q@ == query_part(
                    p@,
                ),
                Route::RLocationAvg(id, q) => k == RouteKind::KLocationAvg(id) && q@ == query_part(
                    p@,
                ),
                Route::RUserNew => k is KUserNew,
                Route::RLocationNew => k is KLocationNew,
                Route::RVisitNew => k is KVisitNew,
                Route::RNone => k is KNone,
            }
        }),
{
    let a = find_char_at(p, 0, '?');
    let pp = copy_range(p, 0, a);
    let q: Vec<char> = if a == p.len() {
        Vec::new()
    } else {
        let b = find_char_at(p, a + 1, '?');
        copy_range(p, a + 1, b)
    };
    let users_pre = chars_vec("/users/");
    let locations_pre = chars_vec("/locations/");
    let visits_pre = chars_vec("/visits/");
    let visits_suf = chars_vec("/visits");
    let avg_suf = chars_vec("/avg");
    if crate::query::str_eq_chars(&pp, "/users/new") {
        return Route::RUserNew;
    }
    if crate::query::str_eq_chars(&pp, "/locations/new") {
        return Route::RLocationNew;
    }
    if crate::query::str_eq_chars(&pp, "/visits/new") {
        return Route::RVisitNew;
    }
    if has_prefix(&pp, &users_pre) {
        let rest = copy_range(&pp, users_pre.len(), pp.len());
        if has_suffix(&rest, &visits_suf) {
            let mid = copy_range(&rest, 0, rest.len() - visits_suf.len());
            match id_of_chars(&mid) {
                Some(id) => {
                    return Route::RUserVisits(id, q);
                },
                None => {},
            }
        }
        match id_of_chars(&rest) {
            Some(id) => {
                return Route::RUser(id);
            },
            None => {},
        }
    }
    if has_prefix(&pp, &locations_pre) {
        let rest = copy_range(&pp, locations_pre.len(), pp.len());
        if has_suffix(&rest, &avg_suf) {
            let mid = copy_range(&rest, 0, rest.len() - avg_suf.len());
            match id_of_chars(&mid) {
                Some(id) => {
                    return Route::RLocationAvg(id, q);
                },
                None => {},
            }
        }
        match id_of_chars(&rest) {
            Some(id) => {
                return Route::RLocation(id);
            },
            None => {},
        }
    }
    if has_prefix(&pp, &visits_pre) {
        let rest = copy_range(&pp, visits_pre.len(), pp.len());
        match id_of_chars(&rest) {
            Some(id) => {
                return Route::RVisit(id);
            },
            None => {},
        }
    }
    Route::RNone
}

/// What a read must answer, route by route.
pub open spec fn get_reply_ok(t: Travels, p: Seq<char>, status: u16, body: Seq<char>) -> bool {
    let q = query_part(p);
    match spec_route(p) {
        RouteKind::KUser(id) => if t.users@.contains_key(id) {
            status == 200 && body == spec_user_json(t.users@[id])
        } else {
            status == 404 && body == Seq::<char>::empty()
        },
        RouteKind::KLocation(id) => if t.locations@.contains_key(id) {
            status == 200 && body == spec_location_json(t.locations@[id])
        } else {
            status == 404 && body == Seq::<char>::empty()
        },
        RouteKind::KVisit(id) => if t.visits@.contains_key(id) {
            status == 200 && body == spec_visit_json(t.visits@[id])
        } else {
            status == 404 && body == Seq::<char>::empty()
        },
        RouteKind::KUserVisits(id) => if !t.user_visits@.contains_key(id) {
            status == 404 && body == Seq::<char>::empty()
        } else {
            match spec_visit_conds(q) {
                None => status == 400 && body == Seq::<char>::empty(),
                Some(cs) => status == 200 && body == spec_visits_json(
                    spec_filtered(t.user_visits@[id]@, cs),
                ),
            }
        },
        RouteKind::KLocationAvg(id) => if !t.location_marks@.contains_key(id) {
            status == 404 && body == Seq::<char>::empty()
        } else {
            match spec_avg_params(q) {
                None => status == 400 && body == Seq::<char>::empty(),
                Some(ps) => (status == 400 && body == Seq::<char>::empty() && exists|i: int|
                    0 <= i < ps.len() && (((#[trigger] ps[i]) is AFromAge) || (ps[i] is AToAge)))
                    || (status == 200 && exists|cs: Seq<MarkCond>|
                    cs.len() == ps.len() && (forall|i: int|
                        0 <= i < ps.len() ==> mark_cond_resolves(#[trigger] cs[i], ps[i]))
                        && body == spec_avg_json(
                        spec_sum(t.location_marks@[id]@, cs),
                        spec_count(t.location_marks@[id]@, cs),
                    )),
            }
        },
        RouteKind::KUserNew => status == 404 && body == Seq::<char>::empty(),
        RouteKind::KLocationNew => status == 404 && body == Seq::<char>::empty(),
        RouteKind::KVisitNew => status == 404 && body == Seq::<char>::empty(),
        RouteKind::KNone => status == 404 && body == Seq::<char>::empty(),
    }
}

/// Answers a read request from the store.
pub fn handle_get(t: &Travels, path: &Vec<char>) -> (r: Reply)
    ensures
        get_reply_ok(*t, path@, r.status, r.body@),
{
    match parse_route(path) {
        Route::RUser(id) => match t.load_user(id) {
            Some(u) => Reply { status: 200, body: render_user(u) },
            None => Reply { status: 404, body: Vec::new() },
        },
        Route::RLocation(id) => match t.load_location(id) {
            Some(l) => Reply { status: 200, body: render_location(l) },
            None => Reply { status: 404, body: Vec::new() },
        },
        Route::RVisit(id) => match t.load_visit(id) {
            Some(v) => Reply { status: 200, body: render_visit(v) },
            None => Reply { status: 404, body: Vec::new() },
        },
        Route::RUserVisits(id, q) => match t.load_user_visits(id) {
            None => Reply { status: 404, body: Vec::new() },
            Some(list) => match parse_visits_query(&q) {
                Err(_) => Reply { status: 400, body: Vec::new() },
                Ok(cs) => {
                    let bodies = filter_visits(list, &cs);
                    Reply { status: 200, body: render_visits(&bodies) }
                },
            },
        },
        Route::RLocationAvg(id, q) => match t.load_location_mark_list(id) {
            None => Reply { status: 404, body: Vec::new() },
            Some(marks) => match parse_avg_query(&q) {
                Err(_) => Reply { status: 400, body: Vec::new() },
                Ok(cs) => {
                    let (sum, count) = sum_marks(marks, &cs);
                    Reply { status: 200, body: render_avg(sum, count) }
                },
            },
        },
        Route::RUserNew => Reply { status: 404, body: Vec::new() },
        Route::RLocationNew => Reply { status: 404, body: Vec::new() },
        Route::RVisitNew => Reply { status: 404, body: Vec::new() },
        Route::RNone => Reply { status: 404, body: Vec::new() },
    }
}

/// The spec-level partial visit carried by a well-formed body.
pub open spec fn spec_visit_patch_of(fs: Seq<(Seq<char>, crate::json::JValV)>) -> VisitPatch {
    VisitPatch {
        user: spec_i32_field(fs, "user"@),
        location: spec_i32_field(fs, "location"@),
        visited_at: spec_i64_field(fs, "visited_at"@),
        mark: spec_i8_field(fs, "mark"@),
    }
}

/// What a write must answer and do, route by route.
pub open spec fn post_reply_ok(
    t0: Travels,
    t1: Travels,
    p: Seq<char>,
    body: Seq<char>,
    status: u16,
    rbody: Seq<char>,
) -> bool {
    match spec_route(p) {
        RouteKind::KUser(id) => if !spec_user_patch_ok(body) {
            status == 400 && rbody == Seq::<char>::empty() && t1 == t0
        } else if !t0.users@.contains_key(id) {
            status == 404 && rbody == Seq::<char>::empty() && t1 == t0
        } else {
            let fs = body_fields(body)->0;
            &&& status == 200
            &&& rbody == "{}"@
            &&& exists|pt: UserPatch|
                {
                    &&& patch_str_matches(pt.first_name, fs, "first_name"@)
                    &&& patch_str_matches(pt.last_name, fs, "last_name"@)
                    &&& patch_str_matches(pt.gender, fs, "gender"@)
                    &&& (match pt.birth_date {
                        Some(v) => spec_i64_field(fs, "birth_date"@) == Some(v),
                        None => spec_field(fs, "birth_date"@) is FMissing,
                    })
                    &&& patch_str_matches(pt.email, fs, "email"@)
                    &&& t1.users@.dom() == t0.users@.dom()
                    &&& #[trigger] user_overlaid(t1.users@[id], t0.users@[id], pt)
                }
            &&& (forall|k: i32|
                k != id && t0.users@.contains_key(k) ==> #[trigger] t1.users@[k] == t0.users@[k])
            &&& t1.locations@ == t0.locations@
            &&& t1.visits@ == t0.visits@
            &&& t1.user_visits@ == t0.user_visits@
            &&& t1.location_marks@.dom() == t0.location_marks@.dom()
            &&& (forall|l: i32|
                t0.location_marks@.contains_key(l) ==> #[trigger] lm_refreshed(
                    t0.location_marks@[l]@,
                    t1.location_marks@[l]@,
                    id,
                    spec_gender_of(t1.users@[id].gender@),
                    t1.users@[id].birth_date,
                ))
        },
        RouteKind::KLocation(id) => if !spec_location_patch_ok(body) {
            status == 400 && rbody == Seq::<char>::empty() && t1 == t0
        } else if !t0.locations@.contains_key(id) {
            status == 404 && rbody == Seq::<char>::empty() && t1 == t0
        } else {
            let fs = body_fields(body)->0;
            &&& status == 200
            &&& rbody == "{}"@
            &&& exists|pt: LocationPatch|
                {
                    &&& (match pt.distance {
                        Some(v) => spec_i32_field(fs, "distance"@) == Some(v),
                        None => spec_field(fs, "distance"@) is FMissing,
                    })
                    &&& patch_str_matches(pt.city, fs, "city"@)
                    &&& patch_str_matches(pt.place, fs, "place"@)
                    &&& patch_str_matches(pt.country, fs, "country"@)
                    &&& t1.locations@.dom() == t0.locations@.dom()
                    &&& #[trigger] location_overlaid(t1.locations@[id], t0.locations@[id], pt)
                }
            &&& (forall|k: i32|
                k != id && t0.locations@.contains_key(k) ==> #[trigger] t1.locations@[k]
                    == t0.locations@[k])
            &&& t1.users@ == t0.users@
            &&& t1.visits@ == t0.visits@
            &&& t1.location_marks@ == t0.location_marks@
            &&& t1.user_visits@.dom() == t0.user_visits@.dom()
            &&& (forall|u: i32|
                t0.user_visits@.contains_key(u) ==> #[trigger] uv_loc_refreshed(
                    t0.user_visits@[u]@,
                    t1.user_visits@[u]@,
                    id,
                    t1.locations@[id],
                ))
        },
        RouteKind::KVisit(id) => if !spec_visit_patch_ok(body) {
            status == 400 && rbody == Seq::<char>::empty() && t1 == t0
        } else {
            let fs = body_fields(body)->0;
            let pt = spec_visit_patch_of(fs);
            let fk_ok = (match pt.user {
                Some(u) => t0.users@.contains_key(u),
                None => true,
            }) && (match pt.location {
                Some(l) => t0.locations@.contains_key(l),
                None => true,
            });
            if !fk_ok {
                status == 400 && rbody == Seq::<char>::empty() && t1 == t0
            } else if !t0.visits@.contains_key(id) {
                status == 404 && rbody == Seq::<char>::empty() && t1 == t0
            } else {
                let v0 = t0.visits@[id];
                let v1 = spec_visit_overlay(v0, pt);
                let loc1 = t0.locations@[v1.location];
                let u1 = t0.users@[v1.user];
                &&& status == 200
                &&& rbody == "{}"@
                &&& t1.users@ == t0.users@
                &&& t1.locations@ == t0.locations@
                &&& t1.visits@ == t0.visits@.insert(id, v1)
                &&& t1.user_visits@.dom() == t0.user_visits@.dom()
                &&& t1.location_marks@.dom() == t0.location_marks@.dom()
                &&& (if v1.user == v0.user {
                    uv_replaced(t0.user_visits@[v0.user]@, t1.user_visits@[v0.user]@, v1, loc1)
                } else {
                    uv_removed(t0.user_visits@[v0.user]@, t1.user_visits@[v0.user]@, id) && exists|
                        e: UserVisit,
                    |
                        #[trigger] uv_row_matches(e, v1, loc1) && uv_list_inserted(
                            t0.user_visits@[v1.user]@,
                            t1.user_visits@[v1.user]@,
                            e,
                        )
                })
                &&& (if v1.location == v0.location {
                    lm_replaced(t0.location_marks@[v0.location]@, t1.location_marks@[v0.location]@, v1, u1)
                } else {
                    lm_removed(t0.location_marks@[v0.location]@, t1.location_marks@[v0.location]@, id)
                        && t1.location_marks@[v1.location]@.len() == t0.location_marks@[v1.location]@.len() + 1
                        && t1.location_marks@[v1.location]@.drop_last() == t0.location_marks@[v1.location]@
                        && lm_row_matches(t1.location_marks@[v1.location]@.last(), v1, u1)
                })
            }
        },
        RouteKind::KUserNew => if !spec_user_new_ok(body) {
            status == 400 && rbody == Seq::<char>::empty() && t1 == t0
        } else {
            let fs = body_fields(body)->0;
            let id = spec_i32_field(fs, "id"@)->0;
            if t0.users@.contains_key(id) {
                status == 400 && rbody == Seq::<char>::empty() && t1 == t0
            } else {
                &&& status == 200
                &&& rbody == "{}"@
                &&& exists|u: crate::domain::User|
                    {
                        &&& u.id == id
                        &&& Some(u.first_name@) == spec_str_field(fs, "first_name"@)
                        &&& Some(u.last_name@) == spec_str_field(fs, "last_name"@)
                        &&& Some(u.gender@) == spec_str_field(fs, "gender"@)
                        &&& Some(u.birth_date) == spec_i64_field(fs, "birth_date"@)
                        &&& Some(u.email@) == spec_str_field(fs, "email"@)
                        &&& #[trigger] t1.users@ == t0.users@.insert(id, u)
                    }
                &&& t1.user_visits@.dom() == t0.user_visits@.dom().insert(id)
                &&& t1.user_visits@[id]@ == Seq::<UserVisit>::empty()
                &&& (forall|k: i32|
                    k != id && t0.user_visits@.contains_key(k) ==> #[trigger] t1.user_visits@[k]
                        == t0.user_visits@[k])
                &&& t1.locations@ == t0.locations@
                &&& t1.visits@ == t0.visits@
                &&& t1.location_marks@ == t0.location_marks@
            }
        },
        RouteKind::KLocationNew => if !spec_location_new_ok(body) {
            status == 400 && rbody == Seq::<char>::empty() && t1 == t0
        } else {
            let fs = body_fields(body)->0;
            let id = spec_i32_field(fs, "id"@)->0;
            if t0.locations@.contains_key(id) {
                status == 400 && rbody == Seq::<char>::empty() && t1 == t0
            } else {
                &&& status == 200
                &&& rbody == "{}"@
                &&& exists|l: crate::domain::Location|
                    {
                        &&& l.id == id
                        &&& Some(l.distance) == spec_i32_field(fs, "distance"@)
                        &&& Some(l.city@) == spec_str_field(fs, "city"@)
                        &&& Some(l.place@) == spec_str_field(fs, "place"@)
                        &&& Some(l.country@) == spec_str_field(fs, "country"@)
                        &&& #[trigger] t1.locations@ == t0.locations@.insert(id, l)
                    }
                &&& t1.location_marks@.dom() == t0.location_marks@.dom().insert(id)
                &&& t1.location_marks@[id]@ == Seq::<crate::domain::LocationMark>::empty()
                &&& (forall|k: i32|
                    k != id && t0.location_marks@.contains_key(k) ==> #[trigger] t1.location_marks@[k]
                        == t0.location_marks@[k])
                &&& t1.users@ == t0.users@
                &&& t1.visits@ == t0.visits@
                &&& t1.user_visits@ == t0.user_visits@
            }
        },
        RouteKind::KVisitNew => if !spec_visit_new_ok(body) {
            status == 400 && rbody == Seq::<char>::empty() && t1 == t0
        } else {
            let fs = body_fields(body)->0;
            let v = crate::domain::Visit {
                id: spec_i32_field(fs, "id"@)->0,
                user: spec_i32_field(fs, "user"@)->0,
                location: spec_i32_field(fs, "location"@)->0,
                visited_at: spec_i64_field(fs, "visited_at"@)->0,
                mark: spec_i8_field(fs, "mark"@)->0,
            };
            if t0.visits@.contains_key(v.id) || !t0.users@.contains_key(v.user)
                || !t0.locations@.contains_key(v.location) {
                status == 400 && rbody == Seq::<char>::empty() && t1 == t0
            } else {
                &&& status == 200
                &&& rbody == "{}"@
                &&& t1.users@ == t0.users@
                &&& t1.locations@ == t0.locations@
                &&& t1.visits@ == t0.visits@.insert(v.id, v)
                &&& t1.user_visits@.dom() == t0.user_visits@.dom()
                &&& t1.location_marks@.dom() == t0.location_marks@.dom()
                &&& exists|e: UserVisit|
                    #[trigger] uv_row_matches(e, v, t0.locations@[v.location]) && uv_list_inserted(
                        t0.user_visits@[v.user]@,
                        t1.user_visits@[v.user]@,
                        e,
                    )
                &&& t1.location_marks@[v.location]@.len() == t0.location_marks@[v.location]@.len()
                    + 1
                &&& t1.location_marks@[v.location]@.drop_last() == t0.location_marks@[v.location]@
                &&& lm_row_matches(
                    t1.location_marks@[v.location]@.last(),
                    v,
                    t0.users@[v.user],
                )
            }
        },
        RouteKind::KUserVisits(_) => t1 == t0 && get_reply_ok(t0, p, status, rbody),
        RouteKind::KLocationAvg(_) => t1 == t0 && get_reply_ok(t0, p, status, rbody),
        RouteKind::KNone => status == 404 && rbody == Seq::<char>::empty() && t1 == t0,
    }
}

/// Applies a write request to the store.
pub fn handle_post(t: &mut Travels, path: &Vec<char>, body: &Vec<char>) -> (r: Reply)
    requires
        old(t).inv(),
    ensures
        final(t).inv(),
        post_reply_ok(*old(t), *final(t), path@, body@, r.status, r.body@),
{
    match parse_route(path) {
        Route::RUser(id) => match parse_user_patch(body) {
            Err(_) => Reply { status: 400, body: Vec::new() },
            Ok(p) => match t.update_user(id, &p) {
                Err(_) => Reply { status: 404, body: Vec::new() },
                Ok(()) => Reply { status: 200, body: chars_vec("{}") },
            },
        },
        Route::RLocation(id) => match parse_location_patch(body) {
            Err(_) => Reply { status: 400, body: Vec::new() },
            Ok(p) => match t.update_location(id, &p) {
                Err(_) => Reply { status: 404, body: Vec::new() },
                Ok(()) => Reply { status: 200, body: chars_vec("{}") },
            },
        },
        Route::RVisit(id) => match parse_visit_patch(body) {
            Err(_) => Reply { status: 400, body: Vec::new() },
            Ok(p) => {
                proof {
                    let fs = body_fields(body@)->0;
                    assert(p == spec_visit_patch_of(fs));
                }
                match t.update_visit(id, &p) {
                    Err(ApiError::NotFound) => Reply { status: 404, body: Vec::new() },
                    Err(_) => Reply { status: 400, body: Vec::new() },
                    Ok(()) => Reply { status: 200, body: chars_vec("{}") },
                }
            },
        },
        Route::RUserNew => match parse_user_new(body) {
            Err(_) => Reply { status: 400, body: Vec::new() },
            Ok(u) => {
                let ghost ug = u;
                match t.new_user(u) {
                    Err(_) => Reply { status: 400, body: Vec::new() },
                    Ok(()) => Reply { status: 200, body: chars_vec("{}") },
                }
            },
        },
        Route::RLocationNew => match parse_location_new(body) {
            Err(_) => Reply { status: 400, body: Vec::new() },
            Ok(l) => {
                let ghost lg = l;
                match t.new_location(l) {
                    Err(_) => Reply { status: 400, body: Vec::new() },
                    Ok(()) => Reply { status: 200, body: chars_vec("{}") },
                }
            },
        },
        Route::RVisitNew => match parse_visit_new(body) {
            Err(_) => Reply { status: 400, body: Vec::new() },
            Ok(v) => match t.new_visit(v) {
                Err(_) => Reply { status: 400, body: Vec::new() },
                Ok(()) => Reply { status: 200, body: chars_vec("{}") },
            },
        },
        Route::RUserVisits(id, q) => match t.load_user_visits(id) {
            None => Reply { status: 404, body: Vec::new() },
            Some(list) => match parse_visits_query(&q) {
                Err(_) => Reply { status: 400, body: Vec::new() },
                Ok(cs) => {
                    let bodies = filter_visits(list, &cs);
                    Reply { status: 200, body: render_visits(&bodies) }
                },
            },
        },
        Route::RLocationAvg(id, q) => match t.load_location_mark_list(id) {
            None => Reply { status: 404, body: Vec::new() },
            Some(marks) => match parse_avg_query(&q) {
                Err(_) => Reply { status: 400, body: Vec::new() },
                Ok(cs) => {
                    let (sum, count) = sum_marks(marks, &cs);
                    Reply { status: 200, body: render_avg(sum, count) }
                },
            },
        },
        Route::RNone => Reply { status: 404, body: Vec::new() },
    }
}

} // verus!
