//! The store: three primary tables and the two derived indices, together with
//! the integrity protocol that keeps the indices coherent with the tables
//! across creates and partial updates.
//!
//! The coherence contract is `Travels::inv`:
//! - every user owns a visit list and every location a mark list;
//! - every visit references an existing user and location;
//! - every visit has exactly one row in its user's visit list and exactly one
//!   row in its location's mark list, and each row carries the current fields
//!   of the rows it was derived from;
//! - every visit list is sorted nondecreasing by visit time.
//!
//! Every mutating operation requires `inv` and re-establishes it.

use vstd::prelude::*;
use std::collections::HashMap;
use crate::domain::{
    Gender, Location, LocationMark, LocationPatch, User, UserPatch, UserVisit, Visit, VisitPatch,
    lm_row_matches, spec_gender_of, uv_row_matches, make_uv_row, make_lm_row, apply_user_patch,
    apply_location_patch, apply_visit_patch, user_overlaid, location_overlaid, spec_visit_overlay,
    gender_of,
};

verus! {

broadcast use vstd::std_specs::hash::group_hash_axioms;

/// The error taxonomy of the store and of the request layer above it.
#[derive(Clone, Copy, PartialEq, Eq, Structural, Debug)]
pub enum ApiError {
    /// Body failed to parse, a field had the wrong type, or was `null`.
    Malformed,
    /// Creation with an id that is already taken.
    DuplicateId,
    /// A visit referencing a user or location that does not exist.
    FkMissing,
    /// A recognized query parameter that fails to parse.
    BadQuery,
    /// The addressed entity does not exist.
    NotFound,
}

/// The whole store: primary tables and derived indices.
pub struct Travels {
    pub users: HashMap<i32, User>,
    pub locations: HashMap<i32, Location>,
    pub visits: HashMap<i32, Visit>,
    pub user_visits: HashMap<i32, Vec<UserVisit>>,
    pub location_marks: HashMap<i32, Vec<LocationMark>>,
}

/// A visit list is sorted nondecreasing by visit time.
pub open spec fn uv_sorted_list(s: Seq<UserVisit>) -> bool {
    forall|j: int, k: int|
        0 <= j <= k < s.len() ==> #[trigger] s[j].visited_at <= #[trigger] s[k].visited_at
}

impl Travels {
    /// Every user has a visit list, every location a mark list, and no list
    /// exists without its owner.
    pub open spec fn index_coverage(self) -> bool {
        &&& forall|k: i32|
            #![trigger self.user_visits@.contains_key(k)]
            #![trigger self.users@.contains_key(k)]
            self.user_visits@.contains_key(k) <==> self.users@.contains_key(k)
        &&& forall|k: i32|
            #![trigger self.location_marks@.contains_key(k)]
            #![trigger self.locations@.contains_key(k)]
            self.location_marks@.contains_key(k) <==> self.locations@.contains_key(k)
    }

    /// A stored row's own id field equals the key it is stored under.
    pub open spec fn keys_match(self) -> bool {
        &&& forall|i: i32| #[trigger] self.users@.contains_key(i) ==> self.users@[i].id == i
        &&& forall|i: i32| #[trigger] self.locations@.contains_key(i) ==> self.locations@[i].id == i
        &&& forall|i: i32| #[trigger] self.visits@.contains_key(i) ==> self.visits@[i].id == i
    }

    /// Every visit references an existing user and an existing location.
    pub open spec fn fks_ok(self) -> bool {
        forall|i: i32| #[trigger]
            self.visits@.contains_key(i) ==> self.users@.contains_key(self.visits@[i].user)
                && self.locations@.contains_key(self.visits@[i].location)
    }

    /// Row `j` of user `u`'s visit list belongs to a stored visit of `u` and
    /// carries that visit's and its location's current fields.
    pub open spec fn uv_entry_ok(self, u: i32, j: int) -> bool {
        let e = self.user_visits@[u]@[j];
        &&& self.visits@.contains_key(e.visit)
        &&& self.visits@[e.visit].user == u
        &&& uv_row_matches(
            e,
            self.visits@[e.visit],
            self.locations@[self.visits@[e.visit].location],
        )
    }

    pub open spec fn uv_lists_ok(self) -> bool {
        forall|u: i32, j: int|
            self.user_visits@.contains_key(u) && 0 <= j < self.user_visits@[u]@.len()
                ==> #[trigger] self.uv_entry_ok(u, j)
    }

    /// No visit list holds two rows for the same visit.
    pub open spec fn uv_unique(self) -> bool {
        forall|u: i32, j: int, k: int|
            #![trigger self.user_visits@[u]@[j], self.user_visits@[u]@[k]]
            self.user_visits@.contains_key(u) && 0 <= j < k < self.user_visits@[u]@.len()
                ==> self.user_visits@[u]@[j].visit != self.user_visits@[u]@[k].visit
    }

    /// Visit `i` has a row in its user's visit list.
    pub open spec fn uv_has_row(self, i: i32) -> bool {
        let v = self.visits@[i];
        exists|j: int|
            0 <= j < self.user_visits@[v.user]@.len() && #[trigger] self.user_visits@[
                v.user
            ]@[j].visit == i
    }

    pub open spec fn uv_present(self) -> bool {
        forall|i: i32| #[trigger] self.visits@.contains_key(i) ==> self.uv_has_row(i)
    }

    /// Row `j` of location `l`'s mark list belongs to a stored visit at `l`
    /// and carries that visit's and its user's current fields.
    pub open spec fn lm_entry_ok(self, l: i32, j: int) -> bool {
        let e = self.location_marks@[l]@[j];
        &&& self.visits@.contains_key(e.visit)
        &&& self.visits@[e.visit].location == l
        &&& lm_row_matches(e, self.visits@[e.visit], self.users@[self.visits@[e.visit].user])
    }

    pub open spec fn lm_lists_ok(self) -> bool {
        forall|l: i32, j: int|
            self.location_marks@.contains_key(l) && 0 <= j < self.location_marks@[l]@.len()
                ==> #[trigger] self.lm_entry_ok(l, j)
    }

    /// No mark list holds two rows for the same visit.
    pub open spec fn lm_unique(self) -> bool {
        forall|l: i32, j: int, k: int|
            #![trigger self.location_marks@[l]@[j], self.location_marks@[l]@[k]]
            self.location_marks@.contains_key(l) && 0 <= j < k < self.location_marks@[l]@.len()
                ==> self.location_marks@[l]@[j].visit != self.location_marks@[l]@[k].visit
    }

    /// Visit `i` has a row in its location's mark list.
    pub open spec fn lm_has_row(self, i: i32) -> bool {
        let v = self.visits@[i];
        exists|j: int|
            0 <= j < self.location_marks@[v.location]@.len() && #[trigger] self.location_marks@[
                v.location
            ]@[j].visit == i
    }

    pub open spec fn lm_present(self) -> bool {
        forall|i: i32| #[trigger] self.visits@.contains_key(i) ==> self.lm_has_row(i)
    }

    /// Every visit list is sorted nondecreasing by visit time.
    pub open spec fn uv_sorted(self) -> bool {
        forall|u: i32| #[trigger]
            self.user_visits@.contains_key(u) ==> uv_sorted_list(self.user_visits@[u]@)
    }

    /// The store's coherence invariant.
    pub open spec fn inv(self) -> bool {
        &&& self.index_coverage()
        &&& self.keys_match()
        &&& self.fks_ok()
        &&& self.uv_lists_ok()
        &&& self.uv_unique()
        &&& self.uv_present()
        &&& self.lm_lists_ok()
        &&& self.lm_unique()
        &&& self.lm_present()
        &&& self.uv_sorted()
    }

    /// An empty store.
    pub fn new() -> (r: Travels)
        ensures
            r.inv(),
            r.users@ == Map::<i32, User>::empty(),
            r.locations@ == Map::<i32, Location>::empty(),
            r.visits@ == Map::<i32, Visit>::empty(),
            r.user_visits@ == Map::<i32, Vec<UserVisit>>::empty(),
            r.location_marks@ == Map::<i32, Vec<LocationMark>>::empty(),
    {
        Travels {
            users: HashMap::new(),
            locations: HashMap::new(),
            visits: HashMap::new(),
            user_visits: HashMap::new(),
            location_marks: HashMap::new(),
        }
    }

    pub fn exists_user(&self, id: i32) -> (r: bool)
        ensures
            r == self.users@.contains_key(id),
    {
        self.users.contains_key(&id)
    }

    pub fn exists_location(&self, id: i32) -> (r: bool)
        ensures
            r == self.locations@.contains_key(id),
    {
        self.locations.contains_key(&id)
    }

    pub fn exists_visit(&self, id: i32) -> (r: bool)
        ensures
            r == self.visits@.contains_key(id),
    {
        self.visits.contains_key(&id)
    }

    pub fn load_user(&self, id: i32) -> (r: Option<&User>)
        ensures
            match r {
                Some(u) => self.users@.contains_key(id) && *u == self.users@[id],
                None => !self.users@.contains_key(id),
            },
    {
        self.users.get(&id)
    }

    pub fn load_location(&self, id: i32) -> (r: Option<&Location>)
        ensures
            match r {
                Some(l) => self.locations@.contains_key(id) && *l == self.locations@[id],
                None => !self.locations@.contains_key(id),
            },
    {
        self.locations.get(&id)
    }

    pub fn load_visit(&self, id: i32) -> (r: Option<&Visit>)
        ensures
            match r {
                Some(v) => self.visits@.contains_key(id) && *v == self.visits@[id],
                None => !self.visits@.contains_key(id),
            },
    {
        self.visits.get(&id)
    }

    pub fn load_user_visits(&self, id: i32) -> (r: Option<&Vec<UserVisit>>)
        ensures
            match r {
                Some(l) => self.user_visits@.contains_key(id) && *l == self.user_visits@[id],
                None => !self.user_visits@.contains_key(id),
            },
    {
        self.user_visits.get(&id)
    }

    pub fn load_location_mark_list(&self, id: i32) -> (r: Option<&Vec<LocationMark>>)
        ensures
            match r {
                Some(l) => self.location_marks@.contains_key(id) && *l == self.location_marks@[id],
                None => !self.location_marks@.contains_key(id),
            },
    {
        self.location_marks.get(&id)
    }

    /// Creates a user and its empty visit list; rejects a taken id.
    pub fn new_user(&mut self, u: User) -> (r: Result<(), ApiError>)
        requires
            old(self).inv(),
        ensures
            final(self).inv(),
            r is Ok <==> !old(self).users@.contains_key(u.id),
            r is Err ==> r == Err::<(), ApiError>(ApiError::DuplicateId) && *final(self)
                == *old(self),
            r is Ok ==> {
                &&& final(self).users@ == old(self).users@.insert(u.id, u)
                &&& final(self).user_visits@.dom() == old(self).user_visits@.dom().insert(u.id)
                &&& final(self).user_visits@[u.id]@ == Seq::<UserVisit>::empty()
                &&& forall|k: i32|
                    k != u.id && old(self).user_visits@.contains_key(k) ==> #[trigger] final(self).user_visits@[k] == old(self).user_visits@[k]
                &&& final(self).locations@ == old(self).locations@
                &&& final(self).visits@ == old(self).visits@
                &&& final(self).location_marks@ == old(self).location_marks@
            },
    {
        if self.users.contains_key(&u.id) {
            return Err(ApiError::DuplicateId);
        }
        let id = u.id;
        self.user_visits.insert(id, Vec::new());
        self.users.insert(id, u);
        proof {
            let t0 = *old(self);
            let t1 = *self;
            assert(t1.user_visits@.dom() =~= t0.user_visits@.dom().insert(id));
            assert forall|uu: i32, j: int|
                t1.user_visits@.contains_key(uu) && 0 <= j < t1.user_visits@[uu]@.len()
                    implies #[trigger] t1.uv_entry_ok(uu, j) by {
                assert(uu != id);
                assert(t0.uv_entry_ok(uu, j));
                let e = t0.user_visits@[uu]@[j];
                assert(t0.visits@[e.visit].user == uu);
            }
            assert forall|i: i32| #[trigger]
                t1.visits@.contains_key(i) implies t1.uv_has_row(i) by {
                let v = t1.visits@[i];
                assert(t0.uv_has_row(i));
                assert(v.user != id) by {
                    assert(t0.fks_ok());
                    assert(t0.users@.contains_key(v.user));
                }
                let j = choose|j: int|
                    0 <= j < t0.user_visits@[v.user]@.len() && #[trigger] t0.user_visits@[
                        v.user
                    ]@[j].visit == i;
                assert(t1.user_visits@[v.user]@[j].visit == i);
            }
            assert forall|l: i32, j: int|
                t1.location_marks@.contains_key(l) && 0 <= j < t1.location_marks@[l]@.len()
                    implies #[trigger] t1.lm_entry_ok(l, j) by {
                assert(t0.lm_entry_ok(l, j));
                let e = t0.location_marks@[l]@[j];
                assert(t0.users@.contains_key(t0.visits@[e.visit].user));
                assert(t0.visits@[e.visit].user != id);
            }
            assert forall|i: i32| #[trigger]
                t1.visits@.contains_key(i) implies t1.lm_has_row(i) by {
                let v = t1.visits@[i];
                assert(t0.lm_has_row(i));
                let j = choose|j: int|
                    0 <= j < t0.location_marks@[v.location]@.len() && #[trigger] t0.location_marks@[
                        v.location
                    ]@[j].visit == i;
                assert(t1.location_marks@[v.location]@[j].visit == i);
            }
        }
        Ok(())
    }

    /// Creates a location and its empty mark list; rejects a taken id.
    pub fn new_location(&mut self, l: Location) -> (r: Result<(), ApiError>)
        requires
            old(self).inv(),
        ensures
            final(self).inv(),
            r is Ok <==> !old(self).locations@.contains_key(l.id),
            r is Err ==> r == Err::<(), ApiError>(ApiError::DuplicateId) && *final(self)
                == *old(self),
            r is Ok ==> {
                &&& final(self).locations@ == old(self).locations@.insert(l.id, l)
                &&& final(self).location_marks@.dom() == old(self).location_marks@.dom().insert(
                    l.id,
                )
                &&& final(self).location_marks@[l.id]@ == Seq::<LocationMark>::empty()
                &&& forall|k: i32|
                    k != l.id && old(self).location_marks@.contains_key(k) ==> #[trigger] final(self).location_marks@[k] == old(self).location_marks@[k]
                &&& final(self).users@ == old(self).users@
                &&& final(self).visits@ == old(self).visits@
                &&& final(self).user_visits@ == old(self).user_visits@
            },
    {
        if self.locations.contains_key(&l.id) {
            return Err(ApiError::DuplicateId);
        }
        let id = l.id;
        self.location_marks.insert(id, Vec::new());
        self.locations.insert(id, l);
        proof {
            let t0 = *old(self);
            let t1 = *self;
            assert(t1.location_marks@.dom() =~= t0.location_marks@.dom().insert(id));
            assert forall|uu: i32, j: int|
                t1.user_visits@.contains_key(uu) && 0 <= j < t1.user_visits@[uu]@.len()
                    implies #[trigger] t1.uv_entry_ok(uu, j) by {
                assert(t0.uv_entry_ok(uu, j));
                let e = t0.user_visits@[uu]@[j];
                assert(t0.locations@.contains_key(t0.visits@[e.visit].location));
                assert(t0.visits@[e.visit].location != id);
            }
            assert forall|ll: i32, j: int|
                t1.location_marks@.contains_key(ll) && 0 <= j < t1.location_marks@[ll]@.len()
                    implies #[trigger] t1.lm_entry_ok(ll, j) by {
                assert(ll != id);
                assert(t0.lm_entry_ok(ll, j));
            }
            assert forall|i: i32| #[trigger]
                t1.visits@.contains_key(i) implies t1.lm_has_row(i) by {
                let v = t1.visits@[i];
                assert(t0.lm_has_row(i));
                assert(v.location != id) by {
                    assert(t0.fks_ok());
                    assert(t0.locations@.contains_key(v.location));
                }
                let j = choose|j: int|
                    0 <= j < t0.location_marks@[v.location]@.len() && #[trigger] t0.location_marks@[
                        v.location
                    ]@[j].visit == i;
                assert(t1.location_marks@[v.location]@[j].visit == i);
            }
            assert forall|i: i32| #[trigger]
                t1.visits@.contains_key(i) implies t1.uv_has_row(i) by {
                let v = t1.visits@[i];
                assert(t0.uv_has_row(i));
                let j = choose|j: int|
                    0 <= j < t0.user_visits@[v.user]@.len() && #[trigger] t0.user_visits@[
                        v.user
                    ]@[j].visit == i;
                assert(t1.user_visits@[v.user]@[j].visit == i);
            }
        }
        Ok(())
    }

    /// Creates a visit and its two derived rows; rejects a taken id and
    /// dangling references.
    pub fn new_visit(&mut self, v: Visit) -> (r: Result<(), ApiError>)
        requires
            old(self).inv(),
        ensures
            final(self).inv(),
            r is Ok <==> (!old(self).visits@.contains_key(v.id) && old(self).users@.contains_key(
                v.user,
            ) && old(self).locations@.contains_key(v.location)),
            r is Err ==> *final(self) == *old(self),
            r is Err ==> r == Err::<(), ApiError>(
                if old(self).visits@.contains_key(v.id) {
                    ApiError::DuplicateId
                } else {
                    ApiError::FkMissing
                },
            ),
            r is Ok ==> {
                &&& final(self).users@ == old(self).users@
                &&& final(self).locations@ == old(self).locations@
                &&& final(self).visits@ == old(self).visits@.insert(v.id, v)
                &&& final(self).user_visits@.dom() == old(self).user_visits@.dom()
                &&& forall|k: i32|
                    k != v.user && old(self).user_visits@.contains_key(k)
                        ==> #[trigger] final(self).user_visits@[k] == old(self).user_visits@[k]
                &&& exists|e: UserVisit|
                    #[trigger] uv_row_matches(e, v, old(self).locations@[v.location])
                        && uv_list_inserted(
                        old(self).user_visits@[v.user]@,
                        final(self).user_visits@[v.user]@,
                        e,
                    )
                &&& final(self).location_marks@.dom() == old(self).location_marks@.dom()
                &&& forall|k: i32|
                    k != v.location && old(self).location_marks@.contains_key(k)
                        ==> #[trigger] final(self).location_marks@[k] == old(
                        self,
                    ).location_marks@[k]
                &&& final(self).location_marks@[v.location]@.len() == old(
                    self,
                ).location_marks@[v.location]@.len() + 1
                &&& final(self).location_marks@[v.location]@.drop_last() == old(
                    self,
                ).location_marks@[v.location]@
                &&& lm_row_matches(
                    final(self).location_marks@[v.location]@.last(),
                    v,
                    old(self).users@[v.user],
                )
            },
    {
        if self.exists_visit(v.id) {
            return Err(ApiError::DuplicateId);
        }
        if !self.exists_user(v.user) {
            return Err(ApiError::FkMissing);
        }
        if !self.exists_location(v.location) {
            return Err(ApiError::FkMissing);
        }
        let ghost t0 = *self;
        let uvrow = {
            let loc = self.load_location(v.location).unwrap();
            make_uv_row(&v, loc)
        };
        let lmrow = {
            let u = self.load_user(v.user).unwrap();
            make_lm_row(&v, u)
        };
        let ghost rowg = uvrow;
        proof {
            assert(t0.user_visits@.contains_key(v.user));
            assert(t0.location_marks@.contains_key(v.location));
        }
        let mut list = self.user_visits.remove(&v.user).unwrap();
        let ghost olds = list@;
        let pos = uv_insert_pos(&list, uvrow.visited_at);
        list.insert(pos, uvrow);
        proof {
            lemma_uv_insert_sorted(olds, rowg, pos as int);
            olds.insert_ensures(pos as int, rowg);
        }
        self.user_visits.insert(v.user, list);
        let mut marks = self.location_marks.remove(&v.location).unwrap();
        marks.push(lmrow);
        self.location_marks.insert(v.location, marks);
        self.visits.insert(v.id, v);
        proof {
            let t1 = *self;
            let news = t1.user_visits@[v.user]@;
            assert(t1.user_visits@.dom() =~= t0.user_visits@.dom());
            assert(t1.location_marks@.dom() =~= t0.location_marks@.dom());
            assert(news == olds.insert(pos as int, rowg));
            assert(uv_insert_point(olds, pos as int, rowg.visited_at));
            assert(uv_list_inserted(olds, news, rowg));
            assert(t1.location_marks@[v.location]@ == t0.location_marks@[v.location]@.push(lmrow));
            assert(t1.location_marks@[v.location]@.drop_last() =~= t0.location_marks@[
                v.location
            ]@);
            // every old row's visit is a stored visit, so no old row is for v.id
            assert forall|u: i32, j: int|
                t1.user_visits@.contains_key(u) && 0 <= j < t1.user_visits@[u]@.len()
                    implies #[trigger] t1.uv_entry_ok(u, j) by {
                if u != v.user {
                    assert(t0.uv_entry_ok(u, j));
                    let e = t0.user_visits@[u]@[j];
                    assert(e.visit != v.id);
                } else {
                    if j == pos as int {
                        assert(news[j] == rowg);
                        assert(t1.visits@[v.id] == v);
                    } else {
                        let oj = if j < pos as int { j } else { j - 1 };
                        assert(news[j] == olds[oj]);
                        assert(t0.uv_entry_ok(u, oj));
                        let e = olds[oj];
                        assert(e.visit != v.id);
                    }
                }
            }
            assert forall|u: i32, j: int, k: int|
                t1.user_visits@.contains_key(u) && 0 <= j < k < t1.user_visits@[u]@.len()
                    implies t1.user_visits@[u]@[j].visit != t1.user_visits@[u]@[k].visit by {
                if u != v.user {
                    assert(t0.user_visits@[u]@[j].visit != t0.user_visits@[u]@[k].visit);
                } else {
                    let jj = if j < pos as int { j } else { j - 1 };
                    let kk = if k < pos as int { k } else { k - 1 };
                    if j == pos as int {
                        assert(news[j] == rowg);
                        assert(t0.uv_entry_ok(u, kk));
                        assert(news[k] == olds[kk]);
                        assert(olds[kk].visit != v.id);
                    } else if k == pos as int {
                        assert(news[k] == rowg);
                        assert(t0.uv_entry_ok(u, jj));
                        assert(news[j] == olds[jj]);
                        assert(olds[jj].visit != v.id);
                    } else {
                        assert(news[j] == olds[jj]);
                        assert(news[k] == olds[kk]);
                        assert(t0.user_visits@[u]@[jj].visit != t0.user_visits@[u]@[kk].visit);
                    }
                }
            }
            assert forall|i: i32| #[trigger]
                t1.visits@.contains_key(i) implies t1.uv_has_row(i) by {
                if i == v.id {
                    assert(t1.visits@[i] == v);
                    assert(news == olds.insert(pos as int, rowg));
                    assert(0 <= pos as int && (pos as int) < news.len());
                    assert(news[pos as int] == rowg);
                    assert(t1.user_visits@[v.user]@[pos as int].visit == i);
                } else {
                    let v2 = t1.visits@[i];
                    assert(t0.visits@.contains_key(i));
                    assert(t0.uv_has_row(i));
                    let j = choose|j: int|
                        0 <= j < t0.user_visits@[v2.user]@.len() && #[trigger] t0.user_visits@[
                            v2.user
                        ]@[j].visit == i;
                    if v2.user == v.user {
                        if j < pos as int {
                            assert(news[j] == olds[j]);
                            assert(t1.user_visits@[v2.user]@[j].visit == i);
                        } else {
                            assert(news[j + 1] == olds[j]);
                            assert(t1.user_visits@[v2.user]@[j + 1].visit == i);
                        }
                    } else {
                        assert(t1.user_visits@[v2.user]@ == t0.user_visits@[v2.user]@);
                        assert(t1.user_visits@[v2.user]@[j].visit == i);
                    }
                }
            }
            assert forall|l: i32, j: int|
                t1.location_marks@.contains_key(l) && 0 <= j < t1.location_marks@[l]@.len()
                    implies #[trigger] t1.lm_entry_ok(l, j) by {
                if l != v.location {
                    assert(t0.lm_entry_ok(l, j));
                    let e = t0.location_marks@[l]@[j];
                    assert(e.visit != v.id);
                } else {
                    let oldm = t0.location_marks@[l]@;
                    if j < oldm.len() {
                        assert(t1.location_marks@[l]@[j] == oldm[j]);
                        assert(t0.lm_entry_ok(l, j));
                        assert(oldm[j].visit != v.id);
                    } else {
                        assert(t1.location_marks@[l]@[j] == lmrow);
                        assert(t1.visits@[v.id] == v);
                    }
                }
            }
            assert forall|l: i32, j: int, k: int|
                t1.location_marks@.contains_key(l) && 0 <= j < k < t1.location_marks@[l]@.len()
                    implies t1.location_marks@[l]@[j].visit != t1.location_marks@[l]@[k].visit by {
                if l != v.location {
                    assert(t0.location_marks@[l]@[j].visit != t0.location_marks@[l]@[k].visit);
                } else {
                    let oldm = t0.location_marks@[l]@;
                    if k < oldm.len() {
                        assert(t0.location_marks@[l]@[j].visit != t0.location_marks@[l]@[k].visit);
                    } else {
                        assert(t1.location_marks@[l]@[k] == lmrow);
                        assert(t0.lm_entry_ok(l, j));
                        assert(oldm[j].visit != v.id);
                    }
                }
            }
            assert forall|i: i32| #[trigger]
                t1.visits@.contains_key(i) implies t1.lm_has_row(i) by {
                if i == v.id {
                    let nl = t1.location_marks@[v.location]@;
                    assert(nl[nl.len() - 1].visit == v.id);
                } else {
                    let v2 = t1.visits@[i];
                    assert(t0.visits@.contains_key(i));
                    assert(t0.lm_has_row(i));
                    let j = choose|j: int|
                        0 <= j < t0.location_marks@[v2.location]@.len()
                            && #[trigger] t0.location_marks@[v2.location]@[j].visit == i;
                    assert(t1.location_marks@[v2.location]@[j].visit == i);
                }
            }
            assert forall|u: i32| #[trigger]
                t1.user_visits@.contains_key(u) implies uv_sorted_list(t1.user_visits@[u]@) by {
                if u != v.user {
                    assert(uv_sorted_list(t0.user_visits@[u]@));
                }
            }
        }
        Ok(())
    }

    /// Overlays a partial update onto a user and propagates the new gender and
    /// birth date into every mark row of that user, in every mark list.
    pub fn update_user(&mut self, id: i32, p: &UserPatch) -> (r: Result<(), ApiError>)
        requires
            old(self).inv(),
        ensures
            final(self).inv(),
            r is Ok <==> old(self).users@.contains_key(id),
            r is Err ==> r == Err::<(), ApiError>(ApiError::NotFound) && *final(self) == *old(self),
            r is Ok ==> {
                &&& final(self).users@.dom() == old(self).users@.dom()
                &&& user_overlaid(final(self).users@[id], old(self).users@[id], *p)
                &&& forall|k: i32|
                    k != id && old(self).users@.contains_key(k) ==> #[trigger] final(self).users@[k]
                        == old(self).users@[k]
                &&& final(self).locations@ == old(self).locations@
                &&& final(self).visits@ == old(self).visits@
                &&& final(self).user_visits@ == old(self).user_visits@
                &&& final(self).location_marks@.dom() == old(self).location_marks@.dom()
                &&& forall|l: i32|
                    old(self).location_marks@.contains_key(l) ==> #[trigger] lm_refreshed(
                        old(self).location_marks@[l]@,
                        final(self).location_marks@[l]@,
                        id,
                        spec_gender_of(final(self).users@[id].gender@),
                        final(self).users@[id].birth_date,
                    )
            },
    {
        if !self.exists_user(id) {
            return Err(ApiError::NotFound);
        }
        let ghost t0 = *self;
        let newu = {
            let u = self.load_user(id).unwrap();
            apply_user_patch(u, p)
        };
        let g = gender_of(&newu.gender);
        let bd = newu.birth_date;
        proof {
            assert(t0.user_visits@.contains_key(id));
        }
        let locs = {
            let l = self.load_user_visits(id).unwrap();
            collect_uv_locations(l)
        };
        let mut idx: usize = 0;
        while idx < locs.len()
            invariant
                t0.inv(),
                idx <= locs@.len(),
                t0.users@.contains_key(id),
                t0.user_visits@.contains_key(id),
                locs@.len() == t0.user_visits@[id]@.len(),
                forall|j: int|
                    0 <= j < locs@.len() ==> #[trigger] locs@[j] == t0.user_visits@[id]@[j].location,
                self.users@ == t0.users@,
                self.locations@ == t0.locations@,
                self.visits@ == t0.visits@,
                self.user_visits@ == t0.user_visits@,
                self.location_marks@.dom() == t0.location_marks@.dom(),
                forall|l: i32|
                    t0.location_marks@.contains_key(l) ==> (#[trigger] lm_refreshed(
                        t0.location_marks@[l]@,
                        self.location_marks@[l]@,
                        id,
                        g,
                        bd,
                    ) || self.location_marks@[l] == t0.location_marks@[l]),
                forall|k: int|
                    0 <= k < idx ==> #[trigger] lm_refreshed(
                        t0.location_marks@[locs@[k]]@,
                        self.location_marks@[locs@[k]]@,
                        id,
                        g,
                        bd,
                    ),
            decreases locs@.len() - idx,
        {
            let lid = locs[idx];
            proof {
                assert(t0.uv_entry_ok(id, idx as int));
                assert(t0.locations@.contains_key(lid));
                assert(t0.location_marks@.contains_key(lid));
            }
            let ghost prev = self.location_marks@[lid]@;
            let mut ml = self.location_marks.remove(&lid).unwrap();
            refresh_marks_user(&mut ml, id, g, bd);
            self.location_marks.insert(lid, ml);
            proof {
                assert(self.location_marks@.dom() =~= t0.location_marks@.dom());
                if self.location_marks@[lid] != t0.location_marks@[lid]
                    || !lm_refreshed(t0.location_marks@[lid]@, prev, id, g, bd) {
                }
                if lm_refreshed(t0.location_marks@[lid]@, prev, id, g, bd) {
                    lemma_lm_refresh_idem(
                        t0.location_marks@[lid]@,
                        prev,
                        self.location_marks@[lid]@,
                        id,
                        g,
                        bd,
                    );
                } else {
                    assert(prev == t0.location_marks@[lid]@);
                }
            }
            idx = idx + 1;
        }
        self.users.insert(id, newu);
        proof {
            let t1 = *self;
            assert(t1.users@.dom() =~= t0.users@.dom());
            // a mark list holding a row of this user was visited by the loop
            assert forall|l: i32|
                t0.location_marks@.contains_key(l) implies #[trigger] lm_refreshed(
                t0.location_marks@[l]@,
                t1.location_marks@[l]@,
                id,
                g,
                bd,
            ) by {
                if exists|k: int| 0 <= k < locs@.len() && #[trigger] locs@[k] == l {
                    let k = choose|k: int| 0 <= k < locs@.len() && #[trigger] locs@[k] == l;
                    assert(lm_refreshed(
                        t0.location_marks@[locs@[k]]@,
                        t1.location_marks@[locs@[k]]@,
                        id,
                        g,
                        bd,
                    ));
                } else {
                    assert forall|j: int|
                        0 <= j < t0.location_marks@[l]@.len() implies t0.location_marks@[
                        l
                    ]@[j].user != id by {
                        if t0.location_marks@[l]@[j].user == id {
                            assert(t0.lm_entry_ok(l, j));
                            let e = t0.location_marks@[l]@[j];
                            let w = t0.visits@[e.visit];
                            assert(w.user == id && w.location == l);
                            assert(t0.uv_has_row(e.visit));
                            let jj = choose|jj: int|
                                0 <= jj < t0.user_visits@[id]@.len() && #[trigger] t0.user_visits@[
                                    id
                                ]@[jj].visit == e.visit;
                            assert(t0.uv_entry_ok(id, jj));
                            assert(t0.user_visits@[id]@[jj].location == l);
                            assert(locs@[jj] == l);
                        }
                    }
                    if t1.location_marks@[l] == t0.location_marks@[l] {
                    } else {
                        assert(lm_refreshed(t0.location_marks@[l]@, t1.location_marks@[l]@, id, g, bd));
                    }
                }
            }
            // coherence is restored
            assert forall|u: i32, j: int|
                t1.user_visits@.contains_key(u) && 0 <= j < t1.user_visits@[u]@.len()
                    implies #[trigger] t1.uv_entry_ok(u, j) by {
                assert(t0.uv_entry_ok(u, j));
            }
            assert forall|i: i32| #[trigger]
                t1.visits@.contains_key(i) implies t1.uv_has_row(i) by {
                let v2 = t1.visits@[i];
                assert(t0.uv_has_row(i));
                let j = choose|j: int|
                    0 <= j < t0.user_visits@[v2.user]@.len() && #[trigger] t0.user_visits@[
                        v2.user
                    ]@[j].visit == i;
                assert(t1.user_visits@[v2.user]@[j].visit == i);
            }
            assert forall|l: i32, j: int|
                t1.location_marks@.contains_key(l) && 0 <= j < t1.location_marks@[l]@.len()
                    implies #[trigger] t1.lm_entry_ok(l, j) by {
                assert(lm_refreshed(t0.location_marks@[l]@, t1.location_marks@[l]@, id, g, bd));
                assert(t0.location_marks@[l]@.len() == t1.location_marks@[l]@.len());
                assert(t0.lm_entry_ok(l, j));
                let e = t0.location_marks@[l]@[j];
                let e2 = t1.location_marks@[l]@[j];
                assert(lm_refreshed(t0.location_marks@[l]@, t1.location_marks@[l]@, id, g, bd));
                let w = t0.visits@[e.visit];
                if e.user == id {
                    assert(e2 == LocationMark { gender: g, birth_date: bd, ..e });
                    assert(t1.users@[w.user] == newu);
                } else {
                    assert(e2 == e);
                    assert(t1.users@[w.user] == t0.users@[w.user]);
                }
            }
            assert forall|l: i32, j: int, k: int|
                t1.location_marks@.contains_key(l) && 0 <= j < k < t1.location_marks@[l]@.len()
                    implies t1.location_marks@[l]@[j].visit != t1.location_marks@[l]@[k].visit by {
                assert(lm_refreshed(t0.location_marks@[l]@, t1.location_marks@[l]@, id, g, bd));
                assert(t0.location_marks@[l]@.len() == t1.location_marks@[l]@.len());
                assert(t1.location_marks@[l]@[j].visit == t0.location_marks@[l]@[j].visit);
                assert(t1.location_marks@[l]@[k].visit == t0.location_marks@[l]@[k].visit);
                assert(t0.location_marks@[l]@[j].visit != t0.location_marks@[l]@[k].visit);
            }
            assert forall|i: i32| #[trigger]
                t1.visits@.contains_key(i) implies t1.lm_has_row(i) by {
                let v2 = t1.visits@[i];
                assert(t0.lm_has_row(i));
                let j = choose|j: int|
                    0 <= j < t0.location_marks@[v2.location]@.len() && #[trigger] t0.location_marks@[
                        v2.location
                    ]@[j].visit == i;
                assert(lm_refreshed(
                    t0.location_marks@[v2.location]@,
                    t1.location_marks@[v2.location]@,
                    id,
                    g,
                    bd,
                ));
                assert(t1.location_marks@[v2.location]@[j].visit == i);
            }
            assert forall|u: i32| #[trigger]
                t1.user_visits@.contains_key(u) implies uv_sorted_list(t1.user_visits@[u]@) by {
                assert(uv_sorted_list(t0.user_visits@[u]@));
            }
        }
        Ok(())
    }

    /// Overlays a partial update onto a location and propagates the new
    /// distance, country and place into every visit row at that location, in
    /// every visit list.
    pub fn update_location(&mut self, id: i32, p: &LocationPatch) -> (r: Result<(), ApiError>)
        requires
            old(self).inv(),
        ensures
            final(self).inv(),
            r is Ok <==> old(self).locations@.contains_key(id),
            r is Err ==> r == Err::<(), ApiError>(ApiError::NotFound) && *final(self) == *old(self),
            r is Ok ==> {
                &&& final(self).locations@.dom() == old(self).locations@.dom()
                &&& location_overlaid(final(self).locations@[id], old(self).locations@[id], *p)
                &&& forall|k: i32|
                    k != id && old(self).locations@.contains_key(k) ==> #[trigger] final(self).locations@[k]
                        == old(self).locations@[k]
                &&& final(self).users@ == old(self).users@
                &&& final(self).visits@ == old(self).visits@
                &&& final(self).location_marks@ == old(self).location_marks@
                &&& final(self).user_visits@.dom() == old(self).user_visits@.dom()
                &&& forall|u: i32|
                    old(self).user_visits@.contains_key(u) ==> #[trigger] uv_loc_refreshed(
                        old(self).user_visits@[u]@,
                        final(self).user_visits@[u]@,
                        id,
                        final(self).locations@[id],
                    )
            },
    {
        if !self.exists_location(id) {
            return Err(ApiError::NotFound);
        }
        let ghost t0 = *self;
        let newl = {
            let l = self.load_location(id).unwrap();
            apply_location_patch(l, p)
        };
        proof {
            assert(t0.location_marks@.contains_key(id));
        }
        let users = {
            let l = self.load_location_mark_list(id).unwrap();
            collect_lm_users(l)
        };
        let mut idx: usize = 0;
        while idx < users.len()
            invariant
                t0.inv(),
                idx <= users@.len(),
                t0.locations@.contains_key(id),
                t0.location_marks@.contains_key(id),
                users@.len() == t0.location_marks@[id]@.len(),
                forall|j: int|
                    0 <= j < users@.len() ==> #[trigger] users@[j] == t0.location_marks@[
                        id
                    ]@[j].user,
                location_overlaid(newl, t0.locations@[id], *p),
                self.users@ == t0.users@,
                self.locations@ == t0.locations@,
                self.visits@ == t0.visits@,
                self.location_marks@ == t0.location_marks@,
                self.user_visits@.dom() == t0.user_visits@.dom(),
                forall|u: i32|
                    t0.user_visits@.contains_key(u) ==> (#[trigger] uv_loc_refreshed(
                        t0.user_visits@[u]@,
                        self.user_visits@[u]@,
                        id,
                        newl,
                    ) || self.user_visits@[u] == t0.user_visits@[u]),
                forall|k: int|
                    0 <= k < idx ==> #[trigger] uv_loc_refreshed(
                        t0.user_visits@[users@[k]]@,
                        self.user_visits@[users@[k]]@,
                        id,
                        newl,
                    ),
            decreases users@.len() - idx,
        {
            let uid = users[idx];
            proof {
                assert(t0.lm_entry_ok(id, idx as int));
                assert(t0.users@.contains_key(uid));
                assert(t0.user_visits@.contains_key(uid));
            }
            let ghost prev = self.user_visits@[uid]@;
            let mut vl = self.user_visits.remove(&uid).unwrap();
            refresh_visits_location(&mut vl, id, &newl);
            self.user_visits.insert(uid, vl);
            proof {
                assert(self.user_visits@.dom() =~= t0.user_visits@.dom());
                if uv_loc_refreshed(t0.user_visits@[uid]@, prev, id, newl) {
                    lemma_uv_loc_refresh_idem(
                        t0.user_visits@[uid]@,
                        prev,
                        self.user_visits@[uid]@,
                        id,
                        newl,
                    );
                } else {
                    assert(prev == t0.user_visits@[uid]@);
                }
            }
            idx = idx + 1;
        }
        self.locations.insert(id, newl);
        proof {
            let t1 = *self;
            let ghost nl = t1.locations@[id];
            assert(t1.locations@.dom() =~= t0.locations@.dom());
            // a visit list holding a row at this location was visited by the loop
            assert forall|u: i32|
                t0.user_visits@.contains_key(u) implies #[trigger] uv_loc_refreshed(
                t0.user_visits@[u]@,
                t1.user_visits@[u]@,
                id,
                nl,
            ) by {
                if exists|k: int| 0 <= k < users@.len() && #[trigger] users@[k] == u {
                    let k = choose|k: int| 0 <= k < users@.len() && #[trigger] users@[k] == u;
                    assert(uv_loc_refreshed(
                        t0.user_visits@[users@[k]]@,
                        t1.user_visits@[users@[k]]@,
                        id,
                        nl,
                    ));
                } else {
                    assert forall|j: int|
                        0 <= j < t0.user_visits@[u]@.len() implies t0.user_visits@[
                        u
                    ]@[j].location != id by {
                        if t0.user_visits@[u]@[j].location == id {
                            assert(t0.uv_entry_ok(u, j));
                            let e = t0.user_visits@[u]@[j];
                            let w = t0.visits@[e.visit];
                            assert(w.location == id && w.user == u);
                            assert(t0.lm_has_row(e.visit));
                            let jj = choose|jj: int|
                                0 <= jj < t0.location_marks@[id]@.len()
                                    && #[trigger] t0.location_marks@[id]@[jj].visit == e.visit;
                            assert(t0.lm_entry_ok(id, jj));
                            assert(t0.location_marks@[id]@[jj].user == u);
                            assert(users@[jj] == u);
                        }
                    }
                    if t1.user_visits@[u] == t0.user_visits@[u] {
                        assert forall|j: int|
                            0 <= j < t0.user_visits@[u]@.len() implies #[trigger] uv_row_loc_refresh(
                            t0.user_visits@[u]@[j],
                            t1.user_visits@[u]@[j],
                            id,
                            nl,
                        ) by {
                            assert(t0.user_visits@[u]@[j].location != id);
                        }
                    } else {
                        assert(uv_loc_refreshed(t0.user_visits@[u]@, t1.user_visits@[u]@, id, nl));
                    }
                }
            }
            // coherence is restored
            assert forall|u: i32, j: int|
                t1.user_visits@.contains_key(u) && 0 <= j < t1.user_visits@[u]@.len()
                    implies #[trigger] t1.uv_entry_ok(u, j) by {
                assert(uv_loc_refreshed(t0.user_visits@[u]@, t1.user_visits@[u]@, id, nl));
                assert(t0.user_visits@[u]@.len() == t1.user_visits@[u]@.len());
                assert(t0.uv_entry_ok(u, j));
                assert(uv_row_loc_refresh(t0.user_visits@[u]@[j], t1.user_visits@[u]@[j], id, nl));
                let e = t0.user_visits@[u]@[j];
                let w = t0.visits@[e.visit];
                if e.location == id {
                    assert(w.location == id);
                    assert(t1.locations@[w.location] == newl);
                } else {
                    assert(w.location != id);
                    assert(t1.locations@[w.location] == t0.locations@[w.location]);
                }
            }
            assert forall|u: i32, j: int, k: int|
                t1.user_visits@.contains_key(u) && 0 <= j < k < t1.user_visits@[u]@.len()
                    implies t1.user_visits@[u]@[j].visit != t1.user_visits@[u]@[k].visit by {
                assert(uv_loc_refreshed(t0.user_visits@[u]@, t1.user_visits@[u]@, id, nl));
                assert(t0.user_visits@[u]@.len() == t1.user_visits@[u]@.len());
                assert(uv_row_loc_refresh(t0.user_visits@[u]@[j], t1.user_visits@[u]@[j], id, nl));
                assert(uv_row_loc_refresh(t0.user_visits@[u]@[k], t1.user_visits@[u]@[k], id, nl));
                assert(t0.user_visits@[u]@[j].visit != t0.user_visits@[u]@[k].visit);
            }
            assert forall|i: i32| #[trigger]
                t1.visits@.contains_key(i) implies t1.uv_has_row(i) by {
                let v2 = t1.visits@[i];
                assert(t0.uv_has_row(i));
                let j = choose|j: int|
                    0 <= j < t0.user_visits@[v2.user]@.len() && #[trigger] t0.user_visits@[
                        v2.user
                    ]@[j].visit == i;
                assert(uv_loc_refreshed(
                    t0.user_visits@[v2.user]@,
                    t1.user_visits@[v2.user]@,
                    id,
                    nl,
                ));
                assert(uv_row_loc_refresh(
                    t0.user_visits@[v2.user]@[j],
                    t1.user_visits@[v2.user]@[j],
                    id,
                    nl,
                ));
                assert(t1.user_visits@[v2.user]@[j].visit == i);
            }
            assert forall|l: i32, j: int|
                t1.location_marks@.contains_key(l) && 0 <= j < t1.location_marks@[l]@.len()
                    implies #[trigger] t1.lm_entry_ok(l, j) by {
                assert(t0.lm_entry_ok(l, j));
            }
            assert forall|i: i32| #[trigger]
                t1.visits@.contains_key(i) implies t1.lm_has_row(i) by {
                let v2 = t1.visits@[i];
                assert(t0.lm_has_row(i));
                let j = choose|j: int|
                    0 <= j < t0.location_marks@[v2.location]@.len() && #[trigger] t0.location_marks@[
                        v2.location
                    ]@[j].visit == i;
                assert(t1.location_marks@[v2.location]@[j].visit == i);
            }
            assert forall|u: i32| #[trigger]
                t1.user_visits@.contains_key(u) implies uv_sorted_list(t1.user_visits@[u]@) by {
                assert(uv_loc_refreshed(t0.user_visits@[u]@, t1.user_visits@[u]@, id, nl));
                assert(t0.user_visits@[u]@.len() == t1.user_visits@[u]@.len());
                assert(uv_sorted_list(t0.user_visits@[u]@));
                assert forall|j: int, k: int|
                    0 <= j <= k < t1.user_visits@[u]@.len() implies t1.user_visits@[
                    u
                ]@[j].visited_at <= t1.user_visits@[u]@[k].visited_at by {
                    assert(uv_row_loc_refresh(
                        t0.user_visits@[u]@[j],
                        t1.user_visits@[u]@[j],
                        id,
                        nl,
                    ));
                    assert(uv_row_loc_refresh(
                        t0.user_visits@[u]@[k],
                        t1.user_visits@[u]@[k],
                        id,
                        nl,
                    ));
                    assert(t0.user_visits@[u]@[j].visited_at <= t0.user_visits@[u]@[k].visited_at);
                }
            }
        }
        Ok(())
    }

    /// Overlays a partial update onto a visit and reconciles both indices:
    /// the visit's row in each index is rewritten from the new values, moved
    /// to another list when the user or the location changed, and the visit
    /// list is kept sorted by time.
    #[verifier::rlimit(100)]
    pub fn update_visit(&mut self, id: i32, p: &VisitPatch) -> (r: Result<(), ApiError>)
        requires
            old(self).inv(),
        ensures
            final(self).inv(),
            ({
                let fk_ok = (match p.user {
                    Some(u) => old(self).users@.contains_key(u),
                    None => true,
                }) && (match p.location {
                    Some(l) => old(self).locations@.contains_key(l),
                    None => true,
                });
                &&& (r is Ok <==> fk_ok && old(self).visits@.contains_key(id))
                &&& (!fk_ok ==> r == Err::<(), ApiError>(ApiError::FkMissing))
                &&& (fk_ok && !old(self).visits@.contains_key(id) ==> r == Err::<(), ApiError>(
                    ApiError::NotFound,
                ))
                &&& (r is Err ==> *final(self) == *old(self))
            }),
            r is Ok ==> ({
                let v0 = old(self).visits@[id];
                let v1 = spec_visit_overlay(v0, *p);
                let loc1 = old(self).locations@[v1.location];
                let u1 = old(self).users@[v1.user];
                &&& final(self).users@ == old(self).users@
                &&& final(self).locations@ == old(self).locations@
                &&& final(self).visits@ == old(self).visits@.insert(id, v1)
                &&& final(self).user_visits@.dom() == old(self).user_visits@.dom()
                &&& final(self).location_marks@.dom() == old(self).location_marks@.dom()
                &&& (if v1.user == v0.user {
                    &&& (forall|k: i32|
                        k != v0.user && old(self).user_visits@.contains_key(k)
                            ==> #[trigger] final(self).user_visits@[k] == old(self).user_visits@[k])
                    &&& uv_replaced(
                        old(self).user_visits@[v0.user]@,
                        final(self).user_visits@[v0.user]@,
                        v1,
                        loc1,
                    )
                } else {
                    &&& (forall|k: i32|
                        k != v0.user && k != v1.user && old(self).user_visits@.contains_key(k)
                            ==> #[trigger] final(self).user_visits@[k] == old(self).user_visits@[k])
                    &&& uv_removed(
                        old(self).user_visits@[v0.user]@,
                        final(self).user_visits@[v0.user]@,
                        id,
                    )
                    &&& exists|e: UserVisit|
                        #[trigger] uv_row_matches(e, v1, loc1) && uv_list_inserted(
                            old(self).user_visits@[v1.user]@,
                            final(self).user_visits@[v1.user]@,
                            e,
                        )
                })
                &&& (if v1.location == v0.location {
                    &&& (forall|k: i32|
                        k != v0.location && old(self).location_marks@.contains_key(k)
                            ==> #[trigger] final(self).location_marks@[k] == old(self).location_marks@[k])
                    &&& lm_replaced(
                        old(self).location_marks@[v0.location]@,
                        final(self).location_marks@[v0.location]@,
                        v1,
                        u1,
                    )
                } else {
                    &&& (forall|k: i32|
                        k != v0.location && k != v1.location
                            && old(self).location_marks@.contains_key(k)
                            ==> #[trigger] final(self).location_marks@[k] == old(self).location_marks@[k])
                    &&& lm_removed(
                        old(self).location_marks@[v0.location]@,
                        final(self).location_marks@[v0.location]@,
                        id,
                    )
                    &&& final(self).location_marks@[v1.location]@.len() == old(self).location_marks@[v1.location]@.len() + 1
                    &&& final(self).location_marks@[v1.location]@.drop_last() == old(self).location_marks@[v1.location]@
                    &&& lm_row_matches(final(self).location_marks@[v1.location]@.last(), v1, u1)
                })
            }),
    {
        match p.user {
            Some(u) => {
                if !self.exists_user(u) {
                    return Err(ApiError::FkMissing);
                }
            },
            None => {},
        }
        match p.location {
            Some(l) => {
                if !self.exists_location(l) {
                    return Err(ApiError::FkMissing);
                }
            },
            None => {},
        }
        if !self.exists_visit(id) {
            return Err(ApiError::NotFound);
        }
        let ghost t0 = *self;
        let v0 = *self.load_visit(id).unwrap();
        let v1 = apply_visit_patch(&v0, p);
        let ghost vmap1 = t0.visits@.insert(id, v1);
        let ghost loc1 = t0.locations@[v1.location];
        let ghost u1g = t0.users@[v1.user];
        proof {
            assert(v0.id == id);
            assert(v1.id == id);
            assert(t0.users@.contains_key(v1.user)) by {
                match p.user {
                    Some(_) => {},
                    None => {
                        assert(t0.fks_ok());
                        assert(t0.visits@.contains_key(id));
                    },
                }
            }
            assert(t0.locations@.contains_key(v1.location)) by {
                match p.location {
                    Some(_) => {},
                    None => {
                        assert(t0.fks_ok());
                        assert(t0.visits@.contains_key(id));
                    },
                }
            }
            assert(t0.users@.contains_key(v0.user));
            assert(t0.locations@.contains_key(v0.location));
            assert(t0.user_visits@.contains_key(v0.user));
            assert(t0.user_visits@.contains_key(v1.user));
            assert(t0.location_marks@.contains_key(v0.location));
            assert(t0.location_marks@.contains_key(v1.location));
        }
        let uvrow = {
            let loc = self.load_location(v1.location).unwrap();
            make_uv_row(&v1, loc)
        };
        let lmrow = {
            let u = self.load_user(v1.user).unwrap();
            make_lm_row(&v1, u)
        };
        let ghost uvrowg = uvrow;
        proof {
            assert(uv_row_matches(uvrowg, v1, loc1));
            assert(lm_row_matches(lmrow, v1, u1g));
        }
        // ---- the visit-list side ----
        if v1.user == v0.user {
            let mut list = self.user_visits.remove(&v0.user).unwrap();
            let ghost olds = list@;
            let posopt = find_uv_pos(&list, id);
            proof {
                assert(t0.uv_has_row(id));
                if posopt is None {
                    let w = choose|j: int|
                        0 <= j < t0.user_visits@[v0.user]@.len() && #[trigger] t0.user_visits@[
                            v0.user
                        ]@[j].visit == id;
                    assert(olds[w].visit == id);
                }
            }
            let pos = posopt.unwrap();
            list.remove(pos);
            let ip = uv_stable_pos(&list, uvrow.visited_at, pos);
            list.insert(ip, uvrow);
            self.user_visits.insert(v0.user, list);
            proof {
                lemma_uv_from_inv(t0, v0.user);
                assert(olds == t0.user_visits@[v0.user]@);
                lemma_uv_rebuild(
                    olds,
                    self.user_visits@[v0.user]@,
                    pos as int,
                    ip as int,
                    uvrowg,
                    v0.user,
                    v1,
                    t0.visits@,
                    vmap1,
                    t0.locations@,
                );
            }
        } else {
            let mut oldl = self.user_visits.remove(&v0.user).unwrap();
            let ghost olds_a = oldl@;
            let posopt = find_uv_pos(&oldl, id);
            proof {
                assert(t0.uv_has_row(id));
                if posopt is None {
                    let w = choose|j: int|
                        0 <= j < t0.user_visits@[v0.user]@.len() && #[trigger] t0.user_visits@[
                            v0.user
                        ]@[j].visit == id;
                    assert(olds_a[w].visit == id);
                }
            }
            let pos = posopt.unwrap();
            oldl.remove(pos);
            self.user_visits.insert(v0.user, oldl);
            proof {
                lemma_uv_from_inv(t0, v0.user);
                assert(olds_a == t0.user_visits@[v0.user]@);
                lemma_uv_remove_row(
                    olds_a,
                    self.user_visits@[v0.user]@,
                    pos as int,
                    v0.user,
                    v1,
                    t0.visits@,
                    vmap1,
                    t0.locations@,
                );
            }
            let mut newl = self.user_visits.remove(&v1.user).unwrap();
            let ghost olds_b = newl@;
            let ip = uv_insert_pos(&newl, uvrow.visited_at);
            newl.insert(ip, uvrow);
            self.user_visits.insert(v1.user, newl);
            proof {
                lemma_uv_from_inv(t0, v1.user);
                assert(olds_b == t0.user_visits@[v1.user]@);
                lemma_uv_insert_row(
                    olds_b,
                    self.user_visits@[v1.user]@,
                    ip as int,
                    uvrowg,
                    v1.user,
                    v1,
                    t0.visits@,
                    vmap1,
                    t0.locations@,
                );
            }
        }
        // ---- the mark-list side ----
        if v1.location == v0.location {
            let mut ml = self.location_marks.remove(&v0.location).unwrap();
            let ghost oldm = ml@;
            let mpopt = find_lm_pos(&ml, id);
            proof {
                assert(t0.lm_has_row(id));
                if mpopt is None {
                    let w = choose|j: int|
                        0 <= j < t0.location_marks@[v0.location]@.len()
                            && #[trigger] t0.location_marks@[v0.location]@[j].visit == id;
                    assert(oldm[w].visit == id);
                }
            }
            let mp = mpopt.unwrap();
            ml.remove(mp);
            ml.push(lmrow);
            self.location_marks.insert(v0.location, ml);
            proof {
                lemma_lm_from_inv(t0, v0.location);
                assert(oldm == t0.location_marks@[v0.location]@);
                lemma_lm_rebuild(
                    oldm,
                    self.location_marks@[v0.location]@,
                    mp as int,
                    lmrow,
                    v0.location,
                    v1,
                    t0.visits@,
                    vmap1,
                    t0.users@,
                );
            }
        } else {
            let mut oldml = self.location_marks.remove(&v0.location).unwrap();
            let ghost oldm_a = oldml@;
            let mpopt = find_lm_pos(&oldml, id);
            proof {
                assert(t0.lm_has_row(id));
                if mpopt is None {
                    let w = choose|j: int|
                        0 <= j < t0.location_marks@[v0.location]@.len()
                            && #[trigger] t0.location_marks@[v0.location]@[j].visit == id;
                    assert(oldm_a[w].visit == id);
                }
            }
            let mp = mpopt.unwrap();
            oldml.remove(mp);
            self.location_marks.insert(v0.location, oldml);
            proof {
                lemma_lm_from_inv(t0, v0.location);
                assert(oldm_a == t0.location_marks@[v0.location]@);
                lemma_lm_remove_row(
                    oldm_a,
                    self.location_marks@[v0.location]@,
                    mp as int,
                    v0.location,
                    v1,
                    t0.visits@,
                    vmap1,
                    t0.users@,
                );
            }
            let mut newml = self.location_marks.remove(&v1.location).unwrap();
            let ghost oldm_b = newml@;
            newml.push(lmrow);
            self.location_marks.insert(v1.location, newml);
            proof {
                lemma_lm_from_inv(t0, v1.location);
                assert(oldm_b == t0.location_marks@[v1.location]@);
                lemma_lm_push_row(
                    oldm_b,
                    self.location_marks@[v1.location]@,
                    lmrow,
                    v1.location,
                    v1,
                    t0.visits@,
                    vmap1,
                    t0.users@,
                );
            }
        }
        self.visits.insert(id, v1);
        proof {
            let t1 = *self;
            assert(t1.visits@ == vmap1);
            assert(t1.user_visits@.dom() =~= t0.user_visits@.dom());
            assert(t1.location_marks@.dom() =~= t0.location_marks@.dom());
            assert forall|i: i32| #[trigger]
                t1.visits@.contains_key(i) implies t1.users@.contains_key(t1.visits@[i].user)
                && t1.locations@.contains_key(t1.visits@[i].location) by {
                if i != id {
                    assert(t0.visits@.contains_key(i));
                }
            }
            assert forall|u: i32, j: int|
                t1.user_visits@.contains_key(u) && 0 <= j < t1.user_visits@[u]@.len()
                    implies #[trigger] t1.uv_entry_ok(u, j) by {
                if u == v0.user || u == v1.user {
                    assert(uv_list_coherent(t1.user_visits@[u]@, u, vmap1, t0.locations@));
                    assert(0 <= j < t1.user_visits@[u]@.len());
                } else {
                    assert(t1.user_visits@[u]@ == t0.user_visits@[u]@);
                    assert(t0.uv_entry_ok(u, j));
                    let e = t0.user_visits@[u]@[j];
                    if e.visit == id {
                        assert(t0.visits@[id].user == u);
                        assert(false);
                    }
                }
            }
            assert forall|u: i32, j: int, k: int|
                t1.user_visits@.contains_key(u) && 0 <= j < k < t1.user_visits@[u]@.len()
                    implies t1.user_visits@[u]@[j].visit != t1.user_visits@[u]@[k].visit by {
                if u == v0.user || u == v1.user {
                    assert(uv_list_distinct(t1.user_visits@[u]@));
                } else {
                    assert(t1.user_visits@[u]@ == t0.user_visits@[u]@);
                    assert(t0.user_visits@[u]@[j].visit != t0.user_visits@[u]@[k].visit);
                }
            }
            assert forall|i: i32| #[trigger]
                t1.visits@.contains_key(i) implies t1.uv_has_row(i) by {
                let w = t1.visits@[i];
                if i == id {
                    assert(w == v1);
                    assert(uv_list_has(t1.user_visits@[v1.user]@, id));
                    let j = choose|j: int|
                        0 <= j < t1.user_visits@[v1.user]@.len() && (#[trigger] t1.user_visits@[
                            v1.user
                        ]@[j]).visit == id;
                    assert(t1.user_visits@[w.user]@[j].visit == i);
                } else {
                    assert(t0.visits@.contains_key(i));
                    assert(w == t0.visits@[i]);
                    assert(t0.uv_has_row(i));
                    let j = choose|j: int|
                        0 <= j < t0.user_visits@[w.user]@.len() && #[trigger] t0.user_visits@[
                            w.user
                        ]@[j].visit == i;
                    assert(uv_list_has(t0.user_visits@[w.user]@, i));
                    if w.user == v0.user || w.user == v1.user {
                        assert(uv_list_has(t1.user_visits@[w.user]@, i));
                        let j2 = choose|j2: int|
                            0 <= j2 < t1.user_visits@[w.user]@.len() && (#[trigger] t1.user_visits@[
                                w.user
                            ]@[j2]).visit == i;
                        assert(t1.user_visits@[w.user]@[j2].visit == i);
                    } else {
                        assert(t1.user_visits@[w.user]@ == t0.user_visits@[w.user]@);
                        assert(t1.user_visits@[w.user]@[j].visit == i);
                    }
                }
            }
            assert forall|l: i32, j: int|
                t1.location_marks@.contains_key(l) && 0 <= j < t1.location_marks@[l]@.len()
                    implies #[trigger] t1.lm_entry_ok(l, j) by {
                if l == v0.location || l == v1.location {
                    assert(lm_list_coherent(t1.location_marks@[l]@, l, vmap1, t0.users@));
                    assert(0 <= j < t1.location_marks@[l]@.len());
                } else {
                    assert(t1.location_marks@[l]@ == t0.location_marks@[l]@);
                    assert(t0.lm_entry_ok(l, j));
                    let e = t0.location_marks@[l]@[j];
                    if e.visit == id {
                        assert(t0.visits@[id].location == l);
                        assert(false);
                    }
                }
            }
            assert forall|l: i32, j: int, k: int|
                t1.location_marks@.contains_key(l) && 0 <= j < k < t1.location_marks@[l]@.len()
                    implies t1.location_marks@[l]@[j].visit != t1.location_marks@[l]@[k].visit by {
                if l == v0.location || l == v1.location {
                    assert(lm_list_distinct(t1.location_marks@[l]@));
                } else {
                    assert(t1.location_marks@[l]@ == t0.location_marks@[l]@);
                    assert(t0.location_marks@[l]@[j].visit != t0.location_marks@[l]@[k].visit);
                }
            }
            assert forall|i: i32| #[trigger]
                t1.visits@.contains_key(i) implies t1.lm_has_row(i) by {
                let w = t1.visits@[i];
                if i == id {
                    assert(w == v1);
                    assert(lm_list_has(t1.location_marks@[v1.location]@, id));
                    let j = choose|j: int|
                        0 <= j < t1.location_marks@[v1.location]@.len() && (
                        #[trigger] t1.location_marks@[v1.location]@[j]).visit == id;
                    assert(t1.location_marks@[w.location]@[j].visit == i);
                } else {
                    assert(t0.visits@.contains_key(i));
                    assert(w == t0.visits@[i]);
                    assert(t0.lm_has_row(i));
                    let j = choose|j: int|
                        0 <= j < t0.location_marks@[w.location]@.len()
                            && #[trigger] t0.location_marks@[w.location]@[j].visit == i;
                    assert(lm_list_has(t0.location_marks@[w.location]@, i));
                    if w.location == v0.location || w.location == v1.location {
                        assert(lm_list_has(t1.location_marks@[w.location]@, i));
                        let j2 = choose|j2: int|
                            0 <= j2 < t1.location_marks@[w.location]@.len() && (
                            #[trigger] t1.location_marks@[w.location]@[j2]).visit == i;
                        assert(t1.location_marks@[w.location]@[j2].visit == i);
                    } else {
                        assert(t1.location_marks@[w.location]@ == t0.location_marks@[w.location]@);
                        assert(t1.location_marks@[w.location]@[j].visit == i);
                    }
                }
            }
            assert forall|u: i32| #[trigger]
                t1.user_visits@.contains_key(u) implies uv_sorted_list(t1.user_visits@[u]@) by {
                if u == v0.user || u == v1.user {
                } else {
                    assert(t1.user_visits@[u]@ == t0.user_visits@[u]@);
                    assert(uv_sorted_list(t0.user_visits@[u]@));
                }
            }
        }
        Ok(())
    }

}

/// `news` is `olds` with every row of user `uid` given gender `g` and birth
/// date `bd`; all other rows and all positions are unchanged.
pub open spec fn lm_refreshed(
    olds: Seq<LocationMark>,
    news: Seq<LocationMark>,
    uid: i32,
    g: Gender,
    bd: i64,
) -> bool {
    &&& news.len() == olds.len()
    &&& forall|j: int|
        0 <= j < olds.len() ==> #[trigger] news[j] == (if olds[j].user == uid {
            LocationMark { gender: g, birth_date: bd, ..olds[j] }
        } else {
            olds[j]
        })
}

/// Refreshing an already refreshed list changes nothing.
proof fn lemma_lm_refresh_idem(
    a: Seq<LocationMark>,
    b: Seq<LocationMark>,
    c: Seq<LocationMark>,
    uid: i32,
    g: Gender,
    bd: i64,
)
    requires
        lm_refreshed(a, b, uid, g, bd),
        lm_refreshed(b, c, uid, g, bd),
    ensures
        lm_refreshed(a, c, uid, g, bd),
{
    assert forall|j: int| 0 <= j < a.len() implies #[trigger] c[j] == (if a[j].user == uid {
        LocationMark { gender: g, birth_date: bd, ..a[j] }
    } else {
        a[j]
    }) by {
        assert(b[j] == (if a[j].user == uid {
            LocationMark { gender: g, birth_date: bd, ..a[j] }
        } else {
            a[j]
        }));
    }
}

/// Rewrites the gender and birth date of every row of user `uid`.
fn refresh_marks_user(l: &mut Vec<LocationMark>, uid: i32, g: Gender, bd: i64)
    ensures
        lm_refreshed(old(l)@, final(l)@, uid, g, bd),
{
    let mut out: Vec<LocationMark> = Vec::new();
    let mut i: usize = 0;
    while i < l.len()
        invariant
            i <= l@.len(),
            out@.len() == i as int,
            forall|j: int|
                0 <= j < i ==> #[trigger] out@[j] == (if l@[j].user == uid {
                    LocationMark { gender: g, birth_date: bd, ..l@[j] }
                } else {
                    l@[j]
                }),
        decreases l@.len() - i,
    {
        let e = l[i];
        if e.user == uid {
            out.push(
                LocationMark {
                    visit: e.visit,
                    user: e.user,
                    gender: g,
                    birth_date: bd,
                    visited_at: e.visited_at,
                    mark: e.mark,
                },
            );
        } else {
            out.push(e);
        }
        i = i + 1;
    }
    *l = out;
}

/// Field-level relation: `e2` is `e` with its location fields rewritten from
/// `loc` when `e` is a row at location `lid`, and `e` unchanged otherwise.
pub open spec fn uv_row_loc_refresh(e: UserVisit, e2: UserVisit, lid: i32, loc: Location) -> bool {
    &&& e2.visit == e.visit
    &&& e2.user == e.user
    &&& e2.location == e.location
    &&& e2.visited_at == e.visited_at
    &&& e2.mark == e.mark
    &&& if e.location == lid {
        e2.distance == loc.distance && e2.country@ == loc.country@ && e2.place@ == loc.place@
    } else {
        e2.distance == e.distance && e2.country@ == e.country@ && e2.place@ == e.place@
    }
}

/// `news` is `olds` with every row at location `lid` given `loc`'s current
/// distance, country and place; all other rows and all positions unchanged.
pub open spec fn uv_loc_refreshed(
    olds: Seq<UserVisit>,
    news: Seq<UserVisit>,
    lid: i32,
    loc: Location,
) -> bool {
    &&& news.len() == olds.len()
    &&& forall|j: int| 0 <= j < olds.len() ==> #[trigger] uv_row_loc_refresh(olds[j], news[j], lid, loc)
}

/// Refreshing an already refreshed list changes nothing.
proof fn lemma_uv_loc_refresh_idem(
    a: Seq<UserVisit>,
    b: Seq<UserVisit>,
    c: Seq<UserVisit>,
    lid: i32,
    loc: Location,
)
    requires
        uv_loc_refreshed(a, b, lid, loc),
        uv_loc_refreshed(b, c, lid, loc),
    ensures
        uv_loc_refreshed(a, c, lid, loc),
{
    assert forall|j: int| 0 <= j < a.len() implies #[trigger] uv_row_loc_refresh(
        a[j],
        c[j],
        lid,
        loc,
    ) by {
        assert(uv_row_loc_refresh(a[j], b[j], lid, loc));
        assert(uv_row_loc_refresh(b[j], c[j], lid, loc));
    }
}

/// Rewrites the location-derived fields of every row at location `lid`.
fn refresh_visits_location(l: &mut Vec<UserVisit>, lid: i32, loc: &Location)
    ensures
        uv_loc_refreshed(old(l)@, final(l)@, lid, *loc),
{
    let mut out: Vec<UserVisit> = Vec::new();
    let mut i: usize = 0;
    while i < l.len()
        invariant
            i <= l@.len(),
            out@.len() == i as int,
            forall|j: int| 0 <= j < i ==> #[trigger] uv_row_loc_refresh(l@[j], out@[j], lid, *loc),
        decreases l@.len() - i,
    {
        let e = &l[i];
        if e.location == lid {
            out.push(
                UserVisit {
                    visit: e.visit,
                    user: e.user,
                    location: e.location,
                    distance: loc.distance,
                    country: loc.country.clone(),
                    place: loc.place.clone(),
                    visited_at: e.visited_at,
                    mark: e.mark,
                },
            );
        } else {
            out.push(
                UserVisit {
                    visit: e.visit,
                    user: e.user,
                    location: e.location,
                    distance: e.distance,
                    country: e.country.clone(),
                    place: e.place.clone(),
                    visited_at: e.visited_at,
                    mark: e.mark,
                },
            );
        }
        i = i + 1;
    }
    *l = out;
}

/// The user id of each row of a mark list, in order.
fn collect_lm_users(l: &Vec<LocationMark>) -> (r: Vec<i32>)
    ensures
        r@.len() == l@.len(),
        forall|j: int| 0 <= j < l@.len() ==> #[trigger] r@[j] == l@[j].user,
{
    let mut out: Vec<i32> = Vec::new();
    let mut i: usize = 0;
    while i < l.len()
        invariant
            i <= l@.len(),
            out@.len() == i as int,
            forall|j: int| 0 <= j < i ==> #[trigger] out@[j] == l@[j].user,
        decreases l@.len() - i,
    {
        out.push(l[i].user);
        i = i + 1;
    }
    out
}

/// The location id of each row of a visit list, in order.
fn collect_uv_locations(l: &Vec<UserVisit>) -> (r: Vec<i32>)
    ensures
        r@.len() == l@.len(),
        forall|j: int| 0 <= j < l@.len() ==> #[trigger] r@[j] == l@[j].location,
{
    let mut out: Vec<i32> = Vec::new();
    let mut i: usize = 0;
    while i < l.len()
        invariant
            i <= l@.len(),
            out@.len() == i as int,
            forall|j: int| 0 <= j < i ==> #[trigger] out@[j] == l@[j].location,
        decreases l@.len() - i,
    {
        out.push(l[i].location);
        i = i + 1;
    }
    out
}

/// Every row of `l` belongs to a stored visit of user `u` under the given
/// tables and carries the current derived fields.
pub open spec fn uv_list_coherent(
    l: Seq<UserVisit>,
    u: i32,
    visits: Map<i32, Visit>,
    locations: Map<i32, Location>,
) -> bool {
    forall|j: int| 0 <= j < l.len() ==> {
        let e = #[trigger] l[j];
        &&& visits.contains_key(e.visit)
        &&& visits[e.visit].user == u
        &&& uv_row_matches(e, visits[e.visit], locations[visits[e.visit].location])
    }
}

/// No two rows of `l` are for the same visit.
pub open spec fn uv_list_distinct(l: Seq<UserVisit>) -> bool {
    forall|j: int, k: int|
        #![trigger l[j], l[k]]
        0 <= j < k < l.len() ==> l[j].visit != l[k].visit
}

/// `l` holds a row for visit `vid`.
pub open spec fn uv_list_has(l: Seq<UserVisit>, vid: i32) -> bool {
    exists|j: int| 0 <= j < l.len() && (#[trigger] l[j]).visit == vid
}

/// Every row of `l` belongs to a stored visit at location `lid` under the
/// given tables and carries the current derived fields.
pub open spec fn lm_list_coherent(
    l: Seq<LocationMark>,
    lid: i32,
    visits: Map<i32, Visit>,
    users: Map<i32, User>,
) -> bool {
    forall|j: int| 0 <= j < l.len() ==> {
        let e = #[trigger] l[j];
        &&& visits.contains_key(e.visit)
        &&& visits[e.visit].location == lid
        &&& lm_row_matches(e, visits[e.visit], users[visits[e.visit].user])
    }
}

/// No two rows of `l` are for the same visit.
pub open spec fn lm_list_distinct(l: Seq<LocationMark>) -> bool {
    forall|j: int, k: int|
        #![trigger l[j], l[k]]
        0 <= j < k < l.len() ==> l[j].visit != l[k].visit
}

/// `l` holds a row for visit `vid`.
pub open spec fn lm_list_has(l: Seq<LocationMark>, vid: i32) -> bool {
    exists|j: int| 0 <= j < l.len() && (#[trigger] l[j]).visit == vid
}

/// `news` is `olds` with its row for visit `vid` removed.
pub open spec fn uv_removed(olds: Seq<UserVisit>, news: Seq<UserVisit>, vid: i32) -> bool {
    exists|i: int|
        #![trigger olds.remove(i)]
        0 <= i < olds.len() && olds[i].visit == vid && news == olds.remove(i)
}

/// `news` is `olds` with its row for visit `vid` removed.
pub open spec fn lm_removed(olds: Seq<LocationMark>, news: Seq<LocationMark>, vid: i32) -> bool {
    exists|i: int|
        #![trigger olds.remove(i)]
        0 <= i < olds.len() && olds[i].visit == vid && news == olds.remove(i)
}

/// `news` is `olds` with its row for visit `v1.id` rewritten from `v1` and
/// `loc` and placed where a stable re-sort puts it: among rows of equal time
/// the rewritten row keeps its place relative to them, so an unchanged time
/// leaves every position as it was.
pub open spec fn uv_replaced(
    olds: Seq<UserVisit>,
    news: Seq<UserVisit>,
    v1: Visit,
    loc: Location,
) -> bool {
    exists|i: int, ip: int, e: UserVisit|
        #![trigger olds.remove(i).insert(ip, e)]
        {
            &&& 0 <= i < olds.len()
            &&& olds[i].visit == v1.id
            &&& uv_row_matches(e, v1, loc)
            &&& uv_stable_point(olds.remove(i), ip, e.visited_at, i)
            &&& news == olds.remove(i).insert(ip, e)
        }
}

/// `news` is `olds` with its row for visit `v1.id` taken out and a fresh row
/// derived from `v1` and `u` appended.
pub open spec fn lm_replaced(
    olds: Seq<LocationMark>,
    news: Seq<LocationMark>,
    v1: Visit,
    u: User,
) -> bool {
    exists|i: int, e: LocationMark|
        {
            &&& 0 <= i < olds.len()
            &&& (#[trigger] olds[i]).visit == v1.id
            &&& #[trigger] lm_row_matches(e, v1, u)
            &&& news == olds.remove(i).push(e)
        }
}

/// Finds the first row for visit `vid`, if any.
fn find_uv_pos(l: &Vec<UserVisit>, vid: i32) -> (r: Option<usize>)
    ensures
        match r {
            Some(j) => j < l@.len() && l@[j as int].visit == vid,
            None => forall|k: int| 0 <= k < l@.len() ==> (#[trigger] l@[k]).visit != vid,
        },
{
    let mut i: usize = 0;
    while i < l.len()
        invariant
            i <= l@.len(),
            forall|k: int| 0 <= k < i ==> (#[trigger] l@[k]).visit != vid,
        decreases l@.len() - i,
    {
        if l[i].visit == vid {
            return Some(i);
        }
        i = i + 1;
    }
    None
}

/// Finds the first row for visit `vid`, if any.
fn find_lm_pos(l: &Vec<LocationMark>, vid: i32) -> (r: Option<usize>)
    ensures
        match r {
            Some(j) => j < l@.len() && l@[j as int].visit == vid,
            None => forall|k: int| 0 <= k < l@.len() ==> (#[trigger] l@[k]).visit != vid,
        },
{
    let mut i: usize = 0;
    while i < l.len()
        invariant
            i <= l@.len(),
            forall|k: int| 0 <= k < i ==> (#[trigger] l@[k]).visit != vid,
        decreases l@.len() - i,
    {
        if l[i].visit == vid {
            return Some(i);
        }
        i = i + 1;
    }
    None
}

/// Removing a row keeps a visit list sorted.
pub proof fn lemma_uv_remove_sorted(s: Seq<UserVisit>, i: int)
    requires
        uv_sorted_list(s),
        0 <= i < s.len(),
    ensures
        uv_sorted_list(s.remove(i)),
{
    s.remove_ensures(i);
    let s2 = s.remove(i);
    assert forall|j: int, k: int|
        0 <= j <= k < s2.len() implies s2[j].visited_at <= s2[k].visited_at by {
        let j0 = if j < i { j } else { j + 1 };
        let k0 = if k < i { k } else { k + 1 };
        assert(s2[j] == s[j0]);
        assert(s2[k] == s[k0]);
        assert(s[j0].visited_at <= s[k0].visited_at);
    }
}

/// Index `i` is the stable insertion point in `mids` — the list with its old
/// row taken out at `pos` — for a rewritten row with time `t`: after every
/// row with an earlier time, after the equal-time rows that stood before the
/// old position, and before the equal-time rows that stood after it. This is
/// where a stable re-sort of the rewritten list puts the row.
pub open spec fn uv_stable_point(mids: Seq<UserVisit>, i: int, t: i64, pos: int) -> bool {
    &&& 0 <= i <= mids.len()
    &&& forall|k: int|
        0 <= k < i ==> (#[trigger] mids[k]).visited_at < t || (mids[k].visited_at == t && k < pos)
    &&& i < mids.len() ==> (mids[i].visited_at > t || (mids[i].visited_at == t && i >= pos))
}

/// Finds the stable insertion point.
fn uv_stable_pos(l: &Vec<UserVisit>, t: i64, pos: usize) -> (r: usize)
    ensures
        r <= l@.len(),
        uv_stable_point(l@, r as int, t, pos as int),
{
    let mut i: usize = 0;
    while i < l.len() && (l[i].visited_at < t || (l[i].visited_at == t && i < pos))
        invariant
            i <= l@.len(),
            forall|k: int|
                0 <= k < i ==> (#[trigger] l@[k]).visited_at < t || (l@[k].visited_at == t && k
                    < pos),
        decreases l@.len() - i,
    {
        i = i + 1;
    }
    i
}

/// Inserting at the stable point keeps the list sorted.
pub proof fn lemma_uv_stable_insert_sorted(s: Seq<UserVisit>, e: UserVisit, i: int, pos: int)
    requires
        uv_sorted_list(s),
        uv_stable_point(s, i, e.visited_at, pos),
    ensures
        uv_sorted_list(s.insert(i, e)),
{
    s.insert_ensures(i, e);
    let s2 = s.insert(i, e);
    assert forall|j: int, k: int|
        0 <= j <= k < s2.len() implies s2[j].visited_at <= s2[k].visited_at by {
        let jv = if j < i { s[j].visited_at } else if j == i { e.visited_at } else {
            s[j - 1].visited_at
        };
        let kv = if k < i { s[k].visited_at } else if k == i { e.visited_at } else {
            s[k - 1].visited_at
        };
        assert(s2[j].visited_at == jv);
        assert(s2[k].visited_at == kv);
    }
}

/// Index `i` is the first position of `s` whose row's time exceeds `t`.
pub open spec fn uv_insert_point(s: Seq<UserVisit>, i: int, t: i64) -> bool {
    &&& 0 <= i <= s.len()
    &&& forall|k: int| 0 <= k < i ==> #[trigger] s[k].visited_at <= t
    &&& i < s.len() ==> s[i].visited_at > t
}

/// `news` is `olds` with row `e` inserted at the first position whose time
/// exceeds `e`'s; equal times keep the earlier rows first.
pub open spec fn uv_list_inserted(
    olds: Seq<UserVisit>,
    news: Seq<UserVisit>,
    e: UserVisit,
) -> bool {
    exists|i: int|
        #![trigger olds.insert(i, e)]
        uv_insert_point(olds, i, e.visited_at) && news == olds.insert(i, e)
}

/// Finds the first position whose row's time exceeds `t`.
fn uv_insert_pos(l: &Vec<UserVisit>, t: i64) -> (r: usize)
    ensures
        r <= l@.len(),
        uv_insert_point(l@, r as int, t),
{
    let mut i: usize = 0;
    while i < l.len() && l[i].visited_at <= t
        invariant
            i <= l@.len(),
            forall|k: int| 0 <= k < i ==> #[trigger] l@[k].visited_at <= t,
        decreases l@.len() - i,
    {
        i = i + 1;
    }
    i
}

/// Inserting at the first position whose time exceeds the new row's keeps the
/// list sorted.
pub proof fn lemma_uv_insert_sorted(s: Seq<UserVisit>, e: UserVisit, i: int)
    requires
        uv_sorted_list(s),
        uv_insert_point(s, i, e.visited_at),
    ensures
        uv_sorted_list(s.insert(i, e)),
{
    s.insert_ensures(i, e);
    let s2 = s.insert(i, e);
    assert forall|j: int, k: int|
        0 <= j <= k < s2.len() implies s2[j].visited_at <= s2[k].visited_at by {
        let jv = if j < i { s[j].visited_at } else if j == i { e.visited_at } else {
            s[j - 1].visited_at
        };
        let kv = if k < i { s[k].visited_at } else if k == i { e.visited_at } else {
            s[k - 1].visited_at
        };
        assert(s2[j].visited_at == jv);
        assert(s2[k].visited_at == kv);
    }
}

/// The list facts that `inv` gives for one visit list.
proof fn lemma_uv_from_inv(t: Travels, u: i32)
    requires
        t.inv(),
        t.user_visits@.contains_key(u),
    ensures
        uv_list_coherent(t.user_visits@[u]@, u, t.visits@, t.locations@),
        uv_list_distinct(t.user_visits@[u]@),
        uv_sorted_list(t.user_visits@[u]@),
{
    let l = t.user_visits@[u]@;
    assert forall|j: int| 0 <= j < l.len() implies {
        let e = #[trigger] l[j];
        &&& t.visits@.contains_key(e.visit)
        &&& t.visits@[e.visit].user == u
        &&& uv_row_matches(e, t.visits@[e.visit], t.locations@[t.visits@[e.visit].location])
    } by {
        assert(t.uv_entry_ok(u, j));
    }
    assert forall|j: int, k: int| 0 <= j < k < l.len() implies (#[trigger] l[j]).visit != (
    #[trigger] l[k]).visit by {
        assert(t.user_visits@[u]@[j].visit != t.user_visits@[u]@[k].visit);
    }
}

/// The list facts that `inv` gives for one mark list.
proof fn lemma_lm_from_inv(t: Travels, l: i32)
    requires
        t.inv(),
        t.location_marks@.contains_key(l),
    ensures
        lm_list_coherent(t.location_marks@[l]@, l, t.visits@, t.users@),
        lm_list_distinct(t.location_marks@[l]@),
{
    let s = t.location_marks@[l]@;
    assert forall|j: int| 0 <= j < s.len() implies {
        let e = #[trigger] s[j];
        &&& t.visits@.contains_key(e.visit)
        &&& t.visits@[e.visit].location == l
        &&& lm_row_matches(e, t.visits@[e.visit], t.users@[t.visits@[e.visit].user])
    } by {
        assert(t.lm_entry_ok(l, j));
    }
    assert forall|j: int, k: int| 0 <= j < k < s.len() implies (#[trigger] s[j]).visit != (
    #[trigger] s[k]).visit by {
        assert(t.location_marks@[l]@[j].visit != t.location_marks@[l]@[k].visit);
    }
}

/// Replacing the row of visit `v1.id` in its own user's list — removal at
/// `pos`, sorted reinsertion of the fresh row at `ip` — keeps the list
/// coherent, duplicate-free and sorted, and loses no other visit's row.
proof fn lemma_uv_rebuild(
    olds: Seq<UserVisit>,
    news: Seq<UserVisit>,
    pos: int,
    ip: int,
    rowg: UserVisit,
    u: i32,
    v1: Visit,
    vmap0: Map<i32, Visit>,
    vmap1: Map<i32, Visit>,
    locs: Map<i32, Location>,
)
    requires
        uv_list_coherent(olds, u, vmap0, locs),
        uv_list_distinct(olds),
        uv_sorted_list(olds),
        0 <= pos < olds.len(),
        olds[pos].visit == v1.id,
        vmap1 == vmap0.insert(v1.id, v1),
        vmap0.contains_key(v1.id),
        v1.user == u,
        uv_row_matches(rowg, v1, locs[v1.location]),
        0 <= ip <= olds.len() - 1,
        uv_stable_point(olds.remove(pos), ip, rowg.visited_at, pos),
        news == olds.remove(pos).insert(ip, rowg),
    ensures
        uv_list_coherent(news, u, vmap1, locs),
        uv_list_distinct(news),
        uv_list_has(news, v1.id),
        forall|vid: i32| vid != v1.id && uv_list_has(olds, vid) ==> uv_list_has(news, vid),
        uv_sorted_list(news),
        uv_replaced(olds, news, v1, locs[v1.location]),
{
    let mids = olds.remove(pos);
    olds.remove_ensures(pos);
    mids.insert_ensures(ip, rowg);
    lemma_uv_remove_sorted(olds, pos);
    lemma_uv_stable_insert_sorted(mids, rowg, ip, pos);
    assert(news[ip] == rowg);
    assert forall|j2: int| 0 <= j2 < news.len() implies {
        let e = #[trigger] news[j2];
        &&& vmap1.contains_key(e.visit)
        &&& vmap1[e.visit].user == u
        &&& uv_row_matches(e, vmap1[e.visit], locs[vmap1[e.visit].location])
    } by {
        if j2 == ip {
            assert(news[j2] == rowg);
            assert(vmap1[v1.id] == v1);
        } else {
            let m = if j2 < ip { j2 } else { j2 - 1 };
            if j2 < ip {
                assert(news[j2] == mids[j2]);
            } else {
                assert(news[m + 1] == mids[m]);
            }
            let j0 = if m < pos { m } else { m + 1 };
            assert(mids[m] == olds[j0]);
            if j0 < pos {
                assert(olds[j0].visit != olds[pos].visit);
            } else {
                assert(olds[pos].visit != olds[j0].visit);
            }
            assert(vmap1[olds[j0].visit] == vmap0[olds[j0].visit]);
        }
    }
    assert forall|j2: int, k2: int|
        0 <= j2 < k2 < news.len() implies (#[trigger] news[j2]).visit != (
    #[trigger] news[k2]).visit by {
        let mj = if j2 < ip { j2 } else { j2 - 1 };
        let mk = if k2 < ip { k2 } else { k2 - 1 };
        let j0 = if mj < pos { mj } else { mj + 1 };
        let k0 = if mk < pos { mk } else { mk + 1 };
        if j2 != ip {
            if j2 < ip {
                assert(news[j2] == mids[j2]);
            } else {
                assert(news[mj + 1] == mids[mj]);
            }
            assert(mids[mj] == olds[j0]);
            if j0 < pos {
                assert(olds[j0].visit != olds[pos].visit);
            } else {
                assert(olds[pos].visit != olds[j0].visit);
            }
        }
        if k2 != ip {
            if k2 < ip {
                assert(news[k2] == mids[k2]);
            } else {
                assert(news[mk + 1] == mids[mk]);
            }
            assert(mids[mk] == olds[k0]);
            if k0 < pos {
                assert(olds[k0].visit != olds[pos].visit);
            } else {
                assert(olds[pos].visit != olds[k0].visit);
            }
        }
        if j2 != ip && k2 != ip {
            if j0 < k0 {
                assert(olds[j0].visit != olds[k0].visit);
            } else {
                assert(olds[k0].visit != olds[j0].visit);
            }
        }
    }
    assert(news[ip].visit == v1.id);
    assert(uv_list_has(news, v1.id));
    assert forall|vid: i32|
        vid != v1.id && uv_list_has(olds, vid) implies uv_list_has(news, vid) by {
        let j = choose|j: int| 0 <= j < olds.len() && (#[trigger] olds[j]).visit == vid;
        let m = if j < pos { j } else { j - 1 };
        assert(mids[m] == olds[j]);
        if m < ip {
            assert(news[m] == mids[m]);
            assert(news[m].visit == vid);
        } else {
            assert(news[m + 1] == mids[m]);
            assert(news[m + 1].visit == vid);
        }
    }
    assert(uv_replaced(olds, news, v1, locs[v1.location]));
}

/// Removing the row of visit `v1.id` from its former user's list keeps the
/// list coherent after the visit table is updated, and loses no other row.
proof fn lemma_uv_remove_row(
    olds: Seq<UserVisit>,
    news: Seq<UserVisit>,
    pos: int,
    u: i32,
    v1: Visit,
    vmap0: Map<i32, Visit>,
    vmap1: Map<i32, Visit>,
    locs: Map<i32, Location>,
)
    requires
        uv_list_coherent(olds, u, vmap0, locs),
        uv_list_distinct(olds),
        uv_sorted_list(olds),
        0 <= pos < olds.len(),
        olds[pos].visit == v1.id,
        vmap1 == vmap0.insert(v1.id, v1),
        news == olds.remove(pos),
    ensures
        uv_list_coherent(news, u, vmap1, locs),
        uv_list_distinct(news),
        forall|vid: i32| vid != v1.id && uv_list_has(olds, vid) ==> uv_list_has(news, vid),
        uv_sorted_list(news),
        uv_removed(olds, news, v1.id),
{
    olds.remove_ensures(pos);
    lemma_uv_remove_sorted(olds, pos);
    assert forall|j2: int| 0 <= j2 < news.len() implies {
        let e = #[trigger] news[j2];
        &&& vmap1.contains_key(e.visit)
        &&& vmap1[e.visit].user == u
        &&& uv_row_matches(e, vmap1[e.visit], locs[vmap1[e.visit].location])
    } by {
        let j0 = if j2 < pos { j2 } else { j2 + 1 };
        assert(news[j2] == olds[j0]);
        if j0 < pos {
            assert(olds[j0].visit != olds[pos].visit);
        } else {
            assert(olds[pos].visit != olds[j0].visit);
        }
        assert(vmap1[olds[j0].visit] == vmap0[olds[j0].visit]);
    }
    assert forall|j2: int, k2: int|
        0 <= j2 < k2 < news.len() implies (#[trigger] news[j2]).visit != (
    #[trigger] news[k2]).visit by {
        let j0 = if j2 < pos { j2 } else { j2 + 1 };
        let k0 = if k2 < pos { k2 } else { k2 + 1 };
        assert(news[j2] == olds[j0]);
        assert(news[k2] == olds[k0]);
        assert(olds[j0].visit != olds[k0].visit);
    }
    assert forall|vid: i32|
        vid != v1.id && uv_list_has(olds, vid) implies uv_list_has(news, vid) by {
        let j = choose|j: int| 0 <= j < olds.len() && (#[trigger] olds[j]).visit == vid;
        if j < pos {
            assert(news[j] == olds[j]);
            assert(news[j].visit == vid);
        } else {
            assert(news[j - 1] == olds[j]);
            assert(news[j - 1].visit == vid);
        }
    }
}

/// Inserting the fresh row of visit `v1.id` into its new user's list keeps
/// the list coherent, duplicate-free and sorted, and loses no row.
proof fn lemma_uv_insert_row(
    olds: Seq<UserVisit>,
    news: Seq<UserVisit>,
    ip: int,
    rowg: UserVisit,
    u: i32,
    v1: Visit,
    vmap0: Map<i32, Visit>,
    vmap1: Map<i32, Visit>,
    locs: Map<i32, Location>,
)
    requires
        uv_list_coherent(olds, u, vmap0, locs),
        uv_list_distinct(olds),
        uv_sorted_list(olds),
        vmap0.contains_key(v1.id),
        vmap0[v1.id].user != u,
        v1.user == u,
        vmap1 == vmap0.insert(v1.id, v1),
        uv_row_matches(rowg, v1, locs[v1.location]),
        0 <= ip <= olds.len(),
        uv_insert_point(olds, ip, rowg.visited_at),
        news == olds.insert(ip, rowg),
    ensures
        uv_list_coherent(news, u, vmap1, locs),
        uv_list_distinct(news),
        uv_list_has(news, v1.id),
        forall|vid: i32| vid != v1.id && uv_list_has(olds, vid) ==> uv_list_has(news, vid),
        uv_sorted_list(news),
        uv_list_inserted(olds, news, rowg),
{
    olds.insert_ensures(ip, rowg);
    lemma_uv_insert_sorted(olds, rowg, ip);
    assert(news[ip] == rowg);
    assert forall|j0: int| 0 <= j0 < olds.len() implies olds[j0].visit != v1.id by {
        if olds[j0].visit == v1.id {
            assert(vmap0[v1.id].user == u);
        }
    }
    assert forall|j2: int| 0 <= j2 < news.len() implies {
        let e = #[trigger] news[j2];
        &&& vmap1.contains_key(e.visit)
        &&& vmap1[e.visit].user == u
        &&& uv_row_matches(e, vmap1[e.visit], locs[vmap1[e.visit].location])
    } by {
        if j2 == ip {
            assert(news[j2] == rowg);
            assert(vmap1[v1.id] == v1);
        } else {
            let j0 = if j2 < ip { j2 } else { j2 - 1 };
            if j2 < ip {
                assert(news[j2] == olds[j2]);
            } else {
                assert(news[j0 + 1] == olds[j0]);
            }
            assert(olds[j0].visit != v1.id);
            assert(vmap1[olds[j0].visit] == vmap0[olds[j0].visit]);
        }
    }
    assert forall|j2: int, k2: int|
        0 <= j2 < k2 < news.len() implies (#[trigger] news[j2]).visit != (
    #[trigger] news[k2]).visit by {
        let j0 = if j2 < ip { j2 } else { j2 - 1 };
        let k0 = if k2 < ip { k2 } else { k2 - 1 };
        if j2 != ip {
            if j2 < ip {
                assert(news[j2] == olds[j2]);
            } else {
                assert(news[j0 + 1] == olds[j0]);
            }
        }
        if k2 != ip {
            if k2 < ip {
                assert(news[k2] == olds[k2]);
            } else {
                assert(news[k0 + 1] == olds[k0]);
            }
        }
        if j2 != ip && k2 != ip {
            if j0 < k0 {
                assert(olds[j0].visit != olds[k0].visit);
            } else {
                assert(olds[k0].visit != olds[j0].visit);
            }
        }
    }
    assert(news[ip].visit == v1.id);
    assert(uv_list_has(news, v1.id));
    assert forall|vid: i32|
        vid != v1.id && uv_list_has(olds, vid) implies uv_list_has(news, vid) by {
        let j = choose|j: int| 0 <= j < olds.len() && (#[trigger] olds[j]).visit == vid;
        if j < ip {
            assert(news[j] == olds[j]);
            assert(news[j].visit == vid);
        } else {
            assert(news[j + 1] == olds[j]);
            assert(news[j + 1].visit == vid);
        }
    }
    assert(uv_list_inserted(olds, news, rowg));
}

/// Replacing the mark row of visit `v1.id` in its own location's list —
/// removal at `mp`, the fresh row appended — keeps the list coherent and
/// duplicate-free, and loses no other visit's row.
proof fn lemma_lm_rebuild(
    oldm: Seq<LocationMark>,
    news: Seq<LocationMark>,
    mp: int,
    lmrow: LocationMark,
    l: i32,
    v1: Visit,
    vmap0: Map<i32, Visit>,
    vmap1: Map<i32, Visit>,
    users: Map<i32, User>,
)
    requires
        lm_list_coherent(oldm, l, vmap0, users),
        lm_list_distinct(oldm),
        0 <= mp < oldm.len(),
        oldm[mp].visit == v1.id,
        vmap1 == vmap0.insert(v1.id, v1),
        vmap0.contains_key(v1.id),
        v1.location == l,
        lm_row_matches(lmrow, v1, users[v1.user]),
        news == oldm.remove(mp).push(lmrow),
    ensures
        lm_list_coherent(news, l, vmap1, users),
        lm_list_distinct(news),
        lm_list_has(news, v1.id),
        forall|vid: i32| vid != v1.id && lm_list_has(oldm, vid) ==> lm_list_has(news, vid),
        lm_replaced(oldm, news, v1, users[v1.user]),
{
    let midm = oldm.remove(mp);
    oldm.remove_ensures(mp);
    assert forall|j2: int| 0 <= j2 < news.len() implies {
        let e = #[trigger] news[j2];
        &&& vmap1.contains_key(e.visit)
        &&& vmap1[e.visit].location == l
        &&& lm_row_matches(e, vmap1[e.visit], users[vmap1[e.visit].user])
    } by {
        if j2 == news.len() - 1 {
            assert(news[j2] == lmrow);
            assert(vmap1[v1.id] == v1);
        } else {
            assert(news[j2] == midm[j2]);
            let j0 = if j2 < mp { j2 } else { j2 + 1 };
            assert(midm[j2] == oldm[j0]);
            if j0 < mp {
                assert(oldm[j0].visit != oldm[mp].visit);
            } else {
                assert(oldm[mp].visit != oldm[j0].visit);
            }
            assert(vmap1[oldm[j0].visit] == vmap0[oldm[j0].visit]);
        }
    }
    assert forall|j2: int, k2: int|
        0 <= j2 < k2 < news.len() implies (#[trigger] news[j2]).visit != (
    #[trigger] news[k2]).visit by {
        let j0 = if j2 < mp { j2 } else { j2 + 1 };
        let k0 = if k2 < mp { k2 } else { k2 + 1 };
        if k2 == news.len() - 1 {
            assert(news[k2] == lmrow);
            assert(news[j2] == midm[j2]);
            assert(midm[j2] == oldm[j0]);
            if j0 < mp {
                assert(oldm[j0].visit != oldm[mp].visit);
            } else {
                assert(oldm[mp].visit != oldm[j0].visit);
            }
        } else {
            assert(news[j2] == midm[j2]);
            assert(news[k2] == midm[k2]);
            assert(midm[j2] == oldm[j0]);
            assert(midm[k2] == oldm[k0]);
            assert(oldm[j0].visit != oldm[k0].visit);
        }
    }
    assert(news[news.len() - 1] == lmrow);
    assert(lm_list_has(news, v1.id));
    assert forall|vid: i32|
        vid != v1.id && lm_list_has(oldm, vid) implies lm_list_has(news, vid) by {
        let j = choose|j: int| 0 <= j < oldm.len() && (#[trigger] oldm[j]).visit == vid;
        let m = if j < mp { j } else { j - 1 };
        assert(midm[m] == oldm[j]);
        assert(news[m] == midm[m]);
        assert(news[m].visit == vid);
    }
    assert(lm_replaced(oldm, news, v1, users[v1.user]));
}

/// Removing the mark row of visit `v1.id` from its former location's list
/// keeps the list coherent and loses no other row.
proof fn lemma_lm_remove_row(
    oldm: Seq<LocationMark>,
    news: Seq<LocationMark>,
    mp: int,
    l: i32,
    v1: Visit,
    vmap0: Map<i32, Visit>,
    vmap1: Map<i32, Visit>,
    users: Map<i32, User>,
)
    requires
        lm_list_coherent(oldm, l, vmap0, users),
        lm_list_distinct(oldm),
        0 <= mp < oldm.len(),
        oldm[mp].visit == v1.id,
        vmap1 == vmap0.insert(v1.id, v1),
        news == oldm.remove(mp),
    ensures
        lm_list_coherent(news, l, vmap1, users),
        lm_list_distinct(news),
        forall|vid: i32| vid != v1.id && lm_list_has(oldm, vid) ==> lm_list_has(news, vid),
        lm_removed(oldm, news, v1.id),
{
    oldm.remove_ensures(mp);
    assert forall|j2: int| 0 <= j2 < news.len() implies {
        let e = #[trigger] news[j2];
        &&& vmap1.contains_key(e.visit)
        &&& vmap1[e.visit].location == l
        &&& lm_row_matches(e, vmap1[e.visit], users[vmap1[e.visit].user])
    } by {
        let j0 = if j2 < mp { j2 } else { j2 + 1 };
        assert(news[j2] == oldm[j0]);
        if j0 < mp {
            assert(oldm[j0].visit != oldm[mp].visit);
        } else {
            assert(oldm[mp].visit != oldm[j0].visit);
        }
        assert(vmap1[oldm[j0].visit] == vmap0[oldm[j0].visit]);
    }
    assert forall|j2: int, k2: int|
        0 <= j2 < k2 < news.len() implies (#[trigger] news[j2]).visit != (
    #[trigger] news[k2]).visit by {
        let j0 = if j2 < mp { j2 } else { j2 + 1 };
        let k0 = if k2 < mp { k2 } else { k2 + 1 };
        assert(news[j2] == oldm[j0]);
        assert(news[k2] == oldm[k0]);
        assert(oldm[j0].visit != oldm[k0].visit);
    }
    assert forall|vid: i32|
        vid != v1.id && lm_list_has(oldm, vid) implies lm_list_has(news, vid) by {
        let j = choose|j: int| 0 <= j < oldm.len() && (#[trigger] oldm[j]).visit == vid;
        if j < mp {
            assert(news[j] == oldm[j]);
            assert(news[j].visit == vid);
        } else {
            assert(news[j - 1] == oldm[j]);
            assert(news[j - 1].visit == vid);
        }
    }
}

/// Appending the fresh mark row of visit `v1.id` to its new location's list
/// keeps the list coherent and duplicate-free, and loses no row.
proof fn lemma_lm_push_row(
    oldm: Seq<LocationMark>,
    news: Seq<LocationMark>,
    lmrow: LocationMark,
    l: i32,
    v1: Visit,
    vmap0: Map<i32, Visit>,
    vmap1: Map<i32, Visit>,
    users: Map<i32, User>,
)
    requires
        lm_list_coherent(oldm, l, vmap0, users),
        lm_list_distinct(oldm),
        vmap0.contains_key(v1.id),
        vmap0[v1.id].location != l,
        v1.location == l,
        vmap1 == vmap0.insert(v1.id, v1),
        lm_row_matches(lmrow, v1, users[v1.user]),
        news == oldm.push(lmrow),
    ensures
        lm_list_coherent(news, l, vmap1, users),
        lm_list_distinct(news),
        lm_list_has(news, v1.id),
        forall|vid: i32| vid != v1.id && lm_list_has(oldm, vid) ==> lm_list_has(news, vid),
        news.drop_last() == oldm,
        news.len() == oldm.len() + 1,
        news.last() == lmrow,
{
    assert forall|j0: int| 0 <= j0 < oldm.len() implies oldm[j0].visit != v1.id by {
        if oldm[j0].visit == v1.id {
            assert(vmap0[v1.id].location == l);
        }
    }
    assert forall|j2: int| 0 <= j2 < news.len() implies {
        let e = #[trigger] news[j2];
        &&& vmap1.contains_key(e.visit)
        &&& vmap1[e.visit].location == l
        &&& lm_row_matches(e, vmap1[e.visit], users[vmap1[e.visit].user])
    } by {
        if j2 == news.len() - 1 {
            assert(news[j2] == lmrow);
            assert(vmap1[v1.id] == v1);
        } else {
            assert(news[j2] == oldm[j2]);
            assert(oldm[j2].visit != v1.id);
            assert(vmap1[oldm[j2].visit] == vmap0[oldm[j2].visit]);
        }
    }
    assert forall|j2: int, k2: int|
        0 <= j2 < k2 < news.len() implies (#[trigger] news[j2]).visit != (
    #[trigger] news[k2]).visit by {
        if k2 == news.len() - 1 {
            assert(news[k2] == lmrow);
            assert(news[j2] == oldm[j2]);
            assert(oldm[j2].visit != v1.id);
        } else {
            assert(news[j2] == oldm[j2]);
            assert(news[k2] == oldm[k2]);
            assert(oldm[j2].visit != oldm[k2].visit);
        }
    }
    assert(news[news.len() - 1] == lmrow);
    assert(lm_list_has(news, v1.id));
    assert forall|vid: i32|
        vid != v1.id && lm_list_has(oldm, vid) implies lm_list_has(news, vid) by {
        let j = choose|j: int| 0 <= j < oldm.len() && (#[trigger] oldm[j]).visit == vid;
        assert(news[j] == oldm[j]);
        assert(news[j].visit == vid);
    }
    assert(news.drop_last() =~= oldm);
}

} // verus!
