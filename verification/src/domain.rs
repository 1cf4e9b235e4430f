//! The primary entities (users, locations, visits), the partial-update
//! records with explicit field presence, and the two kinds of derived rows
//! that the secondary indices hold.

use vstd::prelude::*;

verus! {

/// The two-valued gender tag kept in derived mark rows; the user record
/// itself keeps the raw text, and `"m"` maps to `Male`, anything else to
/// `Female`.
#[derive(Clone, Copy, PartialEq, Eq, Structural, Debug)]
pub enum Gender {
    Male,
    Female,
}

/// A primary user row. Text fields are kept as character vectors.
pub struct User {
    pub id: i32,
    pub first_name: Vec<char>,
    pub last_name: Vec<char>,
    pub gender: Vec<char>,
    pub birth_date: i64,
    pub email: Vec<char>,
}

/// A primary location row.
pub struct Location {
    pub id: i32,
    pub distance: i32,
    pub city: Vec<char>,
    pub place: Vec<char>,
    pub country: Vec<char>,
}

/// A primary visit row: a user's visit to a location at a time, with a mark.
#[derive(Clone, Copy)]
pub struct Visit {
    pub id: i32,
    pub user: i32,
    pub location: i32,
    pub visited_at: i64,
    pub mark: i8,
}

/// A partial update of a user: a field is `Some` exactly when the request
/// body contained its key with a well-typed value.
pub struct UserPatch {
    pub first_name: Option<Vec<char>>,
    pub last_name: Option<Vec<char>>,
    pub gender: Option<Vec<char>>,
    pub birth_date: Option<i64>,
    pub email: Option<Vec<char>>,
}

/// A partial update of a location.
pub struct LocationPatch {
    pub distance: Option<i32>,
    pub city: Option<Vec<char>>,
    pub place: Option<Vec<char>>,
    pub country: Option<Vec<char>>,
}

/// A partial update of a visit.
pub struct VisitPatch {
    pub user: Option<i32>,
    pub location: Option<i32>,
    pub visited_at: Option<i64>,
    pub mark: Option<i8>,
}

/// A row of the per-user visit index: the visit enriched with the fields of
/// its location that queries filter on or return.
pub struct UserVisit {
    pub visit: i32,
    pub user: i32,
    pub location: i32,
    pub distance: i32,
    pub country: Vec<char>,
    pub place: Vec<char>,
    pub visited_at: i64,
    pub mark: i8,
}

/// The projection of a `UserVisit` that the visits query returns.
pub struct UserVisitBody {
    pub mark: i8,
    pub visited_at: i64,
    pub place: Vec<char>,
}

/// The mathematical value of a projected row.
pub struct UvBodyV {
    pub mark: i8,
    pub visited_at: i64,
    pub place: Seq<char>,
}

impl View for UserVisitBody {
    type V = UvBodyV;

    open spec fn view(&self) -> UvBodyV {
        UvBodyV { mark: self.mark, visited_at: self.visited_at, place: self.place@ }
    }
}

/// A row of the per-location mark index: the visit enriched with the fields
/// of its user that the average query filters on.
#[derive(Clone, Copy, PartialEq, Eq, Structural)]
pub struct LocationMark {
    pub visit: i32,
    pub user: i32,
    pub gender: Gender,
    pub birth_date: i64,
    pub visited_at: i64,
    pub mark: i8,
}

/// How raw gender text maps to the two-valued tag.
pub open spec fn spec_gender_of(g: Seq<char>) -> Gender {
    if g == seq!['m'] {
        Gender::Male
    } else {
        Gender::Female
    }
}

/// Exec counterpart of `spec_gender_of`.
pub fn gender_of(g: &Vec<char>) -> (r: Gender)
    ensures
        r == spec_gender_of(g@),
{
    if g.len() == 1 && g[0] == 'm' {
        proof {
            assert(g@ =~= seq!['m']);
        }
        Gender::Male
    } else {
        proof {
            assert(g@ != seq!['m']);
        }
        Gender::Female
    }
}

/// `e` is the visit-index row derived from visit `v` and its location `loc`.
pub open spec fn uv_row_matches(e: UserVisit, v: Visit, loc: Location) -> bool {
    &&& e.visit == v.id
    &&& e.user == v.user
    &&& e.location == v.location
    &&& e.distance == loc.distance
    &&& e.country@ == loc.country@
    &&& e.place@ == loc.place@
    &&& e.visited_at == v.visited_at
    &&& e.mark == v.mark
}

/// `e` is the mark-index row derived from visit `v` and its user `u`.
pub open spec fn lm_row_matches(e: LocationMark, v: Visit, u: User) -> bool {
    &&& e.visit == v.id
    &&& e.user == v.user
    &&& e.gender == spec_gender_of(u.gender@)
    &&& e.birth_date == u.birth_date
    &&& e.visited_at == v.visited_at
    &&& e.mark == v.mark
}

/// Builds the visit-index row for `v` from the current location row.
pub fn make_uv_row(v: &Visit, loc: &Location) -> (r: UserVisit)
    ensures
        uv_row_matches(r, *v, *loc),
{
    UserVisit {
        visit: v.id,
        user: v.user,
        location: v.location,
        distance: loc.distance,
        country: loc.country.clone(),
        place: loc.place.clone(),
        visited_at: v.visited_at,
        mark: v.mark,
    }
}

/// Builds the mark-index row for `v` from the current user row.
pub fn make_lm_row(v: &Visit, u: &User) -> (r: LocationMark)
    ensures
        lm_row_matches(r, *v, *u),
{
    LocationMark {
        visit: v.id,
        user: v.user,
        gender: gender_of(&u.gender),
        birth_date: u.birth_date,
        visited_at: v.visited_at,
        mark: v.mark,
    }
}

/// `r` is `u` with the present fields of `p` overlaid.
pub open spec fn user_overlaid(r: User, u: User, p: UserPatch) -> bool {
    &&& r.id == u.id
    &&& r.first_name@ == (match p.first_name {
        Some(x) => x@,
        None => u.first_name@,
    })
    &&& r.last_name@ == (match p.last_name {
        Some(x) => x@,
        None => u.last_name@,
    })
    &&& r.gender@ == (match p.gender {
        Some(x) => x@,
        None => u.gender@,
    })
    &&& r.birth_date == (match p.birth_date {
        Some(x) => x,
        None => u.birth_date,
    })
    &&& r.email@ == (match p.email {
        Some(x) => x@,
        None => u.email@,
    })
}

/// `r` is `l` with the present fields of `p` overlaid.
pub open spec fn location_overlaid(r: Location, l: Location, p: LocationPatch) -> bool {
    &&& r.id == l.id
    &&& r.distance == (match p.distance {
        Some(x) => x,
        None => l.distance,
    })
    &&& r.city@ == (match p.city {
        Some(x) => x@,
        None => l.city@,
    })
    &&& r.place@ == (match p.place {
        Some(x) => x@,
        None => l.place@,
    })
    &&& r.country@ == (match p.country {
        Some(x) => x@,
        None => l.country@,
    })
}

/// `v` with the present fields of `p` overlaid.
pub open spec fn spec_visit_overlay(v: Visit, p: VisitPatch) -> Visit {
    Visit {
        id: v.id,
        user: match p.user {
            Some(x) => x,
            None => v.user,
        },
        location: match p.location {
            Some(x) => x,
            None => v.location,
        },
        visited_at: match p.visited_at {
            Some(x) => x,
            None => v.visited_at,
        },
        mark: match p.mark {
            Some(x) => x,
            None => v.mark,
        },
    }
}

/// Overlays the present fields of `p` onto `u`.
pub fn apply_user_patch(u: &User, p: &UserPatch) -> (r: User)
    ensures
        user_overlaid(r, *u, *p),
{
    User {
        id: u.id,
        first_name: match &p.first_name {
            Some(x) => x.clone(),
            None => u.first_name.clone(),
        },
        last_name: match &p.last_name {
            Some(x) => x.clone(),
            None => u.last_name.clone(),
        },
        gender: match &p.gender {
            Some(x) => x.clone(),
            None => u.gender.clone(),
        },
        birth_date: match p.birth_date {
            Some(x) => x,
            None => u.birth_date,
        },
        email: match &p.email {
            Some(x) => x.clone(),
            None => u.email.clone(),
        },
    }
}

/// Overlays the present fields of `p` onto `l`.
pub fn apply_location_patch(l: &Location, p: &LocationPatch) -> (r: Location)
    ensures
        location_overlaid(r, *l, *p),
{
    Location {
        id: l.id,
        distance: match p.distance {
            Some(x) => x,
            None => l.distance,
        },
        city: match &p.city {
            Some(x) => x.clone(),
            None => l.city.clone(),
        },
        place: match &p.place {
            Some(x) => x.clone(),
            None => l.place.clone(),
        },
        country: match &p.country {
            Some(x) => x.clone(),
            None => l.country.clone(),
        },
    }
}

/// Overlays the present fields of `p` onto `v`.
pub fn apply_visit_patch(v: &Visit, p: &VisitPatch) -> (r: Visit)
    ensures
        r == spec_visit_overlay(*v, *p),
{
    Visit {
        id: v.id,
        user: match p.user {
            Some(x) => x,
            None => v.user,
        },
        location: match p.location {
            Some(x) => x,
            None => v.location,
        },
        visited_at: match p.visited_at {
            Some(x) => x,
            None => v.visited_at,
        },
        mark: match p.mark {
            Some(x) => x,
            None => v.mark,
        },
    }
}

} // verus!
