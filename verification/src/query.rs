//! The query engine: parsing the filter parameters of the two read
//! endpoints, and evaluating them over the derived lists.

use vstd::prelude::*;
use crate::domain::{Gender, LocationMark, UserVisit, UserVisitBody, UvBodyV};
use crate::store::ApiError;
use crate::numbers::{parse_i32_chars, parse_i64_chars, spec_parse_i32, spec_parse_i64, copy_range};
use crate::ext::{timestamp_years_back, url_decode, url_decoded};
use crate::render::chars_vec;

verus! {

/// First position of `c` in `s` at or after `from`, or the length.
pub open spec fn find_char(s: Seq<char>, from: int, c: char) -> int
    recommends
        0 <= from <= s.len(),
    decreases s.len() - from when 0 <= from <= s.len()
{
    if from >= s.len() {
        s.len() as int
    } else if s[from] == c {
        from
    } else {
        find_char(s, from + 1, c)
    }
}

pub proof fn lemma_find_char(s: Seq<char>, from: int, c: char)
    requires
        0 <= from <= s.len(),
    ensures
        from <= find_char(s, from, c) <= s.len(),
        find_char(s, from, c) < s.len() ==> s[find_char(s, from, c)] == c,
        forall|i: int| from <= i < find_char(s, from, c) ==> s[i] != c,
    decreases s.len() - from,
{
    if from < s.len() && s[from] != c {
        lemma_find_char(s, from + 1, c);
    }
}

/// Exec counterpart of `find_char`.
pub fn find_char_at(v: &Vec<char>, from: usize, c: char) -> (r: usize)
    requires
        from <= v@.len(),
    ensures
        r as int == find_char(v@, from as int, c),
        from <= r <= v@.len(),
    decreases v@.len() - from,
{
    proof {
        lemma_find_char(v@, from as int, c);
    }
    if from == v.len() {
        from
    } else if v[from] == c {
        from
    } else {
        find_char_at(v, from + 1, c)
    }
}

/// The key of a `key=value` piece: everything before the first `=`.
pub open spec fn kv_key(p: Seq<char>) -> Seq<char> {
    p.subrange(0, find_char(p, 0, '='))
}

/// The raw value of a piece: between the first `=` and the second `=` or the
/// end; `None` when there is no `=` at all.
pub open spec fn kv_val(p: Seq<char>) -> Option<Seq<char>> {
    let e1 = find_char(p, 0, '=');
    if e1 == p.len() {
        None
    } else {
        Some(p.subrange(e1 + 1, find_char(p, e1 + 1, '=')))
    }
}

/// The raw value, with a missing `=` read as an empty value.
pub open spec fn kv_val_or_empty(p: Seq<char>) -> Seq<char> {
    match kv_val(p) {
        Some(v) => v,
        None => Seq::empty(),
    }
}

/// The `&`-separated pieces of a query string, tail first peeled.
pub open spec fn params_from(s: Seq<char>, from: int) -> Seq<Seq<char>>
    recommends
        0 <= from <= s.len(),
    decreases s.len() - from when 0 <= from <= s.len()
{
    let a = find_char(s, from, '&');
    if a < from || a >= s.len() {
        seq![s.subrange(from, s.len() as int)]
    } else {
        seq![s.subrange(from, a)] + params_from(s, a + 1)
    }
}

pub open spec fn spec_params(s: Seq<char>) -> Seq<Seq<char>> {
    params_from(s, 0)
}

/// One condition of a visits query.
pub enum VisitCond {
    CondFromDate(i64),
    CondToDate(i64),
    CondToDistance(i32),
    CondCountry(Vec<char>),
    CondOther,
}

/// The mathematical value of a visits condition.
pub enum VCond {
    VFromDate(i64),
    VToDate(i64),
    VToDistance(i32),
    VCountry(Seq<char>),
    VOther,
}

impl View for VisitCond {
    type V = VCond;

    open spec fn view(&self) -> VCond {
        match self {
            VisitCond::CondFromDate(t) => VCond::VFromDate(*t),
            VisitCond::CondToDate(t) => VCond::VToDate(*t),
            VisitCond::CondToDistance(d) => VCond::VToDistance(*d),
            VisitCond::CondCountry(c) => VCond::VCountry(c@),
            VisitCond::CondOther => VCond::VOther,
        }
    }
}

/// What one visits-query parameter contributes; `None` when it is invalid.
pub open spec fn spec_visit_param(p: Seq<char>) -> Option<VCond> {
    let key = kv_key(p);
    if key == "fromDate"@ {
        match spec_parse_i64(kv_val_or_empty(p)) {
            Some(t) => Some(VCond::VFromDate(t)),
            None => None,
        }
    } else if key == "toDate"@ {
        match spec_parse_i64(kv_val_or_empty(p)) {
            Some(t) => Some(VCond::VToDate(t)),
            None => None,
        }
    } else if key == "toDistance"@ {
        match spec_parse_i32(kv_val_or_empty(p)) {
            Some(d) => Some(VCond::VToDistance(d)),
            None => None,
        }
    } else if key == "country"@ {
        match kv_val(p) {
            None => Some(VCond::VOther),
            Some(v) => match url_decoded(v) {
                Some(d) => Some(VCond::VCountry(d)),
                None => None,
            },
        }
    } else {
        Some(VCond::VOther)
    }
}

/// The conditions of a whole piece list; `None` when any piece is invalid.
pub open spec fn spec_visit_conds_of(ps: Seq<Seq<char>>) -> Option<Seq<VCond>>
    decreases ps.len(),
{
    if ps.len() == 0 {
        Some(Seq::empty())
    } else {
        match spec_visit_param(ps[0]) {
            None => None,
            Some(c) => match spec_visit_conds_of(ps.drop_first()) {
                None => None,
                Some(rest) => Some(seq![c] + rest),
            },
        }
    }
}

/// The conditions of a visits query string.
pub open spec fn spec_visit_conds(s: Seq<char>) -> Option<Seq<VCond>> {
    spec_visit_conds_of(spec_params(s))
}

/// Compares a character vector to a literal.
pub fn str_eq_chars(v: &Vec<char>, s: &str) -> (r: bool)
    ensures
        r == (v@ == s@),
{
    let w = chars_vec(s);
    if v.len() != w.len() {
        proof {
            if v@ == s@ {
                assert(v@.len() == s@.len());
            }
        }
        return false;
    }
    let mut i: usize = 0;
    while i < v.len()
        invariant
            i <= v@.len(),
            v@.len() == w@.len(),
            w@ == s@,
            forall|k: int| 0 <= k < i ==> v@[k] == w@[k],
        decreases v@.len() - i,
    {
        if v[i] != w[i] {
            proof {
                if v@ == s@ {
                    assert(v@[i as int] == s@[i as int]);
                }
            }
            return false;
        }
        i = i + 1;
    }
    proof {
        assert(v@ =~= s@);
    }
    true
}

/// Compares two character vectors.
pub fn vec_eq_chars(a: &Vec<char>, b: &Vec<char>) -> (r: bool)
    ensures
        r == (a@ == b@),
{
    if a.len() != b.len() {
        proof {
            if a@ == b@ {
                assert(a@.len() == b@.len());
            }
        }
        return false;
    }
    let mut i: usize = 0;
    while i < a.len()
        invariant
            i <= a@.len(),
            a@.len() == b@.len(),
            forall|k: int| 0 <= k < i ==> a@[k] == b@[k],
        decreases a@.len() - i,
    {
        if a[i] != b[i] {
            proof {
                if a@ == b@ {
                    assert(a@[i as int] == b@[i as int]);
                }
            }
            return false;
        }
        i = i + 1;
    }
    proof {
        assert(a@ =~= b@);
    }
    true
}

/// Splits one piece into its key and value.
fn split_piece(p: &Vec<char>) -> (r: (Vec<char>, Option<Vec<char>>))
    ensures
        r.0@ == kv_key(p@),
        match r.1 {
            Some(v) => kv_val(p@) == Some(v@),
            None => kv_val(p@) is None,
        },
{
    let e1 = find_char_at(p, 0, '=');
    let key = copy_range(p, 0, e1);
    if e1 == p.len() {
        (key, None)
    } else {
        let e2 = find_char_at(p, e1 + 1, '=');
        let val = copy_range(p, e1 + 1, e2);
        (key, Some(val))
    }
}

/// Parses one visits-query parameter.
fn visit_param_cond(p: &Vec<char>) -> (r: Result<VisitCond, ApiError>)
    ensures
        r matches Ok(c) ==> spec_visit_param(p@) == Some(c@),
        r is Err <==> spec_visit_param(p@) is None,
        r is Err ==> r == Err::<VisitCond, ApiError>(ApiError::BadQuery),
{
    let (key, val) = split_piece(p);
    let vempty: Vec<char> = Vec::new();
    let v = match &val {
        Some(x) => x,
        None => &vempty,
    };
    if str_eq_chars(&key, "fromDate") {
        match parse_i64_chars(v) {
            Some(t) => Ok(VisitCond::CondFromDate(t)),
            None => Err(ApiError::BadQuery),
        }
    } else if str_eq_chars(&key, "toDate") {
        match parse_i64_chars(v) {
            Some(t) => Ok(VisitCond::CondToDate(t)),
            None => Err(ApiError::BadQuery),
        }
    } else if str_eq_chars(&key, "toDistance") {
        match parse_i32_chars(v) {
            Some(d) => Ok(VisitCond::CondToDistance(d)),
            None => Err(ApiError::BadQuery),
        }
    } else if str_eq_chars(&key, "country") {
        match &val {
            None => Ok(VisitCond::CondOther),
            Some(x) => match url_decode(x) {
                Some(d) => Ok(VisitCond::CondCountry(d)),
                None => Err(ApiError::BadQuery),
            },
        }
    } else {
        Ok(VisitCond::CondOther)
    }
}

/// Parses the pieces of a visits query from `from` on.
fn parse_visits_from(q: &Vec<char>, from: usize) -> (r: Result<Vec<VisitCond>, ApiError>)
    requires
        from <= q@.len(),
    ensures
        r is Err <==> spec_visit_conds_of(params_from(q@, from as int)) is None,
        r is Err ==> r == Err::<Vec<VisitCond>, ApiError>(ApiError::BadQuery),
        r matches Ok(cs) ==> spec_visit_conds_of(params_from(q@, from as int)) == Some(
            cs@.map_values(|c: VisitCond| c@),
        ),
    decreases q@.len() - from,
{
    let a = find_char_at(q, from, '&');
    proof {
        lemma_find_char(q@, from as int, '&');
    }
    let piece = copy_range(q, from, if a < q.len() {
        a
    } else {
        q.len()
    });
    let ghost ps = params_from(q@, from as int);
    if a >= q.len() {
        proof {
            assert(ps =~= seq![piece@]);
        }
        match visit_param_cond(&piece) {
            Ok(c) => {
                let mut out: Vec<VisitCond> = Vec::new();
                out.push(c);
                proof {
                    assert(ps.drop_first() =~= Seq::<Seq<char>>::empty());
                    assert(out@.map_values(|x: VisitCond| x@) =~= seq![c@]);
                    assert(seq![c@] =~= seq![c@] + Seq::<VCond>::empty());
                }
                Ok(out)
            },
            Err(e) => Err(e),
        }
    } else {
        proof {
            assert(ps[0] == piece@);
            assert(ps.drop_first() =~= params_from(q@, a + 1 as int));
        }
        match visit_param_cond(&piece) {
            Ok(c) => {
                match parse_visits_from(q, a + 1) {
                    Ok(mut rest) => {
                        let ghost restv = rest@.map_values(|x: VisitCond| x@);
                        let mut out: Vec<VisitCond> = Vec::new();
                        out.push(c);
                        out.append(&mut rest);
                        proof {
                            assert(out@.map_values(|x: VisitCond| x@) =~= seq![c@] + restv);
                        }
                        Ok(out)
                    },
                    Err(e) => Err(e),
                }
            },
            Err(e) => Err(e),
        }
    }
}

/// Parses a whole visits query string into its conditions.
pub fn parse_visits_query(q: &Vec<char>) -> (r: Result<Vec<VisitCond>, ApiError>)
    ensures
        r is Err <==> spec_visit_conds(q@) is None,
        r is Err ==> r == Err::<Vec<VisitCond>, ApiError>(ApiError::BadQuery),
        r matches Ok(cs) ==> spec_visit_conds(q@) == Some(cs@.map_values(|c: VisitCond| c@)),
{
    parse_visits_from(q, 0)
}

/// Whether a visit row passes one condition.
pub open spec fn vcond_pass(e: UserVisit, c: VCond) -> bool {
    match c {
        VCond::VFromDate(t) => e.visited_at > t,
        VCond::VToDate(t) => e.visited_at < t,
        VCond::VToDistance(d) => e.distance < d,
        VCond::VCountry(s) => e.country@ == s,
        VCond::VOther => true,
    }
}

/// Whether a visit row passes every condition.
pub open spec fn uv_pass(e: UserVisit, cs: Seq<VCond>) -> bool {
    forall|i: int| 0 <= i < cs.len() ==> vcond_pass(e, #[trigger] cs[i])
}

/// Exec counterpart of `uv_pass`.
pub fn uv_passes(e: &UserVisit, cs: &Vec<VisitCond>) -> (r: bool)
    ensures
        r == uv_pass(*e, cs@.map_values(|c: VisitCond| c@)),
{
    let ghost m = cs@.map_values(|c: VisitCond| c@);
    let mut i: usize = 0;
    while i < cs.len()
        invariant
            i <= cs@.len(),
            m == cs@.map_values(|c: VisitCond| c@),
            forall|k: int| 0 <= k < i ==> vcond_pass(*e, #[trigger] m[k]),
        decreases cs@.len() - i,
    {
        let ok = match &cs[i] {
            VisitCond::CondFromDate(t) => e.visited_at > *t,
            VisitCond::CondToDate(t) => e.visited_at < *t,
            VisitCond::CondToDistance(d) => e.distance < *d,
            VisitCond::CondCountry(s) => vec_eq_chars(&e.country, s),
            VisitCond::CondOther => true,
        };
        proof {
            assert(m[i as int] == cs@[i as int]@);
        }
        if !ok {
            proof {
                assert(!vcond_pass(*e, m[i as int]));
            }
            return false;
        }
        i = i + 1;
    }
    true
}

/// The projection a visit row contributes to the visits response.
pub open spec fn spec_project(e: UserVisit) -> UvBodyV {
    UvBodyV { mark: e.mark, visited_at: e.visited_at, place: e.place@ }
}

/// The filtered projection of a visit list, in list order.
pub open spec fn spec_filtered(s: Seq<UserVisit>, cs: Seq<VCond>) -> Seq<UvBodyV>
    decreases s.len(),
{
    if s.len() == 0 {
        Seq::empty()
    } else {
        let rest = spec_filtered(s.drop_last(), cs);
        if uv_pass(s.last(), cs) {
            rest.push(spec_project(s.last()))
        } else {
            rest
        }
    }
}

/// Filters and projects a visit list.
pub fn filter_visits(l: &Vec<UserVisit>, cs: &Vec<VisitCond>) -> (r: Vec<UserVisitBody>)
    ensures
        r@.map_values(|b: UserVisitBody| b@) == spec_filtered(
            l@,
            cs@.map_values(|c: VisitCond| c@),
        ),
{
    let ghost m = cs@.map_values(|c: VisitCond| c@);
    let mut out: Vec<UserVisitBody> = Vec::new();
    let mut i: usize = 0;
    while i < l.len()
        invariant
            i <= l@.len(),
            m == cs@.map_values(|c: VisitCond| c@),
            out@.map_values(|b: UserVisitBody| b@) == spec_filtered(l@.subrange(0, i as int), m),
        decreases l@.len() - i,
    {
        let e = &l[i];
        proof {
            let pre = l@.subrange(0, i as int);
            let post = l@.subrange(0, i + 1 as int);
            assert(post.drop_last() =~= pre);
            assert(post.last() == l@[i as int]);
        }
        if uv_passes(e, cs) {
            let b = UserVisitBody {
                mark: e.mark,
                visited_at: e.visited_at,
                place: e.place.clone(),
            };
            proof {
                assert(b@ == spec_project(l@[i as int]));
            }
            out.push(b);
            proof {
                assert(out@.map_values(|x: UserVisitBody| x@) =~= spec_filtered(
                    l@.subrange(0, i + 1 as int),
                    m,
                ));
            }
        } else {
            proof {
                assert(out@.map_values(|x: UserVisitBody| x@) =~= spec_filtered(
                    l@.subrange(0, i + 1 as int),
                    m,
                ));
            }
        }
        i = i + 1;
    }
    proof {
        assert(l@.subrange(0, l@.len() as int) =~= l@);
    }
    out
}

/// One condition of an average query, ages already resolved to birth-date
/// cutoffs.
#[derive(Clone, Copy, PartialEq, Eq, Structural)]
pub enum MarkCond {
    CondMFromDate(i64),
    CondMToDate(i64),
    CondBornBefore(i64),
    CondBornAfter(i64),
    CondGender(Gender),
    CondMOther,
}

/// One parameter of an average query as written, ages unresolved.
pub enum AParam {
    AFromDate(i64),
    AToDate(i64),
    AFromAge(i32),
    AToAge(i32),
    AGender(Gender),
    AOther,
}

/// What one average-query parameter contributes; `None` when invalid,
/// negative ages included.
pub open spec fn spec_avg_param(p: Seq<char>) -> Option<AParam> {
    let key = kv_key(p);
    if key == "fromDate"@ {
        match spec_parse_i64(kv_val_or_empty(p)) {
            Some(t) => Some(AParam::AFromDate(t)),
            None => None,
        }
    } else if key == "toDate"@ {
        match spec_parse_i64(kv_val_or_empty(p)) {
            Some(t) => Some(AParam::AToDate(t)),
            None => None,
        }
    } else if key == "fromAge"@ {
        match spec_parse_i32(kv_val_or_empty(p)) {
            Some(k) => if k >= 0 {
                Some(AParam::AFromAge(k))
            } else {
                None
            },
            None => None,
        }
    } else if key == "toAge"@ {
        match spec_parse_i32(kv_val_or_empty(p)) {
            Some(k) => if k >= 0 {
                Some(AParam::AToAge(k))
            } else {
                None
            },
            None => None,
        }
    } else if key == "gender"@ {
        if kv_val_or_empty(p) == "m"@ {
            Some(AParam::AGender(Gender::Male))
        } else if kv_val_or_empty(p) == "f"@ {
            Some(AParam::AGender(Gender::Female))
        } else {
            None
        }
    } else {
        Some(AParam::AOther)
    }
}

pub open spec fn spec_avg_params_of(ps: Seq<Seq<char>>) -> Option<Seq<AParam>>
    decreases ps.len(),
{
    if ps.len() == 0 {
        Some(Seq::empty())
    } else {
        match spec_avg_param(ps[0]) {
            None => None,
            Some(c) => match spec_avg_params_of(ps.drop_first()) {
                None => None,
                Some(rest) => Some(seq![c] + rest),
            },
        }
    }
}

/// The parameters of an average query string, ages unresolved.
pub open spec fn spec_avg_params(s: Seq<char>) -> Option<Seq<AParam>> {
    spec_avg_params_of(spec_params(s))
}

/// The condition `c` is the parameter `p` with its age, if any, resolved to
/// some birth-date cutoff.
pub open spec fn mark_cond_resolves(c: MarkCond, p: AParam) -> bool {
    match p {
        AParam::AFromDate(t) => c == MarkCond::CondMFromDate(t),
        AParam::AToDate(t) => c == MarkCond::CondMToDate(t),
        AParam::AFromAge(_) => c is CondBornBefore,
        AParam::AToAge(_) => c is CondBornAfter,
        AParam::AGender(g) => c == MarkCond::CondGender(g),
        AParam::AOther => c == MarkCond::CondMOther,
    }
}

/// How a parameter list's parse decomposes into its head and tail.
proof fn lemma_avg_params_head(ps: Seq<Seq<char>>)
    requires
        ps.len() > 0,
        spec_avg_params_of(ps) is Some,
    ensures
        spec_avg_param(ps[0]) is Some,
        spec_avg_params_of(ps.drop_first()) is Some,
        ({
            let alls = spec_avg_params_of(ps)->0;
            let tails = spec_avg_params_of(ps.drop_first())->0;
            &&& alls.len() == 1 + tails.len()
            &&& alls[0] == spec_avg_param(ps[0])->0
            &&& forall|i: int| 0 <= i < tails.len() ==> alls[i + 1] == tails[i]
        }),
{
    let alls = spec_avg_params_of(ps)->0;
    let tails = spec_avg_params_of(ps.drop_first())->0;
    assert(alls == seq![spec_avg_param(ps[0])->0] + tails);
}

/// Parses one average-query parameter, resolving ages through the clock.
fn avg_param_cond(p: &Vec<char>) -> (r: Result<MarkCond, ApiError>)
    ensures
        spec_avg_param(p@) is None ==> r == Err::<MarkCond, ApiError>(ApiError::BadQuery),
        r matches Ok(c) ==> spec_avg_param(p@) matches Some(ap) && mark_cond_resolves(c, ap),
        r is Err ==> r == Err::<MarkCond, ApiError>(ApiError::BadQuery),
        (spec_avg_param(p@) matches Some(ap) && !(ap is AFromAge) && !(ap is AToAge)) ==> r is Ok,
{
    let (key, val) = split_piece(p);
    let vempty: Vec<char> = Vec::new();
    let v = match &val {
        Some(x) => x,
        None => &vempty,
    };
    if str_eq_chars(&key, "fromDate") {
        match parse_i64_chars(v) {
            Some(t) => Ok(MarkCond::CondMFromDate(t)),
            None => Err(ApiError::BadQuery),
        }
    } else if str_eq_chars(&key, "toDate") {
        match parse_i64_chars(v) {
            Some(t) => Ok(MarkCond::CondMToDate(t)),
            None => Err(ApiError::BadQuery),
        }
    } else if str_eq_chars(&key, "fromAge") {
        match parse_i32_chars(v) {
            Some(k) => if k >= 0 {
                match timestamp_years_back(k) {
                    Some(t) => Ok(MarkCond::CondBornBefore(t)),
                    None => Err(ApiError::BadQuery),
                }
            } else {
                Err(ApiError::BadQuery)
            },
            None => Err(ApiError::BadQuery),
        }
    } else if str_eq_chars(&key, "toAge") {
        match parse_i32_chars(v) {
            Some(k) => if k >= 0 {
                match timestamp_years_back(k) {
                    Some(t) => Ok(MarkCond::CondBornAfter(t)),
                    None => Err(ApiError::BadQuery),
                }
            } else {
                Err(ApiError::BadQuery)
            },
            None => Err(ApiError::BadQuery),
        }
    } else if str_eq_chars(&key, "gender") {
        if str_eq_chars(v, "m") {
            Ok(MarkCond::CondGender(Gender::Male))
        } else if str_eq_chars(v, "f") {
            Ok(MarkCond::CondGender(Gender::Female))
        } else {
            Err(ApiError::BadQuery)
        }
    } else {
        Ok(MarkCond::CondMOther)
    }
}

/// Parses the pieces of an average query from `from` on.
fn parse_avg_from(q: &Vec<char>, from: usize) -> (r: Result<Vec<MarkCond>, ApiError>)
    requires
        from <= q@.len(),
    ensures
        spec_avg_params_of(params_from(q@, from as int)) is None ==> r == Err::<
            Vec<MarkCond>,
            ApiError,
        >(ApiError::BadQuery),
        r is Err ==> r == Err::<Vec<MarkCond>, ApiError>(ApiError::BadQuery),
        r matches Ok(cs) ==> spec_avg_params_of(params_from(q@, from as int)) matches Some(ps)
            && cs@.len() == ps.len() && (forall|i: int|
            0 <= i < ps.len() ==> mark_cond_resolves(#[trigger] cs@[i], ps[i])),
        (spec_avg_params_of(params_from(q@, from as int)) matches Some(ps) && (forall|i: int|
            0 <= i < ps.len() ==> !((#[trigger] ps[i]) is AFromAge) && !(ps[i] is AToAge))) ==> r
            is Ok,
    decreases q@.len() - from,
{
    let a = find_char_at(q, from, '&');
    proof {
        lemma_find_char(q@, from as int, '&');
    }
    let piece = copy_range(q, from, if a < q.len() {
        a
    } else {
        q.len()
    });
    let ghost ps = params_from(q@, from as int);
    proof {
        if ps.len() > 0 && spec_avg_params_of(ps) is Some {
            lemma_avg_params_head(ps);
        }
    }
    if a >= q.len() {
        proof {
            assert(ps =~= seq![piece@]);
        }
        match avg_param_cond(&piece) {
            Ok(c) => {
                let mut out: Vec<MarkCond> = Vec::new();
                out.push(c);
                proof {
                    assert(ps.drop_first() =~= Seq::<Seq<char>>::empty());
                    let ap = choose|ap: AParam| spec_avg_param(piece@) == Some(ap)
                        && mark_cond_resolves(c, ap);
                    assert(spec_avg_params_of(ps) == Some(seq![ap] + Seq::<AParam>::empty()));
                    assert(seq![ap] + Seq::<AParam>::empty() =~= seq![ap]);
                }
                Ok(out)
            },
            Err(e) => {
                proof {
                    if spec_avg_params_of(ps) is Some {
                        let alls = spec_avg_params_of(ps)->0;
                        assert(alls[0] == spec_avg_param(piece@)->0);
                    }
                }
                Err(e)
            },
        }
    } else {
        proof {
            assert(ps[0] == piece@);
            assert(ps.drop_first() =~= params_from(q@, a + 1 as int));
        }
        match avg_param_cond(&piece) {
            Ok(c) => {
                match parse_avg_from(q, a + 1) {
                    Ok(mut rest) => {
                        let ghost restl = rest@;
                        let mut out: Vec<MarkCond> = Vec::new();
                        out.push(c);
                        out.append(&mut rest);
                        proof {
                            assert(out@ =~= seq![c] + restl);
                        }
                        Ok(out)
                    },
                    Err(e) => {
                        proof {
                            if spec_avg_params_of(ps) is Some {
                                let alls = spec_avg_params_of(ps)->0;
                                let tails = spec_avg_params_of(ps.drop_first())->0;
                                if forall|i: int|
                                    0 <= i < alls.len() ==> !((#[trigger] alls[i]) is AFromAge) && !(
                                    alls[i] is AToAge) {
                                    assert forall|i: int|
                                        0 <= i < tails.len() implies !((#[trigger] tails[i])
                                        is AFromAge) && !(tails[i] is AToAge) by {
                                        assert(alls[i + 1] == tails[i]);
                                    }
                                }
                            }
                        }
                        Err(e)
                    },
                }
            },
            Err(e) => {
                proof {
                    if spec_avg_params_of(ps) is Some {
                        let alls = spec_avg_params_of(ps)->0;
                        assert(alls[0] == spec_avg_param(piece@)->0);
                    }
                }
                Err(e)
            },
        }
    }
}

/// Parses a whole average query string into its conditions; fails on an
/// invalid parameter or an age the calendar cannot resolve.
pub fn parse_avg_query(q: &Vec<char>) -> (r: Result<Vec<MarkCond>, ApiError>)
    ensures
        spec_avg_params(q@) is None ==> r == Err::<Vec<MarkCond>, ApiError>(ApiError::BadQuery),
        r is Err ==> r == Err::<Vec<MarkCond>, ApiError>(ApiError::BadQuery),
        r matches Ok(cs) ==> spec_avg_params(q@) matches Some(ps) && cs@.len() == ps.len() && (
        forall|i: int| 0 <= i < ps.len() ==> mark_cond_resolves(#[trigger] cs@[i], ps[i])),
        (spec_avg_params(q@) matches Some(ps) && (forall|i: int|
            0 <= i < ps.len() ==> !((#[trigger] ps[i]) is AFromAge) && !(ps[i] is AToAge))) ==> r
            is Ok,
{
    parse_avg_from(q, 0)
}

/// Whether a mark row passes one condition.
pub open spec fn mcond_pass(e: LocationMark, c: MarkCond) -> bool {
    match c {
        MarkCond::CondMFromDate(t) => e.visited_at > t,
        MarkCond::CondMToDate(t) => e.visited_at < t,
        MarkCond::CondBornBefore(t) => e.birth_date < t,
        MarkCond::CondBornAfter(t) => e.birth_date > t,
        MarkCond::CondGender(g) => e.gender == g,
        MarkCond::CondMOther => true,
    }
}

/// Whether a mark row passes every condition.
pub open spec fn lm_pass(e: LocationMark, cs: Seq<MarkCond>) -> bool {
    forall|i: int| 0 <= i < cs.len() ==> mcond_pass(e, #[trigger] cs[i])
}

/// The sum of the marks of the passing rows.
pub open spec fn spec_sum(s: Seq<LocationMark>, cs: Seq<MarkCond>) -> int
    decreases s.len(),
{
    if s.len() == 0 {
        0
    } else {
        spec_sum(s.drop_last(), cs) + if lm_pass(s.last(), cs) {
            s.last().mark as int
        } else {
            0
        }
    }
}

/// The number of passing rows.
pub open spec fn spec_count(s: Seq<LocationMark>, cs: Seq<MarkCond>) -> int
    decreases s.len(),
{
    if s.len() == 0 {
        0
    } else {
        spec_count(s.drop_last(), cs) + if lm_pass(s.last(), cs) {
            1int
        } else {
            0int
        }
    }
}

/// Exec counterpart of `lm_pass`.
fn lm_passes(e: &LocationMark, cs: &Vec<MarkCond>) -> (r: bool)
    ensures
        r == lm_pass(*e, cs@),
{
    let mut i: usize = 0;
    while i < cs.len()
        invariant
            i <= cs@.len(),
            forall|k: int| 0 <= k < i ==> mcond_pass(*e, #[trigger] cs@[k]),
        decreases cs@.len() - i,
    {
        let ok = match cs[i] {
            MarkCond::CondMFromDate(t) => e.visited_at > t,
            MarkCond::CondMToDate(t) => e.visited_at < t,
            MarkCond::CondBornBefore(t) => e.birth_date < t,
            MarkCond::CondBornAfter(t) => e.birth_date > t,
            MarkCond::CondGender(g) => e.gender == g,
            MarkCond::CondMOther => true,
        };
        if !ok {
            proof {
                assert(!mcond_pass(*e, cs@[i as int]));
            }
            return false;
        }
        i = i + 1;
    }
    true
}

/// Sums the marks of the rows that pass every condition.
pub fn sum_marks(l: &Vec<LocationMark>, cs: &Vec<MarkCond>) -> (r: (i128, usize))
    ensures
        r.0 as int == spec_sum(l@, cs@),
        r.1 as int == spec_count(l@, cs@),
        -128 * (r.1 as int) <= r.0 as int <= 128 * (r.1 as int),
        r.1 <= l@.len(),
{
    let mut sum: i128 = 0;
    let mut count: usize = 0;
    let mut i: usize = 0;
    while i < l.len()
        invariant
            i <= l@.len(),
            count <= i,
            sum as int == spec_sum(l@.subrange(0, i as int), cs@),
            count as int == spec_count(l@.subrange(0, i as int), cs@),
            -128 * (count as int) <= sum as int <= 128 * (count as int),
        decreases l@.len() - i,
    {
        proof {
            let pre = l@.subrange(0, i as int);
            let post = l@.subrange(0, i + 1 as int);
            assert(post.drop_last() =~= pre);
            assert(post.last() == l@[i as int]);
        }
        if lm_passes(&l[i], cs) {
            sum = sum + l[i].mark as i128;
            count = count + 1;
        }
        i = i + 1;
    }
    proof {
        assert(l@.subrange(0, l@.len() as int) =~= l@);
    }
    (sum, count)
}

} // verus!
