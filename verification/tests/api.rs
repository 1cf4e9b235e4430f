use travels::response::{encode, Response};
use travels::routes::{handle_get, handle_post};
use travels::store::Travels;

fn cv(s: &str) -> Vec<char> {
    s.chars().collect()
}

fn get(t: &Travels, path: &str) -> (u16, String) {
    let r = handle_get(t, &cv(path));
    (r.status, r.body.into_iter().collect())
}

fn post(t: &mut Travels, path: &str, body: &str) -> (u16, String) {
    let r = handle_post(t, &cv(path), &cv(body));
    (r.status, r.body.into_iter().collect())
}

fn seeded() -> Travels {
    let mut t = Travels::new();
    let (s, _) = post(
        &mut t,
        "/users/new",
        "{\"id\":1,\"first_name\":\"A\",\"last_name\":\"B\",\"gender\":\"m\",\"birth_date\":0,\"email\":\"x@y\"}",
    );
    assert_eq!(s, 200);
    let (s, _) = post(
        &mut t,
        "/locations/new",
        "{\"id\":10,\"distance\":5,\"city\":\"C\",\"place\":\"P\",\"country\":\"Q\"}",
    );
    assert_eq!(s, 200);
    let (s, _) = post(
        &mut t,
        "/visits/new",
        "{\"id\":100,\"user\":1,\"location\":10,\"visited_at\":1000,\"mark\":5}",
    );
    assert_eq!(s, 200);
    t
}

#[test]
fn create_and_project_single_visit() {
    let t = seeded();
    let (s, b) = get(&t, "/users/1/visits");
    assert_eq!(s, 200);
    assert_eq!(b, "{\"visits\":[{\"mark\":5,\"visited_at\":1000,\"place\":\"P\"}]}");
    let (s, b) = get(&t, "/locations/10/avg");
    assert_eq!(s, 200);
    assert_eq!(b, "{\"avg\":5.0}");
}

#[test]
fn get_entities_as_json() {
    let t = seeded();
    let (s, b) = get(&t, "/users/1");
    assert_eq!(s, 200);
    assert_eq!(
        b,
        "{\"id\":1,\"first_name\":\"A\",\"last_name\":\"B\",\"gender\":\"m\",\"birth_date\":0,\"email\":\"x@y\"}"
    );
    let (s, b) = get(&t, "/locations/10");
    assert_eq!(s, 200);
    assert_eq!(
        b,
        "{\"id\":10,\"distance\":5,\"city\":\"C\",\"place\":\"P\",\"country\":\"Q\"}"
    );
    let (s, b) = get(&t, "/visits/100");
    assert_eq!(s, 200);
    assert_eq!(
        b,
        "{\"id\":100,\"user\":1,\"location\":10,\"visited_at\":1000,\"mark\":5}"
    );
}

#[test]
fn location_update_fans_out_to_visit_rows() {
    let mut t = seeded();
    let (s, b) = post(&mut t, "/locations/10", "{\"place\":\"P2\",\"distance\":9}");
    assert_eq!(s, 200);
    assert_eq!(b, "{}");
    let (s, b) = get(&t, "/users/1/visits");
    assert_eq!(s, 200);
    assert!(b.contains("\"place\":\"P2\""));
    // the derived distance is now 9: strictly-below filters see it
    let (_, b) = get(&t, "/users/1/visits?toDistance=9");
    assert_eq!(b, "{\"visits\":[]}");
    let (_, b) = get(&t, "/users/1/visits?toDistance=10");
    assert!(b.contains("\"visited_at\":1000"));
}

#[test]
fn user_update_fans_out_to_mark_rows() {
    let mut t = seeded();
    let (s, _) = post(&mut t, "/users/1", "{\"gender\":\"f\",\"birth_date\":-1000000000}");
    assert_eq!(s, 200);
    let (_, b) = get(&t, "/locations/10/avg?gender=m");
    assert_eq!(b, "{\"avg\":0}");
    let (_, b) = get(&t, "/locations/10/avg?gender=f");
    assert_eq!(b, "{\"avg\":5.0}");
}

#[test]
fn visits_are_listed_in_time_order() {
    let mut t = seeded();
    post(&mut t, "/visits/new", "{\"id\":101,\"user\":1,\"location\":10,\"visited_at\":300,\"mark\":1}");
    post(&mut t, "/visits/new", "{\"id\":102,\"user\":1,\"location\":10,\"visited_at\":100,\"mark\":2}");
    post(&mut t, "/visits/new", "{\"id\":103,\"user\":1,\"location\":10,\"visited_at\":200,\"mark\":3}");
    let (_, b) = get(&t, "/users/1/visits?toDate=1000");
    assert_eq!(
        b,
        "{\"visits\":[{\"mark\":2,\"visited_at\":100,\"place\":\"P\"},{\"mark\":3,\"visited_at\":200,\"place\":\"P\"},{\"mark\":1,\"visited_at\":300,\"place\":\"P\"}]}"
    );
}

#[test]
fn visit_moves_between_users() {
    let mut t = seeded();
    let (s, _) = post(
        &mut t,
        "/users/new",
        "{\"id\":2,\"first_name\":\"C\",\"last_name\":\"D\",\"gender\":\"f\",\"birth_date\":5,\"email\":\"z@y\"}",
    );
    assert_eq!(s, 200);
    let (s, _) = post(&mut t, "/visits/100", "{\"user\":2}");
    assert_eq!(s, 200);
    let (_, b) = get(&t, "/users/1/visits");
    assert_eq!(b, "{\"visits\":[]}");
    let (_, b) = get(&t, "/users/2/visits");
    assert!(b.contains("\"visited_at\":1000"));
    // the mark row now reports user 2's gender
    let (_, b) = get(&t, "/locations/10/avg?gender=f");
    assert_eq!(b, "{\"avg\":5.0}");
    let (_, b) = get(&t, "/locations/10/avg?gender=m");
    assert_eq!(b, "{\"avg\":0}");
}

#[test]
fn visit_moves_between_locations() {
    let mut t = seeded();
    post(
        &mut t,
        "/locations/new",
        "{\"id\":11,\"distance\":7,\"city\":\"C2\",\"place\":\"R\",\"country\":\"Z\"}",
    );
    let (s, _) = post(&mut t, "/visits/100", "{\"location\":11}");
    assert_eq!(s, 200);
    let (_, b) = get(&t, "/locations/10/avg");
    assert_eq!(b, "{\"avg\":0}");
    let (_, b) = get(&t, "/locations/11/avg");
    assert_eq!(b, "{\"avg\":5.0}");
    // the visit row was rebuilt from the new location
    let (_, b) = get(&t, "/users/1/visits");
    assert_eq!(b, "{\"visits\":[{\"mark\":5,\"visited_at\":1000,\"place\":\"R\"}]}");
}

#[test]
fn strict_date_bounds_on_avg() {
    let mut t = seeded();
    let (_, b) = get(&mut t, "/locations/10/avg?fromDate=999&toDate=1001");
    assert_eq!(b, "{\"avg\":5.0}");
    let (_, b) = get(&mut t, "/locations/10/avg?fromDate=1000");
    assert_eq!(b, "{\"avg\":0}");
    let (_, b) = get(&mut t, "/locations/10/avg?toDate=1000");
    assert_eq!(b, "{\"avg\":0}");
}

#[test]
fn strict_date_bounds_on_visits() {
    let t = seeded();
    let (_, b) = get(&t, "/users/1/visits?fromDate=999&toDate=1001");
    assert!(b.contains("\"visited_at\":1000"));
    let (_, b) = get(&t, "/users/1/visits?fromDate=1000");
    assert_eq!(b, "{\"visits\":[]}");
}

#[test]
fn average_is_rounded_to_five_digits() {
    let mut t = seeded();
    post(&mut t, "/visits/new", "{\"id\":101,\"user\":1,\"location\":10,\"visited_at\":2000,\"mark\":1}");
    post(&mut t, "/visits/new", "{\"id\":102,\"user\":1,\"location\":10,\"visited_at\":3000,\"mark\":1}");
    // marks 5, 1, 1: mean 7/3 = 2.333331/3
    let (_, b) = get(&t, "/locations/10/avg");
    assert_eq!(b, "{\"avg\":2.33333}");
    post(&mut t, "/visits/new", "{\"id\":103,\"user\":1,\"location\":10,\"visited_at\":4000,\"mark\":1}");
    // marks 5, 1, 1, 1: mean 2
    let (_, b) = get(&t, "/locations/10/avg");
    assert_eq!(b, "{\"avg\":2.0}");
}

#[test]
fn average_rounds_two_thirds_up() {
    let mut t = Travels::new();
    post(
        &mut t,
        "/users/new",
        "{\"id\":1,\"first_name\":\"A\",\"last_name\":\"B\",\"gender\":\"m\",\"birth_date\":0,\"email\":\"x@y\"}",
    );
    post(
        &mut t,
        "/locations/new",
        "{\"id\":10,\"distance\":5,\"city\":\"C\",\"place\":\"P\",\"country\":\"Q\"}",
    );
    post(&mut t, "/visits/new", "{\"id\":1,\"user\":1,\"location\":10,\"visited_at\":1,\"mark\":1}");
    post(&mut t, "/visits/new", "{\"id\":2,\"user\":1,\"location\":10,\"visited_at\":2,\"mark\":1}");
    post(&mut t, "/visits/new", "{\"id\":3,\"user\":1,\"location\":10,\"visited_at\":3,\"mark\":0}");
    // mean 2/3 rounds to 0.66667
    let (_, b) = get(&t, "/locations/10/avg");
    assert_eq!(b, "{\"avg\":0.66667}");
}

#[test]
fn duplicate_ids_are_rejected() {
    let mut t = seeded();
    let (s, b) = post(
        &mut t,
        "/users/new",
        "{\"id\":1,\"first_name\":\"E\",\"last_name\":\"F\",\"gender\":\"m\",\"birth_date\":1,\"email\":\"w@y\"}",
    );
    assert_eq!(s, 400);
    assert_eq!(b, "");
    let (s, _) = post(
        &mut t,
        "/visits/new",
        "{\"id\":100,\"user\":1,\"location\":10,\"visited_at\":7,\"mark\":3}",
    );
    assert_eq!(s, 400);
}

#[test]
fn dangling_references_are_rejected() {
    let mut t = seeded();
    let (s, _) = post(
        &mut t,
        "/visits/new",
        "{\"id\":101,\"user\":99,\"location\":10,\"visited_at\":7,\"mark\":3}",
    );
    assert_eq!(s, 400);
    let (s, _) = post(&mut t, "/visits/100", "{\"user\":99}");
    assert_eq!(s, 400);
    // the store is unchanged
    let (_, b) = get(&t, "/users/1/visits");
    assert!(b.contains("\"visited_at\":1000"));
}

#[test]
fn null_and_mistyped_fields_are_rejected() {
    let mut t = seeded();
    let (s, _) = post(&mut t, "/users/1", "{\"first_name\":null}");
    assert_eq!(s, 400);
    let (s, _) = post(&mut t, "/users/1", "{\"birth_date\":\"abc\"}");
    assert_eq!(s, 400);
    let (s, _) = post(&mut t, "/users/1", "not json");
    assert_eq!(s, 400);
    let (s, _) = post(&mut t, "/visits/100", "{\"mark\":300}");
    assert_eq!(s, 400);
    // and nothing changed
    let (_, b) = get(&t, "/users/1");
    assert!(b.contains("\"first_name\":\"A\""));
}

#[test]
fn partial_update_keeps_absent_fields() {
    let mut t = seeded();
    let (s, _) = post(&mut t, "/users/1", "{\"gender\":\"f\"}");
    assert_eq!(s, 200);
    let (_, b) = get(&t, "/users/1");
    assert_eq!(
        b,
        "{\"id\":1,\"first_name\":\"A\",\"last_name\":\"B\",\"gender\":\"f\",\"birth_date\":0,\"email\":\"x@y\"}"
    );
}

#[test]
fn unknown_targets_return_not_found() {
    let mut t = seeded();
    assert_eq!(get(&t, "/users/9").0, 404);
    assert_eq!(get(&t, "/locations/9").0, 404);
    assert_eq!(get(&t, "/visits/9").0, 404);
    assert_eq!(get(&t, "/users/9/visits").0, 404);
    assert_eq!(get(&t, "/locations/9/avg").0, 404);
    assert_eq!(get(&t, "/users/abc").0, 404);
    assert_eq!(get(&t, "/users/1x").0, 404);
    assert_eq!(get(&t, "/nothing").0, 404);
    let (s, _) = post(&mut t, "/users/9", "{\"gender\":\"f\"}");
    assert_eq!(s, 404);
}

#[test]
fn bad_query_parameters_are_rejected() {
    let t = seeded();
    assert_eq!(get(&t, "/users/1/visits?fromDate=abc").0, 400);
    assert_eq!(get(&t, "/users/1/visits?toDistance=").0, 400);
    assert_eq!(get(&t, "/locations/10/avg?gender=x").0, 400);
    assert_eq!(get(&t, "/locations/10/avg?fromAge=-1").0, 400);
    assert_eq!(get(&t, "/locations/10/avg?toDate=1e3").0, 400);
    // unknown keys are ignored
    assert_eq!(get(&t, "/users/1/visits?foo=bar").0, 200);
    assert_eq!(get(&t, "/locations/10/avg?foo=bar").0, 200);
}

#[test]
fn country_filter_decodes_percent_escapes() {
    let mut t = seeded();
    post(
        &mut t,
        "/locations/new",
        "{\"id\":11,\"distance\":7,\"city\":\"W\",\"place\":\"S\",\"country\":\"New Zealand\"}",
    );
    post(&mut t, "/visits/new", "{\"id\":101,\"user\":1,\"location\":11,\"visited_at\":50,\"mark\":4}");
    let (s, b) = get(&t, "/users/1/visits?country=New%20Zealand");
    assert_eq!(s, 200);
    assert_eq!(b, "{\"visits\":[{\"mark\":4,\"visited_at\":50,\"place\":\"S\"}]}");
    let (_, b) = get(&t, "/users/1/visits?country=Q");
    assert_eq!(b, "{\"visits\":[{\"mark\":5,\"visited_at\":1000,\"place\":\"P\"}]}");
}

#[test]
fn age_filters_use_the_clock() {
    let t = seeded();
    // the seeded user was born at epoch 0, long before now
    let (s, b) = get(&t, "/locations/10/avg?fromAge=0");
    assert_eq!(s, 200);
    assert_eq!(b, "{\"avg\":5.0}");
    let (s, b) = get(&t, "/locations/10/avg?toAge=0");
    assert_eq!(s, 200);
    assert_eq!(b, "{\"avg\":0}");
}

#[test]
fn gender_text_other_than_m_counts_as_female() {
    let mut t = seeded();
    let (s, _) = post(&mut t, "/users/1", "{\"gender\":\"x\"}");
    assert_eq!(s, 200);
    let (_, b) = get(&t, "/locations/10/avg?gender=f");
    assert_eq!(b, "{\"avg\":5.0}");
}

#[test]
fn visit_time_update_reorders_the_list() {
    let mut t = seeded();
    post(&mut t, "/visits/new", "{\"id\":101,\"user\":1,\"location\":10,\"visited_at\":500,\"mark\":2}");
    let (s, _) = post(&mut t, "/visits/100", "{\"visited_at\":100}");
    assert_eq!(s, 200);
    let (_, b) = get(&t, "/users/1/visits");
    assert_eq!(
        b,
        "{\"visits\":[{\"mark\":5,\"visited_at\":100,\"place\":\"P\"},{\"mark\":2,\"visited_at\":500,\"place\":\"P\"}]}"
    );
}

#[test]
fn in_place_visit_update_refreshes_both_rows() {
    let mut t = seeded();
    let (s, _) = post(&mut t, "/visits/100", "{\"mark\":2}");
    assert_eq!(s, 200);
    let (_, b) = get(&t, "/users/1/visits");
    assert_eq!(b, "{\"visits\":[{\"mark\":2,\"visited_at\":1000,\"place\":\"P\"}]}");
    let (_, b) = get(&t, "/locations/10/avg");
    assert_eq!(b, "{\"avg\":2.0}");
}

#[test]
fn string_escapes_round_trip() {
    let mut t = Travels::new();
    let (s, _) = post(
        &mut t,
        "/users/new",
        "{\"id\":1,\"first_name\":\"A\\\"B\\\\C\",\"last_name\":\"L\\nM\",\"gender\":\"m\",\"birth_date\":0,\"email\":\"x@y\"}",
    );
    assert_eq!(s, 200);
    let (_, b) = get(&t, "/users/1");
    assert!(b.contains("\"first_name\":\"A\\\"B\\\\C\""));
    assert!(b.contains("\"last_name\":\"L\\nM\""));
}

#[test]
fn response_encoding_carries_the_fixed_headers() {
    let mut r = Response::new();
    r.body(2, "{}");
    let wire: String = encode(&r).into_iter().collect();
    assert_eq!(
        wire,
        "HTTP/1.1 200 OK\r\nServer: Travels\r\nContent-Length: 2\r\nContent-Type: application/json\r\n\r\n{}"
    );
    let mut r = Response::new();
    r.status_code(404, "Not Found");
    r.header("X-Extra", "1");
    let wire: String = encode(&r).into_iter().collect();
    assert!(wire.starts_with("HTTP/1.1 404 Not Found\r\nServer: Travels\r\n"));
}

#[test]
fn unfiltered_query_equals_full_projection() {
    let mut t = seeded();
    post(&mut t, "/visits/new", "{\"id\":101,\"user\":1,\"location\":10,\"visited_at\":2,\"mark\":3}");
    let with_unknown = get(&t, "/users/1/visits?ignored=1").1;
    let bare = get(&t, "/users/1/visits").1;
    assert_eq!(with_unknown, bare);
    assert_eq!(
        bare,
        "{\"visits\":[{\"mark\":3,\"visited_at\":2,\"place\":\"P\"},{\"mark\":5,\"visited_at\":1000,\"place\":\"P\"}]}"
    );
}

#[test]
fn negative_marks_are_accepted_on_update() {
    let mut t = seeded();
    let (s, _) = post(&mut t, "/visits/100", "{\"mark\":-3}");
    assert_eq!(s, 200);
    let (_, b) = get(&t, "/locations/10/avg");
    assert_eq!(b, "{\"avg\":-3.0}");
}

#[test]
fn query_routes_answer_posts_too() {
    let mut t = seeded();
    let (s, b) = post(&mut t, "/users/1/visits", "");
    assert_eq!(s, 200);
    assert_eq!(b, "{\"visits\":[{\"mark\":5,\"visited_at\":1000,\"place\":\"P\"}]}");
    let (s, b) = post(&mut t, "/locations/10/avg", "");
    assert_eq!(s, 200);
    assert_eq!(b, "{\"avg\":5.0}");
}

#[test]
fn create_endpoints_do_not_answer_gets() {
    let t = seeded();
    assert_eq!(get(&t, "/users/new").0, 404);
    assert_eq!(get(&t, "/locations/new").0, 404);
    assert_eq!(get(&t, "/visits/new").0, 404);
}

#[test]
fn tie_order_is_stable_on_time_update() {
    let mut t = seeded();
    post(&mut t, "/visits/new", "{\"id\":101,\"user\":1,\"location\":10,\"visited_at\":2000,\"mark\":2}");
    // move the first visit's time up to equal the second's: it must stay first
    let (s, _) = post(&mut t, "/visits/100", "{\"visited_at\":2000}");
    assert_eq!(s, 200);
    let (_, b) = get(&t, "/users/1/visits");
    assert_eq!(
        b,
        "{\"visits\":[{\"mark\":5,\"visited_at\":2000,\"place\":\"P\"},{\"mark\":2,\"visited_at\":2000,\"place\":\"P\"}]}"
    );
}

#[test]
fn tie_order_is_stable_on_mark_update() {
    let mut t = seeded();
    post(&mut t, "/visits/new", "{\"id\":101,\"user\":1,\"location\":10,\"visited_at\":1000,\"mark\":2}");
    // rows for visits 100 and 101 share a time; a mark-only update keeps them in place
    let (s, _) = post(&mut t, "/visits/100", "{\"mark\":4}");
    assert_eq!(s, 200);
    let (_, b) = get(&t, "/users/1/visits");
    assert_eq!(
        b,
        "{\"visits\":[{\"mark\":4,\"visited_at\":1000,\"place\":\"P\"},{\"mark\":2,\"visited_at\":1000,\"place\":\"P\"}]}"
    );
    // and the second row, updated, keeps its place too
    let (s, _) = post(&mut t, "/visits/101", "{\"mark\":3}");
    assert_eq!(s, 200);
    let (_, b) = get(&t, "/users/1/visits");
    assert_eq!(
        b,
        "{\"visits\":[{\"mark\":4,\"visited_at\":1000,\"place\":\"P\"},{\"mark\":3,\"visited_at\":1000,\"place\":\"P\"}]}"
    );
}

#[test]
fn unicode_escapes_are_decoded() {
    let mut t = Travels::new();
    let (s, _) = post(
        &mut t,
        "/users/new",
        "{\"id\":1,\"first_name\":\"\\u0041\\u00e9\",\"last_name\":\"\\ud83d\\ude00\",\"gender\":\"m\",\"birth_date\":0,\"email\":\"x@y\"}",
    );
    assert_eq!(s, 200);
    let (_, b) = get(&t, "/users/1");
    assert!(b.contains("\"first_name\":\"A\u{e9}\""));
    assert!(b.contains("\"last_name\":\"\u{1F600}\""));
}

#[test]
fn broken_unicode_escapes_are_rejected() {
    let mut t = Travels::new();
    // a lone low surrogate
    let (s, _) = post(
        &mut t,
        "/users/new",
        "{\"id\":1,\"first_name\":\"\\ude00\",\"last_name\":\"B\",\"gender\":\"m\",\"birth_date\":0,\"email\":\"x@y\"}",
    );
    assert_eq!(s, 400);
    // a high surrogate without its partner
    let (s, _) = post(
        &mut t,
        "/users/new",
        "{\"id\":1,\"first_name\":\"\\ud83dxx\",\"last_name\":\"B\",\"gender\":\"m\",\"birth_date\":0,\"email\":\"x@y\"}",
    );
    assert_eq!(s, 400);
}

#[test]
fn nested_values_under_unknown_keys_are_ignored() {
    let mut t = seeded();
    let (s, _) = post(
        &mut t,
        "/users/1",
        "{\"gender\":\"f\",\"extra\":{\"a\":[1,{\"b\":\"]\"}],\"c\":true}}",
    );
    assert_eq!(s, 200);
    let (_, b) = get(&t, "/users/1");
    assert!(b.contains("\"gender\":\"f\""));
    // a recognized key may not hold a nested value
    let (s, _) = post(&mut t, "/users/1", "{\"gender\":[\"f\"]}");
    assert_eq!(s, 400);
}

#[test]
fn raw_control_characters_in_strings_are_rejected() {
    let mut t = seeded();
    let (s, _) = post(&mut t, "/users/1", "{\"first_name\":\"a\nb\"}");
    assert_eq!(s, 400);
    let (s, _) = post(&mut t, "/users/1", "{\"first_name\":\"a\tb\"}");
    assert_eq!(s, 400);
    // the escaped forms stay accepted
    let (s, _) = post(&mut t, "/users/1", "{\"first_name\":\"a\\nb\"}");
    assert_eq!(s, 200);
}
