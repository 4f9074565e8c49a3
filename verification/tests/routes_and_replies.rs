use rinha_api::api::{
    count_reply, error_reply, finish_create, health_check_reply, missing_term_reply, person_reply,
    prepare_create, route, route_not_found_reply, search_pattern, search_reply, HttpMethod, Route,
};
use rinha_api::person::{CreatePerson, Person};

fn get(path: &str, query: &str) -> Route {
    route(HttpMethod::Get, path, query)
}

#[test]
fn routes_by_method_and_path() {
    assert!(matches!(get("/health-check", ""), Route::HealthCheck));
    assert!(matches!(route(HttpMethod::Post, "/pessoas", ""), Route::CreatePerson));
    assert!(matches!(get("/contagem-pessoas", ""), Route::CountPeople));
    assert!(matches!(get("/unknown", ""), Route::NotFound));
    assert!(matches!(route(HttpMethod::Post, "/health-check", ""), Route::NotFound));
    assert!(matches!(route(HttpMethod::Other, "/pessoas", ""), Route::NotFound));
    assert!(matches!(route(HttpMethod::Post, "/pessoas/x", ""), Route::NotFound));
}

#[test]
fn person_path_carries_the_segment() {
    match get("/pessoas/abc", "") {
        Route::GetPerson(id) => assert_eq!(id, "abc"),
        _ => panic!("expected a person route"),
    }
    match get("/pessoas/", "") {
        Route::GetPerson(id) => assert_eq!(id, ""),
        _ => panic!("expected a person route"),
    }
}

#[test]
fn search_takes_the_t_parameter() {
    match get("/pessoas", "t=node") {
        Route::SearchPeople(t) => assert_eq!(t, "node"),
        _ => panic!("expected a search"),
    }
    match get("/pessoas", "x=1&t=a%20b") {
        Route::SearchPeople(t) => assert_eq!(t, "a b"),
        _ => panic!("expected a search"),
    }
    assert!(matches!(get("/pessoas", ""), Route::MissingTerm));
    assert!(matches!(get("/pessoas", "q=node"), Route::MissingTerm));
}

#[test]
fn error_replies_are_json_messages() {
    let r = error_reply(404, "Not found");
    assert_eq!(r.status, 404);
    assert!(r.json);
    assert_eq!(r.body, r#"{"message":"Not found"}"#);
    assert_eq!(r.location, None);
    let r = error_reply(422, "say \"hi\"\n");
    assert_eq!(r.body, r#"{"message":"say \"hi\"\n"}"#);
    let r = missing_term_reply();
    assert_eq!((r.status, r.body.as_str()), (400, r#"{"message":"Missing term"}"#));
    let r = route_not_found_reply();
    assert_eq!((r.status, r.body.as_str()), (404, r#"{"message":"Route not found"}"#));
}

#[test]
fn health_check_is_an_empty_ok() {
    let r = health_check_reply();
    assert_eq!(r.status, 200);
    assert_eq!(r.body, "");
    assert!(!r.json);
}

fn request(apelido: &str, nome: &str) -> CreatePerson {
    CreatePerson {
        apelido: apelido.to_string(),
        nome: nome.to_string(),
        nascimento: "1990-01-01".to_string(),
        stack: None,
    }
}

#[test]
fn create_refusals() {
    let r = prepare_create(None).err().unwrap();
    assert_eq!((r.status, r.body.as_str()), (400, r#"{"message":"Invalid JSON"}"#));
    let r = prepare_create(Some(request("", "Test"))).err().unwrap();
    assert_eq!((r.status, r.body.as_str()), (422, r#"{"message":"Invalid fields"}"#));
    let r = prepare_create(Some(request(&"a".repeat(41), "Test"))).err().unwrap();
    assert_eq!((r.status, r.body.as_str()), (422, r#"{"message":"Field too long"}"#));
    let mut long_stack = request("a", "Test");
    long_stack.stack = Some(vec!["x".repeat(33)]);
    let r = prepare_create(Some(long_stack)).err().unwrap();
    assert_eq!((r.status, r.body.as_str()), (422, r#"{"message":"Stack item too long"}"#));
    let ok = prepare_create(Some(request("a", "Test"))).ok().unwrap();
    assert_eq!(ok.nome, "Test");
}

#[test]
fn create_outcomes() {
    let id = 0xa1a2a3a4b1b2c1c2d1d2d3d4d5d6d7d8;
    let r = finish_create(id, Ok(1));
    assert_eq!(r.status, 201);
    assert!(r.json);
    assert_eq!(r.body, r#"{"id":"a1a2a3a4-b1b2-c1c2-d1d2-d3d4d5d6d7d8"}"#);
    assert_eq!(r.location.as_deref(), Some("/pessoas/a1a2a3a4-b1b2-c1c2-d1d2-d3d4d5d6d7d8"));
    let r = finish_create(id, Ok(0));
    assert_eq!((r.status, r.body.as_str()), (422, r#"{"message":"Conflict"}"#));
    assert_eq!(r.location, None);
    let r = finish_create(id, Err("connection reset".to_string()));
    assert_eq!((r.status, r.body.as_str()), (422, r#"{"message":"DB error: connection reset"}"#));
}

fn person(id: u128, apelido: &str) -> Person {
    Person {
        id,
        apelido: apelido.to_string(),
        nome: "N".to_string(),
        nascimento: "1990-01-01".to_string(),
        stack: None,
    }
}

#[test]
fn lookup_replies() {
    let r = person_reply(None);
    assert_eq!((r.status, r.body.as_str()), (404, r#"{"message":"Not found"}"#));
    let r = person_reply(Some(person(1, "a")));
    assert_eq!(r.status, 200);
    assert_eq!(
        r.body,
        r#"{"id":"00000000-0000-0000-0000-000000000001","apelido":"a","nome":"N","nascimento":"1990-01-01"}"#
    );
}

#[test]
fn search_replies_are_arrays() {
    assert_eq!(search_pattern("node"), "%node%");
    assert_eq!(search_pattern(""), "%%");
    let r = search_reply(&vec![]);
    assert_eq!((r.status, r.body.as_str()), (200, "[]"));
    let r = search_reply(&vec![person(1, "a"), person(2, "b")]);
    assert_eq!(
        r.body,
        format!(
            "[{},{}]",
            r#"{"id":"00000000-0000-0000-0000-000000000001","apelido":"a","nome":"N","nascimento":"1990-01-01"}"#,
            r#"{"id":"00000000-0000-0000-0000-000000000002","apelido":"b","nome":"N","nascimento":"1990-01-01"}"#
        )
    );
}

#[test]
fn count_reply_holds_the_number() {
    let r = count_reply(42);
    assert_eq!((r.status, r.body.as_str()), (200, r#"{"count":42}"#));
    assert!(r.json);
    assert_eq!(count_reply(0).body, r#"{"count":0}"#);
    assert_eq!(count_reply(-7).body, r#"{"count":-7}"#);
}

#[test]
fn messages_are_escaped_as_json_strings() {
    let r = error_reply(400, "a\u{1}\u{8}\t\n\u{c}\r\"\\é\u{1f}\u{7f}");
    assert_eq!(
        r.body,
        "{\"message\":\"a\\u0001\\b\\t\\n\\f\\r\\\"\\\\é\\u001f\u{7f}\"}"
    );
}
