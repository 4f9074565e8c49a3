use rinha_api::person::{new_person, person_json, validate, CreateError, CreatePerson, Person};

fn request(apelido: &str, nome: &str, nascimento: &str, stack: Option<Vec<&str>>) -> CreatePerson {
    CreatePerson {
        apelido: apelido.to_string(),
        nome: nome.to_string(),
        nascimento: nascimento.to_string(),
        stack: stack.map(|v| v.into_iter().map(|s| s.to_string()).collect()),
    }
}

#[test]
fn valid_request_passes() {
    assert_eq!(validate(&request("ana", "Ana Silva", "1990-01-01", Some(vec!["Go", "Rust"]))), Ok(()));
    assert_eq!(validate(&request("ana", "Ana Silva", "1990-01-01", None)), Ok(()));
}

#[test]
fn empty_fields_and_bad_dates_are_invalid() {
    assert_eq!(validate(&request("", "Test", "1990-01-01", None)), Err(CreateError::InvalidFields));
    assert_eq!(validate(&request("x", "", "1990-01-01", None)), Err(CreateError::InvalidFields));
    assert_eq!(validate(&request("x", "Test", "1990-02-30", None)), Err(CreateError::InvalidFields));
}

#[test]
fn long_fields_are_refused() {
    let long_nick = "a".repeat(41);
    assert_eq!(validate(&request(&long_nick, "Test", "1990-01-01", None)), Err(CreateError::FieldTooLong));
    assert_eq!(validate(&request(&"a".repeat(32), "Test", "1990-01-01", None)), Ok(()));
    assert_eq!(validate(&request("x", &"n".repeat(101), "1990-01-01", None)), Err(CreateError::FieldTooLong));
    assert_eq!(validate(&request("x", &"n".repeat(100), "1990-01-01", None)), Ok(()));
    // Lengths are counted in bytes.
    assert_eq!(validate(&request(&"é".repeat(17), "Test", "1990-01-01", None)), Err(CreateError::FieldTooLong));
}

#[test]
fn long_stack_items_are_refused() {
    let item = "s".repeat(33);
    assert_eq!(
        validate(&request("x", "Test", "1990-01-01", Some(vec!["Go", &item]))),
        Err(CreateError::StackItemTooLong)
    );
}

#[test]
fn invalid_fields_are_reported_before_long_ones() {
    assert_eq!(validate(&request(&"a".repeat(40), "", "1990-01-01", None)), Err(CreateError::InvalidFields));
    let item = "s".repeat(40);
    assert_eq!(
        validate(&request(&"a".repeat(40), "Test", "1990-01-01", Some(vec![&item]))),
        Err(CreateError::FieldTooLong)
    );
}

#[test]
fn new_person_fills_in_an_empty_stack() {
    let p = new_person(&request("ana", "Ana", "1990-01-01", None)).ok().unwrap();
    assert!(p.stack.is_empty());
    assert_eq!(p.apelido, "ana");
    assert_eq!((p.id >> 76) & 0xf, 7);
    let q = new_person(&request("bia", "Bia", "1991-01-01", Some(vec!["Go"]))).ok().unwrap();
    assert_eq!(q.stack, vec!["Go".to_string()]);
    assert!(new_person(&request("", "Bia", "1991-01-01", None)).is_err());
}

#[test]
fn person_json_keeps_field_order_and_skips_absent_stack() {
    let p = Person {
        id: 0xa1a2a3a4b1b2c1c2d1d2d3d4d5d6d7d8,
        apelido: "ana".to_string(),
        nome: "Ana \"A\" Silva".to_string(),
        nascimento: "1990-01-01".to_string(),
        stack: Some(vec!["Go".to_string(), "Rust".to_string()]),
    };
    assert_eq!(
        person_json(&p),
        r#"{"id":"a1a2a3a4-b1b2-c1c2-d1d2-d3d4d5d6d7d8","apelido":"ana","nome":"Ana \"A\" Silva","nascimento":"1990-01-01","stack":["Go","Rust"]}"#
    );
    let q = Person { stack: None, ..p };
    assert_eq!(
        person_json(&q),
        r#"{"id":"a1a2a3a4-b1b2-c1c2-d1d2-d3d4d5d6d7d8","apelido":"ana","nome":"Ana \"A\" Silva","nascimento":"1990-01-01"}"#
    );
    let r = Person { stack: Some(vec![]), ..q };
    assert!(person_json(&r).ends_with(r#","stack":[]}"#));
}
