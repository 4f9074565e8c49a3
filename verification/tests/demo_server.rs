use rinha_api::api::HttpMethod;
use rinha_api::minimal::{
    demo_health_reply, demo_not_found_reply, demo_route, echo_reply, hello_reply, DemoRoute,
};

#[test]
fn demo_routes() {
    assert!(matches!(demo_route(HttpMethod::Get, "/hello"), DemoRoute::Hello));
    assert!(matches!(demo_route(HttpMethod::Post, "/echo"), DemoRoute::Echo));
    assert!(matches!(demo_route(HttpMethod::Get, "/health"), DemoRoute::Health));
    assert!(matches!(demo_route(HttpMethod::Get, "/echo"), DemoRoute::NotFound));
    assert!(matches!(demo_route(HttpMethod::Other, "/hello"), DemoRoute::NotFound));
}

#[test]
fn hello_counts_with_sorted_keys() {
    let r = hello_reply(0);
    assert_eq!((r.status, r.body.as_str()), (200, r#"{"count":0,"message":"Hello!"}"#));
    assert_eq!(hello_reply(12).body, r#"{"count":12,"message":"Hello!"}"#);
}

#[test]
fn echo_rewrites_json() {
    let r = echo_reply(Some(br#"{ "msg" : "oi", "a": [1, 2] }"#.to_vec()));
    assert_eq!((r.status, r.body.as_str()), (200, r#"{"a":[1,2],"msg":"oi"}"#));
    let r = echo_reply(Some(b"not json".to_vec()));
    assert_eq!((r.status, r.body.as_str()), (400, r#"{"error":"invalid json"}"#));
    let r = echo_reply(None);
    assert_eq!((r.status, r.body.as_str()), (400, r#"{"error":"invalid body"}"#));
}

#[test]
fn demo_fallbacks() {
    let r = demo_health_reply();
    assert_eq!((r.status, r.body.as_str(), r.json), (200, "", false));
    let r = demo_not_found_reply();
    assert_eq!((r.status, r.body.as_str()), (404, r#"{"error":"not found"}"#));
}
