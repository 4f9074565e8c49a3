use rinha_api::config::{parse_port, settings_from};

#[test]
fn defaults_apply_when_nothing_is_set() {
    let s = settings_from(None, None, None, None, None, None);
    assert_eq!(s.port, 8080);
    assert_eq!(s.db_host, "localhost");
    assert_eq!(s.db_port, 5432);
    assert_eq!(s.db_name, "fight");
    assert_eq!(s.db_user, "postgres");
    assert_eq!(s.db_password, "fight");
}

#[test]
fn given_values_are_used() {
    let s = settings_from(
        Some("9999".to_string()),
        Some("db".to_string()),
        Some("6543".to_string()),
        Some("people".to_string()),
        Some("api".to_string()),
        Some("secret".to_string()),
    );
    assert_eq!(s.port, 9999);
    assert_eq!(s.db_host, "db");
    assert_eq!(s.db_port, 6543);
    assert_eq!(s.db_name, "people");
    assert_eq!(s.db_user, "api");
    assert_eq!(s.db_password, "secret");
}

#[test]
fn unreadable_ports_fall_back() {
    let s = settings_from(Some("http".to_string()), None, Some("70000".to_string()), None, None, None);
    assert_eq!(s.port, 8080);
    assert_eq!(s.db_port, 5432);
}

#[test]
fn ports_read_as_u16() {
    for text in ["0", "80", "+80", "0080", "65535", "65536", "", "+", "-1", "8o", " 80", "99999999999"] {
        assert_eq!(parse_port(text), text.parse::<u16>().ok(), "{:?}", text);
    }
}
