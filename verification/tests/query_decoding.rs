use rinha_api::query::{url_decode, url_params};

#[test]
fn decodes_escapes_and_plus() {
    assert_eq!(url_decode("abc"), "abc");
    assert_eq!(url_decode("a+b"), "a b");
    assert_eq!(url_decode("a%20b"), "a b");
    assert_eq!(url_decode("%41%62"), "Ab");
    assert_eq!(url_decode("%2B"), "+");
    assert_eq!(url_decode("%2b"), "+");
}

#[test]
fn incomplete_escapes_read_missing_digits_as_zero() {
    assert_eq!(url_decode("%"), "\u{0}");
    assert_eq!(url_decode("%4"), "@");
    assert_eq!(url_decode("%zz"), "\u{0}");
    assert_eq!(url_decode("%4zx"), "@x");
}

#[test]
fn bytes_decode_as_latin1() {
    assert_eq!(url_decode("%C3%A9"), "\u{c3}\u{a9}");
    assert_eq!(url_decode("é"), "\u{c3}\u{a9}");
    assert_eq!(url_decode("%FF"), "\u{ff}");
}

#[test]
fn decoding_never_lengthens() {
    for s in ["", "%", "%%", "a%2", "+++", "%41%42%43"] {
        assert!(url_decode(s).chars().count() <= s.len());
    }
}

#[test]
fn params_split_on_ampersand_and_first_equals() {
    let p = url_params("t=node&x=1=2&flag&y=");
    assert_eq!(p.get("t").map(|s| s.as_str()), Some("node"));
    assert_eq!(p.get("x").map(|s| s.as_str()), Some("1=2"));
    assert_eq!(p.get("flag"), None);
    assert_eq!(p.get("y").map(|s| s.as_str()), Some(""));
    assert_eq!(p.len(), 3);
}

#[test]
fn params_later_key_wins() {
    let p = url_params("t=a&t=b");
    assert_eq!(p.get("t").map(|s| s.as_str()), Some("b"));
    assert_eq!(p.len(), 1);
}

#[test]
fn params_decode_values_not_keys() {
    let p = url_params("a%20b=c%20d&q=rust+go");
    assert_eq!(p.get("a%20b").map(|s| s.as_str()), Some("c d"));
    assert_eq!(p.get("q").map(|s| s.as_str()), Some("rust go"));
}

#[test]
fn params_of_empty_query() {
    assert_eq!(url_params("").len(), 0);
    assert_eq!(url_params("&&").len(), 0);
    let p = url_params("=v");
    assert_eq!(p.get("").map(|s| s.as_str()), Some("v"));
}

#[test]
fn params_of_joined_queries() {
    let a = url_params("t=x&u=1");
    let b = url_params("t=y");
    let both = url_params("t=x&u=1&t=y");
    assert_eq!(both.get("t"), b.get("t"));
    assert_eq!(both.get("u"), a.get("u"));
    assert_eq!(both.len(), 2);
}
