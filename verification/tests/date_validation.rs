use rinha_api::date::is_date_valid;

#[test]
fn accepts_ordinary_dates() {
    assert!(is_date_valid("1990-01-01"));
    assert!(is_date_valid("1800-01-01"));
    assert!(is_date_valid("9999-12-31"));
    assert!(is_date_valid("2023-04-30"));
}

#[test]
fn rejects_years_out_of_range() {
    assert!(!is_date_valid("1799-12-31"));
    assert!(!is_date_valid("0000-01-01"));
}

#[test]
fn rejects_bad_months_and_days() {
    assert!(!is_date_valid("2000-13-01"));
    assert!(!is_date_valid("2000-00-10"));
    assert!(!is_date_valid("2000-01-00"));
    assert!(!is_date_valid("2000-01-32"));
    assert!(!is_date_valid("2023-04-31"));
    assert!(!is_date_valid("2023-06-31"));
    assert!(!is_date_valid("2023-09-31"));
    assert!(!is_date_valid("2023-11-31"));
    assert!(is_date_valid("2023-12-31"));
}

#[test]
fn february_follows_leap_years() {
    assert!(is_date_valid("2024-02-29"));
    assert!(is_date_valid("2000-02-29"));
    assert!(!is_date_valid("1900-02-29"));
    assert!(!is_date_valid("2023-02-29"));
    assert!(is_date_valid("2023-02-28"));
    assert!(!is_date_valid("2024-02-30"));
}

#[test]
fn rejects_wrong_shapes() {
    assert!(!is_date_valid(""));
    assert!(!is_date_valid("1990-1-01"));
    assert!(!is_date_valid("1990/01/01"));
    assert!(!is_date_valid("1990-01-011"));
    assert!(!is_date_valid("19a0-01-01"));
    assert!(!is_date_valid("1990-0x-01"));
    assert!(!is_date_valid("1990-01-é"));
}

#[test]
fn signed_fields_read_as_integers() {
    // The fields are read as Rust reads integers: a leading `+` is allowed.
    assert!(is_date_valid("1990-+1-+5"));
    assert!(!is_date_valid("1990--1-05"));
    assert!(!is_date_valid("+990-01-05"));
    assert!(!is_date_valid("-990-01-05"));
}
