use rinha_api::ids::{id_text, lookup_id, new_person_id};

const SAMPLE: u128 = 0xa1a2a3a4b1b2c1c2d1d2d3d4d5d6d7d8;

#[test]
fn text_is_lower_case_hyphenated() {
    assert_eq!(id_text(SAMPLE), "a1a2a3a4-b1b2-c1c2-d1d2-d3d4d5d6d7d8");
    assert_eq!(id_text(0), "00000000-0000-0000-0000-000000000000");
    assert_eq!(id_text(u128::MAX), "ffffffff-ffff-ffff-ffff-ffffffffffff");
}

#[test]
fn lookup_reads_hyphenated_form_in_either_case() {
    assert_eq!(lookup_id("a1a2a3a4-b1b2-c1c2-d1d2-d3d4d5d6d7d8"), Some(SAMPLE));
    assert_eq!(lookup_id("A1A2A3A4-B1B2-C1C2-D1D2-D3D4D5D6D7D8"), Some(SAMPLE));
    assert_eq!(lookup_id("00000000-0000-0000-0000-000000000000"), Some(0));
}

#[test]
fn lookup_refuses_other_forms() {
    assert_eq!(lookup_id("a1a2a3a4b1b2c1c2d1d2d3d4d5d6d7d8"), None);
    assert_eq!(lookup_id("{a1a2a3a4-b1b2-c1c2-d1d2-d3d4d5d6d7d8}"), None);
    assert_eq!(lookup_id("a1a2a3a4-b1b2-c1c2-d1d2-d3d4d5d6d7dg"), None);
    assert_eq!(lookup_id("a1a2a3a4b-1b2-c1c2-d1d2-d3d4d5d6d7d8"), None);
    assert_eq!(lookup_id(""), None);
    assert_eq!(lookup_id("not-a-uuid"), None);
}

#[test]
fn new_ids_are_version_seven() {
    let id = new_person_id();
    assert_eq!((id >> 76) & 0xf, 7);
    assert_eq!((id >> 62) & 0x3, 2);
}

#[test]
fn text_of_an_id_looks_up_that_id() {
    let id = new_person_id();
    assert_eq!(lookup_id(&id_text(id)), Some(id));
    assert_eq!(lookup_id(&id_text(SAMPLE)), Some(SAMPLE));
}
