use sessio::ids::droid_session_id;

fn is_canonical(s: &str) -> bool {
    s.len() == 36
        && s.chars().enumerate().all(|(i, c)| {
            if i == 8 || i == 13 || i == 18 || i == 23 {
                c == '-'
            } else {
                c.is_ascii_digit() || ('a'..='f').contains(&c)
            }
        })
}

#[test]
fn canonical_ids_are_kept() {
    let id = "550e8400-e29b-41d4-a716-446655440000";
    assert_eq!(droid_session_id(id), id);
}

#[test]
fn other_uuid_forms_are_normalised() {
    let expected = "550e8400-e29b-41d4-a716-446655440000";
    assert_eq!(droid_session_id("550E8400-E29B-41D4-A716-446655440000"), expected);
    assert_eq!(droid_session_id("550e8400e29b41d4a716446655440000"), expected);
    assert_eq!(droid_session_id("{550e8400-e29b-41d4-a716-446655440000}"), expected);
    assert_eq!(droid_session_id("urn:uuid:550e8400-e29b-41d4-a716-446655440000"), expected);
    assert_eq!(droid_session_id("URN:UUID:550e8400-e29b-41d4-a716-446655440000"), expected);
}

#[test]
fn other_ids_are_replaced_by_fresh_uuids() {
    for candidate in ["", "session-1", "550e8400-e29b-41d4-a716-44665544000g", "550e8400_e29b_41d4_a716_446655440000"] {
        let id = droid_session_id(candidate);
        assert!(is_canonical(&id), "{:?} gave {:?}", candidate, id);
        assert_ne!(id, candidate);
    }
}

#[test]
fn fresh_uuids_are_version_four() {
    let a = droid_session_id("not a uuid");
    let b = droid_session_id("not a uuid");
    assert!(is_canonical(&a));
    assert_eq!(&a[14..15], "4");
    assert!(matches!(&a[19..20], "8" | "9" | "a" | "b"));
    assert_ne!(a, b);
}
