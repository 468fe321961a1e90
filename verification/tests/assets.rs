use renderer::assets::batch::{check_result, BatchLoadResults};
use renderer::assets::lookup::{build_lookup_map, LookupError};

const APPLE: &str = "67e55044-10b1-426f-9247-bb680e5fe0c8";
const APPLE_NUMBER: u128 = 0x67e5504410b1426f9247bb680e5fe0c8;
const ROCK: &str = "936da01f9abd4d9d80c702af85c822a8";
const ROCK_NUMBER: u128 = 0x936da01f9abd4d9d80c702af85c822a8;

#[test]
fn batch_results_default_is_complete() {
    let r = BatchLoadResults::default();
    assert_eq!(r.loaded, 0);
    assert_eq!(r.unloaded, 0);
    assert!(r.is_complete());
}

#[test]
fn batch_counts_ready_and_pending() {
    let r = check_result(&[true, false, true, true, false]);
    assert_eq!(r.loaded, 3);
    assert_eq!(r.unloaded, 2);
    assert!(!r.is_complete());
}

#[test]
fn batch_complete_when_everything_ready() {
    let r = check_result(&[true, true]);
    assert_eq!(r.loaded, 2);
    assert_eq!(r.unloaded, 0);
    assert!(r.is_complete());
    let empty = check_result(&[]);
    assert!(empty.is_complete());
}

#[test]
fn lookup_finds_unique_names() {
    let data = format!("apple.obj={}\n\nrock.obj={}\n", APPLE, ROCK);
    let map = build_lookup_map(&data).expect("valid database");
    assert_eq!(map.get("apple.obj"), Some(APPLE_NUMBER));
    assert_eq!(map.get("rock.obj"), Some(ROCK_NUMBER));
    assert_eq!(map.get("pear.obj"), None);
    assert_eq!(map.get(""), None);
}

#[test]
fn lookup_value_matches_uuid_crate() {
    let data = format!("x={}", APPLE);
    let map = build_lookup_map(&data).unwrap();
    let expected = uuid::Uuid::parse_str(APPLE).unwrap().as_u128();
    assert_eq!(map.get("x"), Some(expected));
}

#[test]
fn lookup_drops_duplicate_names() {
    let data = format!("a={}\nb={}\na={}\n", APPLE, ROCK, ROCK);
    let map = build_lookup_map(&data).unwrap();
    assert_eq!(map.get("a"), None);
    assert_eq!(map.get("b"), Some(ROCK_NUMBER));
}

#[test]
fn lookup_name_repeated_three_times_is_dropped() {
    let data = format!("a={}\na={}\na={}", APPLE, APPLE, APPLE);
    let map = build_lookup_map(&data).unwrap();
    assert_eq!(map.get("a"), None);
}

#[test]
fn lookup_only_first_value_of_a_repeated_name_is_parsed() {
    let data = format!("a={}\na=not-a-uuid\n", APPLE);
    let map = build_lookup_map(&data).unwrap();
    assert_eq!(map.get("a"), None);
}

#[test]
fn lookup_splits_at_first_equals_sign() {
    let data = format!("x=y={}", APPLE);
    assert_eq!(build_lookup_map(&data).err(), Some(LookupError::InvalidUuid(0)));
    let data = format!("={}", ROCK);
    let map = build_lookup_map(&data).unwrap();
    assert_eq!(map.get(""), Some(ROCK_NUMBER));
}

#[test]
fn lookup_reports_missing_separator() {
    let data = format!("a={}\n\nno separator here\nb={}", APPLE, ROCK);
    assert_eq!(build_lookup_map(&data).err(), Some(LookupError::MissingSeparator(2)));
}

#[test]
fn lookup_reports_invalid_uuid() {
    let data = format!("a={}\nb=1234\nc", APPLE);
    assert_eq!(build_lookup_map(&data).err(), Some(LookupError::InvalidUuid(1)));
}

#[test]
fn lookup_carriage_return_is_part_of_the_value() {
    let data = format!("a={}\r\n", APPLE);
    assert_eq!(build_lookup_map(&data).err(), Some(LookupError::InvalidUuid(0)));
}

#[test]
fn lookup_empty_database_is_empty() {
    let map = build_lookup_map("").unwrap();
    assert_eq!(map.get(""), None);
    let map = build_lookup_map("\n\n").unwrap();
    assert_eq!(map.get("a"), None);
}

#[test]
fn lookup_names_may_hold_unicode() {
    let data = format!("jablko/čerstvé.obj={}", APPLE);
    let map = build_lookup_map(&data).unwrap();
    assert_eq!(map.get("jablko/čerstvé.obj"), Some(APPLE_NUMBER));
    assert_eq!(map.get("jablko/cerstve.obj"), None);
}

fn parse_one(value: &str) -> Option<u128> {
    match build_lookup_map(&format!("x={}", value)) {
        Ok(map) => map.get("x"),
        Err(LookupError::InvalidUuid(0)) => None,
        Err(_) => panic!("unexpected error"),
    }
}

#[test]
fn lookup_accepts_the_three_uuid_forms_in_either_case() {
    assert_eq!(parse_one(APPLE), Some(APPLE_NUMBER));
    assert_eq!(parse_one(&APPLE.to_uppercase()), Some(APPLE_NUMBER));
    assert_eq!(parse_one(ROCK), Some(ROCK_NUMBER));
    assert_eq!(parse_one(&format!("urn:uuid:{}", APPLE)), Some(APPLE_NUMBER));
    assert_eq!(parse_one("00000000-0000-0000-0000-000000000000"), Some(0));
}

#[test]
fn lookup_rejects_other_uuid_texts() {
    // a simple form behind the URN prefix
    assert_eq!(parse_one(&format!("urn:uuid:{}", ROCK)), None);
    // 36 digits, or a hyphen out of place
    assert_eq!(parse_one("936da01f9abd4d9d80c702af85c822a81234"), None);
    assert_eq!(parse_one("67e5504-410b1-426f-9247-bb680e5fe0c8"), None);
    // a wrong prefix, a non-hex digit, a non-ASCII character
    assert_eq!(parse_one(&format!("urn:uuix:{}", APPLE)), None);
    assert_eq!(parse_one("67e55044-10b1-426f-9247-bb680e5fe0cg"), None);
    assert_eq!(parse_one("67e55044-10b1-426f-9247-bb680e5fe0é"), None);
    for text in [
        APPLE,
        ROCK,
        "urn:uuid:67e55044-10b1-426f-9247-bb680e5fe0c8",
        "urn:uuid:936da01f9abd4d9d80c702af85c822a8",
        "67e5504-410b1-426f-9247-bb680e5fe0c8",
    ] {
        let expected = uuid::Uuid::parse_str(text).ok().map(|u| u.as_u128());
        assert_eq!(parse_one(text), expected);
    }
}
