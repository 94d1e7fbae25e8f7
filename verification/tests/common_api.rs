use life_track::config;
use life_track::errors::ServiceError;
use life_track::ident::parse_object_id;

#[test]
fn identifier_parsing_accepts_exactly_24_hex_digits() {
    let id = parse_object_id("ABCDEF0123456789abcdef01").unwrap();
    assert_eq!(id.to_hex(), "abcdef0123456789abcdef01");

    assert!(parse_object_id("abcdef0123456789abcdef0").is_err());
    assert!(parse_object_id("abcdef0123456789abcdef012").is_err());
    assert!(parse_object_id("abcdef0123456789abcdefg1").is_err());
    assert!(parse_object_id("").is_err());
    assert!(matches!(
        parse_object_id("not-an-id").unwrap_err(),
        ServiceError::InvalidIdentifier
    ));
}

#[test]
fn identifiers_compare_after_case_normalisation() {
    let a = parse_object_id("AAAAbbbbCCCCddddEEEEffff").unwrap();
    let b = parse_object_id("aaaabbbbccccddddeeeeffff").unwrap();
    assert!(a.same_id(&b));
    let c = parse_object_id("aaaabbbbccccddddeeeeff00").unwrap();
    assert!(!a.same_id(&c));
}

#[test]
fn error_messages_are_human_readable() {
    assert_eq!(
        ServiceError::InvalidIdentifier.message(),
        "Invalid ID format"
    );
    assert_eq!(ServiceError::InvalidDateFormat.message(), "Invalid date format");
    assert_eq!(ServiceError::NotFound.message(), "Record not found");
    assert_eq!(
        ServiceError::Connection.message(),
        "Database connection failed"
    );
    assert_eq!(
        ServiceError::Store("Failed to create todo: timeout".to_string()).message(),
        "Failed to create todo: timeout"
    );
}

#[test]
fn configuration_falls_back_to_documented_defaults() {
    assert_eq!(
        config::effective_endpoint(None),
        "mongodb://localhost:27017"
    );
    assert_eq!(
        config::effective_endpoint(Some("mongodb://db:27017".to_string())),
        "mongodb://db:27017"
    );
    assert_eq!(config::effective_db_name(None), "life_track");
    assert_eq!(
        config::effective_db_name(Some("other".to_string())),
        "other"
    );
    assert_eq!(config::todos_collection_name(), "todos");
    assert_eq!(config::ideas_collection_name(), "ideas");
}
