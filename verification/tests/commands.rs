use white_space::commands::{
    bucket_key_of_lower, ensure_within_watched, normalize_bucket_key, sanitize_note, sanitize_string,
    validate_file_ids, validate_path, validate_scan_path, CommandError,
};
use white_space::scanner::file_walker::media_type_for;

#[test]
fn test_validate_path_traversal() {
    let result = validate_path("/home/../etc/passwd", true);
    assert!(result.is_err());
    assert!(matches!(result.unwrap_err(), CommandError::Validation(_)));
}

#[test]
fn test_validate_path_valid() {
    let result = validate_path("/home/user/Desktop/test.txt", true);
    assert!(result.is_ok());
}

#[test]
fn test_validate_path_not_allowed() {
    // The path is well formed and there, so the rules for paths let it
    // pass; it is refused because no watched folder holds it.
    assert_eq!(validate_path("/etc/passwd", true).unwrap(), "/etc/passwd");
    let no_roots: Vec<String> = Vec::new();
    let result = validate_path("/etc/passwd", true)
        .and_then(|p| ensure_within_watched(&p, &no_roots).map(|_| p));
    assert!(result.is_err());
    assert!(matches!(result.unwrap_err(), CommandError::Permission(_)));
}

#[test]
fn test_sanitize_string_length_limit() {
    let input = "a".repeat(2000);
    let result = sanitize_string(&input);
    assert_eq!(result.len(), 1024);
    // Control characters do not count toward the limit.
    let input = format!("{}{}", "\u{7}".repeat(3000), "b".repeat(1025));
    assert_eq!(sanitize_string(&input), "b".repeat(1024));
    // Characters are counted, not bytes.
    let input = "é".repeat(2000);
    assert_eq!(sanitize_string(&input).chars().count(), 1024);
}

#[test]
fn test_validate_path_root_refused() {
    let result = validate_path("/", true);
    assert!(matches!(result.unwrap_err(), CommandError::Permission(_)));
    let result = validate_scan_path("/", true);
    match result {
        Err(CommandError::Permission(m)) => assert_eq!(m, "Cannot scan system root"),
        _ => panic!("expected a permission error"),
    }
}

#[test]
fn test_validate_path_missing() {
    let result = validate_path("/no/such/place", false);
    match result {
        Err(CommandError::NotFound(m)) => assert_eq!(m, "Path does not exist: /no/such/place"),
        _ => panic!("expected not found"),
    }
    // A relative path is not looked up.
    assert!(validate_path("some/relative", false).is_ok());
}

#[test]
fn test_validate_file_ids_empty() {
    let result = validate_file_ids(&[]);
    assert!(result.is_err());
    assert!(matches!(result.unwrap_err(), CommandError::Validation(_)));
}

#[test]
fn test_validate_file_ids_too_many() {
    let ids: Vec<i64> = (1..=1001).collect();
    let result = validate_file_ids(&ids);
    assert!(result.is_err());
    assert!(matches!(result.unwrap_err(), CommandError::Validation(_)));
}

#[test]
fn test_validate_file_ids_invalid() {
    let result = validate_file_ids(&[0, -1, 5]);
    assert!(result.is_err());
    assert!(matches!(result.unwrap_err(), CommandError::Validation(_)));
}

#[test]
fn test_validate_file_ids_valid() {
    let result = validate_file_ids(&[1, 2, 3]);
    assert!(result.is_ok());
}

#[test]
fn test_sanitize_string() {
    let input = "Hello\x00World\x01Test";
    let result = sanitize_string(input);
    assert_eq!(result, "HelloWorldTest");
}

#[test]
fn test_sanitize_note_limits() {
    assert_eq!(sanitize_note(None), None);
    assert_eq!(sanitize_note(Some("\x00\x01".to_string())), None);
    let long = "n".repeat(300);
    assert_eq!(sanitize_note(Some(long)).unwrap().chars().count(), 256);
    // Characters are counted, not bytes.
    let wide = "é".repeat(300);
    assert_eq!(sanitize_note(Some(wide)).unwrap().chars().count(), 256);
}

#[test]
fn test_command_error_display() {
    let error = CommandError::Validation("Test error".to_string());
    assert_eq!(error.to_string(), "Validation error: Test error");
    assert_eq!(error.to_response(), "ERR_VALIDATION: Test error");
    let error = CommandError::NotFound("x".to_string());
    assert_eq!(error.to_response(), "ERR_NOT_FOUND: x");
}

#[test]
fn test_normalize_bucket_key() {
    assert_eq!(normalize_bucket_key("Screenshots"), "screenshot");
    assert_eq!(normalize_bucket_key("Big Downloads"), "big_download");
    assert_eq!(normalize_bucket_key("Old Desktop"), "old_desktop");
    assert_eq!(normalize_bucket_key("Duplicates"), "duplicate");
    assert_eq!(normalize_bucket_key("Executables"), "executable");
    assert_eq!(normalize_bucket_key("Some Other Thing"), "some_other_thing");
}

#[test]
fn bucket_keys_and_media_types_of_lowered_names() {
    assert_eq!(bucket_key_of_lower("big downloads"), "big_download");
    assert_eq!(bucket_key_of_lower("executables"), "executable");
    assert_eq!(bucket_key_of_lower("my own bucket"), "my_own_bucket");
    // The name is taken as it is given: nothing is lowered here.
    assert_eq!(bucket_key_of_lower("Screenshots"), "Screenshots");
    assert_eq!(normalize_bucket_key("Screenshots"), "screenshot");
    assert_eq!(media_type_for("jpeg").as_deref(), Some("image/jpeg"));
    assert_eq!(media_type_for("gz").as_deref(), Some("application/gzip"));
    assert_eq!(media_type_for("JPEG"), None);
    assert_eq!(media_type_for(""), None);
}
