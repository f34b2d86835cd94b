use white_space::ops::error::{
    archive_error, suggest_recovery_strategy, IoFailureKind, OpsError, RecoveryStrategy,
};
use white_space::ops::space::SpaceManager;

#[test]
fn test_bytes_formatting() {
    let space_manager = SpaceManager::new();

    assert_eq!(space_manager.format_bytes(0), "0 B");
    assert_eq!(space_manager.format_bytes(1024), "1.0 KB");
    assert_eq!(space_manager.format_bytes(1024 * 1024), "1.0 MB");
    assert_eq!(space_manager.format_bytes(1024 * 1024 * 1024), "1.0 GB");
}

#[test]
fn test_bytes_formatting_rounds_to_tenths() {
    let m = SpaceManager::new();
    assert_eq!(m.format_bytes(1023), "1023 B");
    assert_eq!(m.format_bytes(1536), "1.5 KB");
    assert_eq!(m.format_bytes(1048575), "1024.0 KB");
    assert_eq!(m.format_bytes(1100), format!("{:.1} KB", 1100.0_f64 / 1024.0));
    assert_eq!(m.format_bytes(123456789), format!("{:.1} MB", 123456789.0_f64 / 1048576.0));
    assert_eq!(m.format_bytes(5 * 1099511627776), "5.0 TB");
    assert_eq!(m.format_bytes(4096 * 1099511627776), "4096.0 TB");
    // Midway between two tenths: to the even one.
    assert_eq!(m.format_bytes(1024 + 51 + 1), format!("{:.1} KB", 1076.0_f64 / 1024.0));
    assert_eq!(m.format_bytes(1310720), "1.2 MB");
    assert_eq!(m.format_bytes(1310720), format!("{:.1} MB", 1310720.0_f64 / 1048576.0));
    assert_eq!(m.format_bytes(1024 + 768), format!("{:.1} KB", 1792.0_f64 / 1024.0));
    assert_eq!(m.format_bytes(1024 + 256), "1.2 KB");
    assert_eq!(m.format_bytes(1024 + 768), "1.8 KB");
}

#[test]
fn test_largest_files() {
    let m = SpaceManager::new();
    let files = vec![
        ("a".to_string(), 10u64),
        ("b".to_string(), 30),
        ("c".to_string(), 20),
        ("d".to_string(), 30),
    ];
    let top = m.get_largest_files(&files, 3);
    assert_eq!(top.len(), 3);
    assert_eq!(top[0], ("b".to_string(), 30));
    assert_eq!(top[1], ("d".to_string(), 30));
    assert_eq!(top[2], ("c".to_string(), 20));
    assert_eq!(m.get_largest_files(&files, 10).len(), 4);
}

#[test]
fn test_cleanup_impact_estimation() {
    let m = SpaceManager::new();
    assert_eq!(m.estimate_cleanup_impact(&vec![1024 * 1024, 5, 7]), 1024 * 1024 + 12);
    assert_eq!(m.estimate_cleanup_impact(&vec![u64::MAX, 5]), u64::MAX);
    assert_eq!(m.estimate_cleanup_impact(&vec![]), 0);
}

#[test]
fn test_error_handling() {
    let error = OpsError::ArchiveError("Test error".to_string());
    let user_message = error.to_user_message();

    assert_eq!(user_message.title, "Archive Failed");
    assert!(user_message.message.contains("Test error"));
    assert!(user_message.suggestion.is_some());
    assert!(user_message.recoverable);
    assert!(error.is_recoverable());
    assert!(error.get_suggestion().is_some());
}

#[test]
fn test_error_messages_by_kind() {
    let e = OpsError::UndoError("x".to_string());
    assert_eq!(e.to_string(), "Undo Error: x");
    assert!(!e.is_recoverable());
    let m = e.to_user_message();
    assert_eq!(m.title, "Undo Failed");
    assert_eq!(m.message, "Unable to undo operation: x");
    let e = OpsError::FileNotFound("f".to_string());
    assert!(!e.is_recoverable());
    assert_eq!(e.to_user_message().message, "File not found: f");
    let e = OpsError::SpaceError("No space".to_string());
    assert_eq!(e.get_suggestion().unwrap(), "Free up disk space or choose a different location.");
    // Running out of space is not recoverable within the command.
    assert!(!e.is_recoverable());
    let m = e.to_user_message();
    assert!(!m.recoverable);
    assert_eq!(m.title, "Insufficient Space");
    assert!(m.message.contains("No space"));
    assert!(m.suggestion.is_some());
    assert!(OpsError::PermissionError("p".to_string()).is_recoverable());
    assert_eq!(archive_error("a").to_string(), "Archive Error: a");
}

#[test]
fn test_error_from_io() {
    assert!(matches!(
        OpsError::from_io(IoFailureKind::PermissionDenied, "x"),
        OpsError::PermissionError(_)
    ));
    assert!(matches!(OpsError::from_io(IoFailureKind::NotFound, "x"), OpsError::FileNotFound(_)));
    assert!(matches!(OpsError::from_io(IoFailureKind::InvalidInput, "x"), OpsError::InvalidPath(_)));
    match OpsError::from_io(IoFailureKind::Other, "disk on fire") {
        OpsError::ArchiveError(m) => assert_eq!(m, "IO error: disk on fire"),
        _ => panic!("expected an archive error"),
    }
}

#[test]
fn test_recovery_strategies() {
    let space_error = OpsError::SpaceError("No space".to_string());
    let permission_error = OpsError::PermissionError("Access denied".to_string());
    let file_not_found = OpsError::FileNotFound("Missing file".to_string());

    assert!(matches!(suggest_recovery_strategy(&space_error), RecoveryStrategy::Abort));
    assert!(matches!(suggest_recovery_strategy(&permission_error), RecoveryStrategy::Retry));
    assert!(matches!(suggest_recovery_strategy(&file_not_found), RecoveryStrategy::Skip));
    assert!(matches!(
        suggest_recovery_strategy(&OpsError::CrossVolumeError(String::new())),
        RecoveryStrategy::Fallback
    ));
    assert!(matches!(
        suggest_recovery_strategy(&OpsError::BatchError(String::new())),
        RecoveryStrategy::Skip
    ));
}
