use white_space::db::Database;
use white_space::models::{ActionType, NewFile};
use white_space::ops::archive::{ArchiveConfig, ArchiveManager, PreflightFacts};
use white_space::ops::delete::{DeleteCandidate, DeleteManager, Platform};
use white_space::ops::error::{ErrorContext, OpsError};
use white_space::ops::naming::resolve_destination;
use white_space::ops::undo::{MoveOp, UndoManager};

fn config() -> ArchiveConfig {
    ArchiveConfig::default_for(&Some("/home/u".to_string()), false)
}

fn add_file(db: &mut Database, path: &str) -> i64 {
    db.upsert_file(
        &NewFile {
            path: path.to_string(),
            parent_dir: "/docs".to_string(),
            mime: None,
            size_bytes: 8,
            created_at: None,
            modified_at: None,
            accessed_at: None,
            partial_sha1: None,
            sha1: None,
        },
        1,
    )
    .unwrap()
}

fn apply(present: &mut Vec<String>, moves: &[MoveOp]) {
    for m in moves {
        let at = present.iter().position(|p| *p == m.from).unwrap();
        assert!(!present.contains(&m.to));
        present[at] = m.to.clone();
    }
}

/// Archives the files in one batch, on the model of the disk and in the
/// catalog, and returns the identifier of the batch.
fn archive(db: &mut Database, present: &mut Vec<String>, files: &[&str], now: i64) -> String {
    let manager = ArchiveManager::new(config());
    let batch = manager.generate_batch_id(now);
    let dir = manager.get_config().get_daily_path(now).unwrap();
    let mut result = manager.begin(batch.clone());
    for src in files {
        let dst = resolve_destination(&dir, src, present).unwrap();
        apply(present, &[MoveOp { from: src.to_string(), to: dst.clone() }]);
        match manager.log_archive_action(src, &dst, &batch, db, now) {
            Ok(()) => manager.record_success(&mut result, 8),
            Err(e) => manager.record_failure(&mut result, src, &e),
        }
    }
    assert!(result.errors.is_empty());
    assert_eq!(result.files_archived, files.len());
    batch
}

#[test]
fn test_archive_operations() {
    let mut db = Database::new();
    add_file(&mut db, "/docs/a.txt");
    add_file(&mut db, "/docs/b.txt");
    let mut present = vec!["/docs/a.txt".to_string(), "/docs/b.txt".to_string()];
    let now = 1_715_767_200_000; // 2024-05-15T10:00:00Z
    let batch = archive(&mut db, &mut present, &["/docs/a.txt", "/docs/b.txt"], now);
    assert!(!batch.is_empty());
    assert_eq!(batch, "archive_1715767200000");
    assert_eq!(
        present,
        vec![
            "/home/u/Archive/White Space/2024-05-15/a.txt",
            "/home/u/Archive/White Space/2024-05-15/b.txt"
        ]
    );
    let f = db.get_file_by_id(1).unwrap();
    assert_eq!(f.path, "/home/u/Archive/White Space/2024-05-15/a.txt");
    assert_eq!(f.parent_dir, "/home/u/Archive/White Space/2024-05-15");
    let actions = db.get_actions_by_batch_id(&batch);
    assert_eq!(actions.len(), 2);
    assert_eq!(actions[0].action, ActionType::Archive);
    assert_eq!(actions[0].src_path, Some("/docs/a.txt".to_string()));
    assert_eq!(actions[0].origin, Some("archive_manager".to_string()));
    assert_eq!(db.get_undoable_batches(), vec![batch]);
}

#[test]
fn test_archive_conflict_resolution() {
    let archive_path = "/home/u/Archive/White Space/2024-05-15";
    let taken = vec![format!("{}/conflict.txt", archive_path)];
    assert_eq!(
        resolve_destination(archive_path, "/tmp/x/conflict.txt", &taken),
        Some(format!("{}/conflict (1).txt", archive_path))
    );
    let taken = vec![
        format!("{}/conflict.txt", archive_path),
        format!("{}/conflict (1).txt", archive_path),
        format!("{}/conflict (3).txt", archive_path),
    ];
    assert_eq!(
        resolve_destination(archive_path, "/tmp/x/conflict.txt", &taken),
        Some(format!("{}/conflict (2).txt", archive_path))
    );
    assert_eq!(
        resolve_destination(archive_path, "/tmp/x/free.txt", &taken),
        Some(format!("{}/free.txt", archive_path))
    );
    // Without extension, with a leading dot, with several dots.
    let taken = vec!["/a/README".to_string(), "/a/.profile".to_string(), "/a/x.tar.gz".to_string()];
    assert_eq!(resolve_destination("/a", "/s/README", &taken), Some("/a/README (1)".to_string()));
    assert_eq!(resolve_destination("/a/", "/s/.profile", &taken), Some("/a/.profile (1)".to_string()));
    assert_eq!(resolve_destination("/a", "/s/x.tar.gz", &taken), Some("/a/x.tar (1).gz".to_string()));
    assert_eq!(resolve_destination("/a", "/", &taken), None);
}

#[test]
fn test_undo_operations() {
    let mut db = Database::new();
    add_file(&mut db, "/docs/undo_test.txt");
    let mut present = vec!["/docs/undo_test.txt".to_string()];
    let batch = archive(&mut db, &mut present, &["/docs/undo_test.txt"], 1_715_767_200_000);

    let undo_manager = UndoManager::new();
    let (info, plan) = undo_manager.undo_last(&db, &present).unwrap();
    assert_eq!(info.batch_id, batch);
    assert!(plan.failure.is_none());
    apply(&mut present, &plan.moves);
    let undo = undo_manager.complete_undo(&info, &plan, None, &mut db, 1_715_767_300_000, 7);
    assert_eq!(undo.actions_reversed, 1);
    assert_eq!(undo.files_restored, 1);
    assert!(!undo.batch_id.is_empty());
    assert!(!undo.rollback_performed);
    assert!(undo.errors.is_empty());
    assert_eq!(undo.duration_ms, 7);

    // The file is back where it was, on disk and in the catalog.
    assert_eq!(present, vec!["/docs/undo_test.txt"]);
    assert_eq!(db.get_file_by_id(1).unwrap().path, "/docs/undo_test.txt");
    // The archive and the restore are of one batch.
    let actions = db.get_actions_by_batch_id(&batch);
    assert_eq!(actions.len(), 2);
    assert_eq!(actions[0].action, ActionType::Archive);
    assert_eq!(actions[1].action, ActionType::Restore);
    assert_eq!(actions[1].src_path, actions[0].dst_path);
    assert_eq!(actions[1].dst_path, actions[0].src_path);
    assert!(db.get_undoable_batches().is_empty());
}

#[test]
fn archive_two_files_and_undo_the_batch() {
    let mut db = Database::new();
    add_file(&mut db, "/docs/a.txt");
    add_file(&mut db, "/docs/b.txt");
    let mut present = vec!["/docs/a.txt".to_string(), "/docs/b.txt".to_string()];
    let batch = archive(&mut db, &mut present, &["/docs/a.txt", "/docs/b.txt"], 1_715_767_200_000);

    let undo_manager = UndoManager::new();
    let batches = undo_manager.get_undoable_batches(&db);
    assert_eq!(batches.len(), 1);
    assert_eq!(batches[0].file_count, 2);
    assert_eq!(batches[0].action_type, ActionType::Archive);
    assert!(undo_manager.can_undo_batch(&batches[0], &present));
    let preview = undo_manager.get_restore_preview(&batches[0]);
    assert_eq!(preview[0], "Restore /home/u/Archive/White Space/2024-05-15/a.txt from archive");

    let (info, plan) = undo_manager.undo_batch(&batch, &db, &present).unwrap();
    apply(&mut present, &plan.moves);
    let undo = undo_manager.complete_undo(&info, &plan, None, &mut db, 1_715_767_300_000, 1);
    assert_eq!(undo.actions_reversed, 2);
    assert_eq!(undo.files_restored, 2);
    assert!(!undo.rollback_performed);
    assert!(undo.errors.is_empty());
    assert_eq!(present, vec!["/docs/a.txt", "/docs/b.txt"]);
    assert!(undo_manager.get_undoable_batches(&db).is_empty());
    assert!(undo_manager.undo_batch("no_such_batch", &db, &present).is_err());
}

#[test]
fn test_batch_rollback() {
    let mut db = Database::new();
    add_file(&mut db, "/docs/file1.txt");
    add_file(&mut db, "/docs/file2.txt");
    add_file(&mut db, "/docs/file3.txt");
    let mut present: Vec<String> =
        ["/docs/file1.txt", "/docs/file2.txt", "/docs/file3.txt"].iter().map(|s| s.to_string()).collect();
    archive(
        &mut db,
        &mut present,
        &["/docs/file1.txt", "/docs/file2.txt", "/docs/file3.txt"],
        1_715_767_200_000,
    );
    // The second archived file is removed behind the back of the engine.
    present.remove(1);
    let before_disk = present.clone();
    let before_actions = db.get_actions_by_batch_id("archive_1715767200000").len();

    let undo_manager = UndoManager::new();
    let (info, plan) = undo_manager.undo_last(&db, &present).unwrap();
    assert_eq!(plan.moves.len(), 1);
    assert_eq!(
        plan.failure,
        Some(
            "Failed to reverse action 2: Undo Error: Archive file not found: \
             /home/u/Archive/White Space/2024-05-15/file2.txt"
                .to_string()
        )
    );
    assert!(!undo_manager.can_undo_batch(&info, &present));
    // The move that was made is taken back.
    apply(&mut present, &plan.moves);
    apply(&mut present, &undo_manager.rollback_moves(&plan.moves));
    let undo = undo_manager.complete_undo(&info, &plan, None, &mut db, 1_715_767_300_000, 1);
    assert!(undo.rollback_performed);
    assert!(!undo.errors.is_empty());
    assert_eq!(undo.actions_reversed, 1);
    // Every file is where it was before the undo, and nothing was recorded.
    assert_eq!(present, before_disk);
    assert_eq!(db.get_actions_by_batch_id("archive_1715767200000").len(), before_actions);
    assert_eq!(
        db.get_file_by_id(1).unwrap().path,
        "/home/u/Archive/White Space/2024-05-15/file1.txt"
    );
}

#[test]
fn undo_refuses_to_overwrite_and_rolls_back_failed_moves() {
    let mut db = Database::new();
    add_file(&mut db, "/docs/a.txt");
    let mut present = vec!["/docs/a.txt".to_string()];
    archive(&mut db, &mut present, &["/docs/a.txt"], 1_715_767_200_000);
    // Something else took the old place.
    present.push("/docs/a.txt".to_string());
    let undo_manager = UndoManager::new();
    let (info, plan) = undo_manager.undo_last(&db, &present).unwrap();
    assert!(plan.moves.is_empty());
    assert_eq!(
        plan.failure,
        Some("Failed to reverse action 1: Undo Error: Destination already exists: /docs/a.txt".to_string())
    );
    present.pop();
    // The plan is fine, but a move fails when it is made.
    let (info2, plan2) = undo_manager.undo_last(&db, &present).unwrap();
    assert!(plan2.failure.is_none());
    let undo = undo_manager.complete_undo(
        &info2,
        &plan2,
        Some((0, "disk full".to_string())),
        &mut db,
        5,
        1,
    );
    assert!(undo.rollback_performed);
    assert_eq!(undo.errors, vec!["disk full"]);
    assert_eq!(undo.files_restored, 0);
    assert_eq!(db.get_actions_by_batch_id(&info.batch_id).len(), 1);
    let reversed = undo_manager.rollback_moves(&vec![
        MoveOp { from: "a".to_string(), to: "b".to_string() },
        MoveOp { from: "c".to_string(), to: "d".to_string() },
    ]);
    assert_eq!((reversed[0].from.as_str(), reversed[0].to.as_str()), ("d", "c"));
    assert_eq!((reversed[1].from.as_str(), reversed[1].to.as_str()), ("b", "a"));
}

#[test]
fn test_delete_operations() {
    let mut db = Database::new();
    add_file(&mut db, "/docs/a.txt");
    let mut present = vec!["/docs/a.txt".to_string()];
    let manager = DeleteManager::new();
    assert!(manager.goes_to_trash());
    let batch = manager.generate_batch_id(1_715_767_200_000);
    assert_eq!(batch, "delete_1715767200000");
    let trash = manager.get_trash_directory(Platform::Linux, &Some("/home/u".to_string())).unwrap();
    assert_eq!(trash, "/home/u/.local/share/Trash/files");
    let dst = resolve_destination(&trash, "/docs/a.txt", &present).unwrap();
    apply(&mut present, &[MoveOp { from: "/docs/a.txt".to_string(), to: dst.clone() }]);
    let mut result = manager.begin(batch.clone());
    manager.log_delete_action("/docs/a.txt", &dst, &batch, &mut db, 1_715_767_200_000).unwrap();
    manager.record_success(&mut result, 8, Some(trash.clone()));
    assert_eq!(result.files_deleted, 1);
    assert_eq!(result.total_bytes_freed, 8);
    assert_eq!(result.trash_path, Some(trash));
    assert!(!result.batch_id.is_empty());
    let e = manager.log_delete_action("/docs/zzz", "/t/zzz", &batch, &mut db, 1).unwrap_err();
    manager.record_failure(&mut result, "/docs/zzz", &e);
    assert_eq!(
        result.errors,
        vec!["Failed to delete /docs/zzz: Delete Error: File not found in database: /docs/zzz"]
    );

    // Delete to trash, then restore: back at the path that it had, out of the
    // trash, and both actions of one batch.
    let undo_manager = UndoManager::new();
    let (info, plan) = undo_manager.undo_last(&db, &present).unwrap();
    assert_eq!(info.action_type, ActionType::Delete);
    apply(&mut present, &plan.moves);
    let undo = undo_manager.complete_undo(&info, &plan, None, &mut db, 1_715_767_300_000, 1);
    assert_eq!(undo.files_restored, 1);
    assert_eq!(present, vec!["/docs/a.txt"]);
    assert_eq!(db.get_file_by_id(1).unwrap().path, "/docs/a.txt");
    let actions = db.get_actions_by_batch_id(&batch);
    assert_eq!(actions.len(), 2);
    assert_eq!(actions[1].action, ActionType::Restore);
    assert_eq!(actions[1].batch_id, actions[0].batch_id);
}

#[test]
fn test_delete_permanent_mode() {
    let mut db = Database::new();
    add_file(&mut db, "/docs/permanent.txt");
    let mut delete_manager = DeleteManager::new();
    delete_manager.set_permanent_delete(true);
    assert!(!delete_manager.goes_to_trash());
    // Removed for good: recorded with the source as destination.
    delete_manager
        .log_delete_action("/docs/permanent.txt", "/docs/permanent.txt", "delete_1", &mut db, 1)
        .unwrap();
    let actions = db.get_actions_by_batch_id("delete_1");
    assert_eq!(actions[0].dst_path, actions[0].src_path);
    // It cannot be restored: the file is not there.
    let undo_manager = UndoManager::new();
    let (_, plan) = undo_manager.undo_last(&db, &vec![]).unwrap();
    assert!(plan.failure.unwrap().contains("Trash file not found"));
}

#[test]
fn trash_directories_by_platform() {
    let m = DeleteManager::new();
    let home = Some("/Users/u".to_string());
    assert_eq!(m.get_trash_directory(Platform::MacOs, &home).unwrap(), "/Users/u/.Trash");
    assert_eq!(m.get_trash_directory(Platform::Other, &home).unwrap(), "/Users/u/.trash");
    assert_eq!(
        m.get_trash_directory(Platform::Windows, &Some("C:\\Users\\u".to_string())).unwrap(),
        "C:\\Users\\u/AppData/Local/Microsoft/Windows/Explorer"
    );
    match m.get_trash_directory(Platform::Linux, &None) {
        Err(OpsError::DeleteError(msg)) => assert_eq!(msg, "Cannot determine home directory"),
        _ => panic!("expected a delete error"),
    }
    match m.get_trash_directory(Platform::Windows, &None) {
        Err(OpsError::DeleteError(msg)) => assert_eq!(msg, "Cannot determine user profile directory"),
        _ => panic!("expected a delete error"),
    }
}

#[test]
fn test_cross_volume_simulation() {
    let manager = ArchiveManager::new(config());
    assert!(manager.verify_copy(17, 17).is_ok());
    match manager.verify_copy(17, 16) {
        Err(OpsError::ArchiveError(m)) => {
            assert_eq!(m, "Copy verification failed: source size 17 != dest size 16")
        }
        _ => panic!("expected an archive error"),
    }
    let mut other = config();
    other.base_path = "/mnt/other".to_string();
    let mut manager = manager;
    manager.update_config(other);
    assert_eq!(
        manager.get_config().get_daily_path(1_715_767_200_000),
        Some("/mnt/other/2024-05-15".to_string())
    );
}

#[test]
fn test_progress_tracking() {
    let manager = ArchiveManager::new(config());
    let mut result = manager.begin("archive_1".to_string());
    manager.record_success(&mut result, 1024 * 1024);
    assert_eq!(result.files_archived, 1);
    assert_eq!(result.total_bytes, 1024 * 1024);
    manager.record_success(&mut result, u64::MAX);
    assert_eq!(result.total_bytes, u64::MAX);
    manager.record_failure(&mut result, "/x", &OpsError::ArchiveError("no".to_string()));
    assert_eq!(result.errors, vec!["Failed to archive /x: Archive Error: no"]);
}

#[test]
fn test_space_management() {
    let manager = ArchiveManager::new(config());
    assert_eq!(manager.calculate_total_size(&vec![100, 200, 700]), 1000);
    // 1000 bytes need 1050 with the buffer of five hundredths.
    assert!(manager.check_free_space(1050, 1000).is_ok());
    match manager.check_free_space(1049, 1000) {
        Err(OpsError::ArchiveError(m)) => assert_eq!(
            m,
            "Insufficient disk space. Required: 1050 bytes, Available: 1049 bytes"
        ),
        _ => panic!("expected an archive error"),
    }
    // The buffer is rounded down.
    assert!(manager.check_free_space(19, 19).is_ok());
    assert!(manager.check_free_space(20, 20).is_err());
    assert!(manager.check_free_space(0, 0).is_ok());
    assert!(manager.check_free_space(u64::MAX, u64::MAX).is_ok());
}

fn good_facts() -> PreflightFacts {
    PreflightFacts {
        parent_error: None,
        write_error: None,
        sizes: vec![Ok(600), Ok(400)],
        available: Ok(1050),
        sources: vec![("/a".to_string(), true), ("/b".to_string(), true)],
    }
}

#[test]
fn preflight_checks_in_order() {
    let manager = ArchiveManager::new(config());
    assert!(manager.preflight_checks(&good_facts()).is_ok());
    let detail = |f: &PreflightFacts| match manager.preflight_checks(f) {
        Err(OpsError::ArchiveError(m)) => m,
        other => panic!("expected an archive error, got {:?}", other),
    };
    let mut f = good_facts();
    f.available = Ok(1049);
    assert!(detail(&f).starts_with("Insufficient disk space"));
    f.sources[1].1 = false;
    assert!(detail(&f).starts_with("Insufficient disk space"));
    f.available = Ok(5000);
    assert_eq!(detail(&f), "Source file does not exist: /b");
    f.sizes[0] = Err("unreadable".to_string());
    assert_eq!(detail(&f), "Failed to read file metadata: unreadable");
    f.write_error = Some("read-only".to_string());
    assert_eq!(detail(&f), "No write permission to archive directory: read-only");
    f.parent_error = Some("denied".to_string());
    assert_eq!(detail(&f), "Failed to create parent directory: denied");
    let mut f = good_facts();
    f.available = Err(OpsError::SpaceError("no statvfs".to_string()));
    assert!(matches!(manager.preflight_checks(&f), Err(OpsError::SpaceError(_))));
}

#[test]
fn archive_record_needs_a_known_file_and_a_free_path() {
    let mut db = Database::new();
    add_file(&mut db, "/docs/a.txt");
    add_file(&mut db, "/arch/a.txt");
    let manager = ArchiveManager::new(config());
    match manager.log_archive_action("/docs/zzz", "/arch/zzz", "b", &mut db, 1) {
        Err(OpsError::ArchiveError(m)) => assert_eq!(m, "File not found in database: /docs/zzz"),
        _ => panic!("expected an archive error"),
    }
    assert!(manager.log_archive_action("/docs/a.txt", "/arch/a.txt", "b", &mut db, 1).is_err());
    assert!(db.get_actions_by_batch_id("b").is_empty());
    assert_eq!(db.get_file_by_id(1).unwrap().path, "/docs/a.txt");
}

#[test]
fn test_configuration_updates() {
    let mut archive_manager = ArchiveManager::new(config());
    let mut delete_manager = DeleteManager::new();
    let mut config = config();
    assert_eq!(config.free_space_buffer_percent, 5);
    config.free_space_buffer_percent = 10;
    archive_manager.update_config(config);
    let updated_config = archive_manager.get_config();
    assert_eq!(updated_config.free_space_buffer_percent, 10);
    assert!(archive_manager.check_free_space(1099, 1000).is_err());
    assert!(archive_manager.check_free_space(1100, 1000).is_ok());

    delete_manager.set_permanent_delete(true);
    assert!(delete_manager.get_config().permanent_delete);
    assert!(!delete_manager.get_config().use_trash);
    delete_manager.set_use_trash(true);
    assert!(delete_manager.get_config().use_trash);
    assert!(!delete_manager.get_config().permanent_delete);
}

#[test]
fn default_archive_paths() {
    assert_eq!(config().base_path, "/home/u/Archive/White Space");
    assert_eq!(
        ArchiveConfig::default_for(&Some("C:\\Users\\u".to_string()), true).base_path,
        "C:\\Users\\u/Archive/WhiteSpace"
    );
    assert_eq!(ArchiveConfig::default_for(&None, false).base_path, "./Archive");
    assert_eq!(config().get_daily_path(0), Some("/home/u/Archive/White Space/1970-01-01".to_string()));
    assert_eq!(
        config().get_daily_path(253_402_300_799_999),
        Some("/home/u/Archive/White Space/9999-12-31".to_string())
    );
    assert_eq!(config().get_daily_path(i64::MAX), None);
}

#[test]
fn test_error_context() {
    let context = ErrorContext::new("test_operation", 1_715_767_200_000)
        .with_file_path("/test/file.txt")
        .with_batch_id("test_batch_123");
    let context_str = context.to_string();
    assert!(context_str.contains("test_operation"));
    assert!(context_str.contains("/test/file.txt"));
    assert!(context_str.contains("test_batch_123"));
    assert!(context_str.contains("Time:"));
    assert_eq!(
        context_str,
        "Operation: test_operation, File: /test/file.txt, Batch: test_batch_123, Time: 2024-05-15 10:00:00"
    );
    assert_eq!(ErrorContext::new("op", 0).to_string(), "Operation: op, Time: 1970-01-01 00:00:00");
}

#[test]
fn old_archives_are_proposed_for_deletion() {
    let manager = DeleteManager::new();
    let c = |id: i64, is_archive: bool, age: i64, archive_age: Option<i64>| DeleteCandidate {
        file_id: id,
        path: String::new(),
        size_bytes: 1,
        age_days: age,
        is_archive,
        archive_age_days: archive_age,
    };
    let kept = manager.filter_archive_candidates(vec![
        c(1, true, 1, Some(7)),
        c(2, true, 100, Some(6)),
        c(3, true, 7, None),
        c(4, true, 6, None),
        c(5, false, 100, Some(100)),
    ]);
    let ids: Vec<i64> = kept.iter().map(|c| c.file_id).collect();
    assert_eq!(ids, vec![1, 3]);
    assert!(manager.get_delete_candidates(&Database::new()).is_empty());
}

#[test]
fn the_two_ways_of_deleting_exclude_each_other() {
    let mut manager = DeleteManager::new();
    let mut both = *manager.get_config();
    both.use_trash = true;
    both.permanent_delete = true;
    manager.update_config(both);
    assert!(manager.get_config().permanent_delete);
    assert!(!manager.get_config().use_trash);
    assert!(!manager.goes_to_trash());
    let mut trash_only = both;
    trash_only.permanent_delete = false;
    trash_only.archive_age_threshold_days = 3;
    manager.update_config(trash_only);
    assert!(manager.get_config().use_trash && !manager.get_config().permanent_delete);
    assert_eq!(manager.get_config().archive_age_threshold_days, 3);
    assert!(manager.goes_to_trash());
}
