use white_space::commands::{
    add_folder, archive_outcome, bucketed_fetch_size, cooloff_days_of, delete_outcome,
    ensure_within_watched, filter_candidates_by_root_path, get_candidates_bucketed, get_db_path,
    get_duplicate_groups, get_platform_info, get_prefs, get_review_items, get_thumbnail,
    is_within_watched_roots, list_directory_entries, list_staged, list_undoable_batches,
    map_io_error, normalize_directory_path, normalize_existing_path, remove_folder, require_text,
    restore_staged, scan_roots, set_prefs, stage_commit, stage_expiry,
    finish_staged, validate_max_total, validate_prefs, watched_root_to_folder, CommandError,
    DirectoryEntry, ErrorKind, GetCandidatesBucketedParams, PartialUserPrefs, PathProbe,
    StageOptions,
};
use white_space::commands::requests::{
    daily_candidates, get_candidates, paths_to_stage, paths_to_work_on,
};
use white_space::db::Database;
use white_space::models::{ActionType, NewAction, NewFile, StagedStatus, WatchedRoot};
use white_space::ops::archive::ArchiveResult;
use white_space::ops::delete::{DeleteResult, Platform};
use white_space::ops::error::IoFailureKind;
use white_space::scanner::RootFacts;
use white_space::selector::scoring::Candidate;
use white_space::selector::ScoredBuckets;

fn empty_prefs() -> PartialUserPrefs {
    PartialUserPrefs {
        dry_run_default: None,
        tidy_day: None,
        tidy_hour: None,
        rolling_window_days: None,
        max_candidates_per_day: None,
        thumbnail_max_size: None,
        auto_scan_enabled: None,
        scan_interval_hours: None,
        archive_age_threshold_days: None,
        delete_age_threshold_days: None,
    }
}

fn validation_message(result: Result<(), CommandError>) -> String {
    match result {
        Err(e) => {
            assert!(e.to_response().contains("ERR_VALIDATION"));
            match e {
                CommandError::Validation(m) => m,
                _ => panic!("expected a validation error"),
            }
        }
        Ok(()) => panic!("expected an error"),
    }
}

#[test]
fn test_set_prefs_invalid_tidy_hour() {
    let mut db = Database::new();
    let mut prefs = empty_prefs();
    prefs.tidy_hour = Some(24);
    let result = set_prefs(&prefs, &mut db);
    assert!(result.is_err());
    assert_eq!(validation_message(result), "tidy_hour must be 0-23");
    assert!(db.get_all_preferences().is_empty());

    prefs.tidy_hour = Some(9);
    assert!(set_prefs(&prefs, &mut db).is_ok());
    assert_eq!(get_prefs(&db).tidy_hour, 9);
}

#[test]
fn test_set_prefs_invalid_rolling_window() {
    let mut db = Database::new();
    let mut prefs = empty_prefs();
    prefs.rolling_window_days = Some(0);
    let result = set_prefs(&prefs, &mut db);
    assert!(result.is_err());
    assert_eq!(validation_message(result), "rolling_window_days must be 1-365");
    prefs.rolling_window_days = Some(366);
    assert!(set_prefs(&prefs, &mut db).is_err());
    prefs.rolling_window_days = Some(-3);
    assert!(set_prefs(&prefs, &mut db).is_err());
    prefs.rolling_window_days = Some(365);
    assert!(set_prefs(&prefs, &mut db).is_ok());
    assert_eq!(get_prefs(&db).rolling_window_days, 365);
}

#[test]
fn test_set_prefs_invalid_max_candidates() {
    let mut db = Database::new();
    let mut prefs = empty_prefs();
    prefs.max_candidates_per_day = Some(0);
    let result = set_prefs(&prefs, &mut db);
    assert!(result.is_err());
    assert_eq!(validation_message(result), "max_candidates_per_day must be 1-1000");
    prefs.max_candidates_per_day = Some(1001);
    assert!(set_prefs(&prefs, &mut db).is_err());
}

#[test]
fn test_set_prefs_invalid_thumbnail_size() {
    let mut db = Database::new();
    let mut prefs = empty_prefs();
    prefs.thumbnail_max_size = Some(0);
    let result = set_prefs(&prefs, &mut db);
    assert!(result.is_err());
    assert_eq!(validation_message(result), "thumbnail_max_size must be 1-2048");
    prefs.thumbnail_max_size = Some(2049);
    assert!(set_prefs(&prefs, &mut db).is_err());
}

#[test]
fn test_set_prefs_invalid_scan_interval() {
    let mut db = Database::new();
    let mut prefs = empty_prefs();
    prefs.scan_interval_hours = Some(0);
    let result = set_prefs(&prefs, &mut db);
    assert!(result.is_err());
    assert_eq!(validation_message(result), "scan_interval_hours must be 1-168");
    prefs.scan_interval_hours = Some(169);
    assert!(set_prefs(&prefs, &mut db).is_err());
}

#[test]
fn test_set_prefs_invalid_age_thresholds() {
    let mut db = Database::new();
    let mut prefs = empty_prefs();
    prefs.archive_age_threshold_days = Some(366);
    let result = set_prefs(&prefs, &mut db);
    assert!(result.is_err());
    assert_eq!(validation_message(result), "archive_age_threshold_days must be 0-365");
    prefs.archive_age_threshold_days = Some(0);
    prefs.delete_age_threshold_days = Some(366);
    assert_eq!(
        validation_message(validate_prefs(&prefs)),
        "delete_age_threshold_days must be 0-365"
    );
    // The first rule that is broken decides.
    prefs.tidy_hour = Some(99);
    assert_eq!(validation_message(validate_prefs(&prefs)), "tidy_hour must be 0-23");
}

#[test]
fn test_set_prefs_valid() {
    let mut db = Database::new();
    let prefs = PartialUserPrefs {
        dry_run_default: Some(true),
        tidy_day: Some("Mon".to_string()),
        tidy_hour: Some(9),
        rolling_window_days: Some(7),
        max_candidates_per_day: Some(10),
        thumbnail_max_size: Some(512),
        auto_scan_enabled: Some(true),
        scan_interval_hours: Some(12),
        archive_age_threshold_days: Some(7),
        delete_age_threshold_days: Some(30),
    };
    let result = set_prefs(&prefs, &mut db);
    assert!(result.is_ok());
    let stored = get_prefs(&db);
    assert_eq!(stored.dry_run_default, true);
    assert_eq!(stored.tidy_day, "Mon");
    assert_eq!(stored.tidy_hour, 9);
    assert_eq!(stored.max_candidates_per_day, 10);
    assert_eq!(stored.thumbnail_max_size, 512);
    assert_eq!(stored.auto_scan_enabled, true);
    assert_eq!(stored.scan_interval_hours, 12);
    assert_eq!(db.get_preference("auto_scan_enabled"), Some("true".to_string()));
    assert_eq!(db.get_preference("thumbnail_max_size"), Some("512".to_string()));
    let mut partial = empty_prefs();
    partial.tidy_day = Some("Tu\u{1}e".to_string());
    partial.dry_run_default = Some(false);
    set_prefs(&partial, &mut db).unwrap();
    let stored = get_prefs(&db);
    assert_eq!(stored.tidy_day, "Tue");
    assert_eq!(stored.dry_run_default, false);
    assert_eq!(stored.tidy_hour, 9);
}

#[test]
fn test_get_prefs_defaults() {
    let db = Database::new();
    let prefs = get_prefs(&db);
    assert_eq!(prefs.dry_run_default, true);
    assert_eq!(prefs.tidy_day, "Fri");
    assert_eq!(prefs.tidy_hour, 17);
    assert_eq!(prefs.rolling_window_days, 7);
    assert_eq!(prefs.max_candidates_per_day, 12);
    assert_eq!(prefs.thumbnail_max_size, 256);
    assert_eq!(prefs.auto_scan_enabled, false);
    assert_eq!(prefs.scan_interval_hours, 24);
    assert_eq!(prefs.archive_age_threshold_days, 7);
    assert_eq!(prefs.delete_age_threshold_days, 30);
}

#[test]
fn unreadable_preferences_fall_back_to_defaults() {
    let mut db = Database::new();
    db.set_preference("tidy_hour", "nine");
    db.set_preference("rolling_window_days", "-14");
    db.set_preference("thumbnail_max_size", "4294967296");
    db.set_preference("scan_interval_hours", "+6");
    db.set_preference("dry_run_default", "TRUE");
    db.set_preference("auto_scan_enabled", "true");
    db.set_preference("max_candidates_per_day", "");
    db.set_preference("archive_age_threshold_days", " 3");
    db.set_preference("delete_age_threshold_days", "007");
    let prefs = get_prefs(&db);
    assert_eq!(prefs.tidy_hour, 17);
    assert_eq!(prefs.rolling_window_days, -14);
    assert_eq!(prefs.thumbnail_max_size, 256);
    assert_eq!(prefs.scan_interval_hours, 6);
    assert_eq!(prefs.dry_run_default, true);
    assert_eq!(prefs.auto_scan_enabled, true);
    assert_eq!(prefs.max_candidates_per_day, 12);
    assert_eq!(prefs.archive_age_threshold_days, 7);
    assert_eq!(prefs.delete_age_threshold_days, 7);
}

fn facts(path: &str, exists: bool, is_dir: bool) -> RootFacts {
    RootFacts { path: path.to_string(), exists, is_dir }
}

#[test]
fn test_scan_roots_empty() {
    let result = scan_roots(&vec![]);
    assert!(result.is_err());
    assert!(result.unwrap_err().to_response().contains("ERR_VALIDATION"));
}

#[test]
fn test_scan_roots_too_many() {
    let roots: Vec<RootFacts> =
        (1..=11).map(|i| facts(&format!("/test/root{}", i), true, true)).collect();
    let result = scan_roots(&roots);
    assert!(result.is_err());
    assert_eq!(
        result.unwrap_err().to_response(),
        "ERR_VALIDATION: Too many scan roots (max 10)"
    );
    let roots: Vec<RootFacts> =
        (1..=10).map(|i| facts(&format!("/test/root{}", i), true, true)).collect();
    assert_eq!(scan_roots(&roots).unwrap().len(), 10);
}

#[test]
fn test_scan_roots_invalid_path() {
    let result = scan_roots(&vec![facts("/etc/passwd", true, false)]);
    assert!(result.is_err());
    assert!(result.unwrap_err().to_response().contains("ERR_VALIDATION"));
}

fn no_buckets() -> ScoredBuckets {
    ScoredBuckets {
        screenshots: vec![],
        big_downloads: vec![],
        old_desktop: vec![],
        duplicates: vec![],
    }
}

#[test]
fn test_daily_candidates_zero_max() {
    let result = daily_candidates(0, &no_buckets());
    assert!(result.is_err());
    assert!(result.unwrap_err().to_response().contains("ERR_VALIDATION"));
    assert!(validate_max_total(0).is_err());
}

#[test]
fn test_daily_candidates_too_large() {
    let result = daily_candidates(1001, &no_buckets());
    assert!(result.is_err());
    assert!(result.unwrap_err().to_response().contains("ERR_VALIDATION"));
    assert!(get_candidates(1001, &no_buckets()).is_err());
    assert!(daily_candidates(1000, &no_buckets()).unwrap().is_empty());
    assert!(get_candidates(1, &no_buckets()).unwrap().is_empty());
    assert!(validate_max_total(1000).is_ok());
    assert!(validate_max_total(1).is_ok());
}

fn candidate(id: i64, path: &str, size: u64, reason: &str, age: i64) -> Candidate {
    Candidate {
        file_id: id,
        path: path.to_string(),
        parent_dir: "/p".to_string(),
        size_bytes: size,
        reason: reason.to_string(),
        score_key: 0,
        confidence_percent: 90,
        preview_hint: String::new(),
        age_days: age,
    }
}

#[test]
fn test_filter_candidates_by_root_path_keeps_matching_files() {
    let matching_path = "/tmp/t/root/nested/Screenshot 2024-01-01.png";
    let outside_path = "/tmp/t/outside/Screenshot 2023-01-01.png";
    let mut candidates = vec![
        candidate(1, matching_path, 1024, "Screenshots", 10),
        candidate(2, outside_path, 1024, "Screenshots", 20),
    ];
    filter_candidates_by_root_path(&mut candidates, "/tmp/t/root");
    assert_eq!(candidates.len(), 1);
    assert_eq!(candidates[0].path, matching_path);
}

fn add_file(db: &mut Database, path: &str, size: u64, sha1: Option<&str>) -> i64 {
    db.upsert_file(
        &NewFile {
            path: path.to_string(),
            parent_dir: "/d".to_string(),
            mime: None,
            size_bytes: size,
            created_at: None,
            modified_at: None,
            accessed_at: None,
            partial_sha1: None,
            sha1: sha1.map(|s| s.to_string()),
        },
        1,
    )
    .unwrap()
}

#[test]
fn test_archive_files_empty() {
    let db = Database::new();
    let result = paths_to_work_on(&[], &db, &vec![]);
    assert!(result.is_err());
    assert!(result.unwrap_err().to_response().contains("ERR_VALIDATION"));
}

#[test]
fn test_archive_files_nonexistent() {
    let db = Database::new();
    let result = paths_to_work_on(&[99999], &db, &vec![]);
    assert!(result.is_err());
    assert_eq!(result.unwrap_err().to_response(), "ERR_NOT_FOUND: File with ID 99999 not found");
}

#[test]
fn test_delete_files_empty() {
    let db = Database::new();
    let result = paths_to_work_on(&[], &db, &vec![]);
    assert!(result.is_err());
    assert!(result.unwrap_err().to_response().contains("ERR_VALIDATION"));
}

#[test]
fn test_delete_files_nonexistent() {
    let mut db = Database::new();
    add_file(&mut db, "/d/a", 1, None);
    let present = vec!["/d/a".to_string()];
    let result = paths_to_work_on(&[1, 99999], &db, &present);
    assert!(result.is_err());
    assert!(result.unwrap_err().to_response().contains("ERR_NOT_FOUND"));
    assert_eq!(paths_to_work_on(&[1, 1], &db, &present).unwrap(), vec!["/d/a", "/d/a"]);
    // An absolute path that is gone from the disk is refused before anything is touched.
    assert_eq!(
        paths_to_work_on(&[1], &db, &vec![]).unwrap_err().to_response(),
        "ERR_VALIDATION: Not found: Path does not exist: /d/a"
    );
    db.mark_missing_for_root("/d", &vec![]);
    assert_eq!(paths_to_work_on(&[1], &db, &present).unwrap(), vec!["/d/a"]);
    assert_eq!(
        paths_to_stage(&[1], &db, &present).unwrap_err().to_response(),
        "ERR_VALIDATION: File with ID 1 has been deleted"
    );
}

#[test]
fn test_get_review_items_too_large() {
    let result = get_review_items(366);
    assert!(result.is_err());
    assert!(result.unwrap_err().to_response().contains("ERR_VALIDATION"));
    assert!(get_review_items(365).unwrap().is_empty());
}

#[test]
fn test_get_thumbnail_invalid_id() {
    let db = Database::new();
    let result = get_thumbnail(0, 256, &db, true);
    assert!(result.is_err());
    assert!(result.unwrap_err().to_response().contains("ERR_VALIDATION"));
}

#[test]
fn test_get_thumbnail_nonexistent() {
    let db = Database::new();
    let result = get_thumbnail(99999, 256, &db, true);
    assert!(result.is_err());
    assert!(result.unwrap_err().to_response().contains("ERR_NOT_FOUND"));
}

#[test]
fn test_get_thumbnail_invalid_size() {
    let db = Database::new();
    let result = get_thumbnail(1, 0, &db, true);
    assert!(result.is_err());
    assert!(result.unwrap_err().to_response().contains("ERR_VALIDATION"));
}

#[test]
fn test_get_thumbnail_too_large() {
    let mut db = Database::new();
    let result = get_thumbnail(1, 2049, &db, true);
    assert!(result.is_err());
    assert!(result.unwrap_err().to_response().contains("ERR_VALIDATION"));
    add_file(&mut db, "/d/pic.png", 1, None);
    assert!(get_thumbnail(1, 2048, &db, true).unwrap().starts_with("data:image/png;base64,"));
    assert!(get_thumbnail(1, 2048, &db, false).is_err());
}

#[test]
fn test_get_db_path() {
    let result = get_db_path(&Some("/home/u/.local/share".to_string()));
    assert!(result.is_ok());
    let path = result.unwrap();
    assert!(path.contains("white-space"));
    assert!(path.contains("database.db"));
    assert_eq!(path, "/home/u/.local/share/white-space/database.db");
    assert!(matches!(get_db_path(&None), Err(CommandError::Internal(_))));
}

fn probe(exists: bool, canonical: Option<&str>, is_dir: bool) -> PathProbe {
    PathProbe { exists, canonical: canonical.map(|s| s.to_string()), is_dir }
}

#[test]
fn normalize_directory_path_handles_existing_directory() {
    let normalized =
        normalize_directory_path("/tmp/x/nested", &probe(true, Some("/private/tmp/x/nested"), true))
            .expect("should normalize directory");
    assert!(normalized.ends_with("nested"));
    assert_eq!(normalized, "/private/tmp/x/nested");
    assert_eq!(normalize_directory_path("/tmp/x", &probe(true, None, true)).unwrap(), "/tmp/x");
    match normalize_directory_path("/tmp/f.txt", &probe(true, None, false)) {
        Err(CommandError::Validation(m)) => assert_eq!(m, "Path is not a directory: /tmp/f.txt"),
        _ => panic!("expected a validation error"),
    }
}

#[test]
fn watched_root_membership_checks_descendants() {
    let roots = vec!["/tmp/t/root".to_string()];
    assert!(is_within_watched_roots("/tmp/t/root/child", &roots));
    assert!(is_within_watched_roots("/tmp/t/root", &roots));
    assert!(is_within_watched_roots("/tmp/t/root/a/b/c.txt", &roots));
    assert!(!is_within_watched_roots("/tmp/t/outside", &roots));
    assert!(!is_within_watched_roots("/tmp/t/rootless", &roots));
    assert!(!is_within_watched_roots("/tmp/t", &roots));
    assert!(!is_within_watched_roots("tmp/t/root/child", &roots));
}

#[test]
fn normalize_existing_path_handles_file() {
    let normalized = normalize_existing_path("/tmp/x/file.txt", &probe(true, None, false))
        .expect("normalize file");
    assert!(normalized.ends_with("file.txt"));
    match normalize_existing_path("/tmp/x/none", &probe(false, None, false)) {
        Err(CommandError::NotFound(m)) => assert_eq!(m, "Path not found: /tmp/x/none"),
        _ => panic!("expected not found"),
    }
}

#[test]
fn ensure_within_watched_rejects_outside() {
    let roots = vec!["/tmp/t/root".to_string()];
    ensure_within_watched("/tmp/t/root", &roots).expect("root allowed");
    let refused = ensure_within_watched("/tmp/t/outside", &roots);
    assert!(refused.is_err());
    assert_eq!(
        refused.unwrap_err().to_response(),
        "ERR_PERMISSION: Path must be within a watched folder"
    );
}

#[test]
fn error_kinds_and_io_errors() {
    assert_eq!(ErrorKind::Selector.response("x"), "ERR_SELECTOR: x");
    assert_eq!(ErrorKind::FileSystem.response("x"), "ERR_FILE_SYSTEM: x");
    assert_eq!(ErrorKind::Gauge.response(""), "ERR_GAUGE: ");
    let all = [
        (ErrorKind::Validation, "VALIDATION"),
        (ErrorKind::NotFound, "NOT_FOUND"),
        (ErrorKind::Permission, "PERMISSION"),
        (ErrorKind::Database, "DATABASE"),
        (ErrorKind::Archive, "ARCHIVE"),
        (ErrorKind::Delete, "DELETE"),
        (ErrorKind::Undo, "UNDO"),
        (ErrorKind::Scan, "SCAN"),
        (ErrorKind::Internal, "INTERNAL"),
    ];
    for (kind, name) in all {
        assert_eq!(kind.response("m"), format!("ERR_{}: m", name));
    }
    let e = map_io_error("open directory", "/x", IoFailureKind::NotFound, "os error 2");
    assert_eq!(e.to_string(), "Not found: open directory: /x");
    let e = map_io_error("open directory", "/x", IoFailureKind::PermissionDenied, "os error 13");
    assert_eq!(e.to_string(), "Permission error: open directory: /x");
    let e = map_io_error("read", "/x", IoFailureKind::Other, "os error 5");
    assert_eq!(e.to_string(), "File system error: Failed to read /x: os error 5");
    assert_eq!(CommandError::Database("d".to_string()).to_string(), "Database error: d");
    assert_eq!(CommandError::Internal("i".to_string()).to_string(), "Internal error: i");
    assert!(require_text("  ", "Path cannot be empty").is_err());
    assert!(require_text(" x ", "Path cannot be empty").is_ok());
}

fn params() -> GetCandidatesBucketedParams {
    GetCandidatesBucketedParams {
        limit: Some(10),
        offset: None,
        min_confidence: None,
        max_results_per_bucket: None,
        include_archived: None,
        include_deleted: None,
        root_path: None,
        buckets: None,
        sort: None,
    }
}

#[test]
fn bucketed_candidates_for_the_screenshot_bucket() {
    let mib = 1024 * 1024;
    let candidates = vec![
        candidate(1, "/home/u/Desktop/Screenshot 2024-05-01.png", 10 * mib, "Screenshots", 60),
        candidate(2, "/home/u/Desktop/old.bin", 5, "Old Desktop", 60),
    ];
    let mut p = params();
    p.buckets = Some(vec!["screenshot".to_string()]);
    let resp = get_candidates_bucketed(&p, &candidates).unwrap();
    assert_eq!(resp.total_count, 1);
    assert_eq!(resp.by_bucket.len(), 1);
    assert_eq!(resp.by_bucket[0].0, "screenshot");
    assert_eq!(resp.by_bucket[0].1.len(), 1);
    assert_eq!(resp.by_bucket[0].1[0].id, 1);
    assert_eq!(resp.by_bucket[0].1[0].reason, "screenshot");
    assert_eq!(resp.summaries.len(), 1);
    assert_eq!(resp.summaries[0].key, "screenshot");
    assert_eq!(resp.summaries[0].count, 1);
    assert_eq!(resp.summaries[0].total_bytes, 10 * mib);
    assert!(!resp.paging.has_more);
    assert!(resp.errors.is_empty());
}

#[test]
fn bucketed_candidates_sort_and_page() {
    let candidates = vec![
        candidate(1, "/b/Beta", 30, "Screenshots", 5),
        candidate(2, "/a/alpha", 10, "Duplicates", 50),
        candidate(3, "/c/gamma", 20, "Screenshots", 20),
        candidate(4, "/d/Delta", 20, "Big Downloads", 1),
        candidate(5, "/e/epsilon", 40, "Strange New", 9),
    ];
    let ids = |p: &GetCandidatesBucketedParams| -> Vec<i64> {
        let resp = get_candidates_bucketed(p, &candidates).unwrap();
        let mut all: Vec<(String, i64)> = Vec::new();
        for (key, entries) in &resp.by_bucket {
            for e in entries {
                all.push((key.clone(), e.id));
            }
        }
        all.into_iter().map(|(_, id)| id).collect()
    };
    let mut p = params();
    // Unsorted, bucket by bucket in the order of first occurrence.
    assert_eq!(ids(&p), vec![1, 3, 2, 4, 5]);
    p.sort = Some("size_desc".to_string());
    assert_eq!(ids(&p), vec![5, 1, 3, 4, 2]);
    p.sort = Some("age_desc".to_string());
    assert_eq!(ids(&p), vec![2, 3, 1, 5, 4]);
    p.sort = Some("name_asc".to_string());
    assert_eq!(ids(&p), vec![2, 1, 3, 4, 5]);

    p.sort = Some("size_desc".to_string());
    p.limit = Some(2);
    p.offset = Some(1);
    let resp = get_candidates_bucketed(&p, &candidates).unwrap();
    assert_eq!(resp.total_count, 5);
    assert_eq!(resp.paging.limit, 2);
    assert_eq!(resp.paging.offset, 1);
    assert!(resp.paging.has_more);
    assert_eq!(resp.by_bucket.len(), 1);
    assert_eq!(resp.by_bucket[0].0, "screenshot");
    assert_eq!(resp.summaries[0].count, 2);
    assert_eq!(resp.summaries[0].total_bytes, 50);
    p.offset = Some(3);
    let resp = get_candidates_bucketed(&p, &candidates).unwrap();
    assert!(!resp.paging.has_more);
    let keys: Vec<&str> = resp.summaries.iter().map(|s| s.key.as_str()).collect();
    assert_eq!(keys, vec!["big_download", "duplicate"]);
    p.offset = Some(9);
    let resp = get_candidates_bucketed(&p, &candidates).unwrap();
    assert_eq!(resp.total_count, 5);
    assert!(resp.by_bucket.is_empty());
    assert!(!resp.paging.has_more);

    p = params();
    p.buckets = Some(vec!["Duplicates".to_string(), "strange new".to_string()]);
    assert_eq!(ids(&p), vec![2, 5]);
    p.limit = Some(0);
    assert_eq!(
        get_candidates_bucketed(&p, &candidates).unwrap_err().to_response(),
        "ERR_VALIDATION: limit must be > 0"
    );
    p.limit = Some(5000);
    assert_eq!(get_candidates_bucketed(&p, &candidates).unwrap().paging.limit, 1000);
    p.limit = None;
    assert_eq!(get_candidates_bucketed(&p, &candidates).unwrap().paging.limit, 100);
}

#[test]
fn fetch_size_for_bucketed_candidates() {
    let mut p = params();
    assert_eq!(bucketed_fetch_size(&p).unwrap(), 10);
    p.offset = Some(5);
    assert_eq!(bucketed_fetch_size(&p).unwrap(), 15);
    p.root_path = Some("/r".to_string());
    assert_eq!(bucketed_fetch_size(&p).unwrap(), 750);
    p.limit = Some(1000);
    assert_eq!(bucketed_fetch_size(&p).unwrap(), 10_000);
    p.limit = Some(0);
    assert!(bucketed_fetch_size(&p).is_err());
}

#[test]
fn get_duplicate_groups_for_identical_files() {
    let mut db = Database::new();
    let hello = "aaf4c61ddcc5e8a2dabede0f3b482cd9aea9434d";
    for name in ["x1", "x2", "x3"] {
        add_file(&mut db, &format!("/d/{}", name), 5, Some(hello));
    }
    add_file(&mut db, "/d/other", 5, Some("ffff"));
    let groups = get_duplicate_groups(Some(10), &db);
    assert_eq!(groups.len(), 1);
    assert_eq!(groups[0].hash, hello);
    assert_eq!(groups[0].count, 3);
    assert_eq!(groups[0].total_size, 15);
    let ids: Vec<i64> = groups[0].files.iter().map(|f| f.id).collect();
    assert_eq!(ids, vec![1, 2, 3]);
    assert!(get_duplicate_groups(Some(0), &db).is_empty());
    assert_eq!(get_duplicate_groups(None, &db).len(), 1);
}

#[test]
fn folders_are_added_and_removed() {
    let mut db = Database::new();
    let folder = add_folder("/home/u/Desktop", &probe(true, Some("/home/u/Desktop"), true), &mut db, 5).unwrap();
    assert_eq!(folder.id, 1);
    assert_eq!(folder.name, "Desktop");
    assert!(folder.is_accessible);
    assert_eq!(add_folder("/home/u/Desktop", &probe(true, None, true), &mut db, 9).unwrap().id, 1);
    assert!(add_folder("/", &probe(true, Some("/"), true), &mut db, 5).is_err());
    assert!(add_folder("/home/link", &probe(true, Some("/"), true), &mut db, 5).is_err());
    assert!(add_folder("/home/u/f.txt", &probe(true, None, false), &mut db, 5).is_err());
    assert!(add_folder("/home/../etc", &probe(true, None, true), &mut db, 5).is_err());
    assert!(add_folder("/missing", &probe(false, None, false), &mut db, 5).is_err());
    assert_eq!(db.list_watched_roots().len(), 1);

    assert_eq!(remove_folder(0, &mut db).unwrap_err().to_response(), "ERR_VALIDATION: Invalid folder id");
    assert_eq!(
        remove_folder(7, &mut db).unwrap_err().to_response(),
        "ERR_NOT_FOUND: Watched folder not found"
    );
    assert_eq!(remove_folder(1, &mut db).unwrap(), "/home/u/Desktop");
    assert!(db.list_watched_roots().is_empty());
    let shown = watched_root_to_folder(
        WatchedRoot { id: 3, path: "/".to_string(), created_at: 0 },
        false,
    );
    assert_eq!(shown.name, "/");
    assert!(!shown.is_accessible);
}

#[test]
fn staging_a_batch_and_leaving_the_stage() {
    let mut db = Database::new();
    add_file(&mut db, "/d/a", 10, None);
    add_file(&mut db, "/d/b", 20, None);
    for (id, t) in [(1, 100), (2, 110)] {
        db.insert_action(
            &NewAction {
                file_id: id,
                action: ActionType::Archive,
                batch_id: Some("archive_1".to_string()),
                src_path: Some(format!("/d/{}", id)),
                dst_path: Some(format!("/arch/{}", id)),
                origin: None,
                note: None,
            },
            t,
        )
        .unwrap();
    }
    let options = StageOptions { cooloff_days: Some(45), note: None };
    assert_eq!(cooloff_days_of(&options), 30);
    assert_eq!(cooloff_days_of(&StageOptions::default()), 7);
    assert_eq!(cooloff_days_of(&StageOptions { cooloff_days: Some(-1), note: None }), 0);
    assert_eq!(stage_expiry(0, 1000), None);
    assert_eq!(stage_expiry(7, 1000), Some(1000 + 7 * 86_400_000));
    assert_eq!(stage_expiry(30, i64::MAX - 5), Some(i64::MAX));

    let result = ArchiveResult {
        batch_id: "archive_1".to_string(),
        files_archived: 2,
        total_bytes: 30,
        duration_ms: 4,
        errors: vec![],
    };
    let outcome = stage_commit(result, Some(999_999), Some("note".to_string()), &mut db).unwrap();
    assert!(outcome.success);
    assert_eq!(outcome.staged_files, 2);
    assert_eq!(outcome.batch_id, Some("archive_1".to_string()));
    assert_eq!(outcome.total_bytes, 30);
    assert_eq!(outcome.expires_at, Some(999_999));

    let staged = list_staged(&None, &db);
    assert_eq!(staged.len(), 2);
    assert_eq!(staged[0].status, "staged");
    assert_eq!(staged[0].staged_at, 100);
    assert_eq!(staged[0].note, Some("note".to_string()));
    assert_eq!(staged[1].cooloff_until, Some(999_999));
    assert_eq!(list_staged(&Some(vec!["STAGED".to_string()]), &db).len(), 2);
    assert_eq!(list_staged(&Some(vec!["restored".to_string(), "bogus".to_string()]), &db).len(), 0);
    assert_eq!(list_staged(&Some(vec![]), &db).len(), 0);

    assert_eq!(restore_staged("archive_1", &db).unwrap(), vec![1, 2]);
    assert_eq!(restore_staged(" ", &db).unwrap_err().to_response(), "ERR_VALIDATION: batch_id cannot be empty");
    assert_eq!(
        restore_staged("nope", &db).unwrap_err().to_response(),
        "ERR_NOT_FOUND: No archived files associated with batch nope"
    );
    finish_staged(&vec![1], StagedStatus::Restored, &mut db);
    assert_eq!(list_staged(&None, &db).len(), 1);
    assert!(!db.get_file_by_id(1).unwrap().is_staged);
    finish_staged(&vec![2], StagedStatus::Emptied, &mut db);
    assert!(list_staged(&None, &db).is_empty());

    let batches = list_undoable_batches(&db);
    assert_eq!(batches.len(), 1);
    assert_eq!(batches[0].batch_id, "archive_1");
    assert_eq!(batches[0].action_type, "archive");
    assert_eq!(batches[0].file_count, 2);
    assert_eq!(batches[0].created_at, 0);
}

#[test]
fn outcomes_and_platform() {
    let a = archive_outcome(ArchiveResult {
        batch_id: "b".to_string(),
        files_archived: 2,
        total_bytes: 9,
        duration_ms: 3,
        errors: vec!["one failed".to_string()],
    });
    assert!(!a.success && !a.dry_run);
    assert_eq!((a.files_processed, a.total_bytes, a.duration_ms), (2, 9, 3));
    let d = delete_outcome(
        DeleteResult {
            batch_id: "b".to_string(),
            files_deleted: 1,
            total_bytes_freed: 4,
            duration_ms: 1,
            errors: vec![],
            trash_path: None,
        },
        true,
    );
    assert!(d.success && d.to_trash);
    assert_eq!(get_platform_info(Platform::MacOs, "macos").open_label, "Open in Finder");
    assert_eq!(get_platform_info(Platform::Windows, "x").os, "windows");
    assert_eq!(get_platform_info(Platform::Other, "freebsd").os, "freebsd");
}

#[test]
fn directory_listing_order() {
    let e = |name: &str, kind: &str| DirectoryEntry {
        name: name.to_string(),
        path: format!("/d/{}", name),
        kind: kind.to_string(),
        size: 0,
        modified: 0,
    };
    let listed = list_directory_entries(&vec![
        e("zeta.txt", "file"),
        e("Beta", "dir"),
        e("alpha.txt", "file"),
        e("alpha", "dir"),
        e("Alpha.txt", "file"),
    ]);
    let names: Vec<&str> = listed.iter().map(|e| e.name.as_str()).collect();
    assert_eq!(names, vec!["alpha", "Beta", "alpha.txt", "Alpha.txt", "zeta.txt"]);
}
