use white_space::commands::requests::{
    empty_staged, list_dir, list_folders, open_finished, open_in_system, open_path_with_system,
    paths_to_stage, paths_to_work_on, requested_roots, rescan_all, rescan_folder, scan_status,
    settle_restored,
};
use white_space::commands::{add_folder, CommandError, PathProbe};
use white_space::db::metrics::MetricLog;
use white_space::db::Database;
use white_space::models::{Metric, NewFile, NewMetric, NewStagedFile, StagedStatus};
use white_space::ops::archive::{ArchiveConfig, ArchiveManager, MoveAttempt};
use white_space::ops::delete::{DeleteAttempt, DeleteManager, DeleteResult, Platform, Removal};
use white_space::ops::error::OpsError;
use white_space::ops::space::{SpaceManager, VolumeReading};
use white_space::ops::undo::{BatchInfo, UndoManager, UndoResult};
use white_space::scanner::active_project::{ActiveProjectDetector, DevRepo};
use white_space::scanner::{start_scan, RootFacts, ScanResult, ScanRuntime, ScanTrigger, Scanner};

fn dir_probe(canonical: Option<&str>) -> PathProbe {
    PathProbe { exists: true, canonical: canonical.map(|c| c.to_string()), is_dir: true }
}

fn entry(db: &mut Database, path: &str) -> i64 {
    db.upsert_file(
        &NewFile {
            path: path.to_string(),
            parent_dir: "/docs".to_string(),
            mime: None,
            size_bytes: 8,
            created_at: None,
            modified_at: None,
            accessed_at: None,
            partial_sha1: None,
            sha1: None,
        },
        1,
    )
    .unwrap()
}

fn texts(items: &[&str]) -> Vec<String> {
    items.iter().map(|s| s.to_string()).collect()
}

#[test]
fn a_scan_of_everything_needs_a_root() {
    assert_eq!(
        rescan_all(vec![]).unwrap_err().to_response(),
        "ERR_VALIDATION: No scan roots configured"
    );
    assert_eq!(rescan_all(texts(&["/a", "/b"])).unwrap(), vec!["/a", "/b"]);
}

#[test]
fn named_roots_go_before_watched_roots() {
    assert_eq!(requested_roots(Some(texts(&["/x"])), texts(&["/a"])).unwrap(), vec!["/x"]);
    assert_eq!(requested_roots(Some(vec![]), texts(&["/a"])).unwrap(), vec!["/a"]);
    assert_eq!(requested_roots(None, texts(&["/a", "/b"])).unwrap(), vec!["/a", "/b"]);
    assert_eq!(
        requested_roots(None, vec![]).unwrap_err().to_response(),
        "ERR_VALIDATION: No scan roots configured"
    );
    assert!(requested_roots(Some(vec![]), vec![]).is_err());
}

#[test]
fn only_a_watched_root_is_scanned_again() {
    let watched = texts(&["/home/u/Desktop", "/home/u/Downloads"]);
    assert_eq!(
        rescan_folder("/home/u/./Desktop", &dir_probe(Some("/home/u/Desktop")), &watched).unwrap(),
        "/home/u/Desktop"
    );
    assert_eq!(
        rescan_folder("  ", &dir_probe(None), &watched).unwrap_err().to_response(),
        "ERR_VALIDATION: Path cannot be empty"
    );
    let file = PathProbe { exists: true, canonical: None, is_dir: false };
    assert_eq!(
        rescan_folder("/home/u/a.txt", &file, &watched).unwrap_err().to_response(),
        "ERR_VALIDATION: Path is not a directory: /home/u/a.txt"
    );
    // A directory inside a watched root is not itself a watched root.
    assert_eq!(
        rescan_folder("/home/u/Desktop/in", &dir_probe(None), &watched).unwrap_err().to_response(),
        "ERR_PERMISSION: Path is not a watched root"
    );
}

#[test]
fn only_directories_under_watched_roots_are_listed() {
    let roots = texts(&["/home/u/Desktop"]);
    assert_eq!(
        list_dir("/home/u/Desktop/in", &dir_probe(None), &roots).unwrap(),
        "/home/u/Desktop/in"
    );
    assert_eq!(list_dir("/home/u/Desktop", &dir_probe(None), &roots).unwrap(), "/home/u/Desktop");
    assert_eq!(
        list_dir("/home/u/Desktop2", &dir_probe(None), &roots).unwrap_err().to_response(),
        "ERR_PERMISSION: Path must be within a watched folder"
    );
    assert_eq!(
        list_dir("", &dir_probe(None), &roots).unwrap_err().to_response(),
        "ERR_VALIDATION: Path cannot be empty"
    );
    let missing = PathProbe { exists: false, canonical: None, is_dir: false };
    assert!(matches!(
        list_dir("/home/u/Desktop/gone", &missing, &roots),
        Err(CommandError::Validation(_))
    ));
}

#[test]
fn watched_folders_are_listed_with_their_names() {
    let mut db = Database::new();
    add_folder("/home/u/Downloads", &dir_probe(None), &mut db, 20).unwrap();
    add_folder("/home/u/Desktop", &dir_probe(None), &mut db, 10).unwrap();
    let listed = list_folders(&db, &texts(&["/home/u/Desktop"]));
    assert_eq!(listed.len(), 2);
    assert_eq!((listed[0].id, listed[0].path.as_str()), (2, "/home/u/Desktop"));
    assert_eq!(listed[0].name, "Desktop");
    assert!(listed[0].is_accessible);
    assert_eq!((listed[1].id, listed[1].name.as_str()), (1, "Downloads"));
    assert!(!listed[1].is_accessible);
}

#[test]
fn adding_a_folder_says_why_it_is_refused() {
    let mut db = Database::new();
    let gone = PathProbe { exists: false, canonical: None, is_dir: false };
    assert_eq!(
        add_folder("/nowhere", &gone, &mut db, 1).unwrap_err().to_response(),
        "ERR_NOT_FOUND: Path does not exist: /nowhere"
    );
    assert_eq!(
        add_folder("/a/../b", &dir_probe(None), &mut db, 1).unwrap_err().to_response(),
        "ERR_VALIDATION: Path traversal not allowed"
    );
    let file = PathProbe { exists: true, canonical: None, is_dir: false };
    assert_eq!(
        add_folder("/a/b.txt", &file, &mut db, 1).unwrap_err().to_response(),
        "ERR_VALIDATION: Path is not a directory: /a/b.txt"
    );
    assert_eq!(
        add_folder("/link", &dir_probe(Some("/")), &mut db, 1).unwrap_err().to_response(),
        "ERR_VALIDATION: Watching the system root is not supported"
    );
    assert!(db.list_watched_roots().is_empty());
    let first = add_folder("/link", &dir_probe(Some("/data")), &mut db, 1).unwrap();
    let again = add_folder("/data", &dir_probe(None), &mut db, 2).unwrap();
    assert_eq!((first.id, first.path.as_str()), (1, "/data"));
    assert_eq!(again.id, 1);
    assert_eq!(db.list_watched_roots().len(), 1);
}

#[test]
fn the_status_of_the_queue_is_shown() {
    let mut runtime = ScanRuntime::new();
    assert_eq!(scan_status(&runtime).state, "idle");
    runtime.enqueue_scan_job(texts(&["/a"]), ScanTrigger::Manual).unwrap();
    assert!(runtime.process_queue(5).is_some());
    let shown = scan_status(&runtime);
    assert_eq!(shown.state, "running");
    assert_eq!(shown.roots, 1);
    assert_eq!(shown.started_at, Some(5));
}

#[test]
fn a_root_that_cannot_be_scanned_says_why() {
    let root = |path: &str, exists: bool, is_dir: bool| RootFacts {
        path: path.to_string(),
        exists,
        is_dir,
    };
    assert_eq!(
        start_scan(&vec![root("/a", true, true), root("/gone", false, false)])
            .unwrap_err()
            .to_response(),
        "ERR_NOT_FOUND: Path does not exist: /gone"
    );
    assert_eq!(
        start_scan(&vec![root("/", true, true)]).unwrap_err().to_response(),
        "ERR_PERMISSION: Cannot scan system root"
    );
    assert_eq!(
        start_scan(&vec![root("/a/../b", true, true)]).unwrap_err().to_response(),
        "ERR_VALIDATION: Path traversal not allowed"
    );
    assert_eq!(
        start_scan(&vec![root("/a/f.txt", true, false)]).unwrap_err().to_response(),
        "ERR_VALIDATION: Path is not a directory: /a/f.txt"
    );
    assert_eq!(
        start_scan(&vec![root("/a", true, true), root("/b", true, true), root("/a", true, true)])
            .unwrap(),
        vec!["/a", "/b"]
    );
}

#[test]
fn files_are_checked_before_they_are_worked_on() {
    let mut db = Database::new();
    entry(&mut db, "/docs/a.txt");
    entry(&mut db, "/docs/../b.txt");
    entry(&mut db, "relative.txt");
    let present = texts(&["/docs/a.txt"]);
    assert_eq!(paths_to_work_on(&[1], &db, &present).unwrap(), vec!["/docs/a.txt"]);
    // A relative path is not looked for on disk.
    assert_eq!(paths_to_work_on(&[3, 1], &db, &present).unwrap(), vec!["relative.txt", "/docs/a.txt"]);
    assert_eq!(
        paths_to_work_on(&[1, 2], &db, &present).unwrap_err().to_response(),
        "ERR_VALIDATION: Validation error: Path traversal not allowed"
    );
    // The first file that fails decides.
    assert_eq!(
        paths_to_work_on(&[7, 2], &db, &present).unwrap_err().to_response(),
        "ERR_NOT_FOUND: File with ID 7 not found"
    );
    assert_eq!(
        paths_to_work_on(&[1, 0], &db, &present).unwrap_err().to_response(),
        "ERR_VALIDATION: Invalid file ID"
    );
    let many: Vec<i64> = (1..=1001).collect();
    assert_eq!(
        paths_to_work_on(&many, &db, &present).unwrap_err().to_response(),
        "ERR_VALIDATION: Too many files selected (max 1000)"
    );
}

#[test]
fn files_are_staged_once_each() {
    let mut db = Database::new();
    entry(&mut db, "/docs/a.txt");
    entry(&mut db, "/docs/b.txt");
    entry(&mut db, "/docs/c.txt");
    let present = texts(&["/docs/a.txt", "/docs/b.txt"]);
    let (ids, paths) = paths_to_stage(&[2, 1, 2, 1], &db, &present).unwrap();
    assert_eq!(ids, vec![2, 1]);
    assert_eq!(paths, vec!["/docs/b.txt", "/docs/a.txt"]);
    assert_eq!(
        paths_to_stage(&[1, 3], &db, &present).unwrap_err().to_response(),
        "ERR_NOT_FOUND: File with ID 3 not found on disk"
    );
    assert_eq!(
        paths_to_stage(&[1, 9], &db, &present).unwrap_err().to_response(),
        "ERR_NOT_FOUND: File with ID 9 not found"
    );
    assert_eq!(
        paths_to_stage(&[], &db, &present).unwrap_err().to_response(),
        "ERR_VALIDATION: No file IDs provided"
    );
}

#[test]
fn emptying_takes_files_off_the_stage() {
    let mut db = Database::new();
    let id = entry(&mut db, "/docs/a.txt");
    db.stage_files(&vec![NewStagedFile {
        file_id: id,
        staged_at: 5,
        expires_at: None,
        batch_id: Some("b".to_string()),
        status: StagedStatus::Staged,
        note: None,
    }])
    .unwrap();
    assert!(db.get_file_by_id(id).unwrap().is_staged);
    let result = DeleteResult {
        batch_id: "delete_1".to_string(),
        files_deleted: 1,
        total_bytes_freed: 8,
        duration_ms: 3,
        errors: vec![],
        trash_path: None,
    };
    let failed = vec![DeleteAttempt {
        source: "/docs/a.txt".to_string(),
        outcome: Err(OpsError::DeleteError("File does not exist: /docs/a.txt".to_string())),
    }];
    // A file that was not deleted stays on the stage.
    empty_staged(&vec![id], &failed, result.clone(), true, &mut db);
    assert!(db.get_file_by_id(id).unwrap().is_staged);
    let gone = vec![DeleteAttempt {
        source: "/docs/a.txt".to_string(),
        outcome: Ok(Removal { deleted_path: "/t/a.txt".to_string(), bytes: 8, trash: None }),
    }];
    let outcome = empty_staged(&vec![id], &gone, result, true, &mut db);
    assert!(outcome.success);
    assert_eq!((outcome.files_processed, outcome.total_bytes_freed), (1, 8));
    assert!(outcome.to_trash);
    assert!(!db.get_file_by_id(id).unwrap().is_staged);
    assert!(db.list_staged_with_files(None).is_empty());
}

#[test]
fn a_restore_that_was_rolled_back_leaves_files_staged() {
    let mut db = Database::new();
    let id = entry(&mut db, "/docs/a.txt");
    db.stage_files(&vec![NewStagedFile {
        file_id: id,
        staged_at: 5,
        expires_at: None,
        batch_id: Some("b".to_string()),
        status: StagedStatus::Staged,
        note: None,
    }])
    .unwrap();
    let mut undo = UndoResult {
        batch_id: "b".to_string(),
        actions_reversed: 0,
        files_restored: 0,
        duration_ms: 1,
        errors: vec!["disk full".to_string()],
        rollback_performed: true,
    };
    settle_restored(&vec![id], &undo, &mut db);
    assert!(db.get_file_by_id(id).unwrap().is_staged);
    undo.rollback_performed = false;
    settle_restored(&vec![id], &undo, &mut db);
    assert!(!db.get_file_by_id(id).unwrap().is_staged);
}

#[test]
fn an_archive_run_records_what_moved_and_reports_the_rest() {
    let mut db = Database::new();
    entry(&mut db, "/docs/a.txt");
    entry(&mut db, "/docs/b.txt");
    let manager =
        ArchiveManager::new(ArchiveConfig::default_for(&Some("/home/u".to_string()), false));
    let moves = vec![
        MoveAttempt { source: "/docs/a.txt".to_string(), outcome: Ok(("/arch/a.txt".to_string(), 8)) },
        MoveAttempt {
            source: "/docs/b.txt".to_string(),
            outcome: Err(OpsError::ArchiveError("Failed to copy file: disk full".to_string())),
        },
        MoveAttempt { source: "/docs/x.txt".to_string(), outcome: Ok(("/arch/x.txt".to_string(), 4)) },
    ];
    let result = manager.archive_files(&moves, "archive_7", &mut db, 7, 12);
    assert_eq!(result.batch_id, "archive_7");
    assert_eq!((result.files_archived, result.total_bytes, result.duration_ms), (1, 8, 12));
    assert_eq!(
        result.errors,
        vec![
            "Failed to archive /docs/b.txt: Archive Error: Failed to copy file: disk full",
            "Failed to archive /docs/x.txt: Archive Error: File not found in database: /docs/x.txt",
        ]
    );
    assert_eq!(db.get_file_by_id(1).unwrap().path, "/arch/a.txt");
    assert_eq!(db.get_file_by_id(2).unwrap().path, "/docs/b.txt");
    let actions = db.get_actions_by_batch_id("archive_7");
    assert_eq!(actions.len(), 1);
    assert_eq!(actions[0].src_path.as_deref(), Some("/docs/a.txt"));
    assert_eq!(actions[0].dst_path.as_deref(), Some("/arch/a.txt"));
}

#[test]
fn a_delete_run_records_what_went_and_reports_the_rest() {
    let mut db = Database::new();
    entry(&mut db, "/docs/a.txt");
    entry(&mut db, "/docs/b.txt");
    let manager = DeleteManager::new();
    let attempts = vec![
        DeleteAttempt {
            source: "/docs/a.txt".to_string(),
            outcome: Ok(Removal {
                deleted_path: "/home/u/.Trash/a.txt".to_string(),
                bytes: 8,
                trash: Some("/home/u/.Trash".to_string()),
            }),
        },
        DeleteAttempt {
            source: "/docs/b.txt".to_string(),
            outcome: Err(OpsError::DeleteError("File does not exist: /docs/b.txt".to_string())),
        },
        DeleteAttempt {
            source: "/docs/b.txt".to_string(),
            outcome: Ok(Removal { deleted_path: "/docs/b.txt".to_string(), bytes: 2, trash: None }),
        },
    ];
    let result = manager.delete_files(&attempts, "delete_9", &mut db, 9, 1);
    assert_eq!((result.files_deleted, result.total_bytes_freed), (2, 10));
    assert_eq!(result.trash_path.as_deref(), Some("/home/u/.Trash"));
    assert_eq!(
        result.errors,
        vec!["Failed to delete /docs/b.txt: Delete Error: File does not exist: /docs/b.txt"]
    );
    let actions = db.get_actions_by_batch_id("delete_9");
    assert_eq!(actions.len(), 2);
    assert_eq!(actions[0].dst_path.as_deref(), Some("/home/u/.Trash/a.txt"));
    // A file that is removed for good is recorded as going to its own place.
    assert_eq!(actions[1].dst_path.as_deref(), Some("/docs/b.txt"));
    // The entries keep their paths.
    assert_eq!(db.get_file_by_id(1).unwrap().path, "/docs/a.txt");
}

#[test]
fn the_newest_batch_that_can_be_undone_is_undone() {
    let mut db = Database::new();
    entry(&mut db, "/docs/a.txt");
    entry(&mut db, "/docs/b.txt");
    let archiver =
        ArchiveManager::new(ArchiveConfig::default_for(&Some("/home/u".to_string()), false));
    let first = vec![MoveAttempt {
        source: "/docs/a.txt".to_string(),
        outcome: Ok(("/arch/a.txt".to_string(), 8)),
    }];
    let second = vec![MoveAttempt {
        source: "/docs/b.txt".to_string(),
        outcome: Ok(("/arch/b.txt".to_string(), 8)),
    }];
    archiver.archive_files(&first, "archive_1", &mut db, 100, 0);
    archiver.archive_files(&second, "archive_2", &mut db, 200, 0);
    let undo = UndoManager::new();
    let mut present = texts(&["/arch/a.txt", "/arch/b.txt"]);
    let (batch, plan) = undo.undo_last(&db, &present).unwrap();
    assert_eq!(batch.batch_id, "archive_2");
    assert!(plan.failure.is_none());
    let done = undo.complete_undo(&batch, &plan, None, &mut db, 300, 1);
    assert!(!done.rollback_performed && done.errors.is_empty());
    present = texts(&["/arch/a.txt", "/docs/b.txt"]);
    // The batch that was undone is out of the way; the one before it is next.
    let (batch, plan) = undo.undo_last(&db, &present).unwrap();
    assert_eq!(batch.batch_id, "archive_1");
    undo.complete_undo(&batch, &plan, None, &mut db, 400, 1);
    let nothing_left = undo.undo_last(&db, &texts(&["/docs/a.txt", "/docs/b.txt"]));
    assert_eq!(nothing_left.unwrap_err().to_string(), "Undo Error: No batches found");
}

#[test]
fn a_preview_has_a_line_for_each_action_with_both_paths() {
    let mut db = Database::new();
    entry(&mut db, "/docs/a.txt");
    let archiver =
        ArchiveManager::new(ArchiveConfig::default_for(&Some("/home/u".to_string()), false));
    let moves = vec![MoveAttempt {
        source: "/docs/a.txt".to_string(),
        outcome: Ok(("/arch/a.txt".to_string(), 8)),
    }];
    archiver.archive_files(&moves, "archive_1", &mut db, 100, 0);
    let undo = UndoManager::new();
    let batch: BatchInfo = undo.get_batch_by_id("archive_1", &db).unwrap();
    assert_eq!(undo.get_restore_preview(&batch), vec!["Restore /arch/a.txt from archive"]);
    let mut without_source = batch.clone();
    without_source.actions[0].src_path = None;
    assert!(undo.get_restore_preview(&without_source).is_empty());
}

#[test]
fn entries_that_are_no_longer_there_are_marked() {
    let mut db = Database::new();
    entry(&mut db, "/docs/a.txt");
    entry(&mut db, "/docs/b.txt");
    entry(&mut db, "/other/c.txt");
    assert_eq!(db.mark_missing_as_deleted(&texts(&["/docs/b.txt"])), 2);
    assert!(db.get_file_by_id(1).unwrap().is_deleted);
    assert!(!db.get_file_by_id(2).unwrap().is_deleted);
    assert!(db.get_file_by_id(3).unwrap().is_deleted);
    // Entries that were marked before are counted again.
    assert_eq!(db.mark_missing_as_deleted(&vec![]), 3);
    assert_eq!(db.get_all_active_files().len(), 0);
}

#[test]
fn metrics_are_appended_in_order() {
    let mut log = MetricLog::new();
    let point = NewMetric {
        metric: "files_counted".to_string(),
        value_milli: 2500,
        context: Some("scan".to_string()),
    };
    assert_eq!(log.insert_metric(&point, 9), Ok(1));
    assert_eq!(log.insert_metric(&point, 10), Ok(2));
    let points = log.all_points();
    assert_eq!(points.len(), 2);
    assert_eq!((points[1].id, points[1].value_milli, points[1].created_at), (Some(2), 2500, 10));
    assert_eq!(points[0].metric, "files_counted");
    // A series is taken back as it was given out, if its identifiers ascend.
    let again = MetricLog::from_points(points.clone()).unwrap();
    assert_eq!(again.all_points().len(), 2);
    let mut twisted: Vec<Metric> = points;
    twisted.swap(0, 1);
    assert!(MetricLog::from_points(twisted).is_none());
}

#[test]
fn a_scan_notes_how_fast_it_was() {
    let scanner = Scanner::new();
    let mut log = MetricLog::new();
    let result = ScanResult { counted: 500, skipped: 3, duration_ms: 2000, errors: vec![] };
    scanner.record_performance_metrics(&result, 2000, &mut log, 77);
    let points = log.all_points();
    let shown: Vec<(&str, i64, Option<&str>)> =
        points.iter().map(|p| (p.metric.as_str(), p.value_milli, p.context.as_deref())).collect();
    assert_eq!(
        shown,
        vec![
            ("scan_duration_ms", 2_000_000, Some("performance")),
            ("files_counted", 500_000, Some("scan")),
            ("files_skipped", 3_000, Some("scan")),
            ("files_per_second", 250_000, Some("performance")),
            ("performance_target_met", 1000, Some("performance")),
        ]
    );
    assert!(points.iter().all(|p| p.created_at == 77));
    let mut slow = MetricLog::new();
    scanner.record_performance_metrics(&result, 90_001, &mut slow, 1);
    assert_eq!(slow.all_points()[4].value_milli, 0);
    // 500 files in 90.001 s: 5.555 files for each second, rounded down.
    assert_eq!(slow.all_points()[3].value_milli, 5555);
    let mut none = MetricLog::new();
    scanner.record_performance_metrics(&result, 0, &mut none, 1);
    assert_eq!(none.all_points()[3].value_milli, 0);
}

#[test]
fn a_scan_notes_the_repositories() {
    let detector = ActiveProjectDetector::new();
    let now = 1_000_000_000_000;
    let repos: Vec<DevRepo> = vec![
        detector.analyze_git_repo("/code/my-Project", now - 1000, now),
        detector.analyze_git_repo("/code/old", now - 8 * 86_400_000, now),
        detector.analyze_git_repo("/code/wip-project", now, now),
    ];
    assert_eq!(detector.analyze_project_activity(&repos), (2, 1));
    assert_eq!(detector.count_flagged(&repos, "project"), 2);
    assert_eq!(detector.count_flagged(&repos, "wip"), 1);
    assert_eq!(detector.count_flagged(&repos, "final"), 0);
    let mut log = MetricLog::new();
    Scanner::new().record_project_metrics(&repos, &mut log, 5);
    let shown: Vec<(String, i64)> =
        log.all_points().into_iter().map(|p| (p.metric, p.value_milli)).collect();
    assert_eq!(
        shown,
        vec![
            ("project_active".to_string(), 2000),
            ("project_inactive".to_string(), 1000),
            ("total_dev_repos".to_string(), 3000),
        ]
    );
}

#[test]
fn the_free_share_of_a_volume() {
    let space = SpaceManager::new();
    let info = space.get_space_info(250, 1000);
    assert_eq!((info.total_bytes, info.available_bytes, info.used_bytes), (1000, 250, 750));
    assert_eq!(info.free_hundredths, 2500);
    assert_eq!(space.get_space_info(1, 3).free_hundredths, 3333);
    assert_eq!(space.get_space_info(5, 0).free_hundredths, 0);
    assert_eq!(space.get_space_info(5, 0).used_bytes, 0);
    let checks = space.check_space_requirements(
        &vec![
            VolumeReading { path: "/a".to_string(), available_bytes: 100, total_bytes: 400 },
            VolumeReading { path: "/b".to_string(), available_bytes: 99, total_bytes: 99 },
        ],
        100,
    );
    assert_eq!(checks.len(), 2);
    assert!(checks[0].sufficient && !checks[1].sufficient);
    assert_eq!((checks[0].free_hundredths, checks[1].free_hundredths), (2500, 10000));
    assert_eq!(checks[1].path, "/b");
}

#[test]
fn free_space_is_read_where_the_system_gives_it() {
    let space = SpaceManager::new();
    assert_eq!(space.get_available_space(Platform::Linux, &Ok(42)).unwrap(), 42);
    assert_eq!(
        space.get_available_space(Platform::MacOs, &Err("os error 2".to_string())).unwrap_err().to_string(),
        "Space Error: Failed to read metadata: os error 2"
    );
    assert_eq!(
        space.get_available_space(Platform::Other, &Ok(42)).unwrap_err().to_string(),
        "Space Error: Unsupported platform for space checking"
    );
}

#[test]
fn a_path_is_shown_by_the_file_manager_of_the_system() {
    let roots = texts(&["/home/u/Desktop"]);
    let file = PathProbe {
        exists: true,
        canonical: Some("/home/u/Desktop/in/a.png".to_string()),
        is_dir: false,
    };
    let shown = |platform, reveal| {
        let c = open_in_system("/home/u/Desktop/in/./a.png", &file, true, reveal, &roots, platform)
            .unwrap();
        (c.program, c.args)
    };
    assert_eq!(
        shown(Platform::Windows, None),
        ("explorer".to_string(), texts(&["/select,\\home\\u\\Desktop\\in\\a.png"]))
    );
    assert_eq!(
        shown(Platform::Windows, Some(false)),
        ("explorer".to_string(), texts(&["\\home\\u\\Desktop\\in"]))
    );
    assert_eq!(
        shown(Platform::MacOs, None),
        ("open".to_string(), texts(&["-R", "/home/u/Desktop/in/a.png"]))
    );
    assert_eq!(shown(Platform::MacOs, Some(false)), ("open".to_string(), texts(&["/home/u/Desktop/in"])));
    assert_eq!(shown(Platform::Linux, None), ("xdg-open".to_string(), texts(&["/home/u/Desktop/in"])));
    assert_eq!(
        open_in_system("/x", &file, true, None, &roots, Platform::Other).unwrap_err().to_response(),
        "ERR_INTERNAL: Unsupported platform for open_in_system"
    );
    // A directory is opened itself.
    let opened = open_path_with_system(Platform::Linux, "/home/u/Desktop", false, true).unwrap();
    assert_eq!(opened.args, vec!["/home/u/Desktop"]);
    // What is outside every watched folder is not shown.
    let outside = PathProbe { exists: true, canonical: Some("/etc/passwd".to_string()), is_dir: false };
    assert_eq!(
        open_in_system("/etc/passwd", &outside, true, None, &roots, Platform::Linux)
            .unwrap_err()
            .to_response(),
        "ERR_PERMISSION: Path must be within a watched folder"
    );
    let gone = PathProbe { exists: false, canonical: None, is_dir: false };
    assert_eq!(
        open_in_system("/home/u/Desktop/x", &gone, false, None, &roots, Platform::Linux)
            .unwrap_err()
            .to_response(),
        "ERR_NOT_FOUND: Path not found: /home/u/Desktop/x"
    );
    assert_eq!(
        open_in_system(" ", &gone, false, None, &roots, Platform::Linux).unwrap_err().to_response(),
        "ERR_VALIDATION: Path cannot be empty"
    );
    assert!(open_finished(Platform::Linux, true, Some(0)).is_ok());
    assert!(open_finished(Platform::Windows, false, Some(1)).is_ok());
    assert_eq!(
        open_finished(Platform::Windows, false, Some(2)).unwrap_err().to_response(),
        "ERR_FILE_SYSTEM: Explorer returned an error"
    );
    assert_eq!(
        open_finished(Platform::Linux, false, Some(1)).unwrap_err().to_response(),
        "ERR_FILE_SYSTEM: xdg-open returned an error"
    );
    assert_eq!(
        open_finished(Platform::MacOs, false, None).unwrap_err().to_response(),
        "ERR_FILE_SYSTEM: open returned an error"
    );
}
