use white_space::db::Database;
use white_space::scanner::active_project::ActiveProjectDetector;
use white_space::scanner::file_walker::FileWalker;
use white_space::scanner::hash::{hash_first_n, hash_full, hashes_fully_at_once};
use white_space::scanner::watcher::{WatchEventKind, WatcherRuntime};
use white_space::scanner::{
    start_scan, RootFacts, ScanRuntime, ScanState, ScanTrigger, Scanner, WalkDecision, WalkEntry,
};

#[test]
fn test_mime_type_detection() {
    let test_files = [
        ("test.txt", "text/plain"),
        ("test.md", "text/markdown"),
        ("test.html", "text/html"),
        ("test.css", "text/css"),
        ("test.js", "application/javascript"),
        ("test.json", "application/json"),
        ("test.pdf", "application/pdf"),
        ("test.jpg", "image/jpeg"),
        ("test.png", "image/png"),
        ("test.mp4", "video/mp4"),
        ("test.mp3", "audio/mpeg"),
        ("test.zip", "application/zip"),
    ];
    for (filename, expected_mime) in &test_files {
        let path = format!("/tmp/root/{}", filename);
        let walker = FileWalker::new();
        let metadata = walker.extract_metadata(&path, 7, None, Some(3), None);
        assert_eq!(metadata.mime_type, Some(expected_mime.to_string()));
        assert_eq!(metadata.parent_dir, "/tmp/root");
        assert_eq!(metadata.size_bytes, 7);
    }
    let walker = FileWalker::new();
    assert_eq!(walker.detect_mime_type("/a/b.JPEG"), Some("image/jpeg".to_string()));
    assert_eq!(walker.detect_mime_type("/a/b.gif"), Some("image/gif".to_string()));
    assert_eq!(walker.detect_mime_type("/a/b.tar"), Some("application/x-tar".to_string()));
    assert_eq!(walker.detect_mime_type("/a/b.tar.gz"), Some("application/gzip".to_string()));
    assert_eq!(walker.detect_mime_type("/a/b.unknown"), None);
    assert_eq!(walker.detect_mime_type("/a/noext"), None);
    assert_eq!(walker.detect_mime_type("/a/.txt"), None);
    assert_eq!(walker.detect_mime_type("/a.txt/b"), None);
}

#[test]
fn test_skip_directories() {
    let walker = FileWalker::new();
    let skip_dirs = [".git", "node_modules", ".DS_Store"];
    for dir in &skip_dirs {
        assert!(walker.should_skip_dir(&format!("/root/{}", dir)));
    }
    assert!(walker.should_skip_dir("/root/Thumbs.db"));
    assert!(walker.should_skip_dir("/root/deep/node_modules/"));
    assert!(!walker.should_skip_dir("/root/src"));
    assert!(!walker.should_skip_dir("/root/.github"));
    assert!(!walker.should_skip_dir("/root/node_modules/inner"));
    assert!(walker.should_skip_file("/root/.DS_Store"));
    assert!(walker.should_skip_file("/root/Thumbs.db"));
    assert!(!walker.should_skip_file("/root/.git"));
    assert!(!walker.should_skip_file("/root/thumbs.db"));
}

#[test]
fn test_active_project_detector() {
    let detector = ActiveProjectDetector::new();
    assert_eq!(detector.detect_keyword_flags("/w/My-Current-Project"), vec!["current", "project"]);
    assert_eq!(detector.detect_keyword_flags("/w/current/plain"), Vec::<String>::new());
    assert!(detector.should_skip_directory("/w/node_modules"));
    assert!(!detector.should_skip_directory("/w/src"));
    let week = 7 * 86_400_000;
    assert!(detector.is_repo_active(1_000_000 - week + 1, 1_000_000));
    assert!(!detector.is_repo_active(1_000_000 - week, 1_000_000));
    let repo = detector.analyze_git_repo("/w/wip-final", 10, 20);
    assert!(repo.is_active);
    assert_eq!(repo.keyword_flags, vec!["wip", "final"]);
    let old = detector.analyze_git_repo("/w/old", 10, 20 + week);
    assert_eq!(detector.analyze_project_activity(&vec![repo, old.clone(), old]), (1, 2));
}

#[test]
fn test_recent_burst_detection() {
    let detector = ActiveProjectDetector::new();
    let burst = detector.detect_recent_burst("/w/dir", 5);
    assert_eq!(burst.modified_count, 5);
    assert!(burst.is_burst);
    assert_eq!(burst.time_window_hours, 72);
    assert!(detector.detect_recent_burst("/w/dir", 3).is_burst);
    assert!(!detector.detect_recent_burst("/w/dir", 2).is_burst);
}

#[test]
fn test_default_scan_roots() {
    let names = ActiveProjectDetector::default_root_names();
    let candidates: Vec<(String, bool)> = names
        .iter()
        .map(|n| (format!("/home/u/{}", n), n == "Desktop" || n == "dev"))
        .collect();
    let roots = ActiveProjectDetector::get_default_scan_roots(&candidates);
    assert!(!roots.is_empty());
    assert_eq!(roots, vec!["/home/u/Desktop", "/home/u/dev"]);
}

#[test]
fn digests_of_known_inputs() {
    assert_eq!(hash_full(&vec![]), "da39a3ee5e6b4b0d3255bfef95601890afd80709");
    assert_eq!(hash_full(&vec![b"hello".to_vec()]), "aaf4c61ddcc5e8a2dabede0f3b482cd9aea9434d");
    assert_eq!(
        hash_full(&vec![b"he".to_vec(), vec![], b"llo".to_vec()]),
        "aaf4c61ddcc5e8a2dabede0f3b482cd9aea9434d"
    );
    assert_eq!(hash_first_n(b"hello world", 5), "aaf4c61ddcc5e8a2dabede0f3b482cd9aea9434d");
    assert_eq!(hash_first_n(b"hello", 262144), "aaf4c61ddcc5e8a2dabede0f3b482cd9aea9434d");
    assert_eq!(hash_first_n(b"hello", 0), "da39a3ee5e6b4b0d3255bfef95601890afd80709");
    assert_ne!(hash_first_n(b"hello", 4), hash_first_n(b"hello", 5));
    assert!(hashes_fully_at_once(4 * 1024 * 1024));
    assert!(!hashes_fully_at_once(4 * 1024 * 1024 + 1));
}

#[test]
fn queue_runs_one_scan_at_a_time() {
    let mut rt = ScanRuntime::new();
    assert_eq!(rt.enqueue_scan_job(vec![], ScanTrigger::Manual), Err("no scan roots provided".to_string()));
    assert_eq!(rt.enqueue_scan_job(vec!["/a".to_string()], ScanTrigger::Manual), Ok(true));
    assert_eq!(rt.enqueue_scan_job(vec!["/b".to_string()], ScanTrigger::Watcher), Ok(true));
    // The same roots again: dropped.
    assert_eq!(rt.enqueue_scan_job(vec!["/a".to_string()], ScanTrigger::Watcher), Ok(false));
    // Another order is another job.
    assert_eq!(
        rt.enqueue_scan_job(vec!["/b".to_string(), "/a".to_string()], ScanTrigger::Manual),
        Ok(true)
    );
    assert_eq!(rt.current_status().state, "idle");

    let job = rt.process_queue(100).unwrap();
    assert_eq!(job.roots, vec!["/a"]);
    assert!(job.trigger.emit_queued());
    assert_eq!(rt.status.state, ScanState::Running);
    assert_eq!(rt.current_status().state, "running");
    assert_eq!(rt.status.started_at, Some(100));
    assert_eq!(rt.status.roots, 1);

    // While the scan runs, asking waits and nothing starts.
    assert!(rt.process_queue(101).is_none());
    assert_eq!(rt.enqueue_scan_job(vec!["/a".to_string()], ScanTrigger::Manual), Ok(true));
    assert!(rt.process_queue(102).is_none());
    assert_eq!(rt.status.started_at, Some(100));
    assert_eq!(rt.queue.len(), 3);

    rt.update_progress(250, 3, 1, Some("/a/x".to_string()));
    assert_eq!(rt.current_status().scanned, 250);
    assert_eq!(rt.current_status().current_path, Some("/a/x".to_string()));
    rt.finalize_status(260, 3, 1, 200);
    assert_eq!(rt.status.state, ScanState::Idle);
    assert_eq!(rt.status.finished_at, Some(200));
    assert_eq!(rt.status.current_path, None);

    let job = rt.process_queue(300).unwrap();
    assert_eq!(job.roots, vec!["/b"]);
    assert_eq!(rt.status.scanned, 0);
    assert_eq!(rt.status.finished_at, None);
    rt.finalize_status_error("boom".to_string(), 400);
    assert_eq!(rt.status.state, ScanState::Idle);
    assert_eq!(rt.status.errors, 1);
    assert_eq!(rt.status.last_error, Some("boom".to_string()));
    assert!(rt.process_queue(500).is_some());
    rt.finalize_status(0, 0, 0, 501);
    assert!(rt.process_queue(502).is_some());
    rt.finalize_status(0, 0, 0, 503);
    assert!(rt.process_queue(504).is_none());
}

#[test]
fn watcher_debounces_per_root() {
    let mut w = WatcherRuntime::new();
    assert!(!w.register_root("/gone", false));
    assert!(w.register_root("/home/u/Desktop", true));
    assert!(w.register_root("/home/u/Downloads", true));
    assert!(!w.register_root("/home/u/Desktop", true));
    let change = vec!["/home/u/Desktop/a.txt".to_string()];

    assert_eq!(w.handle_event(WatchEventKind::Access, &change, 0), Vec::<String>::new());
    assert_eq!(w.handle_event(WatchEventKind::Other, &change, 0), Vec::<String>::new());
    assert_eq!(w.handle_event(WatchEventKind::Create, &change, 1000), vec!["/home/u/Desktop"]);
    // Rapid changes within five seconds: nothing more.
    for t in [1000u64, 1001, 2500, 5999] {
        assert_eq!(w.handle_event(WatchEventKind::Modify, &change, t), Vec::<String>::new());
    }
    // The other root has its own time.
    let other = vec!["/home/u/Downloads/b".to_string(), "/home/u/Desktop/c".to_string()];
    assert_eq!(w.handle_event(WatchEventKind::Remove, &other, 3000), vec!["/home/u/Downloads"]);
    assert_eq!(w.handle_event(WatchEventKind::Any, &change, 6000), vec!["/home/u/Desktop"]);
    // A path outside every root, or beside one.
    let outside = vec!["/home/u/Desktop2/a".to_string(), "/etc/x".to_string()];
    assert_eq!(w.handle_event(WatchEventKind::Create, &outside, 99_000), Vec::<String>::new());
    // The root itself counts.
    let root = vec!["/home/u/Desktop".to_string()];
    assert_eq!(w.handle_event(WatchEventKind::Create, &root, 99_000), vec!["/home/u/Desktop"]);

    assert!(w.unregister_root("/home/u/Desktop"));
    assert!(!w.unregister_root("/home/u/Desktop"));
    assert_eq!(w.handle_event(WatchEventKind::Create, &change, 200_000), Vec::<String>::new());
    assert_eq!(w.roots, vec!["/home/u/Downloads"]);
}

fn facts(path: &str, exists: bool, is_dir: bool) -> RootFacts {
    RootFacts { path: path.to_string(), exists, is_dir }
}

#[test]
fn scan_request_is_checked_and_cleaned() {
    assert!(start_scan(&vec![]).is_err());
    assert_eq!(
        start_scan(&vec![
            facts("/home/u/Desk\u{0}top", true, true),
            facts("/home/u/Docs", true, true),
            facts("/home/u/Desktop", true, true),
        ])
        .unwrap(),
        vec!["/home/u/Desktop", "/home/u/Docs"]
    );
    assert!(start_scan(&vec![facts("/home/u/file.txt", true, false)]).is_err());
    assert!(start_scan(&vec![facts("/home/u/../x", true, true)]).is_err());
    assert!(start_scan(&vec![facts("/", true, true)]).is_err());
    assert!(start_scan(&vec![facts("/missing", false, false)]).is_err());
}

fn read_file(path: &str, size: u64) -> white_space::scanner::file_walker::FileMetadata {
    FileWalker::new().extract_metadata(path, size, Some(1), Some(2), Some(3))
}

#[test]
fn test_scanner_integration() {
    let scanner = Scanner::new();
    let mut db = Database::new();
    let mut session = scanner.begin();
    scanner.begin_root(&mut session);

    let entries = vec![
        WalkEntry::Directory("/root".to_string()),
        WalkEntry::Directory("/root/.git".to_string()),
        WalkEntry::Directory("/root/src".to_string()),
        WalkEntry::File("/root/.DS_Store".to_string()),
        WalkEntry::Symlink("/root/link".to_string()),
        WalkEntry::Failed("permission denied".to_string()),
        WalkEntry::File("/root/a.txt".to_string()),
    ];
    let decisions: Vec<WalkDecision> =
        entries.iter().map(|e| scanner.classify(&mut session, e)).collect();
    assert_eq!(
        decisions,
        vec![
            WalkDecision::Descend,
            WalkDecision::SkipDirectory,
            WalkDecision::Descend,
            WalkDecision::Skip,
            WalkDecision::Skip,
            WalkDecision::Skip,
            WalkDecision::Process,
        ]
    );
    assert_eq!(session.summary.skipped, 4);
    assert_eq!(session.summary.errors, vec!["permission denied"]);

    let due = scanner.process_file(
        &mut session,
        &read_file("/root/a.txt", 10),
        Some("head".to_string()),
        Some("full".to_string()),
        &mut db,
        100,
    );
    assert!(!due);
    assert_eq!(session.summary.counted, 1);
    assert_eq!(session.root_seen, vec!["/root/a.txt"]);
    let stored = db.get_file_by_id(1).unwrap();
    assert_eq!(stored.mime, Some("text/plain".to_string()));
    assert_eq!(stored.sha1, Some("full".to_string()));
    assert_eq!(stored.modified_at, Some(2));

    scanner.finish_root(&session, "/root", &mut db);
    scanner.root_missing(&mut session, "/nowhere");
    let (result, done) = scanner.finish(session, 50, 150, 100);
    assert_eq!(result.counted, 1);
    assert_eq!(result.skipped, 4);
    assert_eq!(result.duration_ms, 100);
    assert_eq!(done.errors, 2);
    assert_eq!(done.error_messages[1], "Root path does not exist: /nowhere");
    assert_eq!(done.started_at, Some(50));
    assert_eq!(done.finished_at, Some(150));
}

#[test]
fn test_incremental_scan() {
    let scanner = Scanner::new();
    let mut db = Database::new();
    // First scan: two files.
    let mut session = scanner.begin();
    scanner.begin_root(&mut session);
    for p in ["/root/a.txt", "/root/b.log"] {
        scanner.process_file(&mut session, &read_file(p, 10), Some("h".to_string()), Some(p.to_string()), &mut db, 100);
    }
    scanner.finish_root(&session, "/root", &mut db);
    assert_eq!(db.get_all_active_files().len(), 2);

    // One file is removed behind the back of the index, then the root is
    // scanned again.
    let mut session = scanner.begin();
    scanner.begin_root(&mut session);
    scanner.process_file(&mut session, &read_file("/root/a.txt", 10), Some("h".to_string()), Some("x".to_string()), &mut db, 200);
    scanner.finish_root(&session, "/root", &mut db);
    let active = db.get_all_active_files();
    assert_eq!(active.len(), 1);
    assert_eq!(active[0].path, "/root/a.txt");
    assert!(db.get_file_by_id(2).unwrap().is_deleted);
    assert_eq!(db.get_file_by_id(1).unwrap().last_seen_at, 200);
}

#[test]
fn progress_is_due_every_250_files() {
    let scanner = Scanner::new();
    let mut db = Database::new();
    let mut session = scanner.begin();
    scanner.begin_root(&mut session);
    let mut due_at = Vec::new();
    for i in 1..=600u64 {
        let due = scanner.process_file(
            &mut session,
            &read_file(&format!("/root/f{}", i), 1),
            None,
            None,
            &mut db,
            1,
        );
        if due {
            due_at.push(i);
        }
    }
    assert_eq!(due_at, vec![250, 500]);
    let p = scanner.progress(&session, Some("/root/f600".to_string()));
    assert_eq!(p.scanned, 600);
    assert_eq!(p.path_sample, Some("/root/f600".to_string()));
}

#[test]
fn large_files_get_full_digests_only_on_collision() {
    let scanner = Scanner::new();
    let mut db = Database::new();
    let mut session = scanner.begin();
    scanner.begin_root(&mut session);
    let big = 5 * 1024 * 1024;
    let files = [
        ("/root/big1", big, "headA"),
        ("/root/big2", big, "headA"),
        ("/root/big3", big, "headB"),
        ("/root/big4", big + 1, "headA"),
        ("/root/big5", big, "headA"),
    ];
    for (p, size, head) in files {
        scanner.process_file(&mut session, &read_file(p, size), Some(head.to_string()), None, &mut db, 1);
    }
    // A small file with its digest is not kept for later.
    scanner.process_file(&mut session, &read_file("/root/small", 3), Some("headA".to_string()), Some("d".to_string()), &mut db, 1);
    let pending = scanner.populate_full_hashes(&session);
    let ids: Vec<i64> = pending.iter().map(|r| r.file_id).collect();
    assert_eq!(ids, vec![1, 2, 5]);
    assert_eq!(pending[0].path, "/root/big1");
    assert_eq!(pending[0].partial_sha1, "headA");

    scanner.record_full_hash(&mut session, &pending[0], &Ok("same".to_string()), &mut db);
    scanner.record_full_hash(&mut session, &pending[1], &Ok("same".to_string()), &mut db);
    scanner.record_full_hash(&mut session, &pending[2], &Err("gone".to_string()), &mut db);
    assert_eq!(db.get_file_by_id(1).unwrap().sha1, Some("same".to_string()));
    assert_eq!(db.get_file_by_id(5).unwrap().sha1, None);
    assert_eq!(session.summary.errors, vec!["Failed to hash /root/big5: gone"]);
    let groups = db.duplicate_groups(None);
    assert_eq!(groups.len(), 1);
    assert_eq!(groups[0].1.len(), 2);
}

#[test]
fn digest_of_a_stream_of_chunks() {
    let mut digest = white_space::scanner::hash::FullHasher::start();
    digest.push_chunk(b"hel");
    digest.push_chunk(b"");
    digest.push_chunk(b"lo");
    assert_eq!(digest.finish_hex(), "aaf4c61ddcc5e8a2dabede0f3b482cd9aea9434d");
    let empty = white_space::scanner::hash::FullHasher::start();
    assert_eq!(empty.finish_hex(), "da39a3ee5e6b4b0d3255bfef95601890afd80709");
}

#[test]
fn a_root_leaves_the_watch_with_its_own_time() {
    let mut w = WatcherRuntime::new();
    assert!(w.register_root("/a", true));
    assert!(w.register_root("/b", true));
    assert!(w.register_root("/c", true));
    assert!(w.is_watching("/b") && !w.is_watching("/x"));
    let change = vec!["/a/f".to_string(), "/c/g".to_string()];
    assert_eq!(w.handle_event(WatchEventKind::Create, &change, 100), vec!["/a", "/c"]);
    // The root in the middle leaves; the others keep their order and their times.
    assert!(w.unregister_root("/b"));
    assert!(!w.unregister_root("/b"));
    assert_eq!(w.roots, vec!["/a", "/c"]);
    assert_eq!(w.last_trigger, vec![Some(100), Some(100)]);
    assert!(w.unregister_root("/a"));
    assert_eq!(w.roots, vec!["/c"]);
    assert_eq!(w.last_trigger, vec![Some(100)]);
    assert_eq!(w.handle_event(WatchEventKind::Create, &change, 200), Vec::<String>::new());
}
