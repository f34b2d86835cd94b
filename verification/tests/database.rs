use white_space::db::{Database, StoreError};
use white_space::models::{
    ActionType, File, NewAction, NewFile, NewStagedFile, StagedStatus,
};

fn new_file(path: &str, size: u64, sha1: Option<&str>) -> NewFile {
    NewFile {
        path: path.to_string(),
        parent_dir: "/test".to_string(),
        mime: Some("text/plain".to_string()),
        size_bytes: size,
        created_at: Some(5),
        modified_at: Some(6),
        accessed_at: None,
        partial_sha1: Some("head".to_string()),
        sha1: sha1.map(|s| s.to_string()),
    }
}

fn action(file_id: i64, kind: ActionType, batch: &str, src: &str, dst: &str) -> NewAction {
    NewAction {
        file_id,
        action: kind,
        batch_id: Some(batch.to_string()),
        src_path: Some(src.to_string()),
        dst_path: Some(dst.to_string()),
        origin: None,
        note: None,
    }
}

#[test]
fn upsert_inserts_then_refreshes() {
    let mut db = Database::new();
    let id = db.upsert_file(&new_file("/r/a.txt", 10, Some("d1")), 100).unwrap();
    assert_eq!(id, 1);
    let f = db.get_file_by_id(1).unwrap();
    assert_eq!(f.first_seen_at, 100);
    assert_eq!(f.last_seen_at, 100);
    assert_eq!(f.created_at, 5);
    assert!(!f.is_deleted && !f.is_staged);

    // A refresh without full digest keeps the recorded one.
    let mut again = new_file("/r/a.txt", 20, None);
    again.partial_sha1 = None;
    let id2 = db.upsert_file(&again, 200).unwrap();
    assert_eq!(id2, 1);
    let f = db.get_file_by_id(1).unwrap();
    assert_eq!(f.size_bytes, 20);
    assert_eq!(f.sha1, Some("d1".to_string()));
    assert_eq!(f.partial_sha1, None);
    assert_eq!(f.first_seen_at, 100);
    assert_eq!(f.last_seen_at, 200);
    assert_eq!(db.get_all_active_files().len(), 1);
    assert_eq!(db.get_file_id_by_path("/r/a.txt"), Some(1));
    assert_eq!(db.get_file_id_by_path("/r/b.txt"), None);
}

#[test]
fn upsert_twice_changes_only_last_seen() {
    let mut db = Database::new();
    let n = new_file("/r/a.txt", 10, Some("d1"));
    db.upsert_file(&n, 100).unwrap();
    let first = db.get_file_by_id(1).unwrap();
    db.upsert_file(&n, 250).unwrap();
    let second = db.get_file_by_id(1).unwrap();
    assert_eq!(second.last_seen_at, 250);
    assert_eq!(second.path, first.path);
    assert_eq!(second.parent_dir, first.parent_dir);
    assert_eq!(second.mime, first.mime);
    assert_eq!(second.size_bytes, first.size_bytes);
    assert_eq!(second.created_at, first.created_at);
    assert_eq!(second.modified_at, first.modified_at);
    assert_eq!(second.sha1, first.sha1);
    assert_eq!(second.partial_sha1, first.partial_sha1);
    assert_eq!(second.first_seen_at, first.first_seen_at);
    assert_eq!(second.is_deleted, first.is_deleted);
    assert_eq!(second.is_staged, first.is_staged);
    assert_eq!(db.get_all_active_files().len(), 1);
}

#[test]
fn last_seen_never_goes_back() {
    let mut db = Database::new();
    let n = new_file("/r/a.txt", 10, None);
    db.upsert_file(&n, 300).unwrap();
    db.upsert_file(&n, 200).unwrap();
    let f = db.get_file_by_id(1).unwrap();
    assert_eq!(f.last_seen_at, 300);
    assert!(f.last_seen_at >= f.first_seen_at);
}

#[test]
fn reconcile_marks_unseen_under_root_only() {
    let mut db = Database::new();
    db.upsert_file(&new_file("/root/keep.txt", 1, None), 1).unwrap();
    db.upsert_file(&new_file("/root/gone.txt", 1, None), 1).unwrap();
    db.upsert_file(&new_file("/rootless/other.txt", 1, None), 1).unwrap();
    db.upsert_file(&new_file("/elsewhere/x.txt", 1, None), 1).unwrap();
    db.stage_files(&vec![NewStagedFile {
        file_id: 2,
        staged_at: 10,
        expires_at: Some(20),
        batch_id: None,
        status: StagedStatus::Staged,
        note: None,
    }])
    .unwrap();
    assert!(db.get_file_by_id(2).unwrap().is_staged);

    db.mark_missing_for_root("/root", &vec!["/root/keep.txt".to_string()]);

    assert!(!db.get_file_by_id(1).unwrap().is_deleted);
    let gone = db.get_file_by_id(2).unwrap();
    assert!(gone.is_deleted);
    assert!(!gone.is_staged);
    assert_eq!(gone.cooloff_until, None);
    assert!(db.list_staged_with_files(None).is_empty());
    // A sibling whose name merely starts like the root is not under it.
    assert!(!db.get_file_by_id(3).unwrap().is_deleted);
    assert!(!db.get_file_by_id(4).unwrap().is_deleted);
    assert_eq!(db.get_all_active_files().len(), 3);

    // Seen again: the entry is live again.
    db.upsert_file(&new_file("/root/gone.txt", 1, None), 50).unwrap();
    assert!(!db.get_file_by_id(2).unwrap().is_deleted);
}

#[test]
fn reconcile_with_backslash_root() {
    let mut db = Database::new();
    db.upsert_file(&new_file("C:\\data\\a.txt", 1, None), 1).unwrap();
    db.upsert_file(&new_file("C:\\database\\b.txt", 1, None), 1).unwrap();
    db.mark_missing_for_root("C:\\data", &vec![]);
    assert!(db.get_file_by_id(1).unwrap().is_deleted);
    assert!(!db.get_file_by_id(2).unwrap().is_deleted);
}

#[test]
fn active_files_latest_first() {
    let mut db = Database::new();
    db.upsert_file(&new_file("/r/a", 1, None), 10).unwrap();
    db.upsert_file(&new_file("/r/b", 1, None), 30).unwrap();
    db.upsert_file(&new_file("/r/c", 1, None), 20).unwrap();
    db.upsert_file(&new_file("/r/d", 1, None), 30).unwrap();
    let paths: Vec<String> = db.get_all_active_files().into_iter().map(|f| f.path).collect();
    assert_eq!(paths, vec!["/r/b", "/r/d", "/r/c", "/r/a"]);
    assert_eq!(db.get_total_file_size(), 4);
    assert_eq!(db.by_dir("/test").len(), 4);
    assert_eq!(db.by_dir("/nope").len(), 0);
}

#[test]
fn candidate_files_largest_first() {
    let mut db = Database::new();
    db.upsert_file(&new_file("/r/a", 5, None), 10).unwrap();
    db.upsert_file(&new_file("/r/b", 9, None), 30).unwrap();
    db.upsert_file(&new_file("/r/c", 9, None), 20).unwrap();
    let paths: Vec<String> = db.get_candidate_files(2).into_iter().map(|f| f.path).collect();
    assert_eq!(paths, vec!["/r/c", "/r/b"]);
    assert_eq!(db.get_candidate_files(10).len(), 3);
}

#[test]
fn duplicate_groups_are_sound_and_ordered() {
    let mut db = Database::new();
    db.upsert_file(&new_file("/r/x1", 5, Some("h1")), 1).unwrap();
    db.upsert_file(&new_file("/r/y1", 7, Some("h2")), 1).unwrap();
    db.upsert_file(&new_file("/r/x2", 9, Some("h1")), 1).unwrap();
    db.upsert_file(&new_file("/r/y2", 7, Some("h2")), 1).unwrap();
    db.upsert_file(&new_file("/r/y3", 8, Some("h2")), 1).unwrap();
    db.upsert_file(&new_file("/r/single", 8, Some("h3")), 1).unwrap();
    db.upsert_file(&new_file("/r/nodigest", 8, None), 1).unwrap();
    db.upsert_file(&new_file("/r/empty", 8, Some("")), 1).unwrap();
    db.upsert_file(&new_file("/r/empty2", 8, Some("")), 1).unwrap();

    let groups = db.duplicate_groups(None);
    assert_eq!(groups.len(), 2);
    assert_eq!(groups[0].0, "h2");
    assert_eq!(groups[1].0, "h1");
    let sizes: Vec<u64> = groups[0].1.iter().map(|f| f.size_bytes).collect();
    assert_eq!(sizes, vec![8, 7, 7]);
    let paths: Vec<&str> = groups[0].1.iter().map(|f| f.path.as_str()).collect();
    assert_eq!(paths, vec!["/r/y3", "/r/y1", "/r/y2"]);
    for (digest, files) in &groups {
        assert!(files.len() >= 2);
        for f in files {
            assert_eq!(f.sha1.as_ref().unwrap(), digest);
            assert!(!f.is_deleted);
        }
    }
    assert_eq!(db.duplicate_groups(Some(1)).len(), 1);
    assert_eq!(db.duplicate_groups(Some(0)).len(), 0);

    // A file that is gone no longer counts.
    db.mark_missing_for_root("/r", &vec!["/r/x1".to_string(), "/r/y1".to_string(), "/r/y2".to_string()]);
    let groups = db.duplicate_groups(None);
    assert_eq!(groups.len(), 1);
    assert_eq!(groups[0].0, "h2");
    assert_eq!(groups[0].1.len(), 2);
}

#[test]
fn hashes_update_only_where_given() {
    let mut db = Database::new();
    db.upsert_file(&new_file("/r/a", 5, Some("full")), 1).unwrap();
    db.update_file_hashes(1, &None, &Some("newer".to_string()));
    let f = db.get_file_by_id(1).unwrap();
    assert_eq!(f.partial_sha1, Some("head".to_string()));
    assert_eq!(f.sha1, Some("newer".to_string()));
    db.update_file_hashes(99, &Some("x".to_string()), &None);
    assert_eq!(db.get_file_by_id(1).unwrap().partial_sha1, Some("head".to_string()));
}

#[test]
fn file_location_is_unique() {
    let mut db = Database::new();
    db.upsert_file(&new_file("/r/a", 5, None), 1).unwrap();
    db.upsert_file(&new_file("/r/b", 5, None), 1).unwrap();
    assert_eq!(db.update_file_location(1, "/r/b"), Err(StoreError::UniqueViolation));
    assert_eq!(db.get_file_by_id(1).unwrap().path, "/r/a");
    assert_eq!(db.update_file_location(1, "/archive/2024-01-01/a"), Ok(()));
    let f = db.get_file_by_id(1).unwrap();
    assert_eq!(f.path, "/archive/2024-01-01/a");
    assert_eq!(f.parent_dir, "/archive/2024-01-01");
    assert_eq!(db.update_file_location(1, "/archive/2024-01-01/a"), Ok(()));
    assert_eq!(db.update_file_location(77, "/r/b"), Ok(()));
}

#[test]
fn actions_and_batches() {
    let mut db = Database::new();
    db.upsert_file(&new_file("/r/a", 5, None), 1).unwrap();
    db.upsert_file(&new_file("/r/b", 5, None), 1).unwrap();
    assert_eq!(db.get_latest_batch_id(), None);
    assert!(db.latest_action(1).is_none());
    let a1 = db.insert_action(&action(1, ActionType::Archive, "b1", "/r/a", "/x/a"), 100).unwrap();
    let a2 = db.insert_action(&action(2, ActionType::Archive, "b1", "/r/b", "/x/b"), 90).unwrap();
    let a3 = db.insert_action(&action(2, ActionType::Delete, "b2", "/x/b", "/t/b"), 200).unwrap();
    assert_eq!((a1, a2, a3), (1, 2, 3));

    let batch = db.get_actions_by_batch_id("b1");
    let ids: Vec<i64> = batch.iter().map(|a| a.id.unwrap()).collect();
    assert_eq!(ids, vec![2, 1]);
    assert!(db.get_actions_by_batch_id("nope").is_empty());
    assert_eq!(db.get_latest_batch_id(), Some("b2".to_string()));
    assert_eq!(db.latest_action(2).unwrap().id, Some(3));
    assert_eq!(db.latest_action(1).unwrap().id, Some(1));

    assert_eq!(db.get_undoable_batches(), vec!["b2".to_string(), "b1".to_string()]);

    // A restore of file 2 after its delete: batch b2 can no longer be
    // undone, and neither can b1, which archived file 2.
    db.insert_action(&action(2, ActionType::Restore, "b2", "/t/b", "/x/b"), 300).unwrap();
    assert_eq!(db.get_undoable_batches(), Vec::<String>::new());

    let deleted = db.get_files_deleted_in_period(200, 200);
    assert_eq!(deleted.len(), 1);
    assert_eq!(deleted[0].file_id, 2);
    assert!(db.get_files_deleted_in_period(201, 400).is_empty());
    let archived = db.get_files_archived_in_period(0, 100);
    let paths: Vec<String> = archived.into_iter().map(|f| f.path).collect();
    assert_eq!(paths, vec!["/r/a", "/r/b"]);
}

#[test]
fn undoable_batch_needs_no_later_restore() {
    let mut db = Database::new();
    db.upsert_file(&new_file("/r/a", 5, None), 1).unwrap();
    db.upsert_file(&new_file("/r/b", 5, None), 1).unwrap();
    db.insert_action(&action(1, ActionType::Archive, "old", "/r/a", "/x/a"), 10).unwrap();
    db.insert_action(&action(1, ActionType::Restore, "old", "/x/a", "/r/a"), 20).unwrap();
    db.insert_action(&action(2, ActionType::Archive, "new", "/r/b", "/x/b"), 30).unwrap();
    assert_eq!(db.get_undoable_batches(), vec!["new".to_string()]);
    // Archived again after the restore: that batch can be undone.
    db.insert_action(&action(1, ActionType::Archive, "newer", "/r/a", "/x/a"), 40).unwrap();
    assert_eq!(db.get_undoable_batches(), vec!["newer".to_string(), "new".to_string()]);
}

#[test]
fn staging_is_all_or_nothing() {
    let mut db = Database::new();
    db.upsert_file(&new_file("/r/a", 5, None), 1).unwrap();
    db.upsert_file(&new_file("/r/b", 6, None), 1).unwrap();
    let entry = |file_id: i64, staged_at: i64, expires_at: Option<i64>| NewStagedFile {
        file_id,
        staged_at,
        expires_at,
        batch_id: Some("b".to_string()),
        status: StagedStatus::Staged,
        note: None,
    };
    assert_eq!(
        db.stage_files(&vec![entry(1, 10, None), entry(9, 10, None)]),
        Err(StoreError::ForeignKeyViolation)
    );
    assert!(!db.get_file_by_id(1).unwrap().is_staged);
    assert_eq!(
        db.stage_files(&vec![entry(1, 10, Some(9))]),
        Err(StoreError::CheckViolation)
    );
    assert_eq!(db.stage_files(&vec![]), Ok(()));
    assert_eq!(db.stage_files(&vec![entry(1, 10, Some(50)), entry(2, 12, None)]), Ok(()));
    let f = db.get_file_by_id(1).unwrap();
    assert!(f.is_staged);
    assert_eq!(f.cooloff_until, Some(50));
    let listed = db.list_staged_with_files(None);
    assert_eq!(listed.len(), 2);
    assert_eq!(listed[0].0.id, 1);
    assert_eq!(listed[1].0.id, 2);

    // Staging a file again replaces its record and keeps the record's id.
    assert_eq!(db.stage_files(&vec![entry(1, 20, Some(90))]), Ok(()));
    let listed = db.list_staged_with_files(None);
    assert_eq!(listed.len(), 2);
    assert_eq!(listed[0].0.id, 1);
    assert_eq!(listed[0].0.staged_at, 20);
    assert_eq!(db.get_file_by_id(1).unwrap().cooloff_until, Some(90));

    assert_eq!(db.list_current_staged_files_in_period(12, 20).len(), 2);
    assert_eq!(db.list_current_staged_files_in_period(13, 19).len(), 0);

    db.update_staged_status(&vec![2], StagedStatus::Restored);
    assert_eq!(db.list_staged_with_files(Some(&vec![StagedStatus::Staged])).len(), 1);
    assert_eq!(db.list_staged_with_files(Some(&vec![StagedStatus::Restored])).len(), 1);
    assert_eq!(db.list_current_staged_files_in_period(0, 100).len(), 1);
    db.mark_files_unstaged(&vec![2]);
    assert!(!db.get_file_by_id(2).unwrap().is_staged);
    assert_eq!(db.list_staged_with_files(None).len(), 1);

    // A file that is gone cannot be staged.
    db.mark_missing_for_root("/r", &vec![]);
    assert_eq!(db.stage_files(&vec![entry(2, 10, None)]), Err(StoreError::ForeignKeyViolation));
}

#[test]
fn watched_roots_and_preferences() {
    let mut db = Database::new();
    assert_eq!(db.upsert_watched_root("/home/u/Desktop", 10), Ok(1));
    assert_eq!(db.upsert_watched_root("/home/u/Downloads", 5), Ok(2));
    assert_eq!(db.upsert_watched_root("/home/u/Desktop", 99), Ok(1));
    assert_eq!(db.list_watched_paths(), vec!["/home/u/Downloads", "/home/u/Desktop"]);
    assert_eq!(db.get_watched_root_by_id(2).unwrap().path, "/home/u/Downloads");
    assert!(db.get_watched_root_by_id(3).is_none());
    db.upsert_file(&new_file("/home/u/Desktop/a", 5, None), 1).unwrap();
    db.delete_watched_root("/home/u/Desktop");
    assert_eq!(db.list_watched_roots().len(), 1);
    // Removing a root removes no file entry.
    assert!(db.get_file_by_id(1).is_some());
    db.delete_watched_root("/not/there");
    assert_eq!(db.list_watched_roots().len(), 1);

    assert_eq!(db.get_preference("tidy_hour"), None);
    db.set_preference("tidy_hour", "9");
    db.set_preference("tidy_day", "Mon");
    db.set_preference("tidy_hour", "10");
    assert_eq!(db.get_preference("tidy_hour"), Some("10".to_string()));
    assert_eq!(db.get_all_preferences().len(), 2);
}

#[test]
fn catalog_from_parts_and_back() {
    let mut db = Database::new();
    db.upsert_file(&new_file("/r/a", 5, None), 10).unwrap();
    db.upsert_file(&new_file("/r/b", 6, None), 10).unwrap();
    db.insert_action(&action(1, ActionType::Archive, "b1", "/r/a", "/x/a"), 100).unwrap();
    db.upsert_watched_root("/r", 1).unwrap();
    db.set_preference("tidy_hour", "9");
    db.stage_files(&vec![NewStagedFile {
        file_id: 2,
        staged_at: 10,
        expires_at: None,
        batch_id: None,
        status: StagedStatus::Staged,
        note: None,
    }])
    .unwrap();

    let copy = Database::from_parts(
        db.all_files(),
        db.all_slots(),
        db.all_actions(),
        db.all_roots(),
        db.get_all_preferences(),
    );
    let mut copy = copy.expect("a catalog gives parts that make one up");
    assert_eq!(copy.get_file_id_by_path("/r/b"), Some(2));
    assert_eq!(copy.list_staged_with_files(None).len(), 1);
    assert_eq!(copy.upsert_file(&new_file("/r/c", 1, None), 20), Ok(3));
    assert_eq!(copy.insert_action(&action(3, ActionType::Delete, "b2", "/r/c", "/r/c"), 1), Ok(2));
    assert_eq!(copy.upsert_watched_root("/s", 2), Ok(2));

    // Parts that break a rule make no catalog.
    let mut files = db.all_files();
    files[1].path = "/r/a".to_string();
    assert!(Database::from_parts(files, db.all_slots(), vec![], vec![], vec![]).is_none());
    let mut files = db.all_files();
    files.swap(0, 1);
    assert!(Database::from_parts(files, db.all_slots(), vec![], vec![], vec![]).is_none());
    let mut files = db.all_files();
    files[0].is_staged = true;
    assert!(Database::from_parts(files, db.all_slots(), vec![], vec![], vec![]).is_none());
    let mut files = db.all_files();
    files[1].is_deleted = true;
    assert!(Database::from_parts(files, db.all_slots(), vec![], vec![], vec![]).is_none());
    let mut files = db.all_files();
    files[0].last_seen_at = files[0].first_seen_at - 1;
    assert!(Database::from_parts(files, db.all_slots(), vec![], vec![], vec![]).is_none());
    assert!(Database::from_parts(db.all_files(), vec![], vec![], vec![], vec![]).is_none());
    let mut prefs = db.get_all_preferences();
    prefs.push(prefs[0].clone());
    assert!(Database::from_parts(vec![], vec![], vec![], vec![], prefs).is_none());
    assert!(Database::from_parts(vec![], vec![], vec![], vec![], vec![]).is_some());
}

#[test]
fn identifiers_run_out_at_the_largest() {
    let last = File {
        id: Some(i64::MAX - 1),
        path: "/r/last".to_string(),
        parent_dir: "/r".to_string(),
        mime: None,
        size_bytes: 1,
        created_at: 0,
        modified_at: None,
        accessed_at: None,
        last_opened_at: None,
        partial_sha1: None,
        sha1: None,
        first_seen_at: 0,
        last_seen_at: 0,
        is_deleted: false,
        is_staged: false,
        cooloff_until: None,
    };
    let mut db = Database::from_parts(vec![last], vec![None], vec![], vec![], vec![]).unwrap();
    // The entry that is there can still be refreshed; no new one can be made.
    assert_eq!(db.upsert_file(&new_file("/r/last", 2, None), 5), Ok(i64::MAX - 1));
    assert_eq!(db.upsert_file(&new_file("/r/new", 2, None), 5), Err(StoreError::IdsExhausted));
    assert_eq!(db.all_files().len(), 1);
    assert_eq!(db.get_file_by_id(i64::MAX - 1).unwrap().size_bytes, 2);
}

#[test]
fn an_action_must_say_its_batch_and_where_the_file_went() {
    let mut db = Database::new();
    db.upsert_file(&new_file("/r/a", 5, None), 10).unwrap();
    let mut without_batch = action(1, ActionType::Archive, "b1", "/r/a", "/x/a");
    without_batch.batch_id = None;
    assert_eq!(db.insert_action(&without_batch, 1), Err(StoreError::CheckViolation));
    let mut without_target = action(1, ActionType::Delete, "b1", "/r/a", "/x/a");
    without_target.dst_path = None;
    assert_eq!(db.insert_action(&without_target, 1), Err(StoreError::CheckViolation));
    assert_eq!(
        db.insert_action(&action(1, ActionType::Archive, "b1", "/r/a", ""), 1),
        Err(StoreError::CheckViolation)
    );
    assert_eq!(
        db.insert_action(&action(1, ActionType::Restore, "b1", "", "/r/a"), 1),
        Err(StoreError::CheckViolation)
    );
    assert!(db.all_actions().is_empty());
    // A restore need not say where the file went, an archive not where it came from.
    let mut restore = action(1, ActionType::Restore, "b1", "/x/a", "/r/a");
    restore.dst_path = None;
    assert_eq!(db.insert_action(&restore, 2), Ok(1));
    let mut archive = action(1, ActionType::Archive, "b1", "/r/a", "/x/a");
    archive.src_path = None;
    assert_eq!(db.insert_action(&archive, 3), Ok(2));
}
