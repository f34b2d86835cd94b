use chrono::{DateTime, Datelike, Timelike, Utc};
use white_space::clock::Weekday;
use white_space::db::Database;
use white_space::gauge::{GaugeConfig, GaugeManager, GaugeState};
use white_space::models::{ActionType, NewAction, NewFile, NewStagedFile, StagedStatus};
use white_space::models::File;
use white_space::selector::scoring::{Candidate, ScoreFactors};
use white_space::selector::{ScoredBuckets, ScoredFile};

fn no_buckets() -> ScoredBuckets {
    ScoredBuckets { screenshots: vec![], big_downloads: vec![], old_desktop: vec![], duplicates: vec![] }
}

const DAY: i64 = 86_400_000;

fn now_ms() -> i64 {
    Utc::now().timestamp_millis()
}

fn at(ms: i64) -> DateTime<Utc> {
    DateTime::from_timestamp_millis(ms).unwrap()
}

fn create_test_database() -> Database {
    Database::new()
}

fn create_test_file(db: &mut Database, path: &str, size_bytes: u64) -> i64 {
    let file = NewFile {
        path: path.to_string(),
        parent_dir: "/test".to_string(),
        mime: Some("text/plain".to_string()),
        size_bytes,
        created_at: Some(now_ms()),
        modified_at: None,
        accessed_at: None,
        partial_sha1: None,
        sha1: Some("test_hash".to_string()),
    };
    db.upsert_file(&file, now_ms()).unwrap()
}

fn create_test_action(db: &mut Database, file_id: i64, action_type: ActionType, created_at: i64) -> i64 {
    let action = NewAction {
        file_id,
        action: action_type,
        batch_id: Some("test_batch".to_string()),
        src_path: Some("/test/source.txt".to_string()),
        dst_path: Some("/test/destination.txt".to_string()),
        origin: None,
        note: None,
    };
    db.insert_action(&action, created_at).unwrap()
}

fn candidate(size: u64) -> Candidate {
    Candidate {
        file_id: 1,
        path: "/p".to_string(),
        parent_dir: "/".to_string(),
        size_bytes: size,
        reason: "Screenshots".to_string(),
        score_key: 0,
        confidence_percent: 50,
        preview_hint: String::new(),
        age_days: 0,
    }
}

#[test]
fn test_gauge_state_computation() {
    let db = create_test_database();
    let gauge_manager = GaugeManager::new();
    let now = now_ms();
    let gauge_state = gauge_manager.gauge_state(&db, &no_buckets(), now);
    assert_eq!(gauge_state.potential_today_bytes, 0);
    assert_eq!(gauge_state.staged_week_bytes, 0);
    assert_eq!(gauge_state.freed_week_bytes, 0);
    assert!(gauge_state.computed_at <= now_ms());
    assert!(gauge_state.window_start <= gauge_state.window_end);
}

#[test]
fn test_rolling_window_bounds() {
    let gauge_manager = GaugeManager::new();
    let now = now_ms();
    let (start, end) = gauge_manager.get_window_bounds(now);
    let expected_start = now - 7 * DAY;
    assert_eq!(start, expected_start);
    assert_eq!(end, now);
}

#[test]
fn test_tidy_day_bounds() {
    let mut gauge_manager = GaugeManager::new();
    gauge_manager.set_reset_on_tidy_day(true);
    gauge_manager.set_tidy_day(Weekday::Fri);
    gauge_manager.set_tidy_hour(17);
    let now = now_ms();
    let (start, end) = gauge_manager.get_window_bounds(now);
    assert_eq!(at(start).weekday(), chrono::Weekday::Fri);
    assert_eq!(at(start).hour(), 17);
    assert_eq!(end, now);
}

#[test]
fn tidy_bounds_at_fixed_instants() {
    let mut m = GaugeManager::new();
    m.set_reset_on_tidy_day(true);
    m.set_tidy_day(Weekday::Fri);
    m.set_tidy_hour(17);
    let ms = |s: &str| DateTime::parse_from_rfc3339(s).unwrap().timestamp_millis();
    // A Wednesday: back to the Friday before.
    assert_eq!(m.get_tidy_day_bounds(ms("2024-05-15T10:00:00Z")).0, ms("2024-05-10T17:00:00Z"));
    // The tidy day before the hour: a week back.
    assert_eq!(m.get_tidy_day_bounds(ms("2024-05-17T16:59:59Z")).0, ms("2024-05-10T17:00:00Z"));
    // The tidy day at and after the hour: today.
    assert_eq!(m.get_tidy_day_bounds(ms("2024-05-17T17:00:00Z")).0, ms("2024-05-17T17:00:00Z"));
    assert_eq!(m.get_tidy_day_bounds(ms("2024-05-17T23:59:59Z")).0, ms("2024-05-17T17:00:00Z"));
    // The day after.
    assert_eq!(m.get_tidy_day_bounds(ms("2024-05-18T00:00:00Z")).0, ms("2024-05-17T17:00:00Z"));
    // Before the epoch.
    assert_eq!(m.get_tidy_day_bounds(ms("1969-12-31T12:00:00Z")).0, ms("1969-12-26T17:00:00Z"));
    assert_eq!(
        m.get_next_reset_time(ms("2024-05-17T17:00:00Z")),
        Some(ms("2024-05-24T17:00:00Z"))
    );
    assert_eq!(
        m.get_next_reset_time(ms("2024-05-17T16:00:00Z")),
        Some(ms("2024-05-17T17:00:00Z"))
    );
    m.set_tidy_day(Weekday::Mon);
    m.set_tidy_hour(0);
    assert_eq!(m.get_tidy_day_bounds(ms("2024-05-19T23:00:00Z")).0, ms("2024-05-13T00:00:00Z"));
    assert_eq!(m.get_tidy_day_bounds(ms("2024-05-20T00:00:00Z")).0, ms("2024-05-20T00:00:00Z"));
}

#[test]
fn weekday_and_hour_agree_with_the_calendar() {
    let mut t: i64 = -3 * 365 * DAY - 12_345;
    while t < 3 * 365 * DAY {
        let d = at(t);
        assert_eq!(white_space::clock::weekday_of(t), d.weekday().num_days_from_monday());
        assert_eq!(white_space::clock::hour_of_day(t), d.hour());
        assert_eq!(white_space::clock::seconds_of(t), d.timestamp());
        t += 7 * 3_600_000 + 1111;
    }
}

#[test]
fn test_tidy_day_edge_cases() {
    let mut gauge_manager = GaugeManager::new();
    gauge_manager.set_reset_on_tidy_day(true);
    gauge_manager.set_tidy_day(Weekday::Fri);
    gauge_manager.set_tidy_hour(17);
    let now = now_ms();
    let hour = at(now).hour();
    let (start, end) = gauge_manager.get_window_bounds(now);
    assert!(start <= end);
    gauge_manager.set_tidy_hour((hour + 1).min(23));
    let (start, end) = gauge_manager.get_window_bounds(now);
    assert!(start <= end);
    gauge_manager.set_tidy_hour(hour.saturating_sub(1));
    let (start, end) = gauge_manager.get_window_bounds(now);
    assert!(start <= end);
}

#[test]
fn test_multiple_actions_per_file() {
    let mut db = create_test_database();
    let gauge_manager = GaugeManager::new();
    let file_id = create_test_file(&mut db, "/test/file.txt", 1024);
    let now = now_ms();
    let archive_time = now - 3 * DAY;
    let delete_time = now - DAY;
    create_test_action(&mut db, file_id, ActionType::Archive, archive_time);
    create_test_action(&mut db, file_id, ActionType::Delete, delete_time);
    let gauge_state = gauge_manager.gauge_state(&db, &no_buckets(), now);
    // The file counts as freed since it was deleted in the window.
    assert_eq!(gauge_state.freed_week_bytes, 1024);
    assert_eq!(gauge_state.staged_week_bytes, 0);
}

#[test]
fn test_window_edges() {
    let mut gauge_manager = GaugeManager::new();
    let now = now_ms();
    let hour = at(now).hour();
    gauge_manager.set_reset_on_tidy_day(true);
    let today = match at(now).weekday() {
        chrono::Weekday::Mon => Weekday::Mon,
        chrono::Weekday::Tue => Weekday::Tue,
        chrono::Weekday::Wed => Weekday::Wed,
        chrono::Weekday::Thu => Weekday::Thu,
        chrono::Weekday::Fri => Weekday::Fri,
        chrono::Weekday::Sat => Weekday::Sat,
        chrono::Weekday::Sun => Weekday::Sun,
    };
    gauge_manager.set_tidy_day(today);
    gauge_manager.set_tidy_hour(hour);
    let (start, end) = gauge_manager.get_window_bounds(now);
    assert!(start <= end);
    assert_eq!(at(start).date_naive(), at(now).date_naive());
    gauge_manager.set_tidy_hour((hour + 1).min(23));
    let (start, end) = gauge_manager.get_window_bounds(now);
    assert!(start <= end);
    gauge_manager.set_tidy_hour(hour.saturating_sub(1));
    let (start, end) = gauge_manager.get_window_bounds(now);
    assert!(start <= end);
}

#[test]
fn test_config_updates() {
    let mut gauge_manager = GaugeManager::new();
    gauge_manager.set_tidy_day(Weekday::Mon);
    assert_eq!(gauge_manager.get_config().tidy_day, Weekday::Mon);
    gauge_manager.set_tidy_hour(14);
    assert_eq!(gauge_manager.get_config().tidy_hour, 14);
    gauge_manager.set_rolling_window_days(14);
    assert_eq!(gauge_manager.get_config().rolling_window_days, 14);
    gauge_manager.set_reset_on_tidy_day(true);
    assert!(gauge_manager.get_config().reset_on_tidy_day);
}

#[test]
fn test_next_reset_time() {
    let mut gauge_manager = GaugeManager::new();
    gauge_manager.set_reset_on_tidy_day(true);
    gauge_manager.set_tidy_day(Weekday::Fri);
    gauge_manager.set_tidy_hour(17);
    let now = now_ms();
    let next_reset = gauge_manager.get_next_reset_time(now);
    if let Some(reset_time) = next_reset {
        assert_eq!(at(reset_time).weekday(), chrono::Weekday::Fri);
        assert_eq!(at(reset_time).hour(), 17);
        assert!(reset_time > now);
    }
    assert!(next_reset.is_some());
    gauge_manager.set_reset_on_tidy_day(false);
    assert_eq!(gauge_manager.get_next_reset_time(now), None);
}

#[test]
fn gauge_test_bytes_formatting() {
    let gauge_manager = GaugeManager::new();
    assert_eq!(gauge_manager.format_bytes(0), "0 B");
    assert_eq!(gauge_manager.format_bytes(1024), "1.0 KB");
    assert_eq!(gauge_manager.format_bytes(1024 * 1024), "1.0 MB");
    assert_eq!(gauge_manager.format_bytes(1024 * 1024 * 1024), "1.0 GB");
}

#[test]
fn test_window_info() {
    let mut gauge_manager = GaugeManager::new();
    let now = now_ms();
    let (start, end, description) = gauge_manager.get_window_info(now);
    assert!(description.contains("Rolling"));
    assert_eq!(description, "Rolling 7 day window");
    assert!(start <= end);
    gauge_manager.set_reset_on_tidy_day(true);
    gauge_manager.set_tidy_day(Weekday::Fri);
    gauge_manager.set_tidy_hour(17);
    let (start, end, description) = gauge_manager.get_window_info(now);
    assert!(description.contains("Tidy day"));
    assert_eq!(description, "Tidy day window: Fri 17:00");
    assert!(start <= end);
}

#[test]
fn test_gauge_summary() {
    let gauge_manager = GaugeManager::new();
    let state = GaugeState {
        potential_today_bytes: 1024 * 1024,
        staged_week_bytes: 2 * 1024 * 1024,
        freed_week_bytes: 512 * 1024,
        computed_at: now_ms(),
        window_start: now_ms() - 7 * DAY,
        window_end: now_ms(),
    };
    let summary = gauge_manager.get_gauge_summary(&state);
    assert!(summary.contains("Potential:"));
    assert!(summary.contains("Staged:"));
    assert!(summary.contains("Freed:"));
    assert_eq!(summary, "Potential: 1.0 MB, Staged: 2.0 MB, Freed: 512.0 KB");
}

#[test]
fn test_archive_without_delete() {
    let mut db = create_test_database();
    let gauge_manager = GaugeManager::new();
    let now = now_ms();
    let file_id = create_test_file(&mut db, "/test/file.txt", 1024);
    create_test_action(&mut db, file_id, ActionType::Archive, now - 2 * DAY);
    db.stage_files(&vec![NewStagedFile {
        file_id,
        staged_at: now - 2 * DAY,
        expires_at: None,
        batch_id: Some("test_batch".to_string()),
        status: StagedStatus::Staged,
        note: None,
    }])
    .unwrap();
    let state = gauge_manager.gauge_state(&db, &no_buckets(), now);
    assert_eq!(state.staged_week_bytes, 1024);
    assert_eq!(state.freed_week_bytes, 0);
}

#[test]
fn test_delete_without_archive() {
    let mut db = create_test_database();
    let gauge_manager = GaugeManager::new();
    let now = now_ms();
    let file_id = create_test_file(&mut db, "/test/file.txt", 2048);
    create_test_action(&mut db, file_id, ActionType::Delete, now - DAY);
    let state = gauge_manager.gauge_state(&db, &no_buckets(), now);
    assert_eq!(state.staged_week_bytes, 0);
    assert_eq!(state.freed_week_bytes, 2048);
}

#[test]
fn test_archive_then_delete() {
    let mut db = create_test_database();
    let gauge_manager = GaugeManager::new();
    let now = now_ms();
    let file_id = create_test_file(&mut db, "/test/file.txt", 4096);
    create_test_action(&mut db, file_id, ActionType::Archive, now - 3 * DAY);
    db.stage_files(&vec![NewStagedFile {
        file_id,
        staged_at: now - 3 * DAY,
        expires_at: None,
        batch_id: None,
        status: StagedStatus::Staged,
        note: None,
    }])
    .unwrap();
    create_test_action(&mut db, file_id, ActionType::Delete, now - DAY);
    db.update_staged_status(&vec![file_id], StagedStatus::Emptied);
    db.mark_files_unstaged(&vec![file_id]);
    let state = gauge_manager.gauge_state(&db, &no_buckets(), now);
    assert_eq!(state.staged_week_bytes, 0);
    assert_eq!(state.freed_week_bytes, 4096);
}

#[test]
fn test_outside_window_actions() {
    let mut db = create_test_database();
    let gauge_manager = GaugeManager::new();
    let now = now_ms();
    let file_id = create_test_file(&mut db, "/test/file.txt", 1024);
    create_test_action(&mut db, file_id, ActionType::Archive, now - 10 * DAY);
    create_test_action(&mut db, file_id, ActionType::Delete, now - 8 * DAY);
    let state = gauge_manager.gauge_state(&db, &no_buckets(), now);
    assert_eq!(state.staged_week_bytes, 0);
    assert_eq!(state.freed_week_bytes, 0);
    // The edges of the window belong to it.
    create_test_action(&mut db, file_id, ActionType::Delete, now - 7 * DAY);
    create_test_action(&mut db, file_id, ActionType::Delete, now);
    let state = gauge_manager.gauge_state(&db, &no_buckets(), now);
    assert_eq!(state.freed_week_bytes, 2048);
}

#[test]
fn test_tidy_day_weekday_calculation() {
    let mut gauge_manager = GaugeManager::new();
    gauge_manager.set_reset_on_tidy_day(true);
    gauge_manager.set_tidy_hour(12);
    let now = now_ms();
    let days = [
        (Weekday::Mon, chrono::Weekday::Mon),
        (Weekday::Tue, chrono::Weekday::Tue),
        (Weekday::Wed, chrono::Weekday::Wed),
        (Weekday::Thu, chrono::Weekday::Thu),
        (Weekday::Fri, chrono::Weekday::Fri),
        (Weekday::Sat, chrono::Weekday::Sat),
        (Weekday::Sun, chrono::Weekday::Sun),
    ];
    for (day, expected) in days {
        gauge_manager.set_tidy_day(day);
        let (start, end) = gauge_manager.get_window_bounds(now);
        assert_eq!(at(start).weekday(), expected);
        assert_eq!(at(start).hour(), 12);
        assert!(start <= end);
        assert!(end - start < 7 * DAY);
    }
}

#[test]
fn test_rolling_window_custom_days() {
    let mut gauge_manager = GaugeManager::new();
    gauge_manager.set_rolling_window_days(14);
    let now = now_ms();
    let (start, end) = gauge_manager.get_window_bounds(now);
    assert_eq!(start, now - 14 * DAY);
    assert_eq!(end, now);
    gauge_manager.set_rolling_window_days(i64::MAX);
    assert_eq!(gauge_manager.get_window_bounds(now).0, i64::MIN);
}

#[test]
fn test_gauge_manager_default() {
    let config = GaugeConfig::default();
    assert!(!config.reset_on_tidy_day);
    assert_eq!(config.tidy_day, Weekday::Fri);
    assert_eq!(config.tidy_hour, 17);
    assert_eq!(config.rolling_window_days, 7);
}

#[test]
fn test_gauge_manager_new() {
    let gauge_manager = GaugeManager::new();
    let config = gauge_manager.get_config();
    assert!(!config.reset_on_tidy_day);
    assert_eq!(config.tidy_day, Weekday::Fri);
    assert_eq!(config.tidy_hour, 17);
    assert_eq!(config.rolling_window_days, 7);
}

#[test]
fn potential_is_the_sum_of_candidate_sizes() {
    let m = GaugeManager::new();
    let db = create_test_database();
    let ranked = |id: i64, size: u64| ScoredFile {
        file: File {
            id: Some(id),
            path: format!("/test/f{id}"),
            parent_dir: "/test".to_string(),
            mime: None,
            size_bytes: size,
            created_at: 0,
            modified_at: None,
            accessed_at: None,
            last_opened_at: None,
            partial_sha1: None,
            sha1: None,
            first_seen_at: 0,
            last_seen_at: 0,
            is_deleted: false,
            is_staged: false,
            cooloff_until: None,
        },
        factors: ScoreFactors {
            size_bytes: size,
            age_days: 40,
            is_duplicate: false,
            is_unopened: true,
            has_keyword_flag: false,
            in_git_repo: false,
            recent_sibling_burst: false,
        },
        score_key: 5,
    };
    // A file that is in two buckets counts once.
    let buckets = ScoredBuckets {
        screenshots: vec![ranked(1, 10)],
        big_downloads: vec![],
        old_desktop: vec![ranked(1, 10), ranked(2, 32)],
        duplicates: vec![],
    };
    let state = m.gauge_state(&db, &buckets, 0);
    assert_eq!(state.potential_today_bytes, 42);
    assert!(state.window_start <= state.window_end);
    assert_eq!(m.compute_potential_today(&vec![candidate(u64::MAX), candidate(1)]), u64::MAX);
}

#[test]
fn the_tidy_window_of_the_earliest_instants_starts_at_the_earliest() {
    let mut m = GaugeManager::new();
    m.set_reset_on_tidy_day(true);
    let db = create_test_database();
    let state = m.gauge_state(&db, &no_buckets(), i64::MIN + 5);
    assert_eq!((state.window_start, state.window_end), (i64::MIN, i64::MIN + 5));
    assert_eq!(state.freed_week_bytes, 0);
    let (start, end) = m.get_window_bounds(i64::MIN + 9 * DAY);
    assert!(start <= end && end - start < 7 * DAY);
}
