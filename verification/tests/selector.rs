use white_space::models::File;
use white_space::selector::scoring::{FileScorer, ScoreFactors, ScoringContext, SCORE_ONE};
use white_space::selector::{BucketConfig, FileBucket, FileSelector, ScoredBuckets, ScoredFile};

const DAY: i64 = 86_400_000;
const NOW: i64 = 1_700_000_000_000;

fn create_test_file(id: i64, path: String, size_bytes: u64, age_days: i64) -> File {
    let file_time = NOW - age_days * DAY;
    File {
        id: Some(id),
        path,
        parent_dir: "/test".to_string(),
        mime: Some("text/plain".to_string()),
        size_bytes,
        created_at: file_time,
        modified_at: None,
        accessed_at: None,
        last_opened_at: None,
        partial_sha1: None,
        sha1: Some("test_hash".to_string()),
        first_seen_at: file_time,
        last_seen_at: file_time,
        is_deleted: false,
        is_staged: false,
        cooloff_until: None,
    }
}

fn create_test_file_with_sha1(id: i64, path: String, size: u64, age: i64, sha1: &str) -> File {
    let mut f = create_test_file(id, path, size, age);
    f.sha1 = Some(sha1.to_string());
    f
}

fn create_test_file_with_time(id: i64, path: String, size: u64, time: i64) -> File {
    let mut f = create_test_file(id, path.clone(), size, 0);
    f.parent_dir = path.rsplit_once('/').unwrap().0.to_string();
    f.modified_at = Some(time);
    f.last_seen_at = time;
    f
}

fn create_test_context() -> ScoringContext {
    let mut context = ScoringContext::new();
    context.add_duplicate_files(vec![1, 2, 3]);
    context.add_git_repos(vec!["/test/git-repo".to_string()]);
    context.add_burst_directories(vec!["/test/burst-dir".to_string()]);
    context
}

fn factors() -> ScoreFactors {
    ScoreFactors {
        size_bytes: 1024,
        age_days: 30,
        is_duplicate: false,
        is_unopened: false,
        has_keyword_flag: false,
        in_git_repo: false,
        recent_sibling_burst: false,
    }
}

#[test]
fn test_confidence_calculation() {
    let scorer = FileScorer::new();
    let factors = ScoreFactors {
        size_bytes: 200 * 1024 * 1024,
        age_days: 60,
        is_duplicate: true,
        is_unopened: true,
        has_keyword_flag: false,
        in_git_repo: false,
        recent_sibling_burst: false,
    };
    let confidence = scorer.calculate_confidence(&factors);
    // Should have high confidence due to multiple positive indicators
    assert!(confidence > 50);
    assert!(confidence <= 100);
    assert_eq!(confidence, 95);
}

#[test]
fn test_confidence_calculation_low() {
    let scorer = FileScorer::new();
    let factors = ScoreFactors {
        size_bytes: 1024,
        age_days: 5,
        is_duplicate: false,
        is_unopened: false,
        has_keyword_flag: true,
        in_git_repo: true,
        recent_sibling_burst: true,
    };
    let confidence = scorer.calculate_confidence(&factors);
    // Should have low confidence due to multiple negative indicators
    assert!(confidence < 50);
    assert_eq!(confidence, 5);
}

#[test]
fn confidence_stays_in_range() {
    let scorer = FileScorer::new();
    for bits in 0u32..64 {
        let f = ScoreFactors {
            size_bytes: if bits & 32 != 0 { 200 * 1024 * 1024 } else { 5 },
            age_days: if bits & 16 != 0 { 31 } else { 30 },
            is_duplicate: bits & 1 != 0,
            is_unopened: bits & 2 != 0,
            has_keyword_flag: bits & 4 != 0,
            in_git_repo: bits & 8 != 0,
            recent_sibling_burst: bits & 16 != 0,
        };
        assert!(scorer.calculate_confidence(&f) <= 100);
    }
    assert_eq!(scorer.calculate_confidence(&factors()), 50);
    // Unopened counts only past 30 days.
    let mut f = factors();
    f.is_unopened = true;
    assert_eq!(scorer.calculate_confidence(&f), 50);
    f.age_days = 31;
    assert_eq!(scorer.calculate_confidence(&f), 65);
    // Exactly one hundred mebibytes is not yet large.
    f = factors();
    f.size_bytes = 100 * 1024 * 1024;
    assert_eq!(scorer.calculate_confidence(&f), 50);
    f.size_bytes += 1;
    assert_eq!(scorer.calculate_confidence(&f), 60);
}

#[test]
fn test_preview_hint_generation() {
    let scorer = FileScorer::new();
    let factors = ScoreFactors {
        size_bytes: 200 * 1024 * 1024,
        age_days: 60,
        is_duplicate: true,
        is_unopened: true,
        has_keyword_flag: false,
        in_git_repo: false,
        recent_sibling_burst: false,
    };
    let hint = scorer.generate_preview_hint(&factors);
    assert!(hint.contains("duplicate"));
    assert!(hint.contains("unopened"));
    assert!(hint.contains("large"));
    assert!(hint.contains("old"));
    assert_eq!(hint, "duplicate, unopened, large, old");
    assert_eq!(scorer.generate_preview_hint(&self::factors()), "candidate");
    let all = ScoreFactors {
        size_bytes: 1,
        age_days: 1,
        is_duplicate: false,
        is_unopened: false,
        has_keyword_flag: true,
        in_git_repo: true,
        recent_sibling_burst: true,
    };
    assert_eq!(scorer.generate_preview_hint(&all), "git-repo, flagged, recent-activity");
}

#[test]
fn test_keyword_flag_detection() {
    let scorer = FileScorer::new();
    assert!(scorer.has_keyword_flag("/test/current-project/file.txt"));
    assert!(scorer.has_keyword_flag("/test/wip-project/file.txt"));
    assert!(scorer.has_keyword_flag("/test/active-project/file.txt"));
    assert!(scorer.has_keyword_flag("/test/final-project/file.txt"));
    assert!(scorer.has_keyword_flag("/test/FINAL/file.txt"));
    // Test negative cases: "old-project" holds the keyword "project".
    assert!(scorer.has_keyword_flag("/test/old-project/file.txt"));
    assert!(!scorer.has_keyword_flag("/test/document.txt"));
}

#[test]
fn test_age_calculation() {
    let scorer = FileScorer::new();
    let file = create_test_file(1, "/test/file.txt".to_string(), 1024, 30);
    let age_days = scorer.calculate_age_days(&file, NOW);
    assert_eq!(age_days, 30);
    // Whole days, rounded toward zero.
    assert_eq!(scorer.calculate_age_days(&file, NOW + DAY - 1), 30);
    assert_eq!(scorer.calculate_age_days(&file, NOW - 30 * DAY - 1), 0);
    assert_eq!(scorer.calculate_age_days(&file, NOW - 31 * DAY), -1);
    // The last access counts before the last change, and that before the
    // last sighting.
    let mut f = create_test_file(1, "/x".to_string(), 1, 30);
    f.modified_at = Some(NOW - 10 * DAY);
    assert_eq!(scorer.calculate_age_days(&f, NOW), 10);
    f.accessed_at = Some(NOW - 3 * DAY);
    assert_eq!(scorer.calculate_age_days(&f, NOW), 3);
}

#[test]
fn test_bucket_classification() {
    let selector = FileSelector::new();

    let screenshot_file =
        create_test_file(1, "/Users/test/Screenshots/screenshot.png".to_string(), 1024, 30);
    assert!(selector.is_screenshot(&screenshot_file));

    let screenshot_file2 =
        create_test_file(2, "/Users/test/screenshot_2024.png".to_string(), 1024, 30);
    assert!(selector.is_screenshot(&screenshot_file2));

    let big_download = create_test_file(
        3,
        "/Users/test/Downloads/large_file.zip".to_string(),
        150 * 1024 * 1024,
        45,
    );
    assert!(selector.is_big_download(&big_download, NOW));

    let old_desktop = create_test_file(4, "/Users/test/Desktop/old_file.txt".to_string(), 1024, 20);
    assert!(selector.is_old_desktop(&old_desktop, NOW));
}

#[test]
fn bucket_edges() {
    let selector = FileSelector::new();
    let in_dir = create_test_file(1, "/u/Screenshots/plain.png".to_string(), 1, 1);
    assert!(selector.is_screenshot(&in_dir));
    let name_only = create_test_file(1, "/u/pics/My SCREENSHOT 1.png".to_string(), 1, 1);
    assert!(selector.is_screenshot(&name_only));
    let neither = create_test_file(1, "/u/screenshot-tools/readme.md".to_string(), 1, 1);
    assert!(!selector.is_screenshot(&neither));

    let mut d = create_test_file(3, "/u/Downloads/a.zip".to_string(), 100 * 1024 * 1024, 45);
    assert!(!selector.is_big_download(&d, NOW));
    d.size_bytes += 1;
    assert!(selector.is_big_download(&d, NOW));
    // Opened and young: not a big download.
    d.last_opened_at = Some(NOW);
    d.accessed_at = Some(NOW - 30 * DAY);
    assert!(!selector.is_big_download(&d, NOW));
    d.accessed_at = Some(NOW - 31 * DAY);
    assert!(selector.is_big_download(&d, NOW));

    let desk = create_test_file(4, "/u/Desktop/f.txt".to_string(), 1, 14);
    assert!(!selector.is_old_desktop(&desk, NOW));
    let desk = create_test_file(4, "/u/Desktop/f.txt".to_string(), 1, 15);
    assert!(selector.is_old_desktop(&desk, NOW));
    let nested = create_test_file(4, "/u/desktop/deep/down/f.txt".to_string(), 1, 15);
    assert!(selector.is_old_desktop(&nested, NOW));
    let named = create_test_file(4, "/u/docs/desktop".to_string(), 1, 15);
    assert!(!selector.is_old_desktop(&named, NOW));
}

#[test]
fn test_duplicate_detection() {
    let selector = FileSelector::new();
    let context = create_test_context();

    let duplicate_file = create_test_file(1, "/test/file.txt".to_string(), 1024, 30);
    assert!(selector.is_duplicate(&duplicate_file, &context));

    let non_duplicate_file = create_test_file(4, "/test/file2.txt".to_string(), 1024, 30);
    assert!(!selector.is_duplicate(&non_duplicate_file, &context));

    // A file over 2 GiB is not treated as a duplicate.
    let large_file =
        create_test_file(1, "/test/large_file.txt".to_string(), 3 * 1024 * 1024 * 1024, 30);
    assert!(!selector.is_duplicate(&large_file, &context));
    let at_limit = create_test_file(1, "/t".to_string(), 2 * 1024 * 1024 * 1024, 30);
    assert!(selector.is_duplicate(&at_limit, &context));
}

#[test]
fn test_duplicate_finding() {
    let selector = FileSelector::new();
    let files = vec![
        create_test_file_with_sha1(1, "/test/file1.txt".to_string(), 1024, 30, "hash1"),
        create_test_file_with_sha1(2, "/test/file2.txt".to_string(), 2048, 30, "hash1"),
        create_test_file_with_sha1(3, "/test/file3.txt".to_string(), 1024, 30, "hash2"),
        create_test_file_with_sha1(4, "/test/file4.txt".to_string(), 1024, 30, "hash1"),
    ];
    let duplicates = selector.find_duplicates(&files);
    assert_eq!(duplicates.len(), 3);
    assert!(duplicates.contains(&1));
    assert!(duplicates.contains(&2));
    assert!(duplicates.contains(&4));
    assert!(!duplicates.contains(&3));
}

#[test]
fn test_git_repo_detection() {
    let selector = FileSelector::new();
    let files = vec![
        create_test_file(1, "/test/project/.git/config".to_string(), 1024, 30),
        create_test_file(2, "/test/project/src/main.rs".to_string(), 1024, 30),
        create_test_file(3, "/test/other/file.txt".to_string(), 1024, 30),
        create_test_file(4, "/test/project/.git/HEAD".to_string(), 1024, 30),
    ];
    let git_repos = selector.find_git_repos(&files);
    assert_eq!(git_repos.len(), 1);
    assert!(git_repos.contains(&"/test/project".to_string()));
}

#[test]
fn test_burst_detection() {
    let selector = FileSelector::new();
    let hour = 3_600_000;
    let files = vec![
        create_test_file_with_time(1, "/test/burst-dir/file1.txt".to_string(), 1024, NOW - 10 * hour),
        create_test_file_with_time(2, "/test/burst-dir/file2.txt".to_string(), 1024, NOW - 20 * hour),
        create_test_file_with_time(3, "/test/burst-dir/file3.txt".to_string(), 1024, NOW - 30 * hour),
        create_test_file_with_time(4, "/test/other-dir/file4.txt".to_string(), 1024, NOW - 10 * hour),
        create_test_file_with_time(5, "/test/stale/a".to_string(), 1024, NOW - 72 * hour),
        create_test_file_with_time(6, "/test/stale/b".to_string(), 1024, NOW - 10 * hour),
        create_test_file_with_time(7, "/test/stale/c".to_string(), 1024, NOW - 10 * hour),
    ];
    let burst_dirs = selector.find_burst_directories(&files, NOW);
    assert_eq!(burst_dirs.len(), 1);
    assert!(burst_dirs.contains(&"/test/burst-dir".to_string()));
}

#[test]
fn scoring_context_and_factors() {
    let selector = FileSelector::new();
    let scorer = FileScorer::new();
    let hour = 3_600_000;
    let mut files = vec![
        create_test_file_with_sha1(1, "/w/current/a.txt".to_string(), 10, 40, "h"),
        create_test_file_with_sha1(2, "/w/repo/src/b.txt".to_string(), 10, 40, "h"),
        create_test_file(3, "/w/repo/.git/config".to_string(), 10, 40),
    ];
    files[0].parent_dir = "/w/current".to_string();
    files[1].parent_dir = "/w/repo/src".to_string();
    files[2].parent_dir = "/w/repo/.git".to_string();
    for i in 0..3 {
        let mut f = create_test_file_with_time(
            10 + i,
            format!("/w/current/new{}.txt", i),
            1,
            NOW - hour,
        );
        f.sha1 = None;
        files.push(f);
    }
    files[2].sha1 = None;
    let ctx = selector.create_scoring_context(&files, NOW);
    assert_eq!(ctx.duplicate_files, vec![1, 2]);
    assert_eq!(ctx.git_repos, vec!["/w/repo".to_string()]);
    assert_eq!(ctx.burst_directories, vec!["/w/current".to_string()]);

    let f0 = scorer.extract_score_factors(&files[0], &ctx, NOW);
    assert!(f0.is_duplicate && f0.is_unopened && f0.has_keyword_flag);
    assert!(!f0.in_git_repo && f0.recent_sibling_burst);
    assert_eq!(f0.age_days, 40);
    assert_eq!(f0.size_bytes, 10);
    let f1 = scorer.extract_score_factors(&files[1], &ctx, NOW);
    assert!(f1.in_git_repo && !f1.has_keyword_flag && !f1.recent_sibling_burst);

    let buckets = selector.bucket_files(&files, &ctx, NOW);
    assert_eq!(buckets.duplicates.len(), 2);
    assert!(buckets.screenshots.is_empty());
    let stats = selector.get_bucket_stats(&buckets);
    assert_eq!(stats[3], ("duplicates".to_string(), 2));
    assert_eq!(stats[0], ("screenshots".to_string(), 0));
}

fn scored(id: i64, path: &str, score_key: u64, last_seen: i64) -> ScoredFile {
    let mut file = create_test_file(id, path.to_string(), 1024, 30);
    file.last_seen_at = last_seen;
    ScoredFile { file, factors: factors(), score_key }
}

#[test]
fn test_candidate_selection() {
    let selector = FileSelector::new();
    let buckets = ScoredBuckets {
        screenshots: vec![scored(1, "/test/screenshot.png", 10, 1)],
        big_downloads: vec![scored(2, "/test/large.zip", 40, 1)],
        old_desktop: vec![scored(3, "/test/old.txt", 30, 1)],
        duplicates: vec![scored(4, "/test/duplicate.txt", 20, 1)],
    };
    let candidates = selector.select_candidates(&buckets, Some(10));
    assert!(!candidates.is_empty());
    assert!(candidates.len() <= 10);
    for candidate in &candidates {
        assert!(candidate.file_id > 0);
        assert!(!candidate.path.is_empty());
        assert!(candidate.confidence_percent <= 100);
        assert!(!candidate.reason.is_empty());
    }
    let ids: Vec<i64> = candidates.iter().map(|c| c.file_id).collect();
    assert_eq!(ids, vec![2, 3, 4, 1]);
    assert_eq!(candidates[0].reason, "Big Downloads");
    assert_eq!(candidates[3].reason, "Screenshots");
    assert_eq!(selector.select_candidates(&buckets, Some(2)).len(), 2);
    // Without a total of its own a selection holds up to 12.
    assert_eq!(selector.daily_candidates(None, &buckets).len(), 4);
}

#[test]
fn test_config_limits() {
    let mut selector = FileSelector::new();
    let config = BucketConfig {
        screenshots_max: 2,
        big_downloads_max: 1,
        old_desktop_max: 1,
        duplicates_max: 1,
        daily_total_max: 3,
    };
    selector.update_config(config);
    let buckets = ScoredBuckets {
        screenshots: vec![
            scored(1, "/s/1", 5, 10),
            scored(2, "/s/2", 9, 10),
            scored(3, "/s/3", 9, 20),
            scored(4, "/s/4", 1, 10),
        ],
        big_downloads: vec![scored(5, "/d/1", 7, 1), scored(6, "/d/2", 8, 1)],
        old_desktop: vec![],
        duplicates: vec![scored(7, "/x/1", 100, 1), scored(8, "/x/2", 3, 1)],
    };
    // Within a bucket: best score first, then the later sighting.
    let winners = selector.select_from_bucket(&buckets.screenshots, 2, "Screenshots");
    let ids: Vec<i64> = winners.iter().map(|c| c.file_id).collect();
    assert_eq!(ids, vec![3, 2]);
    let all = selector.select_candidates(&buckets, None);
    let ids: Vec<i64> = all.iter().map(|c| c.file_id).collect();
    assert_eq!(ids, vec![7, 3, 2]);
    // A total of its own overrides the configured one.
    let all = selector.select_candidates(&buckets, Some(1000));
    let ids: Vec<i64> = all.iter().map(|c| c.file_id).collect();
    assert_eq!(ids, vec![7, 3, 2, 6]);
}

#[test]
fn selection_has_no_file_twice() {
    let selector = FileSelector::new();
    let buckets = ScoredBuckets {
        screenshots: (1..=8).map(|i| scored(i, "/s", (i as u64) % 3, i)).collect(),
        big_downloads: (11..=18).map(|i| scored(i, "/d", (i as u64) % 4, i)).collect(),
        old_desktop: (21..=28).map(|i| scored(i, "/o", (i as u64) % 2, i)).collect(),
        duplicates: (31..=38).map(|i| scored(i, "/x", (i as u64) % 5, i)).collect(),
    };
    let picked = selector.select_candidates(&buckets, None);
    assert_eq!(picked.len(), 12);
    let mut ids: Vec<i64> = picked.iter().map(|c| c.file_id).collect();
    ids.sort();
    ids.dedup();
    assert_eq!(ids.len(), 12);
    for pair in picked.windows(2) {
        assert!(pair[0].score_key >= pair[1].score_key);
    }
}

#[test]
fn file_in_two_buckets_is_proposed_once() {
    let selector = FileSelector::new();
    let f = create_test_file(1, "/u/Desktop/Screenshots/shot.png".to_string(), 1, 60);
    let g = create_test_file(2, "/u/Desktop/old.txt".to_string(), 1, 60);
    let ctx = ScoringContext::new();
    let buckets: FileBucket = selector.bucket_files(&vec![f.clone(), g.clone()], &ctx, NOW);
    assert_eq!(buckets.screenshots.len(), 1);
    assert_eq!(buckets.old_desktop.len(), 2);
    let ranked = |f: &File| ScoredFile { file: f.clone(), factors: factors(), score_key: 1 };
    let scored = ScoredBuckets {
        screenshots: buckets.screenshots.iter().map(ranked).collect(),
        big_downloads: vec![],
        old_desktop: buckets.old_desktop.iter().map(ranked).collect(),
        duplicates: vec![],
    };
    let picked = selector.select_candidates(&scored, None);
    // The file that is in two buckets is proposed for the first of them.
    let shown: Vec<(i64, &str)> = picked.iter().map(|c| (c.file_id, c.reason.as_str())).collect();
    assert_eq!(shown, vec![(1, "Screenshots"), (2, "Old Desktop")]);
    // A bucket that holds one file twice gives it once, too.
    let twice = ScoredBuckets {
        screenshots: vec![ranked(&f), ranked(&f)],
        big_downloads: vec![],
        old_desktop: vec![],
        duplicates: vec![ranked(&f)],
    };
    assert_eq!(selector.daily_candidates(Some(1000), &twice).len(), 1);
}

/// The size part of a score in millionths: the logarithm of the size over
/// the logarithm of 2 GiB.
fn size_share(size_bytes: u64) -> u32 {
    if size_bytes == 0 {
        return 0;
    }
    let share = ((size_bytes as f64).ln() / 2147483648f64.ln()).min(1.0);
    (share * 1_000_000.0).round() as u32
}

#[test]
fn test_score_calculation_basic() {
    let scorer = FileScorer::new();
    let factors = ScoreFactors {
        size_bytes: 1024,
        age_days: 30,
        is_duplicate: false,
        is_unopened: true,
        has_keyword_flag: false,
        in_git_repo: false,
        recent_sibling_burst: false,
    };
    let score = scorer.calculate_score(&factors, size_share(1024));
    // Should have positive score from size, age, and unopened bonus
    assert!(score > 0);
    assert!(score <= SCORE_ONE);
    // 0.45 * 10/31 + 0.25 * 30/365 + 0.10
    assert_eq!(size_share(1024), 322_581);
    assert_eq!(score, (45 * 322_581 + 25 * 82_191 + 10_000_000) / 100);
    assert_eq!(score, 265_709);
}

#[test]
fn test_score_calculation_with_penalties() {
    let scorer = FileScorer::new();
    let factors = ScoreFactors {
        size_bytes: 1024,
        age_days: 30,
        is_duplicate: false,
        is_unopened: true,
        has_keyword_flag: true,
        in_git_repo: true,
        recent_sibling_burst: true,
    };
    let score = scorer.calculate_score(&factors, size_share(1024));
    // Should have lower score due to penalties
    assert!(score <= SCORE_ONE);
    assert_eq!(score, 0);
    // One penalty alone: 0.45 + 0.25 + 0.20 + 0.10 - 0.30
    let flagged = ScoreFactors {
        size_bytes: 1 << 31,
        age_days: 365,
        is_duplicate: true,
        is_unopened: true,
        has_keyword_flag: true,
        in_git_repo: false,
        recent_sibling_burst: false,
    };
    assert_eq!(scorer.calculate_score(&flagged, size_share(1 << 31)), 700_000);
}

#[test]
fn test_score_calculation_duplicate_bonus() {
    let scorer = FileScorer::new();
    let factors = ScoreFactors {
        size_bytes: 1024,
        age_days: 30,
        is_duplicate: true,
        is_unopened: true,
        has_keyword_flag: false,
        in_git_repo: false,
        recent_sibling_burst: false,
    };
    let score = scorer.calculate_score(&factors, size_share(1024));
    // Should have higher score due to duplicate and unopened bonuses
    assert!(score > 0);
    assert!(score <= SCORE_ONE);
    assert_eq!(score, 465_709);
}

#[test]
fn test_score_normalization_edge_cases() {
    let scorer = FileScorer::new();
    // Test zero size
    assert_eq!(size_share(0), 0);
    // Test very large size
    assert!(size_share(10 * 1024 * 1024 * 1024) <= SCORE_ONE);
    // Test zero age
    assert_eq!(scorer.normalize_age(0), 0);
    assert_eq!(scorer.normalize_age(-5), 0);
    // Test very old age
    assert!(scorer.normalize_age(1000) <= SCORE_ONE);
    assert_eq!(scorer.normalize_age(1000), SCORE_ONE);
    assert_eq!(scorer.normalize_age(365), SCORE_ONE);
    assert_eq!(scorer.normalize_age(73), 200_000);
    // A size part above a full share counts as a full share, and the score is held to 1.
    let best = ScoreFactors {
        size_bytes: u64::MAX,
        age_days: 4000,
        is_duplicate: true,
        is_unopened: true,
        has_keyword_flag: false,
        in_git_repo: false,
        recent_sibling_burst: false,
    };
    assert_eq!(scorer.calculate_score(&best, u32::MAX), SCORE_ONE);
}

#[test]
fn files_are_ranked_in_their_order() {
    let selector = FileSelector::new();
    let context = create_test_context();
    let files = vec![
        create_test_file(1, "/test/a.bin".to_string(), 1024, 30),
        create_test_file(9, "/test/git-repo/b.bin".to_string(), 1 << 31, 400),
    ];
    let ranked = selector.rank_files(&files, &vec![size_share(1024)], &context, NOW);
    assert_eq!(ranked.len(), 2);
    assert_eq!(ranked[0].file.id, Some(1));
    assert!(ranked[0].factors.is_duplicate && ranked[0].factors.is_unopened);
    assert_eq!(ranked[0].score_key, 465_709);
    // No size part is given for the second file: it counts as nothing.
    assert_eq!(ranked[1].factors.age_days, 400);
    assert_eq!(ranked[1].score_key, 350_000);
}
