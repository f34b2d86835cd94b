//! The candidate selector: sorts the live files into buckets and picks the
//! best of each.
//!
//! A file can fall into several buckets. The score of a file is a number
//! with a fraction and is worked out by the caller; the selector receives
//! its rank.

pub mod scoring;

use crate::db::database::{digest_group, has_live_digest, live_with_digest, sum_sizes, total_size};
use crate::models::{duplicate_all, Duplicate, File};
use crate::order::{arranged, ints, is_stable_order, key1, key2, key_views, the_stable_order};
use crate::paths::{
    file_name, file_name_chars, parent_dir, parent_dir_chars, segment_texts, split_segments, texts,
};
use crate::seqs::{arrange, first_n, lemma_masked_is_filter, masked, pick_by_mask};
use crate::text::{
    chars_of, contains, find_first, has_infix, lowercase_text, occurs_at, same_chars, string_of,
    to_lowercase,
};
use scoring::{
    age_days_at, confidence_of, has_text, preview_hint_of, texts_of, Candidate,
    CandidateView, FileScorer, ScoreFactors, ScoringContext, LARGE_FILE_BYTES,
};
use vstd::prelude::*;
use vstd::string::{StrSliceExecFns, StringExecFns};

verus! {

/// Two gibibytes, in bytes: larger files are not treated as duplicates.
pub const DUPLICATE_SIZE_LIMIT: u64 = 2147483648;

/// The number of milliseconds in 72 hours.
pub const BURST_WINDOW_MS: i64 = 259200000;

/// How many files each bucket and one selection may yield.
#[derive(Debug, Clone, Copy)]
pub struct BucketConfig {
    pub screenshots_max: usize,
    pub big_downloads_max: usize,
    pub old_desktop_max: usize,
    pub duplicates_max: usize,
    pub daily_total_max: usize,
}

impl Default for BucketConfig {
    fn default() -> (out: Self)
        ensures
            out.screenshots_max == 5,
            out.big_downloads_max == 3,
            out.old_desktop_max == 2,
            out.duplicates_max == 2,
            out.daily_total_max == 12,
    {
        BucketConfig {
            screenshots_max: 5,
            big_downloads_max: 3,
            old_desktop_max: 2,
            duplicates_max: 2,
            daily_total_max: 12,
        }
    }
}

/// The limits that a selector starts with.
pub open spec fn standard_config() -> BucketConfig {
    BucketConfig {
        screenshots_max: 5,
        big_downloads_max: 3,
        old_desktop_max: 2,
        duplicates_max: 2,
        daily_total_max: 12,
    }
}

/// The files of each bucket.
#[derive(Debug, Clone)]
pub struct FileBucket {
    pub screenshots: Vec<File>,
    pub big_downloads: Vec<File>,
    pub old_desktop: Vec<File>,
    pub duplicates: Vec<File>,
}

/// A file of a bucket with what is known of it and the rank of its score.
#[derive(Debug, Clone)]
pub struct ScoredFile {
    pub file: File,
    pub factors: ScoreFactors,
    /// The rank of the score: the score in millionths.
    pub score_key: u64,
}

impl Duplicate for ScoredFile {
    fn duplicate(&self) -> (r: Self) {
        ScoredFile { file: self.file.duplicate(), factors: self.factors, score_key: self.score_key }
    }
}

/// The ranked files of each bucket.
#[derive(Debug, Clone)]
pub struct ScoredBuckets {
    pub screenshots: Vec<ScoredFile>,
    pub big_downloads: Vec<ScoredFile>,
    pub old_desktop: Vec<ScoredFile>,
    pub duplicates: Vec<ScoredFile>,
}

/// Some segment of `path` has the lower-case form `name`.
pub open spec fn has_lower_segment(path: Seq<char>, name: Seq<char>) -> bool {
    exists|i: int|
        0 <= i < segment_texts(path).len() && lowercase_text(#[trigger] segment_texts(path)[i])
            == name
}

/// The lower-case form of the file name of `path` holds `needle`.
pub open spec fn name_holds(path: Seq<char>, needle: Seq<char>) -> bool {
    has_infix(lowercase_text(file_name(path)), needle)
}

/// The file lies in a directory, at any depth, whose name has the
/// lower-case form `name`.
pub open spec fn under_dir_named(f: File, name: Seq<char>) -> bool {
    has_lower_segment(parent_dir(f.path@), name)
}

/// A screenshot: the file name holds `screenshot`, whatever the case, or
/// the file lies under a directory named `screenshots`.
pub open spec fn screenshot(f: File) -> bool {
    name_holds(f.path@, "screenshot"@) || under_dir_named(f, "screenshots"@)
}

/// A big download: under a directory named `downloads`, over one hundred
/// mebibytes, and never opened or older than 30 days.
pub open spec fn big_download(f: File, now: i64) -> bool {
    under_dir_named(f, "downloads"@) && f.size_bytes > LARGE_FILE_BYTES && (f.last_opened_at
        is None || age_days_at(f, now) > 30)
}

/// Old on the desktop: under a directory named `desktop` and older than
/// 14 days.
pub open spec fn old_desktop(f: File, now: i64) -> bool {
    under_dir_named(f, "desktop"@) && age_days_at(f, now) > 14
}

/// The identifier of the file, or zero where it has none.
pub open spec fn id_of(f: File) -> i64 {
    if f.id is Some {
        f.id->0
    } else {
        0
    }
}

/// A duplicate: at most two gibibytes and known to the context as a file
/// that has a duplicate.
pub open spec fn duplicate(f: File, ctx: ScoringContext) -> bool {
    f.size_bytes <= DUPLICATE_SIZE_LIMIT && ctx.duplicate_files@.contains(id_of(f))
}

/// The test for a screenshot.
pub open spec fn is_screenshot_test() -> spec_fn(File) -> bool {
    |f: File| screenshot(f)
}

/// The test for a big download at `now`.
pub open spec fn is_big_download_test(now: i64) -> spec_fn(File) -> bool {
    |f: File| big_download(f, now)
}

/// The test for a file that is old on the desktop at `now`.
pub open spec fn is_old_desktop_test(now: i64) -> spec_fn(File) -> bool {
    |f: File| old_desktop(f, now)
}

/// The test for a duplicate in the context `ctx`.
pub open spec fn is_duplicate_test(ctx: ScoringContext) -> spec_fn(File) -> bool {
    |f: File| duplicate(f, ctx)
}

/// The test for a live file whose full digest another live file of `files`
/// has too.
pub open spec fn shares_digest_in(files: Seq<File>) -> spec_fn(File) -> bool {
    |f: File| has_live_digest(f) && digest_group(files, f.sha1->0@).len() >= 2
}

/// The identifiers of `files`, zero where a file has none.
pub open spec fn ids_of(files: Seq<File>) -> Seq<i64> {
    Seq::new(files.len(), |i: int| id_of(files[i]))
}

/// The texts of `items`, each once, in the order in which they first
/// occur.
pub open spec fn distinct_in_order(items: Seq<Seq<char>>) -> Seq<Seq<char>>
    decreases items.len(),
{
    if items.len() == 0 {
        Seq::empty()
    } else {
        let rest = distinct_in_order(items.drop_last());
        if rest.contains(items.last()) {
            rest
        } else {
            rest.push(items.last())
        }
    }
}

/// The text `/.git/`.
pub open spec fn git_marker() -> Seq<char> {
    seq!['/', '.', 'g', 'i', 't', '/']
}

/// Where `/.git/` first occurs in `path`.
pub open spec fn git_marker_at(path: Seq<char>) -> int {
    choose|at: int|
        occurs_at(path, git_marker(), at) && forall|j: int|
            0 <= j < at ==> !occurs_at(path, git_marker(), j)
}

/// For each path that holds `/.git/`, what stands before its first
/// occurrence: the root of a repository.
pub open spec fn repo_roots(files: Seq<File>) -> Seq<Seq<char>>
    decreases files.len(),
{
    if files.len() == 0 {
        Seq::empty()
    } else {
        let rest = repo_roots(files.drop_last());
        let path = files.last().path@;
        if has_infix(path, git_marker()) {
            rest.push(path.take(git_marker_at(path)))
        } else {
            rest
        }
    }
}

/// The file was modified in the 72 hours before `now`.
pub open spec fn recently_modified(f: File, now: i64) -> bool {
    f.modified_at is Some && f.modified_at->0 > now - BURST_WINDOW_MS
}

/// The test for a file of the directory `dir` modified in the 72 hours
/// before `now`.
pub open spec fn recent_in(dir: Seq<char>, now: i64) -> spec_fn(File) -> bool {
    |f: File| recently_modified(f, now) && f.parent_dir@ == dir
}

/// The parent directories of `files`.
pub open spec fn parent_dirs(files: Seq<File>) -> Seq<Seq<char>> {
    Seq::new(files.len(), |i: int| files[i].parent_dir@)
}

/// The test for a directory that holds three or more of `files` modified
/// in the 72 hours before `now`.
pub open spec fn is_burst_dir(files: Seq<File>, now: i64) -> spec_fn(Seq<char>) -> bool {
    |dir: Seq<char>| files.filter(recent_in(dir, now)).len() >= 3
}

/// The candidate made of a ranked file for the bucket named `reason`.
pub open spec fn candidate_of(sf: ScoredFile, reason: Seq<char>) -> CandidateView {
    CandidateView {
        file_id: id_of(sf.file),
        path: sf.file.path@,
        parent_dir: sf.file.parent_dir@,
        size_bytes: sf.file.size_bytes,
        reason,
        score_key: sf.score_key,
        confidence_percent: confidence_of(sf.factors) as u8,
        preview_hint: preview_hint_of(sf.factors),
        age_days: sf.factors.age_days,
    }
}

/// For each ranked file a key that lists higher scores first and, among
/// files of one score, later sightings first.
pub open spec fn bucket_rank_keys(files: Seq<ScoredFile>) -> Seq<Seq<int>> {
    Seq::new(
        files.len(),
        |i: int| seq![-(files[i].score_key as int), -(files[i].file.last_seen_at as int)],
    )
}

/// The winners of a bucket: its `cap` best files as candidates, best
/// first.
pub open spec fn bucket_winners(files: Seq<ScoredFile>, cap: nat, reason: Seq<char>) -> Seq<
    CandidateView,
> {
    let best = first_n(arranged(files, bucket_rank_keys(files)), cap);
    Seq::new(best.len(), |k: int| candidate_of(best[k], reason))
}

/// For each candidate a key that lists higher scores first.
pub open spec fn score_desc_keys(candidates: Seq<CandidateView>) -> Seq<Seq<int>> {
    Seq::new(candidates.len(), |i: int| seq![-(candidates[i].score_key as int)])
}

/// The views of candidates.
pub open spec fn candidate_views(v: Seq<Candidate>) -> Seq<CandidateView> {
    Seq::new(v.len(), |i: int| v[i]@)
}

/// The winners of all buckets, one bucket after the other.
pub open spec fn all_winners(buckets: ScoredBuckets, config: BucketConfig) -> Seq<CandidateView> {
    bucket_winners(buckets.screenshots@, config.screenshots_max as nat, "Screenshots"@)
        + bucket_winners(buckets.big_downloads@, config.big_downloads_max as nat, "Big Downloads"@)
        + bucket_winners(buckets.old_desktop@, config.old_desktop_max as nat, "Old Desktop"@)
        + bucket_winners(buckets.duplicates@, config.duplicates_max as nat, "Duplicates"@)
}

/// One of the candidates is for the file with the identifier `id`.
pub open spec fn proposes(candidates: Seq<CandidateView>, id: i64) -> bool {
    exists|k: int| 0 <= k < candidates.len() && (#[trigger] candidates[k]).file_id == id
}

/// The candidates with one candidate for each file: of the candidates for
/// one file the first stays, and those that stay keep their order.
pub open spec fn one_per_file(candidates: Seq<CandidateView>) -> Seq<CandidateView>
    decreases candidates.len(),
{
    if candidates.len() == 0 {
        Seq::empty()
    } else {
        let rest = one_per_file(candidates.drop_last());
        if proposes(rest, candidates.last().file_id) {
            rest
        } else {
            rest.push(candidates.last())
        }
    }
}

/// The selection: the winners of all buckets, one for each file, best
/// score first, winners of one score in the order of their buckets, cut
/// to `cap`. A file that wins in several buckets is proposed for the
/// first of them.
pub open spec fn selection(buckets: ScoredBuckets, config: BucketConfig, cap: nat) -> Seq<
    CandidateView,
> {
    let all = one_per_file(all_winners(buckets, config));
    first_n(arranged(all, score_desc_keys(all)), cap)
}

/// The files of all buckets, one bucket after the other.
pub open spec fn all_bucket_files(buckets: ScoredBuckets) -> Seq<ScoredFile> {
    buckets.screenshots@ + buckets.big_downloads@ + buckets.old_desktop@ + buckets.duplicates@
}

/// No two of the ranked files have the same file identifier.
pub open spec fn distinct_file_ids(files: Seq<ScoredFile>) -> bool {
    forall|i: int, j: int|
        0 <= i < j < files.len() ==> id_of((#[trigger] files[i]).file) != id_of(
            (#[trigger] files[j]).file,
        )
}

/// No two of the candidates have the same file identifier.
pub open spec fn distinct_candidate_ids(candidates: Seq<CandidateView>) -> bool {
    forall|i: int, j: int|
        0 <= i < j < candidates.len() ==> (#[trigger] candidates[i]).file_id != (
        #[trigger] candidates[j]).file_id
}

/// Sorts the live files into buckets and picks the best of each.
#[derive(Debug, Clone, Copy)]
pub struct FileSelector {
    pub scorer: FileScorer,
    pub config: BucketConfig,
}

impl FileSelector {
    pub fn new() -> (out: FileSelector)
        ensures
            out.config.screenshots_max == 5,
            out.config.big_downloads_max == 3,
            out.config.old_desktop_max == 2,
            out.config.duplicates_max == 2,
            out.config.daily_total_max == 12,
    {
        FileSelector { scorer: FileScorer::new(), config: BucketConfig::default() }
    }

    pub fn update_config(&mut self, config: BucketConfig)
        ensures
            final(self).config == config,
            final(self).scorer == old(self).scorer,
    {
        self.config = config;
    }

    /// Whether some segment of `path_str` has the lower-case form
    /// `target_lower`.
    pub fn path_has_segment(path_str: &str, target_lower: &str) -> (r: bool)
        ensures
            r == has_lower_segment(path_str@, target_lower@),
    {
        let chars = chars_of(path_str);
        let target = chars_of(target_lower);
        let segs = split_segments(&chars);
        let mut i: usize = 0;
        while i < segs.len()
            invariant
                i <= segs.len(),
                texts(segs@) == segment_texts(path_str@),
                target@ == target_lower@,
                forall|j: int|
                    0 <= j < i ==> lowercase_text(#[trigger] segment_texts(path_str@)[j])
                        != target_lower@,
            decreases segs.len() - i,
        {
            proof {
                assert(texts(segs@)[i as int] == segs@[i as int]@);
            }
            let seg = string_of(&segs[i]);
            let lower = to_lowercase(seg.as_str());
            if same_chars(&chars_of(lower.as_str()), &target) {
                return true;
            }
            i = i + 1;
        }
        proof {
            assert(texts(segs@).len() == segs@.len());
        }
        false
    }

    /// Whether the lower-case form of the file name of `path_str` holds
    /// `needle_lower`.
    pub fn filename_contains(path_str: &str, needle_lower: &str) -> (r: bool)
        ensures
            r == name_holds(path_str@, needle_lower@),
    {
        let chars = chars_of(path_str);
        let name = string_of(&file_name_chars(&chars));
        let lower = to_lowercase(name.as_str());
        contains(&chars_of(lower.as_str()), &chars_of(needle_lower))
    }

    fn lies_under_dir_named(file: &File, name: &str) -> (r: bool)
        ensures
            r == under_dir_named(*file, name@),
    {
        let chars = chars_of(file.path.as_str());
        let dir = string_of(&parent_dir_chars(&chars));
        Self::path_has_segment(dir.as_str(), name)
    }

    /// Whether the file is a screenshot.
    pub fn is_screenshot(&self, file: &File) -> (r: bool)
        ensures
            r == screenshot(*file),
    {
        Self::filename_contains(file.path.as_str(), "screenshot") || Self::lies_under_dir_named(
            file,
            "screenshots",
        )
    }

    /// Whether the file is a big download at `now`.
    pub fn is_big_download(&self, file: &File, now: i64) -> (r: bool)
        ensures
            r == big_download(*file, now),
    {
        let in_downloads = Self::lies_under_dir_named(file, "downloads");
        let age_days = self.scorer.calculate_age_days(file, now);
        in_downloads && file.size_bytes > LARGE_FILE_BYTES && (file.last_opened_at.is_none()
            || age_days > 30)
    }

    /// Whether the file is old on the desktop at `now`.
    pub fn is_old_desktop(&self, file: &File, now: i64) -> (r: bool)
        ensures
            r == old_desktop(*file, now),
    {
        let in_desktop = Self::lies_under_dir_named(file, "desktop");
        let age_days = self.scorer.calculate_age_days(file, now);
        in_desktop && age_days > 14
    }

    /// Whether the file is a duplicate in the context.
    pub fn is_duplicate(&self, file: &File, context: &ScoringContext) -> (r: bool)
        ensures
            r == duplicate(*file, *context),
    {
        if file.size_bytes > DUPLICATE_SIZE_LIMIT {
            return false;
        }
        let id = match file.id {
            Some(id) => id,
            None => 0,
        };
        crate::db::database::contains_id(&context.duplicate_files, id)
    }

    /// The files of each bucket, in the order of `files`.
    pub fn bucket_files(&self, files: &Vec<File>, context: &ScoringContext, now: i64) -> (out:
        FileBucket)
        ensures
            out.screenshots@ == files@.filter(is_screenshot_test()),
            out.big_downloads@ == files@.filter(is_big_download_test(now)),
            out.old_desktop@ == files@.filter(is_old_desktop_test(now)),
            out.duplicates@ == files@.filter(is_duplicate_test(*context)),
    {
        let mut m0: Vec<bool> = Vec::new();
        let mut m1: Vec<bool> = Vec::new();
        let mut m2: Vec<bool> = Vec::new();
        let mut m3: Vec<bool> = Vec::new();
        let mut i: usize = 0;
        while i < files.len()
            invariant
                i <= files.len(),
                m0@.len() == i,
                m1@.len() == i,
                m2@.len() == i,
                m3@.len() == i,
                forall|j: int| 0 <= j < i ==> m0@[j] == is_screenshot_test()(#[trigger] files@[j]),
                forall|j: int|
                    0 <= j < i ==> m1@[j] == is_big_download_test(now)(#[trigger] files@[j]),
                forall|j: int|
                    0 <= j < i ==> m2@[j] == is_old_desktop_test(now)(#[trigger] files@[j]),
                forall|j: int|
                    0 <= j < i ==> m3@[j] == is_duplicate_test(*context)(#[trigger] files@[j]),
            decreases files.len() - i,
        {
            let f = &files[i];
            m0.push(self.is_screenshot(f));
            m1.push(self.is_big_download(f, now));
            m2.push(self.is_old_desktop(f, now));
            m3.push(self.is_duplicate(f, context));
            i = i + 1;
        }
        proof {
            lemma_masked_is_filter(files@, m0@, is_screenshot_test());
            lemma_masked_is_filter(files@, m1@, is_big_download_test(now));
            lemma_masked_is_filter(files@, m2@, is_old_desktop_test(now));
            lemma_masked_is_filter(files@, m3@, is_duplicate_test(*context));
        }
        FileBucket {
            screenshots: pick_by_mask(files, &m0),
            big_downloads: pick_by_mask(files, &m1),
            old_desktop: pick_by_mask(files, &m2),
            duplicates: pick_by_mask(files, &m3),
        }
    }

    fn digest_count(files: &Vec<File>, digest: &String) -> (n: usize)
        ensures
            n == digest_group(files@, digest@).len(),
    {
        let mut mask: Vec<bool> = Vec::new();
        let mut i: usize = 0;
        while i < files.len()
            invariant
                i <= files.len(),
                mask@.len() == i,
                forall|j: int|
                    0 <= j < i ==> mask@[j] == live_with_digest(digest@)(#[trigger] files@[j]),
            decreases files.len() - i,
        {
            let f = &files[i];
            let hit = !f.is_deleted && match &f.sha1 {
                Some(d) => d.as_str().unicode_len() > 0 && *d == *digest,
                None => false,
            };
            mask.push(hit);
            i = i + 1;
        }
        let group = pick_by_mask(files, &mask);
        proof {
            lemma_masked_is_filter(files@, mask@, live_with_digest(digest@));
        }
        group.len()
    }

    /// The identifiers of the live files whose full digest another live
    /// file of `files` has too, in the order of `files`.
    pub fn find_duplicates(&self, files: &Vec<File>) -> (out: Vec<i64>)
        ensures
            out@ == ids_of(files@.filter(shares_digest_in(files@))),
    {
        let mut mask: Vec<bool> = Vec::new();
        let mut i: usize = 0;
        while i < files.len()
            invariant
                i <= files.len(),
                mask@.len() == i,
                forall|j: int|
                    0 <= j < i ==> mask@[j] == shares_digest_in(files@)(#[trigger] files@[j]),
            decreases files.len() - i,
        {
            let f = &files[i];
            let hit = !f.is_deleted && match &f.sha1 {
                Some(d) => d.as_str().unicode_len() > 0 && Self::digest_count(files, d) >= 2,
                None => false,
            };
            mask.push(hit);
            i = i + 1;
        }
        let sel = pick_by_mask(files, &mask);
        proof {
            lemma_masked_is_filter(files@, mask@, shares_digest_in(files@));
        }
        let mut out: Vec<i64> = Vec::new();
        let mut k: usize = 0;
        while k < sel.len()
            invariant
                k <= sel.len(),
                out@.len() == k,
                forall|j: int| 0 <= j < k ==> out@[j] == id_of(sel@[j]),
            decreases sel.len() - k,
        {
            out.push(
                match sel[k].id {
                    Some(id) => id,
                    None => 0,
                },
            );
            k = k + 1;
        }
        assert(out@ =~= ids_of(sel@));
        out
    }

    /// The roots of the repositories that `files` show: for each path that
    /// holds `/.git/`, what stands before it; each root once, in the order
    /// in which they first occur.
    pub fn find_git_repos(&self, files: &Vec<File>) -> (out: Vec<String>)
        ensures
            texts_of(out@) == distinct_in_order(repo_roots(files@)),
            scoring::distinct_texts(out@),
    {
        let marker = chars_of("/.git/");
        proof {
            reveal_strlit("/.git/");
            assert(marker@ =~= git_marker());
        }
        let mut roots: Vec<String> = Vec::new();
        let mut i: usize = 0;
        assert(texts_of(roots@) =~= repo_roots(files@.take(0)));
        while i < files.len()
            invariant
                i <= files.len(),
                marker@ == git_marker(),
                texts_of(roots@) == repo_roots(files@.take(i as int)),
            decreases files.len() - i,
        {
            proof {
                assert(files@.take(i + 1).drop_last() == files@.take(i as int));
                assert(files@.take(i + 1).last() == files@[i as int]);
            }
            let path = chars_of(files[i].path.as_str());
            match find_first(&path, &marker) {
                Some(at) => {
                    let root = string_of(&crate::paths::slice_chars(&path, 0, at));
                    let ghost before = texts_of(roots@);
                    proof {
                        assert(has_infix(path@, git_marker()));
                        let c = git_marker_at(path@);
                        assert(occurs_at(path@, git_marker(), c) && forall|j: int|
                            0 <= j < c ==> !occurs_at(path@, git_marker(), j));
                        assert(c == at);
                        assert(path@.subrange(0, at as int) == path@.take(at as int));
                    }
                    roots.push(root);
                    assert(texts_of(roots@) =~= before.push(path@.take(at as int)));
                },
                None => {},
            }
            i = i + 1;
        }
        assert(files@.take(files@.len() as int) == files@);
        dedupe(&roots)
    }

    fn recent_count(files: &Vec<File>, dir: &String, now: i64) -> (n: usize)
        ensures
            n == files@.filter(recent_in(dir@, now)).len(),
    {
        let mut mask: Vec<bool> = Vec::new();
        let mut i: usize = 0;
        while i < files.len()
            invariant
                i <= files.len(),
                mask@.len() == i,
                forall|j: int|
                    0 <= j < i ==> mask@[j] == recent_in(dir@, now)(#[trigger] files@[j]),
            decreases files.len() - i,
        {
            let f = &files[i];
            let recent = match f.modified_at {
                Some(t) => (t as i128) > (now as i128) - (BURST_WINDOW_MS as i128),
                None => false,
            };
            mask.push(recent && f.parent_dir == *dir);
            i = i + 1;
        }
        let group = pick_by_mask(files, &mask);
        proof {
            lemma_masked_is_filter(files@, mask@, recent_in(dir@, now));
        }
        group.len()
    }

    /// The directories that hold three or more of `files` modified in the
    /// 72 hours before `now`; each once, in the order in which they first
    /// occur as a parent directory.
    pub fn find_burst_directories(&self, files: &Vec<File>, now: i64) -> (out: Vec<String>)
        ensures
            texts_of(out@) == distinct_in_order(parent_dirs(files@)).filter(
                is_burst_dir(files@, now),
            ),
            scoring::distinct_texts(out@),
    {
        let mut dirs: Vec<String> = Vec::new();
        let mut i: usize = 0;
        while i < files.len()
            invariant
                i <= files.len(),
                dirs@.len() == i,
                forall|j: int| 0 <= j < i ==> (#[trigger] dirs@[j]) == files@[j].parent_dir,
            decreases files.len() - i,
        {
            dirs.push(files[i].parent_dir.clone());
            i = i + 1;
        }
        assert(texts_of(dirs@) =~= parent_dirs(files@));
        let unique = dedupe(&dirs);
        let ghost all = distinct_in_order(parent_dirs(files@));
        let mut mask: Vec<bool> = Vec::new();
        let mut i: usize = 0;
        while i < unique.len()
            invariant
                i <= unique.len(),
                mask@.len() == i,
                texts_of(unique@) == all,
                forall|j: int|
                    0 <= j < i ==> mask@[j] == is_burst_dir(files@, now)(#[trigger] all[j]),
            decreases unique.len() - i,
        {
            assert(texts_of(unique@)[i as int] == unique@[i as int]@);
            mask.push(Self::recent_count(files, &unique[i], now) >= 3);
            i = i + 1;
        }
        let out = pick_by_mask(&unique, &mask);
        proof {
            lemma_masked_texts(unique@, mask@);
            lemma_masked_is_filter(all, mask@, is_burst_dir(files@, now));
            lemma_masked_keeps_distinct(unique@, mask@);
        }
        out
    }

    /// What the selector finds out about `files` as a whole at `now`.
    pub fn create_scoring_context(&self, files: &Vec<File>, now: i64) -> (out: ScoringContext)
        ensures
            out.wf(),
            forall|id: i64|
                out.duplicate_files@.contains(id) <==> ids_of(
                    files@.filter(shares_digest_in(files@)),
                ).contains(id),
            forall|t: Seq<char>|
                texts_of(out.git_repos@).contains(t) <==> distinct_in_order(
                    repo_roots(files@),
                ).contains(t),
            forall|t: Seq<char>|
                texts_of(out.burst_directories@).contains(t) <==> distinct_in_order(
                    parent_dirs(files@),
                ).filter(is_burst_dir(files@, now)).contains(t),
    {
        let mut context = ScoringContext::new();
        let duplicates = self.find_duplicates(files);
        context.add_duplicate_files(duplicates);
        let git_repos = self.find_git_repos(files);
        context.add_git_repos(git_repos);
        let burst_dirs = self.find_burst_directories(files, now);
        context.add_burst_directories(burst_dirs);
        proof {
            assert forall|id: i64|
                context.duplicate_files@.contains(id) <==> ids_of(
                    files@.filter(shares_digest_in(files@)),
                ).contains(id) by {
                assert(!Seq::<i64>::empty().contains(id));
            }
            assert forall|t: Seq<char>|
                texts_of(context.git_repos@).contains(t) <==> distinct_in_order(
                    repo_roots(files@),
                ).contains(t) by {
                assert(!texts_of(Seq::<String>::empty()).contains(t));
            }
            assert forall|t: Seq<char>|
                texts_of(context.burst_directories@).contains(t) <==> distinct_in_order(
                    parent_dirs(files@),
                ).filter(is_burst_dir(files@, now)).contains(t) by {
                assert(!texts_of(Seq::<String>::empty()).contains(t));
            }
        }
        context
    }
}

/// The strings of `items`, each text once, in the order in which they
/// first occur.
pub fn dedupe(items: &Vec<String>) -> (out: Vec<String>)
    ensures
        texts_of(out@) == distinct_in_order(texts_of(items@)),
        scoring::distinct_texts(out@),
{
    let mut out: Vec<String> = Vec::new();
    let mut i: usize = 0;
    assert(texts_of(items@).take(0) =~= Seq::<Seq<char>>::empty());
    assert(texts_of(out@) =~= distinct_in_order(texts_of(items@).take(0)));
    while i < items.len()
        invariant
            i <= items.len(),
            texts_of(out@) == distinct_in_order(texts_of(items@).take(i as int)),
            scoring::distinct_texts(out@),
        decreases items.len() - i,
    {
        proof {
            let t = texts_of(items@);
            assert(t.take(i + 1).drop_last() == t.take(i as int));
            assert(t.take(i + 1).last() == items@[i as int]@);
        }
        if !has_text(&out, &items[i]) {
            let ghost before = out@;
            out.push(items[i].clone());
            proof {
                assert(texts_of(out@) =~= texts_of(before).push(items@[i as int]@));
                assert forall|a: int, b: int| 0 <= a < b < out@.len() implies (#[trigger] out@[a])@
                    != (#[trigger] out@[b])@ by {
                    if b == before.len() {
                        assert(texts_of(before)[a] == before[a]@);
                    }
                }
            }
        }
        i = i + 1;
    }
    proof {
        assert(texts_of(items@).take(items@.len() as int) == texts_of(items@));
    }
    out
}

/// Selecting strings by a mask and reading their texts is selecting their
/// texts by the mask.
pub proof fn lemma_masked_texts(items: Seq<String>, mask: Seq<bool>)
    requires
        items.len() == mask.len(),
    ensures
        texts_of(masked(items, mask)) == masked(texts_of(items), mask),
    decreases items.len(),
{
    if items.len() > 0 {
        lemma_masked_texts(items.drop_last(), mask.drop_last());
        assert(texts_of(items).drop_last() =~= texts_of(items.drop_last()));
        assert(texts_of(items).last() == items.last()@);
    }
    assert(texts_of(masked(items, mask)) =~= masked(texts_of(items), mask));
}

/// Selecting from strings with distinct texts gives strings with distinct
/// texts, each of which is one of the strings selected from.
pub proof fn lemma_masked_keeps_distinct(items: Seq<String>, mask: Seq<bool>)
    requires
        items.len() == mask.len(),
        scoring::distinct_texts(items),
    ensures
        scoring::distinct_texts(masked(items, mask)),
        forall|k: int|
            0 <= k < masked(items, mask).len() ==> items.contains(#[trigger] masked(items, mask)[k]),
    decreases items.len(),
{
    if items.len() > 0 {
        let a = items.drop_last();
        let m = mask.drop_last();
        assert forall|i: int, j: int| 0 <= i < j < a.len() implies (#[trigger] a[i])@ != (
        #[trigger] a[j])@ by {
            assert(a[i] == items[i] && a[j] == items[j]);
        }
        lemma_masked_keeps_distinct(a, m);
        let out = masked(items, mask);
        assert forall|k: int| 0 <= k < out.len() implies items.contains(#[trigger] out[k]) by {
            if k < masked(a, m).len() {
                assert(a.contains(masked(a, m)[k]));
                let w = choose|w: int| 0 <= w < a.len() && a[w] == masked(a, m)[k];
                assert(items[w] == out[k]);
            } else {
                assert(out[k] == items[items.len() - 1]);
            }
        }
        assert forall|i: int, j: int| 0 <= i < j < out.len() implies (#[trigger] out[i])@ != (
        #[trigger] out[j])@ by {
            if j == masked(a, m).len() {
                assert(a.contains(masked(a, m)[i]));
                let w = choose|w: int| 0 <= w < a.len() && a[w] == masked(a, m)[i];
                assert(items[w]@ != items[items.len() - 1]@);
            }
        }
    }
}

/// The size part of the score of file `k`, in millionths: what `shares`
/// holds for it, or nothing where it holds too few.
pub open spec fn share_at(shares: Seq<u32>, k: int) -> u32 {
    if 0 <= k < shares.len() {
        shares[k]
    } else {
        0
    }
}

impl FileSelector {
    /// The files with what is known of them and their scores, in their
    /// order. `size_shares` holds for each file the size part of its score
    /// in millionths.
    pub fn rank_files(
        &self,
        files: &Vec<File>,
        size_shares: &Vec<u32>,
        context: &ScoringContext,
        now: i64,
    ) -> (out: Vec<ScoredFile>)
        ensures
            out@.len() == files@.len(),
            ranks_are_scores(out@),
            forall|k: int|
                0 <= k < out@.len() ==> {
                    &&& (#[trigger] out@[k]).file == files@[k]
                    &&& out@[k].factors == scoring::factors_of(files@[k], *context, now)
                    &&& out@[k].score_key == scoring::score_of(
                        out@[k].factors,
                        share_at(size_shares@, k),
                        self.scorer.max_age_days,
                    )
                },
    {
        let mut out: Vec<ScoredFile> = Vec::new();
        let mut i: usize = 0;
        while i < files.len()
            invariant
                i <= files.len(),
                out@.len() == i,
                forall|k: int|
                    0 <= k < i ==> {
                        &&& (#[trigger] out@[k]).file == files@[k]
                        &&& out@[k].factors == scoring::factors_of(files@[k], *context, now)
                        &&& out@[k].score_key == scoring::score_of(
                            out@[k].factors,
                            share_at(size_shares@, k),
                            self.scorer.max_age_days,
                        )
                    },
            decreases files.len() - i,
        {
            let share: u32 = if i < size_shares.len() {
                size_shares[i]
            } else {
                0
            };
            let factors = self.scorer.extract_score_factors(&files[i], context, now);
            let score = self.scorer.calculate_score(&factors, share);
            out.push(ScoredFile { file: files[i].duplicate(), factors, score_key: score as u64 });
            i = i + 1;
        }
        out
    }

    /// The `max_count` best files of a bucket as candidates, best first:
    /// higher scores first and, among files of one score, later sightings
    /// first.
    ///
    /// Each candidate stands for a different position of `files`; where no
    /// two of `files` have the same identifier, no two candidates have.
    pub fn select_from_bucket(&self, files: &Vec<ScoredFile>, max_count: usize, reason: &str) -> (out:
        Vec<Candidate>)
        ensures
            candidate_views(out@) == bucket_winners(files@, max_count as nat, reason@),
            stands_for_file_of(out@, files@),
            distinct_file_ids(files@) ==> distinct_candidate_ids(candidate_views(out@)),
            confidences_in_range(out@),
            ranks_are_scores(files@) ==> scores_in_range(out@),
    {
        let mut keys: Vec<Vec<i128>> = Vec::new();
        let mut i: usize = 0;
        while i < files.len()
            invariant
                i <= files.len(),
                keys@.len() == i,
                forall|j: int|
                    0 <= j < i ==> ints((#[trigger] keys@[j])@) == seq![
                        -(files@[j].score_key as int),
                        -(files@[j].file.last_seen_at as int),
                    ],
            decreases files.len() - i,
        {
            keys.push(key2(-(files[i].score_key as i128), -(files[i].file.last_seen_at as i128)));
            i = i + 1;
        }
        let ghost kv = bucket_rank_keys(files@);
        assert(key_views(keys@) =~= kv);
        let mut best = arrange(files, &keys);
        proof {
            crate::seqs::lemma_arranged_same_items(files@, kv);
            if distinct_file_ids(files@) {
                crate::seqs::lemma_arranged_keeps_distinct(
                    files@,
                    kv,
                    |sf: ScoredFile| id_of(sf.file) as int,
                );
            }
        }
        let ghost ranked = best@;
        if max_count < best.len() {
            best.truncate(max_count);
        }
        assert(best@ == first_n(ranked, max_count as nat));
        let mut out: Vec<Candidate> = Vec::new();
        let mut k: usize = 0;
        while k < best.len()
            invariant
                k <= best.len(),
                out@.len() == k,
                forall|j: int|
                    0 <= j < k ==> (#[trigger] out@[j])@ == candidate_of(best@[j], reason@),
            decreases best.len() - k,
        {
            let sf = &best[k];
            out.push(
                Candidate {
                    file_id: match sf.file.id {
                        Some(id) => id,
                        None => 0,
                    },
                    path: sf.file.path.clone(),
                    parent_dir: sf.file.parent_dir.clone(),
                    size_bytes: sf.file.size_bytes,
                    reason: String::from_str(reason),
                    score_key: sf.score_key,
                    confidence_percent: self.scorer.calculate_confidence(&sf.factors),
                    preview_hint: self.scorer.generate_preview_hint(&sf.factors),
                    age_days: sf.factors.age_days,
                },
            );
            k = k + 1;
        }
        proof {
            assert(candidate_views(out@) =~= bucket_winners(files@, max_count as nat, reason@));
            assert forall|x: int| 0 <= x < out@.len() implies has_file_with_id(
                files@,
                (#[trigger] out@[x]).file_id,
            ) by {
                assert(best@[x] == ranked[x]);
                assert(files@.contains(ranked[x]));
                let j = choose|j: int| 0 <= j < files@.len() && files@[j] == ranked[x];
                assert(out@[x]@ == candidate_of(best@[x], reason@));
                assert(id_of(files@[j].file) == out@[x].file_id);
            }
            assert forall|x: int| 0 <= x < out@.len() implies (
            #[trigger] out@[x]).confidence_percent <= 100 by {
                assert(out@[x]@ == candidate_of(best@[x], reason@));
            }
            if ranks_are_scores(files@) {
                assert forall|x: int| 0 <= x < out@.len() implies (#[trigger] out@[x]).score_key
                    <= scoring::SCORE_ONE by {
                    assert(best@[x] == ranked[x]);
                    assert(files@.contains(ranked[x]));
                    let j = choose|j: int| 0 <= j < files@.len() && files@[j] == ranked[x];
                    assert(out@[x]@ == candidate_of(best@[x], reason@));
                    assert(files@[j].score_key <= scoring::SCORE_ONE);
                }
            }
            if distinct_file_ids(files@) {
                let views = candidate_views(out@);
                assert forall|a: int, b: int| 0 <= a < b < views.len() implies (
                #[trigger] views[a]).file_id != (#[trigger] views[b]).file_id by {
                    assert(out@[a]@ == candidate_of(best@[a], reason@));
                    assert(out@[b]@ == candidate_of(best@[b], reason@));
                    assert(best@[a] == ranked[a] && best@[b] == ranked[b]);
                    let mark = |sf: ScoredFile| id_of(sf.file) as int;
                    assert(mark(ranked[a]) != mark(ranked[b]));
                }
            }
        }
        out
    }

    /// The selection: the winners of all buckets, one for each file, best
    /// score first, cut to `max_total`, or to the configured total where
    /// none is given. No file is proposed twice.
    pub fn select_candidates(&self, buckets: &ScoredBuckets, max_total: Option<usize>) -> (out:
        Vec<Candidate>)
        ensures
            candidate_views(out@) == selection(
                *buckets,
                self.config,
                match max_total {
                    Some(n) => n as nat,
                    None => self.config.daily_total_max as nat,
                },
            ),
            distinct_candidate_ids(candidate_views(out@)),
            confidences_in_range(out@),
            ranks_are_scores(all_bucket_files(*buckets)) ==> scores_in_range(out@),
    {
        let w0 = self.select_from_bucket(
            &buckets.screenshots,
            self.config.screenshots_max,
            "Screenshots",
        );
        let w1 = self.select_from_bucket(
            &buckets.big_downloads,
            self.config.big_downloads_max,
            "Big Downloads",
        );
        let w2 = self.select_from_bucket(
            &buckets.old_desktop,
            self.config.old_desktop_max,
            "Old Desktop",
        );
        let w3 = self.select_from_bucket(
            &buckets.duplicates,
            self.config.duplicates_max,
            "Duplicates",
        );
        let mut all: Vec<Candidate> = Vec::new();
        append_candidates(&mut all, &w0);
        append_candidates(&mut all, &w1);
        append_candidates(&mut all, &w2);
        append_candidates(&mut all, &w3);
        proof {
            assert(all@ =~= w0@ + w1@ + w2@ + w3@);
            assert(candidate_views(all@) =~= candidate_views(w0@) + candidate_views(w1@)
                + candidate_views(w2@) + candidate_views(w3@));
            assert(candidate_views(all@) == all_winners(*buckets, self.config));
            assert(confidences_in_range(all@));
            if ranks_are_scores(all_bucket_files(*buckets)) {
                let files = all_bucket_files(*buckets);
                let b0 = buckets.screenshots@;
                let b1 = buckets.big_downloads@;
                let b2 = buckets.old_desktop@;
                let b3 = buckets.duplicates@;
                assert forall|x: int| 0 <= x < b0.len() implies (#[trigger] b0[x]).score_key
                    <= scoring::SCORE_ONE by {
                    assert(files[x] == b0[x]);
                }
                assert forall|x: int| 0 <= x < b1.len() implies (#[trigger] b1[x]).score_key
                    <= scoring::SCORE_ONE by {
                    assert(files[b0.len() + x] == b1[x]);
                }
                assert forall|x: int| 0 <= x < b2.len() implies (#[trigger] b2[x]).score_key
                    <= scoring::SCORE_ONE by {
                    assert(files[b0.len() + b1.len() + x] == b2[x]);
                }
                assert forall|x: int| 0 <= x < b3.len() implies (#[trigger] b3[x]).score_key
                    <= scoring::SCORE_ONE by {
                    assert(files[b0.len() + b1.len() + b2.len() + x] == b3[x]);
                }
                assert(scores_in_range(all@));
            }
        }
        let one = keep_one_per_file(&all);
        let ghost winners = candidate_views(one@);
        let mut keys: Vec<Vec<i128>> = Vec::new();
        let mut i: usize = 0;
        while i < one.len()
            invariant
                i <= one.len(),
                keys@.len() == i,
                forall|j: int|
                    0 <= j < i ==> ints((#[trigger] keys@[j])@) == seq![-(one@[j].score_key as int)],
            decreases one.len() - i,
        {
            keys.push(key1(-(one[i].score_key as i128)));
            i = i + 1;
        }
        let ghost kv = score_desc_keys(winners);
        assert(key_views(keys@) =~= kv);
        let mut out = arrange(&one, &keys);
        let ghost ranked = out@;
        proof {
            assert(candidate_views(ranked) =~= arranged(winners, kv));
        }
        let cap = match max_total {
            Some(n) => n,
            None => self.config.daily_total_max,
        };
        if cap < out.len() {
            out.truncate(cap);
        }
        proof {
            assert(out@ == first_n(ranked, cap as nat));
            assert(candidate_views(out@) =~= first_n(arranged(winners, kv), cap as nat));
            crate::seqs::lemma_arranged_same_items(one@, kv);
            assert forall|x: int| 0 <= x < out@.len() implies (
            #[trigger] out@[x]).confidence_percent <= 100 by {
                assert(out@[x] == ranked[x]);
                assert(one@.contains(ranked[x]));
                assert(all@.contains(ranked[x]));
            }
            if ranks_are_scores(all_bucket_files(*buckets)) {
                assert forall|x: int| 0 <= x < out@.len() implies (#[trigger] out@[x]).score_key
                    <= scoring::SCORE_ONE by {
                    assert(out@[x] == ranked[x]);
                    assert(one@.contains(ranked[x]));
                    assert(all@.contains(ranked[x]));
                }
            }
            assert forall|x: int, y: int| 0 <= x < y < one@.len() implies (
            #[trigger] one@[x]).file_id as int != (#[trigger] one@[y]).file_id as int by {
                assert(winners[x].file_id != winners[y].file_id);
            }
            crate::seqs::lemma_arranged_keeps_distinct(
                one@,
                kv,
                |c: Candidate| c.file_id as int,
            );
            let views = candidate_views(out@);
            assert forall|a: int, b: int| 0 <= a < b < views.len() implies (
            #[trigger] views[a]).file_id != (#[trigger] views[b]).file_id by {
                let mark = |c: Candidate| c.file_id as int;
                assert(out@[a] == ranked[a] && out@[b] == ranked[b]);
                assert(mark(ranked[a]) != mark(ranked[b]));
            }
        }
        out
    }

    /// The candidates of the day: the selection from the ranked buckets,
    /// cut to `max_total`, or to the configured total where none is
    /// given. No file is proposed twice.
    pub fn daily_candidates(&self, max_total: Option<usize>, buckets: &ScoredBuckets) -> (out: Vec<
        Candidate,
    >)
        ensures
            candidate_views(out@) == selection(
                *buckets,
                self.config,
                match max_total {
                    Some(n) => n as nat,
                    None => self.config.daily_total_max as nat,
                },
            ),
            distinct_candidate_ids(candidate_views(out@)),
            confidences_in_range(out@),
            ranks_are_scores(all_bucket_files(*buckets)) ==> scores_in_range(out@),
    {
        self.select_candidates(buckets, max_total)
    }

    /// How many files each bucket holds, under the names `screenshots`,
    /// `big_downloads`, `old_desktop` and `duplicates`, in that order.
    pub fn get_bucket_stats(&self, buckets: &FileBucket) -> (out: Vec<(String, usize)>)
        ensures
            out@.len() == 4,
            out@[0].0@ == "screenshots"@ && out@[0].1 == buckets.screenshots@.len(),
            out@[1].0@ == "big_downloads"@ && out@[1].1 == buckets.big_downloads@.len(),
            out@[2].0@ == "old_desktop"@ && out@[2].1 == buckets.old_desktop@.len(),
            out@[3].0@ == "duplicates"@ && out@[3].1 == buckets.duplicates@.len(),
    {
        let mut out: Vec<(String, usize)> = Vec::new();
        out.push((String::from_str("screenshots"), buckets.screenshots.len()));
        out.push((String::from_str("big_downloads"), buckets.big_downloads.len()));
        out.push((String::from_str("old_desktop"), buckets.old_desktop.len()));
        out.push((String::from_str("duplicates"), buckets.duplicates.len()));
        out
    }
}

/// Every rank is a score: at most a full score.
pub open spec fn ranks_are_scores(files: Seq<ScoredFile>) -> bool {
    forall|i: int| 0 <= i < files.len() ==> (#[trigger] files[i]).score_key <= scoring::SCORE_ONE
}

/// The confidence of every candidate is in range: at most 100 hundredths.
pub open spec fn confidences_in_range(candidates: Seq<Candidate>) -> bool {
    forall|k: int| 0 <= k < candidates.len() ==> (#[trigger] candidates[k]).confidence_percent <= 100
}

/// The score of every candidate is in range: at most a full score.
pub open spec fn scores_in_range(candidates: Seq<Candidate>) -> bool {
    forall|k: int|
        0 <= k < candidates.len() ==> (#[trigger] candidates[k]).score_key <= scoring::SCORE_ONE
}

/// A winner stands for a file of its bucket.
pub open spec fn stands_for_file_of(w: Seq<Candidate>, b: Seq<ScoredFile>) -> bool {
    forall|k: int| 0 <= k < w.len() ==> has_file_with_id(b, (#[trigger] w[k]).file_id)
}

/// One of the ranked files has the identifier `id`.
pub open spec fn has_file_with_id(b: Seq<ScoredFile>, id: i64) -> bool {
    exists|j: int| 0 <= j < b.len() && id_of((#[trigger] b[j]).file) == id
}

/// Whether one of the candidates is for the file with the identifier
/// `id`.
pub fn has_candidate_for(candidates: &Vec<Candidate>, id: i64) -> (r: bool)
    ensures
        r == proposes(candidate_views(candidates@), id),
{
    let mut i: usize = 0;
    while i < candidates.len()
        invariant
            i <= candidates.len(),
            forall|k: int| 0 <= k < i ==> (#[trigger] candidates@[k]).file_id != id,
        decreases candidates.len() - i,
    {
        if candidates[i].file_id == id {
            assert(candidate_views(candidates@)[i as int].file_id == id);
            return true;
        }
        i = i + 1;
    }
    proof {
        let views = candidate_views(candidates@);
        if proposes(views, id) {
            let k = choose|k: int| 0 <= k < views.len() && (#[trigger] views[k]).file_id == id;
            assert(candidates@[k].file_id == id);
        }
    }
    false
}

/// The candidates with one candidate for each file: of the candidates for
/// one file the first stays, and those that stay keep their order.
pub fn keep_one_per_file(candidates: &Vec<Candidate>) -> (out: Vec<Candidate>)
    ensures
        candidate_views(out@) == one_per_file(candidate_views(candidates@)),
        distinct_candidate_ids(candidate_views(out@)),
        forall|k: int| 0 <= k < out@.len() ==> candidates@.contains(#[trigger] out@[k]),
{
    let mut out: Vec<Candidate> = Vec::new();
    let mut i: usize = 0;
    let ghost views = candidate_views(candidates@);
    proof {
        assert(views.take(0) =~= Seq::<CandidateView>::empty());
        assert(candidate_views(out@) =~= one_per_file(views.take(0)));
    }
    while i < candidates.len()
        invariant
            i <= candidates.len(),
            views == candidate_views(candidates@),
            candidate_views(out@) == one_per_file(views.take(i as int)),
            distinct_candidate_ids(candidate_views(out@)),
            forall|k: int| 0 <= k < out@.len() ==> candidates@.contains(#[trigger] out@[k]),
        decreases candidates.len() - i,
    {
        proof {
            assert(views.take(i + 1).drop_last() == views.take(i as int));
            assert(views.take(i + 1).last() == candidates@[i as int]@);
        }
        if !has_candidate_for(&out, candidates[i].file_id) {
            let ghost before = out@;
            out.push(candidates[i].duplicate());
            proof {
                assert(out@[before.len() as int] == candidates@[i as int]);
                assert(candidate_views(out@) =~= candidate_views(before).push(
                    candidates@[i as int]@,
                ));
                let now = candidate_views(out@);
                assert forall|a: int, b: int| 0 <= a < b < now.len() implies (
                #[trigger] now[a]).file_id != (#[trigger] now[b]).file_id by {
                    if b == before.len() {
                        assert(candidate_views(before)[a].file_id == now[a].file_id);
                    } else {
                        assert(candidate_views(before)[a].file_id != candidate_views(
                            before,
                        )[b].file_id);
                    }
                }
                assert forall|k: int| 0 <= k < out@.len() implies candidates@.contains(
                    #[trigger] out@[k],
                ) by {
                    if k < before.len() {
                        assert(out@[k] == before[k]);
                    }
                }
            }
        }
        i = i + 1;
    }
    proof {
        assert(views.take(views.len() as int) == views);
    }
    out
}

/// Appends copies of `more` to `all`.
pub fn append_candidates(all: &mut Vec<Candidate>, more: &Vec<Candidate>)
    ensures
        final(all)@ == old(all)@ + more@,
{
    let mut i: usize = 0;
    while i < more.len()
        invariant
            i <= more.len(),
            all@ == old(all)@ + more@.take(i as int),
        decreases more.len() - i,
    {
        all.push(Candidate::duplicate(&more[i]));
        i = i + 1;
        assert(more@.take(i as int) == more@.take(i - 1).push(more@[i - 1]));
    }
    assert(more@.take(more@.len() as int) == more@);
}

/// The sum of the sizes of the candidates, capped at the largest `u64`.
pub open spec fn candidates_size(candidates: Seq<Candidate>) -> nat
    decreases candidates.len(),
{
    if candidates.len() == 0 {
        0
    } else {
        let sum = candidates_size(candidates.drop_last()) + candidates.last().size_bytes;
        if sum > u64::MAX {
            u64::MAX as nat
        } else {
            sum as nat
        }
    }
}

/// The sum of the sizes of the candidates, capped at the largest `u64`.
pub fn sum_candidate_sizes(candidates: &Vec<Candidate>) -> (sum: u64)
    ensures
        sum == candidates_size(candidates@),
{
    let mut sum: u64 = 0;
    let mut i: usize = 0;
    while i < candidates.len()
        invariant
            i <= candidates.len(),
            sum == candidates_size(candidates@.take(i as int)),
        decreases candidates.len() - i,
    {
        proof {
            assert(candidates@.take(i + 1).drop_last() == candidates@.take(i as int));
            assert(candidates@.take(i + 1).last() == candidates@[i as int]);
        }
        sum = sum.saturating_add(candidates[i].size_bytes);
        i = i + 1;
    }
    assert(candidates@.take(candidates@.len() as int) == candidates@);
    sum
}

} // verus!
