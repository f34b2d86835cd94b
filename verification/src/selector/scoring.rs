//! What is known of a file when it is ranked, and how sure the ranking is.
//!
//! A score is carried as a rank: an unsigned number that orders as the
//! scores do. A confidence is a whole number of hundredths.

use crate::models::File;
use crate::paths::within_root;
use crate::text::{
    chars_of, contains, has_infix, lowercase_text, push_all, push_text, string_of, to_lowercase,
};
use vstd::prelude::*;
use vstd::string::StringExecFns;

verus! {

/// One hundred mebibytes, in bytes.
pub const LARGE_FILE_BYTES: u64 = 104857600;

/// The number of milliseconds in a day.
pub const DAY_MS: i64 = 86400000;

/// What is known of a file when it is ranked.
#[derive(Debug, Clone, Copy)]
pub struct ScoreFactors {
    pub size_bytes: u64,
    pub age_days: i64,
    pub is_duplicate: bool,
    pub is_unopened: bool,
    pub has_keyword_flag: bool,
    pub in_git_repo: bool,
    pub recent_sibling_burst: bool,
}

/// A file proposed for disposal.
#[derive(Debug, Clone)]
pub struct Candidate {
    pub file_id: i64,
    pub path: String,
    pub parent_dir: String,
    pub size_bytes: u64,
    pub reason: String,
    /// The rank of the score: the score in millionths.
    pub score_key: u64,
    /// The confidence in hundredths, from 0 to 100.
    pub confidence_percent: u8,
    pub preview_hint: String,
    pub age_days: i64,
}

/// A candidate, its texts as sequences of characters.
pub struct CandidateView {
    pub file_id: i64,
    pub path: Seq<char>,
    pub parent_dir: Seq<char>,
    pub size_bytes: u64,
    pub reason: Seq<char>,
    pub score_key: u64,
    pub confidence_percent: u8,
    pub preview_hint: Seq<char>,
    pub age_days: i64,
}

impl View for Candidate {
    type V = CandidateView;

    open spec fn view(&self) -> CandidateView {
        CandidateView {
            file_id: self.file_id,
            path: self.path@,
            parent_dir: self.parent_dir@,
            size_bytes: self.size_bytes,
            reason: self.reason@,
            score_key: self.score_key,
            confidence_percent: self.confidence_percent,
            preview_hint: self.preview_hint@,
            age_days: self.age_days,
        }
    }
}

impl Candidate {
    /// A copy of the candidate.
    pub fn duplicate(&self) -> (out: Candidate)
        ensures
            out@ == self@,
            out == *self,
    {
        Candidate {
            file_id: self.file_id,
            path: self.path.clone(),
            parent_dir: self.parent_dir.clone(),
            size_bytes: self.size_bytes,
            reason: self.reason.clone(),
            score_key: self.score_key,
            confidence_percent: self.confidence_percent,
            preview_hint: self.preview_hint.clone(),
            age_days: self.age_days,
        }
    }
}

impl crate::models::Duplicate for Candidate {
    fn duplicate(&self) -> (r: Self) {
        Candidate::duplicate(self)
    }
}

/// The time from which the age of a file counts: when it was last
/// accessed, else when it was last modified, else when it was last seen.
pub open spec fn age_reference(f: File) -> i64 {
    if f.accessed_at is Some {
        f.accessed_at->0
    } else if f.modified_at is Some {
        f.modified_at->0
    } else {
        f.last_seen_at
    }
}

/// The whole days from `then` to `now`, rounded toward zero.
pub open spec fn whole_days_between(then: i64, now: i64) -> int {
    let diff = now - then;
    if diff >= 0 {
        diff / (DAY_MS as int)
    } else {
        -((-diff) / (DAY_MS as int))
    }
}

/// The age of a file at `now`, in whole days.
pub open spec fn age_days_at(f: File, now: i64) -> int {
    whole_days_between(age_reference(f), now)
}

/// The words that mark a path as part of work in progress.
pub open spec fn keywords() -> Seq<Seq<char>> {
    seq!["current"@, "project"@, "active"@, "wip"@, "final"@]
}

/// The lower-case form of the path holds one of the keywords.
pub open spec fn flagged_by_keyword(path: Seq<char>) -> bool {
    exists|k: int| 0 <= k < keywords().len() && has_infix(lowercase_text(path), #[trigger] keywords()[k])
}

/// The confidence in hundredths before it is held to the range 0 to 100:
/// 50, plus 20 for a duplicate, 15 for an unopened file older than 30
/// days and 10 for a file over one hundred mebibytes, minus 20 in a
/// repository, 10 for a keyword and 15 for recent activity beside it.
pub open spec fn raw_confidence(x: ScoreFactors) -> int {
    50 + (if x.is_duplicate {
        20int
    } else {
        0
    }) + (if x.is_unopened && x.age_days > 30 {
        15int
    } else {
        0
    }) + (if x.size_bytes > LARGE_FILE_BYTES {
        10int
    } else {
        0
    }) - (if x.in_git_repo {
        20int
    } else {
        0
    }) - (if x.has_keyword_flag {
        10int
    } else {
        0
    }) - (if x.recent_sibling_burst {
        15int
    } else {
        0
    })
}

/// A full score, and a full share: scores and shares are counted in
/// millionths.
pub const SCORE_ONE: u32 = 1000000;

/// The age part of a score, in millionths: nothing for a file that is not
/// a day old, the age over the full age for an older one, and at most a
/// full share.
pub open spec fn age_share(age_days: i64, max_age_days: u32) -> int {
    if age_days <= 0 {
        0
    } else if max_age_days == 0 || age_days >= max_age_days {
        SCORE_ONE as int
    } else {
        age_days * SCORE_ONE / (max_age_days as int)
    }
}

/// The parts of a score, weighed and summed, in hundredths of a
/// millionth: 45 for the size, 25 for the age, 20 for a duplicate, 10 for
/// a file that was never opened; less 30 for a keyword, 80 for a
/// repository and 70 for a burst of changes beside the file.
pub open spec fn weighed_parts(x: ScoreFactors, size_share: int, age_share: int) -> int {
    45 * size_share + 25 * age_share + (if x.is_duplicate {
        20 * SCORE_ONE
    } else {
        0
    }) + (if x.is_unopened {
        10 * SCORE_ONE
    } else {
        0
    }) - (if x.has_keyword_flag {
        30 * SCORE_ONE
    } else {
        0
    }) - (if x.in_git_repo {
        80 * SCORE_ONE
    } else {
        0
    }) - (if x.recent_sibling_burst {
        70 * SCORE_ONE
    } else {
        0
    })
}

/// The score in millionths, held to the range from nothing to a full
/// score. `size_share` is the size part in millionths; what it holds
/// above a full share does not count.
pub open spec fn score_of(x: ScoreFactors, size_share: u32, max_age_days: u32) -> int {
    let size = if size_share > SCORE_ONE {
        SCORE_ONE as int
    } else {
        size_share as int
    };
    let sum = weighed_parts(x, size, age_share(x.age_days, max_age_days));
    if sum <= 0 {
        0
    } else if sum / 100 >= SCORE_ONE {
        SCORE_ONE as int
    } else {
        sum / 100
    }
}

/// The confidence in hundredths, held to the range 0 to 100.
pub open spec fn confidence_of(x: ScoreFactors) -> int {
    let raw = raw_confidence(x);
    if raw < 0 {
        0
    } else if raw > 100 {
        100
    } else {
        raw
    }
}

/// The hints that apply to a file, in their fixed order.
pub open spec fn hints_of(x: ScoreFactors) -> Seq<Seq<char>> {
    let h0 = Seq::<Seq<char>>::empty();
    let h1 = if x.is_duplicate {
        h0.push("duplicate"@)
    } else {
        h0
    };
    let h2 = if x.is_unopened {
        h1.push("unopened"@)
    } else {
        h1
    };
    let h3 = if x.size_bytes > LARGE_FILE_BYTES {
        h2.push("large"@)
    } else {
        h2
    };
    let h4 = if x.age_days > 30 {
        h3.push("old"@)
    } else {
        h3
    };
    let h5 = if x.in_git_repo {
        h4.push("git-repo"@)
    } else {
        h4
    };
    let h6 = if x.has_keyword_flag {
        h5.push("flagged"@)
    } else {
        h5
    };
    if x.recent_sibling_burst {
        h6.push("recent-activity"@)
    } else {
        h6
    }
}

/// The parts with `", "` between them.
pub open spec fn comma_joined(parts: Seq<Seq<char>>) -> Seq<char>
    decreases parts.len(),
{
    if parts.len() == 0 {
        Seq::empty()
    } else if parts.len() == 1 {
        parts[0]
    } else {
        comma_joined(parts.drop_last()) + ", "@ + parts.last()
    }
}

/// The hint shown with a candidate: the hints that apply, separated by
/// commas, or the word `candidate` where none applies.
pub open spec fn preview_hint_of(x: ScoreFactors) -> Seq<char> {
    if hints_of(x).len() == 0 {
        "candidate"@
    } else {
        comma_joined(hints_of(x))
    }
}

/// What the selector found out about the indexed files as a whole.
#[derive(Debug, Clone)]
pub struct ScoringContext {
    /// The identifiers of the files that have a duplicate; none twice.
    pub duplicate_files: Vec<i64>,
    /// The roots of the repositories; none twice.
    pub git_repos: Vec<String>,
    /// The directories with recent activity; none twice.
    pub burst_directories: Vec<String>,
}

/// The texts of a list of strings.
pub open spec fn texts_of(v: Seq<String>) -> Seq<Seq<char>> {
    Seq::new(v.len(), |i: int| v[i]@)
}

/// No text occurs twice among the strings.
pub open spec fn distinct_texts(v: Seq<String>) -> bool {
    forall|i: int, j: int| 0 <= i < j < v.len() ==> (#[trigger] v[i])@ != (#[trigger] v[j])@
}

/// Whether one of `items` has the text of `wanted`.
pub fn has_text(items: &Vec<String>, wanted: &String) -> (r: bool)
    ensures
        r == texts_of(items@).contains(wanted@),
{
    let mut i: usize = 0;
    while i < items.len()
        invariant
            i <= items.len(),
            forall|j: int| 0 <= j < i ==> (#[trigger] items@[j])@ != wanted@,
        decreases items.len() - i,
    {
        if items[i] == *wanted {
            assert(texts_of(items@)[i as int] == wanted@);
            return true;
        }
        i = i + 1;
    }
    proof {
        let views = texts_of(items@);
        if views.contains(wanted@) {
            let k = choose|k: int| 0 <= k < views.len() && views[k] == wanted@;
            assert(items@[k]@ == wanted@);
        }
    }
    false
}

/// Appends to `set` each of `items` whose text is not in it yet.
pub fn add_texts(set: &mut Vec<String>, items: Vec<String>)
    requires
        distinct_texts(old(set)@),
    ensures
        distinct_texts(final(set)@),
        forall|t: Seq<char>|
            #![trigger texts_of(final(set)@).contains(t)]
            #![trigger texts_of(old(set)@).contains(t)]
            #![trigger texts_of(items@).contains(t)]
            texts_of(final(set)@).contains(t) <==> texts_of(old(set)@).contains(t) || texts_of(
                items@,
            ).contains(t),
        old(set)@.is_prefix_of(final(set)@),
{
    let mut i: usize = 0;
    while i < items.len()
        invariant
            i <= items.len(),
            distinct_texts(set@),
            old(set)@.is_prefix_of(set@),
            forall|t: Seq<char>|
                #![trigger texts_of(set@).contains(t)]
                #![trigger texts_of(old(set)@).contains(t)]
                #![trigger texts_of(items@.take(i as int)).contains(t)]
                texts_of(set@).contains(t) <==> texts_of(old(set)@).contains(t) || texts_of(
                    items@.take(i as int),
                ).contains(t),
        decreases items.len() - i,
    {
        let ghost before = set@;
        let ghost done = items@.take(i as int);
        let ghost next = items@.take(i + 1);
        let item = items[i].clone();
        let present = has_text(set, &item);
        if !present {
            set.push(item);
        }
        proof {
            assert(next == done.push(items@[i as int]));
            assert forall|t: Seq<char>|
                #![trigger texts_of(set@).contains(t)]
                #![trigger texts_of(old(set)@).contains(t)]
                #![trigger texts_of(next).contains(t)]
                texts_of(set@).contains(t) <==> texts_of(old(set)@).contains(t) || texts_of(
                    next,
                ).contains(t) by {
                assert(texts_of(before).contains(t) <==> texts_of(old(set)@).contains(t)
                    || texts_of(done).contains(t));
                if texts_of(next).contains(t) {
                    let k = choose|k: int| 0 <= k < next.len() && texts_of(next)[k] == t;
                    if k < i {
                        assert(texts_of(done)[k] == t);
                    } else if present {
                        assert(texts_of(before).contains(t));
                    } else {
                        assert(texts_of(set@)[before.len() as int] == t);
                    }
                }
                if texts_of(done).contains(t) {
                    let k = choose|k: int| 0 <= k < done.len() && texts_of(done)[k] == t;
                    assert(texts_of(next)[k] == t);
                }
                if texts_of(before).contains(t) {
                    let k = choose|k: int| 0 <= k < before.len() && texts_of(before)[k] == t;
                    assert(texts_of(set@)[k] == t);
                }
                if texts_of(set@).contains(t) {
                    let k = choose|k: int| 0 <= k < set@.len() && texts_of(set@)[k] == t;
                    if k < before.len() {
                        assert(texts_of(before)[k] == t);
                    } else {
                        assert(texts_of(next)[i as int] == t);
                    }
                }
            }
            if !present {
                assert forall|a: int, b: int| 0 <= a < b < set@.len() implies (
                #[trigger] set@[a])@ != (#[trigger] set@[b])@ by {
                    if b == before.len() {
                        assert(texts_of(before)[a] == before[a]@);
                    }
                }
            }
        }
        i = i + 1;
    }
    proof {
        assert(items@.take(items@.len() as int) == items@);
    }
}

impl ScoringContext {
    /// The context is consistent: nothing occurs twice in its lists.
    pub open spec fn wf(&self) -> bool {
        &&& self.duplicate_files@.no_duplicates()
        &&& distinct_texts(self.git_repos@)
        &&& distinct_texts(self.burst_directories@)
    }

    /// An empty context.
    pub fn new() -> (out: ScoringContext)
        ensures
            out.wf(),
            out.duplicate_files@.len() == 0,
            out.git_repos@.len() == 0,
            out.burst_directories@.len() == 0,
    {
        ScoringContext {
            duplicate_files: Vec::new(),
            git_repos: Vec::new(),
            burst_directories: Vec::new(),
        }
    }

    /// Adds the identifiers that are not in the context yet.
    pub fn add_duplicate_files(&mut self, file_ids: Vec<i64>)
        requires
            old(self).wf(),
        ensures
            final(self).wf(),
            final(self).git_repos == old(self).git_repos,
            final(self).burst_directories == old(self).burst_directories,
            forall|id: i64|
                #![trigger final(self).duplicate_files@.contains(id)]
                #![trigger old(self).duplicate_files@.contains(id)]
                #![trigger file_ids@.contains(id)]
                final(self).duplicate_files@.contains(id) <==> old(self).duplicate_files@.contains(
                    id,
                ) || file_ids@.contains(id),
    {
        let mut i: usize = 0;
        while i < file_ids.len()
            invariant
                i <= file_ids.len(),
                self.wf(),
                self.git_repos == old(self).git_repos,
                self.burst_directories == old(self).burst_directories,
                forall|id: i64|
                    #![trigger self.duplicate_files@.contains(id)]
                    #![trigger old(self).duplicate_files@.contains(id)]
                    #![trigger file_ids@.take(i as int).contains(id)]
                    self.duplicate_files@.contains(id) <==> old(self).duplicate_files@.contains(id)
                        || file_ids@.take(i as int).contains(id),
            decreases file_ids.len() - i,
        {
            let ghost before = self.duplicate_files@;
            let ghost done = file_ids@.take(i as int);
            let ghost next = file_ids@.take(i + 1);
            let id = file_ids[i];
            let present = crate::db::database::contains_id(&self.duplicate_files, id);
            if !present {
                self.duplicate_files.push(id);
            }
            proof {
                assert(next == done.push(id));
                assert forall|x: i64|
                    #![trigger self.duplicate_files@.contains(x)]
                    #![trigger old(self).duplicate_files@.contains(x)]
                    #![trigger next.contains(x)]
                    self.duplicate_files@.contains(x) <==> old(self).duplicate_files@.contains(x)
                        || next.contains(x) by {
                    assert(before.contains(x) <==> old(self).duplicate_files@.contains(x)
                        || done.contains(x));
                    if next.contains(x) {
                        let k = choose|k: int| 0 <= k < next.len() && next[k] == x;
                        if k < i {
                            assert(done[k] == x);
                        } else if !present {
                            assert(self.duplicate_files@[before.len() as int] == x);
                        }
                    }
                    if done.contains(x) {
                        let k = choose|k: int| 0 <= k < done.len() && done[k] == x;
                        assert(next[k] == x);
                    }
                    if before.contains(x) {
                        let k = choose|k: int| 0 <= k < before.len() && before[k] == x;
                        assert(self.duplicate_files@[k] == x);
                    }
                    if self.duplicate_files@.contains(x) {
                        let k = choose|k: int|
                            0 <= k < self.duplicate_files@.len() && self.duplicate_files@[k] == x;
                        if k < before.len() {
                            assert(before[k] == x);
                        } else {
                            assert(next[i as int] == x);
                        }
                    }
                }
            }
            i = i + 1;
        }
        proof {
            assert(file_ids@.take(file_ids@.len() as int) == file_ids@);
        }
    }

    /// Adds the repository roots that are not in the context yet.
    pub fn add_git_repos(&mut self, repo_paths: Vec<String>)
        requires
            old(self).wf(),
        ensures
            final(self).wf(),
            final(self).duplicate_files == old(self).duplicate_files,
            final(self).burst_directories == old(self).burst_directories,
            forall|t: Seq<char>|
                #![trigger texts_of(final(self).git_repos@).contains(t)]
                #![trigger texts_of(old(self).git_repos@).contains(t)]
                #![trigger texts_of(repo_paths@).contains(t)]
                texts_of(final(self).git_repos@).contains(t) <==> texts_of(
                    old(self).git_repos@,
                ).contains(t) || texts_of(repo_paths@).contains(t),
    {
        add_texts(&mut self.git_repos, repo_paths);
    }

    /// Adds the directories that are not in the context yet.
    pub fn add_burst_directories(&mut self, dir_paths: Vec<String>)
        requires
            old(self).wf(),
        ensures
            final(self).wf(),
            final(self).duplicate_files == old(self).duplicate_files,
            final(self).git_repos == old(self).git_repos,
            forall|t: Seq<char>|
                #![trigger texts_of(final(self).burst_directories@).contains(t)]
                #![trigger texts_of(old(self).burst_directories@).contains(t)]
                #![trigger texts_of(dir_paths@).contains(t)]
                texts_of(final(self).burst_directories@).contains(t) <==> texts_of(
                    old(self).burst_directories@,
                ).contains(t) || texts_of(dir_paths@).contains(t),
    {
        add_texts(&mut self.burst_directories, dir_paths);
    }

    /// The directory `dir` is a repository root of the context or lies
    /// inside one.
    pub open spec fn covers_dir(&self, dir: Seq<char>) -> bool {
        exists|i: int|
            0 <= i < self.git_repos@.len() && within_root(dir, (#[trigger] self.git_repos@[i])@)
    }

    /// Whether `dir` is a repository root of the context or lies inside
    /// one.
    pub fn in_repo(&self, dir: &str) -> (r: bool)
        ensures
            r == self.covers_dir(dir@),
    {
        let mut i: usize = 0;
        while i < self.git_repos.len()
            invariant
                i <= self.git_repos.len(),
                forall|j: int|
                    0 <= j < i ==> !within_root(dir@, (#[trigger] self.git_repos@[j])@),
            decreases self.git_repos.len() - i,
        {
            if crate::paths::path_within_root(dir, self.git_repos[i].as_str()) {
                return true;
            }
            i = i + 1;
        }
        false
    }
}

/// The factors of `f` at `now` in the context `ctx`.
pub open spec fn factors_of(f: File, ctx: ScoringContext, now: i64) -> ScoreFactors {
    ScoreFactors {
        size_bytes: f.size_bytes,
        age_days: age_days_at(f, now) as i64,
        is_duplicate: ctx.duplicate_files@.contains(
            if f.id is Some {
                f.id->0
            } else {
                0
            },
        ),
        is_unopened: f.last_opened_at is None && f.accessed_at is None,
        has_keyword_flag: flagged_by_keyword(f.path@),
        in_git_repo: ctx.covers_dir(f.parent_dir@),
        recent_sibling_burst: texts_of(ctx.burst_directories@).contains(f.parent_dir@),
    }
}

/// Ranks files for disposal.
#[derive(Debug, Clone, Copy)]
pub struct FileScorer {
    /// The size at which the size part of the score is full: 2 GiB.
    pub max_size_bytes: u64,
    /// The age at which the age part of the score is full: 365 days.
    pub max_age_days: u32,
}

impl FileScorer {
    pub fn new() -> (out: FileScorer)
        ensures
            out.max_size_bytes == 2147483648,
            out.max_age_days == 365,
    {
        FileScorer { max_size_bytes: 2147483648, max_age_days: 365 }
    }

    /// The age of the file at `now`, in whole days.
    pub fn calculate_age_days(&self, file: &File, now: i64) -> (days: i64)
        ensures
            days == age_days_at(*file, now),
    {
        let reference = match file.accessed_at {
            Some(t) => t,
            None => match file.modified_at {
                Some(t) => t,
                None => file.last_seen_at,
            },
        };
        let diff: i128 = now as i128 - reference as i128;
        let days: i128 = if diff >= 0 {
            diff / (DAY_MS as i128)
        } else {
            -((-diff) / (DAY_MS as i128))
        };
        days as i64
    }

    /// Whether the lower-case form of the path holds one of the keywords.
    pub fn has_keyword_flag(&self, path: &str) -> (r: bool)
        ensures
            r == flagged_by_keyword(path@),
    {
        let lower = to_lowercase(path);
        let hay = chars_of(lower.as_str());
        let r0 = contains(&hay, &chars_of("current"));
        let r1 = contains(&hay, &chars_of("project"));
        let r2 = contains(&hay, &chars_of("active"));
        let r3 = contains(&hay, &chars_of("wip"));
        let r4 = contains(&hay, &chars_of("final"));
        proof {
            let ks = keywords();
            assert(ks[0] == "current"@ && ks[1] == "project"@ && ks[2] == "active"@ && ks[3]
                == "wip"@ && ks[4] == "final"@);
            assert(ks.len() == 5);
        }
        r0 || r1 || r2 || r3 || r4
    }

    /// What is known of `file` at `now` in the context `context`.
    pub fn extract_score_factors(&self, file: &File, context: &ScoringContext, now: i64) -> (out:
        ScoreFactors)
        ensures
            out == factors_of(*file, *context, now),
    {
        let id = match file.id {
            Some(id) => id,
            None => 0,
        };
        ScoreFactors {
            size_bytes: file.size_bytes,
            age_days: self.calculate_age_days(file, now),
            is_duplicate: crate::db::database::contains_id(&context.duplicate_files, id),
            is_unopened: file.last_opened_at.is_none() && file.accessed_at.is_none(),
            has_keyword_flag: self.has_keyword_flag(file.path.as_str()),
            in_git_repo: context.in_repo(file.parent_dir.as_str()),
            recent_sibling_burst: has_text(&context.burst_directories, &file.parent_dir),
        }
    }

    /// The age part of a score, in millionths.
    pub fn normalize_age(&self, age_days: i64) -> (share: u32)
        ensures
            share == age_share(age_days, self.max_age_days),
            share <= SCORE_ONE,
    {
        if age_days <= 0 {
            0
        } else if self.max_age_days == 0 || age_days >= self.max_age_days as i64 {
            SCORE_ONE
        } else {
            let share: i64 = age_days * (SCORE_ONE as i64) / (self.max_age_days as i64);
            assert(share <= SCORE_ONE) by (nonlinear_arith)
                requires
                    0 < age_days < self.max_age_days,
                    share == (age_days * 1000000) / (self.max_age_days as int),
                    SCORE_ONE == 1000000,
            ;
            share as u32
        }
    }

    /// The score of a file in millionths: always from nothing to a full
    /// score. `size_share` is the size part in millionths, the logarithm
    /// of the size over the logarithm of the full size.
    pub fn calculate_score(&self, factors: &ScoreFactors, size_share: u32) -> (score: u32)
        ensures
            score == score_of(*factors, size_share, self.max_age_days),
            0 <= score <= SCORE_ONE,
    {
        let size: i64 = if size_share > SCORE_ONE {
            SCORE_ONE as i64
        } else {
            size_share as i64
        };
        let age: i64 = self.normalize_age(factors.age_days) as i64;
        let one: i64 = SCORE_ONE as i64;
        let mut sum: i64 = 45 * size + 25 * age;
        if factors.is_duplicate {
            sum = sum + 20 * one;
        }
        if factors.is_unopened {
            sum = sum + 10 * one;
        }
        if factors.has_keyword_flag {
            sum = sum - 30 * one;
        }
        if factors.in_git_repo {
            sum = sum - 80 * one;
        }
        if factors.recent_sibling_burst {
            sum = sum - 70 * one;
        }
        if sum <= 0 {
            0
        } else if sum / 100 >= one {
            SCORE_ONE
        } else {
            (sum / 100) as u32
        }
    }

    /// The confidence in hundredths: always from 0 to 100.
    pub fn calculate_confidence(&self, factors: &ScoreFactors) -> (percent: u8)
        ensures
            percent == confidence_of(*factors),
            0 <= percent <= 100,
    {
        let mut c: i32 = 50;
        if factors.is_duplicate {
            c = c + 20;
        }
        if factors.is_unopened && factors.age_days > 30 {
            c = c + 15;
        }
        if factors.size_bytes > LARGE_FILE_BYTES {
            c = c + 10;
        }
        if factors.in_git_repo {
            c = c - 20;
        }
        if factors.has_keyword_flag {
            c = c - 10;
        }
        if factors.recent_sibling_burst {
            c = c - 15;
        }
        if c < 0 {
            0
        } else if c > 100 {
            100
        } else {
            c as u8
        }
    }

    /// The hint shown with a candidate.
    pub fn generate_preview_hint(&self, factors: &ScoreFactors) -> (out: String)
        ensures
            out@ == preview_hint_of(*factors),
    {
        let mut text: Vec<char> = Vec::new();
        let ghost mut parts: Seq<Seq<char>> = Seq::empty();
        proof {
            reveal_strlit("duplicate");
            reveal_strlit("unopened");
            reveal_strlit("large");
            reveal_strlit("old");
            reveal_strlit("git-repo");
            reveal_strlit("flagged");
            reveal_strlit("recent-activity");
        }
        if factors.is_duplicate {
            add_hint(&mut text, "duplicate", Ghost(parts));
            proof {
                parts = parts.push("duplicate"@);
            }
        }
        if factors.is_unopened {
            add_hint(&mut text, "unopened", Ghost(parts));
            proof {
                parts = parts.push("unopened"@);
            }
        }
        if factors.size_bytes > LARGE_FILE_BYTES {
            add_hint(&mut text, "large", Ghost(parts));
            proof {
                parts = parts.push("large"@);
            }
        }
        if factors.age_days > 30 {
            add_hint(&mut text, "old", Ghost(parts));
            proof {
                parts = parts.push("old"@);
            }
        }
        if factors.in_git_repo {
            add_hint(&mut text, "git-repo", Ghost(parts));
            proof {
                parts = parts.push("git-repo"@);
            }
        }
        if factors.has_keyword_flag {
            add_hint(&mut text, "flagged", Ghost(parts));
            proof {
                parts = parts.push("flagged"@);
            }
        }
        if factors.recent_sibling_burst {
            add_hint(&mut text, "recent-activity", Ghost(parts));
            proof {
                parts = parts.push("recent-activity"@);
            }
        }
        assert(parts == hints_of(*factors));
        if text.len() == 0 {
            proof {
                lemma_joined_empty(parts);
            }
            String::from_str("candidate")
        } else {
            proof {
                lemma_joined_empty(parts);
            }
            string_of(&text)
        }
    }
}

/// A join of parts is empty only where there is no part or every part is
/// empty; each hint has at least one character.
proof fn lemma_joined_empty(parts: Seq<Seq<char>>)
    requires
        forall|i: int| 0 <= i < parts.len() ==> (#[trigger] parts[i]).len() > 0,
    ensures
        comma_joined(parts).len() == 0 <==> parts.len() == 0,
    decreases parts.len(),
{
    if parts.len() > 1 {
        lemma_joined_empty(parts.drop_last());
    }
}

fn add_hint(text: &mut Vec<char>, hint: &str, Ghost(parts): Ghost<Seq<Seq<char>>>)
    requires
        old(text)@ == comma_joined(parts),
        hint@.len() > 0,
        forall|i: int| 0 <= i < parts.len() ==> (#[trigger] parts[i]).len() > 0,
    ensures
        final(text)@ == comma_joined(parts.push(hint@)),
        forall|i: int|
            0 <= i < parts.push(hint@).len() ==> (#[trigger] parts.push(hint@)[i]).len() > 0,
{
    proof {
        lemma_joined_empty(parts);
        assert(parts.push(hint@).drop_last() == parts);
    }
    if text.len() > 0 {
        push_text(text, ", ");
    }
    push_text(text, hint);
    proof {
        if parts.len() == 0 {
            assert(text@ =~= hint@);
        }
    }
}

} // verus!
