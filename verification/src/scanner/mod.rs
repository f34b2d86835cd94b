//! The scan pipeline: what a walk takes, how files are fingerprinted, the
//! single queue of scan jobs, and what a scan records.
//!
//! The walk itself and the reading of files are done by the caller, who
//! hands each thing that the walk finds to the scan in progress.

pub mod active_project;
pub mod file_walker;
pub mod hash;
pub mod metrics;
pub mod queue;
pub mod watcher;

pub use queue::{
    ScanJob, ScanQueuedPayload, ScanRuntime, ScanState, ScanStatusInternal, ScanStatusPayload,
    ScanTrigger,
};

use crate::commands::{path_verdict, sanitize_string, sanitized, validate_scan_path, CommandError};
use crate::db::database::{
    created, is_missing, reconciled, reconciled_slots, refreshed, string_views, with_hashes, Database,
    StoreError,
};
use crate::models::{duplicate_all, Duplicate, NewFile};
use crate::paths::is_under_root;
use crate::text::{join2, string_of};
use active_project::ActiveProjectDetector;
use file_walker::{skipped_dir_name, skipped_file_name, FileMetadata, FileWalker};
use vstd::prelude::*;
use vstd::string::StringExecFns;

verus! {

/// The number of files after which progress is reported.
pub const PROGRESS_EMIT_INTERVAL: u64 = 250;

/// The number of leading bytes that a head sample covers.
pub const PARTIAL_SAMPLE_SIZE: usize = 262144;

/// The size up to which a file gets its full digest while it is scanned.
pub const SMALL_FILE_THRESHOLD: u64 = 4194304;

/// The names of the events that a scan sends to the shell.
pub const SCAN_PROGRESS_EVENT: &'static str = "scan://progress";

pub const SCAN_DONE_EVENT: &'static str = "scan://done";

pub const SCAN_ERROR_EVENT: &'static str = "scan://error";

pub const SCAN_QUEUED_EVENT: &'static str = "scan://queued";

/// What a scan found.
#[derive(Debug, Clone)]
pub struct ScanResult {
    pub counted: u64,
    pub skipped: u64,
    pub duration_ms: u64,
    pub errors: Vec<String>,
}

/// What the shell is told while a scan runs.
#[derive(Debug, Clone)]
pub struct ScanProgressPayload {
    pub scanned: u64,
    pub skipped: u64,
    pub errors: u64,
    pub path_sample: Option<String>,
}

/// What the shell is told when a scan is done.
#[derive(Debug, Clone)]
pub struct ScanFinishedPayload {
    pub scanned: u64,
    pub skipped: u64,
    pub errors: u64,
    pub error_messages: Vec<String>,
    pub started_at: Option<i64>,
    pub finished_at: Option<i64>,
}

/// What the shell is told when a scan fails.
#[derive(Debug, Clone)]
pub struct ScanErrorPayload {
    pub message: String,
}

/// What a walk finds.
#[derive(Debug, Clone)]
pub enum WalkEntry {
    /// A directory at this path.
    Directory(String),
    /// A symbolic link at this path.
    Symlink(String),
    /// A file at this path.
    File(String),
    /// Something that could not be read, and why.
    Failed(String),
}

/// What is done with what a walk finds.
#[derive(Debug, Clone, Copy, PartialEq, Eq, Structural)]
pub enum WalkDecision {
    /// Walk on into the directory.
    Descend,
    /// Pass over the directory and all that is in it.
    SkipDirectory,
    /// Pass over the entry.
    Skip,
    /// Read the file and record it.
    Process,
}

/// Files of one size and head sample that have no full digest yet.
#[derive(Debug, Clone)]
pub struct HashGroup {
    pub size_bytes: u64,
    pub partial_sha1: String,
    /// The identifier and path of each file, in the order in which they
    /// were found.
    pub entries: Vec<(i64, String)>,
}

/// A file whose full digest is due after the walk.
#[derive(Debug, Clone)]
pub struct HashRequest {
    pub file_id: i64,
    pub path: String,
    pub partial_sha1: String,
}

/// A scan in progress.
#[derive(Debug, Clone)]
pub struct ScanSession {
    pub summary: ScanResult,
    /// The paths recorded under the root that is being walked.
    pub root_seen: Vec<String>,
    /// The files without full digest, by size and head sample; no size
    /// and head sample twice.
    pub hash_candidates: Vec<HashGroup>,
}

/// One more, up to the largest `u64`.
pub open spec fn bumped(n: u64) -> u64 {
    if n < u64::MAX {
        (n + 1) as u64
    } else {
        n
    }
}

fn bump(n: u64) -> (out: u64)
    ensures
        out == bumped(n),
{
    if n < u64::MAX {
        n + 1
    } else {
        n
    }
}

/// The decision on what a walk found.
pub open spec fn decision_on(entry: WalkEntry) -> WalkDecision {
    match entry {
        WalkEntry::Directory(p) => if skipped_dir_name(crate::paths::file_name(p@)) {
            WalkDecision::SkipDirectory
        } else {
            WalkDecision::Descend
        },
        WalkEntry::Symlink(_) => WalkDecision::Skip,
        WalkEntry::File(p) => if skipped_file_name(crate::paths::file_name(p@)) {
            WalkDecision::Skip
        } else {
            WalkDecision::Process
        },
        WalkEntry::Failed(_) => WalkDecision::Skip,
    }
}

/// What is recorded of a file that was found.
pub open spec fn observed(metadata: FileMetadata, partial: Option<String>, full: Option<String>) -> NewFile {
    NewFile {
        path: metadata.path,
        parent_dir: metadata.parent_dir,
        mime: metadata.mime_type,
        size_bytes: metadata.size_bytes,
        created_at: metadata.created_at,
        modified_at: metadata.modified_at,
        accessed_at: metadata.accessed_at,
        partial_sha1: partial,
        sha1: full,
    }
}

/// The position of the group for this size and head sample.
pub open spec fn group_index(groups: Seq<HashGroup>, size: u64, partial: Seq<char>) -> int {
    choose|i: int|
        0 <= i < groups.len() && (#[trigger] groups[i]).size_bytes == size
            && groups[i].partial_sha1@ == partial
}

/// Some group is for this size and head sample.
pub open spec fn has_group(groups: Seq<HashGroup>, size: u64, partial: Seq<char>) -> bool {
    exists|i: int|
        0 <= i < groups.len() && (#[trigger] groups[i]).size_bytes == size
            && groups[i].partial_sha1@ == partial
}

/// No two groups are for the same size and head sample.
pub open spec fn groups_distinct(groups: Seq<HashGroup>) -> bool {
    forall|i: int, j: int|
        0 <= i < j < groups.len() ==> !((#[trigger] groups[i]).size_bytes == (
        #[trigger] groups[j]).size_bytes && groups[i].partial_sha1@ == groups[j].partial_sha1@)
}

/// The files whose full digest is due after the walk: all files of the
/// groups with two or more files, group by group.
pub open spec fn pending_of(groups: Seq<HashGroup>) -> Seq<(i64, Seq<char>, Seq<char>)>
    decreases groups.len(),
{
    if groups.len() == 0 {
        Seq::empty()
    } else {
        let rest = pending_of(groups.drop_last());
        let g = groups.last();
        if g.entries@.len() >= 2 {
            rest + Seq::new(
                g.entries@.len(),
                |k: int| (g.entries@[k].0, g.entries@[k].1@, g.partial_sha1@),
            )
        } else {
            rest
        }
    }
}

/// The requests as triples of identifier, path and head sample.
pub open spec fn request_views(v: Seq<HashRequest>) -> Seq<(i64, Seq<char>, Seq<char>)> {
    Seq::new(v.len(), |i: int| (v[i].file_id, v[i].path@, v[i].partial_sha1@))
}

impl ScanSession {
    /// Every path recorded under the root that is being walked belongs to
    /// a live entry of the catalog.
    pub open spec fn seen_are_live(&self, db: &Database) -> bool {
        forall|k: int|
            0 <= k < self.root_seen@.len() ==> db.has_path((#[trigger] self.root_seen@[k])@)
                && !db.files()[db.index_of_path(self.root_seen@[k]@)].is_deleted
    }

    /// The session is consistent.
    pub open spec fn wf(&self) -> bool {
        groups_distinct(self.hash_candidates@)
    }
}

/// Walks roots and records what it finds.
#[derive(Debug, Clone)]
pub struct Scanner {
    pub file_walker: FileWalker,
    pub project_detector: ActiveProjectDetector,
    pub performance_target_ms: u64,
}

impl Scanner {
    /// A scanner with the usual rules and a target of ninety seconds.
    pub fn new() -> (out: Scanner)
        ensures
            out.file_walker.wf(),
            out.performance_target_ms == 90000,
    {
        Scanner {
            file_walker: FileWalker::new(),
            project_detector: ActiveProjectDetector::new(),
            performance_target_ms: 90000,
        }
    }

    /// A scan that has found nothing yet.
    pub fn begin(&self) -> (out: ScanSession)
        ensures
            out.wf(),
            out.summary.counted == 0,
            out.summary.skipped == 0,
            out.summary.duration_ms == 0,
            out.summary.errors@.len() == 0,
            out.root_seen@.len() == 0,
            out.hash_candidates@.len() == 0,
    {
        ScanSession {
            summary: ScanResult { counted: 0, skipped: 0, duration_ms: 0, errors: Vec::new() },
            root_seen: Vec::new(),
            hash_candidates: Vec::new(),
        }
    }

    /// Notes that a root is not there: the scan goes on with the next
    /// root.
    pub fn root_missing(&self, session: &mut ScanSession, root: &str)
        ensures
            final(session).summary.errors@ == old(session).summary.errors@.push(
                final(session).summary.errors@.last(),
            ),
            final(session).summary.errors@.last()@ == "Root path does not exist: "@ + root@,
            final(session).summary.counted == old(session).summary.counted,
            final(session).summary.skipped == old(session).summary.skipped,
            final(session).summary.duration_ms == old(session).summary.duration_ms,
            final(session).root_seen == old(session).root_seen,
            final(session).hash_candidates == old(session).hash_candidates,
    {
        session.summary.errors.push(join2("Root path does not exist: ", root));
        assert(session.summary.errors@ =~= old(session).summary.errors@.push(
            session.summary.errors@.last(),
        ));
    }

    /// Starts the walk of a root: no path is recorded under it yet.
    pub fn begin_root(&self, session: &mut ScanSession)
        ensures
            final(session).root_seen@.len() == 0,
            final(session).summary == old(session).summary,
            final(session).hash_candidates == old(session).hash_candidates,
    {
        session.root_seen = Vec::new();
    }

    /// Decides on what the walk found.
    ///
    /// A directory is walked into unless its name is passed over; then it
    /// is skipped with all that is in it, and counted as skipped. A
    /// symbolic link is never followed: it is counted as skipped. A file
    /// whose name is passed over is counted as skipped; any other file is
    /// to be read and recorded. What could not be read is counted as
    /// skipped, and why is kept among the errors.
    pub fn classify(&self, session: &mut ScanSession, entry: &WalkEntry) -> (out: WalkDecision)
        requires
            self.file_walker.wf(),
        ensures
            out == decision_on(*entry),
            final(session).summary.counted == old(session).summary.counted,
            final(session).summary.duration_ms == old(session).summary.duration_ms,
            final(session).summary.skipped == (if out == WalkDecision::SkipDirectory || out
                == WalkDecision::Skip {
                bumped(old(session).summary.skipped)
            } else {
                old(session).summary.skipped
            }),
            entry matches WalkEntry::Failed(why) ==> final(session).summary.errors@ == old(
                session,
            ).summary.errors@.push(*why),
            !(entry is Failed) ==> final(session).summary.errors == old(session).summary.errors,
            final(session).root_seen == old(session).root_seen,
            final(session).hash_candidates == old(session).hash_candidates,
    {
        match entry {
            WalkEntry::Directory(path) => {
                if self.file_walker.should_skip_dir(path.as_str()) {
                    session.summary.skipped = bump(session.summary.skipped);
                    WalkDecision::SkipDirectory
                } else {
                    WalkDecision::Descend
                }
            },
            WalkEntry::Symlink(_) => {
                session.summary.skipped = bump(session.summary.skipped);
                WalkDecision::Skip
            },
            WalkEntry::File(path) => {
                if self.file_walker.should_skip_file(path.as_str()) {
                    session.summary.skipped = bump(session.summary.skipped);
                    WalkDecision::Skip
                } else {
                    WalkDecision::Process
                }
            },
            WalkEntry::Failed(why) => {
                session.summary.errors.push(why.clone());
                session.summary.skipped = bump(session.summary.skipped);
                WalkDecision::Skip
            },
        }
    }

    /// Notes that a file could not be read or recorded: the file is left
    /// out and the scan goes on.
    pub fn file_failed(&self, session: &mut ScanSession, why: String)
        ensures
            final(session).summary.errors@ == old(session).summary.errors@.push(why),
            final(session).summary.counted == old(session).summary.counted,
            final(session).summary.skipped == old(session).summary.skipped,
            final(session).summary.duration_ms == old(session).summary.duration_ms,
            final(session).root_seen == old(session).root_seen,
            final(session).hash_candidates == old(session).hash_candidates,
    {
        session.summary.errors.push(why);
    }

    /// Records a file that was read, with its head sample and, where it
    /// was worked out, its full digest.
    ///
    /// The file is recorded in the catalog at `now` and counted; its path
    /// is noted as seen under the root. A file with a head sample but
    /// without full digest is kept for the pass after the walk, with the
    /// files of its size and head sample. Returns whether progress is due:
    /// after every 250 files. Where the catalog cannot record the file,
    /// that is kept among the errors and nothing else changes.
    pub fn process_file(
        &self,
        session: &mut ScanSession,
        metadata: &FileMetadata,
        partial_hash: Option<String>,
        full_hash: Option<String>,
        db: &mut Database,
        now: i64,
    ) -> (out: bool)
        requires
            old(db).wf(),
            old(session).wf(),
            old(session).seen_are_live(old(db)),
        ensures
            final(db).wf(),
            final(session).wf(),
            final(session).seen_are_live(final(db)),
            exists|done: Result<i64, StoreError>|
                #![trigger Database::upsert_post(old(db), final(db), observed(*metadata, partial_hash, full_hash), now, done)]
                {
                    &&& Database::upsert_post(
                        old(db),
                        final(db),
                        observed(*metadata, partial_hash, full_hash),
                        now,
                        done,
                    )
                    &&& done is Err ==> {
                        &&& !out
                        &&& final(session).summary.errors@ == old(session).summary.errors@.push(
                            final(session).summary.errors@.last(),
                        )
                        &&& final(session).summary.errors@.last()@ == "no identifier left"@
                        &&& final(session).summary.counted == old(session).summary.counted
                        &&& final(session).root_seen == old(session).root_seen
                        &&& final(session).hash_candidates == old(session).hash_candidates
                    }
                    &&& done matches Ok(id) ==> {
                        &&& final(session).summary.errors == old(session).summary.errors
                        &&& final(session).summary.counted == bumped(old(session).summary.counted)
                        &&& out == (final(session).summary.counted % PROGRESS_EMIT_INTERVAL == 0)
                        &&& string_views(final(session).root_seen@).contains(metadata.path@)
                        &&& forall|p: Seq<char>|
                            string_views(old(session).root_seen@).contains(p)
                                ==> string_views(final(session).root_seen@).contains(p)
                        &&& forall|p: Seq<char>|
                            string_views(final(session).root_seen@).contains(p) ==> p
                                == metadata.path@ || string_views(old(session).root_seen@).contains(
                                p,
                            )
                        &&& kept_for_later(
                            old(session).hash_candidates@,
                            final(session).hash_candidates@,
                            *metadata,
                            partial_hash,
                            full_hash,
                            id,
                        )
                    }
                },
            final(session).summary.skipped == old(session).summary.skipped,
            final(session).summary.duration_ms == old(session).summary.duration_ms,
    {
        let new_file = NewFile {
            path: metadata.path.clone(),
            parent_dir: metadata.parent_dir.clone(),
            mime: metadata.mime_type.duplicate(),
            size_bytes: metadata.size_bytes,
            created_at: metadata.created_at,
            modified_at: metadata.modified_at,
            accessed_at: metadata.accessed_at,
            partial_sha1: partial_hash.duplicate(),
            sha1: full_hash.duplicate(),
        };
        assert(new_file == observed(*metadata, partial_hash, full_hash));
        let done = db.upsert_file(&new_file, now);
        let file_id = match done {
            Ok(id) => id,
            Err(_) => {
                session.summary.errors.push(String::from_str("no identifier left"));
                proof {
                    assert(session.summary.errors@ =~= old(session).summary.errors@.push(
                        session.summary.errors@.last(),
                    ));
                    assert(db.files() == old(db).files());
                    assert forall|k: int| 0 <= k < session.root_seen@.len() implies db.has_path(
                        (#[trigger] session.root_seen@[k])@,
                    ) && !db.files()[db.index_of_path(session.root_seen@[k]@)].is_deleted by {
                        let p = session.root_seen@[k]@;
                        assert(old(db).has_path(p));
                        let w = old(db).index_of_path(p);
                        assert(db.files()[w].path@ == p);
                    }
                }
                return false;
            },
        };
        proof {
            lemma_upsert_keeps_live(old(db), db, new_file, now, done, *old(session));
        }
        if !crate::db::database::contains_text(&session.root_seen, &metadata.path) {
            session.root_seen.push(metadata.path.clone());
        }
        proof {
            let before = old(session).root_seen@;
            let after = session.root_seen@;
            lemma_upsert_records(old(db), db, new_file, now, done);
            assert forall|k: int| 0 <= k < after.len() implies db.has_path((#[trigger] after[k])@)
                && !db.files()[db.index_of_path(after[k]@)].is_deleted by {
                if k < before.len() {
                    assert(after[k] == before[k]);
                }
            }
            assert forall|p: Seq<char>| string_views(before).contains(p) implies string_views(
                after,
            ).contains(p) by {
                let k = choose|k: int| 0 <= k < before.len() && string_views(before)[k] == p;
                assert(string_views(after)[k] == p);
            }
            assert forall|p: Seq<char>| string_views(after).contains(p) implies p == metadata.path@
                || string_views(before).contains(p) by {
                let k = choose|k: int| 0 <= k < after.len() && string_views(after)[k] == p;
                if k < before.len() {
                    assert(string_views(before)[k] == p);
                }
            }
            if after.len() > before.len() {
                assert(string_views(after)[before.len() as int] == metadata.path@);
            }
        }
        session.summary.counted = bump(session.summary.counted);
        if full_hash.is_none() {
            match &partial_hash {
                Some(partial) => {
                    keep_for_later(
                        &mut session.hash_candidates,
                        metadata.size_bytes,
                        partial,
                        file_id,
                        &metadata.path,
                    );
                },
                None => {},
            }
        }
        session.summary.counted % PROGRESS_EMIT_INTERVAL == 0
    }

    /// Ends the walk of a root: every live entry of the catalog under the
    /// root whose path was not recorded during the walk is marked as gone.
    ///
    /// After this, an entry under the root is marked as gone exactly where
    /// its path was not seen.
    pub fn finish_root(&self, session: &ScanSession, root: &str, db: &mut Database)
        requires
            old(db).wf(),
            session.seen_are_live(old(db)),
        ensures
            final(db).wf(),
            final(db).same_log_and_settings(old(db)),
            final(db).files() == reconciled(
                old(db).files(),
                root@,
                string_views(session.root_seen@),
            ),
            final(db).slots() == reconciled_slots(
                old(db).files(),
                old(db).slots(),
                root@,
                string_views(session.root_seen@),
            ),
            forall|i: int|
                0 <= i < final(db).files().len() && is_under_root(
                    (#[trigger] final(db).files()[i]).path@,
                    root@,
                ) ==> final(db).files()[i].is_deleted == !string_views(session.root_seen@).contains(
                    final(db).files()[i].path@,
                ),
    {
        db.mark_missing_for_root(root, &session.root_seen);
        proof {
            let seen = string_views(session.root_seen@);
            assert forall|i: int|
                0 <= i < db.files().len() && is_under_root(
                    (#[trigger] db.files()[i]).path@,
                    root@,
                ) implies db.files()[i].is_deleted == !seen.contains(db.files()[i].path@) by {
                let f = old(db).files()[i];
                if seen.contains(f.path@) {
                    let k = choose|k: int| 0 <= k < seen.len() && seen[k] == f.path@;
                    assert(session.root_seen@[k]@ == f.path@);
                    assert(old(db).has_path(f.path@));
                    let w = old(db).index_of_path(f.path@);
                    if w < i {
                        assert(old(db).files()[w].path@ != old(db).files()[i].path@);
                    } else if i < w {
                        assert(old(db).files()[i].path@ != old(db).files()[w].path@);
                    }
                }
            }
        }
    }

    /// The files whose full digest is due after the walk: those that
    /// share size and head sample with another file that has no full digest
    /// either.
    pub fn populate_full_hashes(&self, session: &ScanSession) -> (out: Vec<HashRequest>)
        ensures
            request_views(out@) == pending_of(session.hash_candidates@),
    {
        let mut out: Vec<HashRequest> = Vec::new();
        let mut i: usize = 0;
        assert(request_views(out@) =~= pending_of(session.hash_candidates@.take(0)));
        while i < session.hash_candidates.len()
            invariant
                i <= session.hash_candidates.len(),
                request_views(out@) == pending_of(session.hash_candidates@.take(i as int)),
            decreases session.hash_candidates.len() - i,
        {
            let group = &session.hash_candidates[i];
            proof {
                assert(session.hash_candidates@.take(i + 1).drop_last()
                    == session.hash_candidates@.take(i as int));
                assert(session.hash_candidates@.take(i + 1).last() == *group);
            }
            if group.entries.len() >= 2 {
                let ghost before = request_views(out@);
                let mut k: usize = 0;
                assert(before =~= before + Seq::new(
                    0nat,
                    |x: int| (group.entries@[x].0, group.entries@[x].1@, group.partial_sha1@),
                ));
                while k < group.entries.len()
                    invariant
                        k <= group.entries.len(),
                        request_views(out@) == before + Seq::new(
                            k as nat,
                            |x: int| (group.entries@[x].0, group.entries@[x].1@, group.partial_sha1@),
                        ),
                    decreases group.entries.len() - k,
                {
                    let ghost sofar = request_views(out@);
                    out.push(
                        HashRequest {
                            file_id: group.entries[k].0,
                            path: group.entries[k].1.clone(),
                            partial_sha1: group.partial_sha1.clone(),
                        },
                    );
                    k = k + 1;
                    proof {
                        let triple = (
                            group.entries@[k - 1].0,
                            group.entries@[k - 1].1@,
                            group.partial_sha1@,
                        );
                        assert(request_views(out@) =~= sofar.push(triple));
                        let grown = before + Seq::new(
                            k as nat,
                            |x: int| (group.entries@[x].0, group.entries@[x].1@, group.partial_sha1@),
                        );
                        assert(sofar.push(triple) =~= grown);
                    }
                }
            }
            i = i + 1;
        }
        assert(session.hash_candidates@.take(session.hash_candidates@.len() as int)
            == session.hash_candidates@);
        out
    }

    /// Records the full digest that was worked out for a request, or that
    /// it could not be worked out.
    pub fn record_full_hash(
        &self,
        session: &mut ScanSession,
        request: &HashRequest,
        result: &Result<String, String>,
        db: &mut Database,
    )
        requires
            old(db).wf(),
        ensures
            final(db).wf(),
            final(db).same_log_and_settings(old(db)),
            final(db).slots() == old(db).slots(),
            final(session).summary.counted == old(session).summary.counted,
            final(session).summary.skipped == old(session).summary.skipped,
            final(session).root_seen == old(session).root_seen,
            final(session).hash_candidates == old(session).hash_candidates,
            match *result {
                Ok(full) => {
                    &&& final(session).summary.errors == old(session).summary.errors
                    &&& old(db).has_id(request.file_id) ==> final(db).files() == old(
                        db,
                    ).files().update(
                        old(db).index_of_id(request.file_id),
                        with_hashes(
                            old(db).files()[old(db).index_of_id(request.file_id)],
                            Some(request.partial_sha1),
                            Some(full),
                        ),
                    )
                    &&& !old(db).has_id(request.file_id) ==> final(db).files() == old(db).files()
                },
                Err(why) => {
                    &&& final(db).files() == old(db).files()
                    &&& final(session).summary.errors@ == old(session).summary.errors@.push(
                        final(session).summary.errors@.last(),
                    )
                    &&& final(session).summary.errors@.last()@ == "Failed to hash "@
                        + request.path@ + ": "@ + why@
                },
            },
    {
        match result {
            Ok(full) => {
                db.update_file_hashes(
                    request.file_id,
                    &Some(request.partial_sha1.clone()),
                    &Some(full.clone()),
                );
            },
            Err(why) => {
                let a = join2("Failed to hash ", request.path.as_str());
                let b = join2(a.as_str(), ": ");
                session.summary.errors.push(join2(b.as_str(), why.as_str()));
                assert(session.summary.errors@ =~= old(session).summary.errors@.push(
                    session.summary.errors@.last(),
                ));
            },
        }
    }

    /// What the shell is told of the progress of the scan.
    pub fn progress(&self, session: &ScanSession, path_sample: Option<String>) -> (out:
        ScanProgressPayload)
        ensures
            out.scanned == session.summary.counted,
            out.skipped == session.summary.skipped,
            out.errors == session.summary.errors@.len(),
            out.path_sample == path_sample,
    {
        ScanProgressPayload {
            scanned: session.summary.counted,
            skipped: session.summary.skipped,
            errors: session.summary.errors.len() as u64,
            path_sample,
        }
    }

    /// Ends the scan: what it found, and what the shell is told.
    pub fn finish(&self, session: ScanSession, started_at: i64, finished_at: i64, duration_ms: u64) -> (out:
        (ScanResult, ScanFinishedPayload))
        ensures
            out.0.counted == session.summary.counted,
            out.0.skipped == session.summary.skipped,
            out.0.duration_ms == duration_ms,
            out.0.errors@ == session.summary.errors@,
            out.1.scanned == session.summary.counted,
            out.1.skipped == session.summary.skipped,
            out.1.errors == session.summary.errors@.len(),
            out.1.error_messages@ == session.summary.errors@,
            out.1.started_at == Some(started_at),
            out.1.finished_at == Some(finished_at),
    {
        let messages = duplicate_all(&session.summary.errors);
        let count = session.summary.errors.len() as u64;
        let result = ScanResult {
            counted: session.summary.counted,
            skipped: session.summary.skipped,
            duration_ms,
            errors: session.summary.errors,
        };
        let payload = ScanFinishedPayload {
            scanned: result.counted,
            skipped: result.skipped,
            errors: count,
            error_messages: messages,
            started_at: Some(started_at),
            finished_at: Some(finished_at),
        };
        (result, payload)
    }
}

/// How the groups change when a file is recorded: a file with a head
/// sample and without full digest joins the group of its size and head
/// sample, a new group at the end where there is none; any other file
/// changes nothing.
pub open spec fn kept_for_later(
    before: Seq<HashGroup>,
    after: Seq<HashGroup>,
    metadata: FileMetadata,
    partial: Option<String>,
    full: Option<String>,
    id: i64,
) -> bool {
    if full is Some || partial is None {
        after == before
    } else if has_group(before, metadata.size_bytes, partial->0@) {
        let g = group_index(before, metadata.size_bytes, partial->0@);
        &&& after.len() == before.len()
        &&& forall|k: int| 0 <= k < before.len() && k != g ==> after[k] == before[k]
        &&& after[g].size_bytes == before[g].size_bytes
        &&& after[g].partial_sha1 == before[g].partial_sha1
        &&& after[g].entries@.len() == before[g].entries@.len() + 1
        &&& after[g].entries@.drop_last() == before[g].entries@
        &&& after[g].entries@.last().0 == id
        &&& after[g].entries@.last().1@ == metadata.path@
    } else {
        &&& after.len() == before.len() + 1
        &&& after.drop_last() == before
        &&& after.last().size_bytes == metadata.size_bytes
        &&& after.last().partial_sha1@ == partial->0@
        &&& after.last().entries@.len() == 1
        &&& after.last().entries@[0].0 == id
        &&& after.last().entries@[0].1@ == metadata.path@
    }
}

fn keep_for_later(
    groups: &mut Vec<HashGroup>,
    size: u64,
    partial: &String,
    id: i64,
    path: &String,
)
    requires
        groups_distinct(old(groups)@),
    ensures
        groups_distinct(final(groups)@),
        has_group(old(groups)@, size, partial@) ==> {
            let g = group_index(old(groups)@, size, partial@);
            &&& final(groups)@.len() == old(groups)@.len()
            &&& forall|k: int|
                0 <= k < old(groups)@.len() && k != g ==> final(groups)@[k] == old(groups)@[k]
            &&& final(groups)@[g].size_bytes == old(groups)@[g].size_bytes
            &&& final(groups)@[g].partial_sha1 == old(groups)@[g].partial_sha1
            &&& final(groups)@[g].entries@.len() == old(groups)@[g].entries@.len() + 1
            &&& final(groups)@[g].entries@.drop_last() == old(groups)@[g].entries@
            &&& final(groups)@[g].entries@.last().0 == id
            &&& final(groups)@[g].entries@.last().1@ == path@
        },
        !has_group(old(groups)@, size, partial@) ==> {
            &&& final(groups)@.len() == old(groups)@.len() + 1
            &&& final(groups)@.drop_last() == old(groups)@
            &&& final(groups)@.last().size_bytes == size
            &&& final(groups)@.last().partial_sha1@ == partial@
            &&& final(groups)@.last().entries@.len() == 1
            &&& final(groups)@.last().entries@[0].0 == id
            &&& final(groups)@.last().entries@[0].1@ == path@
        },
{
    let mut i: usize = 0;
    while i < groups.len()
        invariant
            i <= groups.len(),
            *groups == *old(groups),
            groups_distinct(groups@),
            forall|j: int|
                0 <= j < i ==> !((#[trigger] groups@[j]).size_bytes == size
                    && groups@[j].partial_sha1@ == partial@),
        decreases groups.len() - i,
    {
        if groups[i].size_bytes == size && groups[i].partial_sha1 == *partial {
            proof {
                assert(has_group(groups@, size, partial@));
                let g = group_index(groups@, size, partial@);
                assert(0 <= g < groups@.len() && groups@[g].size_bytes == size
                    && groups@[g].partial_sha1@ == partial@);
                if g < i {
                } else if i < g {
                    assert(!(groups@[i as int].size_bytes == groups@[g].size_bytes
                        && groups@[i as int].partial_sha1@ == groups@[g].partial_sha1@));
                }
            }
            let mut entries: Vec<(i64, String)> = Vec::new();
            let mut k: usize = 0;
            while k < groups[i].entries.len()
                invariant
                    i < groups.len(),
                    k <= groups@[i as int].entries@.len(),
                    entries@.len() == k,
                    forall|x: int| 0 <= x < k ==> entries@[x] == groups@[i as int].entries@[x],
                decreases groups[i as int].entries.len() - k,
            {
                entries.push((groups[i].entries[k].0, groups[i].entries[k].1.clone()));
                k = k + 1;
            }
            entries.push((id, path.clone()));
            assert(entries@.drop_last() =~= groups@[i as int].entries@);
            let updated = HashGroup {
                size_bytes: size,
                partial_sha1: groups[i].partial_sha1.clone(),
                entries,
            };
            groups.set(i, updated);
            proof {
                assert forall|x: int, y: int| 0 <= x < y < groups@.len() implies !((
                #[trigger] groups@[x]).size_bytes == (#[trigger] groups@[y]).size_bytes
                    && groups@[x].partial_sha1@ == groups@[y].partial_sha1@) by {
                    let b = old(groups)@;
                    assert(!(b[x].size_bytes == b[y].size_bytes && b[x].partial_sha1@
                        == b[y].partial_sha1@));
                }
            }
            return ;
        }
        i = i + 1;
    }
    let mut entries: Vec<(i64, String)> = Vec::new();
    entries.push((id, path.clone()));
    groups.push(HashGroup { size_bytes: size, partial_sha1: partial.clone(), entries });
    proof {
        assert(groups@.drop_last() =~= old(groups)@);
        assert forall|x: int, y: int| 0 <= x < y < groups@.len() implies !((
        #[trigger] groups@[x]).size_bytes == (#[trigger] groups@[y]).size_bytes
            && groups@[x].partial_sha1@ == groups@[y].partial_sha1@) by {
            let b = old(groups)@;
            if y < b.len() {
                assert(!(b[x].size_bytes == b[y].size_bytes && b[x].partial_sha1@
                    == b[y].partial_sha1@));
            }
        }
    }
}

/// After a file is recorded, the entry with its path is live.
proof fn lemma_upsert_records(
    pre: &Database,
    post: &Database,
    file: NewFile,
    now: i64,
    done: Result<i64, StoreError>,
)
    requires
        pre.wf(),
        post.wf(),
        Database::upsert_post(pre, post, file, now, done),
        done is Ok,
    ensures
        post.has_path(file.path@),
        !post.files()[post.index_of_path(file.path@)].is_deleted,
{
    if pre.has_path(file.path@) {
        let i = pre.index_of_path(file.path@);
        assert(post.files()[i].path@ == file.path@);
        let k = post.index_of_path(file.path@);
        if k < i {
            assert(post.files()[k].path@ != post.files()[i].path@);
        } else if i < k {
            assert(post.files()[i].path@ != post.files()[k].path@);
        }
    } else {
        let n = pre.files().len() as int;
        assert(post.files()[n].path@ == file.path@);
        let k = post.index_of_path(file.path@);
        if k < n {
            assert(post.files()[k].path@ != post.files()[n].path@);
        }
    }
}

/// Recording a file leaves the entries of the paths seen before live.
proof fn lemma_upsert_keeps_live(
    pre: &Database,
    post: &Database,
    file: NewFile,
    now: i64,
    done: Result<i64, StoreError>,
    session: ScanSession,
)
    requires
        pre.wf(),
        post.wf(),
        Database::upsert_post(pre, post, file, now, done),
        done is Ok,
        session.seen_are_live(pre),
    ensures
        session.seen_are_live(post),
{
    assert forall|k: int| 0 <= k < session.root_seen@.len() implies post.has_path(
        (#[trigger] session.root_seen@[k])@,
    ) && !post.files()[post.index_of_path(session.root_seen@[k]@)].is_deleted by {
        let p = session.root_seen@[k]@;
        let w = pre.index_of_path(p);
        assert(0 <= w < pre.files().len() && pre.files()[w].path@ == p);
        assert(post.files()[w].path@ == p);
        let c = post.index_of_path(p);
        if c < w {
            assert(post.files()[c].path@ != post.files()[w].path@);
        } else if w < c {
            assert(post.files()[w].path@ != post.files()[c].path@);
        }
    }
}

/// What asking for a scan of a root found out about it.
#[derive(Debug, Clone)]
pub struct RootFacts {
    pub path: String,
    /// Whether the path is there.
    pub exists: bool,
    /// Whether the path is a directory.
    pub is_dir: bool,
}

/// The test for a root that can be scanned.
pub open spec fn scannable(r: RootFacts) -> bool {
    path_verdict(r.path@, r.exists) == 0 && r.is_dir
}

/// Whether `e` is the answer to a root that cannot be scanned: the
/// refusal of its path, or, where the path passes, a validation error that
/// says that it is no directory.
pub open spec fn refuses_root(e: CommandError, r: RootFacts) -> bool {
    let verdict = path_verdict(r.path@, r.exists);
    if verdict == 1 {
        e is Validation && e.detail() == "Path traversal not allowed"@
    } else if verdict == 2 {
        e is NotFound && e.detail() == "Path does not exist: "@ + r.path@
    } else if verdict == 3 {
        e is Permission && e.detail() == "Cannot scan system root"@
    } else {
        e is Validation && e.detail() == "Path is not a directory: "@ + r.path@
    }
}

/// The roots without control characters, each once, in the order in which
/// they first occur.
pub open spec fn clean_roots(roots: Seq<RootFacts>) -> Seq<Seq<char>> {
    crate::selector::distinct_in_order(Seq::new(roots.len(), |i: int| sanitized(roots[i].path@, 1024)))
}

/// The roots of a scan that is asked for, ready for the queue.
///
/// Every root must pass the rules for scan paths and be a directory; the
/// first that does not decides the error. At least one root is needed.
/// Control characters are taken out, and a root that occurs twice counts
/// once.
pub fn start_scan(roots: &Vec<RootFacts>) -> (out: Result<Vec<String>, CommandError>)
    ensures
        match out {
            Ok(clean) => {
                &&& roots@.len() > 0
                &&& forall|i: int| 0 <= i < roots@.len() ==> scannable(#[trigger] roots@[i])
                &&& string_views(clean@) == clean_roots(roots@)
            },
            Err(e) => if roots@.len() == 0 {
                e is Validation && e.detail() == "no scan roots provided"@
            } else {
                exists|i: int|
                    {
                        &&& 0 <= i < roots@.len()
                        &&& !scannable(#[trigger] roots@[i])
                        &&& forall|j: int| 0 <= j < i ==> scannable(#[trigger] roots@[j])
                        &&& refuses_root(e, roots@[i])
                    }
            },
        },
{
    if roots.len() == 0 {
        return Err(CommandError::Validation(String::from_str("no scan roots provided")));
    }
    let mut cleaned: Vec<String> = Vec::new();
    let mut i: usize = 0;
    while i < roots.len()
        invariant
            i <= roots.len(),
            roots@.len() > 0,
            cleaned@.len() == i,
            forall|j: int| 0 <= j < i ==> scannable(#[trigger] roots@[j]),
            forall|j: int| 0 <= j < i ==> (#[trigger] cleaned@[j])@ == sanitized(roots@[j].path@, 1024),
        decreases roots.len() - i,
    {
        let r = &roots[i];
        match validate_scan_path(r.path.as_str(), r.exists) {
            Ok(_) => {},
            Err(e) => {
                assert(!scannable(roots@[i as int]));
                assert(refuses_root(e, roots@[i as int]));
                return Err(e);
            },
        }
        if !r.is_dir {
            assert(!scannable(roots@[i as int]));
            let e = CommandError::Validation(join2("Path is not a directory: ", r.path.as_str()));
            assert(refuses_root(e, roots@[i as int]));
            return Err(e);
        }
        cleaned.push(sanitize_string(r.path.as_str()));
        i = i + 1;
    }
    let out = crate::selector::dedupe(&cleaned);
    proof {
        assert(crate::selector::scoring::texts_of(cleaned@) =~= Seq::new(
            roots@.len(),
            |i: int| sanitized(roots@[i].path@, 1024),
        ));
        assert(string_views(out@) =~= crate::selector::scoring::texts_of(out@));
    }
    Ok(out)
}

} // verus!
