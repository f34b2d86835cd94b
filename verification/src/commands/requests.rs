//! The requests that lead to work on the disk: what each checks before
//! anything is moved, and what it answers once the work is done.
//!
//! A request comes in two halves where the disk is touched in between: the
//! first says what is to be done or why nothing is done, the second notes
//! what happened.

use crate::commands::{
    delete_outcome, ensure_within_watched, finish_staged, normalize_directory_path,
    normalize_existing_path, path_verdict,
    require_text, validate_file_ids, validate_max_total, validate_path, watched_root_to_folder,
    within_some_root, CommandError, DeleteOutcome, DirectoryEntry, GetCandidatesBucketedParams,
    PathProbe, WatchedFolder, normal_form, folder_name,
};
use crate::db::database::{
    contains_id, contains_text, root_created_asc_keys, string_views, unstaged, unstaged_slots,
    Database,
};
use crate::order::arranged;
use crate::models::StagedStatus;
use crate::ops::delete::{DeleteAttempt, DeleteResult, Platform};
use crate::paths::{parent_dir, parent_dir_of};
use crate::ops::undo::UndoResult;
use crate::seqs::{masked, pick_by_mask};
use crate::scanner::queue::{ScanRuntime, ScanState, ScanStatusPayload};
use crate::selector::scoring::Candidate;
use crate::selector::{
    all_bucket_files, candidate_views, confidences_in_range, distinct_candidate_ids,
    ranks_are_scores, scores_in_range, selection, standard_config,
    FileSelector, ScoredBuckets,
};
use crate::text::{
    chars_of, join2, same_text, signed_decimal_string, signed_decimal_text, string_of,
    trimmed_text,
};
use vstd::prelude::*;
use vstd::string::StringExecFns;

verus! {

/// The roots of a scan of everything that is watched: all of them, and at
/// least one.
pub fn rescan_all(watched: Vec<String>) -> (out: Result<Vec<String>, CommandError>)
    ensures
        match out {
            Ok(roots) => watched@.len() > 0 && roots == watched,
            Err(e) => watched@.len() == 0 && e is Validation && e.detail()
                == "No scan roots configured"@,
        },
{
    if watched.len() == 0 {
        return Err(CommandError::Validation(String::from_str("No scan roots configured")));
    }
    Ok(watched)
}

/// The roots that a scan is asked for: those that are named, or, where
/// none is named, all that are watched. At least one is needed.
pub fn requested_roots(paths: Option<Vec<String>>, watched: Vec<String>) -> (out: Result<
    Vec<String>,
    CommandError,
>)
    ensures
        match out {
            Ok(roots) => roots@.len() > 0 && roots == (match paths {
                Some(named) if named@.len() > 0 => named,
                _ => watched,
            }),
            Err(e) => watched@.len() == 0 && (paths matches Some(named) ==> named@.len() == 0) && e is Validation
                && e.detail() == "No scan roots configured"@,
        },
{
    match paths {
        Some(named) => {
            if named.len() > 0 {
                return Ok(named);
            }
        },
        None => {},
    }
    rescan_all(watched)
}

/// The root of a scan of one watched folder: the directory in the form
/// under which it is registered. `watched` holds the watched roots in
/// their canonical form.
///
/// An empty path and a path that is no directory are validation errors; a
/// directory that is not itself a watched root is refused.
pub fn rescan_folder(path: &str, probe: &PathProbe, watched: &Vec<String>) -> (out: Result<
    String,
    CommandError,
>)
    ensures
        match out {
            Ok(root) => {
                &&& trimmed_text(path@).len() > 0
                &&& probe.is_dir
                &&& root@ == normal_form(path@, *probe)
                &&& string_views(watched@).contains(root@)
            },
            Err(e) => if trimmed_text(path@).len() == 0 {
                e is Validation && e.detail() == "Path cannot be empty"@
            } else if !probe.is_dir {
                e is Validation && e.detail() == "Path is not a directory: "@ + path@
            } else {
                &&& !string_views(watched@).contains(normal_form(path@, *probe))
                &&& e is Permission
                &&& e.detail() == "Path is not a watched root"@
            },
        },
{
    match require_text(path, "Path cannot be empty") {
        Err(e) => {
            return Err(e);
        },
        Ok(_) => {},
    }
    let root = match normalize_directory_path(path, probe) {
        Err(e) => {
            return Err(e);
        },
        Ok(root) => root,
    };
    if !contains_text(watched, &root) {
        return Err(CommandError::Permission(String::from_str("Path is not a watched root")));
    }
    Ok(root)
}

/// The directory whose entries are to be listed: the path in the form
/// under which a directory is registered. `roots` holds the watched roots
/// in their canonical form.
///
/// An empty path and a path that is no directory are validation errors; a
/// directory outside every watched root is refused.
pub fn list_dir(root_path: &str, probe: &PathProbe, roots: &Vec<String>) -> (out: Result<
    String,
    CommandError,
>)
    ensures
        match out {
            Ok(dir) => {
                &&& trimmed_text(root_path@).len() > 0
                &&& probe.is_dir
                &&& dir@ == normal_form(root_path@, *probe)
                &&& within_some_root(dir@, roots@)
            },
            Err(e) => if trimmed_text(root_path@).len() == 0 {
                e is Validation && e.detail() == "Path cannot be empty"@
            } else if !probe.is_dir {
                e is Validation && e.detail() == "Path is not a directory: "@ + root_path@
            } else {
                &&& !within_some_root(normal_form(root_path@, *probe), roots@)
                &&& e is Permission
                &&& e.detail() == "Path must be within a watched folder"@
            },
        },
{
    match require_text(root_path, "Path cannot be empty") {
        Err(e) => {
            return Err(e);
        },
        Ok(_) => {},
    }
    let dir = match normalize_directory_path(root_path, probe) {
        Err(e) => {
            return Err(e);
        },
        Ok(dir) => dir,
    };
    match ensure_within_watched(dir.as_str(), roots) {
        Err(e) => Err(e),
        Ok(_) => Ok(dir),
    }
}

/// What a request for bucketed candidates says where it says nothing:
/// the first hundred candidates, the largest first.
pub fn default_bucketed_params() -> (out: GetCandidatesBucketedParams)
    ensures
        out.limit == Some(100usize),
        out.offset == Some(0usize),
        out.sort is Some && out.sort->0@ == "size_desc"@,
        out.min_confidence is None,
        out.max_results_per_bucket is None,
        out.include_archived is None,
        out.include_deleted is None,
        out.root_path is None,
        out.buckets is None,
{
    GetCandidatesBucketedParams {
        limit: Some(100),
        offset: Some(0),
        min_confidence: None,
        max_results_per_bucket: None,
        include_archived: None,
        include_deleted: None,
        root_path: None,
        buckets: None,
        sort: Some(String::from_str("size_desc")),
    }
}

/// One entry of a directory as it is listed: a directory is a `dir`,
/// anything else a `file`; only a plain file has a size; the time of the
/// last change is given in seconds, and is nothing where it is unknown.
pub fn describe_entry(
    name: String,
    path: String,
    is_dir: bool,
    is_file: bool,
    len: u64,
    modified_secs: Option<i64>,
) -> (out: DirectoryEntry)
    ensures
        out.name == name,
        out.path == path,
        out.kind@ == (if is_dir {
            "dir"@
        } else {
            "file"@
        }),
        out.size == (if is_file {
            len
        } else {
            0
        }),
        out.modified == (match modified_secs {
            Some(at) => at,
            None => 0,
        }),
{
    DirectoryEntry {
        name,
        path,
        kind: if is_dir {
            String::from_str("dir")
        } else {
            String::from_str("file")
        },
        size: if is_file {
            len
        } else {
            0
        },
        modified: match modified_secs {
            Some(at) => at,
            None => 0,
        },
    }
}

/// The watched roots as the shell shows them, earliest registration
/// first. `present` holds the paths of the roots that are there.
pub fn list_folders(db: &Database, present: &Vec<String>) -> (out: Vec<WatchedFolder>)
    requires
        db.wf(),
    ensures
        out@.len() == db.roots().len(),
        forall|k: int|
            0 <= k < out@.len() ==> {
                let root = arranged(db.roots(), root_created_asc_keys(db.roots()))[k];
                &&& (#[trigger] out@[k]).id == root.id
                &&& out@[k].path@ == root.path@
                &&& out@[k].name@ == folder_name(root.path@)
                &&& out@[k].is_accessible == string_views(present@).contains(root.path@)
            },
{
    let roots = db.list_watched_roots();
    let mut out: Vec<WatchedFolder> = Vec::new();
    let mut i: usize = 0;
    while i < roots.len()
        invariant
            i <= roots.len(),
            roots@ == arranged(db.roots(), root_created_asc_keys(db.roots())),
            roots@.len() == db.roots().len(),
            out@.len() == i,
            forall|k: int|
                0 <= k < i ==> {
                    let root = roots@[k];
                    &&& (#[trigger] out@[k]).id == root.id
                    &&& out@[k].path@ == root.path@
                    &&& out@[k].name@ == folder_name(root.path@)
                    &&& out@[k].is_accessible == string_views(present@).contains(root.path@)
                },
        decreases roots.len() - i,
    {
        let there = contains_text(present, &roots[i].path);
        let root = crate::models::Duplicate::duplicate(&roots[i]);
        out.push(watched_root_to_folder(root, there));
        i = i + 1;
    }
    out
}

/// The status of the scan queue as the shell sees it.
pub fn scan_status(runtime: &ScanRuntime) -> (out: ScanStatusPayload)
    ensures
        out.state@ == (if runtime.status.state == ScanState::Idle {
            "idle"@
        } else {
            "running"@
        }),
        out.scanned == runtime.status.scanned,
        out.skipped == runtime.status.skipped,
        out.errors == runtime.status.errors,
        out.started_at == runtime.status.started_at,
        out.finished_at == runtime.status.finished_at,
        out.roots == runtime.status.roots,
        out.current_path == runtime.status.current_path,
        out.last_error == runtime.status.last_error,
{
    runtime.current_status()
}

/// The candidates of the day from the ranked buckets, at most `max_total`
/// of them, which must be from 1 to 1000. No file is proposed twice.
pub fn daily_candidates(max_total: usize, ranked: &ScoredBuckets) -> (out: Result<
    Vec<Candidate>,
    CommandError,
>)
    ensures
        match out {
            Ok(picked) => {
                &&& 0 < max_total <= 1000
                &&& candidate_views(picked@) == selection(
                    *ranked,
                    standard_config(),
                    max_total as nat,
                )
                &&& distinct_candidate_ids(candidate_views(picked@))
                &&& confidences_in_range(picked@)
                &&& ranks_are_scores(all_bucket_files(*ranked)) ==> scores_in_range(picked@)
            },
            Err(e) => e is Validation && (if max_total == 0 {
                e.detail() == "max_total must be greater than 0"@
            } else {
                max_total > 1000 && e.detail() == "max_total too large (max 1000)"@
            }),
        },
{
    match validate_max_total(max_total) {
        Err(e) => {
            return Err(e);
        },
        Ok(_) => {},
    }
    let selector = FileSelector::new();
    Ok(selector.daily_candidates(Some(max_total), ranked))
}

/// The candidates of the day; the same as `daily_candidates`.
pub fn get_candidates(max_total: usize, ranked: &ScoredBuckets) -> (out: Result<
    Vec<Candidate>,
    CommandError,
>)
    ensures
        match out {
            Ok(picked) => {
                &&& 0 < max_total <= 1000
                &&& candidate_views(picked@) == selection(
                    *ranked,
                    standard_config(),
                    max_total as nat,
                )
                &&& distinct_candidate_ids(candidate_views(picked@))
                &&& confidences_in_range(picked@)
                &&& ranks_are_scores(all_bucket_files(*ranked)) ==> scores_in_range(picked@)
            },
            Err(e) => e is Validation && (if max_total == 0 {
                e.detail() == "max_total must be greater than 0"@
            } else {
                max_total > 1000 && e.detail() == "max_total too large (max 1000)"@
            }),
        },
{
    daily_candidates(max_total, ranked)
}

/// The path of the file entry with the identifier `id`.
pub open spec fn path_of(db: &Database, id: i64) -> Seq<char> {
    db.files()[db.index_of_id(id)].path@
}

/// Whether the file with the identifier `id` can be archived or deleted:
/// its entry is there and its path passes the rules for paths. `present`
/// holds the paths that are on disk.
pub open spec fn workable(db: &Database, id: i64, present: Seq<Seq<char>>) -> bool {
    db.has_id(id) && path_verdict(path_of(db, id), present.contains(path_of(db, id))) == 0
}

/// The display form of the refusal of a path.
pub open spec fn refusal_shown(path: Seq<char>, exists: bool) -> Seq<char> {
    if path_verdict(path, exists) == 1 {
        "Validation error: "@ + "Path traversal not allowed"@
    } else if path_verdict(path, exists) == 2 {
        "Not found: "@ + ("Path does not exist: "@ + path)
    } else {
        "Permission error: "@ + "Watching the system root is not supported"@
    }
}

/// Whether `e` is the answer to a request for a file that is not
/// workable: not found where it has no entry, else a validation error
/// that quotes the refusal of its path.
pub open spec fn refuses_work(e: CommandError, db: &Database, id: i64, present: Seq<Seq<char>>) -> bool {
    if !db.has_id(id) {
        e is NotFound && e.detail() == "File with ID "@ + signed_decimal_text(id as int)
            + " not found"@
    } else {
        e is Validation && e.detail() == refusal_shown(
            path_of(db, id),
            present.contains(path_of(db, id)),
        )
    }
}

/// The paths of the files that are to be archived or deleted, in the
/// order of their identifiers. `present` holds the paths that are on
/// disk.
///
/// The identifiers must pass `validate_file_ids`. Then the first
/// identifier that is not workable decides the error, and nothing has
/// been touched.
pub fn paths_to_work_on(file_ids: &[i64], db: &Database, present: &Vec<String>) -> (out: Result<
    Vec<String>,
    CommandError,
>)
    requires
        db.wf(),
    ensures
        match out {
            Ok(paths) => {
                &&& 0 < file_ids@.len() <= 1000
                &&& forall|k: int|
                    0 <= k < file_ids@.len() ==> file_ids@[k] > 0 && workable(
                        db,
                        #[trigger] file_ids@[k],
                        string_views(present@),
                    )
                &&& paths@.len() == file_ids@.len()
                &&& forall|k: int|
                    0 <= k < paths@.len() ==> (#[trigger] paths@[k])@ == path_of(db, file_ids@[k])
            },
            Err(e) => if file_ids@.len() == 0 {
                e is Validation && e.detail() == "No file IDs provided"@
            } else if file_ids@.len() > 1000 {
                e is Validation && e.detail() == "Too many files selected (max 1000)"@
            } else if exists|i: int| 0 <= i < file_ids@.len() && file_ids@[i] <= 0 {
                e is Validation && e.detail() == "Invalid file ID"@
            } else {
                exists|k: int|
                    {
                        &&& 0 <= k < file_ids@.len()
                        &&& !workable(db, #[trigger] file_ids@[k], string_views(present@))
                        &&& forall|j: int|
                            0 <= j < k ==> workable(
                                db,
                                #[trigger] file_ids@[j],
                                string_views(present@),
                            )
                        &&& refuses_work(e, db, file_ids@[k], string_views(present@))
                    }
            },
        },
{
    match validate_file_ids(file_ids) {
        Err(e) => {
            return Err(e);
        },
        Ok(_) => {},
    }
    let mut paths: Vec<String> = Vec::new();
    let mut i: usize = 0;
    while i < file_ids.len()
        invariant
            db.wf(),
            i <= file_ids.len(),
            0 < file_ids@.len() <= 1000,
            forall|k: int| 0 <= k < file_ids@.len() ==> file_ids@[k] > 0,
            forall|k: int|
                0 <= k < i ==> workable(db, #[trigger] file_ids@[k], string_views(present@)),
            paths@.len() == i,
            forall|k: int| 0 <= k < i ==> (#[trigger] paths@[k])@ == path_of(db, file_ids@[k]),
        decreases file_ids.len() - i,
    {
        let id = file_ids[i];
        let file = match db.get_file_by_id(id) {
            Some(f) => f,
            None => {
                let a = join2("File with ID ", signed_decimal_string(id).as_str());
                let e = CommandError::NotFound(join2(a.as_str(), " not found"));
                assert(refuses_work(e, db, file_ids@[i as int], string_views(present@)));
                return Err(e);
            },
        };
        let there = contains_text(present, &file.path);
        match validate_path(file.path.as_str(), there) {
            Ok(_) => {},
            Err(refusal) => {
                let e = CommandError::Validation(refusal.to_string());
                assert(refuses_work(e, db, file_ids@[i as int], string_views(present@)));
                return Err(e);
            },
        }
        paths.push(file.path);
        i = i + 1;
    }
    Ok(paths)
}

/// Whether the file with the identifier `id` can be staged: its entry is
/// there and not marked as gone, and the file is on disk.
pub open spec fn stageable(db: &Database, id: i64, present: Seq<Seq<char>>) -> bool {
    db.has_id(id) && !db.files()[db.index_of_id(id)].is_deleted && present.contains(
        path_of(db, id),
    )
}

/// Whether `e` is the answer to a request for a file that is not
/// stageable.
pub open spec fn refuses_staging(e: CommandError, db: &Database, id: i64) -> bool {
    let number = signed_decimal_text(id as int);
    if !db.has_id(id) {
        e is NotFound && e.detail() == "File with ID "@ + number + " not found"@
    } else if db.files()[db.index_of_id(id)].is_deleted {
        e is Validation && e.detail() == "File with ID "@ + number + " has been deleted"@
    } else {
        e is NotFound && e.detail() == "File with ID "@ + number + " not found on disk"@
    }
}

/// The identifiers of `ids`, each once, in the order in which they first
/// occur.
pub open spec fn each_once(ids: Seq<i64>) -> Seq<i64>
    decreases ids.len(),
{
    if ids.len() == 0 {
        Seq::empty()
    } else {
        let rest = each_once(ids.drop_last());
        if rest.contains(ids.last()) {
            rest
        } else {
            rest.push(ids.last())
        }
    }
}

/// Every identifier of `ids` is one of `each_once(ids)`.
pub proof fn lemma_each_once_covers(ids: Seq<i64>, k: int)
    requires
        0 <= k < ids.len(),
    ensures
        each_once(ids).contains(ids[k]),
    decreases ids.len(),
{
    let rest = each_once(ids.drop_last());
    if k < ids.len() - 1 {
        lemma_each_once_covers(ids.drop_last(), k);
        assert(ids.drop_last()[k] == ids[k]);
        let at = choose|at: int| 0 <= at < rest.len() && rest[at] == ids[k];
        if !rest.contains(ids.last()) {
            assert(rest.push(ids.last())[at] == ids[k]);
        }
    } else {
        if !rest.contains(ids.last()) {
            assert(rest.push(ids.last())[rest.len() as int] == ids[k]);
        }
    }
}

/// The files that are to be staged: their identifiers, each once in the
/// order in which they first occur, and their paths. `present` holds the
/// paths that are on disk.
///
/// The identifiers must pass `validate_file_ids`. Then the first
/// identifier that is not stageable decides the error, and nothing has
/// been touched.
pub fn paths_to_stage(file_ids: &[i64], db: &Database, present: &Vec<String>) -> (out: Result<
    (Vec<i64>, Vec<String>),
    CommandError,
>)
    requires
        db.wf(),
    ensures
        match out {
            Ok((ids, paths)) => {
                &&& 0 < file_ids@.len() <= 1000
                &&& forall|k: int|
                    0 <= k < file_ids@.len() ==> file_ids@[k] > 0 && stageable(
                        db,
                        #[trigger] file_ids@[k],
                        string_views(present@),
                    )
                &&& ids@ == each_once(file_ids@)
                &&& paths@.len() == ids@.len() > 0
                &&& forall|k: int|
                    0 <= k < paths@.len() ==> (#[trigger] paths@[k])@ == path_of(db, ids@[k])
            },
            Err(e) => if file_ids@.len() == 0 {
                e is Validation && e.detail() == "No file IDs provided"@
            } else if file_ids@.len() > 1000 {
                e is Validation && e.detail() == "Too many files selected (max 1000)"@
            } else if exists|i: int| 0 <= i < file_ids@.len() && file_ids@[i] <= 0 {
                e is Validation && e.detail() == "Invalid file ID"@
            } else {
                exists|k: int|
                    {
                        &&& 0 <= k < file_ids@.len()
                        &&& !stageable(db, #[trigger] file_ids@[k], string_views(present@))
                        &&& forall|j: int|
                            0 <= j < k ==> stageable(
                                db,
                                #[trigger] file_ids@[j],
                                string_views(present@),
                            )
                        &&& refuses_staging(e, db, file_ids@[k])
                    }
            },
        },
{
    match validate_file_ids(file_ids) {
        Err(e) => {
            return Err(e);
        },
        Ok(_) => {},
    }
    let mut ids: Vec<i64> = Vec::new();
    let mut paths: Vec<String> = Vec::new();
    let mut i: usize = 0;
    assert(file_ids@.take(0) =~= Seq::<i64>::empty());
    while i < file_ids.len()
        invariant
            db.wf(),
            i <= file_ids.len(),
            0 < file_ids@.len() <= 1000,
            forall|k: int| 0 <= k < file_ids@.len() ==> file_ids@[k] > 0,
            forall|k: int|
                0 <= k < i ==> stageable(db, #[trigger] file_ids@[k], string_views(present@)),
            ids@ == each_once(file_ids@.take(i as int)),
            forall|k: int|
                0 <= k < ids@.len() ==> stageable(db, #[trigger] ids@[k], string_views(present@)),
            paths@.len() == ids@.len(),
            forall|k: int| 0 <= k < paths@.len() ==> (#[trigger] paths@[k])@ == path_of(db, ids@[k]),
        decreases file_ids.len() - i,
    {
        proof {
            assert(file_ids@.take(i + 1).drop_last() == file_ids@.take(i as int));
            assert(file_ids@.take(i + 1).last() == file_ids@[i as int]);
        }
        let id = file_ids[i];
        if !contains_id(&ids, id) {
            let number = signed_decimal_string(id);
            let lead = join2("File with ID ", number.as_str());
            let file = match db.get_file_by_id(id) {
                Some(f) => f,
                None => {
                    let e = CommandError::NotFound(join2(lead.as_str(), " not found"));
                    assert(refuses_staging(e, db, file_ids@[i as int]));
                    return Err(e);
                },
            };
            if file.is_deleted {
                let e = CommandError::Validation(join2(lead.as_str(), " has been deleted"));
                assert(refuses_staging(e, db, file_ids@[i as int]));
                return Err(e);
            }
            if !contains_text(present, &file.path) {
                let e = CommandError::NotFound(join2(lead.as_str(), " not found on disk"));
                assert(refuses_staging(e, db, file_ids@[i as int]));
                return Err(e);
            }
            ids.push(id);
            paths.push(file.path);
        } else {
            proof {
                let at = choose|at: int| 0 <= at < ids@.len() && ids@[at] == id;
                assert(stageable(db, ids@[at], string_views(present@)));
            }
        }
        i = i + 1;
    }
    proof {
        assert(file_ids@.take(file_ids@.len() as int) == file_ids@);
        lemma_each_once_covers(file_ids@, 0);
    }
    Ok((ids, paths))
}

/// The program that shows a path, and what it is told.
#[derive(Debug, Clone)]
pub struct OpenCommand {
    pub program: String,
    pub args: Vec<String>,
}

/// The directory that is shown for a path: the path itself where it is a
/// directory, else the directory that holds it, or the path where nothing
/// holds it.
pub open spec fn shown_dir(path: Seq<char>, is_dir: bool) -> Seq<char> {
    if is_dir || parent_dir(path).len() == 0 {
        path
    } else {
        parent_dir(path)
    }
}

/// The path as Windows writes it: with a backslash for each slash.
pub open spec fn backslashed(path: Seq<char>) -> Seq<char> {
    Seq::new(
        path.len(),
        |i: int|
            if path[i] == '/' {
                '\\'
            } else {
                path[i]
            },
    )
}

fn with_backslashes(path: &str) -> (out: String)
    ensures
        out@ == backslashed(path@),
{
    let chars = chars_of(path);
    let mut out: Vec<char> = Vec::new();
    let mut i: usize = 0;
    while i < chars.len()
        invariant
            i <= chars.len(),
            chars@ == path@,
            out@.len() == i,
            forall|k: int| 0 <= k < i ==> out@[k] == backslashed(path@)[k],
        decreases chars.len() - i,
    {
        let c = chars[i];
        out.push(
            if c == '/' {
                '\\'
            } else {
                c
            },
        );
        i = i + 1;
    }
    assert(out@ =~= backslashed(path@));
    string_of(&out)
}

fn dir_to_show(path: &str, is_dir: bool) -> (out: String)
    ensures
        out@ == shown_dir(path@, is_dir),
{
    if is_dir {
        return String::from_str(path);
    }
    let parent = parent_dir_of(path);
    if chars_of(parent.as_str()).len() == 0 {
        String::from_str(path)
    } else {
        parent
    }
}

/// What the arguments of an open command say.
pub open spec fn arg_texts(command: OpenCommand) -> Seq<Seq<char>> {
    string_views(command.args@)
}

/// The command that shows `path` in the file manager of the system.
///
/// To reveal a path is to show it selected in the directory that holds
/// it; otherwise its directory is shown. Windows and macOS have an
/// argument for revealing; elsewhere the directory is opened. On a system
/// without a known file manager this is an internal error.
pub fn open_path_with_system(platform: Platform, path: &str, reveal: bool, is_dir: bool) -> (out:
    Result<OpenCommand, CommandError>)
    ensures
        match platform {
            Platform::Windows => out is Ok && out->Ok_0.program@ == "explorer"@ && arg_texts(
                out->Ok_0,
            ) == (if reveal {
                seq!["/select,"@ + backslashed(path@)]
            } else {
                seq![backslashed(shown_dir(path@, is_dir))]
            }),
            Platform::MacOs => out is Ok && out->Ok_0.program@ == "open"@ && arg_texts(out->Ok_0)
                == (if reveal {
                seq!["-R"@, path@]
            } else {
                seq![shown_dir(path@, is_dir)]
            }),
            Platform::Linux => out is Ok && out->Ok_0.program@ == "xdg-open"@ && arg_texts(
                out->Ok_0,
            ) == seq![shown_dir(path@, is_dir)],
            Platform::Other => out matches Err(e) && e is Internal && e.detail()
                == "Unsupported platform for open_in_system"@,
        },
{
    let mut args: Vec<String> = Vec::new();
    match platform {
        Platform::Windows => {
            if reveal {
                let shown = with_backslashes(path);
                args.push(join2("/select,", shown.as_str()));
            } else {
                let dir = dir_to_show(path, is_dir);
                args.push(with_backslashes(dir.as_str()));
            }
            let command = OpenCommand { program: String::from_str("explorer"), args };
            assert(arg_texts(command) =~= (if reveal {
                seq!["/select,"@ + backslashed(path@)]
            } else {
                seq![backslashed(shown_dir(path@, is_dir))]
            }));
            Ok(command)
        },
        Platform::MacOs => {
            if reveal {
                args.push(String::from_str("-R"));
                args.push(String::from_str(path));
            } else {
                args.push(dir_to_show(path, is_dir));
            }
            let command = OpenCommand { program: String::from_str("open"), args };
            assert(arg_texts(command) =~= (if reveal {
                seq!["-R"@, path@]
            } else {
                seq![shown_dir(path@, is_dir)]
            }));
            Ok(command)
        },
        Platform::Linux => {
            args.push(dir_to_show(path, is_dir));
            let command = OpenCommand { program: String::from_str("xdg-open"), args };
            assert(arg_texts(command) =~= seq![shown_dir(path@, is_dir)]);
            Ok(command)
        },
        Platform::Other => Err(
            CommandError::Internal(String::from_str("Unsupported platform for open_in_system")),
        ),
    }
}

/// Whether the file manager did what it was asked: it ended well, or it
/// is the file manager of Windows and ended with the code 1, as it does
/// after showing a directory.
pub fn open_finished(platform: Platform, success: bool, code: Option<i32>) -> (out: Result<
    (),
    CommandError,
>)
    ensures
        out is Ok <==> success || (platform is Windows && code == Some(1i32)),
        out matches Err(e) ==> e is FileSystem && e.detail() == (match platform {
            Platform::Windows => "Explorer returned an error"@,
            Platform::MacOs => "open returned an error"@,
            _ => "xdg-open returned an error"@,
        }),
{
    if success {
        return Ok(());
    }
    match platform {
        Platform::Windows => {
            if code == Some(1) {
                Ok(())
            } else {
                Err(CommandError::FileSystem(String::from_str("Explorer returned an error")))
            }
        },
        Platform::MacOs => Err(
            CommandError::FileSystem(String::from_str("open returned an error")),
        ),
        _ => Err(CommandError::FileSystem(String::from_str("xdg-open returned an error"))),
    }
}

/// The command that shows `path` in the file manager of the system, where
/// the path may be shown: it must not be empty, it must be there, and its
/// directory must be a watched root or lie inside one. `roots` holds the
/// watched roots in their canonical form. A file is revealed and a
/// directory is opened, unless `reveal` says otherwise.
pub fn open_in_system(
    path: &str,
    probe: &PathProbe,
    is_file: bool,
    reveal: Option<bool>,
    roots: &Vec<String>,
    platform: Platform,
) -> (out: Result<OpenCommand, CommandError>)
    ensures
        ({
            let shown = match probe.canonical {
                Some(c) => c@,
                None => path@,
            };
            let revealed = match reveal {
                Some(r) => r,
                None => is_file,
            };
            if trimmed_text(path@).len() == 0 {
                out matches Err(e) && e is Validation && e.detail() == "Path cannot be empty"@
            } else if !probe.exists {
                out matches Err(e) && e is NotFound && e.detail() == "Path not found: "@ + path@
            } else if !within_some_root(shown_dir(shown, probe.is_dir), roots@) {
                out matches Err(e) && e is Permission && e.detail()
                    == "Path must be within a watched folder"@
            } else {
                match platform {
                    Platform::Windows => out is Ok && out->Ok_0.program@ == "explorer"@
                        && arg_texts(out->Ok_0) == (if revealed {
                        seq!["/select,"@ + backslashed(shown)]
                    } else {
                        seq![backslashed(shown_dir(shown, probe.is_dir))]
                    }),
                    Platform::MacOs => out is Ok && out->Ok_0.program@ == "open"@ && arg_texts(
                        out->Ok_0,
                    ) == (if revealed {
                        seq!["-R"@, shown]
                    } else {
                        seq![shown_dir(shown, probe.is_dir)]
                    }),
                    Platform::Linux => out is Ok && out->Ok_0.program@ == "xdg-open"@
                        && arg_texts(out->Ok_0) == seq![shown_dir(shown, probe.is_dir)],
                    Platform::Other => out matches Err(e) && e is Internal && e.detail()
                        == "Unsupported platform for open_in_system"@,
                }
            }
        }),
{
    match require_text(path, "Path cannot be empty") {
        Err(e) => {
            return Err(e);
        },
        Ok(_) => {},
    }
    let shown = match normalize_existing_path(path, probe) {
        Err(e) => {
            return Err(e);
        },
        Ok(shown) => shown,
    };
    let dir = dir_to_show(shown.as_str(), probe.is_dir);
    match ensure_within_watched(dir.as_str(), roots) {
        Err(e) => {
            return Err(e);
        },
        Ok(_) => {},
    }
    let revealed = match reveal {
        Some(r) => r,
        None => is_file,
    };
    open_path_with_system(platform, shown.as_str(), revealed, probe.is_dir)
}

/// For each identifier whether its file is gone: whether the attempt at
/// the same position deleted the file.
pub open spec fn gone_marks(ids: Seq<i64>, attempts: Seq<DeleteAttempt>) -> Seq<bool> {
    Seq::new(ids.len(), |k: int| k < attempts.len() && attempts[k].outcome is Ok)
}

/// Notes what became of the staged files `file_ids` in a delete run whose
/// attempts stand in the order of the identifiers: the files that were
/// deleted leave the stage as emptied, the others stay staged; the answer
/// tells what the run did.
pub fn empty_staged(
    file_ids: &Vec<i64>,
    attempts: &Vec<DeleteAttempt>,
    result: DeleteResult,
    to_trash: bool,
    db: &mut Database,
) -> (out: DeleteOutcome)
    requires
        old(db).wf(),
    ensures
        final(db).wf(),
        final(db).same_log_and_settings(old(db)),
        final(db).files() == unstaged(
            old(db).files(),
            masked(file_ids@, gone_marks(file_ids@, attempts@)),
        ),
        final(db).slots() == unstaged_slots(
            old(db).files(),
            old(db).slots(),
            masked(file_ids@, gone_marks(file_ids@, attempts@)),
        ),
        out.success == (result.errors@.len() == 0),
        out.files_processed == result.files_deleted,
        out.total_bytes_freed == result.total_bytes_freed,
        out.duration_ms == result.duration_ms,
        out.errors == result.errors,
        out.to_trash == to_trash,
{
    let mut marks: Vec<bool> = Vec::new();
    let mut i: usize = 0;
    while i < file_ids.len()
        invariant
            i <= file_ids.len(),
            marks@.len() == i,
            forall|k: int| 0 <= k < i ==> marks@[k] == gone_marks(file_ids@, attempts@)[k],
        decreases file_ids.len() - i,
    {
        let gone = i < attempts.len() && attempts[i].outcome.is_ok();
        marks.push(gone);
        i = i + 1;
    }
    assert(marks@ =~= gone_marks(file_ids@, attempts@));
    let gone_ids = pick_by_mask(file_ids, &marks);
    finish_staged(&gone_ids, StagedStatus::Emptied, db);
    delete_outcome(result, to_trash)
}

/// Notes what became of the staged files `file_ids` in an undo: where
/// the files are back, they leave the stage as restored; where the undo
/// was rolled back, they stay staged.
pub fn settle_restored(file_ids: &Vec<i64>, undo: &UndoResult, db: &mut Database)
    requires
        old(db).wf(),
    ensures
        final(db).wf(),
        final(db).same_log_and_settings(old(db)),
        undo.rollback_performed ==> final(db).same_files(old(db)),
        !undo.rollback_performed ==> {
            &&& final(db).files() == unstaged(old(db).files(), file_ids@)
            &&& final(db).slots() == unstaged_slots(old(db).files(), old(db).slots(), file_ids@)
        },
{
    if !undo.rollback_performed {
        finish_staged(file_ids, StagedStatus::Restored, db);
    }
}

} // verus!
